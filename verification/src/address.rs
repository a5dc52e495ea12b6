//! Address-level conversions: building a locking script from a decoded
//! checksummed-address payload, and rendering a recognized locking script
//! back as address text. The checksummed text codec itself — alphabet,
//! checksum, prefix — is an outside collaborator; this module only handles
//! the byte-level script shapes on either side of it.

use vstd::prelude::*;
use vstd::string::StringSliceAdditionalSpecFns;

use crate::script::build_p2pkh_script;
use crate::script::build_p2sh20_script;
use crate::script::build_p2sh32_script;
use crate::script::is_p2pkh;
use crate::script::is_p2sh20;
use crate::script::is_p2sh32;
use crate::script::spec_is_p2pkh;
use crate::script::spec_is_p2sh20;
use crate::script::spec_is_p2sh32;
use crate::script::spec_p2pkh_script;
use crate::script::spec_p2sh20_script;
use crate::script::spec_p2sh32_script;

verus! {

/// Which network's address prefix to use.
#[derive(Clone, Copy, Debug, PartialEq, Eq, Structural)]
pub enum Network {
    Bitcoin,
    Testnet,
    Testnet4,
    Scalenet,
    Chipnet,
    Regtest,
}

/// Why an address could not be converted to or from a script.
#[derive(Clone, Copy, Debug, PartialEq, Eq, Structural)]
pub enum AddressError {
    /// The address payload's type tag is not one of the recognized hash
    /// kinds, or its hash has an unusable length.
    UnsupportedAddressType,
    /// The text is not a valid address in any recognized encoding.
    InvalidAddress,
    /// The script matches none of the recognized shapes.
    UnknownScriptType,
}

// ---------------------------------------------------------------------------
// Outside text codec
// ---------------------------------------------------------------------------

/// What the checksummed-address parser yields for a string: the numeric hash
/// type and the hash bytes, or nothing.
pub uninterp spec fn cashaddr_payload(s: Seq<char>) -> Option<(u8, Seq<u8>)>;

/// Strings this guard passes cannot make the checksummed-address parser
/// panic. The parser splits at the first colon (or takes the whole string,
/// with an implied prefix); if the payload part's checksum test passes, it
/// strips the trailing eight checksum symbols, regroups what remains from
/// five bits per symbol into bytes, and reads the version byte — so a
/// payload part of eight or fewer symbols would be sliced out of range, and
/// one of exactly nine symbols leaves a single symbol whose five bits
/// regroup into no byte at all, so the version-byte read would be indexed
/// out of range. The guard therefore demands at least ten bytes after every
/// colon, and at least ten overall: ten symbols leave two past the checksum,
/// enough for one regrouped byte. Payload symbols are single-byte
/// characters, and any other character fails the parser's charset lookup
/// before the dangerous point, so byte counts suffice.
pub open spec fn spec_cashaddr_parse_safe(b: Seq<u8>) -> bool {
    &&& b.len() > 9
    &&& forall|i: int| 0 <= i < b.len() && b[i] == 0x3a ==> b.len() - i > 10
}

/// Whether the text is long enough, before and after any colon, for the
/// checksummed-address parser to be consulted at all.
#[verifier::loop_isolation(false)]
fn cashaddr_parse_safe(s: &str) -> (r: bool)
    ensures
        r == spec_cashaddr_parse_safe(s.spec_bytes()),
{
    let b = s.as_bytes();
    if b.len() <= 9 {
        return false;
    }
    let mut i: usize = 0;
    while i < b.len()
        invariant
            i <= b@.len(),
            forall|j: int| 0 <= j < i ==> !(b@[j] == 0x3a && b@.len() - j <= 10),
        decreases b@.len() - i,
    {
        if b[i] == 0x3a && b.len() - i <= 10 {
            return false;
        }
        i = i + 1;
    }
    true
}

/// Relies on the cashaddr `Payload` parser: decodes checksummed address text
/// into its hash type and hash. The result depends on the string alone; the
/// parser only accepts types up to 15 and hashes of its eight allowed
/// lengths, the longest being 64 bytes. The parser indexes past the eight
/// checksum symbols of the payload part unchecked, so strings whose payload
/// part is that short are left out by the guard below.
#[verifier::external_body]
fn parse_cash_addr(s: &str) -> (r: Option<(u8, Vec<u8>)>)
    requires
        spec_cashaddr_parse_safe(s.spec_bytes()),
    ensures
        r matches Some(p) ==> cashaddr_payload(s@) == Some((p.0, p.1@)) && p.0 <= 15 && p.1@.len()
            <= 64,
        r is None ==> cashaddr_payload(s@) is None,
{
    match s.parse::<cashaddr::Payload>() {
        Ok(p) => Some((p.hash_type().numeric_value(), p.as_ref().to_vec())),
        Err(_) => None,
    }
}

/// Whether a prefix is free of the colon the parser splits at.
pub open spec fn spec_colon_free(prefix: Seq<char>) -> bool {
    forall|i: int| 0 <= i < prefix.len() ==> prefix[i] != ':'
}

/// The pay-to-public-key-hash address text over a hash and prefix.
pub uninterp spec fn cashaddr_p2pkh(hash: Seq<u8>, prefix: Seq<char>) -> Seq<char>;

/// Relies on cashaddr's `CashEnc::encode_p2pkh`: for a 20-byte hash the
/// encoder always succeeds, and the string depends on the hash and prefix
/// alone. The emitted text is the prefix, a colon, and 42 charset symbols
/// (34 payload, 8 checksum); the parser splits at the first colon,
/// recomputes the same checksum, and recovers the same version byte and
/// hash, so for a colon-free prefix parsing the text yields the hash type
/// and hash back, and the text is long enough past its one colon for the
/// parse guard. The library's own round-trip tests exercise exactly this.
#[verifier::external_body]
fn encode_cashaddr_p2pkh(hash: &[u8], prefix: &str) -> (r: String)
    requires
        hash@.len() == 20,
    ensures
        r@ == cashaddr_p2pkh(hash@, prefix@),
        spec_colon_free(prefix@) ==> (cashaddr_payload(r@) == Some((0u8, hash@))
            && spec_cashaddr_parse_safe(vstd::utf8::encode_utf8(r@))),
{
    cashaddr::CashEnc::encode_p2pkh(hash, prefix).unwrap()
}

/// The pay-to-script-hash address text over a hash and prefix.
pub uninterp spec fn cashaddr_p2sh(hash: Seq<u8>, prefix: Seq<char>) -> Seq<char>;

/// Relies on cashaddr's `CashEnc::encode_p2sh`: for a 20- or 32-byte hash
/// the encoder always succeeds, and the string depends on the hash and
/// prefix alone. As with the pay-to-public-key-hash encoder, for a
/// colon-free prefix the parser recovers the hash type and hash from the
/// emitted text, whose 42 or 61 symbols past its one colon satisfy the
/// parse guard.
#[verifier::external_body]
fn encode_cashaddr_p2sh(hash: &[u8], prefix: &str) -> (r: String)
    requires
        hash@.len() == 20 || hash@.len() == 32,
    ensures
        r@ == cashaddr_p2sh(hash@, prefix@),
        spec_colon_free(prefix@) ==> (cashaddr_payload(r@) == Some((1u8, hash@))
            && spec_cashaddr_parse_safe(vstd::utf8::encode_utf8(r@))),
{
    cashaddr::CashEnc::encode_p2sh(hash, prefix).unwrap()
}

/// The locking script of a legacy base58 address, or nothing when the text
/// is not one.
pub uninterp spec fn legacy_address_script(s: Seq<char>) -> Option<Seq<u8>>;

/// Relies on the transaction library's legacy `Address` parser and its
/// `script_pubkey`: the locking script a base58 address pays to. The result
/// depends on the string alone.
#[verifier::external_body]
fn parse_legacy_address_script(s: &str) -> (r: Option<Vec<u8>>)
    ensures
        r matches Some(b) ==> legacy_address_script(s@) == Some(b@),
        r is None ==> legacy_address_script(s@) is None,
{
    let addr = s.parse::<
        bitcoincash::address::Address<bitcoincash::address::NetworkUnchecked>,
    >().ok()?;
    Some(addr.assume_checked().script_pubkey().to_bytes())
}

// ---------------------------------------------------------------------------
// Script construction and recognition
// ---------------------------------------------------------------------------

/// The locking script a decoded address payload dictates: hash types 0 and 2
/// build the pay-to-public-key-hash shape over the hash as given; types 1
/// and 3 build the 20- or 32-byte pay-to-script-hash shape and reject other
/// hash lengths; every other type tag is unsupported.
pub open spec fn spec_build_script(hash_kind: u8, hash: Seq<u8>) -> Result<Seq<u8>, AddressError> {
    if hash_kind == 0 || hash_kind == 2 {
        Ok(spec_p2pkh_script(hash))
    } else if hash_kind == 1 || hash_kind == 3 {
        if hash.len() == 20 {
            Ok(spec_p2sh20_script(hash))
        } else if hash.len() == 32 {
            Ok(spec_p2sh32_script(hash))
        } else {
            Err(AddressError::UnsupportedAddressType)
        }
    } else {
        Err(AddressError::UnsupportedAddressType)
    }
}

/// Builds the locking script for a decoded address payload; an unrecognized
/// type tag fails rather than guessing.
pub fn build_script(hash_kind: u8, hash: &[u8]) -> (r: Result<Vec<u8>, AddressError>)
    requires
        hash@.len() < 0x1_0000_0000,
    ensures
        match r {
            Ok(s) => spec_build_script(hash_kind, hash@) == Ok::<Seq<u8>, AddressError>(s@),
            Err(e) => spec_build_script(hash_kind, hash@) == Err::<Seq<u8>, AddressError>(e),
        },
{
    if hash_kind == 0 || hash_kind == 2 {
        Ok(build_p2pkh_script(hash))
    } else if hash_kind == 1 || hash_kind == 3 {
        if hash.len() == 20 {
            Ok(build_p2sh20_script(hash))
        } else if hash.len() == 32 {
            Ok(build_p2sh32_script(hash))
        } else {
            Err(AddressError::UnsupportedAddressType)
        }
    } else {
        Err(AddressError::UnsupportedAddressType)
    }
}

/// Converts address text into the locking script it pays to: checksummed
/// address text is decoded and the script built from its payload; text that
/// is not such an address — including text whose payload part is too short
/// to be one — is tried as a legacy base58 address; anything else is
/// invalid.
pub fn cash_addr_to_script(addr: &str) -> (r: Result<Vec<u8>, AddressError>)
    ensures
        spec_cashaddr_parse_safe(addr.spec_bytes()) ==> match cashaddr_payload(addr@) {
            Some(p) => match r {
                Ok(s) => spec_build_script(p.0, p.1) == Ok::<Seq<u8>, AddressError>(s@),
                Err(e) => spec_build_script(p.0, p.1) == Err::<Seq<u8>, AddressError>(e),
            },
            None => match legacy_address_script(addr@) {
                Some(b) => r matches Ok(s) && s@ == b,
                None => r == Err::<Vec<u8>, AddressError>(AddressError::InvalidAddress),
            },
        },
        !spec_cashaddr_parse_safe(addr.spec_bytes()) ==> match legacy_address_script(addr@) {
            Some(b) => r matches Ok(s) && s@ == b,
            None => r == Err::<Vec<u8>, AddressError>(AddressError::InvalidAddress),
        },
{
    if cashaddr_parse_safe(addr) {
        match parse_cash_addr(addr) {
            Some((hash_kind, hash)) => build_script(hash_kind, hash.as_slice()),
            None => match parse_legacy_address_script(addr) {
                Some(script) => Ok(script),
                None => Err(AddressError::InvalidAddress),
            },
        }
    } else {
        match parse_legacy_address_script(addr) {
            Some(script) => Ok(script),
            None => Err(AddressError::InvalidAddress),
        }
    }
}

/// The human-readable prefix of each network.
pub open spec fn spec_network_prefix(network: Network) -> Seq<char> {
    match network {
        Network::Bitcoin => "bitcoincash"@,
        Network::Regtest => "bchreg"@,
        Network::Testnet => "bchtest"@,
        Network::Testnet4 => "bchtest"@,
        Network::Scalenet => "bchtest"@,
        Network::Chipnet => "bchtest"@,
    }
}

/// Renders a recognized locking script as checksummed address text for the
/// given network: the 32-byte then the 20-byte pay-to-script-hash shapes,
/// then pay-to-public-key-hash; anything else is an unknown script type.
/// Every network prefix is free of colons, so the checksummed parser splits
/// an address built over it back into the same parts.
pub proof fn lemma_network_prefix_colon_free(network: Network)
    ensures
        spec_colon_free(spec_network_prefix(network)),
{
    reveal_strlit("bitcoincash");
    reveal_strlit("bchreg");
    reveal_strlit("bchtest");
}

/// Renders a recognized locking script as checksummed address text for the
/// given network: the 32-byte then the 20-byte pay-to-script-hash shapes,
/// then pay-to-public-key-hash; anything else is an unknown script type. On
/// success, parsing the text yields the hash type and hash back, building a
/// script from that payload yields the original script, and the text passes
/// the parse guard — so encoding a standard script as address text and
/// converting the text back is the identity.
pub fn script_to_cash_addr(s: &[u8], network: Network) -> (r: Result<String, AddressError>)
    ensures
        match r {
            Ok(a) => {
                ||| (spec_is_p2sh32(s@) && a@ == cashaddr_p2sh(
                    s@.subrange(2, 34),
                    spec_network_prefix(network),
                ) && cashaddr_payload(a@) == Some((1u8, s@.subrange(2, 34))) && spec_build_script(
                    1,
                    s@.subrange(2, 34),
                ) == Ok::<Seq<u8>, AddressError>(s@) && spec_cashaddr_parse_safe(
                    vstd::utf8::encode_utf8(a@),
                ))
                ||| (!spec_is_p2sh32(s@) && spec_is_p2sh20(s@) && a@ == cashaddr_p2sh(
                    s@.subrange(2, 22),
                    spec_network_prefix(network),
                ) && cashaddr_payload(a@) == Some((1u8, s@.subrange(2, 22))) && spec_build_script(
                    1,
                    s@.subrange(2, 22),
                ) == Ok::<Seq<u8>, AddressError>(s@) && spec_cashaddr_parse_safe(
                    vstd::utf8::encode_utf8(a@),
                ))
                ||| (!spec_is_p2sh32(s@) && !spec_is_p2sh20(s@) && spec_is_p2pkh(s@) && a@
                    == cashaddr_p2pkh(s@.subrange(3, 23), spec_network_prefix(network))
                    && cashaddr_payload(a@) == Some((0u8, s@.subrange(3, 23)))
                    && spec_build_script(0, s@.subrange(3, 23)) == Ok::<Seq<u8>, AddressError>(s@)
                    && spec_cashaddr_parse_safe(vstd::utf8::encode_utf8(a@)))
            },
            Err(e) => e == AddressError::UnknownScriptType && !spec_is_p2sh32(s@)
                && !spec_is_p2sh20(s@) && !spec_is_p2pkh(s@),
        },
{
    let prefix: &str = match network {
        Network::Bitcoin => "bitcoincash",
        Network::Regtest => "bchreg",
        Network::Testnet => "bchtest",
        Network::Testnet4 => "bchtest",
        Network::Scalenet => "bchtest",
        Network::Chipnet => "bchtest",
    };
    proof {
        assert(prefix@ == spec_network_prefix(network));
        lemma_network_prefix_colon_free(network);
    }
    if is_p2sh32(s) {
        let hash = vstd::slice::slice_subrange(s, 2, 34);
        proof {
            crate::script::lemma_p2sh32_reconstruct(s@);
        }
        Ok(encode_cashaddr_p2sh(hash, prefix))
    } else if is_p2sh20(s) {
        let hash = vstd::slice::slice_subrange(s, 2, 22);
        proof {
            crate::script::lemma_p2sh20_reconstruct(s@);
        }
        Ok(encode_cashaddr_p2sh(hash, prefix))
    } else if is_p2pkh(s) {
        let hash = vstd::slice::slice_subrange(s, 3, 23);
        proof {
            crate::script::lemma_p2pkh_reconstruct(s@);
        }
        Ok(encode_cashaddr_p2pkh(hash, prefix))
    } else {
        Err(AddressError::UnknownScriptType)
    }
}

} // verus!
