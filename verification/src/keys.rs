//! Elliptic-curve key derivation, as an opaque external capability: the
//! codec needs to decode a 78-byte extended public key, derive non-hardened
//! children along a path, and hash the resulting compressed key — but never
//! looks inside any of it. Everything here treats keys as plain bytes; the
//! curve arithmetic itself is the outside library's.

use vstd::prelude::*;

verus! {

/// The externally supplied elliptic-curve context a caller hands to script
/// recovery. Passed explicitly so the codec has no hidden global state.
/// Holds `Secp256k1<All>` of the curve library; the context type's own
/// generic is bounded by an outside trait, which cannot be declared here, so
/// the whole struct is opaque.
#[verifier::external_body]
pub struct DerivationContext {
    secp: bitcoincash::secp256k1::Secp256k1<bitcoincash::secp256k1::All>,
}

impl DerivationContext {
    /// Relies on `Secp256k1::new`: builds the library's precomputation
    /// tables; the context carries no other state the codec reads.
    #[verifier::external_body]
    pub fn new() -> DerivationContext {
        DerivationContext { secp: bitcoincash::secp256k1::Secp256k1::new() }
    }
}

/// The 78-byte serialization of the non-hardened child of the extended
/// public key serialized in `xpub`, at `index`.
pub uninterp spec fn child_xpub(xpub: Seq<u8>, index: u32) -> Seq<u8>;

/// The 33-byte compressed public key of the extended public key serialized
/// in `xpub`.
pub uninterp spec fn xpub_pubkey_bytes(xpub: Seq<u8>) -> Seq<u8>;

/// The 20-byte RIPEMD160-of-SHA256 digest of `data`.
pub uninterp spec fn hash160_of(data: Seq<u8>) -> Seq<u8>;

/// Whether the bytes decode as an extended public key: the right length and
/// version, and a valid curve point. A function of the bytes alone.
pub uninterp spec fn xpub_decode_ok(xpub: Seq<u8>) -> bool;

/// Whether the non-hardened child of the extended key serialized in `xpub`
/// exists at `index`: the derivation tweak is valid and the key's depth is
/// not already at its maximum. A function of the bytes and the index alone.
pub uninterp spec fn child_derive_ok(xpub: Seq<u8>, index: u32) -> bool;

/// Relies on bip32's `Xpub::decode`, `ckd_pub` and `encode`: one
/// non-hardened child-key derivation step. Decoding and derivation are
/// deterministic in the key bytes and the index, so both the result and
/// whether there is one are functions of the arguments alone; every failure
/// in the outside code returns an error, mapped to `None`.
#[verifier::external_body]
pub(crate) fn derive_child(ctx: &DerivationContext, xpub: &[u8], index: u32) -> (r: Option<
    Vec<u8>,
>)
    ensures
        (r is Some) <==> (xpub_decode_ok(xpub@) && child_derive_ok(xpub@, index)),
        r matches Some(k) ==> k@ == child_xpub(xpub@, index) && k@.len() == 78,
{
    let key = bitcoincash::bip32::Xpub::decode(xpub).ok()?;
    let child = key.ckd_pub(&ctx.secp, bitcoincash::bip32::ChildNumber::Normal { index }).ok()?;
    Some(child.encode().to_vec())
}

/// Relies on bip32's `Xpub::decode` and `CompressedPublicKey::to_bytes`: the
/// compressed public key carried inside an extended public key. The result
/// depends on the key bytes alone; it exists exactly when they decode, and
/// extracting and serializing the key cannot fail.
#[verifier::external_body]
pub(crate) fn xpub_pubkey(xpub: &[u8]) -> (r: Option<Vec<u8>>)
    ensures
        (r is Some) <==> xpub_decode_ok(xpub@),
        r matches Some(k) ==> k@ == xpub_pubkey_bytes(xpub@) && k@.len() == 33,
{
    let key = bitcoincash::bip32::Xpub::decode(xpub).ok()?;
    Some(key.to_pub().to_bytes().to_vec())
}

/// Relies on the hash160 implementation (RIPEMD160 of SHA256): the result
/// depends on the input bytes alone and is always 20 bytes.
#[verifier::external_body]
pub(crate) fn hash160(data: &[u8]) -> (r: Vec<u8>)
    ensures
        r@ == hash160_of(data@),
        r@.len() == 20,
{
    let digest = <bitcoincash::hashes::hash160::Hash as bitcoincash::hashes::Hash>::hash(data);
    <bitcoincash::hashes::hash160::Hash as bitcoincash::hashes::Hash>::to_byte_array(digest).to_vec()
}

/// The extended key reached from `xpub` by deriving one child per path
/// entry, in order.
pub open spec fn spec_derive_xpub(xpub: Seq<u8>, path: Seq<u32>) -> Seq<u8>
    decreases path.len(),
{
    if path.len() == 0 {
        xpub
    } else {
        spec_derive_xpub(child_xpub(xpub, path[0]), path.skip(1))
    }
}

/// Whether every step of the derivation goes through: the key at each stage
/// decodes, each child exists, and the final key decodes for extraction.
pub open spec fn spec_derive_ok(xpub: Seq<u8>, path: Seq<u32>) -> bool
    decreases path.len(),
{
    if path.len() == 0 {
        xpub_decode_ok(xpub)
    } else {
        &&& xpub_decode_ok(xpub)
        &&& child_derive_ok(xpub, path[0])
        &&& spec_derive_ok(child_xpub(xpub, path[0]), path.skip(1))
    }
}

/// Derives along the whole path and returns the final compressed public
/// key; it succeeds exactly when every step does, and `None` comes back as
/// soon as any step fails.
pub fn derive_pubkey(ctx: &DerivationContext, xpub: &[u8], path: &Vec<u32>) -> (r: Option<Vec<u8>>)
    ensures
        (r is Some) <==> spec_derive_ok(xpub@, path@),
        r matches Some(k) ==> k@ == xpub_pubkey_bytes(spec_derive_xpub(xpub@, path@)) && k@.len()
            == 33,
{
    let mut cur: Vec<u8> = vstd::slice::slice_to_vec(xpub);
    let mut i: usize = 0;
    proof {
        assert(path@.skip(0) =~= path@);
    }
    while i < path.len()
        invariant
            i <= path@.len(),
            spec_derive_xpub(cur@, path@.skip(i as int)) == spec_derive_xpub(xpub@, path@),
            spec_derive_ok(cur@, path@.skip(i as int)) == spec_derive_ok(xpub@, path@),
        decreases path@.len() - i,
    {
        proof {
            assert(path@.skip(i as int).skip(1) =~= path@.skip(i + 1));
            assert(path@.skip(i as int)[0] == path@[i as int]);
        }
        match derive_child(ctx, cur.as_slice(), path[i]) {
            None => {
                return None;
            },
            Some(next) => {
                cur = next;
                i = i + 1;
            },
        }
    }
    proof {
        assert(path@.skip(path@.len() as int) =~= Seq::<u32>::empty());
    }
    xpub_pubkey(cur.as_slice())
}

} // verus!
