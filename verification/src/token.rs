//! The CashToken payload: its in-memory form, its bitfield rules, and its
//! binary encoding.

use vstd::prelude::*;

use crate::DecodeError;
use crate::encoding::lemma_read_blob_round_trip;
use crate::encoding::lemma_read_varint_round_trip;
use crate::encoding::lemma_skip_skip;
use crate::encoding::read_blob;
use crate::encoding::read_varint;
use crate::encoding::spec_encode_blob;
use crate::encoding::spec_encode_varint;
use crate::encoding::spec_read_blob;
use crate::encoding::spec_read_varint;
use crate::encoding::write_blob;
use crate::encoding::write_varint;

verus! {

broadcast use vstd::seq_lib::group_seq_properties;

/// Bitfield bit: a fungible amount follows.
pub const HAS_AMOUNT: u8 = 0x10;

/// Bitfield bit: the payload describes a non-fungible token.
pub const HAS_NFT: u8 = 0x20;

/// Bitfield bit: a commitment length and commitment follow.
pub const HAS_COMMITMENT_LENGTH: u8 = 0x40;

/// Bitfield bit: reserved, must be clear.
pub const RESERVED_BIT: u8 = 0x80;

/// Capability nibble: the non-fungible token is mutable.
pub const CAPABILITY_MUTABLE: u8 = 0x01;

/// Capability nibble: the non-fungible token can mint others.
pub const CAPABILITY_MINTING: u8 = 0x02;

/// Token payload attached to an output, or remembered for an unsigned input's
/// previous output: a 32-byte category id, the bitfield saying which parts
/// are present, a fungible amount (zero when absent) and a non-fungible
/// commitment (empty when absent).
#[derive(Clone, Debug, PartialEq, Eq)]
pub struct TokenData {
    /// Token category id, 32 bytes.
    pub id: Vec<u8>,
    /// Structure and capability bitfield.
    pub bitfield: u8,
    /// Fungible amount; zero exactly when the amount bit is clear.
    pub amount: i64,
    /// Non-fungible commitment; empty exactly when the commitment bit is clear.
    pub commitment: Vec<u8>,
}

/// Specification-level counterpart of [`TokenData`].
#[verifier::ext_equal]
pub ghost struct TokenDataV {
    pub id: Seq<u8>,
    pub bitfield: u8,
    pub amount: i64,
    pub commitment: Seq<u8>,
}

impl View for TokenData {
    type V = TokenDataV;

    open spec fn view(&self) -> TokenDataV {
        TokenDataV {
            id: self.id@,
            bitfield: self.bitfield,
            amount: self.amount,
            commitment: self.commitment@,
        }
    }
}

/// A bitfield byte is valid when the reserved bit is clear, at least one
/// structure bit is set, the capability nibble is at most the minting value,
/// a pure-fungible payload (no non-fungible bit) carries no capability and no
/// commitment, and the payload encodes at least one of an amount or a
/// non-fungible token.
pub open spec fn spec_valid_bitfield(b: u8) -> bool {
    let structure = b & 0xf0;
    let has_nft = b & HAS_NFT != 0;
    let has_amount = b & HAS_AMOUNT != 0;
    let has_commitment_length = b & HAS_COMMITMENT_LENGTH != 0;
    &&& !(structure >= RESERVED_BIT || structure == 0x00)
    &&& (b & 0x0f) <= CAPABILITY_MINTING
    &&& (has_nft || has_amount)
    &&& (!has_nft ==> (b & 0x0f) == 0)
    &&& (!has_nft ==> !has_commitment_length)
}

pub fn valid_bitfield(b: u8) -> (r: bool)
    ensures
        r == spec_valid_bitfield(b),
{
    let structure = b & 0xf0;
    if structure >= RESERVED_BIT || structure == 0x00 {
        return false;
    }
    let has_nft = b & HAS_NFT != 0;
    let has_amount = b & HAS_AMOUNT != 0;
    let has_commitment_length = b & HAS_COMMITMENT_LENGTH != 0;
    if (b & 0x0f) > CAPABILITY_MINTING {
        return false;
    }
    if !has_nft && !has_amount {
        return false;
    }
    if !has_nft && (b & 0x0f) != 0 {
        return false;
    }
    if !has_nft && has_commitment_length {
        return false;
    }
    true
}

impl TokenDataV {
    pub open spec fn has_amount(self) -> bool {
        self.bitfield & HAS_AMOUNT != 0
    }

    pub open spec fn has_nft(self) -> bool {
        self.bitfield & HAS_NFT != 0
    }

    pub open spec fn has_commitment_length(self) -> bool {
        self.bitfield & HAS_COMMITMENT_LENGTH != 0
    }

    pub open spec fn capability(self) -> u8 {
        self.bitfield & 0x0f
    }

    /// A token payload the encoder accepts: a valid bitfield whose presence
    /// bits agree exactly with which optional fields are non-default.
    pub open spec fn wf(self) -> bool {
        &&& self.id.len() == 32
        &&& spec_valid_bitfield(self.bitfield)
        &&& self.has_commitment_length() <==> self.commitment.len() > 0
        &&& self.has_amount() <==> self.amount > 0
        &&& self.amount >= 0
        &&& self.commitment.len() <= u64::MAX
    }
}

impl TokenData {
    /// The payload encodes a fungible amount.
    pub fn has_amount(&self) -> (r: bool)
        ensures
            r == self@.has_amount(),
    {
        self.bitfield & HAS_AMOUNT != 0
    }

    /// The payload encodes a non-fungible token.
    pub fn has_nft(&self) -> (r: bool)
        ensures
            r == self@.has_nft(),
    {
        self.bitfield & HAS_NFT != 0
    }

    /// The payload encodes a commitment length and commitment.
    pub fn has_commitment_length(&self) -> (r: bool)
        ensures
            r == self@.has_commitment_length(),
    {
        self.bitfield & HAS_COMMITMENT_LENGTH != 0
    }

    /// The capability nibble.
    pub fn capability(&self) -> (r: u8)
        ensures
            r == self@.capability(),
    {
        self.bitfield & 0x0f
    }

    /// The payload encodes a non-fungible token with the minting capability.
    pub fn is_minting_nft(&self) -> (r: bool)
        ensures
            r == (self@.has_nft() && self@.capability() & CAPABILITY_MINTING != 0),
    {
        self.has_nft() && (self.capability() & CAPABILITY_MINTING) != 0
    }
}

// ---------------------------------------------------------------------------
// Codec
// ---------------------------------------------------------------------------

/// The token payload encoding: category id, bitfield, then the commitment as
/// a length-prefixed blob if its bit is set, then the amount as a
/// variable-length integer if its bit is set.
pub open spec fn spec_encode_token(t: TokenDataV) -> Seq<u8> {
    t.id + seq![t.bitfield] + (if t.has_commitment_length() {
        spec_encode_blob(t.commitment)
    } else {
        Seq::<u8>::empty()
    }) + (if t.has_amount() {
        spec_encode_varint(t.amount as u64)
    } else {
        Seq::<u8>::empty()
    })
}

/// Reads a token payload, rejecting an invalid bitfield, an empty commitment
/// under a set commitment bit, and a zero or out-of-range amount under a set
/// amount bit.
#[verifier::opaque]
pub open spec fn spec_read_token(s: Seq<u8>) -> Result<(TokenDataV, int), DecodeError> {
    if s.len() < 33 {
        Err(DecodeError::Truncated)
    } else {
        let id = s.subrange(0, 32);
        let b = s[32];
        if !spec_valid_bitfield(b) {
            Err(DecodeError::MalformedTokenPayload)
        } else {
            let commitment_part = if b & HAS_COMMITMENT_LENGTH != 0 {
                match spec_read_blob(s.skip(33)) {
                    Err(e) => Err(e),
                    Ok((c, k)) => if c.len() == 0 {
                        Err(DecodeError::MalformedTokenPayload)
                    } else {
                        Ok((c, k))
                    },
                }
            } else {
                Ok((Seq::<u8>::empty(), 0int))
            };
            match commitment_part {
                Err(e) => Err(e),
                Ok((commitment, kc)) => {
                    let amount_part = if b & HAS_AMOUNT != 0 {
                        match spec_read_varint(s.skip(33 + kc)) {
                            Err(e) => Err(e),
                            Ok((v, ka)) => if v == 0 || v > i64::MAX as u64 {
                                Err(DecodeError::MalformedTokenPayload)
                            } else {
                                Ok((v as i64, ka))
                            },
                        }
                    } else {
                        Ok((0i64, 0int))
                    };
                    match amount_part {
                        Err(e) => Err(e),
                        Ok((amount, ka)) => Ok(
                            (TokenDataV { id, bitfield: b, amount, commitment }, 33 + kc + ka),
                        ),
                    }
                },
            }
        }
    }
}

/// Appends the token payload encoding.
pub fn encode_token(out: &mut Vec<u8>, t: &TokenData)
    requires
        t@.wf(),
    ensures
        final(out)@ == old(out)@ + spec_encode_token(t@),
{
    let mut id = t.id.clone();
    out.append(&mut id);
    out.push(t.bitfield);
    if t.has_commitment_length() {
        write_blob(out, t.commitment.as_slice());
    }
    if t.has_amount() {
        write_varint(out, t.amount as u64);
    }
    proof {
        assert(out@ =~= old(out)@ + spec_encode_token(t@));
    }
}

/// Decodes a token payload starting at `pos`.
pub fn decode_token(data: &[u8], pos: usize) -> (r: Result<(TokenData, usize), DecodeError>)
    requires
        pos <= data@.len(),
    ensures
        match r {
            Ok((t, end)) => pos <= end <= data@.len() && (spec_read_token(
                data@.skip(pos as int),
            ) matches Ok(p) && p.0 == t@ && p.1 == end - pos),
            Err(e) => spec_read_token(data@.skip(pos as int)) == Err::<
                (TokenDataV, int),
                DecodeError,
            >(e),
        },
{
    proof {
        reveal(spec_read_token);
    }
    let ghost s = data@.skip(pos as int);
    if data.len() - pos < 33 {
        return Err(DecodeError::Truncated);
    }
    let id = vstd::slice::slice_to_vec(vstd::slice::slice_subrange(data, pos, pos + 32));
    let b = data[pos + 32];
    proof {
        assert(data@.subrange(pos as int, pos + 32) =~= s.subrange(0, 32));
        assert(s[32] == b);
    }
    if !valid_bitfield(b) {
        return Err(DecodeError::MalformedTokenPayload);
    }
    let mut cursor = pos + 33;
    proof {
        lemma_skip_skip(data@, pos as int, 33);
    }
    let commitment: Vec<u8> = if b & HAS_COMMITMENT_LENGTH != 0 {
        match read_blob(data, cursor) {
            Err(e) => {
                return Err(e);
            },
            Ok((c, end)) => {
                if c.len() == 0 {
                    return Err(DecodeError::MalformedTokenPayload);
                }
                cursor = end;
                c
            },
        }
    } else {
        Vec::new()
    };
    let ghost kc = cursor - (pos + 33);
    proof {
        lemma_skip_skip(data@, pos as int, 33 + kc);
    }
    let amount: i64 = if b & HAS_AMOUNT != 0 {
        match read_varint(data, cursor) {
            Err(e) => {
                return Err(e);
            },
            Ok((v, end)) => {
                if v == 0 || v > i64::MAX as u64 {
                    return Err(DecodeError::MalformedTokenPayload);
                }
                cursor = end;
                v as i64
            },
        }
    } else {
        0
    };
    Ok((TokenData { id, bitfield: b, amount, commitment }, cursor))
}

/// A decoded token payload is well formed: in particular its bitfield agrees
/// with which fields are present, so a payload whose stored bitfield
/// disagrees with the fields it carries cannot come out of a decode.
pub proof fn lemma_decoded_token_wf(s: Seq<u8>)
    ensures
        spec_read_token(s) matches Ok(p) ==> p.0.wf(),
{
    reveal(spec_read_token);
    match spec_read_token(s) {
        Ok(p) => {
            let b = s[32];
            assert(spec_valid_bitfield(b));
            assert(b & HAS_AMOUNT != 0 ==> p.0.amount > 0);
        },
        Err(_) => {},
    }
}

/// An encoded well-formed token payload decodes back to the same value,
/// consuming exactly its own bytes, whatever follows it.
pub proof fn lemma_token_round_trip(t: TokenDataV, rest: Seq<u8>)
    requires
        t.wf(),
    ensures
        spec_read_token(spec_encode_token(t) + rest) matches Ok(p) && p.0 == t && p.1
            == spec_encode_token(t).len(),
{
    reveal(spec_read_token);
    let s = spec_encode_token(t) + rest;
    let cpart: Seq<u8> = if t.has_commitment_length() {
        spec_encode_blob(t.commitment)
    } else {
        Seq::<u8>::empty()
    };
    let apart: Seq<u8> = if t.has_amount() {
        spec_encode_varint(t.amount as u64)
    } else {
        Seq::<u8>::empty()
    };
    assert(s =~= t.id + seq![t.bitfield] + cpart + apart + rest);
    assert(s.subrange(0, 32) =~= t.id);
    assert(s[32] == t.bitfield);
    assert(s.skip(33) =~= cpart + (apart + rest));
    if t.has_commitment_length() {
        lemma_read_blob_round_trip(t.commitment, apart + rest);
    }
    let kc = cpart.len() as int;
    assert(s.skip(33 + kc) =~= apart + rest);
    if t.has_amount() {
        lemma_read_varint_round_trip(t.amount as u64, rest);
    }
    match spec_read_token(s) {
        Ok(p) => {
            assert(p.0 =~= t);
        },
        Err(_) => {},
    }
}

// ---------------------------------------------------------------------------
// Building a token payload from form fields
// ---------------------------------------------------------------------------

/// Capability class of a non-fungible token; the three classes are mutually
/// exclusive.
#[derive(Clone, Copy, Debug, PartialEq, Eq, Structural)]
pub enum NftCapability {
    Immutable,
    Mutable,
    Minting,
}

impl NftCapability {
    /// The capability nibble this class contributes to the bitfield.
    pub fn capability_bits(self) -> (r: u8)
        ensures
            r == self.spec_capability_bits(),
    {
        match self {
            NftCapability::Immutable => 0,
            NftCapability::Mutable => CAPABILITY_MUTABLE,
            NftCapability::Minting => CAPABILITY_MINTING,
        }
    }

    pub open spec fn spec_capability_bits(self) -> u8 {
        match self {
            NftCapability::Immutable => 0,
            NftCapability::Mutable => CAPABILITY_MUTABLE,
            NftCapability::Minting => CAPABILITY_MINTING,
        }
    }
}

impl Default for NftCapability {
    fn default() -> (r: Self)
        ensures
            r == NftCapability::Immutable,
    {
        NftCapability::Immutable
    }
}

/// Why a token payload could not be built from field values.
#[derive(Clone, Copy, Debug, PartialEq, Eq, Structural)]
pub enum TokenFieldError {
    /// The fungible amount is enabled but zero.
    ZeroAmount,
    /// The fungible amount does not fit a signed 64-bit integer.
    AmountTooLarge,
    /// The category id is not 32 bytes.
    BadCategoryId,
}

/// The bitfield that the field values themselves dictate.
pub open spec fn spec_derived_bitfield(
    amount: i64,
    has_nft: bool,
    capability: u8,
    commitment: Seq<u8>,
) -> u8 {
    (if amount != 0 {
        HAS_AMOUNT
    } else {
        0
    }) | (if has_nft {
        HAS_NFT
    } else {
        0
    }) | (if commitment.len() > 0 {
        HAS_COMMITMENT_LENGTH
    } else {
        0
    }) | capability
}

/// The bitfield of a well-formed token payload is exactly the one re-derived
/// from its amount, its non-fungible bit, its capability and its commitment:
/// storing the payload keeps no presence information of its own.
pub proof fn lemma_bitfield_consistency(t: TokenDataV)
    requires
        t.wf(),
    ensures
        t.bitfield == spec_derived_bitfield(t.amount, t.has_nft(), t.capability(), t.commitment),
{
    let b = t.bitfield;
    assert(b & 0xf0 < 0x80);
    assert((t.amount != 0) == (b & HAS_AMOUNT != 0));
    assert((t.commitment.len() > 0) == (b & HAS_COMMITMENT_LENGTH != 0));
    assert(((if b & 0x10 != 0 {
        0x10u8
    } else {
        0u8
    }) | (if b & 0x20 != 0 {
        0x20u8
    } else {
        0u8
    }) | (if b & 0x40 != 0 {
        0x40u8
    } else {
        0u8
    }) | (b & 0x0f)) == b) by (bit_vector)
        requires
            b & 0xf0 < 0x80,
    ;
}

/// A payload whose bitfield is derived from its own fields is well formed,
/// provided the fields themselves are in range and at least one of an amount
/// or a non-fungible token is present.
pub proof fn lemma_derived_bitfield_wf(t: TokenDataV, has_nft: bool, cap: u8)
    requires
        cap <= 2,
        !has_nft ==> cap == 0,
        t.bitfield == spec_derived_bitfield(t.amount, has_nft, cap, t.commitment),
        t.amount >= 0,
        !has_nft ==> t.commitment.len() == 0,
        t.id.len() == 32,
        t.commitment.len() <= u64::MAX,
        t.amount > 0 || has_nft,
    ensures
        t.wf(),
{
    let b = t.bitfield;
    let a: u8 = if t.amount != 0 {
        HAS_AMOUNT
    } else {
        0
    };
    let n: u8 = if has_nft {
        HAS_NFT
    } else {
        0
    };
    let c: u8 = if t.commitment.len() > 0 {
        HAS_COMMITMENT_LENGTH
    } else {
        0
    };
    assert(b == (a | n | c | cap));
    assert((b & 0x10 == a) && (b & 0x20 == n) && (b & 0x40 == c) && (b & 0x0f == cap) && (b & 0xf0
        == (a | n | c)) && (b & 0xf0 < 0x80) && (((a | n | c) == 0) == (a == 0 && n == 0 && c
        == 0))) by (bit_vector)
        requires
            (a == 0 || a == 0x10),
            (n == 0 || n == 0x20),
            (c == 0 || c == 0x40),
            cap <= 2,
            b == (a | n | c | cap),
    ;
}

/// The plain field values a token payload is edited as: mirrors a form with
/// an enable switch, a category id, an optional fungible amount, and an
/// optional non-fungible token with capability and commitment.
#[derive(Clone, Debug, PartialEq, Eq)]
pub struct TokenDataState {
    pub cashtoken_enabled: bool,
    /// Token category id, 32 bytes when a payload is to be built.
    pub category_id: Vec<u8>,
    pub has_ft_amount: bool,
    pub ft_amount: u64,
    pub has_nft: bool,
    pub nft_capability: NftCapability,
    pub nft_commitment: Vec<u8>,
    /// Identity of the form this state belongs to.
    pub key: usize,
}

impl TokenDataState {
    /// Fresh state: everything disabled and empty.
    pub fn new(key: usize) -> (r: Self)
        ensures
            r.cashtoken_enabled == false,
            r.category_id@ == Seq::<u8>::empty(),
            r.has_ft_amount == false,
            r.ft_amount == 0,
            r.has_nft == false,
            r.nft_capability == NftCapability::Immutable,
            r.nft_commitment@ == Seq::<u8>::empty(),
            r.key == key,
    {
        TokenDataState {
            cashtoken_enabled: false,
            category_id: Vec::new(),
            has_ft_amount: false,
            ft_amount: 0,
            has_nft: false,
            nft_capability: NftCapability::Immutable,
            nft_commitment: Vec::new(),
            key,
        }
    }

    /// Builds the token payload these fields describe, re-deriving the
    /// bitfield from the values: `None` when tokens are disabled, an error
    /// when the amount is enabled but zero or too large, or the category id
    /// is not 32 bytes. The arms below are mutually exclusive, so the result
    /// is fixed for every input: the amount is checked before the category
    /// id, as the error clauses record.
    pub fn token_data(&self) -> (r: Result<Option<TokenData>, TokenFieldError>)
        ensures
            match r {
                Ok(None) => !self.cashtoken_enabled,
                Ok(Some(t)) => {
                    &&& self.cashtoken_enabled
                    &&& (self.has_ft_amount ==> 1 <= self.ft_amount <= i64::MAX as u64)
                    &&& self.category_id@.len() == 32
                    &&& t@.id == self.category_id@
                    &&& t@.amount == (if self.has_ft_amount {
                        self.ft_amount as i64
                    } else {
                        0i64
                    })
                    &&& t@.commitment == (if self.has_nft {
                        self.nft_commitment@
                    } else {
                        Seq::<u8>::empty()
                    })
                    &&& t@.bitfield == spec_derived_bitfield(
                        t@.amount,
                        self.has_nft,
                        if self.has_nft {
                            self.nft_capability.spec_capability_bits()
                        } else {
                            0
                        },
                        t@.commitment,
                    )
                },
                Err(TokenFieldError::ZeroAmount) => self.cashtoken_enabled && self.has_ft_amount
                    && self.ft_amount == 0,
                Err(TokenFieldError::AmountTooLarge) => self.cashtoken_enabled
                    && self.has_ft_amount && self.ft_amount > i64::MAX as u64,
                Err(TokenFieldError::BadCategoryId) => self.cashtoken_enabled
                    && self.category_id@.len() != 32 && (self.has_ft_amount ==> 1
                    <= self.ft_amount <= i64::MAX as u64),
            },
            (self.has_ft_amount || self.has_nft) ==> (r matches Ok(Some(t)) ==> t@.wf()),
    {
        if !self.cashtoken_enabled {
            return Ok(None);
        }
        let ft_amount: i64 = if self.has_ft_amount {
            if self.ft_amount == 0 {
                return Err(TokenFieldError::ZeroAmount);
            }
            if self.ft_amount > i64::MAX as u64 {
                return Err(TokenFieldError::AmountTooLarge);
            }
            self.ft_amount as i64
        } else {
            0
        };
        let capability: u8 = if self.has_nft {
            self.nft_capability.capability_bits()
        } else {
            0
        };
        let commitment: Vec<u8> = if self.has_nft {
            self.nft_commitment.clone()
        } else {
            Vec::new()
        };
        if self.category_id.len() != 32 {
            return Err(TokenFieldError::BadCategoryId);
        }
        let bitfield = (if ft_amount != 0 {
            HAS_AMOUNT
        } else {
            0
        }) | (if self.has_nft {
            HAS_NFT
        } else {
            0
        }) | (if commitment.len() > 0 {
            HAS_COMMITMENT_LENGTH
        } else {
            0
        }) | capability;
        let t = TokenData { id: self.category_id.clone(), bitfield, amount: ft_amount, commitment };
        proof {
            if self.has_ft_amount || self.has_nft {
                lemma_derived_bitfield_wf(t@, self.has_nft, capability);
            }
        }
        Ok(Some(t))
    }

    /// Resets these fields from a decoded payload, or to the defaults when
    /// there is none. The amount must be non-negative, as every well-formed
    /// payload's is.
    pub fn update_from_token_data(&mut self, token_data: Option<&TokenData>)
        requires
            token_data matches Some(t) ==> t@.amount >= 0,
        ensures
            match token_data {
                None => {
                    &&& !final(self).cashtoken_enabled
                    &&& final(self).category_id@ == Seq::<u8>::empty()
                    &&& !final(self).has_ft_amount
                    &&& final(self).ft_amount == 0
                    &&& !final(self).has_nft
                    &&& final(self).nft_capability == NftCapability::Immutable
                    &&& final(self).nft_commitment@ == Seq::<u8>::empty()
                },
                Some(t) => {
                    &&& final(self).cashtoken_enabled
                    &&& final(self).category_id@ == t@.id
                    &&& final(self).has_ft_amount == (t@.amount != 0)
                    &&& final(self).ft_amount == t@.amount as u64
                    &&& final(self).has_nft == t@.has_nft()
                    &&& final(self).nft_capability == (if t@.has_nft() {
                        if t@.capability() & CAPABILITY_MUTABLE != 0 {
                            NftCapability::Mutable
                        } else if t@.capability() & CAPABILITY_MINTING != 0 {
                            NftCapability::Minting
                        } else {
                            NftCapability::Immutable
                        }
                    } else {
                        NftCapability::Immutable
                    })
                    &&& final(self).nft_commitment@ == (if t@.has_nft()
                        && t@.has_commitment_length() {
                        t@.commitment
                    } else {
                        Seq::<u8>::empty()
                    })
                },
            },
            final(self).key == old(self).key,
    {
        match token_data {
            None => {
                self.cashtoken_enabled = false;
                self.category_id = Vec::new();
                self.has_ft_amount = false;
                self.ft_amount = 0;
                self.has_nft = false;
                self.nft_capability = NftCapability::Immutable;
                self.nft_commitment = Vec::new();
            },
            Some(t) => {
                self.cashtoken_enabled = true;
                self.category_id = t.id.clone();
                self.has_ft_amount = t.amount != 0;
                self.ft_amount = t.amount as u64;
                let has_nft = t.has_nft();
                self.has_nft = has_nft;
                if has_nft {
                    self.nft_capability = if t.capability() & CAPABILITY_MUTABLE != 0 {
                        NftCapability::Mutable
                    } else if t.capability() & CAPABILITY_MINTING != 0 {
                        NftCapability::Minting
                    } else {
                        NftCapability::Immutable
                    };
                    if t.has_commitment_length() {
                        self.nft_commitment = t.commitment.clone();
                    } else {
                        self.nft_commitment = Vec::new();
                    }
                } else {
                    self.nft_capability = NftCapability::Immutable;
                    self.nft_commitment = Vec::new();
                }
            },
        }
    }
}

} // verus!
