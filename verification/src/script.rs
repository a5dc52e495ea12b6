//! Byte-level script handling: the push/opcode instruction grammar, the
//! standard locking-script shapes, and the builders for those shapes.

use vstd::prelude::*;
use vstd::bytes::*;
use vstd::slice::slice_subrange;
use vstd::slice::slice_to_vec;

verus! {

broadcast use vstd::seq_lib::group_seq_properties;

pub const OP_0: u8 = 0x00;
pub const OP_PUSHDATA1: u8 = 0x4c;
pub const OP_PUSHDATA2: u8 = 0x4d;
pub const OP_PUSHDATA4: u8 = 0x4e;
pub const OP_PUSHNUM_1: u8 = 0x51;
pub const OP_PUSHNUM_16: u8 = 0x60;
pub const OP_DUP: u8 = 0x76;
pub const OP_EQUAL: u8 = 0x87;
pub const OP_EQUALVERIFY: u8 = 0x88;
pub const OP_HASH160: u8 = 0xa9;
pub const OP_HASH256: u8 = 0xaa;
pub const OP_CHECKSIG: u8 = 0xac;
pub const OP_CHECKMULTISIG: u8 = 0xae;
pub const OP_SPECIAL_TOKEN_PREFIX: u8 = 0xef;

// ---------------------------------------------------------------------------
// Instructions
// ---------------------------------------------------------------------------

/// One parsed script instruction: either a data push (with the pushed bytes)
/// or a single non-push opcode.
#[derive(Clone, Debug, PartialEq, Eq)]
pub enum Instruction {
    Push(Vec<u8>),
    Op(u8),
}

/// Specification-level counterpart of [`Instruction`].
pub ghost enum InstrV {
    Push(Seq<u8>),
    Op(u8),
}

impl View for Instruction {
    type V = InstrV;

    open spec fn view(&self) -> InstrV {
        match self {
            Instruction::Push(b) => InstrV::Push(b@),
            Instruction::Op(op) => InstrV::Op(*op),
        }
    }
}

/// Parses the instruction starting at the head of `s`: a direct push opcode
/// (0x00 to 0x4b) pushes that many following bytes, the three push-data
/// opcodes carry an explicit little-endian length, and every other byte is a
/// plain opcode. `None` means the pushed bytes run past the end of the
/// script. Push lengths are not required to be minimally encoded.
pub open spec fn spec_next_instr(s: Seq<u8>) -> Option<(InstrV, int)> {
    if s.len() == 0 {
        None
    } else {
        let b0 = s[0];
        if b0 <= 0x4b {
            let n = b0 as int;
            if s.len() >= 1 + n {
                Some((InstrV::Push(s.subrange(1, 1 + n)), 1 + n))
            } else {
                None
            }
        } else if b0 == OP_PUSHDATA1 {
            if s.len() < 2 {
                None
            } else {
                let n = s[1] as int;
                if s.len() >= 2 + n {
                    Some((InstrV::Push(s.subrange(2, 2 + n)), 2 + n))
                } else {
                    None
                }
            }
        } else if b0 == OP_PUSHDATA2 {
            if s.len() < 3 {
                None
            } else {
                let n = spec_u16_from_le_bytes(s.subrange(1, 3)) as int;
                if s.len() >= 3 + n {
                    Some((InstrV::Push(s.subrange(3, 3 + n)), 3 + n))
                } else {
                    None
                }
            }
        } else if b0 == OP_PUSHDATA4 {
            if s.len() < 5 {
                None
            } else {
                let n = spec_u32_from_le_bytes(s.subrange(1, 5)) as int;
                if s.len() >= 5 + n {
                    Some((InstrV::Push(s.subrange(5, 5 + n)), 5 + n))
                } else {
                    None
                }
            }
        } else {
            Some((InstrV::Op(b0), 1))
        }
    }
}

/// Parses a whole script into its instruction list; `None` if any
/// instruction is malformed.
pub open spec fn spec_instructions(s: Seq<u8>) -> Option<Seq<InstrV>>
    decreases s.len(),
{
    if s.len() == 0 {
        Some(Seq::empty())
    } else {
        match spec_next_instr(s) {
            None => None,
            Some((i, n)) => if 1 <= n <= s.len() {
                match spec_instructions(s.skip(n)) {
                    None => None,
                    Some(rest) => Some(seq![i] + rest),
                }
            } else {
                None
            },
        }
    }
}

/// Parses the instruction at `pos`; `None` exactly where the specification
/// grammar rejects.
pub fn next_instruction(data: &[u8], pos: usize) -> (r: Option<(Instruction, usize)>)
    requires
        pos < data@.len(),
    ensures
        match r {
            Some((ins, end)) => pos < end <= data@.len() && spec_next_instr(
                data@.skip(pos as int),
            ) == Some((ins@, end - pos)),
            None => spec_next_instr(data@.skip(pos as int)) is None,
        },
{
    let ghost s = data@.skip(pos as int);
    let b0 = data[pos];
    proof {
        assert(s[0] == b0);
    }
    if b0 <= 0x4b {
        let n = b0 as usize;
        if n > data.len() - pos - 1 {
            return None;
        }
        let bytes = slice_to_vec(slice_subrange(data, pos + 1, pos + 1 + n));
        proof {
            assert(data@.subrange(pos + 1, pos + 1 + n) =~= s.subrange(1, 1 + n));
        }
        Some((Instruction::Push(bytes), pos + 1 + n))
    } else if b0 == OP_PUSHDATA1 {
        if data.len() - pos < 2 {
            return None;
        }
        let n = data[pos + 1] as usize;
        proof {
            assert(s[1] == data@[pos + 1]);
        }
        if n > data.len() - pos - 2 {
            return None;
        }
        let bytes = slice_to_vec(slice_subrange(data, pos + 2, pos + 2 + n));
        proof {
            assert(data@.subrange(pos + 2, pos + 2 + n) =~= s.subrange(2, 2 + n));
        }
        Some((Instruction::Push(bytes), pos + 2 + n))
    } else if b0 == OP_PUSHDATA2 {
        if data.len() - pos < 3 {
            return None;
        }
        let n16 = u16_from_le_bytes(slice_subrange(data, pos + 1, pos + 3));
        proof {
            assert(data@.subrange(pos + 1, pos + 3) =~= s.subrange(1, 3));
        }
        let n = n16 as usize;
        if n > data.len() - pos - 3 {
            return None;
        }
        let bytes = slice_to_vec(slice_subrange(data, pos + 3, pos + 3 + n));
        proof {
            assert(data@.subrange(pos + 3, pos + 3 + n) =~= s.subrange(3, 3 + n));
        }
        Some((Instruction::Push(bytes), pos + 3 + n))
    } else if b0 == OP_PUSHDATA4 {
        if data.len() - pos < 5 {
            return None;
        }
        let n32 = u32_from_le_bytes(slice_subrange(data, pos + 1, pos + 5));
        proof {
            assert(data@.subrange(pos + 1, pos + 5) =~= s.subrange(1, 5));
        }
        if n32 as u64 > (data.len() - pos - 5) as u64 {
            return None;
        }
        let n = n32 as usize;
        let bytes = slice_to_vec(slice_subrange(data, pos + 5, pos + 5 + n));
        proof {
            assert(data@.subrange(pos + 5, pos + 5 + n) =~= s.subrange(5, 5 + n));
        }
        Some((Instruction::Push(bytes), pos + 5 + n))
    } else {
        Some((Instruction::Op(b0), pos + 1))
    }
}

// ---------------------------------------------------------------------------
// Push building
// ---------------------------------------------------------------------------

/// The minimal push encoding of `data`: the shortest of a direct push,
/// push-data-1, push-data-2 or push-data-4 that can carry its length.
pub open spec fn spec_push(data: Seq<u8>) -> Seq<u8> {
    if data.len() < 0x4c {
        seq![data.len() as u8] + data
    } else if data.len() < 0x100 {
        seq![OP_PUSHDATA1, data.len() as u8] + data
    } else if data.len() < 0x10000 {
        seq![OP_PUSHDATA2] + spec_u16_to_le_bytes(data.len() as u16) + data
    } else {
        seq![OP_PUSHDATA4] + spec_u32_to_le_bytes(data.len() as u32) + data
    }
}

/// A push parses back to exactly the pushed bytes, whatever follows it.
pub proof fn lemma_push_round_trip(data: Seq<u8>, rest: Seq<u8>)
    requires
        data.len() < 0x1_0000_0000,
    ensures
        spec_next_instr(spec_push(data) + rest) == Some(
            (InstrV::Push(data), spec_push(data).len() as int),
        ),
{
    lemma_auto_spec_u16_to_from_le_bytes();
    lemma_auto_spec_u32_to_from_le_bytes();
    let s = spec_push(data) + rest;
    if data.len() < 0x4c {
        assert(s.subrange(1, 1 + data.len() as int) =~= data);
    } else if data.len() < 0x100 {
        assert(s.subrange(2, 2 + data.len() as int) =~= data);
    } else if data.len() < 0x10000 {
        assert(s.subrange(1, 3) =~= spec_u16_to_le_bytes(data.len() as u16));
        assert(s.subrange(3, 3 + data.len() as int) =~= data);
    } else {
        assert(s.subrange(1, 5) =~= spec_u32_to_le_bytes(data.len() as u32));
        assert(s.subrange(5, 5 + data.len() as int) =~= data);
    }
}

/// Appends the minimal push encoding of `data`.
pub fn push_slice(out: &mut Vec<u8>, data: &[u8])
    requires
        data@.len() < 0x1_0000_0000,
    ensures
        final(out)@ == old(out)@ + spec_push(data@),
{
    if data.len() < 0x4c {
        out.push(data.len() as u8);
    } else if data.len() < 0x100 {
        out.push(OP_PUSHDATA1);
        out.push(data.len() as u8);
    } else if data.len() < 0x10000 {
        out.push(OP_PUSHDATA2);
        let mut len_bytes = u16_to_le_bytes(data.len() as u16);
        out.append(&mut len_bytes);
    } else {
        out.push(OP_PUSHDATA4);
        let mut len_bytes = u32_to_le_bytes(data.len() as u32);
        out.append(&mut len_bytes);
    }
    let mut bytes = slice_to_vec(data);
    out.append(&mut bytes);
    proof {
        assert(out@ =~= old(out)@ + spec_push(data@));
    }
}

// ---------------------------------------------------------------------------
// Standard locking-script shapes
// ---------------------------------------------------------------------------

/// Pay-to-public-key-hash: `OP_DUP OP_HASH160 <20 bytes> OP_EQUALVERIFY
/// OP_CHECKSIG`.
pub open spec fn spec_is_p2pkh(s: Seq<u8>) -> bool {
    &&& s.len() == 25
    &&& s[0] == OP_DUP
    &&& s[1] == OP_HASH160
    &&& s[2] == 0x14
    &&& s[23] == OP_EQUALVERIFY
    &&& s[24] == OP_CHECKSIG
}

/// Pay-to-script-hash with a 20-byte hash: `OP_HASH160 <20 bytes> OP_EQUAL`.
pub open spec fn spec_is_p2sh20(s: Seq<u8>) -> bool {
    &&& s.len() == 23
    &&& s[0] == OP_HASH160
    &&& s[1] == 0x14
    &&& s[22] == OP_EQUAL
}

/// Pay-to-script-hash with a 32-byte hash: `OP_HASH256 <32 bytes> OP_EQUAL`.
pub open spec fn spec_is_p2sh32(s: Seq<u8>) -> bool {
    &&& s.len() == 35
    &&& s[0] == OP_HASH256
    &&& s[1] == 0x20
    &&& s[34] == OP_EQUAL
}

/// A version opcode (0, or 1 through 16) followed by one push covering the
/// rest of the script.
pub open spec fn spec_is_witness_program(s: Seq<u8>) -> bool {
    &&& 4 <= s.len() <= 42
    &&& 2 <= s[1] <= 40
    &&& s[1] as int == s.len() - 2
    &&& (s[0] == OP_0 || (OP_PUSHNUM_1 <= s[0] <= OP_PUSHNUM_16))
}

/// Whether the script is one an address can be formed from: the two standard
/// 20-byte-hash shapes, or a witness program whose version-0 form carries a
/// 20- or 32-byte program.
pub open spec fn spec_has_address_form(s: Seq<u8>) -> bool {
    ||| spec_is_p2pkh(s)
    ||| spec_is_p2sh20(s)
    ||| (spec_is_witness_program(s) && (s[0] != OP_0 || s[1] == 20 || s[1] == 32))
}

pub fn is_p2pkh(s: &[u8]) -> (r: bool)
    ensures
        r == spec_is_p2pkh(s@),
{
    s.len() == 25 && s[0] == OP_DUP && s[1] == OP_HASH160 && s[2] == 0x14 && s[23]
        == OP_EQUALVERIFY && s[24] == OP_CHECKSIG
}

pub fn is_p2sh20(s: &[u8]) -> (r: bool)
    ensures
        r == spec_is_p2sh20(s@),
{
    s.len() == 23 && s[0] == OP_HASH160 && s[1] == 0x14 && s[22] == OP_EQUAL
}

/// Whether the script is exactly the 32-byte pay-to-script-hash shape.
pub fn is_p2sh32(s: &[u8]) -> (r: bool)
    ensures
        r == spec_is_p2sh32(s@),
{
    s.len() == 35 && s[0] == OP_HASH256 && s[1] == 0x20 && s[34] == OP_EQUAL
}

pub fn has_address_form(s: &[u8]) -> (r: bool)
    ensures
        r == spec_has_address_form(s@),
{
    if is_p2pkh(s) || is_p2sh20(s) {
        return true;
    }
    if !(4 <= s.len() && s.len() <= 42) {
        return false;
    }
    if !(2 <= s[1] && s[1] <= 40) {
        return false;
    }
    if s[1] as usize != s.len() - 2 {
        return false;
    }
    if s[0] == OP_0 {
        s[1] == 20 || s[1] == 32
    } else {
        OP_PUSHNUM_1 <= s[0] && s[0] <= OP_PUSHNUM_16
    }
}

/// The standard locking-script shapes this codec recognizes.
#[derive(Clone, Copy, Debug, PartialEq, Eq, Structural)]
pub enum ScriptKind {
    P2pkh,
    P2sh20,
    P2sh32,
    Unknown,
}

/// Recognizes the three standard shapes; everything else is `Unknown`.
/// Classification never fails: an unrecognized script is simply `Unknown`.
pub fn classify(s: &[u8]) -> (r: ScriptKind)
    ensures
        r == ScriptKind::P2pkh <==> spec_is_p2pkh(s@),
        r == ScriptKind::P2sh20 <==> (spec_is_p2sh20(s@) && !spec_is_p2pkh(s@)),
        r == ScriptKind::P2sh32 <==> (spec_is_p2sh32(s@) && !spec_is_p2pkh(s@) && !spec_is_p2sh20(
            s@,
        )),
{
    if is_p2pkh(s) {
        ScriptKind::P2pkh
    } else if is_p2sh20(s) {
        ScriptKind::P2sh20
    } else if is_p2sh32(s) {
        ScriptKind::P2sh32
    } else {
        ScriptKind::Unknown
    }
}

// ---------------------------------------------------------------------------
// Script construction
// ---------------------------------------------------------------------------

/// The pay-to-public-key-hash locking script over `hash`.
pub open spec fn spec_p2pkh_script(hash: Seq<u8>) -> Seq<u8> {
    seq![OP_DUP, OP_HASH160] + spec_push(hash) + seq![OP_EQUALVERIFY, OP_CHECKSIG]
}

/// The 20-byte pay-to-script-hash locking script over `hash`.
pub open spec fn spec_p2sh20_script(hash: Seq<u8>) -> Seq<u8> {
    seq![OP_HASH160] + spec_push(hash) + seq![OP_EQUAL]
}

/// The 32-byte pay-to-script-hash locking script over `hash`.
pub open spec fn spec_p2sh32_script(hash: Seq<u8>) -> Seq<u8> {
    seq![OP_HASH256] + spec_push(hash) + seq![OP_EQUAL]
}

/// The pay-to-public-key-hash template over a 20-byte hash has the standard
/// 25-byte shape.
pub proof fn lemma_p2pkh_script_shape(hash: Seq<u8>)
    requires
        hash.len() == 20,
    ensures
        spec_is_p2pkh(spec_p2pkh_script(hash)),
{
    let s = spec_p2pkh_script(hash);
    assert(spec_push(hash) =~= seq![20u8] + hash);
    assert(s =~= seq![OP_DUP, OP_HASH160, 20u8] + hash + seq![OP_EQUALVERIFY, OP_CHECKSIG]);
}

/// The 20-byte pay-to-script-hash template has the standard 23-byte shape.
pub proof fn lemma_p2sh20_script_shape(hash: Seq<u8>)
    requires
        hash.len() == 20,
    ensures
        spec_is_p2sh20(spec_p2sh20_script(hash)),
{
    let s = spec_p2sh20_script(hash);
    assert(spec_push(hash) =~= seq![20u8] + hash);
    assert(s =~= seq![OP_HASH160, 20u8] + hash + seq![OP_EQUAL]);
}

/// A script of the pay-to-public-key-hash shape is exactly the template over
/// its own embedded hash.
pub proof fn lemma_p2pkh_reconstruct(s: Seq<u8>)
    requires
        spec_is_p2pkh(s),
    ensures
        spec_p2pkh_script(s.subrange(3, 23)) == s,
{
    let hash = s.subrange(3, 23);
    assert(spec_push(hash) =~= seq![20u8] + hash);
    assert(spec_p2pkh_script(hash) =~= s);
}

/// A script of the 20-byte pay-to-script-hash shape is exactly the template
/// over its own embedded hash.
pub proof fn lemma_p2sh20_reconstruct(s: Seq<u8>)
    requires
        spec_is_p2sh20(s),
    ensures
        spec_p2sh20_script(s.subrange(2, 22)) == s,
{
    let hash = s.subrange(2, 22);
    assert(spec_push(hash) =~= seq![20u8] + hash);
    assert(spec_p2sh20_script(hash) =~= s);
}

/// A script of the 32-byte pay-to-script-hash shape is exactly the template
/// over its own embedded hash.
pub proof fn lemma_p2sh32_reconstruct(s: Seq<u8>)
    requires
        spec_is_p2sh32(s),
    ensures
        spec_p2sh32_script(s.subrange(2, 34)) == s,
{
    let hash = s.subrange(2, 34);
    assert(spec_push(hash) =~= seq![32u8] + hash);
    assert(spec_p2sh32_script(hash) =~= s);
}

pub fn build_p2pkh_script(hash: &[u8]) -> (r: Vec<u8>)
    requires
        hash@.len() < 0x1_0000_0000,
    ensures
        r@ == spec_p2pkh_script(hash@),
{
    let mut out: Vec<u8> = Vec::new();
    out.push(OP_DUP);
    out.push(OP_HASH160);
    push_slice(&mut out, hash);
    out.push(OP_EQUALVERIFY);
    out.push(OP_CHECKSIG);
    proof {
        assert(out@ =~= spec_p2pkh_script(hash@));
    }
    out
}

pub fn build_p2sh20_script(hash: &[u8]) -> (r: Vec<u8>)
    requires
        hash@.len() < 0x1_0000_0000,
    ensures
        r@ == spec_p2sh20_script(hash@),
{
    let mut out: Vec<u8> = Vec::new();
    out.push(OP_HASH160);
    push_slice(&mut out, hash);
    out.push(OP_EQUAL);
    proof {
        assert(out@ =~= spec_p2sh20_script(hash@));
    }
    out
}

pub fn build_p2sh32_script(hash: &[u8]) -> (r: Vec<u8>)
    requires
        hash@.len() < 0x1_0000_0000,
    ensures
        r@ == spec_p2sh32_script(hash@),
{
    let mut out: Vec<u8> = Vec::new();
    out.push(OP_HASH256);
    push_slice(&mut out, hash);
    out.push(OP_EQUAL);
    proof {
        assert(out@ =~= spec_p2sh32_script(hash@));
    }
    out
}

} // verus!
