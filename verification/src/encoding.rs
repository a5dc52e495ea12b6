//! Primitive wire encodings shared by the whole format: little-endian
//! integers, the variable-length count prefix, and length-prefixed byte
//! strings.
//!
//! Every decoder has a specification-level twin that works on the byte
//! sequence remaining from the current position and returns the decoded value
//! together with the number of bytes consumed; the executable functions are
//! proved to agree with their twins exactly, on success and on failure.

use vstd::prelude::*;
use vstd::bytes::*;
use vstd::slice::slice_subrange;
use vstd::slice::slice_to_vec;

use crate::DecodeError;

verus! {

/// Values at or above this threshold in an unsigned input's 8-byte value
/// field announce the extended value-and-token form.
pub const VALUE_EXTENSION_THRESHOLD: u64 = 0xffff_ffff_ffff_fff0;

broadcast use vstd::seq_lib::group_seq_properties;

// ---------------------------------------------------------------------------
// Specification-level codecs
// ---------------------------------------------------------------------------

pub open spec fn spec_encode_u32le(v: u32) -> Seq<u8> {
    spec_u32_to_le_bytes(v)
}

pub open spec fn spec_encode_u64le(v: u64) -> Seq<u8> {
    spec_u64_to_le_bytes(v)
}

pub open spec fn spec_read_u32le(s: Seq<u8>) -> Result<(u32, int), DecodeError> {
    if s.len() < 4 {
        Err(DecodeError::Truncated)
    } else {
        Ok((spec_u32_from_le_bytes(s.subrange(0, 4)), 4))
    }
}

pub open spec fn spec_read_u64le(s: Seq<u8>) -> Result<(u64, int), DecodeError> {
    if s.len() < 8 {
        Err(DecodeError::Truncated)
    } else {
        Ok((spec_u64_from_le_bytes(s.subrange(0, 8)), 8))
    }
}

/// The Bitcoin variable-length integer: one byte for values up to 0xfc,
/// otherwise a marker byte followed by the value in 2, 4 or 8 little-endian
/// bytes, always in the shortest form that fits.
pub open spec fn spec_encode_varint(v: u64) -> Seq<u8> {
    if v <= 0xfc {
        seq![v as u8]
    } else if v <= 0xffff {
        seq![0xfdu8] + spec_u16_to_le_bytes(v as u16)
    } else if v <= 0xffff_ffff {
        seq![0xfeu8] + spec_u32_to_le_bytes(v as u32)
    } else {
        seq![0xffu8] + spec_u64_to_le_bytes(v)
    }
}

/// Reads a variable-length integer; a value written in a longer form than
/// necessary is rejected as non-minimal.
pub open spec fn spec_read_varint(s: Seq<u8>) -> Result<(u64, int), DecodeError> {
    if s.len() < 1 {
        Err(DecodeError::Truncated)
    } else if s[0] == 0xfd {
        if s.len() < 3 {
            Err(DecodeError::Truncated)
        } else {
            let v = spec_u16_from_le_bytes(s.subrange(1, 3));
            if v < 0xfd {
                Err(DecodeError::NonMinimalVarInt)
            } else {
                Ok((v as u64, 3))
            }
        }
    } else if s[0] == 0xfe {
        if s.len() < 5 {
            Err(DecodeError::Truncated)
        } else {
            let v = spec_u32_from_le_bytes(s.subrange(1, 5));
            if v < 0x10000 {
                Err(DecodeError::NonMinimalVarInt)
            } else {
                Ok((v as u64, 5))
            }
        }
    } else if s[0] == 0xff {
        if s.len() < 9 {
            Err(DecodeError::Truncated)
        } else {
            let v = spec_u64_from_le_bytes(s.subrange(1, 9));
            if v < 0x1_0000_0000 {
                Err(DecodeError::NonMinimalVarInt)
            } else {
                Ok((v, 9))
            }
        }
    } else {
        Ok((s[0] as u64, 1))
    }
}

/// A byte string framed by its length as a variable-length integer.
pub open spec fn spec_encode_blob(b: Seq<u8>) -> Seq<u8> {
    spec_encode_varint(b.len() as u64) + b
}

pub open spec fn spec_read_blob(s: Seq<u8>) -> Result<(Seq<u8>, int), DecodeError> {
    match spec_read_varint(s) {
        Err(e) => Err(e),
        Ok((n, k)) => {
            if n > s.len() - k {
                Err(DecodeError::Truncated)
            } else {
                Ok((s.subrange(k, k + n), k + n))
            }
        }
    }
}

// ---------------------------------------------------------------------------
// Round-trip lemmas
// ---------------------------------------------------------------------------

pub proof fn lemma_read_u32le_round_trip(v: u32, rest: Seq<u8>)
    ensures
        spec_read_u32le(spec_encode_u32le(v) + rest) == Ok::<(u32, int), DecodeError>((v, 4)),
{
    lemma_auto_spec_u32_to_from_le_bytes();
    let s = spec_encode_u32le(v) + rest;
    assert(s.subrange(0, 4) =~= spec_u32_to_le_bytes(v));
}

pub proof fn lemma_read_u64le_round_trip(v: u64, rest: Seq<u8>)
    ensures
        spec_read_u64le(spec_encode_u64le(v) + rest) == Ok::<(u64, int), DecodeError>((v, 8)),
{
    lemma_auto_spec_u64_to_from_le_bytes();
    let s = spec_encode_u64le(v) + rest;
    assert(s.subrange(0, 8) =~= spec_u64_to_le_bytes(v));
}

pub proof fn lemma_read_varint_round_trip(v: u64, rest: Seq<u8>)
    ensures
        spec_read_varint(spec_encode_varint(v) + rest) == Ok::<(u64, int), DecodeError>((
            v,
            spec_encode_varint(v).len() as int,
        )),
{
    lemma_auto_spec_u16_to_from_le_bytes();
    lemma_auto_spec_u32_to_from_le_bytes();
    lemma_auto_spec_u64_to_from_le_bytes();
    let s = spec_encode_varint(v) + rest;
    if v <= 0xfc {
        assert(s[0] == v as u8);
    } else if v <= 0xffff {
        assert(s[0] == 0xfdu8);
        assert(s.subrange(1, 3) =~= spec_u16_to_le_bytes(v as u16));
    } else if v <= 0xffff_ffff {
        assert(s[0] == 0xfeu8);
        assert(s.subrange(1, 5) =~= spec_u32_to_le_bytes(v as u32));
    } else {
        assert(s[0] == 0xffu8);
        assert(s.subrange(1, 9) =~= spec_u64_to_le_bytes(v));
    }
}

pub proof fn lemma_read_blob_round_trip(b: Seq<u8>, rest: Seq<u8>)
    requires
        b.len() <= u64::MAX,
    ensures
        spec_read_blob(spec_encode_blob(b) + rest) == Ok::<(Seq<u8>, int), DecodeError>((
            b,
            spec_encode_blob(b).len() as int,
        )),
{
    let n = b.len() as u64;
    let s = spec_encode_blob(b) + rest;
    assert(s =~= spec_encode_varint(n) + (b + rest));
    lemma_read_varint_round_trip(n, b + rest);
    let k = spec_encode_varint(n).len() as int;
    assert(s.subrange(k, k + n as int) =~= b);
}

/// A variable-length integer consumes at least one byte and never more than
/// the buffer holds.
pub proof fn lemma_read_varint_bounds(s: Seq<u8>)
    ensures
        spec_read_varint(s) matches Ok(p) ==> 1 <= p.1 <= s.len(),
{
}

/// A byte-string blob consumes at least one byte and never more than the
/// buffer holds, and yields no more bytes than it consumed.
pub proof fn lemma_read_blob_bounds(s: Seq<u8>)
    ensures
        spec_read_blob(s) matches Ok(p) ==> 1 <= p.1 <= s.len() && p.0.len() <= s.len(),
{
    lemma_read_varint_bounds(s);
}

// ---------------------------------------------------------------------------
// Executable codecs
// ---------------------------------------------------------------------------

pub fn write_u32le(out: &mut Vec<u8>, v: u32)
    ensures
        final(out)@ == old(out)@ + spec_encode_u32le(v),
{
    let mut bytes = u32_to_le_bytes(v);
    out.append(&mut bytes);
}

pub fn write_u64le(out: &mut Vec<u8>, v: u64)
    ensures
        final(out)@ == old(out)@ + spec_encode_u64le(v),
{
    let mut bytes = u64_to_le_bytes(v);
    out.append(&mut bytes);
}

pub fn write_varint(out: &mut Vec<u8>, v: u64)
    ensures
        final(out)@ == old(out)@ + spec_encode_varint(v),
{
    if v <= 0xfc {
        out.push(v as u8);
    } else if v <= 0xffff {
        out.push(0xfd);
        let mut bytes = u16_to_le_bytes(v as u16);
        out.append(&mut bytes);
    } else if v <= 0xffff_ffff {
        out.push(0xfe);
        let mut bytes = u32_to_le_bytes(v as u32);
        out.append(&mut bytes);
    } else {
        out.push(0xff);
        let mut bytes = u64_to_le_bytes(v);
        out.append(&mut bytes);
    }
    proof {
        assert(out@ =~= old(out)@ + spec_encode_varint(v));
    }
}

pub fn write_blob(out: &mut Vec<u8>, b: &[u8])
    ensures
        final(out)@ == old(out)@ + spec_encode_blob(b@),
{
    write_varint(out, b.len() as u64);
    let mut bytes = slice_to_vec(b);
    out.append(&mut bytes);
    proof {
        assert(out@ =~= old(out)@ + spec_encode_blob(b@));
    }
}

pub fn read_u32le(data: &[u8], pos: usize) -> (r: Result<(u32, usize), DecodeError>)
    requires
        pos <= data@.len(),
    ensures
        match r {
            Ok((v, end)) => pos <= end <= data@.len() && spec_read_u32le(data@.skip(pos as int))
                == Ok::<(u32, int), DecodeError>((v, end - pos)),
            Err(e) => spec_read_u32le(data@.skip(pos as int)) == Err::<(u32, int), DecodeError>(e),
        },
{
    if data.len() - pos < 4 {
        return Err(DecodeError::Truncated);
    }
    let v = u32_from_le_bytes(slice_subrange(data, pos, pos + 4));
    proof {
        assert(data@.subrange(pos as int, pos + 4) =~= data@.skip(pos as int).subrange(0, 4));
    }
    Ok((v, pos + 4))
}

pub fn read_u64le(data: &[u8], pos: usize) -> (r: Result<(u64, usize), DecodeError>)
    requires
        pos <= data@.len(),
    ensures
        match r {
            Ok((v, end)) => pos <= end <= data@.len() && spec_read_u64le(data@.skip(pos as int))
                == Ok::<(u64, int), DecodeError>((v, end - pos)),
            Err(e) => spec_read_u64le(data@.skip(pos as int)) == Err::<(u64, int), DecodeError>(e),
        },
{
    if data.len() - pos < 8 {
        return Err(DecodeError::Truncated);
    }
    let v = u64_from_le_bytes(slice_subrange(data, pos, pos + 8));
    proof {
        assert(data@.subrange(pos as int, pos + 8) =~= data@.skip(pos as int).subrange(0, 8));
    }
    Ok((v, pos + 8))
}

pub fn read_varint(data: &[u8], pos: usize) -> (r: Result<(u64, usize), DecodeError>)
    requires
        pos <= data@.len(),
    ensures
        match r {
            Ok((v, end)) => pos <= end <= data@.len() && spec_read_varint(data@.skip(pos as int))
                == Ok::<(u64, int), DecodeError>((v, end - pos)),
            Err(e) => spec_read_varint(data@.skip(pos as int)) == Err::<(u64, int), DecodeError>(
                e,
            ),
        },
{
    let ghost s = data@.skip(pos as int);
    if data.len() == pos {
        return Err(DecodeError::Truncated);
    }
    let b0 = data[pos];
    proof {
        assert(s[0] == b0);
    }
    if b0 == 0xfd {
        if data.len() - pos < 3 {
            return Err(DecodeError::Truncated);
        }
        let v = u16_from_le_bytes(slice_subrange(data, pos + 1, pos + 3));
        proof {
            assert(data@.subrange(pos + 1, pos + 3) =~= s.subrange(1, 3));
        }
        if v < 0xfd {
            return Err(DecodeError::NonMinimalVarInt);
        }
        Ok((v as u64, pos + 3))
    } else if b0 == 0xfe {
        if data.len() - pos < 5 {
            return Err(DecodeError::Truncated);
        }
        let v = u32_from_le_bytes(slice_subrange(data, pos + 1, pos + 5));
        proof {
            assert(data@.subrange(pos + 1, pos + 5) =~= s.subrange(1, 5));
        }
        if v < 0x10000 {
            return Err(DecodeError::NonMinimalVarInt);
        }
        Ok((v as u64, pos + 5))
    } else if b0 == 0xff {
        if data.len() - pos < 9 {
            return Err(DecodeError::Truncated);
        }
        let v = u64_from_le_bytes(slice_subrange(data, pos + 1, pos + 9));
        proof {
            assert(data@.subrange(pos + 1, pos + 9) =~= s.subrange(1, 9));
        }
        if v < 0x1_0000_0000 {
            return Err(DecodeError::NonMinimalVarInt);
        }
        Ok((v, pos + 9))
    } else {
        Ok((b0 as u64, pos + 1))
    }
}

pub fn read_blob(data: &[u8], pos: usize) -> (r: Result<(Vec<u8>, usize), DecodeError>)
    requires
        pos <= data@.len(),
    ensures
        match r {
            Ok((b, end)) => pos <= end <= data@.len() && spec_read_blob(data@.skip(pos as int))
                == Ok::<(Seq<u8>, int), DecodeError>((b@, end - pos)),
            Err(e) => spec_read_blob(data@.skip(pos as int)) == Err::<(Seq<u8>, int), DecodeError>(
                e,
            ),
        },
{
    let ghost s = data@.skip(pos as int);
    let (n, vend) = match read_varint(data, pos) {
        Ok(p) => p,
        Err(e) => {
            return Err(e);
        },
    };
    if n > (data.len() - vend) as u64 {
        return Err(DecodeError::Truncated);
    }
    let end = vend + (n as usize);
    let bytes = slice_to_vec(slice_subrange(data, vend, end));
    proof {
        assert(data@.subrange(vend as int, end as int) =~= s.subrange(
            vend - pos,
            vend - pos + n as int,
        ));
    }
    Ok((bytes, end))
}

/// Every position past a decoded prefix still lies in the buffer; a helper
/// fact used when decoders are chained.
pub proof fn lemma_skip_skip(s: Seq<u8>, a: int, b: int)
    requires
        0 <= a,
        0 <= b,
        a + b <= s.len(),
    ensures
        s.skip(a).skip(b) == s.skip(a + b),
{
    assert(s.skip(a).skip(b) =~= s.skip(a + b));
}

} // verus!
