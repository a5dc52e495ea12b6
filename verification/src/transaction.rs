//! The transaction-level and input-level codec: signed and unsigned inputs,
//! outputs with optional token payloads, and the whole partially signed
//! transaction.
//!
//! Wire layout: version (4 bytes), the input vector, the output vector, and
//! the lock time (4 bytes). Inputs and outputs are framed as a
//! variable-length count followed by that many records. Whether each input
//! record is signed or unsigned is decided per record by structurally
//! classifying its unlocking-script bytes; an unsigned record then carries
//! the spent output's value, possibly extended behind a sentinel with a
//! token payload.

use vstd::prelude::*;

use crate::DecodeError;
use crate::encoding::VALUE_EXTENSION_THRESHOLD;
use crate::encoding::lemma_skip_skip;
use crate::encoding::read_blob;
use crate::encoding::read_u32le;
use crate::encoding::read_u64le;
use crate::encoding::read_varint;
use crate::encoding::spec_encode_blob;
use crate::encoding::spec_encode_u32le;
use crate::encoding::spec_encode_u64le;
use crate::encoding::spec_encode_varint;
use crate::encoding::spec_read_blob;
use crate::encoding::spec_read_u32le;
use crate::encoding::spec_read_u64le;
use crate::encoding::spec_read_varint;
use crate::encoding::write_blob;
use crate::encoding::write_u32le;
use crate::encoding::write_u64le;
use crate::encoding::write_varint;
use crate::script::OP_SPECIAL_TOKEN_PREFIX;
use crate::token::TokenData;
use crate::token::TokenDataV;
use crate::token::decode_token;
use crate::token::encode_token;
use crate::token::spec_encode_token;
use crate::token::spec_read_token;
use crate::unsigned::UnsignedScriptSig;
use crate::unsigned::is_unsigned_script_sig;
use crate::unsigned::spec_is_unsigned_script_sig;

verus! {

broadcast use vstd::seq_lib::group_seq_properties;

/// Ceiling on the memory a decoder may commit to before any backing bytes
/// have been read, mirroring the transaction consensus rules' maximum object
/// size.
pub const MAX_VEC_SIZE: usize = 256_000_000;

/// No encoded input record is shorter than this: a 36-byte previous output,
/// one script-length byte and a 4-byte sequence number.
pub const INPUT_MIN_ENCODED_LEN: usize = 41;

/// No encoded output record is shorter than this: an 8-byte value and one
/// script-length byte.
pub const OUTPUT_MIN_ENCODED_LEN: usize = 9;

// ---------------------------------------------------------------------------
// Data model
// ---------------------------------------------------------------------------

/// Reference to the prior output an input spends: the previous transaction's
/// 32-byte id (in wire order) and the output index.
#[derive(Clone, Debug, PartialEq, Eq)]
pub struct OutPoint {
    /// Previous transaction id, 32 bytes, wire order.
    pub txid: Vec<u8>,
    /// Index of the spent output in that transaction.
    pub vout: u32,
}

#[verifier::ext_equal]
pub ghost struct OutPointV {
    pub txid: Seq<u8>,
    pub vout: u32,
}

impl View for OutPoint {
    type V = OutPointV;

    open spec fn view(&self) -> OutPointV {
        OutPointV { txid: self.txid@, vout: self.vout }
    }
}

impl OutPointV {
    pub open spec fn wf(self) -> bool {
        self.txid.len() == 32
    }
}

/// An ordinary, signed, transaction input.
#[derive(Clone, Debug, PartialEq, Eq)]
pub struct TxIn {
    pub previous_output: OutPoint,
    /// The genuine unlocking script.
    pub script_sig: Vec<u8>,
    /// Relative-locktime / replacement hint; passed through opaquely.
    pub sequence: u32,
}

#[verifier::ext_equal]
pub ghost struct TxInV {
    pub previous_output: OutPointV,
    pub script_sig: Seq<u8>,
    pub sequence: u32,
}

impl View for TxIn {
    type V = TxInV;

    open spec fn view(&self) -> TxInV {
        TxInV {
            previous_output: self.previous_output@,
            script_sig: self.script_sig@,
            sequence: self.sequence,
        }
    }
}

impl TxInV {
    pub open spec fn wf(self) -> bool {
        self.previous_output.wf()
    }

    /// What the encoder may be given and the decoder will give back
    /// unchanged: on top of well-formedness, the unlocking script must not
    /// classify as a placeholder, and must be of pushable size.
    pub open spec fn encodable(self) -> bool {
        &&& self.wf()
        &&& self.script_sig.len() < 0x1_0000_0000
        &&& !spec_is_unsigned_script_sig(self.script_sig)
    }
}

/// An unsigned transaction input: the placeholder script stands where the
/// unlocking script would, and the spent output's value — and optionally its
/// token payload — ride along for the signer's benefit.
#[derive(Clone, Debug, PartialEq, Eq)]
pub struct UnsignedTxIn {
    pub previous_output: OutPoint,
    /// The placeholder serialized as the unlocking script.
    pub unsigned_script_sig: UnsignedScriptSig,
    pub sequence: u32,
    /// The value of the previous output, in satoshis.
    pub value: u64,
    /// The previous output's token payload, if any.
    pub token: Option<TokenData>,
}

#[verifier::ext_equal]
pub ghost struct UnsignedTxInV {
    pub previous_output: OutPointV,
    pub unsigned_script_sig: Seq<u8>,
    pub sequence: u32,
    pub value: u64,
    pub token: Option<TokenDataV>,
}

pub open spec fn spec_token_view(t: Option<TokenData>) -> Option<TokenDataV> {
    match t {
        None => None,
        Some(x) => Some(x@),
    }
}

impl View for UnsignedTxIn {
    type V = UnsignedTxInV;

    open spec fn view(&self) -> UnsignedTxInV {
        UnsignedTxInV {
            previous_output: self.previous_output@,
            unsigned_script_sig: self.unsigned_script_sig@,
            sequence: self.sequence,
            value: self.value,
            token: spec_token_view(self.token),
        }
    }
}

impl UnsignedTxInV {
    pub open spec fn wf(self) -> bool {
        &&& self.previous_output.wf()
        &&& (self.token matches Some(t) ==> t.wf())
    }

    /// Encodable and sure to decode back unchanged: the placeholder must
    /// classify as unsigned, a plain value must lie below the extension
    /// sentinel threshold, and sizes must be representable.
    pub open spec fn encodable(self) -> bool {
        &&& self.wf()
        &&& self.unsigned_script_sig.len() < 0x1_0000_0000
        &&& spec_is_unsigned_script_sig(self.unsigned_script_sig)
        &&& (self.token is None ==> self.value < VALUE_EXTENSION_THRESHOLD)
        &&& (self.token matches Some(t) ==> t.commitment.len() < 0x1_0000_0000)
    }
}

/// A transaction input that is either signed or a placeholder; which decoder
/// branch produced it — and which encoder branch will serialize it — follows
/// the structural classification of its unlocking-script bytes.
#[derive(Clone, Debug, PartialEq, Eq)]
pub enum MaybeUnsignedTxIn {
    Unsigned(UnsignedTxIn),
    Signed(TxIn),
}

#[verifier::ext_equal]
pub ghost enum MaybeUnsignedTxInV {
    Unsigned(UnsignedTxInV),
    Signed(TxInV),
}

impl View for MaybeUnsignedTxIn {
    type V = MaybeUnsignedTxInV;

    open spec fn view(&self) -> MaybeUnsignedTxInV {
        match self {
            MaybeUnsignedTxIn::Unsigned(u) => MaybeUnsignedTxInV::Unsigned(u@),
            MaybeUnsignedTxIn::Signed(t) => MaybeUnsignedTxInV::Signed(t@),
        }
    }
}

impl MaybeUnsignedTxInV {
    pub open spec fn wf(self) -> bool {
        match self {
            MaybeUnsignedTxInV::Unsigned(u) => u.wf(),
            MaybeUnsignedTxInV::Signed(t) => t.wf(),
        }
    }

    pub open spec fn encodable(self) -> bool {
        match self {
            MaybeUnsignedTxInV::Unsigned(u) => u.encodable(),
            MaybeUnsignedTxInV::Signed(t) => t.encodable(),
        }
    }
}

/// A transaction output: value, locking script and optional token payload.
#[derive(Clone, Debug, PartialEq, Eq)]
pub struct TxOut {
    /// Value in satoshis.
    pub value: u64,
    pub script_pubkey: Vec<u8>,
    /// Token payload, if any.
    pub token: Option<TokenData>,
}

#[verifier::ext_equal]
pub ghost struct TxOutV {
    pub value: u64,
    pub script_pubkey: Seq<u8>,
    pub token: Option<TokenDataV>,
}

impl View for TxOut {
    type V = TxOutV;

    open spec fn view(&self) -> TxOutV {
        TxOutV {
            value: self.value,
            script_pubkey: self.script_pubkey@,
            token: spec_token_view(self.token),
        }
    }
}

/// A locking script that opens like a wrapped token payload: decoding would
/// split it, so an output without token data must not carry one.
pub open spec fn spec_latent_token_prefix(spk: Seq<u8>) -> bool {
    spk.len() > 0 && spk[0] == OP_SPECIAL_TOKEN_PREFIX && spec_read_token(spk.skip(1)) is Ok
}

impl TxOutV {
    pub open spec fn wf(self) -> bool {
        self.token matches Some(t) ==> t.wf()
    }

    pub open spec fn encodable(self) -> bool {
        &&& self.wf()
        &&& self.script_pubkey.len() < 0x1_0000_0000
        &&& (self.token matches Some(t) ==> t.commitment.len() < 0x1_0000_0000)
        &&& (self.token is None ==> !spec_latent_token_prefix(self.script_pubkey))
    }
}

/// A partially signed transaction: the ordinary transaction fields, with
/// each input possibly an unsigned placeholder. Input and output order is
/// significant and round-trips exactly.
#[derive(Clone, Debug, PartialEq, Eq)]
pub struct PartiallySignedTransaction {
    /// Protocol version, currently 1 or 2 in the wild.
    pub version: i32,
    /// Block height or timestamp before which the transaction cannot be
    /// mined.
    pub lock_time: u32,
    /// Transaction inputs, signed or unsigned.
    pub input: Vec<MaybeUnsignedTxIn>,
    /// Transaction outputs.
    pub output: Vec<TxOut>,
}

#[verifier::ext_equal]
pub ghost struct PartiallySignedTransactionV {
    pub version: i32,
    pub lock_time: u32,
    pub input: Seq<MaybeUnsignedTxInV>,
    pub output: Seq<TxOutV>,
}

impl View for PartiallySignedTransaction {
    type V = PartiallySignedTransactionV;

    open spec fn view(&self) -> PartiallySignedTransactionV {
        PartiallySignedTransactionV {
            version: self.version,
            lock_time: self.lock_time,
            input: self.input@.map_values(|i: MaybeUnsignedTxIn| i@),
            output: self.output@.map_values(|o: TxOut| o@),
        }
    }
}

impl PartiallySignedTransactionV {
    pub open spec fn wf(self) -> bool {
        &&& forall|i: int| 0 <= i < self.input.len() ==> (#[trigger] self.input[i]).wf()
        &&& forall|i: int| 0 <= i < self.output.len() ==> (#[trigger] self.output[i]).wf()
    }

    pub open spec fn encodable(self) -> bool {
        &&& forall|i: int| 0 <= i < self.input.len() ==> (#[trigger] self.input[i]).encodable()
        &&& forall|i: int| 0 <= i < self.output.len() ==> (#[trigger] self.output[i]).encodable()
        &&& self.input.len() < 0x1_0000_0000
        &&& self.output.len() < 0x1_0000_0000
    }
}

// ---------------------------------------------------------------------------
// Specification-level codec
// ---------------------------------------------------------------------------

pub open spec fn spec_encode_outpoint(o: OutPointV) -> Seq<u8> {
    o.txid + spec_encode_u32le(o.vout)
}

pub open spec fn spec_read_outpoint(s: Seq<u8>) -> Result<(OutPointV, int), DecodeError> {
    if s.len() < 36 {
        Err(DecodeError::Truncated)
    } else {
        Ok(
            (
                OutPointV {
                    txid: s.subrange(0, 32),
                    vout: vstd::bytes::spec_u32_from_le_bytes(s.subrange(32, 36)),
                },
                36,
            ),
        )
    }
}

/// The extended value field: a plain 8-byte value below the sentinel
/// threshold, or the all-ones sentinel followed by the true value as a
/// variable-length integer and the token payload wrapped as a blob behind
/// the token announcement opcode.
pub open spec fn spec_encode_value_ext(value: u64, token: Option<TokenDataV>) -> Seq<u8> {
    match token {
        None => spec_encode_u64le(value),
        Some(t) => spec_encode_u64le(0xffff_ffff_ffff_ffffu64) + spec_encode_varint(value)
            + spec_encode_blob(seq![OP_SPECIAL_TOKEN_PREFIX] + spec_encode_token(t)),
    }
}

/// Reads the extended value field. A plain value below the threshold means
/// no token data; at or above it the low nibble must be the recognized
/// extension version, and the wrapped token payload must begin with the
/// announcement opcode and fill its blob exactly.
#[verifier::opaque]
pub open spec fn spec_read_value_ext(s: Seq<u8>) -> Result<((u64, Option<TokenDataV>), int), DecodeError> {
    match spec_read_u64le(s) {
        Err(e) => Err(e),
        Ok((v, _)) => {
            if v < VALUE_EXTENSION_THRESHOLD {
                Ok(((v, None), 8))
            } else if v & 0xf != 0xf {
                Err(DecodeError::UnknownExtensionVersion)
            } else {
                match spec_read_varint(s.skip(8)) {
                    Err(e) => Err(e),
                    Ok((value, k)) => match spec_read_blob(s.skip(8 + k)) {
                        Err(e) => Err(e),
                        Ok((blob, k2)) => {
                            if blob.len() == 0 || blob[0] != OP_SPECIAL_TOKEN_PREFIX {
                                Err(DecodeError::MalformedTokenPayload)
                            } else {
                                match spec_read_token(blob.skip(1)) {
                                    Err(e) => Err(e),
                                    Ok((t, kt)) => {
                                        if 1 + kt != blob.len() {
                                            Err(DecodeError::MalformedTokenPayload)
                                        } else {
                                            Ok(((value, Some(t)), 8 + k + k2))
                                        }
                                    },
                                }
                            }
                        },
                    },
                }
            }
        },
    }
}

pub open spec fn spec_encode_signed_input(t: TxInV) -> Seq<u8> {
    spec_encode_outpoint(t.previous_output) + spec_encode_blob(t.script_sig) + spec_encode_u32le(
        t.sequence,
    )
}

pub open spec fn spec_encode_unsigned_input(u: UnsignedTxInV) -> Seq<u8> {
    spec_encode_outpoint(u.previous_output) + spec_encode_blob(u.unsigned_script_sig)
        + spec_encode_u32le(u.sequence) + spec_encode_value_ext(u.value, u.token)
}

pub open spec fn spec_encode_input(i: MaybeUnsignedTxInV) -> Seq<u8> {
    match i {
        MaybeUnsignedTxInV::Unsigned(u) => spec_encode_unsigned_input(u),
        MaybeUnsignedTxInV::Signed(t) => spec_encode_signed_input(t),
    }
}

/// Reads one input record: previous output, unlocking-script bytes and
/// sequence, then — only if the script bytes classify as a placeholder — the
/// extended value field.
#[verifier::opaque]
pub open spec fn spec_read_input(s: Seq<u8>) -> Result<(MaybeUnsignedTxInV, int), DecodeError> {
    match spec_read_outpoint(s) {
        Err(e) => Err(e),
        Ok((prevout, k0)) => match spec_read_blob(s.skip(k0)) {
            Err(e) => Err(e),
            Ok((script, k1)) => match spec_read_u32le(s.skip(k0 + k1)) {
                Err(e) => Err(e),
                Ok((sequence, k2)) => {
                    if spec_is_unsigned_script_sig(script) {
                        match spec_read_value_ext(s.skip(k0 + k1 + k2)) {
                            Err(e) => Err(e),
                            Ok(((value, token), k3)) => Ok(
                                (
                                    MaybeUnsignedTxInV::Unsigned(
                                        UnsignedTxInV {
                                            previous_output: prevout,
                                            unsigned_script_sig: script,
                                            sequence,
                                            value,
                                            token,
                                        },
                                    ),
                                    k0 + k1 + k2 + k3,
                                ),
                            ),
                        }
                    } else {
                        Ok(
                            (
                                MaybeUnsignedTxInV::Signed(
                                    TxInV { previous_output: prevout, script_sig: script, sequence },
                                ),
                                k0 + k1 + k2,
                            ),
                        )
                    }
                },
            },
        },
    }
}

pub open spec fn spec_encode_input_list(ins: Seq<MaybeUnsignedTxInV>) -> Seq<u8>
    decreases ins.len(),
{
    if ins.len() == 0 {
        Seq::empty()
    } else {
        spec_encode_input(ins[0]) + spec_encode_input_list(ins.skip(1))
    }
}

pub open spec fn spec_encode_inputs(ins: Seq<MaybeUnsignedTxInV>) -> Seq<u8> {
    spec_encode_varint(ins.len() as u64) + spec_encode_input_list(ins)
}

pub open spec fn spec_read_input_list(s: Seq<u8>, n: nat) -> Result<
    (Seq<MaybeUnsignedTxInV>, int),
    DecodeError,
>
    decreases n,
{
    if n == 0 {
        Ok((Seq::empty(), 0))
    } else {
        match spec_read_input(s) {
            Err(e) => Err(e),
            Ok((v, k)) => match spec_read_input_list(s.skip(k), (n - 1) as nat) {
                Err(e) => Err(e),
                Ok((rest, k2)) => Ok((seq![v] + rest, k + k2)),
            },
        }
    }
}

pub open spec fn spec_read_inputs(s: Seq<u8>) -> Result<
    (Seq<MaybeUnsignedTxInV>, int),
    DecodeError,
> {
    match spec_read_varint(s) {
        Err(e) => Err(e),
        Ok((n, k)) => match spec_read_input_list(s.skip(k), n as nat) {
            Err(e) => Err(e),
            Ok((ins, k2)) => Ok((ins, k + k2)),
        },
    }
}

/// What an output's script blob stands for: if it opens with the token
/// announcement opcode and a token payload parses behind it, the payload is
/// split off and the rest is the locking script; otherwise — tolerantly,
/// even when the opcode is there but the payload is malformed — the whole
/// blob is the locking script.
pub open spec fn spec_unwrap_script_pubkey(blob: Seq<u8>) -> (Seq<u8>, Option<TokenDataV>) {
    if blob.len() > 0 && blob[0] == OP_SPECIAL_TOKEN_PREFIX {
        match spec_read_token(blob.skip(1)) {
            Ok((t, k)) => (blob.skip(1 + k), Some(t)),
            Err(_) => (blob, None),
        }
    } else {
        (blob, None)
    }
}

pub open spec fn spec_encode_output(o: TxOutV) -> Seq<u8> {
    match o.token {
        None => spec_encode_u64le(o.value) + spec_encode_blob(o.script_pubkey),
        Some(t) => spec_encode_u64le(o.value) + spec_encode_blob(
            seq![OP_SPECIAL_TOKEN_PREFIX] + spec_encode_token(t) + o.script_pubkey,
        ),
    }
}

#[verifier::opaque]
pub open spec fn spec_read_output(s: Seq<u8>) -> Result<(TxOutV, int), DecodeError> {
    match spec_read_u64le(s) {
        Err(e) => Err(e),
        Ok((value, _)) => match spec_read_blob(s.skip(8)) {
            Err(e) => Err(e),
            Ok((blob, k)) => {
                let (script_pubkey, token) = spec_unwrap_script_pubkey(blob);
                Ok((TxOutV { value, script_pubkey, token }, 8 + k))
            },
        },
    }
}

pub open spec fn spec_encode_output_list(outs: Seq<TxOutV>) -> Seq<u8>
    decreases outs.len(),
{
    if outs.len() == 0 {
        Seq::empty()
    } else {
        spec_encode_output(outs[0]) + spec_encode_output_list(outs.skip(1))
    }
}

pub open spec fn spec_encode_outputs(outs: Seq<TxOutV>) -> Seq<u8> {
    spec_encode_varint(outs.len() as u64) + spec_encode_output_list(outs)
}

pub open spec fn spec_read_output_list(s: Seq<u8>, n: nat) -> Result<(Seq<TxOutV>, int), DecodeError>
    decreases n,
{
    if n == 0 {
        Ok((Seq::empty(), 0))
    } else {
        match spec_read_output(s) {
            Err(e) => Err(e),
            Ok((v, k)) => match spec_read_output_list(s.skip(k), (n - 1) as nat) {
                Err(e) => Err(e),
                Ok((rest, k2)) => Ok((seq![v] + rest, k + k2)),
            },
        }
    }
}

pub open spec fn spec_read_outputs(s: Seq<u8>) -> Result<(Seq<TxOutV>, int), DecodeError> {
    match spec_read_varint(s) {
        Err(e) => Err(e),
        Ok((n, k)) => match spec_read_output_list(s.skip(k), n as nat) {
            Err(e) => Err(e),
            Ok((outs, k2)) => Ok((outs, k + k2)),
        },
    }
}

pub open spec fn spec_encode_tx(t: PartiallySignedTransactionV) -> Seq<u8> {
    spec_encode_u32le(t.version as u32) + spec_encode_inputs(t.input) + spec_encode_outputs(
        t.output,
    ) + spec_encode_u32le(t.lock_time)
}

pub open spec fn spec_read_tx(s: Seq<u8>) -> Result<(PartiallySignedTransactionV, int), DecodeError> {
    match spec_read_u32le(s) {
        Err(e) => Err(e),
        Ok((vraw, _)) => match spec_read_inputs(s.skip(4)) {
            Err(e) => Err(e),
            Ok((input, ki)) => match spec_read_outputs(s.skip(4 + ki)) {
                Err(e) => Err(e),
                Ok((output, ko)) => match spec_read_u32le(s.skip(4 + ki + ko)) {
                    Err(e) => Err(e),
                    Ok((lock_time, _)) => Ok(
                        (
                            PartiallySignedTransactionV {
                                version: vraw as i32,
                                lock_time,
                                input,
                                output,
                            },
                            4 + ki + ko + 4,
                        ),
                    ),
                },
            },
        },
    }
}

/// Decoding a whole buffer: the transaction must consume every byte.
pub open spec fn spec_deserialize(s: Seq<u8>) -> Result<PartiallySignedTransactionV, DecodeError> {
    match spec_read_tx(s) {
        Err(e) => Err(e),
        Ok((t, n)) => if n == s.len() {
            Ok(t)
        } else {
            Err(DecodeError::TrailingData)
        },
    }
}

// ---------------------------------------------------------------------------
// Executable codec: encoding
// ---------------------------------------------------------------------------

impl OutPoint {
    pub fn consensus_encode(&self, out: &mut Vec<u8>)
        ensures
            final(out)@ == old(out)@ + spec_encode_outpoint(self@),
    {
        out.extend_from_slice(self.txid.as_slice());
        write_u32le(out, self.vout);
        proof {
            assert(out@ =~= old(out)@ + spec_encode_outpoint(self@));
        }
    }

    pub fn consensus_decode(data: &[u8], pos: usize) -> (r: Result<(OutPoint, usize), DecodeError>)
        requires
            pos <= data@.len(),
        ensures
            match r {
                Ok((o, end)) => pos <= end <= data@.len() && (spec_read_outpoint(
                    data@.skip(pos as int),
                ) matches Ok(p) && p.0 == o@ && p.1 == end - pos),
                Err(e) => spec_read_outpoint(data@.skip(pos as int)) == Err::<
                    (OutPointV, int),
                    DecodeError,
                >(e),
            },
    {
        if data.len() - pos < 36 {
            return Err(DecodeError::Truncated);
        }
        let txid = vstd::slice::slice_to_vec(vstd::slice::slice_subrange(data, pos, pos + 32));
        let vout = match read_u32le(data, pos + 32) {
            Ok((v, _)) => v,
            Err(e) => {
                return Err(e);
            },
        };
        proof {
            let s = data@.skip(pos as int);
            assert(data@.subrange(pos as int, pos + 32) =~= s.subrange(0, 32));
            assert(data@.skip(pos + 32).subrange(0, 4) =~= s.subrange(32, 36));
        }
        Ok((OutPoint { txid, vout }, pos + 36))
    }
}

/// Appends the extended value field.
pub fn encode_value_ext(out: &mut Vec<u8>, value: u64, token: &Option<TokenData>)
    requires
        token matches Some(t) ==> t@.wf(),
    ensures
        final(out)@ == old(out)@ + spec_encode_value_ext(value, spec_token_view(*token)),
{
    match token {
        None => {
            write_u64le(out, value);
        },
        Some(t) => {
            write_u64le(out, 0xffff_ffff_ffff_ffff);
            write_varint(out, value);
            let mut wrapped: Vec<u8> = Vec::new();
            wrapped.push(OP_SPECIAL_TOKEN_PREFIX);
            encode_token(&mut wrapped, t);
            write_blob(out, wrapped.as_slice());
            proof {
                assert(wrapped@ =~= seq![OP_SPECIAL_TOKEN_PREFIX] + spec_encode_token(t@));
                assert(out@ =~= old(out)@ + spec_encode_value_ext(value, spec_token_view(*token)));
            }
        },
    }
}

/// Reads the extended value field starting at `pos`.
#[verifier::rlimit(60)]
pub fn decode_value_ext(data: &[u8], pos: usize) -> (r: Result<
    ((u64, Option<TokenData>), usize),
    DecodeError,
>)
    requires
        pos <= data@.len(),
    ensures
        match r {
            Ok(((value, token), end)) => pos <= end <= data@.len() && (spec_read_value_ext(
                data@.skip(pos as int),
            ) matches Ok(p) && p.0.0 == value && p.0.1 == spec_token_view(token) && p.1 == end
                - pos),
            Err(e) => spec_read_value_ext(data@.skip(pos as int)) == Err::<
                ((u64, Option<TokenDataV>), int),
                DecodeError,
            >(e),
        },
{
    proof {
        reveal(spec_read_value_ext);
    }
    let (v, end0) = match read_u64le(data, pos) {
        Ok(p) => p,
        Err(e) => {
            return Err(e);
        },
    };
    if v < VALUE_EXTENSION_THRESHOLD {
        return Ok(((v, None), end0));
    }
    if v & 0xf != 0xf {
        return Err(DecodeError::UnknownExtensionVersion);
    }
    proof {
        lemma_skip_skip(data@, pos as int, 8);
    }
    let (value, end1) = match read_varint(data, end0) {
        Ok(p) => p,
        Err(e) => {
            return Err(e);
        },
    };
    proof {
        lemma_skip_skip(data@, pos as int, end1 - pos);
    }
    let (blob, end2) = match read_blob(data, end1) {
        Ok(p) => p,
        Err(e) => {
            return Err(e);
        },
    };
    if blob.len() == 0 {
        return Err(DecodeError::MalformedTokenPayload);
    }
    if blob[0] != OP_SPECIAL_TOKEN_PREFIX {
        return Err(DecodeError::MalformedTokenPayload);
    }
    let (t, consumed) = match decode_token(blob.as_slice(), 1) {
        Ok(p) => p,
        Err(e) => {
            proof {
                assert(blob@.skip(1) =~= blob@.skip(1int));
            }
            return Err(e);
        },
    };
    if consumed != blob.len() {
        return Err(DecodeError::MalformedTokenPayload);
    }
    Ok(((value, Some(t)), end2))
}

impl TxIn {
    pub fn consensus_encode(&self, out: &mut Vec<u8>)
        ensures
            final(out)@ == old(out)@ + spec_encode_signed_input(self@),
    {
        self.previous_output.consensus_encode(out);
        write_blob(out, self.script_sig.as_slice());
        write_u32le(out, self.sequence);
        proof {
            assert(out@ =~= old(out)@ + spec_encode_signed_input(self@));
        }
    }
}

impl UnsignedTxIn {
    pub fn consensus_encode(&self, out: &mut Vec<u8>)
        requires
            self@.wf(),
        ensures
            final(out)@ == old(out)@ + spec_encode_unsigned_input(self@),
    {
        self.previous_output.consensus_encode(out);
        write_blob(out, self.unsigned_script_sig.raw_script().as_slice());
        write_u32le(out, self.sequence);
        encode_value_ext(out, self.value, &self.token);
        proof {
            assert(out@ =~= old(out)@ + spec_encode_unsigned_input(self@));
        }
    }
}

impl MaybeUnsignedTxIn {
    pub fn consensus_encode(&self, out: &mut Vec<u8>)
        requires
            self@.wf(),
        ensures
            final(out)@ == old(out)@ + spec_encode_input(self@),
    {
        match self {
            MaybeUnsignedTxIn::Unsigned(u) => u.consensus_encode(out),
            MaybeUnsignedTxIn::Signed(t) => t.consensus_encode(out),
        }
    }

    /// Reads one input record, telling signed from unsigned by classifying
    /// the unlocking-script bytes.
    pub fn consensus_decode(data: &[u8], pos: usize) -> (r: Result<
        (MaybeUnsignedTxIn, usize),
        DecodeError,
    >)
        requires
            pos <= data@.len(),
        ensures
            match r {
                Ok((v, end)) => pos <= end <= data@.len() && (spec_read_input(
                    data@.skip(pos as int),
                ) matches Ok(p) && p.0 == v@ && p.1 == end - pos),
                Err(e) => spec_read_input(data@.skip(pos as int)) == Err::<
                    (MaybeUnsignedTxInV, int),
                    DecodeError,
                >(e),
            },
    {
        proof {
            reveal(spec_read_input);
        }
        let (previous_output, end0) = match OutPoint::consensus_decode(data, pos) {
            Ok(p) => p,
            Err(e) => {
                return Err(e);
            },
        };
        proof {
            lemma_skip_skip(data@, pos as int, end0 - pos);
        }
        let (script_sig, end1) = match read_blob(data, end0) {
            Ok(p) => p,
            Err(e) => {
                return Err(e);
            },
        };
        proof {
            lemma_skip_skip(data@, pos as int, end1 - pos);
        }
        let (sequence, end2) = match read_u32le(data, end1) {
            Ok(p) => p,
            Err(e) => {
                return Err(e);
            },
        };
        proof {
            lemma_skip_skip(data@, pos as int, end2 - pos);
        }
        if is_unsigned_script_sig(script_sig.as_slice()) {
            let ((value, token), end3) = match decode_value_ext(data, end2) {
                Ok(p) => p,
                Err(e) => {
                    return Err(e);
                },
            };
            Ok(
                (
                    MaybeUnsignedTxIn::Unsigned(
                        UnsignedTxIn {
                            previous_output,
                            unsigned_script_sig: UnsignedScriptSig::from_raw_script(script_sig),
                            sequence,
                            value,
                            token,
                        },
                    ),
                    end3,
                ),
            )
        } else {
            Ok(
                (
                    MaybeUnsignedTxIn::Signed(TxIn { previous_output, script_sig, sequence }),
                    end2,
                ),
            )
        }
    }
}

impl MaybeUnsignedTxInV {
    pub open spec fn previous_output(self) -> OutPointV {
        match self {
            MaybeUnsignedTxInV::Unsigned(u) => u.previous_output,
            MaybeUnsignedTxInV::Signed(t) => t.previous_output,
        }
    }

    pub open spec fn sequence(self) -> u32 {
        match self {
            MaybeUnsignedTxInV::Unsigned(u) => u.sequence,
            MaybeUnsignedTxInV::Signed(t) => t.sequence,
        }
    }
}

impl MaybeUnsignedTxIn {
    /// The previous output this input spends, whichever variant it is.
    pub fn previous_output(&self) -> (r: &OutPoint)
        ensures
            r@ == self@.previous_output(),
    {
        match self {
            MaybeUnsignedTxIn::Unsigned(u) => &u.previous_output,
            MaybeUnsignedTxIn::Signed(t) => &t.previous_output,
        }
    }

    /// Mutable access to the previous output; nothing else changes.
    pub fn previous_output_mut(&mut self) -> (r: &mut OutPoint)
        ensures
            (*r)@ == old(self)@.previous_output(),
            final(self)@.previous_output() == (*final(r))@,
            final(self)@.sequence() == old(self)@.sequence(),
            (final(self)@ is Unsigned) == (old(self)@ is Unsigned),
            match (old(self)@, final(self)@) {
                (MaybeUnsignedTxInV::Unsigned(a), MaybeUnsignedTxInV::Unsigned(b)) => b
                    == (UnsignedTxInV { previous_output: b.previous_output, ..a }),
                (MaybeUnsignedTxInV::Signed(a), MaybeUnsignedTxInV::Signed(b)) => b == (TxInV {
                    previous_output: b.previous_output,
                    ..a
                }),
                _ => false,
            },
    {
        match self {
            MaybeUnsignedTxIn::Unsigned(u) => &mut u.previous_output,
            MaybeUnsignedTxIn::Signed(t) => &mut t.previous_output,
        }
    }

    /// The sequence number, whichever variant it is.
    pub fn sequence(&self) -> (r: u32)
        ensures
            r == self@.sequence(),
    {
        match self {
            MaybeUnsignedTxIn::Unsigned(u) => u.sequence,
            MaybeUnsignedTxIn::Signed(t) => t.sequence,
        }
    }

    /// Mutable access to the sequence number; nothing else changes.
    pub fn sequence_mut(&mut self) -> (r: &mut u32)
        ensures
            *r == old(self)@.sequence(),
            final(self)@.sequence() == *final(r),
            final(self)@.previous_output() == old(self)@.previous_output(),
            (final(self)@ is Unsigned) == (old(self)@ is Unsigned),
            match (old(self)@, final(self)@) {
                (MaybeUnsignedTxInV::Unsigned(a), MaybeUnsignedTxInV::Unsigned(b)) => b
                    == (UnsignedTxInV { sequence: b.sequence, ..a }),
                (MaybeUnsignedTxInV::Signed(a), MaybeUnsignedTxInV::Signed(b)) => b == (TxInV {
                    sequence: b.sequence,
                    ..a
                }),
                _ => false,
            },
    {
        match self {
            MaybeUnsignedTxIn::Unsigned(u) => &mut u.sequence,
            MaybeUnsignedTxIn::Signed(t) => &mut t.sequence,
        }
    }

    /// The genuine unlocking script of a signed input; an unsigned input has
    /// none.
    pub fn script_sig(&self) -> (r: Option<&Vec<u8>>)
        ensures
            match self@ {
                MaybeUnsignedTxInV::Unsigned(_) => r is None,
                MaybeUnsignedTxInV::Signed(t) => r matches Some(s) && s@ == t.script_sig,
            },
    {
        match self {
            MaybeUnsignedTxIn::Unsigned(_) => None,
            MaybeUnsignedTxIn::Signed(t) => Some(&t.script_sig),
        }
    }
}

impl TxOut {
    pub fn consensus_encode(&self, out: &mut Vec<u8>)
        requires
            self@.wf(),
        ensures
            final(out)@ == old(out)@ + spec_encode_output(self@),
    {
        write_u64le(out, self.value);
        match &self.token {
            None => {
                write_blob(out, self.script_pubkey.as_slice());
            },
            Some(t) => {
                let mut wrapped: Vec<u8> = Vec::new();
                wrapped.push(OP_SPECIAL_TOKEN_PREFIX);
                encode_token(&mut wrapped, t);
                wrapped.extend_from_slice(self.script_pubkey.as_slice());
                proof {
                    assert(wrapped@ =~= seq![OP_SPECIAL_TOKEN_PREFIX] + spec_encode_token(t@)
                        + self.script_pubkey@);
                }
                write_blob(out, wrapped.as_slice());
            },
        }
        proof {
            assert(out@ =~= old(out)@ + spec_encode_output(self@));
        }
    }

    pub fn consensus_decode(data: &[u8], pos: usize) -> (r: Result<(TxOut, usize), DecodeError>)
        requires
            pos <= data@.len(),
        ensures
            match r {
                Ok((o, end)) => pos <= end <= data@.len() && (spec_read_output(
                    data@.skip(pos as int),
                ) matches Ok(p) && p.0 == o@ && p.1 == end - pos),
                Err(e) => spec_read_output(data@.skip(pos as int)) == Err::<
                    (TxOutV, int),
                    DecodeError,
                >(e),
            },
    {
        proof {
            reveal(spec_read_output);
        }
        let (value, end0) = match read_u64le(data, pos) {
            Ok(p) => p,
            Err(e) => {
                return Err(e);
            },
        };
        proof {
            lemma_skip_skip(data@, pos as int, 8);
        }
        let (blob, end1) = match read_blob(data, end0) {
            Ok(p) => p,
            Err(e) => {
                return Err(e);
            },
        };
        // Unwrap a leading token payload, tolerating a malformed one.
        if blob.len() > 0 && blob[0] == OP_SPECIAL_TOKEN_PREFIX {
            match decode_token(blob.as_slice(), 1) {
                Ok((t, consumed)) => {
                    proof {
                        assert(blob@.skip(1int) == blob@.skip(1));
                    }
                    let script_pubkey = vstd::slice::slice_to_vec(
                        vstd::slice::slice_subrange(blob.as_slice(), consumed, blob.len()),
                    );
                    proof {
                        assert(blob@.subrange(consumed as int, blob@.len() as int) =~= blob@.skip(
                            1 + (consumed - 1),
                        ));
                    }
                    return Ok((TxOut { value, script_pubkey, token: Some(t) }, end1));
                },
                Err(_) => {
                    return Ok((TxOut { value, script_pubkey: blob, token: None }, end1));
                },
            }
        }
        Ok((TxOut { value, script_pubkey: blob, token: None }, end1))
    }
}

// ---------------------------------------------------------------------------
// Vector framing
// ---------------------------------------------------------------------------

/// The most input records a decoder will reserve room for before any of
/// their bytes have been read: a quarter of the maximum object size divided
/// by the smallest possible record.
pub const MAX_INPUT_PREALLOC: usize = MAX_VEC_SIZE / 4 / INPUT_MIN_ENCODED_LEN;

/// The corresponding bound for output records.
pub const MAX_OUTPUT_PREALLOC: usize = MAX_VEC_SIZE / 4 / OUTPUT_MIN_ENCODED_LEN;

pub open spec fn spec_input_views(v: Seq<MaybeUnsignedTxIn>) -> Seq<MaybeUnsignedTxInV> {
    v.map_values(|i: MaybeUnsignedTxIn| i@)
}

pub open spec fn spec_output_views(v: Seq<TxOut>) -> Seq<TxOutV> {
    v.map_values(|o: TxOut| o@)
}

/// Appends the input vector: the count, then each record.
#[verifier::loop_isolation(false)]
pub fn encode_inputs(out: &mut Vec<u8>, inputs: &Vec<MaybeUnsignedTxIn>)
    requires
        forall|i: int| 0 <= i < inputs@.len() ==> (#[trigger] inputs@[i])@.wf(),
    ensures
        final(out)@ == old(out)@ + spec_encode_inputs(spec_input_views(inputs@)),
{
    let ghost views = spec_input_views(inputs@);
    write_varint(out, inputs.len() as u64);
    let mut i: usize = 0;
    while i < inputs.len()
        invariant
            i <= inputs@.len(),
            out@ == old(out)@ + spec_encode_varint(inputs@.len() as u64) + spec_encode_input_list(
                views.take(i as int),
            ),
        decreases inputs@.len() - i,
    {
        proof {
            lemma_encode_input_list_snoc(views.take(i + 1));
            assert(views.take(i + 1).drop_last() =~= views.take(i as int));
        }
        inputs[i].consensus_encode(out);
        i = i + 1;
    }
    proof {
        assert(views.take(views.len() as int) =~= views);
    }
}

/// Reads the input vector. The count prefix is only a claim: room is
/// reserved for at most `MAX_INPUT_PREALLOC` records up front, and a count
/// that the remaining bytes cannot back simply runs into a truncation error
/// once the bytes run out.
#[verifier::rlimit(100)]
pub fn decode_inputs(data: &[u8], pos: usize) -> (r: Result<
    (Vec<MaybeUnsignedTxIn>, usize),
    DecodeError,
>)
    requires
        pos <= data@.len(),
    ensures
        match r {
            Ok((v, end)) => pos <= end <= data@.len() && (spec_read_inputs(data@.skip(pos as int))
                matches Ok(p) && p.0 == spec_input_views(v@) && p.1 == end - pos),
            Err(e) => spec_read_inputs(data@.skip(pos as int)) == Err::<
                (Seq<MaybeUnsignedTxInV>, int),
                DecodeError,
            >(e),
        },
{
    let (n, start) = match read_varint(data, pos) {
        Ok(p) => p,
        Err(e) => {
            return Err(e);
        },
    };
    let capacity: usize = if n < MAX_INPUT_PREALLOC as u64 {
        n as usize
    } else {
        MAX_INPUT_PREALLOC
    };
    let mut acc: Vec<MaybeUnsignedTxIn> = Vec::with_capacity(capacity);
    let mut cursor: usize = start;
    let mut i: u64 = 0;
    proof {
        lemma_skip_skip(data@, pos as int, start - pos);
    }
    while i < n
        invariant
            i <= n,
            pos <= start <= cursor <= data@.len(),
            acc@.len() == i,
            spec_read_varint(data@.skip(pos as int)) == Ok::<(u64, int), DecodeError>(
                (n, start - pos),
            ),
            match spec_read_input_list(data@.skip(cursor as int), (n - i) as nat) {
                Err(e) => spec_read_input_list(data@.skip(start as int), n as nat) == Err::<
                    (Seq<MaybeUnsignedTxInV>, int),
                    DecodeError,
                >(e),
                Ok(p) => spec_read_input_list(data@.skip(start as int), n as nat) == Ok::<
                    (Seq<MaybeUnsignedTxInV>, int),
                    DecodeError,
                >((spec_input_views(acc@) + p.0, (cursor - start) + p.1)),
            },
        decreases n - i,
    {
        match MaybeUnsignedTxIn::consensus_decode(data, cursor) {
            Err(e) => {
                proof {
                    lemma_skip_skip(data@, pos as int, start - pos);
                }
                return Err(e);
            },
            Ok((v, end)) => {
                proof {
                    lemma_skip_skip(data@, cursor as int, end - cursor);
                    lemma_read_input_list_unfold(
                        data@.skip(cursor as int),
                        (n - i) as nat,
                        v@,
                        end - cursor,
                    );
                    match spec_read_input_list(data@.skip(end as int), (n - i - 1) as nat) {
                        Ok(p) => {
                            lemma_input_views_push(acc@, v, p.0);
                        },
                        Err(_) => {},
                    }
                }
                acc.push(v);
                cursor = end;
                i = i + 1;
            },
        }
    }
    proof {
        lemma_skip_skip(data@, pos as int, start - pos);
        assert(spec_input_views(acc@) + Seq::<MaybeUnsignedTxInV>::empty() =~= spec_input_views(
            acc@,
        ));
    }
    Ok((acc, cursor))
}

/// Appends the output vector: the count, then each record.
#[verifier::loop_isolation(false)]
pub fn encode_outputs(out: &mut Vec<u8>, outputs: &Vec<TxOut>)
    requires
        forall|i: int| 0 <= i < outputs@.len() ==> (#[trigger] outputs@[i])@.wf(),
    ensures
        final(out)@ == old(out)@ + spec_encode_outputs(spec_output_views(outputs@)),
{
    let ghost views = spec_output_views(outputs@);
    write_varint(out, outputs.len() as u64);
    let mut i: usize = 0;
    while i < outputs.len()
        invariant
            i <= outputs@.len(),
            out@ == old(out)@ + spec_encode_varint(outputs@.len() as u64)
                + spec_encode_output_list(views.take(i as int)),
        decreases outputs@.len() - i,
    {
        proof {
            lemma_encode_output_list_snoc(views.take(i + 1));
            assert(views.take(i + 1).drop_last() =~= views.take(i as int));
        }
        outputs[i].consensus_encode(out);
        i = i + 1;
    }
    proof {
        assert(views.take(views.len() as int) =~= views);
    }
}

/// Reads the output vector, with the same pre-allocation guard as the input
/// vector.
#[verifier::rlimit(100)]
pub fn decode_outputs(data: &[u8], pos: usize) -> (r: Result<(Vec<TxOut>, usize), DecodeError>)
    requires
        pos <= data@.len(),
    ensures
        match r {
            Ok((v, end)) => pos <= end <= data@.len() && (spec_read_outputs(data@.skip(pos as int))
                matches Ok(p) && p.0 == spec_output_views(v@) && p.1 == end - pos),
            Err(e) => spec_read_outputs(data@.skip(pos as int)) == Err::<
                (Seq<TxOutV>, int),
                DecodeError,
            >(e),
        },
{
    let (n, start) = match read_varint(data, pos) {
        Ok(p) => p,
        Err(e) => {
            return Err(e);
        },
    };
    let capacity: usize = if n < MAX_OUTPUT_PREALLOC as u64 {
        n as usize
    } else {
        MAX_OUTPUT_PREALLOC
    };
    let mut acc: Vec<TxOut> = Vec::with_capacity(capacity);
    let mut cursor: usize = start;
    let mut i: u64 = 0;
    proof {
        lemma_skip_skip(data@, pos as int, start - pos);
    }
    while i < n
        invariant
            i <= n,
            pos <= start <= cursor <= data@.len(),
            acc@.len() == i,
            spec_read_varint(data@.skip(pos as int)) == Ok::<(u64, int), DecodeError>(
                (n, start - pos),
            ),
            match spec_read_output_list(data@.skip(cursor as int), (n - i) as nat) {
                Err(e) => spec_read_output_list(data@.skip(start as int), n as nat) == Err::<
                    (Seq<TxOutV>, int),
                    DecodeError,
                >(e),
                Ok(p) => spec_read_output_list(data@.skip(start as int), n as nat) == Ok::<
                    (Seq<TxOutV>, int),
                    DecodeError,
                >((spec_output_views(acc@) + p.0, (cursor - start) + p.1)),
            },
        decreases n - i,
    {
        match TxOut::consensus_decode(data, cursor) {
            Err(e) => {
                proof {
                    lemma_skip_skip(data@, pos as int, start - pos);
                }
                return Err(e);
            },
            Ok((v, end)) => {
                proof {
                    lemma_skip_skip(data@, cursor as int, end - cursor);
                    lemma_read_output_list_unfold(
                        data@.skip(cursor as int),
                        (n - i) as nat,
                        v@,
                        end - cursor,
                    );
                    match spec_read_output_list(data@.skip(end as int), (n - i - 1) as nat) {
                        Ok(p) => {
                            lemma_output_views_push(acc@, v, p.0);
                        },
                        Err(_) => {},
                    }
                }
                acc.push(v);
                cursor = end;
                i = i + 1;
            },
        }
    }
    proof {
        lemma_skip_skip(data@, pos as int, start - pos);
        assert(spec_output_views(acc@) + Seq::<TxOutV>::empty() =~= spec_output_views(acc@));
    }
    Ok((acc, cursor))
}


/// One unfolding of the input-list reader when the first record parses.
proof fn lemma_read_input_list_unfold(s: Seq<u8>, n: nat, v: MaybeUnsignedTxInV, k: int)
    requires
        n > 0,
        spec_read_input(s) == Ok::<(MaybeUnsignedTxInV, int), DecodeError>((v, k)),
    ensures
        spec_read_input_list(s, n) == (match spec_read_input_list(s.skip(k), (n - 1) as nat) {
            Err(e) => Err::<(Seq<MaybeUnsignedTxInV>, int), DecodeError>(e),
            Ok(p) => Ok((seq![v] + p.0, k + p.1)),
        }),
{
}

/// Regrouping a decoded prefix, one record and a remainder.
proof fn lemma_input_views_push(
    acc: Seq<MaybeUnsignedTxIn>,
    v: MaybeUnsignedTxIn,
    rest: Seq<MaybeUnsignedTxInV>,
)
    ensures
        spec_input_views(acc.push(v)) + rest == spec_input_views(acc) + (seq![v@] + rest),
{
    assert(spec_input_views(acc.push(v)) + rest =~= spec_input_views(acc) + (seq![v@] + rest));
}

/// One unfolding of the output-list reader when the first record parses.
proof fn lemma_read_output_list_unfold(s: Seq<u8>, n: nat, v: TxOutV, k: int)
    requires
        n > 0,
        spec_read_output(s) == Ok::<(TxOutV, int), DecodeError>((v, k)),
    ensures
        spec_read_output_list(s, n) == (match spec_read_output_list(s.skip(k), (n - 1) as nat) {
            Err(e) => Err::<(Seq<TxOutV>, int), DecodeError>(e),
            Ok(p) => Ok((seq![v] + p.0, k + p.1)),
        }),
{
}

/// Regrouping a decoded prefix, one record and a remainder.
proof fn lemma_output_views_push(acc: Seq<TxOut>, v: TxOut, rest: Seq<TxOutV>)
    ensures
        spec_output_views(acc.push(v)) + rest == spec_output_views(acc) + (seq![v@] + rest),
{
    assert(spec_output_views(acc.push(v)) + rest =~= spec_output_views(acc) + (seq![v@] + rest));
}

/// Splitting an encoded record list before its last record.
pub proof fn lemma_encode_input_list_snoc(s: Seq<MaybeUnsignedTxInV>)
    requires
        s.len() > 0,
    ensures
        spec_encode_input_list(s) == spec_encode_input_list(s.drop_last()) + spec_encode_input(
            s.last(),
        ),
    decreases s.len(),
{
    if s.len() == 1 {
        assert(s.drop_last() =~= Seq::<MaybeUnsignedTxInV>::empty());
        assert(s.skip(1) =~= Seq::<MaybeUnsignedTxInV>::empty());
        assert(spec_encode_input_list(s) =~= spec_encode_input_list(s.drop_last())
            + spec_encode_input(s.last()));
    } else {
        let tail = s.skip(1);
        lemma_encode_input_list_snoc(tail);
        assert(tail.drop_last() =~= s.drop_last().skip(1));
        assert(tail.last() == s.last());
        assert(spec_encode_input(s[0]) + (spec_encode_input_list(tail.drop_last())
            + spec_encode_input(s.last())) =~= (spec_encode_input(s[0]) + spec_encode_input_list(
            s.drop_last().skip(1),
        )) + spec_encode_input(s.last()));
        assert(s.drop_last()[0] == s[0]);
    }
}

/// Splitting an encoded output list before its last record.
pub proof fn lemma_encode_output_list_snoc(s: Seq<TxOutV>)
    requires
        s.len() > 0,
    ensures
        spec_encode_output_list(s) == spec_encode_output_list(s.drop_last()) + spec_encode_output(
            s.last(),
        ),
    decreases s.len(),
{
    if s.len() == 1 {
        assert(s.drop_last() =~= Seq::<TxOutV>::empty());
        assert(s.skip(1) =~= Seq::<TxOutV>::empty());
        assert(spec_encode_output_list(s) =~= spec_encode_output_list(s.drop_last())
            + spec_encode_output(s.last()));
    } else {
        let tail = s.skip(1);
        lemma_encode_output_list_snoc(tail);
        assert(tail.drop_last() =~= s.drop_last().skip(1));
        assert(tail.last() == s.last());
        assert(spec_encode_output(s[0]) + (spec_encode_output_list(tail.drop_last())
            + spec_encode_output(s.last())) =~= (spec_encode_output(s[0])
            + spec_encode_output_list(s.drop_last().skip(1))) + spec_encode_output(s.last()));
        assert(s.drop_last()[0] == s[0]);
    }
}

// ---------------------------------------------------------------------------
// Round-trip laws
// ---------------------------------------------------------------------------

pub proof fn lemma_outpoint_round_trip(o: OutPointV, rest: Seq<u8>)
    requires
        o.wf(),
    ensures
        spec_read_outpoint(spec_encode_outpoint(o) + rest) == Ok::<(OutPointV, int), DecodeError>(
            (o, 36),
        ),
{
    vstd::bytes::lemma_auto_spec_u32_to_from_le_bytes();
    let s = spec_encode_outpoint(o) + rest;
    assert(s.subrange(0, 32) =~= o.txid);
    assert(s.subrange(32, 36) =~= spec_encode_u32le(o.vout));
    match spec_read_outpoint(s) {
        Ok(p) => {
            assert(p.0 =~= o);
        },
        Err(_) => {},
    }
}

pub proof fn lemma_value_ext_round_trip(value: u64, token: Option<TokenDataV>, rest: Seq<u8>)
    requires
        token is None ==> value < VALUE_EXTENSION_THRESHOLD,
        token matches Some(t) ==> t.wf() && t.commitment.len() < 0x1_0000_0000,
    ensures
        spec_read_value_ext(spec_encode_value_ext(value, token) + rest) == Ok::<
            ((u64, Option<TokenDataV>), int),
            DecodeError,
        >(((value, token), spec_encode_value_ext(value, token).len() as int)),
{
    reveal(spec_read_value_ext);
    vstd::bytes::lemma_auto_spec_u16_to_from_le_bytes();
    vstd::bytes::lemma_auto_spec_u32_to_from_le_bytes();
    vstd::bytes::lemma_auto_spec_u64_to_from_le_bytes();
    let enc = spec_encode_value_ext(value, token);
    let s = enc + rest;
    match token {
        None => {
            crate::encoding::lemma_read_u64le_round_trip(value, rest);
        },
        Some(t) => {
            let sentinel: u64 = 0xffff_ffff_ffff_ffff;
            let wrapped = seq![OP_SPECIAL_TOKEN_PREFIX] + spec_encode_token(t);
            let vi = spec_encode_varint(value);
            let bl = spec_encode_blob(wrapped);
            assert(s =~= spec_encode_u64le(sentinel) + (vi + (bl + rest)));
            crate::encoding::lemma_read_u64le_round_trip(sentinel, vi + (bl + rest));
            assert(sentinel >= VALUE_EXTENSION_THRESHOLD);
            assert(0xffff_ffff_ffff_ffffu64 & 0xf == 0xf) by (bit_vector);
            assert(s.skip(8) =~= vi + (bl + rest));
            crate::encoding::lemma_read_varint_round_trip(value, bl + rest);
            let k = vi.len() as int;
            assert(s.skip(8 + k) =~= bl + rest);
            assert(wrapped.len() <= u64::MAX);
            crate::encoding::lemma_read_blob_round_trip(wrapped, rest);
            let k2 = bl.len() as int;
            assert(wrapped[0] == OP_SPECIAL_TOKEN_PREFIX);
            assert(wrapped.skip(1) =~= spec_encode_token(t) + Seq::<u8>::empty());
            crate::token::lemma_token_round_trip(t, Seq::empty());
            assert(1 + spec_encode_token(t).len() == wrapped.len());
            assert(enc.len() == 8 + k + k2);
        },
    }
}

pub proof fn lemma_signed_input_round_trip(t: TxInV, rest: Seq<u8>)
    requires
        t.encodable(),
    ensures
        spec_read_input(spec_encode_signed_input(t) + rest) == Ok::<
            (MaybeUnsignedTxInV, int),
            DecodeError,
        >((MaybeUnsignedTxInV::Signed(t), spec_encode_signed_input(t).len() as int)),
{
    reveal(spec_read_input);
    vstd::bytes::lemma_auto_spec_u16_to_from_le_bytes();
    vstd::bytes::lemma_auto_spec_u32_to_from_le_bytes();
    vstd::bytes::lemma_auto_spec_u64_to_from_le_bytes();
    let op = spec_encode_outpoint(t.previous_output);
    let bl = spec_encode_blob(t.script_sig);
    let sq = spec_encode_u32le(t.sequence);
    let s = spec_encode_signed_input(t) + rest;
    assert(s =~= op + (bl + (sq + rest)));
    lemma_outpoint_round_trip(t.previous_output, bl + (sq + rest));
    assert(s.skip(36) =~= bl + (sq + rest));
    crate::encoding::lemma_read_blob_round_trip(t.script_sig, sq + rest);
    let k1 = bl.len() as int;
    assert(s.skip(36 + k1) =~= sq + rest);
    crate::encoding::lemma_read_u32le_round_trip(t.sequence, rest);
    match spec_read_input(s) {
        Ok(p) => {
            match p.0 {
                MaybeUnsignedTxInV::Signed(d) => {
                    assert(d =~= t);
                },
                MaybeUnsignedTxInV::Unsigned(_) => {},
            }
        },
        Err(_) => {},
    }
}

pub proof fn lemma_unsigned_input_round_trip(u: UnsignedTxInV, rest: Seq<u8>)
    requires
        u.encodable(),
    ensures
        spec_read_input(spec_encode_unsigned_input(u) + rest) == Ok::<
            (MaybeUnsignedTxInV, int),
            DecodeError,
        >((MaybeUnsignedTxInV::Unsigned(u), spec_encode_unsigned_input(u).len() as int)),
{
    reveal(spec_read_input);
    vstd::bytes::lemma_auto_spec_u16_to_from_le_bytes();
    vstd::bytes::lemma_auto_spec_u32_to_from_le_bytes();
    vstd::bytes::lemma_auto_spec_u64_to_from_le_bytes();
    let op = spec_encode_outpoint(u.previous_output);
    let bl = spec_encode_blob(u.unsigned_script_sig);
    let sq = spec_encode_u32le(u.sequence);
    let ve = spec_encode_value_ext(u.value, u.token);
    let s = spec_encode_unsigned_input(u) + rest;
    assert(s =~= op + (bl + (sq + (ve + rest))));
    lemma_outpoint_round_trip(u.previous_output, bl + (sq + (ve + rest)));
    assert(s.skip(36) =~= bl + (sq + (ve + rest)));
    crate::encoding::lemma_read_blob_round_trip(u.unsigned_script_sig, sq + (ve + rest));
    let k1 = bl.len() as int;
    assert(s.skip(36 + k1) =~= sq + (ve + rest));
    crate::encoding::lemma_read_u32le_round_trip(u.sequence, ve + rest);
    assert(s.skip(36 + k1 + 4) =~= ve + rest);
    lemma_value_ext_round_trip(u.value, u.token, rest);
    match spec_read_input(s) {
        Ok(p) => {
            match p.0 {
                MaybeUnsignedTxInV::Unsigned(d) => {
                    assert(d =~= u);
                },
                MaybeUnsignedTxInV::Signed(_) => {},
            }
        },
        Err(_) => {},
    }
}

pub proof fn lemma_input_round_trip(i: MaybeUnsignedTxInV, rest: Seq<u8>)
    requires
        i.encodable(),
    ensures
        spec_read_input(spec_encode_input(i) + rest) == Ok::<(MaybeUnsignedTxInV, int), DecodeError>(
            (i, spec_encode_input(i).len() as int),
        ),
{
    match i {
        MaybeUnsignedTxInV::Unsigned(u) => lemma_unsigned_input_round_trip(u, rest),
        MaybeUnsignedTxInV::Signed(t) => lemma_signed_input_round_trip(t, rest),
    }
}

pub proof fn lemma_input_list_round_trip(ins: Seq<MaybeUnsignedTxInV>, rest: Seq<u8>)
    requires
        forall|i: int| 0 <= i < ins.len() ==> (#[trigger] ins[i]).encodable(),
    ensures
        spec_read_input_list(spec_encode_input_list(ins) + rest, ins.len()) == Ok::<
            (Seq<MaybeUnsignedTxInV>, int),
            DecodeError,
        >((ins, spec_encode_input_list(ins).len() as int)),
    decreases ins.len(),
{
    if ins.len() == 0 {
        assert(spec_encode_input_list(ins) =~= Seq::<u8>::empty());
        match spec_read_input_list(spec_encode_input_list(ins) + rest, 0) {
            Ok(p) => {
                assert(p.0 =~= ins);
            },
            Err(_) => {},
        }
    } else {
        let head = ins[0];
        let tail = ins.skip(1);
        let e0 = spec_encode_input(head);
        let etail = spec_encode_input_list(tail);
        let s = spec_encode_input_list(ins) + rest;
        assert(s =~= e0 + (etail + rest));
        lemma_input_round_trip(head, etail + rest);
        assert(s.skip(e0.len() as int) =~= etail + rest);
        assert(forall|i: int| 0 <= i < tail.len() ==> (#[trigger] tail[i]).encodable());
        lemma_input_list_round_trip(tail, rest);
        match spec_read_input_list(s, ins.len()) {
            Ok(p) => {
                assert(p.0 =~= ins);
            },
            Err(_) => {},
        }
    }
}

pub proof fn lemma_inputs_round_trip(ins: Seq<MaybeUnsignedTxInV>, rest: Seq<u8>)
    requires
        forall|i: int| 0 <= i < ins.len() ==> (#[trigger] ins[i]).encodable(),
        ins.len() <= u64::MAX,
    ensures
        spec_read_inputs(spec_encode_inputs(ins) + rest) == Ok::<
            (Seq<MaybeUnsignedTxInV>, int),
            DecodeError,
        >((ins, spec_encode_inputs(ins).len() as int)),
{
    vstd::bytes::lemma_auto_spec_u16_to_from_le_bytes();
    vstd::bytes::lemma_auto_spec_u32_to_from_le_bytes();
    vstd::bytes::lemma_auto_spec_u64_to_from_le_bytes();
    let vi = spec_encode_varint(ins.len() as u64);
    let el = spec_encode_input_list(ins);
    let s = spec_encode_inputs(ins) + rest;
    assert(s =~= vi + (el + rest));
    crate::encoding::lemma_read_varint_round_trip(ins.len() as u64, el + rest);
    assert(s.skip(vi.len() as int) =~= el + rest);
    lemma_input_list_round_trip(ins, rest);
}

pub proof fn lemma_output_round_trip(o: TxOutV, rest: Seq<u8>)
    requires
        o.encodable(),
    ensures
        spec_read_output(spec_encode_output(o) + rest) == Ok::<(TxOutV, int), DecodeError>(
            (o, spec_encode_output(o).len() as int),
        ),
{
    reveal(spec_read_output);
    vstd::bytes::lemma_auto_spec_u16_to_from_le_bytes();
    vstd::bytes::lemma_auto_spec_u32_to_from_le_bytes();
    vstd::bytes::lemma_auto_spec_u64_to_from_le_bytes();
    let s = spec_encode_output(o) + rest;
    match o.token {
        None => {
            let bl = spec_encode_blob(o.script_pubkey);
            assert(s =~= spec_encode_u64le(o.value) + (bl + rest));
            crate::encoding::lemma_read_u64le_round_trip(o.value, bl + rest);
            assert(s.skip(8) =~= bl + rest);
            crate::encoding::lemma_read_blob_round_trip(o.script_pubkey, rest);
            match spec_read_output(s) {
                Ok(p) => {
                    assert(p.0 =~= o);
                },
                Err(_) => {},
            }
        },
        Some(t) => {
            let wrapped = seq![OP_SPECIAL_TOKEN_PREFIX] + spec_encode_token(t) + o.script_pubkey;
            let bl = spec_encode_blob(wrapped);
            assert(s =~= spec_encode_u64le(o.value) + (bl + rest));
            crate::encoding::lemma_read_u64le_round_trip(o.value, bl + rest);
            assert(s.skip(8) =~= bl + rest);
            assert(wrapped.len() <= u64::MAX);
            crate::encoding::lemma_read_blob_round_trip(wrapped, rest);
            assert(wrapped[0] == OP_SPECIAL_TOKEN_PREFIX);
            assert(wrapped.skip(1) =~= spec_encode_token(t) + o.script_pubkey);
            crate::token::lemma_token_round_trip(t, o.script_pubkey);
            let kt = spec_encode_token(t).len() as int;
            assert(wrapped.skip(1 + kt) =~= o.script_pubkey);
            match spec_read_output(s) {
                Ok(p) => {
                    assert(p.0 =~= o);
                },
                Err(_) => {},
            }
        },
    }
}

pub proof fn lemma_output_list_round_trip(outs: Seq<TxOutV>, rest: Seq<u8>)
    requires
        forall|i: int| 0 <= i < outs.len() ==> (#[trigger] outs[i]).encodable(),
    ensures
        spec_read_output_list(spec_encode_output_list(outs) + rest, outs.len()) == Ok::<
            (Seq<TxOutV>, int),
            DecodeError,
        >((outs, spec_encode_output_list(outs).len() as int)),
    decreases outs.len(),
{
    if outs.len() == 0 {
        assert(spec_encode_output_list(outs) =~= Seq::<u8>::empty());
        match spec_read_output_list(spec_encode_output_list(outs) + rest, 0) {
            Ok(p) => {
                assert(p.0 =~= outs);
            },
            Err(_) => {},
        }
    } else {
        let head = outs[0];
        let tail = outs.skip(1);
        let e0 = spec_encode_output(head);
        let etail = spec_encode_output_list(tail);
        let s = spec_encode_output_list(outs) + rest;
        assert(s =~= e0 + (etail + rest));
        lemma_output_round_trip(head, etail + rest);
        assert(s.skip(e0.len() as int) =~= etail + rest);
        assert(forall|i: int| 0 <= i < tail.len() ==> (#[trigger] tail[i]).encodable());
        lemma_output_list_round_trip(tail, rest);
        match spec_read_output_list(s, outs.len()) {
            Ok(p) => {
                assert(p.0 =~= outs);
            },
            Err(_) => {},
        }
    }
}

pub proof fn lemma_outputs_round_trip(outs: Seq<TxOutV>, rest: Seq<u8>)
    requires
        forall|i: int| 0 <= i < outs.len() ==> (#[trigger] outs[i]).encodable(),
        outs.len() <= u64::MAX,
    ensures
        spec_read_outputs(spec_encode_outputs(outs) + rest) == Ok::<
            (Seq<TxOutV>, int),
            DecodeError,
        >((outs, spec_encode_outputs(outs).len() as int)),
{
    vstd::bytes::lemma_auto_spec_u16_to_from_le_bytes();
    vstd::bytes::lemma_auto_spec_u32_to_from_le_bytes();
    vstd::bytes::lemma_auto_spec_u64_to_from_le_bytes();
    let vi = spec_encode_varint(outs.len() as u64);
    let el = spec_encode_output_list(outs);
    let s = spec_encode_outputs(outs) + rest;
    assert(s =~= vi + (el + rest));
    crate::encoding::lemma_read_varint_round_trip(outs.len() as u64, el + rest);
    assert(s.skip(vi.len() as int) =~= el + rest);
    lemma_output_list_round_trip(outs, rest);
}

/// The round-trip law: decoding what the encoder produced gives back exactly
/// the same transaction value, field for field, consuming every byte.
pub proof fn lemma_tx_round_trip(t: PartiallySignedTransactionV)
    requires
        t.encodable(),
    ensures
        spec_deserialize(spec_encode_tx(t)) == Ok::<PartiallySignedTransactionV, DecodeError>(t),
{
    vstd::bytes::lemma_auto_spec_u16_to_from_le_bytes();
    vstd::bytes::lemma_auto_spec_u32_to_from_le_bytes();
    vstd::bytes::lemma_auto_spec_u64_to_from_le_bytes();
    let vb = spec_encode_u32le(t.version as u32);
    let ib = spec_encode_inputs(t.input);
    let ob = spec_encode_outputs(t.output);
    let lb = spec_encode_u32le(t.lock_time);
    let s = spec_encode_tx(t);
    assert(s =~= vb + (ib + (ob + (lb + Seq::<u8>::empty()))));
    crate::encoding::lemma_read_u32le_round_trip(t.version as u32, ib + (ob + (lb
        + Seq::<u8>::empty())));
    let v: i32 = t.version;
    assert(((v as u32) as i32) == v) by (bit_vector);
    assert(s.skip(4) =~= ib + (ob + (lb + Seq::<u8>::empty())));
    lemma_inputs_round_trip(t.input, ob + (lb + Seq::<u8>::empty()));
    let ki = ib.len() as int;
    assert(s.skip(4 + ki) =~= ob + (lb + Seq::<u8>::empty()));
    lemma_outputs_round_trip(t.output, lb + Seq::<u8>::empty());
    let ko = ob.len() as int;
    assert(s.skip(4 + ki + ko) =~= lb + Seq::<u8>::empty());
    crate::encoding::lemma_read_u32le_round_trip(t.lock_time, Seq::empty());
    match spec_read_tx(s) {
        Ok(p) => {
            assert(p.0 =~= t);
            assert(p.1 == s.len());
        },
        Err(_) => {},
    }
}

// ---------------------------------------------------------------------------
// Boundary and allocation-guard laws
// ---------------------------------------------------------------------------

/// The extension sentinel boundary: an 8-byte value just below the threshold
/// — in particular exactly one less than it — decodes as an ordinary value
/// with no token data, while a value at or above the threshold whose low
/// nibble is not the recognized extension version is a hard
/// unknown-extension-version error.
pub proof fn lemma_extension_sentinel_boundary(s: Seq<u8>)
    requires
        s.len() >= 8,
    ensures
        ({
            let v = vstd::bytes::spec_u64_from_le_bytes(s.subrange(0, 8));
            &&& (v < VALUE_EXTENSION_THRESHOLD ==> spec_read_value_ext(s) == Ok::<
                ((u64, Option<TokenDataV>), int),
                DecodeError,
            >(((v, None), 8)))
            &&& (v >= VALUE_EXTENSION_THRESHOLD && v & 0xf != 0xf ==> spec_read_value_ext(s)
                == Err::<((u64, Option<TokenDataV>), int), DecodeError>(
                DecodeError::UnknownExtensionVersion,
            ))
        }),
{
    reveal(spec_read_value_ext);
}

/// The extended value field consumes at least its 8 leading bytes and never
/// more than the buffer holds.
pub proof fn lemma_read_value_ext_bounds(s: Seq<u8>)
    ensures
        spec_read_value_ext(s) matches Ok(p) ==> 8 <= p.1 <= s.len(),
{
    reveal(spec_read_value_ext);
    if s.len() >= 8 {
        crate::encoding::lemma_read_varint_bounds(s.skip(8));
        match spec_read_varint(s.skip(8)) {
            Ok((_, k)) => {
                crate::encoding::lemma_read_blob_bounds(s.skip(8 + k));
            },
            Err(_) => {},
        }
    }
}

/// An input record consumes at least its fixed fields — 41 bytes — and never
/// more than the buffer holds.
pub proof fn lemma_read_input_bounds(s: Seq<u8>)
    ensures
        spec_read_input(s) matches Ok(p) ==> 41 <= p.1 <= s.len(),
{
    reveal(spec_read_input);
    crate::encoding::lemma_read_blob_bounds(s.skip(36));
    match spec_read_blob(s.skip(36)) {
        Ok((_, k1)) => {
            lemma_read_value_ext_bounds(s.skip(36 + k1 + 4));
        },
        Err(_) => {},
    }
}

/// A decoded input list never holds more records than the buffer has bytes:
/// every record consumes at least one.
pub proof fn lemma_input_count_bounded(s: Seq<u8>, n: nat)
    ensures
        spec_read_input_list(s, n) matches Ok(p) ==> n <= s.len(),
    decreases n,
{
    if n > 0 {
        lemma_read_input_bounds(s);
        match spec_read_input(s) {
            Ok((_, k)) => {
                lemma_input_count_bounded(s.skip(k), (n - 1) as nat);
            },
            Err(_) => {},
        }
    }
}

/// The allocation guard: a count prefix claiming more input records than
/// there are bytes left can only end in an error — the decoder fails once
/// the bytes run out instead of trusting the claimed count. (The executable
/// decoder additionally caps what it pre-allocates at
/// `MAX_INPUT_PREALLOC` records.)
pub proof fn lemma_allocation_guard(s: Seq<u8>)
    ensures
        (spec_read_varint(s) matches Ok(p) && p.0 > s.len()) ==> spec_read_inputs(s) is Err,
{
    match spec_read_varint(s) {
        Ok((n, k)) => {
            if n > s.len() {
                crate::encoding::lemma_read_varint_bounds(s);
                lemma_input_count_bounded(s.skip(k), n as nat);
            }
        },
        Err(_) => {},
    }
}

// ---------------------------------------------------------------------------
// Decoded values are well formed
// ---------------------------------------------------------------------------

/// A token payload read out of the extended value field is well formed.
pub proof fn lemma_read_value_ext_wf(s: Seq<u8>)
    ensures
        spec_read_value_ext(s) matches Ok(p) ==> (p.0.1 matches Some(t) ==> t.wf()),
{
    reveal(spec_read_value_ext);
    if s.len() >= 8 {
        match spec_read_varint(s.skip(8)) {
            Ok((_, k)) => {
                match spec_read_blob(s.skip(8 + k)) {
                    Ok((blob, _)) => {
                        crate::token::lemma_decoded_token_wf(blob.skip(1));
                    },
                    Err(_) => {},
                }
            },
            Err(_) => {},
        }
    }
}

/// A decoded input record is well formed: its previous-output id is 32 bytes
/// and any token payload it carries is well formed.
pub proof fn lemma_read_input_wf(s: Seq<u8>)
    ensures
        spec_read_input(s) matches Ok(p) ==> p.0.wf(),
{
    reveal(spec_read_input);
    match spec_read_blob(s.skip(36)) {
        Ok((_, k1)) => {
            lemma_read_value_ext_wf(s.skip(36 + k1 + 4));
        },
        Err(_) => {},
    }
}

/// Every record of a decoded input list is well formed.
pub proof fn lemma_read_input_list_wf(s: Seq<u8>, n: nat)
    ensures
        spec_read_input_list(s, n) matches Ok(p) ==> forall|i: int|
            0 <= i < p.0.len() ==> (#[trigger] p.0[i]).wf(),
    decreases n,
{
    if n > 0 {
        lemma_read_input_wf(s);
        match spec_read_input(s) {
            Ok((_, k)) => {
                lemma_read_input_list_wf(s.skip(k), (n - 1) as nat);
            },
            Err(_) => {},
        }
    }
}

pub proof fn lemma_read_inputs_wf(s: Seq<u8>)
    ensures
        spec_read_inputs(s) matches Ok(p) ==> forall|i: int|
            0 <= i < p.0.len() ==> (#[trigger] p.0[i]).wf(),
{
    match spec_read_varint(s) {
        Ok((n, k)) => {
            lemma_read_input_list_wf(s.skip(k), n as nat);
        },
        Err(_) => {},
    }
}

/// A decoded output is well formed: any token payload split off its script
/// blob is well formed.
pub proof fn lemma_read_output_wf(s: Seq<u8>)
    ensures
        spec_read_output(s) matches Ok(p) ==> p.0.wf(),
{
    reveal(spec_read_output);
    match spec_read_blob(s.skip(8)) {
        Ok((blob, _)) => {
            crate::token::lemma_decoded_token_wf(blob.skip(1));
        },
        Err(_) => {},
    }
}

/// Every record of a decoded output list is well formed.
pub proof fn lemma_read_output_list_wf(s: Seq<u8>, n: nat)
    ensures
        spec_read_output_list(s, n) matches Ok(p) ==> forall|i: int|
            0 <= i < p.0.len() ==> (#[trigger] p.0[i]).wf(),
    decreases n,
{
    if n > 0 {
        lemma_read_output_wf(s);
        match spec_read_output(s) {
            Ok((_, k)) => {
                lemma_read_output_list_wf(s.skip(k), (n - 1) as nat);
            },
            Err(_) => {},
        }
    }
}

pub proof fn lemma_read_outputs_wf(s: Seq<u8>)
    ensures
        spec_read_outputs(s) matches Ok(p) ==> forall|i: int|
            0 <= i < p.0.len() ==> (#[trigger] p.0[i]).wf(),
{
    match spec_read_varint(s) {
        Ok((n, k)) => {
            lemma_read_output_list_wf(s.skip(k), n as nat);
        },
        Err(_) => {},
    }
}

// ---------------------------------------------------------------------------
// The whole transaction
// ---------------------------------------------------------------------------

impl PartiallySignedTransaction {
    /// Serializes the transaction to its exact wire bytes.
    pub fn serialize(&self) -> (r: Vec<u8>)
        requires
            self@.wf(),
        ensures
            r@ == spec_encode_tx(self@),
    {
        proof {
            assert forall|i: int| 0 <= i < self.input@.len() implies (
            #[trigger] self.input@[i])@.wf() by {
                assert(self@.input[i] == self.input@[i]@);
            }
            assert forall|i: int| 0 <= i < self.output@.len() implies (
            #[trigger] self.output@[i])@.wf() by {
                assert(self@.output[i] == self.output@[i]@);
            }
        }
        let mut out: Vec<u8> = Vec::new();
        write_u32le(&mut out, self.version as u32);
        encode_inputs(&mut out, &self.input);
        encode_outputs(&mut out, &self.output);
        write_u32le(&mut out, self.lock_time);
        proof {
            assert(out@ =~= spec_encode_tx(self@));
        }
        out
    }

    /// Decodes a transaction from a whole buffer; trailing bytes are an
    /// error.
    pub fn deserialize(data: &[u8]) -> (r: Result<Self, DecodeError>)
        ensures
            match r {
                Ok(t) => spec_deserialize(data@) matches Ok(v) && v == t@,
                Err(e) => spec_deserialize(data@) == Err::<PartiallySignedTransactionV, DecodeError>(
                    e,
                ),
            },
            r matches Ok(t) ==> t@.wf(),
    {
        proof {
            assert(data@.skip(0) =~= data@);
        }
        let (vraw, end0) = match read_u32le(data, 0) {
            Ok(p) => p,
            Err(e) => {
                return Err(e);
            },
        };
        let (input, end1) = match decode_inputs(data, end0) {
            Ok(p) => p,
            Err(e) => {
                return Err(e);
            },
        };
        proof {
            lemma_skip_skip(data@, 4, end1 - 4);
        }
        let (output, end2) = match decode_outputs(data, end1) {
            Ok(p) => p,
            Err(e) => {
                return Err(e);
            },
        };
        proof {
            lemma_skip_skip(data@, 4, end2 - 4);
        }
        let (lock_time, end3) = match read_u32le(data, end2) {
            Ok(p) => p,
            Err(e) => {
                return Err(e);
            },
        };
        if end3 != data.len() {
            return Err(DecodeError::TrailingData);
        }
        let tx = PartiallySignedTransaction { version: vraw as i32, lock_time, input, output };
        proof {
            lemma_read_inputs_wf(data@.skip(end0 as int));
            lemma_read_outputs_wf(data@.skip(end1 as int));
            assert forall|i: int| 0 <= i < tx@.input.len() implies (#[trigger] tx@.input[i]).wf()
                by {
                assert(tx@.input[i] == spec_input_views(tx.input@)[i]);
            }
            assert forall|i: int| 0 <= i < tx@.output.len() implies (#[trigger] tx@.output[i]).wf()
                by {
                assert(tx@.output[i] == spec_output_views(tx.output@)[i]);
            }
        }
        Ok(tx)
    }
}

} // verus!
