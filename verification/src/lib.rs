//! Binary codec for partially signed Bitcoin Cash transactions.
//!
//! The wire format is the ordinary transaction serialization, extended in two
//! ways so that a transaction whose inputs are not signed yet can still be
//! stored and exchanged:
//!
//! * an input's unlocking-script field may hold a structured placeholder (an
//!   [`unsigned::UnsignedScriptSig`]) that records either the locking script
//!   being spent or extended public keys plus derivation paths from which that
//!   script can be recovered later;
//! * such an input's value field may be extended, behind a sentinel, with the
//!   spent output's value and an optional CashToken payload.
//!
//! Decoding tells signed from unsigned inputs purely by structurally
//! classifying the unlocking-script bytes; the classifier and the codec are
//! specified together so that everything the encoder produces decodes back to
//! the same value.

use vstd::prelude::*;

pub mod address;
pub mod client;
pub mod encoding;
pub mod keys;
pub mod script;
pub mod token;
pub mod transaction;
pub mod ui;
pub mod unsigned;

verus! {

/// Why a decode attempt failed. Decoding is a pure function of the input
/// bytes; every failure is deterministic.
#[derive(Clone, Copy, Debug, PartialEq, Eq, Structural)]
pub enum DecodeError {
    /// The buffer ended in the middle of a field.
    Truncated,
    /// A length or count prefix was not encoded in its minimal form.
    NonMinimalVarInt,
    /// The extended value field's version nibble is not the recognized one.
    UnknownExtensionVersion,
    /// A token payload had a wrong announcement opcode, an invalid bitfield,
    /// an out-of-range amount or commitment, or trailing bytes.
    MalformedTokenPayload,
    /// Leftover bytes after a complete transaction.
    TrailingData,
}

} // verus!
