//! The unsigned-input placeholder: a synthetic unlocking script that records
//! how to recover the locking script being spent, and the structural
//! classifier that tells such placeholders from genuine unlocking scripts.
//!
//! Two placeholder shapes exist. The single-key form is `PUSH(0xff)
//! PUSH(payload)` where the payload is either `0xfd` followed by the spent
//! locking script verbatim, or `0xff` followed by a 78-byte extended public
//! key and a compact derivation path. The multisig form is `PUSH(empty)`,
//! one `PUSH(0xff)` placeholder per required signature, and a final push
//! holding a redeem-script skeleton whose key slots are extended-key records.
//!
//! The classifier is a structural sniff over untrusted bytes: everything this
//! module's own constructors produce classifies as unsigned, while malformed
//! or ambiguous scripts fail closed as signed. A genuine unlocking script
//! that happens to match the placeholder template would be misclassified;
//! that collision is an accepted limitation of the format itself.

use vstd::prelude::*;

use crate::script::InstrV;
use crate::script::Instruction;
use crate::script::OP_CHECKMULTISIG;
use crate::script::has_address_form;
use crate::script::lemma_push_round_trip;
use crate::script::next_instruction;
use crate::script::push_slice;
use crate::script::spec_has_address_form;
use crate::script::spec_instructions;
use crate::script::spec_next_instr;
use crate::script::spec_p2pkh_script;
use crate::script::spec_p2sh20_script;
use crate::script::spec_push;
use crate::encoding::lemma_skip_skip;

verus! {

broadcast use vstd::seq_lib::group_seq_properties;

/// Marker byte opening the single-key placeholder payload when the locking
/// script itself follows.
pub const PAYLOAD_KNOWN_SCRIPT: u8 = 0xfd;

/// Marker byte opening the single-key placeholder payload when an extended
/// public key and derivation path follow.
pub const PAYLOAD_XPUB: u8 = 0xff;

// ---------------------------------------------------------------------------
// Classification
// ---------------------------------------------------------------------------

/// Whether a single-key placeholder payload looks recoverable: a known-script
/// marker followed by a script some address can be formed from, or one of the
/// recognized extended-key marker bytes.
pub open spec fn spec_is_unsigned_payload(p: Seq<u8>) -> bool {
    if p.len() == 0 {
        false
    } else if p[0] == PAYLOAD_KNOWN_SCRIPT {
        spec_has_address_form(p.skip(1))
    } else {
        p[0] == 0xfe || p[0] == 0xff || p[0] == 0x02 || p[0] == 0x03 || p[0] == 0x04
    }
}

pub fn is_unsigned_payload(p: &[u8]) -> (r: bool)
    ensures
        r == spec_is_unsigned_payload(p@),
{
    if p.len() == 0 {
        return false;
    }
    let b0 = p[0];
    if b0 == PAYLOAD_KNOWN_SCRIPT {
        let rest = vstd::slice::slice_subrange(p, 1, p.len());
        proof {
            assert(p@.subrange(1, p@.len() as int) =~= p@.skip(1));
        }
        has_address_form(rest)
    } else {
        b0 == 0xfe || b0 == 0xff || b0 == 0x02 || b0 == 0x03 || b0 == 0x04
    }
}

/// Collects the pushed byte strings of all remaining instructions; `None` if
/// any instruction is malformed or is not a push.
pub open spec fn spec_collect_pushes(s: Seq<u8>) -> Option<Seq<Seq<u8>>>
    decreases s.len(),
{
    if s.len() == 0 {
        Some(Seq::empty())
    } else {
        match spec_next_instr(s) {
            Some((InstrV::Push(b), n)) => if 1 <= n <= s.len() {
                match spec_collect_pushes(s.skip(n)) {
                    Some(rest) => Some(seq![b] + rest),
                    None => None,
                }
            } else {
                None
            },
            _ => None,
        }
    }
}

/// The value a push-number opcode stands for: the dedicated negative-one
/// opcode, or one through sixteen.
pub open spec fn spec_pushnum(op: u8) -> Option<int> {
    if op == 0x4f {
        Some(-1int)
    } else if 0x51 <= op <= 0x60 {
        Some(op - 0x50)
    } else {
        None
    }
}

/// Whether `t` is a multisig redeem-script skeleton demanding exactly
/// `num_sigs` signatures: a push-number `m` equal to `num_sigs`, any
/// instructions standing for the key slots, a push-number `n` equal to the
/// number of those slots, and a final check-multisig opcode.
pub open spec fn spec_is_multisig(t: Seq<u8>, num_sigs: int) -> bool {
    match spec_instructions(t) {
        None => false,
        Some(ins) => {
            &&& ins.len() >= 3
            &&& (ins[0] matches InstrV::Op(m0) && spec_pushnum(m0) == Some(num_sigs))
            &&& (ins[ins.len() - 2] matches InstrV::Op(n0) && spec_pushnum(n0) == Some(
                ins.len() - 3,
            ))
            &&& ins[ins.len() - 1] == InstrV::Op(OP_CHECKMULTISIG)
        },
    }
}

/// The classification heuristic applied during decode, before any committed
/// interpretation of an input: a script is a placeholder when it is either
/// the single-key form (a push of the single byte 0xff, then exactly one
/// recoverable-looking payload push, then nothing) or the multisig form (an
/// empty first push, then only pushes, the last of which is a multisig
/// skeleton demanding one signature per preceding push). Everything else —
/// including every malformed script — is a genuine, signed, unlocking script.
#[verifier::opaque]
pub open spec fn spec_is_unsigned_script_sig(s: Seq<u8>) -> bool {
    match spec_next_instr(s) {
        Some((InstrV::Push(b1), n1)) => if b1 == seq![0xffu8] {
            match spec_next_instr(s.skip(n1)) {
                Some((InstrV::Push(p), n2)) => spec_is_unsigned_payload(p) && n1 + n2 == s.len(),
                _ => false,
            }
        } else if b1.len() == 0 {
            match spec_collect_pushes(s.skip(n1)) {
                Some(pushes) => pushes.len() >= 1 && spec_is_multisig(
                    pushes[pushes.len() - 1],
                    pushes.len() - 1,
                ),
                None => false,
            }
        } else {
            false
        },
        _ => false,
    }
}

/// Compact shape of one parsed instruction: which opcode it is, or that it
/// is a push.
#[derive(Clone, Copy, PartialEq, Eq, Structural)]
enum InstrSummary {
    IsPush,
    IsOp(u8),
}

spec fn spec_summary(i: InstrV) -> InstrSummary {
    match i {
        InstrV::Push(_) => InstrSummary::IsPush,
        InstrV::Op(op) => InstrSummary::IsOp(op),
    }
}

/// Whether `t` is a multisig skeleton for exactly `num_sigs` signatures.
#[verifier::loop_isolation(false)]
#[verifier::rlimit(60)]
pub fn is_multisig(t: &[u8], num_sigs: usize) -> (r: bool)
    ensures
        r == spec_is_multisig(t@, num_sigs as int),
{
    let mut pos: usize = 0;
    let mut sums: Vec<InstrSummary> = Vec::new();
    let ghost mut ins: Seq<InstrV> = Seq::empty();
    while pos < t.len()
        invariant
            pos <= t@.len(),
            sums@.len() == ins.len(),
            forall|i: int| 0 <= i < ins.len() ==> sums@[i] == spec_summary(ins[i]),
            match spec_instructions(t@.skip(pos as int)) {
                None => spec_instructions(t@) is None,
                Some(r) => spec_instructions(t@) == Some(ins + r),
            },
        decreases t@.len() - pos,
    {
        match next_instruction(t, pos) {
            None => {
                return false;
            },
            Some((instr, end)) => {
                proof {
                    lemma_skip_skip(t@, pos as int, end - pos);
                }
                sums.push(
                    match &instr {
                        Instruction::Push(_) => InstrSummary::IsPush,
                        Instruction::Op(op) => InstrSummary::IsOp(*op),
                    },
                );
                proof {
                    let prev = ins;
                    ins = ins + seq![instr@];
                    match spec_instructions(t@.skip(end as int)) {
                        Some(r) => {
                            assert(prev + (seq![instr@] + r) =~= ins + r);
                        },
                        None => {},
                    }
                }
                pos = end;
            },
        }
    }
    proof {
        assert(t@.skip(pos as int) =~= Seq::<u8>::empty());
        assert(spec_instructions(t@) == Some(ins));
    }
    if sums.len() < 3 {
        return false;
    }
    let m0 = match sums[0] {
        InstrSummary::IsOp(op) => op,
        InstrSummary::IsPush => {
            return false;
        },
    };
    let n0 = match sums[sums.len() - 2] {
        InstrSummary::IsOp(op) => op,
        InstrSummary::IsPush => {
            return false;
        },
    };
    match sums[sums.len() - 1] {
        InstrSummary::IsOp(op) => {
            if op != OP_CHECKMULTISIG {
                return false;
            }
        },
        InstrSummary::IsPush => {
            return false;
        },
    }
    let m_ok = 0x51 <= m0 && m0 <= 0x60 && (m0 - 0x50) as usize == num_sigs;
    let n_ok = 0x51 <= n0 && n0 <= 0x60 && (n0 - 0x50) as usize == sums.len() - 3;
    m_ok && n_ok
}

/// Classifies an unlocking script as a placeholder (`true`) or a genuine,
/// signed, script (`false`).
#[verifier::loop_isolation(false)]
#[verifier::rlimit(100)]
pub fn is_unsigned_script_sig(s: &[u8]) -> (r: bool)
    ensures
        r == spec_is_unsigned_script_sig(s@),
{
    proof {
        reveal(spec_is_unsigned_script_sig);
    }
    if s.len() == 0 {
        return false;
    }
    let (first, n1) = match next_instruction(s, 0) {
        None => {
            return false;
        },
        Some(p) => p,
    };
    proof {
        assert(s@.skip(0) =~= s@);
    }
    let b1 = match first {
        Instruction::Op(_) => {
            return false;
        },
        Instruction::Push(b) => b,
    };
    if b1.len() == 1 && b1[0] == 0xff {
        proof {
            assert(b1@ =~= seq![0xffu8]);
        }
        if n1 == s.len() {
            return false;
        }
        match next_instruction(s, n1) {
            None => {
                return false;
            },
            Some((second, n2)) => {
                proof {
                    lemma_skip_skip(s@, n1 as int, n2 - n1);
                }
                match second {
                    Instruction::Op(_) => {
                        return false;
                    },
                    Instruction::Push(p) => {
                        return is_unsigned_payload(p.as_slice()) && n2 == s.len();
                    },
                }
            },
        }
    } else if b1.len() == 0 {
        proof {
            assert(b1@.len() == 0);
            assert(b1@ != seq![0xffu8]);
        }
        let mut pos: usize = n1;
        let mut count: usize = 0;
        let mut last: Option<Vec<u8>> = None;
        let ghost mut acc: Seq<Seq<u8>> = Seq::empty();
        while pos < s.len()
            invariant
                n1 <= pos <= s@.len(),
                count == acc.len(),
                count <= pos,
                count >= 1 <==> last is Some,
                last matches Some(l) ==> (acc.len() >= 1 && l@ == acc.last()),
                match spec_collect_pushes(s@.skip(pos as int)) {
                    None => spec_collect_pushes(s@.skip(n1 as int)) is None,
                    Some(r) => spec_collect_pushes(s@.skip(n1 as int)) == Some(acc + r),
                },
            decreases s@.len() - pos,
        {
            match next_instruction(s, pos) {
                None => {
                    return false;
                },
                Some((instr, end)) => {
                    proof {
                        lemma_skip_skip(s@, pos as int, end - pos);
                    }
                    match instr {
                        Instruction::Op(_) => {
                            return false;
                        },
                        Instruction::Push(b) => {
                            proof {
                                let prev = acc;
                                acc = acc + seq![b@];
                                match spec_collect_pushes(s@.skip(end as int)) {
                                    Some(r) => {
                                        assert(prev + (seq![b@] + r) =~= acc + r);
                                    },
                                    None => {},
                                }
                            }
                            last = Some(b);
                            count = count + 1;
                            pos = end;
                        },
                    }
                },
            }
        }
        proof {
            assert(s@.skip(pos as int) =~= Seq::<u8>::empty());
            assert(spec_collect_pushes(s@.skip(n1 as int)) == Some(acc));
        }
        match last {
            None => false,
            Some(l) => is_multisig(l.as_slice(), count - 1),
        }
    } else {
        proof {
            assert(b1@ != seq![0xffu8]);
        }
        false
    }
}

// ---------------------------------------------------------------------------
// The placeholder type and its single-key constructor
// ---------------------------------------------------------------------------

/// A byte-for-byte specific synthetic unlocking script standing in for a
/// missing signature. It is stored verbatim; nothing is recomputed when it
/// is serialized again.
#[derive(Clone, Debug, PartialEq, Eq)]
pub struct UnsignedScriptSig {
    script: Vec<u8>,
}

impl View for UnsignedScriptSig {
    type V = Seq<u8>;

    closed spec fn view(&self) -> Seq<u8> {
        self.script@
    }
}

/// The single-key placeholder encoding over a payload.
pub open spec fn spec_single_key_placeholder(payload: Seq<u8>) -> Seq<u8> {
    spec_push(seq![0xffu8]) + spec_push(payload)
}

impl UnsignedScriptSig {
    /// Wraps a known locking script: "no signature yet, but this is the
    /// script this input pays from".
    pub fn from_script_pubkey(script_pubkey: &[u8]) -> (r: Self)
        requires
            script_pubkey@.len() + 1 < 0x1_0000_0000,
        ensures
            r@ == spec_single_key_placeholder(seq![PAYLOAD_KNOWN_SCRIPT] + script_pubkey@),
            spec_has_address_form(script_pubkey@) ==> spec_is_unsigned_script_sig(r@),
    {
        proof {
            if spec_has_address_form(script_pubkey@) {
                lemma_single_key_placeholder_classifies(script_pubkey@);
            }
        }
        let mut payload: Vec<u8> = Vec::new();
        payload.push(PAYLOAD_KNOWN_SCRIPT);
        payload.extend_from_slice(script_pubkey);
        let mut script: Vec<u8> = Vec::new();
        let marker: [u8; 1] = [0xff];
        push_slice(&mut script, marker.as_slice());
        proof {
            assert(marker@ =~= seq![0xffu8]);
            assert(payload@ =~= seq![PAYLOAD_KNOWN_SCRIPT] + script_pubkey@);
        }
        push_slice(&mut script, payload.as_slice());
        UnsignedScriptSig { script }
    }

    /// The bare placeholder bytes, exactly as serialized.
    pub fn raw_script(&self) -> (r: &Vec<u8>)
        ensures
            r@ == self@,
    {
        &self.script
    }

    /// Unwraps into the bare placeholder bytes.
    pub fn into_raw_script(self) -> (r: Vec<u8>)
        ensures
            r@ == self@,
    {
        self.script
    }

    /// Wraps bytes already known to be a placeholder script.
    pub fn from_raw_script(s: Vec<u8>) -> (r: Self)
        ensures
            r@ == s@,
    {
        UnsignedScriptSig { script: s }
    }
}

// ---------------------------------------------------------------------------
// Recovering the spendable locking script
// ---------------------------------------------------------------------------

/// A compact derivation path: each step is a little-endian 16-bit child
/// index, unless that value is the all-ones sentinel, in which case the true
/// 32-bit index follows immediately.
pub open spec fn spec_parse_path(b: Seq<u8>) -> Option<Seq<u32>>
    decreases b.len(),
{
    if b.len() == 0 {
        Some(Seq::empty())
    } else if b.len() < 2 {
        None
    } else {
        let n16 = vstd::bytes::spec_u16_from_le_bytes(b.subrange(0, 2));
        if n16 == 0xffff {
            if b.len() < 6 {
                None
            } else {
                let n = vstd::bytes::spec_u32_from_le_bytes(b.subrange(2, 6));
                match spec_parse_path(b.skip(6)) {
                    None => None,
                    Some(p) => Some(seq![n] + p),
                }
            }
        } else {
            match spec_parse_path(b.skip(2)) {
                None => None,
                Some(p) => Some(seq![n16 as u32] + p),
            }
        }
    }
}

/// An extended-key record: the 0xff marker, a 78-byte extended public key,
/// and a compact derivation path filling the rest.
pub open spec fn spec_parse_xpub_record(b: Seq<u8>) -> Option<(Seq<u8>, Seq<u32>)> {
    if b.len() < 79 || b[0] != PAYLOAD_XPUB {
        None
    } else {
        match spec_parse_path(b.skip(79)) {
            None => None,
            Some(p) => Some((b.subrange(1, 79), p)),
        }
    }
}

/// One slot of a redeem-script skeleton: an opcode copied through verbatim,
/// or a key slot holding an extended-key record to be materialized.
pub ghost enum RedeemItemV {
    Op(u8),
    Key(Seq<u8>, Seq<u32>),
}

/// Parses a redeem-script skeleton: every push must be an extended-key
/// record, every other instruction is copied through.
pub open spec fn spec_redeem_items(t: Seq<u8>) -> Option<Seq<RedeemItemV>>
    decreases t.len(),
{
    if t.len() == 0 {
        Some(Seq::empty())
    } else {
        match spec_next_instr(t) {
            None => None,
            Some((i, n)) => if 1 <= n <= t.len() {
                let item = match i {
                    InstrV::Op(op) => Some(RedeemItemV::Op(op)),
                    InstrV::Push(x) => match spec_parse_xpub_record(x) {
                        None => None,
                        Some((xp, p)) => Some(RedeemItemV::Key(xp, p)),
                    },
                };
                match item {
                    None => None,
                    Some(it) => match spec_redeem_items(t.skip(n)) {
                        None => None,
                        Some(rest) => Some(seq![it] + rest),
                    },
                }
            } else {
                None
            },
        }
    }
}

/// The last instruction of a script, provided every instruction parses and
/// the last one is a push.
pub open spec fn spec_last_push(s: Seq<u8>) -> Option<Seq<u8>> {
    match spec_instructions(s) {
        None => None,
        Some(ins) => if ins.len() == 0 {
            None
        } else {
            match ins.last() {
                InstrV::Push(b) => Some(b),
                InstrV::Op(_) => None,
            }
        },
    }
}

/// What a placeholder script records, once parsed: the spent locking script
/// itself, a single extended key and path, or a multisig skeleton.
pub ghost enum RecoveredV {
    KnownScript(Seq<u8>),
    SingleKey(Seq<u8>, Seq<u32>),
    Multisig(Seq<RedeemItemV>),
}

/// Structural parse of a placeholder, mirroring recovery: the multisig form
/// takes the last push as its skeleton (instructions before it may be
/// anything parseable), the single-key form takes the second push's payload.
/// `None` is "no recoverable script": a legitimate state, not an error.
pub open spec fn spec_recover_form(s: Seq<u8>) -> Option<RecoveredV> {
    match spec_next_instr(s) {
        Some((InstrV::Push(b1), n1)) => if b1.len() == 0 {
            match spec_last_push(s.skip(n1)) {
                None => None,
                Some(tmpl) => match spec_redeem_items(tmpl) {
                    None => None,
                    Some(items) => Some(RecoveredV::Multisig(items)),
                },
            }
        } else if b1 == seq![0xffu8] {
            match spec_next_instr(s.skip(n1)) {
                Some((InstrV::Push(p), _)) => if p.len() >= 1 && p[0] == PAYLOAD_KNOWN_SCRIPT {
                    Some(RecoveredV::KnownScript(p.skip(1)))
                } else if p.len() >= 1 && p[0] == PAYLOAD_XPUB {
                    match spec_parse_xpub_record(p) {
                        None => None,
                        Some((xp, path)) => Some(RecoveredV::SingleKey(xp, path)),
                    }
                } else {
                    None
                },
                _ => None,
            }
        } else {
            None
        },
        _ => None,
    }
}

/// The bytes one redeem-skeleton slot contributes to the materialized redeem
/// script: the opcode itself, or a push of the key derived from the record.
pub open spec fn spec_redeem_item_bytes(i: RedeemItemV) -> Seq<u8> {
    match i {
        RedeemItemV::Op(op) => seq![op],
        RedeemItemV::Key(xp, p) => spec_push(
            crate::keys::xpub_pubkey_bytes(crate::keys::spec_derive_xpub(xp, p)),
        ),
    }
}

/// The materialized redeem script: each slot's bytes, in order.
pub open spec fn spec_redeem_script(items: Seq<RedeemItemV>) -> Seq<u8>
    decreases items.len(),
{
    if items.len() == 0 {
        Seq::empty()
    } else {
        spec_redeem_item_bytes(items[0]) + spec_redeem_script(items.skip(1))
    }
}

proof fn lemma_redeem_script_snoc(items: Seq<RedeemItemV>)
    requires
        items.len() > 0,
    ensures
        spec_redeem_script(items) == spec_redeem_script(items.drop_last()) + spec_redeem_item_bytes(
            items.last(),
        ),
    decreases items.len(),
{
    if items.len() == 1 {
        assert(items.drop_last() =~= Seq::<RedeemItemV>::empty());
        assert(items.skip(1) =~= Seq::<RedeemItemV>::empty());
        assert(spec_redeem_script(items) =~= spec_redeem_script(items.drop_last())
            + spec_redeem_item_bytes(items.last()));
    } else {
        let tail = items.skip(1);
        lemma_redeem_script_snoc(tail);
        assert(tail.drop_last() =~= items.drop_last().skip(1));
        assert(tail.last() == items.last());
        assert(spec_redeem_item_bytes(items[0]) + (spec_redeem_script(tail.drop_last())
            + spec_redeem_item_bytes(items.last())) =~= (spec_redeem_item_bytes(items[0])
            + spec_redeem_script(items.drop_last().skip(1))) + spec_redeem_item_bytes(
            items.last(),
        ));
        assert(items.drop_last()[0] == items[0]);
    }
}

/// Whether every key slot of a skeleton derives: opcodes contribute nothing,
/// and each extended-key record must decode and derive along its whole path.
pub open spec fn spec_items_derive_ok(items: Seq<RedeemItemV>) -> bool
    decreases items.len(),
{
    if items.len() == 0 {
        true
    } else {
        &&& (match items[0] {
            RedeemItemV::Op(_) => true,
            RedeemItemV::Key(xp, p) => crate::keys::spec_derive_ok(xp, p),
        })
        &&& spec_items_derive_ok(items.skip(1))
    }
}

proof fn lemma_items_derive_ok_concat(a: Seq<RedeemItemV>, b: Seq<RedeemItemV>)
    ensures
        spec_items_derive_ok(a + b) == (spec_items_derive_ok(a) && spec_items_derive_ok(b)),
    decreases a.len(),
{
    if a.len() == 0 {
        assert(a + b =~= b);
    } else {
        assert((a + b)[0] == a[0]);
        assert((a + b).skip(1) =~= a.skip(1) + b);
        lemma_items_derive_ok_concat(a.skip(1), b);
    }
}

/// Parses a compact derivation path covering `b` from `pos` to its end;
/// `None` exactly where the specification grammar rejects.
#[verifier::loop_isolation(false)]
fn parse_path(b: &[u8], pos: usize) -> (r: Option<Vec<u32>>)
    requires
        pos <= b@.len(),
    ensures
        match r {
            Some(p) => spec_parse_path(b@.skip(pos as int)) == Some(p@),
            None => spec_parse_path(b@.skip(pos as int)) is None,
        },
{
    let mut cursor = pos;
    let mut acc: Vec<u32> = Vec::new();
    while cursor < b.len()
        invariant
            pos <= cursor <= b@.len(),
            match spec_parse_path(b@.skip(cursor as int)) {
                None => spec_parse_path(b@.skip(pos as int)) is None,
                Some(rest) => spec_parse_path(b@.skip(pos as int)) == Some(acc@ + rest),
            },
        decreases b@.len() - cursor,
    {
        let ghost s = b@.skip(cursor as int);
        if b.len() - cursor < 2 {
            return None;
        }
        let n16 = vstd::bytes::u16_from_le_bytes(
            vstd::slice::slice_subrange(b, cursor, cursor + 2),
        );
        proof {
            assert(b@.subrange(cursor as int, cursor + 2) =~= s.subrange(0, 2));
        }
        let step: u32;
        let consumed: usize;
        if n16 == 0xffff {
            if b.len() - cursor < 6 {
                return None;
            }
            step = vstd::bytes::u32_from_le_bytes(
                vstd::slice::slice_subrange(b, cursor + 2, cursor + 6),
            );
            proof {
                assert(b@.subrange(cursor + 2, cursor + 6) =~= s.subrange(2, 6));
            }
            consumed = 6;
        } else {
            step = n16 as u32;
            consumed = 2;
        }
        proof {
            lemma_skip_skip(b@, cursor as int, consumed as int);
            match spec_parse_path(b@.skip(cursor + consumed)) {
                Some(rest) => {
                    assert(acc@ + (seq![step] + rest) =~= acc@.push(step) + rest);
                },
                None => {},
            }
        }
        acc.push(step);
        cursor = cursor + consumed;
    }
    proof {
        assert(b@.skip(cursor as int) =~= Seq::<u8>::empty());
        assert(acc@ + Seq::<u32>::empty() =~= acc@);
    }
    Some(acc)
}

/// Parses an extended-key record; `None` exactly where the specification
/// grammar rejects (in particular when fewer than 78 key bytes follow the
/// marker: a truncated record yields no script rather than a failure).
fn parse_xpub_record(b: &[u8]) -> (r: Option<(Vec<u8>, Vec<u32>)>)
    ensures
        match r {
            Some((xp, p)) => spec_parse_xpub_record(b@) == Some((xp@, p@)),
            None => spec_parse_xpub_record(b@) is None,
        },
{
    if b.len() < 79 {
        return None;
    }
    if b[0] != PAYLOAD_XPUB {
        return None;
    }
    let xp = vstd::slice::slice_to_vec(vstd::slice::slice_subrange(b, 1, 79));
    proof {
        assert(b@.subrange(1, 79) =~= b@.subrange(1int, 79int));
    }
    match parse_path(b, 79) {
        None => None,
        Some(p) => Some((xp, p)),
    }
}


/// Finds the last instruction from `pos` on, provided every instruction
/// parses and the last one is a push.
#[verifier::loop_isolation(false)]
#[verifier::rlimit(60)]
fn last_push(s: &[u8], pos: usize) -> (r: Option<Vec<u8>>)
    requires
        pos <= s@.len(),
    ensures
        match r {
            Some(l) => spec_last_push(s@.skip(pos as int)) == Some(l@),
            None => spec_last_push(s@.skip(pos as int)) is None,
        },
{
    let mut cursor: usize = pos;
    let mut last: Option<Vec<u8>> = None;
    let ghost mut ins: Seq<InstrV> = Seq::empty();
    while cursor < s.len()
        invariant
            pos <= cursor <= s@.len(),
            match spec_instructions(s@.skip(cursor as int)) {
                None => spec_instructions(s@.skip(pos as int)) is None,
                Some(rest) => spec_instructions(s@.skip(pos as int)) == Some(ins + rest),
            },
            ins.len() == 0 ==> last is None,
            ins.len() >= 1 ==> (match ins.last() {
                InstrV::Push(b) => last matches Some(l) && l@ == b,
                InstrV::Op(_) => last is None,
            }),
        decreases s@.len() - cursor,
    {
        match next_instruction(s, cursor) {
            None => {
                return None;
            },
            Some((instr, end)) => {
                proof {
                    lemma_skip_skip(s@, cursor as int, end - cursor);
                    let prev = ins;
                    ins = ins + seq![instr@];
                    match spec_instructions(s@.skip(end as int)) {
                        Some(rest) => {
                            assert(prev + (seq![instr@] + rest) =~= ins + rest);
                        },
                        None => {},
                    }
                }
                match instr {
                    Instruction::Push(b) => {
                        last = Some(b);
                    },
                    Instruction::Op(_) => {
                        last = None;
                    },
                }
                cursor = end;
            },
        }
    }
    proof {
        assert(s@.skip(cursor as int) =~= Seq::<u8>::empty());
        assert(ins + Seq::<InstrV>::empty() =~= ins);
        assert(spec_instructions(s@.skip(pos as int)) == Some(ins));
    }
    last
}

/// Materializes a redeem-script skeleton: opcodes are copied through, each
/// extended-key record is replaced by a push of its derived compressed
/// public key.
#[verifier::loop_isolation(false)]
#[verifier::rlimit(60)]
fn build_redeem_script(ctx: &crate::keys::DerivationContext, tmpl: &Vec<u8>) -> (r: Option<Vec<u8>>)
    ensures
        (r is Some) <==> (spec_redeem_items(tmpl@) matches Some(items) && spec_items_derive_ok(
            items,
        )),
        r matches Some(red) ==> (spec_redeem_items(tmpl@) matches Some(items) && red@
            == spec_redeem_script(items)),
{
    let mut redeem: Vec<u8> = Vec::new();
    let mut tpos: usize = 0;
    let ghost mut items: Seq<RedeemItemV> = Seq::empty();
    while tpos < tmpl.len()
        invariant
            tpos <= tmpl@.len(),
            redeem@ == spec_redeem_script(items),
            spec_items_derive_ok(items),
            match spec_redeem_items(tmpl@.skip(tpos as int)) {
                None => spec_redeem_items(tmpl@) is None,
                Some(rest) => spec_redeem_items(tmpl@) == Some(items + rest),
            },
        decreases tmpl@.len() - tpos,
    {
        match next_instruction(tmpl.as_slice(), tpos) {
            None => {
                return None;
            },
            Some((instr, end)) => {
                proof {
                    lemma_skip_skip(tmpl@, tpos as int, end - tpos);
                }
                let ghost item: RedeemItemV;
                match instr {
                    Instruction::Op(op) => {
                        redeem.push(op);
                        proof {
                            item = RedeemItemV::Op(op);
                            assert(spec_items_derive_ok(seq![item])) by {
                                assert(spec_items_derive_ok(Seq::<RedeemItemV>::empty()));
                                assert(seq![item].skip(1) =~= Seq::<RedeemItemV>::empty());
                            }
                        }
                    },
                    Instruction::Push(x) => {
                        let (xp, path) = match parse_xpub_record(x.as_slice()) {
                            None => {
                                return None;
                            },
                            Some(p) => p,
                        };
                        let key = match crate::keys::derive_pubkey(ctx, xp.as_slice(), &path) {
                            None => {
                                proof {
                                    let cur = RedeemItemV::Key(xp@, path@);
                                    match spec_redeem_items(tmpl@.skip(end as int)) {
                                        Some(rest) => {
                                            assert((seq![cur] + rest)[0] == cur);
                                            assert((seq![cur] + rest).skip(1) =~= rest);
                                            lemma_items_derive_ok_concat(items, seq![cur] + rest);
                                        },
                                        None => {},
                                    }
                                }
                                return None;
                            },
                            Some(k) => k,
                        };
                        push_slice(&mut redeem, key.as_slice());
                        proof {
                            item = RedeemItemV::Key(xp@, path@);
                            assert(crate::keys::spec_derive_ok(xp@, path@));
                            assert(spec_items_derive_ok(seq![item])) by {
                                assert(spec_items_derive_ok(Seq::<RedeemItemV>::empty()));
                                assert(seq![item].skip(1) =~= Seq::<RedeemItemV>::empty());
                            }
                        }
                    },
                }
                proof {
                    let prev = items;
                    items = items + seq![item];
                    assert(items.drop_last() =~= prev);
                    lemma_items_derive_ok_concat(prev, seq![item]);
                    assert(prev + seq![item] =~= items);
                    lemma_redeem_script_snoc(items);
                    assert(redeem@ =~= spec_redeem_script(items));
                    match spec_redeem_items(tmpl@.skip(end as int)) {
                        Some(rest) => {
                            assert(prev + (seq![item] + rest) =~= items + rest);
                        },
                        None => {},
                    }
                }
                tpos = end;
            },
        }
    }
    proof {
        assert(tmpl@.skip(tpos as int) =~= Seq::<u8>::empty());
        assert(items + Seq::<RedeemItemV>::empty() =~= items);
        assert(spec_redeem_items(tmpl@) == Some(items));
    }
    Some(redeem)
}

impl UnsignedScriptSig {
    /// Recovers the locking script this placeholder stands for, deriving
    /// keys through the supplied elliptic-curve context: the embedded script
    /// verbatim for the known-script form, a pay-to-public-key-hash script
    /// over the derived key for the single-key form, and a 20-byte
    /// pay-to-script-hash wrap of the materialized redeem script for the
    /// multisig form. `None` — never a panic — when the placeholder matches
    /// no recognized template or a key fails to decode or derive.
    #[verifier::rlimit(60)]
    pub fn script_pubkey(&self, ctx: &crate::keys::DerivationContext) -> (r: Option<Vec<u8>>)
        ensures
            spec_recover_form(self@) is None ==> r is None,
            r matches Some(spk) ==> (spec_recover_form(self@) matches Some(f) && match f {
                RecoveredV::KnownScript(sc) => spk@ == sc,
                RecoveredV::SingleKey(xp, p) => spk@ == spec_p2pkh_script(
                    crate::keys::hash160_of(
                        crate::keys::xpub_pubkey_bytes(crate::keys::spec_derive_xpub(xp, p)),
                    ),
                ) && crate::script::spec_is_p2pkh(spk@),
                RecoveredV::Multisig(items) => spk@ == spec_p2sh20_script(
                    crate::keys::hash160_of(spec_redeem_script(items)),
                ) && crate::script::spec_is_p2sh20(spk@),
            }),
            spec_recover_form(self@) matches Some(RecoveredV::KnownScript(sc)) ==> (r matches Some(
                spk,
            ) && spk@ == sc),
            spec_recover_form(self@) matches Some(RecoveredV::SingleKey(xp, p)) ==> ((r is Some)
                <==> crate::keys::spec_derive_ok(xp, p)),
            spec_recover_form(self@) matches Some(RecoveredV::Multisig(items)) ==> ((r is Some)
                <==> spec_items_derive_ok(items)),
    {
        let s = self.script.as_slice();
        if s.len() == 0 {
            return None;
        }
        let (first, n1) = match next_instruction(s, 0) {
            None => {
                return None;
            },
            Some(p) => p,
        };
        proof {
            assert(s@.skip(0) =~= s@);
        }
        let b1 = match first {
            Instruction::Op(_) => {
                return None;
            },
            Instruction::Push(b) => b,
        };
        if b1.len() == 0 {
            // Multisig: the last push is the redeem-script skeleton.
            let tmpl = match last_push(s, n1) {
                None => {
                    return None;
                },
                Some(l) => l,
            };
            let redeem = match build_redeem_script(ctx, &tmpl) {
                None => {
                    return None;
                },
                Some(red) => red,
            };
            let hash = crate::keys::hash160(redeem.as_slice());
            proof {
                crate::script::lemma_p2sh20_script_shape(hash@);
            }
            Some(crate::script::build_p2sh20_script(hash.as_slice()))
        } else if b1.len() == 1 && b1[0] == 0xff {
            proof {
                assert(b1@ =~= seq![0xffu8]);
            }
            if n1 == s.len() {
                proof {
                    assert(s@.skip(n1 as int) =~= Seq::<u8>::empty());
                }
                return None;
            }
            let (second, _n2) = match next_instruction(s, n1) {
                None => {
                    return None;
                },
                Some(p) => p,
            };
            let p = match second {
                Instruction::Op(_) => {
                    return None;
                },
                Instruction::Push(p) => p,
            };
            if p.len() >= 1 && p[0] == PAYLOAD_KNOWN_SCRIPT {
                let spk = vstd::slice::slice_to_vec(
                    vstd::slice::slice_subrange(p.as_slice(), 1, p.len()),
                );
                proof {
                    assert(p@.subrange(1int, p@.len() as int) =~= p@.skip(1));
                }
                Some(spk)
            } else if p.len() >= 1 && p[0] == PAYLOAD_XPUB {
                let (xp, path) = match parse_xpub_record(p.as_slice()) {
                    None => {
                        return None;
                    },
                    Some(q) => q,
                };
                let key = match crate::keys::derive_pubkey(ctx, xp.as_slice(), &path) {
                    None => {
                        return None;
                    },
                    Some(k) => k,
                };
                let hash = crate::keys::hash160(key.as_slice());
                proof {
                    crate::script::lemma_p2pkh_script_shape(hash@);
                }
                Some(crate::script::build_p2pkh_script(hash.as_slice()))
            } else {
                None
            }
        } else {
            proof {
                assert(b1@ != seq![0xffu8]);
            }
            None
        }
    }
}

// ---------------------------------------------------------------------------
// The multisig placeholder constructor
// ---------------------------------------------------------------------------

/// Consecutive minimal pushes of the given byte strings.
pub open spec fn spec_push_list(items: Seq<Seq<u8>>) -> Seq<u8>
    decreases items.len(),
{
    if items.len() == 0 {
        Seq::empty()
    } else {
        spec_push(items[0]) + spec_push_list(items.skip(1))
    }
}

/// The redeem-script skeleton: a push-number `m`, one push per key record,
/// a push-number for the record count, and the check-multisig opcode.
pub open spec fn spec_multisig_template(m: u8, keys: Seq<Seq<u8>>) -> Seq<u8> {
    seq![(0x50 + m) as u8] + spec_push_list(keys) + seq![
        (0x50 + keys.len()) as u8,
        OP_CHECKMULTISIG,
    ]
}

/// `m` consecutive pushes of the single byte 0xff: one placeholder per
/// missing signature.
pub open spec fn spec_repeat_push_ff(m: nat) -> Seq<u8>
    decreases m,
{
    if m == 0 {
        Seq::empty()
    } else {
        spec_push(seq![0xffu8]) + spec_repeat_push_ff((m - 1) as nat)
    }
}

/// The whole multisig placeholder: an empty push, the signature
/// placeholders, and the skeleton as the final push.
pub open spec fn spec_multisig_placeholder(m: u8, keys: Seq<Seq<u8>>) -> Seq<u8> {
    spec_push(Seq::empty()) + spec_repeat_push_ff(m as nat) + spec_push(
        spec_multisig_template(m, keys),
    )
}

proof fn lemma_push_list_snoc(items: Seq<Seq<u8>>)
    requires
        items.len() > 0,
    ensures
        spec_push_list(items) == spec_push_list(items.drop_last()) + spec_push(items.last()),
    decreases items.len(),
{
    if items.len() == 1 {
        assert(items.drop_last() =~= Seq::<Seq<u8>>::empty());
        assert(items.skip(1) =~= Seq::<Seq<u8>>::empty());
        assert(spec_push_list(items) =~= spec_push_list(items.drop_last()) + spec_push(
            items.last(),
        ));
    } else {
        let tail = items.skip(1);
        lemma_push_list_snoc(tail);
        assert(tail.drop_last() =~= items.drop_last().skip(1));
        assert(tail.last() == items.last());
        assert(spec_push(items[0]) + (spec_push_list(tail.drop_last()) + spec_push(items.last()))
            =~= (spec_push(items[0]) + spec_push_list(items.drop_last().skip(1))) + spec_push(
            items.last(),
        ));
        assert(items.drop_last()[0] == items[0]);
    }
}

proof fn lemma_repeat_push_ff_snoc(m: nat)
    ensures
        spec_repeat_push_ff(m + 1) == spec_repeat_push_ff(m) + spec_push(seq![0xffu8]),
    decreases m,
{
    if m == 0 {
        assert(spec_repeat_push_ff(1) =~= spec_repeat_push_ff(0) + spec_push(seq![0xffu8]));
    } else {
        lemma_repeat_push_ff_snoc((m - 1) as nat);
        assert(spec_push(seq![0xffu8]) + (spec_repeat_push_ff((m - 1) as nat) + spec_push(
            seq![0xffu8],
        )) =~= (spec_push(seq![0xffu8]) + spec_repeat_push_ff((m - 1) as nat)) + spec_push(
            seq![0xffu8],
        ));
    }
}

/// Collecting the pushes of the signature placeholders followed by the
/// skeleton push yields exactly those byte strings.
proof fn lemma_collect_repeat_then_push(m: nat, tmpl: Seq<u8>)
    requires
        tmpl.len() < 0x1_0000_0000,
    ensures
        spec_collect_pushes(spec_repeat_push_ff(m) + spec_push(tmpl)) == Some(
            Seq::new(m, |i: int| seq![0xffu8]).push(tmpl),
        ),
    decreases m,
{
    if m == 0 {
        let s = spec_repeat_push_ff(0) + spec_push(tmpl);
        assert(s =~= spec_push(tmpl) + Seq::<u8>::empty());
        lemma_push_round_trip(tmpl, Seq::empty());
        assert(s.skip(spec_push(tmpl).len() as int) =~= Seq::<u8>::empty());
        assert(Seq::new(0, |i: int| seq![0xffu8]).push(tmpl) =~= seq![tmpl]);
        assert(seq![tmpl] + Seq::<Seq<u8>>::empty() =~= seq![tmpl]);
        assert(spec_collect_pushes(Seq::<u8>::empty()) == Some(Seq::<Seq<u8>>::empty()));
        assert(spec_collect_pushes(s) == Some(seq![tmpl]));
    } else {
        let rest = spec_repeat_push_ff((m - 1) as nat) + spec_push(tmpl);
        let s = spec_repeat_push_ff(m) + spec_push(tmpl);
        assert(s =~= spec_push(seq![0xffu8]) + rest);
        lemma_push_round_trip(seq![0xffu8], rest);
        assert(s.skip(spec_push(seq![0xffu8]).len() as int) =~= rest);
        lemma_collect_repeat_then_push((m - 1) as nat, tmpl);
        assert(seq![seq![0xffu8]] + Seq::new((m - 1) as nat, |i: int| seq![0xffu8]).push(tmpl)
            =~= Seq::new(m, |i: int| seq![0xffu8]).push(tmpl));
    }
}

/// Parsing pushes followed by a suffix parses each push and then the suffix.
proof fn lemma_instructions_push_list(keys: Seq<Seq<u8>>, suffix: Seq<u8>, suffix_ins: Seq<InstrV>)
    requires
        spec_instructions(suffix) == Some(suffix_ins),
        forall|i: int| 0 <= i < keys.len() ==> (#[trigger] keys[i]).len() < 0x1_0000_0000,
    ensures
        spec_instructions(spec_push_list(keys) + suffix) == Some(
            keys.map_values(|k: Seq<u8>| InstrV::Push(k)) + suffix_ins,
        ),
    decreases keys.len(),
{
    if keys.len() == 0 {
        assert(spec_push_list(keys) + suffix =~= suffix);
        assert(keys.map_values(|k: Seq<u8>| InstrV::Push(k)) + suffix_ins =~= suffix_ins);
    } else {
        let tail = keys.skip(1);
        let s = spec_push_list(keys) + suffix;
        assert(s =~= spec_push(keys[0]) + (spec_push_list(tail) + suffix));
        lemma_push_round_trip(keys[0], spec_push_list(tail) + suffix);
        assert(forall|i: int| 0 <= i < tail.len() ==> (#[trigger] tail[i]).len() < 0x1_0000_0000);
        lemma_instructions_push_list(tail, suffix, suffix_ins);
        assert(s.skip(spec_push(keys[0]).len() as int) =~= spec_push_list(tail) + suffix);
        assert(spec_push(keys[0]).len() >= 1);
        assert(seq![InstrV::Push(keys[0])] + (tail.map_values(|k: Seq<u8>| InstrV::Push(k))
            + suffix_ins) =~= keys.map_values(|k: Seq<u8>| InstrV::Push(k)) + suffix_ins);
    }
}

/// The skeleton the constructor builds satisfies the multisig check for
/// exactly `m` signatures.
proof fn lemma_template_is_multisig(m: u8, keys: Seq<Seq<u8>>)
    requires
        1 <= m <= 16,
        1 <= keys.len() <= 16,
        forall|i: int| 0 <= i < keys.len() ==> (#[trigger] keys[i]).len() < 0x1_0000_0000,
    ensures
        spec_is_multisig(spec_multisig_template(m, keys), m as int),
{
    let t = spec_multisig_template(m, keys);
    let mop = (0x50 + m) as u8;
    let nop = (0x50 + keys.len()) as u8;
    let suffix = seq![nop, OP_CHECKMULTISIG];
    // The two trailing opcodes parse as two plain instructions.
    assert(suffix.skip(1) =~= seq![OP_CHECKMULTISIG]);
    assert(seq![OP_CHECKMULTISIG].skip(1) =~= Seq::<u8>::empty());
    let suffix_ins = seq![InstrV::Op(nop), InstrV::Op(OP_CHECKMULTISIG)];
    assert(spec_instructions(Seq::<u8>::empty()) == Some(Seq::<InstrV>::empty()));
    assert(spec_instructions(seq![OP_CHECKMULTISIG]) == Some(seq![InstrV::Op(OP_CHECKMULTISIG)]))
        by {
        assert(seq![InstrV::Op(OP_CHECKMULTISIG)] + Seq::<InstrV>::empty() =~= seq![
            InstrV::Op(OP_CHECKMULTISIG),
        ]);
    }
    assert(spec_instructions(suffix) == Some(suffix_ins)) by {
        assert(seq![InstrV::Op(nop)] + seq![InstrV::Op(OP_CHECKMULTISIG)] =~= suffix_ins);
    }
    lemma_instructions_push_list(keys, suffix, suffix_ins);
    let mid = keys.map_values(|k: Seq<u8>| InstrV::Push(k)) + suffix_ins;
    assert(t =~= seq![mop] + (spec_push_list(keys) + suffix));
    assert(t.skip(1) =~= spec_push_list(keys) + suffix);
    let ins = seq![InstrV::Op(mop)] + mid;
    assert(spec_instructions(t) == Some(ins));
    assert(ins.len() == keys.len() + 3);
    assert(ins[0] == InstrV::Op(mop));
    assert(spec_pushnum(mop) == Some(m as int));
    assert(ins[ins.len() - 2] == InstrV::Op(nop));
    assert(spec_pushnum(nop) == Some(keys.len() as int));
    assert(ins[ins.len() - 1] == InstrV::Op(OP_CHECKMULTISIG));
}

/// Everything the multisig constructor produces classifies as unsigned.
pub proof fn lemma_multisig_placeholder_classifies(m: u8, keys: Seq<Seq<u8>>)
    requires
        1 <= m <= 16,
        1 <= keys.len() <= 16,
        forall|i: int| 0 <= i < keys.len() ==> (#[trigger] keys[i]).len() < 0x1_0000_0000,
        spec_push_list(keys).len() + 3 < 0x1_0000_0000,
    ensures
        spec_is_unsigned_script_sig(spec_multisig_placeholder(m, keys)),
{
    reveal(spec_is_unsigned_script_sig);
    let tmpl = spec_multisig_template(m, keys);
    assert(tmpl.len() < 0x1_0000_0000);
    let s = spec_multisig_placeholder(m, keys);
    let rest = spec_repeat_push_ff(m as nat) + spec_push(tmpl);
    assert(s =~= spec_push(Seq::<u8>::empty()) + rest);
    lemma_push_round_trip(Seq::empty(), rest);
    assert(s.skip(spec_push(Seq::<u8>::empty()).len() as int) =~= rest);
    lemma_collect_repeat_then_push(m as nat, tmpl);
    let pushes = Seq::new(m as nat, |i: int| seq![0xffu8]).push(tmpl);
    assert(pushes.len() == m + 1);
    assert(pushes[pushes.len() - 1] == tmpl);
    lemma_template_is_multisig(m, keys);
    assert(Seq::<u8>::empty().len() == 0);
    assert(Seq::<u8>::empty() != seq![0xffu8]);
}

impl UnsignedScriptSig {
    /// Builds the multisig placeholder: an empty push, one 0xff signature
    /// placeholder per required signature, and the redeem-script skeleton
    /// over the given extended-key records as the final push. `m` is the
    /// number of required signatures; at most sixteen of each, as the
    /// push-number opcodes demand.
    #[verifier::loop_isolation(false)]
    #[verifier::rlimit(60)]
    pub fn from_multisig_xpubs(m: u8, keys: &Vec<Vec<u8>>) -> (r: Self)
        requires
            1 <= m <= 16,
            1 <= keys@.len() <= 16,
            forall|i: int| 0 <= i < keys@.len() ==> (#[trigger] keys@[i])@.len() < 0x1_0000_0000,
            spec_push_list(keys@.map_values(|k: Vec<u8>| k@)).len() + 3 < 0x1_0000_0000,
        ensures
            r@ == spec_multisig_placeholder(m, keys@.map_values(|k: Vec<u8>| k@)),
            spec_is_unsigned_script_sig(r@),
    {
        let ghost kviews = keys@.map_values(|k: Vec<u8>| k@);
        let mut script: Vec<u8> = Vec::new();
        script.push(0x00);
        proof {
            assert(script@ =~= spec_push(Seq::<u8>::empty()) + spec_repeat_push_ff(0));
        }
        let marker: [u8; 1] = [0xff];
        proof {
            assert(marker@ =~= seq![0xffu8]);
        }
        let mut j: u8 = 0;
        while j < m
            invariant
                j <= m,
                script@ == spec_push(Seq::<u8>::empty()) + spec_repeat_push_ff(j as nat),
            decreases m - j,
        {
            push_slice(&mut script, marker.as_slice());
            proof {
                lemma_repeat_push_ff_snoc(j as nat);
                assert(script@ =~= spec_push(Seq::<u8>::empty()) + spec_repeat_push_ff(
                    (j + 1) as nat,
                ));
            }
            j = j + 1;
        }
        let mut tmpl: Vec<u8> = Vec::new();
        tmpl.push(0x50 + m);
        proof {
            assert(tmpl@ =~= seq![(0x50 + m) as u8] + spec_push_list(kviews.take(0)));
            assert(kviews.take(0) =~= Seq::<Seq<u8>>::empty());
        }
        let mut i: usize = 0;
        while i < keys.len()
            invariant
                i <= keys@.len(),
                tmpl@ == seq![(0x50 + m) as u8] + spec_push_list(kviews.take(i as int)),
            decreases keys@.len() - i,
        {
            push_slice(&mut tmpl, keys[i].as_slice());
            proof {
                lemma_push_list_snoc(kviews.take(i + 1));
                assert(kviews.take(i + 1).drop_last() =~= kviews.take(i as int));
                assert(tmpl@ =~= seq![(0x50 + m) as u8] + spec_push_list(kviews.take(i + 1)));
            }
            i = i + 1;
        }
        tmpl.push(0x50 + (keys.len() as u8));
        tmpl.push(OP_CHECKMULTISIG);
        proof {
            assert(kviews.take(kviews.len() as int) =~= kviews);
            assert(tmpl@ =~= spec_multisig_template(m, kviews));
        }
        push_slice(&mut script, tmpl.as_slice());
        proof {
            assert(script@ =~= spec_multisig_placeholder(m, kviews));
            assert(forall|i2: int| 0 <= i2 < kviews.len() ==> (#[trigger] kviews[i2]).len()
                < 0x1_0000_0000);
            lemma_multisig_placeholder_classifies(m, kviews);
        }
        UnsignedScriptSig { script }
    }
}

// ---------------------------------------------------------------------------
// Classifier laws
// ---------------------------------------------------------------------------

/// Everything the single-key known-script constructor produces classifies as
/// unsigned, provided the wrapped script is one an address can be formed
/// from. (Wrapping a script without an address form — the empty script, say —
/// yields a placeholder the classifier rejects, by design: the payload does
/// not look recoverable.)
pub proof fn lemma_single_key_placeholder_classifies(spk: Seq<u8>)
    requires
        spec_has_address_form(spk),
        spk.len() + 1 < 0x1_0000_0000,
    ensures
        spec_is_unsigned_script_sig(spec_single_key_placeholder(seq![PAYLOAD_KNOWN_SCRIPT] + spk)),
{
    reveal(spec_is_unsigned_script_sig);
    let payload = seq![PAYLOAD_KNOWN_SCRIPT] + spk;
    let s = spec_single_key_placeholder(payload);
    lemma_push_round_trip(seq![0xffu8], spec_push(payload));
    let n1 = spec_push(seq![0xffu8]).len() as int;
    assert(s.skip(n1) =~= spec_push(payload));
    lemma_push_round_trip(payload, Seq::empty());
    assert(spec_push(payload) + Seq::<u8>::empty() =~= spec_push(payload));
    assert(payload.skip(1) =~= spk);
}

/// An ordinary unlocking script — empty, starting with a non-push opcode, or
/// starting with any push other than the two placeholder markers (in
/// particular a signature push, which is always longer than one byte) —
/// classifies as signed.
pub proof fn lemma_ordinary_script_classifies_signed(s: Seq<u8>)
    requires
        spec_next_instr(s) matches Some(p) ==> (p.0 matches InstrV::Push(b) ==> (b.len() != 0 && b
            != seq![0xffu8])),
    ensures
        !spec_is_unsigned_script_sig(s),
{
    reveal(spec_is_unsigned_script_sig);
}

} // verus!
