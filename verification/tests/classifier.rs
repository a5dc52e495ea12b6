//! The placeholder classifier and script recovery, held against both the
//! library's own constructors and real key derivation.

use bitcoincash::hex::FromHex;

use psbch::keys::DerivationContext;
use psbch::script::classify;
use psbch::script::is_p2sh32;
use psbch::script::ScriptKind;
use psbch::unsigned::is_multisig;
use psbch::unsigned::is_unsigned_script_sig;
use psbch::unsigned::UnsignedScriptSig;

fn p2pkh_script(h: u8) -> Vec<u8> {
    let mut s = vec![0x76, 0xa9, 0x14];
    s.extend_from_slice(&[h; 20]);
    s.push(0x88);
    s.push(0xac);
    s
}

#[test]
fn classifier_accepts_known_script_placeholder() {
    let sss = UnsignedScriptSig::from_script_pubkey(&p2pkh_script(0x42));
    assert!(is_unsigned_script_sig(sss.raw_script()));
}

#[test]
fn classifier_rejects_ordinary_scripts() {
    // Empty unlocking script.
    assert!(!is_unsigned_script_sig(&[]));
    // A signature-and-pubkey-shaped script: one long push, then another.
    let mut sig_script = vec![0x47u8];
    sig_script.extend_from_slice(&[0x30; 0x47]);
    sig_script.push(0x21);
    sig_script.extend_from_slice(&[0x02; 0x21]);
    assert!(!is_unsigned_script_sig(&sig_script));
    // A lone opcode.
    assert!(!is_unsigned_script_sig(&[0xac]));
    // The single-key marker followed by an unrecognized payload byte.
    assert!(!is_unsigned_script_sig(&[0x01, 0xff, 0x01, 0x07]));
}

#[test]
fn classifier_requires_recoverable_payload() {
    // Wrapping a script no address can be formed from yields a placeholder
    // the classifier rejects: the empty script, for instance.
    let sss = UnsignedScriptSig::from_script_pubkey(&[]);
    assert!(!is_unsigned_script_sig(sss.raw_script()));
}

#[test]
fn classifier_fixture_single_key_script() {
    // The unlocking script of a real unsigned single-key input.
    let script = Vec::<u8>::from_hex("01ff4c53ff0488b21e0000000000000000005d2f27f71323296d52bf8475ad8dad79d6239fcd640629fddc8ef9a7229258a4023f72ac51c65717e8d44e8d86afacff3eed27ce00cea7b5a6fd1e6297fcbd4df90100fe15")
    .unwrap();
    assert!(is_unsigned_script_sig(&script));
    // Recovery derives the key and builds a pay-to-public-key-hash script.
    let ctx = DerivationContext::new();
    let sss = UnsignedScriptSig::from_raw_script(script);
    let spk = sss.script_pubkey(&ctx).expect("recoverable");
    assert_eq!(classify(&spk), ScriptKind::P2pkh);
}

#[test]
fn recovery_matches_direct_derivation() {
    // The recovered single-key script equals the pay-to-public-key-hash
    // script over the key derived with the curve library directly.
    let xpub_bytes = Vec::<u8>::from_hex("0488b21e0000000000000000005d2f27f71323296d52bf8475ad8dad79d6239fcd640629fddc8ef9a7229258a4023f72ac51c65717e8d44e8d86afacff3eed27ce00cea7b5a6fd1e6297fcbd4df9")
    .unwrap();
    // Record: marker, the key, then the path 1, 0x15fe as 16-bit steps.
    let mut payload = vec![0xffu8];
    payload.extend_from_slice(&xpub_bytes);
    payload.extend_from_slice(&[0x01, 0x00, 0xfe, 0x15]);
    let mut script = vec![0x01, 0xff, 0x4c, payload.len() as u8];
    script.extend_from_slice(&payload);
    let sss = UnsignedScriptSig::from_raw_script(script);
    let ctx = DerivationContext::new();
    let spk = sss.script_pubkey(&ctx).expect("recoverable");

    let secp = bitcoincash::secp256k1::Secp256k1::new();
    let xpub = bitcoincash::bip32::Xpub::decode(&xpub_bytes).unwrap();
    let derived = xpub
        .ckd_pub(&secp, bitcoincash::bip32::ChildNumber::Normal { index: 1 })
        .unwrap()
        .ckd_pub(&secp, bitcoincash::bip32::ChildNumber::Normal { index: 0x15fe })
        .unwrap();
    let expected =
        bitcoincash::blockdata::script::ScriptBuf::new_p2pkh(&derived.to_pub().pubkey_hash());
    assert_eq!(spk, expected.to_bytes());
}

#[test]
fn recovery_returns_embedded_script_verbatim() {
    let spk = p2pkh_script(0x42);
    let sss = UnsignedScriptSig::from_script_pubkey(&spk);
    let ctx = DerivationContext::new();
    assert_eq!(sss.script_pubkey(&ctx), Some(spk));
}

#[test]
fn recovery_rejects_truncated_key_record() {
    // Marker plus fewer than 78 key bytes: no recoverable script.
    let mut payload = vec![0xffu8];
    payload.extend_from_slice(&[0x04; 40]);
    let mut script = vec![0x01, 0xff, payload.len() as u8];
    script.extend_from_slice(&payload);
    let sss = UnsignedScriptSig::from_raw_script(script);
    let ctx = DerivationContext::new();
    assert_eq!(sss.script_pubkey(&ctx), None);
}

#[test]
fn multisig_template_check() {
    // 2-of-2 skeleton: OP_2, two pushes, OP_2, OP_CHECKMULTISIG.
    let tmpl = vec![0x52, 0x01, 0xaa, 0x01, 0xbb, 0x52, 0xae];
    assert!(is_multisig(&tmpl, 2));
    assert!(!is_multisig(&tmpl, 1));
    // Wrong trailing opcode.
    let bad = vec![0x52, 0x01, 0xaa, 0x01, 0xbb, 0x52, 0xad];
    assert!(!is_multisig(&bad, 2));
    // Slot count mismatch.
    let bad2 = vec![0x52, 0x01, 0xaa, 0x53, 0xae];
    assert!(!is_multisig(&bad2, 2));
}

#[test]
fn script_shapes() {
    let mut p2sh32 = vec![0xaa, 0x20];
    p2sh32.extend_from_slice(&[0x07; 32]);
    p2sh32.push(0x87);
    assert!(is_p2sh32(&p2sh32));
    assert_eq!(classify(&p2sh32), ScriptKind::P2sh32);

    let mut p2sh20 = vec![0xa9, 0x14];
    p2sh20.extend_from_slice(&[0x07; 20]);
    p2sh20.push(0x87);
    assert!(!is_p2sh32(&p2sh20));
    assert_eq!(classify(&p2sh20), ScriptKind::P2sh20);

    assert_eq!(classify(&p2pkh_script(0x01)), ScriptKind::P2pkh);
    assert_eq!(classify(&[0x6a, 0x01, 0x02]), ScriptKind::Unknown);
    // One byte short of the 32-byte shape.
    let mut short = vec![0xaa, 0x20];
    short.extend_from_slice(&[0x07; 31]);
    short.push(0x87);
    assert!(!is_p2sh32(&short));
}
