//! Whole-transaction decode/encode round trips over real wire bytes, and
//! built-value scenarios.

use bitcoincash::hex::FromHex;

use psbch::keys::DerivationContext;
use psbch::script::classify;
use psbch::script::ScriptKind;
use psbch::token::TokenData;
use psbch::transaction::MaybeUnsignedTxIn;
use psbch::transaction::OutPoint;
use psbch::transaction::PartiallySignedTransaction;
use psbch::transaction::TxIn;
use psbch::transaction::TxOut;
use psbch::transaction::UnsignedTxIn;
use psbch::unsigned::is_unsigned_script_sig;
use psbch::unsigned::UnsignedScriptSig;

#[test]
fn test_unsigned_transaction() {
    let tx_bytes = Vec::<u8>::from_hex("01000000013c3b636f926cb2c5a8f971d7e06e488aa3d10f42202b293f936bafdf63d7908a180000005701ff4c53ff0488b21e0000000000000000005d2f27f71323296d52bf8475ad8dad79d6239fcd640629fddc8ef9a7229258a4023f72ac51c65717e8d44e8d86afacff3eed27ce00cea7b5a6fd1e6297fcbd4df90100fe15feffffff20090600000000000262e80200000000001976a914c9226d620fe088b4d84a4ab0ca6b4fe6dfb3193488ace31f0300000000001976a914795b6a18d92f888df281f85373288a6834a7d31a88ac81cc0c00")
    .unwrap();
    let tx = PartiallySignedTransaction::deserialize(&tx_bytes).unwrap();
    assert_eq!(tx_bytes, tx.serialize());
}

#[test]
fn test_unsigned_token_transaction() {
    let tx_bytes = Vec::<u8>::from_hex("01000000022a4f73d341cb70ef826a2d1942f0acda9bb059536da7be352d54bc45a8c0f104000000005701ff4c53ff0488b21e0000000000000000005d2f27f71323296d52bf8475ad8dad79d6239fcd640629fddc8ef9a7229258a4023f72ac51c65717e8d44e8d86afacff3eed27ce00cea7b5a6fd1e6297fcbd4df900003c00feffffffdd73e9020000000062b76b5bb69fa5f572cf1de7c0972e12cd9584128b14cb03317e454011ca9a6c000000005701ff4c53ff0488b21e0000000000000000005d2f27f71323296d52bf8475ad8dad79d6239fcd640629fddc8ef9a7229258a4023f72ac51c65717e8d44e8d86afacff3eed27ce00cea7b5a6fd1e6297fcbd4df900003800fefffffffffffffffffffffffde80325efc44ce628940675b075d0e0059b9ddd165499a0656831f31f4f0adddb3bdd557910fd8c050320030000000000003eefc44ce628940675b075d0e0059b9ddd165499a0656831f31f4f0adddb3bdd557910fd8b0576a91403266ab5b02f4eebee6c43bf9fb9d4421cb67d5588ac20030000000000003cefc44ce628940675b075d0e0059b9ddd165499a0656831f31f4f0adddb3bdd5579100176a914795b6a18d92f888df281f85373288a6834a7d31a88acb36fe902000000001976a91403266ab5b02f4eebee6c43bf9fb9d4421cb67d5588ac23cf0c00")
    .unwrap();
    let tx = PartiallySignedTransaction::deserialize(&tx_bytes).unwrap();
    assert_eq!(tx_bytes, tx.serialize());
}

#[test]
fn test_signed_transaction() {
    let tx_bytes = Vec::<u8>::from_hex("010000000123da0881236aad5c493623ca2bbe82e1796119d8546c2dda7ecc7a1e4251c713000000006a473044022050343561f7a42de739ed32051cf50dace181ccd2e15d41bcae2b2b676a3f553f022050566fea7ff2d122d0fad0b84a435927523697a0da8bd742a72fe55e3881b8f84121030a72c3eb8d023aa1638587293e427819265fd307db1d67de8e5c4129f654bf49ffffffff02dd73e902000000001976a914e22b94d8e2cb8030f6af8c09749ae10767acf0fd88ac65bad565000000001976a914235baf7ab8973f9a6afb81cdeda1f9a0ca10e82188ac00000000")
    .unwrap();
    let tx = PartiallySignedTransaction::deserialize(&tx_bytes).unwrap();
    assert_eq!(tx_bytes, tx.serialize());
}

#[test]
fn test_coinbase() {
    let tx_bytes = Vec::<u8>::from_hex("01000000010000000000000000000000000000000000000000000000000000000000000000ffffffff0e03e6cb0c2f4e696365486173682fffffffff0300000000000000000e6a0c17d8d7a62027d4b56b519d00dc26fa24000000001976a9145633aebf44152de83126acc6282c99f8b33422dc88ac219e5f00000000001976a914f9bfd1340cce62f2ff7eaff4b751dc0ba90d3f6388ac00000000")
    .unwrap();
    let tx = PartiallySignedTransaction::deserialize(&tx_bytes).unwrap();
    assert_eq!(tx_bytes, tx.serialize());
}

#[test]
fn test_unsigned_multisig() {
    let tx_bytes = Vec::<u8>::from_hex("0100000001e504e5e7a9f8de239466eb56fb11f35a7f6abb9fdcf5f880cf7d33ca61f59e2002000000b40001ff01ff4cad524c53ff0488b21e038a4e0085800000004a79f36002d5586864107032ba0ef24ed69cc4443a10c1d83ac3fab997887dda02410a7028fb543bce27b28c41a4e1ce254201d74af75ce0ceeaac13aaf77f3771000000004c53ff0488b21e03ffe004bd8000000026bbc9039eb31c596735ff6974c27ba089f3f2978cc0b792d62887c0f60c67b102a928d855d5a997fbc719c8c304122377106222c1fe67576282bcceba6afc033d0000000052aefeffffff98a003000000000002011c01000000000017a914c3d5594a1a02b005e15fa5ce14ea8cb45d668bba87478302000000000017a914616cc2c9da3f60caf6abd9500576984e4fa484748765d00c00")
    .unwrap();
    let tx = PartiallySignedTransaction::deserialize(&tx_bytes).unwrap();
    assert_eq!(tx_bytes, tx.serialize());
}

fn p2pkh_script(h: u8) -> Vec<u8> {
    let mut s = vec![0x76, 0xa9, 0x14];
    s.extend_from_slice(&[h; 20]);
    s.push(0x88);
    s.push(0xac);
    s
}

/// One signed input spending a prior output, two standard outputs, version
/// 2, lock time 0: the round trip recovers every field exactly.
#[test]
fn scenario_plain_signed_transaction() {
    let script_sig = vec![0x47u8, 0x30, 0x44, 0x02, 0x20, 0x10, 0x11];
    let tx = PartiallySignedTransaction {
        version: 2,
        lock_time: 0,
        input: vec![MaybeUnsignedTxIn::Signed(TxIn {
            previous_output: OutPoint { txid: vec![0xabu8; 32], vout: 7 },
            script_sig: script_sig.clone(),
            sequence: 0xfffffffe,
        })],
        output: vec![
            TxOut { value: 5000, script_pubkey: p2pkh_script(0x11), token: None },
            TxOut { value: 7000, script_pubkey: p2pkh_script(0x22), token: None },
        ],
    };
    let bytes = tx.serialize();
    let back = PartiallySignedTransaction::deserialize(&bytes).unwrap();
    assert_eq!(back, tx);
    match &back.input[0] {
        MaybeUnsignedTxIn::Signed(t) => {
            assert_eq!(t.previous_output.txid, vec![0xabu8; 32]);
            assert_eq!(t.previous_output.vout, 7);
            assert_eq!(t.script_sig, script_sig);
            assert_eq!(t.sequence, 0xfffffffe);
        }
        MaybeUnsignedTxIn::Unsigned(_) => panic!("classified unsigned"),
    }
    assert_eq!(bytes, back.serialize());
}

/// One unsigned single-key input whose extended value field carries token
/// data with a fungible amount and no non-fungible token: decoding yields
/// the Unsigned variant with the amount intact and the NFT fields defaulted.
#[test]
fn scenario_unsigned_single_key_with_token() {
    let spk = p2pkh_script(0x33);
    let sss = UnsignedScriptSig::from_script_pubkey(&spk);
    assert!(is_unsigned_script_sig(sss.raw_script()));
    let token = TokenData { id: vec![0x44u8; 32], bitfield: 0x10, amount: 1420, commitment: vec![] };
    let tx = PartiallySignedTransaction {
        version: 2,
        lock_time: 0,
        input: vec![MaybeUnsignedTxIn::Unsigned(UnsignedTxIn {
            previous_output: OutPoint { txid: vec![0x55u8; 32], vout: 1 },
            unsigned_script_sig: sss,
            sequence: 0xfffffffe,
            value: 123_456,
            token: Some(token.clone()),
        })],
        output: vec![TxOut { value: 100_000, script_pubkey: p2pkh_script(0x66), token: None }],
    };
    let bytes = tx.serialize();
    let back = PartiallySignedTransaction::deserialize(&bytes).unwrap();
    assert_eq!(back, tx);
    match &back.input[0] {
        MaybeUnsignedTxIn::Unsigned(u) => {
            assert_eq!(u.value, 123_456);
            let t = u.token.as_ref().unwrap();
            assert_eq!(t.amount, 1420);
            assert!(!t.has_nft());
            assert_eq!(t.capability(), 0);
            assert!(t.commitment.is_empty());
        }
        MaybeUnsignedTxIn::Signed(_) => panic!("classified signed"),
    }
}

/// An unsigned multisig input with two key records and a 2-of-2 skeleton:
/// the classifier accepts it, decode succeeds, and given a real derivation
/// context the recovered locking script is a pay-to-script-hash script.
#[test]
fn scenario_unsigned_multisig() {
    let xpub1 = Vec::<u8>::from_hex("0488b21e038a4e0085800000004a79f36002d5586864107032ba0ef24ed69cc4443a10c1d83ac3fab997887dda02410a7028fb543bce27b28c41a4e1ce254201d74af75ce0ceeaac13aaf77f3771")
    .unwrap();
    let xpub2 = Vec::<u8>::from_hex("0488b21e03ffe004bd8000000026bbc9039eb31c596735ff6974c27ba089f3f2978cc0b792d62887c0f60c67b102a928d855d5a997fbc719c8c304122377106222c1fe67576282bcceba6afc033d")
    .unwrap();
    let mut rec1 = vec![0xffu8];
    rec1.extend_from_slice(&xpub1);
    rec1.extend_from_slice(&[0x00, 0x00, 0x00, 0x00]);
    let mut rec2 = vec![0xffu8];
    rec2.extend_from_slice(&xpub2);
    rec2.extend_from_slice(&[0x00, 0x00, 0x00, 0x00]);
    let sss = UnsignedScriptSig::from_multisig_xpubs(2, &vec![rec1, rec2]);
    assert!(is_unsigned_script_sig(sss.raw_script()));

    let ctx = DerivationContext::new();
    let spk = sss.script_pubkey(&ctx).expect("derivation should succeed");
    assert_eq!(classify(&spk), ScriptKind::P2sh20);

    let tx = PartiallySignedTransaction {
        version: 2,
        lock_time: 0,
        input: vec![MaybeUnsignedTxIn::Unsigned(UnsignedTxIn {
            previous_output: OutPoint { txid: vec![0x20u8; 32], vout: 2 },
            unsigned_script_sig: sss,
            sequence: 0xfffffffe,
            value: 237_720,
            token: None,
        })],
        output: vec![TxOut { value: 100_000, script_pubkey: p2pkh_script(0x77), token: None }],
    };
    let bytes = tx.serialize();
    let back = PartiallySignedTransaction::deserialize(&bytes).unwrap();
    assert_eq!(back, tx);
    assert!(matches!(back.input[0], MaybeUnsignedTxIn::Unsigned(_)));
}

/// A coinbase-shaped input — all-zero previous id, maximum index, an
/// arbitrary non-template unlocking script — classifies as signed and round
/// trips unchanged.
#[test]
fn scenario_coinbase_shaped_input() {
    let script_sig = vec![0x03u8, 0xe6, 0xcb, 0x0c, 0x2f, 0x4e, 0x69];
    assert!(!is_unsigned_script_sig(&script_sig));
    let tx = PartiallySignedTransaction {
        version: 1,
        lock_time: 0,
        input: vec![MaybeUnsignedTxIn::Signed(TxIn {
            previous_output: OutPoint { txid: vec![0u8; 32], vout: 0xffffffff },
            script_sig,
            sequence: 0xffffffff,
        })],
        output: vec![TxOut { value: 625_000_000, script_pubkey: p2pkh_script(0x99), token: None }],
    };
    let bytes = tx.serialize();
    let back = PartiallySignedTransaction::deserialize(&bytes).unwrap();
    assert_eq!(back, tx);
    assert!(matches!(back.input[0], MaybeUnsignedTxIn::Signed(_)));
    assert_eq!(bytes, back.serialize());
}

/// Accessors agree across both variants and their mutators keep everything
/// else intact.
#[test]
fn input_accessors() {
    let mut input = MaybeUnsignedTxIn::Signed(TxIn {
        previous_output: OutPoint { txid: vec![0x01u8; 32], vout: 3 },
        script_sig: vec![0xde, 0xad],
        sequence: 42,
    });
    assert_eq!(input.previous_output().vout, 3);
    assert_eq!(input.sequence(), 42);
    assert_eq!(input.script_sig().unwrap(), &vec![0xde, 0xad]);
    *input.sequence_mut() = 43;
    input.previous_output_mut().vout = 4;
    assert_eq!(input.sequence(), 43);
    assert_eq!(input.previous_output().vout, 4);
    assert_eq!(input.script_sig().unwrap(), &vec![0xde, 0xad]);
}
