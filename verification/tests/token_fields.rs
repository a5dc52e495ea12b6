//! Token payload construction, bitfield consistency, and payload decoding.

use psbch::token::decode_token;
use psbch::token::encode_token;
use psbch::token::valid_bitfield;
use psbch::token::NftCapability;
use psbch::token::TokenData;
use psbch::token::TokenDataState;
use psbch::token::TokenFieldError;
use psbch::transaction::PartiallySignedTransaction;
use psbch::transaction::TxOut;
use psbch::DecodeError;

fn enabled_state() -> TokenDataState {
    let mut st = TokenDataState::new(0);
    st.cashtoken_enabled = true;
    st.category_id = vec![0xaau8; 32];
    st
}

#[test]
fn token_data_disabled_is_none() {
    let st = TokenDataState::new(1);
    assert_eq!(st.token_data(), Ok(None));
}

#[test]
fn token_data_rederives_bitfield() {
    let mut st = enabled_state();
    st.has_ft_amount = true;
    st.ft_amount = 1420;
    st.has_nft = true;
    st.nft_capability = NftCapability::Mutable;
    st.nft_commitment = vec![0x01, 0x02];
    let t = st.token_data().unwrap().unwrap();
    assert_eq!(t.bitfield, 0x10 | 0x20 | 0x40 | 0x01);
    assert_eq!(t.amount, 1420);
    assert_eq!(t.commitment, vec![0x01, 0x02]);

    // Amount only: just the amount bit.
    let mut st2 = enabled_state();
    st2.has_ft_amount = true;
    st2.ft_amount = 9;
    let t2 = st2.token_data().unwrap().unwrap();
    assert_eq!(t2.bitfield, 0x10);

    // A minting non-fungible token without a commitment.
    let mut st3 = enabled_state();
    st3.has_nft = true;
    st3.nft_capability = NftCapability::Minting;
    let t3 = st3.token_data().unwrap().unwrap();
    assert_eq!(t3.bitfield, 0x20 | 0x02);
}

#[test]
fn token_data_field_errors() {
    let mut st = enabled_state();
    st.has_ft_amount = true;
    st.ft_amount = 0;
    assert_eq!(st.token_data(), Err(TokenFieldError::ZeroAmount));

    let mut st2 = enabled_state();
    st2.has_ft_amount = true;
    st2.ft_amount = u64::MAX;
    assert_eq!(st2.token_data(), Err(TokenFieldError::AmountTooLarge));

    let mut st3 = enabled_state();
    st3.category_id = vec![0u8; 31];
    st3.has_ft_amount = true;
    st3.ft_amount = 1;
    assert_eq!(st3.token_data(), Err(TokenFieldError::BadCategoryId));
}

#[test]
fn update_from_token_data_round_trip() {
    let t = TokenData {
        id: vec![0xbbu8; 32],
        bitfield: 0x10 | 0x20 | 0x40 | 0x02,
        amount: 7,
        commitment: vec![0x09],
    };
    let mut st = TokenDataState::new(3);
    st.update_from_token_data(Some(&t));
    assert!(st.cashtoken_enabled);
    assert_eq!(st.category_id, vec![0xbbu8; 32]);
    assert!(st.has_ft_amount);
    assert_eq!(st.ft_amount, 7);
    assert!(st.has_nft);
    assert_eq!(st.nft_capability, NftCapability::Minting);
    assert_eq!(st.nft_commitment, vec![0x09]);
    let rebuilt = st.token_data().unwrap().unwrap();
    assert_eq!(rebuilt, t);

    st.update_from_token_data(None);
    assert!(!st.cashtoken_enabled);
    assert_eq!(st.token_data(), Ok(None));
}

#[test]
fn token_payload_codec_round_trip() {
    let t = TokenData {
        id: (0u8..32).collect(),
        bitfield: 0x10 | 0x20 | 0x40 | 0x01,
        amount: 800,
        commitment: vec![1, 2, 3, 4],
    };
    let mut bytes = Vec::new();
    encode_token(&mut bytes, &t);
    // id, bitfield, commitment length and bytes, amount.
    assert_eq!(bytes.len(), 32 + 1 + 1 + 4 + 3);
    let (back, end) = decode_token(&bytes, 0).unwrap();
    assert_eq!(back, t);
    assert_eq!(end, bytes.len());
}

#[test]
fn token_payload_exact_bytes() {
    // Amount-only payload: the amount rides as a variable-length integer.
    let t = TokenData { id: vec![0xccu8; 32], bitfield: 0x10, amount: 1420, commitment: vec![] };
    let mut bytes = Vec::new();
    encode_token(&mut bytes, &t);
    let mut expected = vec![0xccu8; 32];
    expected.push(0x10);
    expected.extend_from_slice(&[0xfd, 0x8c, 0x05]);
    assert_eq!(bytes, expected);
}

#[test]
fn output_with_unparseable_token_prefix_is_kept_verbatim() {
    // An output whose script opens with the token announcement opcode but
    // carries no parseable payload keeps the whole blob as its script.
    let odd_script = vec![0xefu8, 0x01, 0x02, 0x03];
    let tx = PartiallySignedTransaction {
        version: 2,
        lock_time: 0,
        input: vec![],
        output: vec![TxOut { value: 1, script_pubkey: odd_script.clone(), token: None }],
    };
    let bytes = tx.serialize();
    let back = PartiallySignedTransaction::deserialize(&bytes).unwrap();
    assert_eq!(back.output[0].script_pubkey, odd_script);
    assert!(back.output[0].token.is_none());
}

#[test]
fn decode_rejects_inconsistent_bitfield() {
    // Commitment bit without the non-fungible bit is an invalid bitfield.
    assert!(!valid_bitfield(0x50));
    let mut bytes = vec![0u8; 32];
    bytes.push(0x50);
    bytes.extend_from_slice(&[0x01, 0xee, 0x01]);
    assert_eq!(decode_token(&bytes, 0), Err(DecodeError::MalformedTokenPayload));

    // An amount bit whose amount is zero is rejected too.
    let mut bytes2 = vec![0u8; 32];
    bytes2.push(0x10);
    bytes2.push(0x00);
    assert_eq!(decode_token(&bytes2, 0), Err(DecodeError::MalformedTokenPayload));

    // A commitment bit with an empty commitment is rejected.
    let mut bytes3 = vec![0u8; 32];
    bytes3.push(0x60);
    bytes3.push(0x00);
    bytes3.push(0x01);
    assert_eq!(decode_token(&bytes3, 0), Err(DecodeError::MalformedTokenPayload));
}
