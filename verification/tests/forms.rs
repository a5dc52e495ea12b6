//! The plain form-state values and their string names.

use psbch::client::ElectrumClient;
use psbch::token::NftCapability;
use psbch::ui::NftCommitmentFormat;
use psbch::ui::PubkeyDisplayFormat;
use psbch::ui::ScriptDisplayFormat;
use psbch::ui::ScriptInputValue;
use psbch::ui::StrEnum;
use psbch::ui::Tracker;
use psbch::ui::UtxoPubkeyData;
use psbch::address::Network;

#[test]
fn script_input_value_accessors() {
    let mut v = ScriptInputValue::Addr("bitcoincash:qq".to_string());
    assert!(!v.is_empty());
    assert_eq!(v.format(), ScriptDisplayFormat::Addr);
    assert_eq!(v.inner(), "bitcoincash:qq");
    *v.inner_mut() = "other".to_string();
    assert_eq!(v.inner(), "other");
    assert_eq!(v.format(), ScriptDisplayFormat::Addr);
    v.clear();
    assert!(v.is_empty());
    assert_eq!(v.format(), ScriptDisplayFormat::Addr);
    let d = ScriptInputValue::default();
    assert!(d.is_empty());
    assert_eq!(d.format(), ScriptDisplayFormat::Hex);
}

#[test]
fn utxo_pubkey_data_accessors() {
    let hex_empty = UtxoPubkeyData::Hex(String::new());
    assert!(hex_empty.empty_or_hex());
    assert!(hex_empty.empty_or_addr());
    let hex_full = UtxoPubkeyData::Hex("aabb".to_string());
    assert!(hex_full.empty_or_hex());
    assert!(!hex_full.empty_or_addr());
    let addr_full = UtxoPubkeyData::Addr("bitcoincash:qq".to_string());
    assert!(!addr_full.empty_or_hex());
    assert!(addr_full.empty_or_addr());
    assert_eq!(addr_full.inner(), "bitcoincash:qq");
}

#[test]
fn str_enum_names_round_trip() {
    for f in [ScriptDisplayFormat::Addr, ScriptDisplayFormat::Asm, ScriptDisplayFormat::Hex] {
        assert_eq!(ScriptDisplayFormat::from_str(f.to_str()), Some(f));
    }
    for f in [PubkeyDisplayFormat::Addr, PubkeyDisplayFormat::Asm, PubkeyDisplayFormat::Hex] {
        assert_eq!(PubkeyDisplayFormat::from_str(f.to_str()), Some(f));
    }
    for f in [NftCommitmentFormat::Hex, NftCommitmentFormat::Plaintext] {
        assert_eq!(NftCommitmentFormat::from_str(f.to_str()), Some(f));
    }
    for c in [NftCapability::Immutable, NftCapability::Mutable, NftCapability::Minting] {
        assert_eq!(NftCapability::from_str(c.to_str()), Some(c));
    }
    assert_eq!(ScriptDisplayFormat::from_str("nonsense"), None);
    assert_eq!(NftCapability::from_str(""), None);
}

#[test]
fn network_names_round_trip() {
    for n in [
        Network::Bitcoin,
        Network::Testnet,
        Network::Regtest,
        Network::Testnet4,
        Network::Scalenet,
        Network::Chipnet,
    ] {
        assert_eq!(Network::from_str(n.to_str()), Some(n));
    }
    assert_eq!(Network::from_str("mainnet"), Some(Network::Bitcoin));
    assert_eq!(Network::from_str("signet"), None);
}

#[test]
fn client_holder() {
    let client = ElectrumClient::new(42u32);
    assert_eq!(client.client, 42);
    let _tracker = Tracker::new(7);
}
