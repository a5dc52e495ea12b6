//! Address text to script and back, held against the checksummed-address
//! library directly.

use psbch::address::build_script;
use psbch::address::cash_addr_to_script;
use psbch::address::script_to_cash_addr;
use psbch::address::AddressError;
use psbch::address::Network;

fn p2pkh_script(hash: &[u8; 20]) -> Vec<u8> {
    let mut s = vec![0x76, 0xa9, 0x14];
    s.extend_from_slice(hash);
    s.push(0x88);
    s.push(0xac);
    s
}

#[test]
fn build_script_shapes() {
    let h20 = [0x11u8; 20];
    let h32 = [0x22u8; 32];
    assert_eq!(build_script(0, &h20).unwrap(), p2pkh_script(&h20));
    // Token-aware type tags build the same shapes.
    assert_eq!(build_script(2, &h20).unwrap(), p2pkh_script(&h20));
    let p2sh20 = build_script(1, &h20).unwrap();
    assert_eq!(p2sh20.len(), 23);
    assert_eq!(p2sh20[0], 0xa9);
    assert_eq!(p2sh20[22], 0x87);
    let p2sh32 = build_script(3, &h32).unwrap();
    assert_eq!(p2sh32.len(), 35);
    assert_eq!(p2sh32[0], 0xaa);
    assert_eq!(p2sh32[34], 0x87);
    // A script-hash tag with an unusable hash length is unsupported.
    assert_eq!(build_script(1, &[0u8; 24]), Err(AddressError::UnsupportedAddressType));
    // So is an unrecognized type tag.
    assert_eq!(build_script(9, &h20), Err(AddressError::UnsupportedAddressType));
}

#[test]
fn cashaddr_round_trip() {
    let hash = [0x35u8; 20];
    let addr = cashaddr::CashEnc::encode_p2pkh(&hash[..], "bitcoincash").unwrap();
    let script = cash_addr_to_script(&addr).unwrap();
    assert_eq!(script, p2pkh_script(&hash));
    let back = script_to_cash_addr(&script, Network::Bitcoin).unwrap();
    assert_eq!(back, addr);
}

#[test]
fn cashaddr_p2sh_round_trip() {
    let hash = [0x47u8; 20];
    let addr = cashaddr::CashEnc::encode_p2sh(&hash[..], "bchtest").unwrap();
    let script = cash_addr_to_script(&addr).unwrap();
    assert_eq!(script.len(), 23);
    let back = script_to_cash_addr(&script, Network::Chipnet).unwrap();
    assert_eq!(back, addr);
}

#[test]
fn p2sh32_script_to_address_and_back() {
    let mut script = vec![0xaa, 0x20];
    script.extend_from_slice(&[0x59u8; 32]);
    script.push(0x87);
    let addr = script_to_cash_addr(&script, Network::Bitcoin).unwrap();
    let back = cash_addr_to_script(&addr).unwrap();
    assert_eq!(back, script);
}

#[test]
fn legacy_address_fallback() {
    let hash = [0x66u8; 20];
    let pkh = <bitcoincash::PubkeyHash as bitcoincash::hashes::Hash>::from_byte_array(hash);
    let legacy = bitcoincash::Address::p2pkh(pkh, bitcoincash::network::NetworkKind::Main);
    let script = cash_addr_to_script(&legacy.to_string()).unwrap();
    assert_eq!(script, p2pkh_script(&hash));
}

#[test]
fn invalid_address_is_rejected() {
    assert_eq!(cash_addr_to_script("not an address"), Err(AddressError::InvalidAddress));
}

#[test]
fn short_payload_addresses_are_invalid() {
    // Payload parts of nine or fewer symbols cannot carry a version byte
    // past their checksum; they are rejected without consulting the
    // checksummed parser, whatever their checksum.
    assert_eq!(cash_addr_to_script("bitcoincash:"), Err(AddressError::InvalidAddress));
    assert_eq!(cash_addr_to_script("bitcoincash:qqqqqqqq"), Err(AddressError::InvalidAddress));
    assert_eq!(cash_addr_to_script("bitcoincash:qqqqqqqqq"), Err(AddressError::InvalidAddress));
    assert_eq!(cash_addr_to_script("qpzry9x8"), Err(AddressError::InvalidAddress));
    assert_eq!(cash_addr_to_script("qpzry9x8g"), Err(AddressError::InvalidAddress));
    assert_eq!(cash_addr_to_script(""), Err(AddressError::InvalidAddress));
}

#[test]
fn unknown_script_type_is_rejected() {
    assert_eq!(
        script_to_cash_addr(&[0x6a, 0x01, 0x02], Network::Bitcoin),
        Err(AddressError::UnknownScriptType)
    );
}
