use verification_mac::envelope::event_type;
use verification_mac::envelope::DeliveryChannel;
use verification_mac::macmap::MacMap;
use verification_mac::room::MacEventContent;
use verification_mac::to_device::ToDeviceMacEventContent;

#[test]
fn mapping_keeps_canonical_sorted_order() {
    let mut m = MacMap::new();
    m.insert("ed25519:B".to_string(), "mb".to_string());
    m.insert("ed25519:A".to_string(), "ma".to_string());
    assert_eq!(m.len(), 2);
    assert_eq!(m.key_at(0), "ed25519:A");
    assert_eq!(m.key_at(1), "ed25519:B");
    assert_eq!(m.value_at(0), "ma");
    assert_eq!(m.value_at(1), "mb");
}

#[test]
fn canonical_key_list_is_insertion_order_independent() {
    let mut ab = MacMap::new();
    ab.insert("ed25519:A".to_string(), "ma".to_string());
    ab.insert("ed25519:B".to_string(), "mb".to_string());
    let mut ba = MacMap::new();
    ba.insert("ed25519:B".to_string(), "mb".to_string());
    ba.insert("ed25519:A".to_string(), "ma".to_string());
    assert_eq!(ab.canonical_key_list(), "ed25519:A,ed25519:B");
    assert_eq!(ba.canonical_key_list(), "ed25519:A,ed25519:B");
}

#[test]
fn canonical_key_list_of_empty_and_single() {
    let mut m = MacMap::new();
    assert_eq!(m.canonical_key_list(), "");
    m.insert("ed25519:A".to_string(), "ma".to_string());
    assert_eq!(m.canonical_key_list(), "ed25519:A");
}

#[test]
fn insert_replaces_value_of_equal_key() {
    let mut m = MacMap::new();
    m.insert("ed25519:A".to_string(), "first".to_string());
    m.insert("ed25519:A".to_string(), "second".to_string());
    assert_eq!(m.len(), 1);
    assert_eq!(m.get("ed25519:A").unwrap(), "second");
}

#[test]
fn get_finds_present_keys_only() {
    let mut m = MacMap::new();
    m.insert("ed25519:A".to_string(), "ma".to_string());
    assert_eq!(m.get("ed25519:A").unwrap(), "ma");
    assert!(m.get("ed25519:B").is_none());
    assert!(MacMap::new().get("ed25519:A").is_none());
}

#[test]
fn order_is_by_code_point() {
    let mut m = MacMap::new();
    m.insert("b:1".to_string(), "x".to_string());
    m.insert("B:1".to_string(), "y".to_string());
    m.insert("a:2".to_string(), "z".to_string());
    // upper-case letters come before lower-case ones by code point
    assert_eq!(m.key_at(0), "B:1");
    assert_eq!(m.key_at(1), "a:2");
    assert_eq!(m.key_at(2), "b:1");
}

#[test]
fn both_variants_share_the_event_type() {
    assert_eq!(event_type(), "m.key.verification.mac");
    assert_eq!(ToDeviceMacEventContent::channel(), DeliveryChannel::ToDevice);
    assert_eq!(MacEventContent::channel(), DeliveryChannel::InRoom);
}
