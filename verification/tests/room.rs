use verification_mac::errors::DecodeError;
use verification_mac::errors::InvalidArgument;
use verification_mac::errors::ValidationError;
use verification_mac::macmap::MacMap;
use verification_mac::room::MacEventContent;
use verification_mac::room::Relation;

fn mac_of(pairs: &[(&str, &str)]) -> MacMap {
    let mut m = MacMap::new();
    for (k, v) in pairs {
        m.insert(k.to_string(), v.to_string());
    }
    m
}

fn reference_to(event_id: &str) -> Relation {
    Relation { rel_type: "m.reference".to_string(), event_id: event_id.to_string() }
}

fn sample() -> MacEventContent {
    MacEventContent::new(
        mac_of(&[("ed25519:A", "bWFjQQ")]),
        "YWJj".to_string(),
        reference_to("$start"),
    )
    .unwrap()
}

#[test]
fn room_encode_exact_wire_form() {
    assert_eq!(
        sample().encode(),
        r#"{"mac":{"ed25519:A":"bWFjQQ"},"keys":"YWJj","m.relates_to":{"rel_type":"m.reference","event_id":"$start"}}"#
    );
}

#[test]
fn room_round_trip() {
    let p = sample();
    let q = MacEventContent::decode(&p.encode()).unwrap();
    assert_eq!(q.keys, p.keys);
    assert_eq!(q.relates_to.rel_type, p.relates_to.rel_type);
    assert_eq!(q.relates_to.event_id, p.relates_to.event_id);
    assert_eq!(q.mac.len(), p.mac.len());
    for i in 0..p.mac.len() {
        assert_eq!(q.mac.key_at(i), p.mac.key_at(i));
        assert_eq!(q.mac.value_at(i), p.mac.value_at(i));
    }
}

#[test]
fn room_construction_rejects_empty_mac() {
    let r = MacEventContent::new(MacMap::new(), "YWJj".to_string(), reference_to("$e"));
    assert_eq!(r.unwrap_err(), InvalidArgument);
}

#[test]
fn room_decode_rejects_missing_fields() {
    let e = MacEventContent::decode(r#"{"keys":"k","m.relates_to":{"rel_type":"r","event_id":"$e"}}"#)
        .unwrap_err();
    assert!(matches!(e, DecodeError::MissingField(ref f) if f == "mac"));
    let e = MacEventContent::decode(r#"{"mac":{},"m.relates_to":{"rel_type":"r","event_id":"$e"}}"#)
        .unwrap_err();
    assert!(matches!(e, DecodeError::MissingField(ref f) if f == "keys"));
    let e = MacEventContent::decode(r#"{"mac":{},"keys":"k"}"#).unwrap_err();
    assert!(matches!(e, DecodeError::MissingField(ref f) if f == "m.relates_to"));
}

#[test]
fn room_decode_rejects_malformed_relation() {
    // not an object
    let e = MacEventContent::decode(r#"{"mac":{},"keys":"k","m.relates_to":"x"}"#).unwrap_err();
    assert!(matches!(e, DecodeError::TypeMismatch(ref f) if f == "m.relates_to"));
    // missing event_id
    let e = MacEventContent::decode(r#"{"mac":{},"keys":"k","m.relates_to":{"rel_type":"r"}}"#)
        .unwrap_err();
    assert!(matches!(e, DecodeError::TypeMismatch(ref f) if f == "m.relates_to"));
    // missing rel_type
    let e = MacEventContent::decode(r#"{"mac":{},"keys":"k","m.relates_to":{"event_id":"$e"}}"#)
        .unwrap_err();
    assert!(matches!(e, DecodeError::TypeMismatch(ref f) if f == "m.relates_to"));
    // wrong type of a part
    let e = MacEventContent::decode(
        r#"{"mac":{},"keys":"k","m.relates_to":{"rel_type":"r","event_id":3}}"#,
    )
    .unwrap_err();
    assert!(matches!(e, DecodeError::TypeMismatch(ref f) if f == "m.relates_to"));
}

#[test]
fn room_decode_skips_unknown_fields_everywhere() {
    let q = MacEventContent::decode(
        r#"{"mac":{"ed25519:A":"m"},"foo":1,"keys":"YWJj","m.relates_to":{"rel_type":"m.reference","extra":null,"event_id":"$e"}}"#,
    )
    .unwrap();
    assert_eq!(q.keys, "YWJj");
    assert_eq!(q.relates_to.rel_type, "m.reference");
    assert_eq!(q.relates_to.event_id, "$e");
    assert_eq!(q.mac.get("ed25519:A").unwrap(), "m");
}

#[test]
fn room_validate_passes_well_formed_payload() {
    assert_eq!(sample().validate(), Ok(()));
}

#[test]
fn room_validate_rejects_bad_relation() {
    let p = MacEventContent {
        mac: mac_of(&[("ed25519:A", "m")]),
        keys: "YWJj".to_string(),
        relates_to: Relation { rel_type: "m.reference".to_string(), event_id: String::new() },
    };
    assert_eq!(p.validate(), Err(ValidationError::BadRelation));
    let q = MacEventContent {
        mac: mac_of(&[("ed25519:A", "m")]),
        keys: "YWJj".to_string(),
        relates_to: Relation { rel_type: String::new(), event_id: "$e".to_string() },
    };
    assert_eq!(q.validate(), Err(ValidationError::BadRelation));
}

#[test]
fn room_validate_order_of_checks() {
    // the empty mapping is reported before the bad relation
    let p = MacEventContent {
        mac: MacMap::new(),
        keys: "YWJj".to_string(),
        relates_to: Relation { rel_type: String::new(), event_id: String::new() },
    };
    assert_eq!(p.validate(), Err(ValidationError::EmptyMac));
    // and bad Base64 before the bad relation
    let q = MacEventContent {
        mac: mac_of(&[("ed25519:A", "m")]),
        keys: "!!".to_string(),
        relates_to: Relation { rel_type: String::new(), event_id: String::new() },
    };
    assert_eq!(q.validate(), Err(ValidationError::BadBase64));
}
