use verification_mac::errors::DecodeError;
use verification_mac::errors::InvalidArgument;
use verification_mac::errors::ValidationError;
use verification_mac::macmap::MacMap;
use verification_mac::to_device::ToDeviceMacEventContent;

fn mac_of(pairs: &[(&str, &str)]) -> MacMap {
    let mut m = MacMap::new();
    for (k, v) in pairs {
        m.insert(k.to_string(), v.to_string());
    }
    m
}

fn assert_same_mac(a: &MacMap, b: &MacMap) {
    assert_eq!(a.len(), b.len());
    for i in 0..a.len() {
        assert_eq!(a.key_at(i), b.key_at(i));
        assert_eq!(a.value_at(i), b.value_at(i));
    }
}

fn sample() -> ToDeviceMacEventContent {
    ToDeviceMacEventContent::new(
        "t1".to_string(),
        mac_of(&[("ed25519:A", "bWFjQQ"), ("ed25519:B", "bWFjQg")]),
        "YWJj".to_string(),
    )
    .unwrap()
}

#[test]
fn encode_exact_wire_form() {
    let p = ToDeviceMacEventContent::new(
        "t1".to_string(),
        mac_of(&[("ed25519:A", "m1")]),
        "YWJj".to_string(),
    )
    .unwrap();
    assert_eq!(
        p.encode(),
        r#"{"transaction_id":"t1","mac":{"ed25519:A":"m1"},"keys":"YWJj"}"#
    );
}

#[test]
fn round_trip_simple() {
    let p = sample();
    let q = ToDeviceMacEventContent::decode(&p.encode()).unwrap();
    assert_eq!(q.transaction_id, p.transaction_id);
    assert_eq!(q.keys, p.keys);
    assert_same_mac(&q.mac, &p.mac);
}

#[test]
fn round_trip_with_escapes() {
    let p = ToDeviceMacEventContent::new(
        "a\"b\\c\nd\te".to_string(),
        mac_of(&[("ed25519:\"x\\y", "v\"1")]),
        "YWJj".to_string(),
    )
    .unwrap();
    let q = ToDeviceMacEventContent::decode(&p.encode()).unwrap();
    assert_eq!(q.transaction_id, p.transaction_id);
    assert_eq!(q.keys, p.keys);
    assert_same_mac(&q.mac, &p.mac);
}

#[test]
fn construction_rejects_empty_mac() {
    let r = ToDeviceMacEventContent::new("t1".to_string(), MacMap::new(), "YWJj".to_string());
    assert_eq!(r.unwrap_err(), InvalidArgument);
}

#[test]
fn construction_rejects_malformed_key_id() {
    let r = ToDeviceMacEventContent::new(
        "t1".to_string(),
        mac_of(&[("not-a-valid-id", "abc")]),
        "YWJj".to_string(),
    );
    assert_eq!(r.unwrap_err(), InvalidArgument);
    // a colon at the very start or end does not make a valid key id either
    assert!(ToDeviceMacEventContent::new(
        "t1".to_string(),
        mac_of(&[(":id", "abc")]),
        "YWJj".to_string()
    )
    .is_err());
    assert!(ToDeviceMacEventContent::new(
        "t1".to_string(),
        mac_of(&[("alg:", "abc")]),
        "YWJj".to_string()
    )
    .is_err());
}

#[test]
fn decode_rejects_missing_transaction_id() {
    let e = ToDeviceMacEventContent::decode(r#"{"mac":{"ed25519:A":"m"},"keys":"xyz"}"#)
        .unwrap_err();
    assert!(matches!(e, DecodeError::MissingField(ref f) if f == "transaction_id"));
}

#[test]
fn decode_rejects_missing_mac_and_keys() {
    let e = ToDeviceMacEventContent::decode(r#"{"transaction_id":"t","keys":"xyz"}"#).unwrap_err();
    assert!(matches!(e, DecodeError::MissingField(ref f) if f == "mac"));
    let e = ToDeviceMacEventContent::decode(r#"{"transaction_id":"t","mac":{}}"#).unwrap_err();
    assert!(matches!(e, DecodeError::MissingField(ref f) if f == "keys"));
    let e = ToDeviceMacEventContent::decode("{}").unwrap_err();
    assert!(matches!(e, DecodeError::MissingField(ref f) if f == "transaction_id"));
}

#[test]
fn decode_rejects_wrong_field_types() {
    let e = ToDeviceMacEventContent::decode(r#"{"transaction_id":7,"mac":{},"keys":"k"}"#)
        .unwrap_err();
    assert!(matches!(e, DecodeError::TypeMismatch(ref f) if f == "transaction_id"));
    let e = ToDeviceMacEventContent::decode(r#"{"transaction_id":"t","mac":"no","keys":"k"}"#)
        .unwrap_err();
    assert!(matches!(e, DecodeError::TypeMismatch(ref f) if f == "mac"));
    let e = ToDeviceMacEventContent::decode(r#"{"transaction_id":"t","mac":{},"keys":[1]}"#)
        .unwrap_err();
    assert!(matches!(e, DecodeError::TypeMismatch(ref f) if f == "keys"));
}

#[test]
fn decode_rejects_malformed_documents() {
    for bad in [
        "",
        "   ",
        "17",
        r#""just a string""#,
        r#"{"transaction_id":"t""#,
        r#"{"transaction_id":"t","mac":{},"keys":"k"} trailing"#,
        r#"{"transaction_id":"t" "mac":{}}"#,
    ] {
        let e = ToDeviceMacEventContent::decode(bad).unwrap_err();
        assert!(matches!(e, DecodeError::TypeMismatch(ref f) if f.is_empty()), "{bad}");
    }
}

#[test]
fn decode_skips_unknown_fields() {
    let q = ToDeviceMacEventContent::decode(
        r#"{"transaction_id":"t1","foo":1,"mac":{"ed25519:A":"m1"},"bar":[true,null,{"x":"y"}],"keys":"YWJj","baz":{"deep":{"deeper":false}}}"#,
    )
    .unwrap();
    assert_eq!(q.transaction_id, "t1");
    assert_eq!(q.keys, "YWJj");
    assert_eq!(q.mac.len(), 1);
    assert_eq!(q.mac.get("ed25519:A").unwrap(), "m1");
}

#[test]
fn decode_takes_whitespace_and_any_field_order() {
    let q = ToDeviceMacEventContent::decode(
        " { \"keys\" : \"YWJj\" ,\n\t\"mac\" : { \"ed25519:A\" : \"m1\" } , \"transaction_id\" : \"t1\" } ",
    )
    .unwrap();
    assert_eq!(q.transaction_id, "t1");
    assert_eq!(q.keys, "YWJj");
    assert_eq!(q.mac.get("ed25519:A").unwrap(), "m1");
}

#[test]
fn decode_takes_short_escapes() {
    let q = ToDeviceMacEventContent::decode(
        r#"{"transaction_id":"a\"b\\c\/d\ne\tf\rg\bh\fi","mac":{"ed25519:A":"m"},"keys":"k"}"#,
    )
    .unwrap();
    assert_eq!(
        q.transaction_id,
        "a\"b\\c/d\ne\tf\rg\u{0008}h\u{000C}i"
    );
}

#[test]
fn decode_keeps_last_value_of_repeated_mac_key() {
    let q = ToDeviceMacEventContent::decode(
        r#"{"transaction_id":"t","mac":{"ed25519:A":"m1","ed25519:A":"m2"},"keys":"k"}"#,
    )
    .unwrap();
    assert_eq!(q.mac.len(), 1);
    assert_eq!(q.mac.get("ed25519:A").unwrap(), "m2");
}

#[test]
fn validate_passes_well_formed_payload() {
    assert_eq!(sample().validate(), Ok(()));
}

#[test]
fn validate_rejects_empty_mac() {
    // decode leaves semantic checks to validate, so an empty mapping decodes
    let q = ToDeviceMacEventContent::decode(r#"{"transaction_id":"t","mac":{},"keys":"YWJj"}"#)
        .unwrap();
    assert_eq!(q.validate(), Err(ValidationError::EmptyMac));
}

#[test]
fn validate_rejects_malformed_key_id() {
    let p = ToDeviceMacEventContent {
        transaction_id: "t".to_string(),
        mac: mac_of(&[("not-a-valid-id", "abc")]),
        keys: "YWJj".to_string(),
    };
    assert_eq!(p.validate(), Err(ValidationError::BadKeyIdFormat));
}

#[test]
fn validate_rejects_bad_base64() {
    let p = ToDeviceMacEventContent {
        transaction_id: "t".to_string(),
        mac: mac_of(&[("ed25519:A", "m")]),
        keys: "not base64 !!".to_string(),
    };
    assert_eq!(p.validate(), Err(ValidationError::BadBase64));
    // a length with remainder 1 modulo 4 can never be unpadded Base64
    let q = ToDeviceMacEventContent {
        transaction_id: "t".to_string(),
        mac: mac_of(&[("ed25519:A", "m")]),
        keys: "YWJjZ".to_string(),
    };
    assert_eq!(q.validate(), Err(ValidationError::BadBase64));
    // while a well-formed value passes that check
    let r = ToDeviceMacEventContent {
        transaction_id: "t".to_string(),
        mac: mac_of(&[("ed25519:A", "m")]),
        keys: "YWJj".to_string(),
    };
    assert_eq!(r.validate(), Ok(()));
}

#[test]
fn validate_reports_key_id_before_base64() {
    let p = ToDeviceMacEventContent {
        transaction_id: "t".to_string(),
        mac: mac_of(&[("bad", "m")]),
        keys: "not base64 !!".to_string(),
    };
    assert_eq!(p.validate(), Err(ValidationError::BadKeyIdFormat));
}
