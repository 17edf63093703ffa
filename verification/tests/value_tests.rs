use rox::value::{Value, ValueType, QNAN, SIGN_BIT, NIL_VAL, FALSE_VAL, TRUE_VAL};

#[test]
fn number_bits_are_number_class() {
    let v = Value(1.0f64.to_bits());
    assert!(v.is(ValueType::Number));
    assert!(!v.is(ValueType::Boolean));
    assert!(!v.is(ValueType::Nil));
    assert!(!v.is(ValueType::Object));
    assert!(matches!(v.get_type(), ValueType::Number));
}

#[test]
fn ordinary_quiet_nan_is_still_a_number() {
    // The hardware's default quiet NaN does not collide with the tag mask.
    let nan = (0.0f64 / 0.0f64).to_bits();
    let v = Value(nan);
    assert!(v.is(ValueType::Number));
}

#[test]
fn reserved_mask_payload_is_not_a_number() {
    // The one quiet-NaN payload the encoding gives up: the mask itself.
    let v = Value(QNAN);
    assert!(!v.is(ValueType::Number));
    assert!(!v.is(ValueType::Boolean));
    assert!(!v.is(ValueType::Nil));
    assert!(!v.is(ValueType::Object));
}

#[test]
fn boolean_encodings() {
    let t = Value::from(true);
    let f = Value::from(false);
    assert_eq!(t.bits(), TRUE_VAL);
    assert_eq!(f.bits(), FALSE_VAL);
    assert!(t.is(ValueType::Boolean));
    assert!(f.is(ValueType::Boolean));
    assert!(t.as_bool());
    assert!(!f.as_bool());
    assert!(matches!(t.get_type(), ValueType::Boolean));
}

#[test]
fn nil_encoding() {
    let n = Value::create_nil();
    assert_eq!(n.bits(), NIL_VAL);
    assert!(n.is(ValueType::Nil));
    assert!(!n.is(ValueType::Boolean));
    assert!(matches!(n.get_type(), ValueType::Nil));
}

#[test]
fn object_tag_space() {
    let v = Value(QNAN | SIGN_BIT | 0x1234);
    assert!(v.is(ValueType::Object));
    assert!(!v.is(ValueType::Number));
    assert!(matches!(v.get_type(), ValueType::Object));
    assert_eq!(v.as_object(), 0x1234);
}

#[test]
fn distinct_tags_are_distinct_words() {
    // Cross-class values can never be bit-equal.
    assert_ne!(Value::from(true).bits(), Value(1.0f64.to_bits()).bits());
    assert_ne!(Value::from(false).bits(), Value::create_nil().bits());
    assert_ne!(Value::from(true).bits(), Value::from(false).bits());
}

#[test]
fn negation_is_sign_flip_and_involutive() {
    let samples: [f64; 7] = [0.0, -0.0, 1.5, -2.25, f64::INFINITY, 1e-308, 12345.6789];
    for &x in samples.iter() {
        let bits = x.to_bits();
        assert_eq!(bits ^ SIGN_BIT, (-x).to_bits());
        assert_eq!((bits ^ SIGN_BIT) ^ SIGN_BIT, bits);
    }
}
