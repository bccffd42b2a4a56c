use rt_easy::value::{Bit, SignedValue, Value};

#[test]
fn test_cmp() {
    // GE
    assert!(
        Value { bits: vec![Bit::One, Bit::One] }
            >= Value { bits: vec![Bit::Zero, Bit::Zero, Bit::Zero] }
    );
    assert!(
        Value { bits: vec![Bit::One, Bit::Zero, Bit::One, Bit::One] }
            >= Value { bits: vec![Bit::One, Bit::Zero, Bit::One, Bit::One] }
    );

    // LE
    assert!(
        Value { bits: vec![Bit::Zero, Bit::Zero, Bit::Zero] }
            <= Value { bits: vec![Bit::One, Bit::One] }
    );
    assert!(
        Value { bits: vec![Bit::One, Bit::Zero, Bit::One, Bit::One] }
            <= Value { bits: vec![Bit::One, Bit::Zero, Bit::One, Bit::One] }
    );

    // GT
    assert!(
        Value { bits: vec![Bit::One, Bit::One] }
            > Value { bits: vec![Bit::Zero, Bit::Zero, Bit::Zero] }
    );
    assert!(
        Value { bits: vec![Bit::Zero, Bit::Zero, Bit::One, Bit::One] }
            > Value { bits: vec![Bit::One, Bit::One, Bit::Zero, Bit::Zero,] }
    );

    // LT
    assert!(
        Value { bits: vec![Bit::Zero, Bit::Zero, Bit::Zero] }
            < Value { bits: vec![Bit::One, Bit::One] }
    );
    assert!(
        Value { bits: vec![Bit::One, Bit::One, Bit::Zero, Bit::Zero,] }
            < Value { bits: vec![Bit::Zero, Bit::Zero, Bit::One, Bit::One] }
    );

    // EQ
    assert!(Value { bits: vec![Bit::Zero, Bit::Zero] } == Value { bits: vec![Bit::Zero] });
    assert!(
        Value { bits: vec![Bit::Zero, Bit::One, Bit::One, Bit::Zero] }
            == Value { bits: vec![Bit::Zero, Bit::One, Bit::One] }
    );

    // NE
    assert!(Value { bits: vec![Bit::Zero, Bit::One] } != Value { bits: vec![Bit::One] });
    assert!(
        Value { bits: vec![Bit::One, Bit::One, Bit::One, Bit::One] }
            != Value { bits: vec![Bit::One, Bit::Zero, Bit::One, Bit::One] }
    );
}

#[test]
fn test_add() {
    assert_eq!(
        Value { bits: vec![Bit::One, Bit::One, Bit::Zero] }
            + Value { bits: vec![Bit::One, Bit::Zero, Bit::Zero] },
        Value { bits: vec![Bit::Zero, Bit::Zero, Bit::One] }
    );
    assert_eq!(
        Value { bits: vec![Bit::One, Bit::One] } + Value { bits: vec![Bit::One, Bit::Zero] },
        Value { bits: vec![Bit::Zero, Bit::Zero] }
    );
    assert_eq!(
        Value { bits: vec![Bit::One, Bit::One] } + Value { bits: vec![Bit::One] },
        Value { bits: vec![Bit::Zero, Bit::Zero] }
    );
    assert_eq!(
        Value { bits: vec![Bit::One, Bit::One, Bit::Zero, Bit::One, Bit::Zero] }
            + Value { bits: vec![Bit::One, Bit::One, Bit::Zero, Bit::One] },
        Value { bits: vec![Bit::Zero, Bit::One, Bit::One, Bit::Zero, Bit::One] }
    );
}

#[test]
fn test_sub() {
    assert_eq!(
        Value { bits: vec![Bit::One, Bit::One, Bit::Zero] }
            - Value { bits: vec![Bit::One, Bit::Zero, Bit::Zero] },
        Value { bits: vec![Bit::Zero, Bit::One, Bit::Zero] }
    );
    assert_eq!(
        Value { bits: vec![Bit::Zero, Bit::Zero] } - Value { bits: vec![Bit::One, Bit::Zero] },
        Value { bits: vec![Bit::One, Bit::One] }
    );
    assert_eq!(
        Value { bits: vec![Bit::One, Bit::Zero] } - Value { bits: vec![Bit::One, Bit::One] },
        Value { bits: vec![Bit::Zero, Bit::One] }
    );
}

#[test]
fn test_bit_and() {
    assert_eq!(
        Value { bits: vec![Bit::One, Bit::One, Bit::Zero] }
            & Value { bits: vec![Bit::One, Bit::One, Bit::One] },
        Value { bits: vec![Bit::One, Bit::One, Bit::Zero] }
    );
    assert_eq!(
        Value { bits: vec![Bit::One] } & Value { bits: vec![Bit::One, Bit::Zero, Bit::Zero] },
        Value { bits: vec![Bit::One, Bit::Zero, Bit::Zero] }
    );
}

#[test]
fn test_bit_or() {
    assert_eq!(
        Value { bits: vec![Bit::One, Bit::One, Bit::Zero] }
            | Value { bits: vec![Bit::One, Bit::One, Bit::One] },
        Value { bits: vec![Bit::One, Bit::One, Bit::One] }
    );
    assert_eq!(
        Value { bits: vec![Bit::One] } | Value { bits: vec![Bit::One, Bit::One, Bit::Zero] },
        Value { bits: vec![Bit::One, Bit::One, Bit::Zero] }
    );
}

#[test]
fn test_bit_xor() {
    assert_eq!(
        Value { bits: vec![Bit::One, Bit::One, Bit::Zero] }
            ^ Value { bits: vec![Bit::One, Bit::One, Bit::One] },
        Value { bits: vec![Bit::Zero, Bit::Zero, Bit::One] }
    );
    assert_eq!(
        Value { bits: vec![Bit::One] } ^ Value { bits: vec![Bit::One, Bit::One, Bit::Zero] },
        Value { bits: vec![Bit::Zero, Bit::One, Bit::Zero] }
    );
}

#[test]
fn test_shl() {
    assert_eq!(
        Value { bits: vec![Bit::One, Bit::One, Bit::Zero] } << 0,
        Value { bits: vec![Bit::One, Bit::One, Bit::Zero] }
    );
    assert_eq!(
        Value { bits: vec![Bit::One, Bit::One, Bit::Zero] } << 2,
        Value { bits: vec![Bit::Zero, Bit::Zero, Bit::One] }
    );
    assert_eq!(
        Value { bits: vec![Bit::One, Bit::One, Bit::Zero] } << 12,
        Value { bits: vec![Bit::Zero, Bit::Zero, Bit::Zero] }
    );
}

#[test]
fn test_shr() {
    assert_eq!(
        Value { bits: vec![Bit::One, Bit::One, Bit::Zero] } >> 0,
        Value { bits: vec![Bit::One, Bit::One, Bit::Zero] }
    );
    assert_eq!(
        Value { bits: vec![Bit::One, Bit::Zero, Bit::One] } >> 2,
        Value { bits: vec![Bit::One, Bit::Zero, Bit::Zero] }
    );
    assert_eq!(
        Value { bits: vec![Bit::One, Bit::One, Bit::Zero] } >> 12,
        Value { bits: vec![Bit::Zero, Bit::Zero, Bit::Zero] }
    );
}

#[test]
fn test_neg() {
    assert_eq!(
        -Value { bits: vec![Bit::Zero, Bit::Zero, Bit::Zero] },
        Value { bits: vec![Bit::Zero, Bit::Zero, Bit::Zero] }
    );
    assert_eq!(
        -Value { bits: vec![Bit::One, Bit::One, Bit::Zero] },
        Value { bits: vec![Bit::One, Bit::Zero, Bit::One] }
    );
    assert_eq!(
        -Value { bits: vec![Bit::One, Bit::One, Bit::One] },
        Value { bits: vec![Bit::One, Bit::Zero, Bit::Zero] }
    );
}

#[test]
fn test_not() {
    assert_eq!(
        !Value { bits: vec![Bit::Zero, Bit::Zero, Bit::Zero] },
        Value { bits: vec![Bit::One, Bit::One, Bit::One] }
    );
    assert_eq!(
        !Value { bits: vec![Bit::One, Bit::One, Bit::Zero] },
        Value { bits: vec![Bit::Zero, Bit::Zero, Bit::One] }
    );
    assert_eq!(
        !Value { bits: vec![Bit::One, Bit::One, Bit::One] },
        Value { bits: vec![Bit::Zero, Bit::Zero, Bit::Zero] }
    );
}

#[test]
fn test_into_twos_complement_positive() {
    assert_eq!(
        SignedValue::Positive(Value { bits: vec![Bit::One, Bit::One] })
            .into_twos_complement(2)
            .unwrap(),
        Value { bits: vec![Bit::One, Bit::One] }
    );

    assert_eq!(
        SignedValue::Positive(Value { bits: vec![Bit::One, Bit::One] })
            .into_twos_complement(3)
            .unwrap()
            .size(),
        3
    );

    assert!(SignedValue::Positive(Value { bits: vec![Bit::One, Bit::One, Bit::Zero] })
        .into_twos_complement(2)
        .is_err());
}

#[test]
fn test_into_twos_complement_negative() {
    assert_eq!(
        SignedValue::Negative(Value { bits: vec![Bit::One, Bit::Zero] })
            .into_twos_complement(2)
            .unwrap(),
        Value { bits: vec![Bit::One, Bit::One] }
    );

    assert_eq!(
        SignedValue::Negative(Value { bits: vec![Bit::One, Bit::One] })
            .into_twos_complement(3)
            .unwrap()
            .size(),
        3
    );

    assert!(SignedValue::Negative(Value { bits: vec![Bit::One, Bit::One, Bit::Zero] })
        .into_twos_complement(2)
        .is_err());
}

#[test]
fn signed_value_test_parse_bin() {
    let parsed = SignedValue::parse_bin("-01").unwrap();
    assert!(matches!(parsed, SignedValue::Negative(..)));
    assert_eq!(
        parsed.into_twos_complement(2).unwrap(),
        Value { bits: vec![Bit::One, Bit::One] }
    );

    assert!(matches!(SignedValue::parse_bin("01010").unwrap(), SignedValue::Positive(..)));

    assert!(SignedValue::parse_bin("--01010").is_err());
    assert!(SignedValue::parse_bin("-").is_err());
    assert!(SignedValue::parse_bin("- 1").is_err());
}

#[test]
fn signed_value_test_parse_dec() {
    let parsed = SignedValue::parse_dec("-3").unwrap();
    assert!(matches!(parsed, SignedValue::Negative(..)));
    assert_eq!(
        parsed.into_twos_complement(4).unwrap(),
        Value { bits: vec![Bit::One, Bit::Zero, Bit::One, Bit::One] }
    );

    assert!(matches!(SignedValue::parse_dec("379856").unwrap(), SignedValue::Positive(..)));

    assert!(SignedValue::parse_dec("--495783").is_err());
    assert!(SignedValue::parse_dec("-").is_err());
    assert!(SignedValue::parse_dec("- 1").is_err());
}

#[test]
fn signed_value_test_parse_hex() {
    let parsed = SignedValue::parse_hex("-FF").unwrap();
    assert!(matches!(parsed, SignedValue::Negative(..)));
    assert_eq!(
        parsed.into_twos_complement(12).unwrap(),
        Value {
            bits: vec![
                Bit::One,
                Bit::Zero,
                Bit::Zero,
                Bit::Zero,
                Bit::Zero,
                Bit::Zero,
                Bit::Zero,
                Bit::Zero,
                Bit::One,
                Bit::One,
                Bit::One,
                Bit::One
            ]
        }
    );

    assert!(matches!(SignedValue::parse_hex("0A7e").unwrap(), SignedValue::Positive(..)));

    assert!(SignedValue::parse_hex("--ff").is_err());
    assert!(SignedValue::parse_hex("-").is_err());
    assert!(SignedValue::parse_hex("- F").is_err());
}

#[test]
fn test_from_value() {
    assert!(matches!(
        SignedValue::from(Value { bits: vec![Bit::One, Bit::Zero] }),
        SignedValue::Positive(..)
    ));
}

#[test]
fn value_test_parse_bin() {
    assert_eq!(
        Value::parse_bin("1101").unwrap(),
        Value { bits: vec![Bit::One, Bit::Zero, Bit::One, Bit::One] }
    );

    assert_eq!(
        Value::parse_bin("000101").unwrap(),
        Value { bits: vec![Bit::One, Bit::Zero, Bit::One, Bit::Zero, Bit::Zero, Bit::Zero,] }
    );

    assert_eq!(Value::parse_bin("01").unwrap().size(), 2);
    assert_eq!(Value::parse_bin("0101").unwrap().size(), 4);
    assert_eq!(Value::parse_bin("1010").unwrap().size(), 4);

    assert!(Value::parse_bin("-000101").is_err());
    assert!(Value::parse_bin("0b000101").is_err());
    assert!(Value::parse_bin("").is_err());
    assert!(Value::parse_bin("01020").is_err());
}

#[test]
fn value_test_parse_dec() {
    assert_eq!(
        Value::parse_dec("791").unwrap(),
        Value {
            bits: vec![
                Bit::One,
                Bit::One,
                Bit::One,
                Bit::Zero,
                Bit::One,
                Bit::Zero,
                Bit::Zero,
                Bit::Zero,
                Bit::One,
                Bit::One,
            ]
        }
    );

    assert_eq!(Value::parse_dec("7").unwrap().size(), 3);
    assert_eq!(Value::parse_dec("007").unwrap().size(), 3);

    assert!(Value::parse_dec("-495783").is_err());
    assert!(Value::parse_dec("FFa").is_err());
    assert!(Value::parse_dec("FF").is_err());
    assert!(Value::parse_dec("").is_err());
    assert!(Value::parse_dec("12 89").is_err());
}

#[test]
fn value_test_parse_hex() {
    assert_eq!(
        Value::parse_hex("ffA1").unwrap(),
        Value {
            bits: vec![
                Bit::One,
                Bit::Zero,
                Bit::Zero,
                Bit::Zero,
                Bit::Zero,
                Bit::One,
                Bit::Zero,
                Bit::One,
                Bit::One,
                Bit::One,
                Bit::One,
                Bit::One,
                Bit::One,
                Bit::One,
                Bit::One,
                Bit::One,
            ]
        }
    );

    assert_eq!(Value::parse_hex("0").unwrap().size(), 1);
    assert_eq!(Value::parse_hex("a").unwrap().size(), 4);
    assert_eq!(Value::parse_hex("0a").unwrap().size(), 4);

    assert!(Value::parse_hex("-ff").is_err());
    assert!(Value::parse_hex("FFaG").is_err());
    assert!(Value::parse_hex("").is_err());
    assert!(Value::parse_hex("ff 12").is_err());
}
