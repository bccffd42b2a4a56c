use rt_easy::value::{Bit, SignedValue, Value, ValueSlice};

fn bits(s: &str) -> Vec<Bit> {
    Value::parse_bin(s).unwrap().bits
}

#[test]
fn constructors() {
    assert_eq!(Value::zero(3).bits, vec![Bit::Zero; 3]);
    assert_eq!(Value::one(3).bits, vec![Bit::One, Bit::Zero, Bit::Zero]);
    assert_eq!(Value::filled(2).bits, vec![Bit::One, Bit::One]);
}

#[test]
fn resizing() {
    let mut v = Value::parse_bin("101").unwrap();
    v.extend_sign(6);
    assert_eq!(v.bits, bits("111101"));
    let mut w = Value::parse_bin("0101").unwrap();
    w.extend_zero(2);
    assert_eq!(w.size(), 4);
    let v = Value::parse_bin("110101").unwrap().with_size(3);
    assert_eq!(v.bits, bits("101"));
    let v = Value::parse_bin("1").unwrap().with_size(4);
    assert_eq!(v.bits, bits("0001"));
}

#[test]
fn writing_fits_the_target() {
    let mut target = Value::zero(4);
    let source = Value::parse_bin("111111").unwrap();
    target.write(&source.as_slice());
    assert_eq!(target.bits, bits("1111"));
    let mut target = Value::filled(4);
    target.write(&Value::parse_bin("10").unwrap().as_slice());
    assert_eq!(target.bits, bits("0010"));
}

#[test]
fn concatenation_puts_the_first_on_top() {
    let a = Value::parse_bin("11").unwrap();
    let b = Value::parse_bin("100").unwrap();
    let joined = Value::concat(&[a.as_slice(), b.as_slice()]);
    assert_eq!(joined.bits, bits("11100"));
    assert_eq!(Value::concat(&[]).bits, vec![]);
}

#[test]
fn slices() {
    let v = Value::parse_bin("1010").unwrap();
    let s: ValueSlice = v.as_slice();
    assert_eq!(s.size(), 4);
    assert!(!s.is_zero());
    assert_eq!(s.as_dec(), "10");
    assert_eq!(s.to_owned().bits, v.bits);
    assert!(Value::zero(5).as_slice().is_zero());
    assert_eq!(Value::zero(5).as_dec(), "0");
}

#[test]
fn bit_operations() {
    assert!(Bit::One.to_bool());
    assert!(!Bit::Zero.to_bool());
    assert_eq!(Bit::from_bool(true), Bit::One);
    assert_eq!(Bit::One.and(Bit::Zero), Bit::Zero);
    assert_eq!(Bit::One.or(Bit::Zero), Bit::One);
    assert_eq!(Bit::One.xor(Bit::One), Bit::Zero);
    assert_eq!(Bit::Zero.not(), Bit::One);
    assert_eq!(Bit::One.to_u32(), 1);
    assert_eq!(Bit::default(), Bit::Zero);
}

#[test]
fn signed_values() {
    assert!(matches!(SignedValue::parse_dec("-12"), Ok(SignedValue::Negative(_))));
    assert!(matches!(SignedValue::parse_hex("1F"), Ok(SignedValue::Positive(_))));
    assert!(SignedValue::parse_bin("-").is_err());
    let v = SignedValue::Positive(Value::parse_bin("11").unwrap()).into_twos_complement(4).unwrap();
    assert_eq!(v.bits, bits("0011"));
}

#[test]
fn shifts() {
    let v = Value::parse_bin("0110").unwrap();
    assert_eq!((v.clone() << 1).bits, bits("1100"));
    assert_eq!((v.clone() >> 2).bits, bits("0001"));
    assert_eq!((v << 9).bits, bits("0000"));
}

#[test]
fn writing_through_a_mutable_slice() {
    let mut target = Value::zero(4);
    let source = Value::parse_bin("110").unwrap();
    {
        let mut slice = target.as_mut_slice();
        assert_eq!(slice.size(), 4);
        slice.write(&source.as_slice());
    }
    assert_eq!(target.bits, vec![Bit::Zero, Bit::One, Bit::One, Bit::Zero]);
    let wide = Value::parse_bin("111111").unwrap();
    target.as_mut_slice().write(&wide.as_slice());
    assert_eq!(target.bits, vec![Bit::One; 4]);
}
