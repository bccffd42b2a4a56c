use rt_easy::value::{Bit, SignedValue, Value};

fn bits(s: &str) -> Vec<Bit> {
    Value::parse_bin(s).unwrap().bits
}

fn value(s: &str) -> Value {
    Value::parse_bin(s).unwrap()
}

#[test]
fn addition_commutes() {
    let a = value("1011");
    let b = value("0110");
    assert_eq!((a.clone() + b.clone()).bits, (b + a).bits);
    assert_eq!((value("1011") + value("0110")).bits, bits("0001"));
}

#[test]
fn subtraction_undoes_addition() {
    let a = value("1011");
    let b = value("1110");
    assert_eq!(((a.clone() + b.clone()) - b).bits, a.bits);
}

#[test]
fn negation_twice_is_identity() {
    let a = value("01101");
    assert_eq!((-(-a.clone())).bits, a.bits);
    let z = value("000");
    assert_eq!((-(-z.clone())).bits, z.bits);
}

#[test]
fn inversion_twice_is_identity() {
    let a = value("1001110");
    assert_eq!((!(!a.clone())).bits, a.bits);
}

#[test]
fn value_plus_negation_is_zero() {
    let a = value("0110");
    let sum = a.clone() + (-a);
    assert_eq!(sum.bits, bits("0000"));
    assert!(sum.is_zero());
}

#[test]
fn decimal_text_reads_back() {
    for dec in ["0", "7", "10", "255", "123456789012345678901234567890"] {
        let v = Value::parse_dec(dec).unwrap();
        assert_eq!(v.as_dec(), dec);
        assert!(Value::parse_dec(&v.as_dec()).unwrap() == v);
    }
}

#[test]
fn leading_zeros_do_not_change_value() {
    let mut a = value("0000101");
    let before = a.clone();
    a.remove_leading_zeros();
    assert_eq!(a.bits, bits("101"));
    assert!(a == before);
    let mut z = value("0000");
    z.remove_leading_zeros();
    assert_eq!(z.bits, vec![Bit::Zero]);
}

#[test]
fn zero_extension_keeps_value() {
    let mut a = value("101");
    a.extend_zero(8);
    assert_eq!(a.size(), 8);
    assert!(a == value("101"));
    assert_eq!(a.as_dec(), "5");
}

#[test]
fn twos_complement_of_negative_adds_to_zero() {
    let magnitude = value("11");
    let neg = SignedValue::Negative(magnitude.clone()).into_twos_complement(4).unwrap();
    assert_eq!(neg.bits, bits("1101"));
    let mut m = magnitude;
    m.extend_zero(4);
    assert_eq!((neg + m).bits, bits("0000"));
    let too_wide = SignedValue::Positive(value("11111"));
    assert!(too_wide.into_twos_complement(4).is_err());
}

#[test]
fn equality_ignores_width_and_matches_order() {
    let a = value("0011");
    let b = value("11");
    assert!(a == b);
    assert_eq!(a.partial_cmp(&b), Some(std::cmp::Ordering::Equal));
    assert!(value("100") > value("011"));
}

#[test]
fn shifting_down_divides() {
    let a = value("1101");
    let shifted = a >> 2;
    assert_eq!(shifted.bits, bits("0011"));
    assert_eq!(shifted.as_dec(), "3");
}

#[test]
fn shifting_up_multiplies_modulo_width() {
    let a = value("1101");
    let shifted = a << 1;
    assert_eq!(shifted.bits, bits("1010"));
    assert_eq!(shifted.as_dec(), "10");
}

#[test]
fn decimal_text_is_canonical_and_round_trips() {
    for s in ["0", "7", "10", "255", "1000000000000000000000000000001"] {
        let v = Value::parse_dec(s).unwrap();
        assert_eq!(v.as_dec(), s);
    }
    assert_eq!(Value::zero(5).as_dec(), "0");
    assert_eq!(Value::parse_dec("0042").unwrap().as_dec(), "42");
    assert!(!Value::parse_bin("1000").unwrap().as_dec().starts_with('0'));
}
