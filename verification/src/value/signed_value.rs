//! Numbers with a sign, as written in source text.

use super::math::resize;
use super::ops::spec_neg;
use super::parse::{bin_bits, dec_number, hex_number, is_bin_string, is_dec_string, is_hex_string};
use super::math::{is_trimmed, val};
use super::value::Value;
use vstd::prelude::*;

verus! {

/// A magnitude with a sign.
#[derive(Debug, Clone)]
pub enum SignedValue {
    Negative(Value),
    Positive(Value),
}

/// Whether the text starts with a minus sign.
pub open spec fn has_minus(cs: Seq<char>) -> bool {
    cs.len() > 0 && cs[0] == '-'
}

/// The text after a leading minus sign, or the whole text.
pub open spec fn magnitude_text(cs: Seq<char>) -> Seq<char> {
    if has_minus(cs) {
        cs.drop_first()
    } else {
        cs
    }
}

/// Splits off a leading minus sign.
fn split_sign(s: &str) -> (res: (bool, &str))
    ensures
        res.0 == has_minus(s@),
        res.1@ == magnitude_text(s@),
{
    let n = s.unicode_len();
    if n > 0 && s.get_char(0) == '-' {
        let rest = s.substring_char(1, n);
        assert(rest@ =~= s@.drop_first());
        (true, rest)
    } else {
        (false, s)
    }
}

impl SignedValue {
    /// The value in two's complement with `size` bits; fails, handing the
    /// value back, when the magnitude has more than `size` bits.
    pub fn into_twos_complement(self, size: usize) -> (res: Result<Value, SignedValue>)
        ensures
            match self {
                SignedValue::Negative(v) => if v@.len() > size {
                    res == Err::<Value, SignedValue>(self)
                } else {
                    res matches Ok(r) && r@ == spec_neg(resize(v@, size as nat))
                },
                SignedValue::Positive(v) => if v@.len() > size {
                    res == Err::<Value, SignedValue>(self)
                } else {
                    res matches Ok(r) && r@ == resize(v@, size as nat)
                },
            },
    {
        match self {
            SignedValue::Negative(mut value) => {
                if value.size() > size {
                    Err(SignedValue::Negative(value))
                } else {
                    value.extend_zero(size);
                    Ok(super::ops::neg(&value.as_slice()))
                }
            },
            SignedValue::Positive(mut value) => {
                if value.size() > size {
                    Err(SignedValue::Positive(value))
                } else {
                    value.extend_zero(size);
                    Ok(value)
                }
            },
        }
    }

    /// Parses a binary string with an optional leading minus sign.
    pub fn parse_bin(bin: &str) -> (res: Result<SignedValue, ()>)
        ensures
            res is Ok <==> is_bin_string(magnitude_text(bin@)),
            res matches Ok(sv) ==> match sv {
                SignedValue::Negative(v) => has_minus(bin@) && v@ == bin_bits(magnitude_text(bin@)),
                SignedValue::Positive(v) => !has_minus(bin@) && v@ == bin_bits(bin@),
            },
    {
        let (negative, rest) = split_sign(bin);
        let value = Value::parse_bin(rest)?;
        if negative {
            Ok(SignedValue::Negative(value))
        } else {
            Ok(SignedValue::Positive(value))
        }
    }

    /// Parses a decimal string with an optional leading minus sign.
    pub fn parse_dec(dec: &str) -> (res: Result<SignedValue, ()>)
        ensures
            res is Ok <==> is_dec_string(magnitude_text(dec@)),
            res matches Ok(sv) ==> match sv {
                SignedValue::Negative(v) => has_minus(dec@) && val(v@) == dec_number(
                    magnitude_text(dec@),
                ) && is_trimmed(v@),
                SignedValue::Positive(v) => !has_minus(dec@) && val(v@) == dec_number(dec@)
                    && is_trimmed(v@),
            },
    {
        let (negative, rest) = split_sign(dec);
        let value = Value::parse_dec(rest)?;
        if negative {
            Ok(SignedValue::Negative(value))
        } else {
            Ok(SignedValue::Positive(value))
        }
    }

    /// Parses a hexadecimal string with an optional leading minus sign.
    pub fn parse_hex(hex: &str) -> (res: Result<SignedValue, ()>)
        ensures
            res is Ok <==> is_hex_string(magnitude_text(hex@)),
            res matches Ok(sv) ==> match sv {
                SignedValue::Negative(v) => has_minus(hex@) && val(v@) == hex_number(
                    magnitude_text(hex@),
                ) && is_trimmed(v@),
                SignedValue::Positive(v) => !has_minus(hex@) && val(v@) == hex_number(hex@)
                    && is_trimmed(v@),
            },
    {
        let (negative, rest) = split_sign(hex);
        let value = Value::parse_hex(rest)?;
        if negative {
            Ok(SignedValue::Negative(value))
        } else {
            Ok(SignedValue::Positive(value))
        }
    }
}

impl From<Value> for SignedValue {
    fn from(value: Value) -> (res: SignedValue) {
        SignedValue::Positive(value)
    }
}

impl vstd::std_specs::convert::FromSpecImpl<Value> for SignedValue {
    open spec fn obeys_from_spec() -> bool {
        true
    }

    open spec fn from_spec(value: Value) -> SignedValue {
        SignedValue::Positive(value)
    }
}

} // verus!
