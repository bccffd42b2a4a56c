//! Naming states and mapping bit ranges of the source program to VHDL.

use super::ir::{unnamed_prefix, named_prefix, terminated_text, BitRange, Label};
use crate::text::chars::{chars_of, string_from_chars};
use crate::value::format::dec_string;
use vstd::prelude::*;

verus! {

/// A bit range as the source program writes it: the most significant bit
/// and, unless a single bit is meant, the least significant one.
#[derive(Debug, Clone, Copy, PartialEq, Eq, Structural)]
pub struct SourceBitRange {
    pub msb: usize,
    pub lsb: Option<usize>,
}

/// The range of a declared item: `DOWNTO` unless the bounds go up; one bit
/// for a single index; bit zero alone when no range is given.
pub open spec fn spec_declared_bit_range(range: Option<SourceBitRange>) -> BitRange {
    match range {
        Some(SourceBitRange { msb, lsb: Some(lsb) }) => if msb >= lsb {
            BitRange::Downto(msb, lsb)
        } else {
            BitRange::To(msb, lsb)
        },
        Some(SourceBitRange { msb, lsb: None }) => BitRange::Downto(msb, msb),
        None => BitRange::Downto(0, 0),
    }
}

/// The range of a declared item.
pub fn declared_bit_range(range: Option<SourceBitRange>) -> (res: BitRange)
    ensures
        res == spec_declared_bit_range(range),
{
    match range {
        Some(SourceBitRange { msb, lsb: Some(lsb) }) => {
            if msb >= lsb {
                BitRange::Downto(msb, lsb)
            } else {
                BitRange::To(msb, lsb)
            }
        },
        Some(SourceBitRange { msb, lsb: None }) => BitRange::Downto(msb, msb),
        None => BitRange::Downto(0, 0),
    }
}

/// The range of an access to an item declared with `declared`: none for
/// the full range, whether it is not given or equals the declared one; a
/// single index keeps the direction of the declaration.
pub open spec fn spec_accessed_bit_range(
    range: Option<SourceBitRange>,
    declared: BitRange,
) -> Option<BitRange> {
    match range {
        None => None,
        Some(r) => {
            let mapped = match r.lsb {
                Some(lsb) => if r.msb >= lsb {
                    BitRange::Downto(r.msb, lsb)
                } else {
                    BitRange::To(r.msb, lsb)
                },
                None => match declared {
                    BitRange::Downto(_, _) => BitRange::Downto(r.msb, r.msb),
                    BitRange::To(_, _) => BitRange::To(r.msb, r.msb),
                },
            };
            if mapped == declared {
                None
            } else {
                Some(mapped)
            }
        },
    }
}

/// The range of an access to an item declared with `declared`.
pub fn accessed_bit_range(range: Option<SourceBitRange>, declared: BitRange) -> (res: Option<
    BitRange,
>)
    ensures
        res == spec_accessed_bit_range(range, declared),
{
    let range = match range {
        None => return None,
        Some(r) => r,
    };
    let mapped = match range.lsb {
        Some(lsb) => {
            if range.msb >= lsb {
                BitRange::Downto(range.msb, lsb)
            } else {
                BitRange::To(range.msb, lsb)
            }
        },
        None => match declared {
            BitRange::Downto(_, _) => BitRange::Downto(range.msb, range.msb),
            BitRange::To(_, _) => BitRange::To(range.msb, range.msb),
        },
    };
    if mapped == declared {
        return None;
    }
    Some(mapped)
}

/// The label of the state of statement `idx`: named after its label if it
/// has one, else after its index; the state after the last statement
/// (`None`) is the terminated state.
pub open spec fn spec_make_label(idx: usize, statement: Option<Option<&str>>) -> Seq<char> {
    match statement {
        Some(Some(name)) => named_prefix() + name@,
        Some(None) => unnamed_prefix() + dec_string(idx as nat),
        None => terminated_text(),
    }
}

/// The label of the state of statement `idx`, given its label if the
/// statement exists.
pub fn make_label(idx: usize, statement: Option<Option<&str>>) -> (res: Label)
    ensures
        res.0@ == spec_make_label(idx, statement),
{
    match statement {
        Some(label) => match label {
            Some(name) => Label::named(name),
            None => Label::unnamed(idx),
        },
        None => Label::terminated(),
    }
}

/// `needle` occurs in `hay`.
pub open spec fn contains_seq(hay: Seq<char>, needle: Seq<char>) -> bool {
    exists|i: int| 0 <= i && i + needle.len() <= hay.len() && #[trigger] hay.subrange(i, i + needle.len()) == needle
}

/// The prefix of jump states with `n` more underscores: `_GOTO_`, `_GOTO__`, ...
pub open spec fn goto_prefix(n: nat) -> Seq<char> {
    seq!['_', 'G', 'O', 'T', 'O', '_'] + Seq::new(n, |i: int| '_')
}

/// The text of a label; nothing for a statement without one.
pub open spec fn label_text(label: Option<&str>) -> Seq<char> {
    match label {
        Some(l) => l@,
        None => Seq::empty(),
    }
}

/// Some label contains `p`.
pub open spec fn any_label_contains(labels: Seq<Option<&str>>, p: Seq<char>) -> bool {
    exists|k: int|
        0 <= k < labels.len() && labels[k] is Some && contains_seq(#[trigger] label_text(labels[k]), p)
}

fn seq_contains(hay: &Vec<char>, needle: &Vec<char>) -> (res: bool)
    ensures
        res == contains_seq(hay@, needle@),
{
    if needle.len() > hay.len() {
        return false;
    }
    let n = hay.len();
    let m = needle.len();
    let last = n - m;
    let mut i: usize = 0;
    while i <= last
        invariant
            n == hay@.len(),
            m == needle@.len(),
            m <= n,
            last == n - m,
            last == hay@.len() - needle@.len(),
            i <= last + 1,
            forall|j: int| 0 <= j < i ==> #[trigger] hay@.subrange(j, j + needle@.len()) != needle@,
        decreases last + 1 - i,
    {
        let mut k: usize = 0;
        let mut same = true;
        while k < needle.len()
            invariant
                i <= last,
                n == hay@.len(),
                m == needle@.len(),
                m <= n,
                last == n - m,
                k <= needle@.len(),
                same == forall|t: int| 0 <= t < k ==> hay@[i + t] == needle@[t],
            decreases needle@.len() - k,
        {
            if hay[i + k] != needle[k] {
                same = false;
            }
            k = k + 1;
        }
        if same {
            assert(hay@.subrange(i as int, i + needle@.len()) =~= needle@);
            return true;
        }
        proof {
            assert(needle@.len() > 0);
            if hay@.subrange(i as int, i + needle@.len()) == needle@ {
                let t = choose|t: int| 0 <= t < needle@.len() && hay@[i + t] != needle@[t];
                assert(hay@.subrange(i as int, i + needle@.len())[t] == hay@[i + t]);
            }
        }
        i = i + 1;
    }
    false
}

/// The prefix for the states that a jump is moved into: `_GOTO_` with as
/// many more underscores as it takes for no label to contain it.
pub fn calc_label_goto_prefix(labels: &Vec<Option<&str>>) -> (res: String)
    ensures
        res@.len() >= 6,
        res@ == goto_prefix((res@.len() - 6) as nat),
        !any_label_contains(labels@, res@),
        forall|j: nat| j < res@.len() - 6 ==> any_label_contains(labels@, #[trigger] goto_prefix(j)),
{
    let mut prefix: Vec<char> = Vec::new();
    prefix.push('_');
    prefix.push('G');
    prefix.push('O');
    prefix.push('T');
    prefix.push('O');
    prefix.push('_');
    let ghost mut n: nat = 0;
    assert(prefix@ =~= goto_prefix(0));
    let mut longest: usize = 0;
    let mut k: usize = 0;
    let mut texts: Vec<Vec<char>> = Vec::new();
    while k < labels.len()
        invariant
            k <= labels@.len(),
            texts@.len() == k,
            forall|t: int| 0 <= t < k ==> (#[trigger] texts@[t])@ == label_text(labels@[t]),
            forall|t: int| 0 <= t < k ==> (#[trigger] texts@[t])@.len() <= longest,
        decreases labels@.len() - k,
    {
        let text = match labels[k] {
            Some(l) => chars_of(l),
            None => Vec::new(),
        };
        if text.len() > longest {
            longest = text.len();
        }
        texts.push(text);
        k = k + 1;
    }
    loop
        invariant
            prefix@ == goto_prefix(n),
            prefix@.len() == n + 6,
            texts@.len() == labels@.len(),
            forall|t: int| 0 <= t < texts@.len() ==> (#[trigger] texts@[t])@ == label_text(labels@[t]),
            forall|t: int| 0 <= t < texts@.len() ==> (#[trigger] texts@[t])@.len() <= longest,
            forall|j: nat| j < n ==> any_label_contains(labels@, #[trigger] goto_prefix(j)),
            n <= longest,
        decreases longest + 1 - n,
    {
        let mut found = false;
        let mut t: usize = 0;
        while t < texts.len()
            invariant
                t <= texts@.len(),
                texts@.len() == labels@.len(),
                prefix@.len() == n + 6,
                forall|q: int| 0 <= q < texts@.len() ==> (#[trigger] texts@[q])@ == label_text(labels@[q]),
                found ==> any_label_contains(labels@, prefix@),
                !found ==> forall|q: int|
                    0 <= q < t ==> !(labels@[q] is Some && contains_seq(#[trigger] label_text(labels@[q]), prefix@)),
            decreases texts@.len() - t,
        {
            let hit = seq_contains(&texts[t], &prefix);
            proof {
                assert(texts@[t as int]@ == label_text(labels@[t as int]));
                if hit {
                    if labels@[t as int] is None {
                        assert(texts@[t as int]@.len() == 0);
                        assert(!contains_seq(texts@[t as int]@, prefix@));
                    }
                }
            }
            if hit {
                found = true;
            }
            t = t + 1;
        }
        if !found {
            proof {
                assert(!any_label_contains(labels@, prefix@));
            }
            return string_from_chars(&prefix);
        }
        proof {
            if n == longest {
                let q = choose|q: int|
                    0 <= q < labels@.len() && labels@[q] is Some && contains_seq(
                        #[trigger] label_text(labels@[q]),
                        prefix@,
                    );
                assert(texts@[q]@ == label_text(labels@[q]));
                let i = choose|i: int|
                    0 <= i && i + prefix@.len() <= label_text(labels@[q]).len()
                        && #[trigger] label_text(labels@[q]).subrange(i, i + prefix@.len()) == prefix@;
                assert(false);
            }
        }
        prefix.push('_');
        proof {
            assert(prefix@ =~= goto_prefix(n + 1));
            assert forall|j: nat| j < n + 1 implies any_label_contains(labels@, #[trigger] goto_prefix(j)) by {
                if j == n {
                }
            }
            n = n + 1;
        }
    }
}

} // verus!
