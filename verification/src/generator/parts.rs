//! A grammar file has three parts separated by `+++`: the rules, the token
//! map and the Rust code.

use super::error::GeneratorError;
use crate::text::chars::{chars_of, string_from_chars};
use vstd::prelude::*;

verus! {

/// The separator `+++` starts at `i`.
pub open spec fn sep_at(cs: Seq<char>, i: int) -> bool {
    0 <= i && i + 3 <= cs.len() && cs[i] == '+' && cs[i + 1] == '+' && cs[i + 2] == '+'
}

/// Where the first separator from `i` on starts.
pub open spec fn next_sep(cs: Seq<char>, i: int) -> Option<int>
    decreases cs.len() - i,
{
    if i < 0 || i + 3 > cs.len() {
        None
    } else if sep_at(cs, i) {
        Some(i)
    } else {
        next_sep(cs, i + 1)
    }
}

/// The character ranges of the first three parts, if there are three.
pub open spec fn three_parts(cs: Seq<char>) -> Option<((int, int), (int, int), (int, int))> {
    match next_sep(cs, 0) {
        None => None,
        Some(a) => match next_sep(cs, a + 3) {
            None => None,
            Some(b) => {
                let end = match next_sep(cs, b + 3) {
                    Some(c) => c,
                    None => cs.len() as int,
                };
                Some(((0, a), (a + 3, b), (b + 3, end)))
            },
        },
    }
}

/// A separator found from `i` on lies at or after `i`, inside the text.
pub proof fn lemma_next_sep_bounds(cs: Seq<char>, i: int)
    ensures
        next_sep(cs, i) matches Some(j) ==> 0 <= i <= j && j + 3 <= cs.len(),
    decreases cs.len() - i,
{
    if !(i < 0 || i + 3 > cs.len()) && !sep_at(cs, i) {
        lemma_next_sep_bounds(cs, i + 1);
    }
}

/// The three parts lie in order inside the text.
pub proof fn lemma_three_parts_bounds(cs: Seq<char>)
    ensures
        three_parts(cs) matches Some((p0, p1, p2)) ==> 0 <= p0.0 <= p0.1 <= cs.len() && 0 <= p1.0
            <= p1.1 <= cs.len() && 0 <= p2.0 <= p2.1 <= cs.len(),
{
    lemma_next_sep_bounds(cs, 0);
    match next_sep(cs, 0) {
        Some(a) => {
            lemma_next_sep_bounds(cs, a + 3);
            match next_sep(cs, a + 3) {
                Some(b) => {
                    lemma_next_sep_bounds(cs, b + 3);
                },
                None => {},
            }
        },
        None => {},
    }
}

/// `"expected 3 parts"`
pub open spec fn three_parts_message() -> Seq<char> {
    "expected 3 parts"@
}

fn next_sep_of(cs: &Vec<char>, i: usize) -> (res: Option<usize>)
    ensures
        match next_sep(cs@, i as int) {
            Some(j) => res == Some(j as usize) && i <= j && j + 3 <= cs@.len(),
            None => res is None,
        },
{
    let n = cs.len();
    let mut j = i;
    while j < n && n - j >= 3
        invariant
            n == cs@.len(),
            i <= j,
            next_sep(cs@, j as int) == next_sep(cs@, i as int),
        decreases n - j,
    {
        if cs[j] == '+' && cs[j + 1] == '+' && cs[j + 2] == '+' {
            return Some(j);
        }
        j = j + 1;
    }
    None
}

/// The first three parts of a grammar file; anything after a third
/// separator is left out. Fails when there are fewer than three parts.
pub fn split_into_parts(source: &str) -> (res: Result<(&str, &str, &str), GeneratorError>)
    ensures
        match three_parts(source@) {
            Some((p0, p1, p2)) => res matches Ok((a, b, c)) && a@ == source@.subrange(p0.0, p0.1)
                && b@ == source@.subrange(p1.0, p1.1) && c@ == source@.subrange(p2.0, p2.1),
            None => res matches Err(GeneratorError::Message(m)) && m@ == three_parts_message(),
        },
{
    let cs = chars_of(source);
    let n = cs.len();
    proof {
        reveal_strlit("expected 3 parts");
    }
    let a = match next_sep_of(&cs, 0) {
        Some(a) => a,
        None => return Err(GeneratorError::Message("expected 3 parts".to_owned())),
    };
    let b = match next_sep_of(&cs, a + 3) {
        Some(b) => b,
        None => return Err(GeneratorError::Message("expected 3 parts".to_owned())),
    };
    let end = match next_sep_of(&cs, b + 3) {
        Some(c) => c,
        None => n,
    };
    assert(b + 3 <= end <= source@.len());
    Ok((source.substring_char(0, a), source.substring_char(a + 3, b), source.substring_char(b + 3, end)))
}

} // verus!
