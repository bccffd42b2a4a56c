//! The tokens of JSON documents: the longest match wins, blanks and `#`
//! comments are skipped, and anything else is an error token that covers
//! what was read before the match failed.

use crate::pretty_error::locations::{byte_len, lemma_byte_len_mono, lemma_byte_len_take, utf8_len_of};
use crate::text::chars::chars_of;
use crate::toktok::token::spans_match;
use crate::toktok::SpannedToken;
use vstd::prelude::*;

verus! {

/// A token of a JSON document.
#[derive(Debug, Clone, Copy, PartialEq, Eq, Structural, PartialOrd, Ord, Hash)]
pub enum Token {
    BraceOpen,
    BraceClose,
    BracketOpen,
    BracketClose,
    Comma,
    Colon,
    True,
    False,
    Integer,
    String,
    Error,
}

pub open spec fn is_blank(c: char) -> bool {
    c == ' ' || c == '\t' || c == '\r' || c == '\n'
}

pub open spec fn is_digit_or_underscore(c: char) -> bool {
    ('0' <= c && c <= '9') || c == '_'
}

/// The classes of characters that tokens run over.
#[derive(Debug, Clone, Copy, PartialEq, Eq, Structural)]
pub enum CharClass {
    Blank,
    NotNewline,
    Digit,
}

pub open spec fn in_class(c: char, class: CharClass) -> bool {
    match class {
        CharClass::Blank => is_blank(c),
        CharClass::NotNewline => c != '\r' && c != '\n',
        CharClass::Digit => is_digit_or_underscore(c),
    }
}

fn in_class_of(c: char, class: CharClass) -> (res: bool)
    ensures
        res == in_class(c, class),
{
    match class {
        CharClass::Blank => c == ' ' || c == '\t' || c == '\r' || c == '\n',
        CharClass::NotNewline => c != '\r' && c != '\n',
        CharClass::Digit => ('0' <= c && c <= '9') || c == '_',
    }
}

/// The end of the run of characters of `class` from `i` on.
pub open spec fn run_end(cs: Seq<char>, i: int, class: CharClass) -> int
    decreases cs.len() - i,
{
    if i < 0 || i >= cs.len() || !in_class(cs[i], class) {
        i
    } else {
        run_end(cs, i + 1, class)
    }
}

/// How many characters from `i` on agree with `word`, up to its length.
pub open spec fn common_prefix(cs: Seq<char>, i: int, word: Seq<char>, k: int) -> int
    decreases word.len() - k,
{
    if k < 0 || k >= word.len() || i + k >= cs.len() || cs[i + k] != word[k] {
        k
    } else {
        common_prefix(cs, i, word, k + 1)
    }
}

/// The end of a string whose characters start at `j`: just after the
/// closing quote; a backslash escapes the character after it.
pub open spec fn string_end(cs: Seq<char>, j: int) -> Option<int>
    decreases cs.len() - j,
{
    if j < 0 || j >= cs.len() {
        None
    } else if cs[j] == '"' {
        Some(j + 1)
    } else if cs[j] == '\\' {
        if j + 1 < cs.len() {
            string_end(cs, j + 2)
        } else {
            None
        }
    } else {
        string_end(cs, j + 1)
    }
}

/// A keyword, or the error that covers the part of it that was read.
pub open spec fn keyword(cs: Seq<char>, i: int, word: Seq<char>, t: Token) -> (Option<Token>, int) {
    let k = common_prefix(cs, i, word, 0);
    if k == word.len() {
        (Some(t), i + k)
    } else {
        (Some(Token::Error), i + k)
    }
}

/// What starts at `i < cs.len()`: a token (or nothing, for blanks and
/// comments) and where it ends.
pub open spec fn scan(cs: Seq<char>, i: int) -> (Option<Token>, int) {
    let c = cs[i];
    if is_blank(c) {
        (None, run_end(cs, i, CharClass::Blank))
    } else if c == '#' {
        (None, run_end(cs, i + 1, CharClass::NotNewline))
    } else if c == '{' {
        (Some(Token::BraceOpen), i + 1)
    } else if c == '}' {
        (Some(Token::BraceClose), i + 1)
    } else if c == '[' {
        (Some(Token::BracketOpen), i + 1)
    } else if c == ']' {
        (Some(Token::BracketClose), i + 1)
    } else if c == ',' {
        (Some(Token::Comma), i + 1)
    } else if c == ':' {
        (Some(Token::Colon), i + 1)
    } else if c == 't' {
        keyword(cs, i, seq!['t', 'r', 'u', 'e'], Token::True)
    } else if c == 'f' {
        keyword(cs, i, seq!['f', 'a', 'l', 's', 'e'], Token::False)
    } else if c == '+' || c == '-' {
        if i + 1 < cs.len() && is_digit_or_underscore(cs[i + 1]) {
            (Some(Token::Integer), run_end(cs, i + 1, CharClass::Digit))
        } else {
            (Some(Token::Error), i + 1)
        }
    } else if is_digit_or_underscore(c) {
        (Some(Token::Integer), run_end(cs, i, CharClass::Digit))
    } else if c == '"' {
        match string_end(cs, i + 1) {
            Some(e) => (Some(Token::String), e),
            None => (Some(Token::Error), cs.len() as int),
        }
    } else {
        (Some(Token::Error), i + 1)
    }
}

/// A token with the character range it covers.
pub type CharToken = (Token, int, int);

/// The tokens from `i` on.
pub open spec fn lex_from(cs: Seq<char>, i: int) -> Seq<CharToken>
    decreases cs.len() - i,
{
    if i < 0 || i >= cs.len() {
        Seq::empty()
    } else {
        let (t, e) = scan(cs, i);
        if e <= i || e > cs.len() {
            Seq::empty()
        } else {
            match t {
                None => lex_from(cs, e),
                Some(tok) => seq![(tok, i, e)] + lex_from(cs, e),
            }
        }
    }
}

/// The tokens of `cs`, with character ranges.
pub open spec fn spec_lex(cs: Seq<char>) -> Seq<CharToken> {
    lex_from(cs, 0)
}

/// The tokens lie in order within the text, each covering at least one
/// character.
pub proof fn lemma_lex_ordered(cs: Seq<char>, i: int)
    requires
        0 <= i,
    ensures
        forall|k: int|
            0 <= k < lex_from(cs, i).len() ==> i <= (#[trigger] lex_from(cs, i)[k]).1 < lex_from(
                cs,
                i,
            )[k].2 <= cs.len(),
        forall|k1: int, k2: int|
            0 <= k1 < k2 < lex_from(cs, i).len() ==> (#[trigger] lex_from(cs, i)[k1]).2 <= (
            #[trigger] lex_from(cs, i)[k2]).1,
    decreases cs.len() - i,
{
    if i < cs.len() {
        let (t, e) = scan(cs, i);
        if e > i && e <= cs.len() {
            lemma_lex_ordered(cs, e);
            let rest = lex_from(cs, e);
            match t {
                None => {},
                Some(tok) => {
                    let all = lex_from(cs, i);
                    assert(all == seq![(tok, i, e)] + rest);
                    assert forall|k: int| 0 <= k < all.len() implies i <= (#[trigger] all[k]).1
                        < all[k].2 <= cs.len() by {
                        if k > 0 {
                            assert(all[k] == rest[k - 1]);
                        }
                    }
                    assert forall|k1: int, k2: int| 0 <= k1 < k2 < all.len() implies (
                    #[trigger] all[k1]).2 <= (#[trigger] all[k2]).1 by {
                        assert(all[k2] == rest[k2 - 1]);
                        if k1 > 0 {
                            assert(all[k1] == rest[k1 - 1]);
                        }
                    }
                },
            }
        }
    }
}

proof fn lemma_run_end(cs: Seq<char>, i: int, class: CharClass)
    requires
        0 <= i,
    ensures
        i <= run_end(cs, i, class),
        i <= cs.len() ==> run_end(cs, i, class) <= cs.len(),
    decreases cs.len() - i,
{
    if i < cs.len() && in_class(cs[i], class) {
        lemma_run_end(cs, i + 1, class);
    }
}

fn run_end_of(cs: &Vec<char>, i: usize, class: CharClass) -> (res: usize)
    requires
        i <= cs@.len(),
    ensures
        res == run_end(cs@, i as int, class),
        i <= res <= cs@.len(),
{
    let mut j = i;
    proof {
        lemma_run_end(cs@, i as int, class);
    }
    while j < cs.len()
        invariant
            i <= j <= cs@.len(),
            run_end(cs@, j as int, class) == run_end(cs@, i as int, class),
        decreases cs@.len() - j,
    {
        if !in_class_of(cs[j], class) {
            return j;
        }
        j = j + 1;
    }
    j
}

fn keyword_of(cs: &Vec<char>, i: usize, word: &Vec<char>, t: Token) -> (res: (Option<Token>, usize))
    requires
        i < cs@.len(),
        word@.len() >= 1,
        cs@[i as int] == word@[0],
    ensures
        (res.0, res.1 as int) == keyword(cs@, i as int, word@, t),
        i < res.1 <= cs@.len(),
{
    let n = cs.len();
    let mut k: usize = 0;
    while k < word.len() && i + k < n && cs[i + k] == word[k]
        invariant
            n == cs@.len(),
            i < n,
            k <= word@.len(),
            i + k <= n,
            common_prefix(cs@, i as int, word@, k as int) == common_prefix(cs@, i as int, word@, 0),
            k == 0 ==> cs@[i as int] == word@[0],
        decreases word@.len() - k,
    {
        k = k + 1;
    }
    assert(k >= 1) by {
        if k == 0 {
            assert(common_prefix(cs@, i as int, word@, 0) == common_prefix(cs@, i as int, word@, 1));
        }
    }
    if k == word.len() {
        (Some(t), i + k)
    } else {
        (Some(Token::Error), i + k)
    }
}

fn string_end_of(cs: &Vec<char>, j: usize) -> (res: Option<usize>)
    requires
        j <= cs@.len(),
    ensures
        res matches Some(e) ==> string_end(cs@, j as int) == Some(e as int) && j < e <= cs@.len(),
        res is None ==> string_end(cs@, j as int) is None,
{
    let n = cs.len();
    let mut k = j;
    while k < n
        invariant
            n == cs@.len(),
            j <= k <= n,
            string_end(cs@, k as int) == string_end(cs@, j as int),
        decreases n - k,
    {
        if cs[k] == '"' {
            return Some(k + 1);
        } else if cs[k] == '\\' {
            if k + 1 < n {
                k = k + 2;
            } else {
                return None;
            }
        } else {
            k = k + 1;
        }
    }
    None
}

fn is_digit_of(c: char) -> (res: bool)
    ensures
        res == is_digit_or_underscore(c),
{
    ('0' <= c && c <= '9') || c == '_'
}

/// What starts at `i`, and where it ends.
fn scan_of(cs: &Vec<char>, i: usize) -> (res: (Option<Token>, usize))
    requires
        i < cs@.len(),
    ensures
        (res.0, res.1 as int) == scan(cs@, i as int),
        i < res.1 <= cs@.len(),
{
    let n = cs.len();
    let c = cs[i];
    let j = i + 1;
    if c == ' ' || c == '\t' || c == '\r' || c == '\n' {
        assert(in_class(c, CharClass::Blank));
        (None, run_end_of(cs, j, CharClass::Blank))
    } else if c == '#' {
        (None, run_end_of(cs, j, CharClass::NotNewline))
    } else if c == '{' {
        (Some(Token::BraceOpen), j)
    } else if c == '}' {
        (Some(Token::BraceClose), j)
    } else if c == '[' {
        (Some(Token::BracketOpen), j)
    } else if c == ']' {
        (Some(Token::BracketClose), j)
    } else if c == ',' {
        (Some(Token::Comma), j)
    } else if c == ':' {
        (Some(Token::Colon), j)
    } else if c == 't' {
        let mut w: Vec<char> = Vec::new();
        w.push('t');
        w.push('r');
        w.push('u');
        w.push('e');
        assert(w@ =~= seq!['t', 'r', 'u', 'e']);
        keyword_of(cs, i, &w, Token::True)
    } else if c == 'f' {
        let mut w: Vec<char> = Vec::new();
        w.push('f');
        w.push('a');
        w.push('l');
        w.push('s');
        w.push('e');
        assert(w@ =~= seq!['f', 'a', 'l', 's', 'e']);
        keyword_of(cs, i, &w, Token::False)
    } else if c == '+' || c == '-' {
        if j < n && is_digit_of(cs[j]) {
            (Some(Token::Integer), run_end_of(cs, j, CharClass::Digit))
        } else {
            (Some(Token::Error), j)
        }
    } else if is_digit_of(c) {
        assert(in_class(c, CharClass::Digit));
        (Some(Token::Integer), run_end_of(cs, j, CharClass::Digit))
    } else if c == '"' {
        match string_end_of(cs, j) {
            Some(e) => (Some(Token::String), e),
            None => (Some(Token::Error), n),
        }
    } else {
        (Some(Token::Error), j)
    }
}

/// The tokens of `cs` with byte spans, as the lexer gives them.
pub open spec fn lexed(cs: Seq<char>, toks: Seq<SpannedToken<Token>>) -> bool {
    spans_match(cs, toks, spec_lex(cs))
}

/// The tokens of `source`, with the byte ranges that they cover.
pub fn lex(source: &str) -> (res: Vec<SpannedToken<Token>>)
    requires
        byte_len(source@) <= usize::MAX,
    ensures
        lexed(source@, res@),
{
    lex_ranges(source).0
}

/// The tokens of `source` with the byte ranges that they cover, and the
/// character ranges.
pub fn lex_ranges(source: &str) -> (res: (Vec<SpannedToken<Token>>, Vec<(usize, usize)>))
    requires
        byte_len(source@) <= usize::MAX,
    ensures
        lexed(source@, res.0@),
        res.1@.len() == res.0@.len(),
        forall|k: int|
            0 <= k < res.1@.len() ==> (#[trigger] res.1@[k]).0 == spec_lex(source@)[k].1
                && res.1@[k].1 == spec_lex(source@)[k].2,
{
    let cs = chars_of(source);
    let n = cs.len();
    let ghost all = spec_lex(cs@);
    let ghost mut done: Seq<CharToken> = Seq::empty();
    let mut res: Vec<SpannedToken<Token>> = Vec::new();
    let mut ranges: Vec<(usize, usize)> = Vec::new();
    let mut i: usize = 0;
    let mut pos: usize = 0;
    assert(cs@.take(0) =~= Seq::<char>::empty());
    while i < n
        invariant
            n == cs@.len(),
            cs@ == source@,
            byte_len(cs@) <= usize::MAX,
            i <= n,
            pos == byte_len(cs@.take(i as int)),
            all == spec_lex(cs@),
            all == done + lex_from(cs@, i as int),
            res@.len() == done.len(),
            ranges@.len() == done.len(),
            forall|k: int|
                0 <= k < done.len() ==> (#[trigger] ranges@[k]).0 == done[k].1 && ranges@[k].1
                    == done[k].2,
            forall|k: int|
                0 <= k < done.len() ==> {
                    let (t, s, e) = #[trigger] done[k];
                    &&& res@[k].token == t
                    &&& res@[k].span.start == byte_len(cs@.take(s))
                    &&& res@[k].span.end == byte_len(cs@.take(e))
                },
        decreases n - i,
    {
        let (tok, e) = scan_of(&cs, i);
        let start = pos;
        let mut j = i;
        while j < e
            invariant
                i <= j <= e <= n,
                n == cs@.len(),
                byte_len(cs@) <= usize::MAX,
                pos == byte_len(cs@.take(j as int)),
            decreases e - j,
        {
            proof {
                lemma_byte_len_take(cs@, j as int);
                lemma_byte_len_mono(cs@, j + 1);
            }
            pos = pos + utf8_len_of(cs[j]);
            j = j + 1;
        }
        proof {
            let ghost old_done = done;
            match tok {
                None => {},
                Some(t) => {
                    done = done.push((t, i as int, e as int));
                },
            }
            match tok {
                None => {},
                Some(t) => {
                    assert(old_done + (seq![(t, i as int, e as int)] + lex_from(cs@, e as int))
                        =~= done + lex_from(cs@, e as int));
                },
            }
        }
        match tok {
            None => {},
            Some(t) => {
                res.push(SpannedToken { token: t, span: start..pos });
                ranges.push((i, e));
            },
        }
        i = e;
    }
    assert(lex_from(cs@, n as int) =~= Seq::<CharToken>::empty());
    assert(done =~= all);
    (res, ranges)
}

/// Every token is what the scan finds at its start.
pub proof fn lemma_lex_scan(cs: Seq<char>, i: int)
    requires
        0 <= i,
    ensures
        forall|k: int|
            0 <= k < lex_from(cs, i).len() ==> (#[trigger] lex_from(cs, i)[k]).1 < cs.len() && scan(
                cs,
                lex_from(cs, i)[k].1,
            ) == (Some(lex_from(cs, i)[k].0), lex_from(cs, i)[k].2),
    decreases cs.len() - i,
{
    if i < cs.len() {
        let (t, e) = scan(cs, i);
        if e > i && e <= cs.len() {
            lemma_lex_scan(cs, e);
            let rest = lex_from(cs, e);
            match t {
                None => {},
                Some(tok) => {
                    let all = lex_from(cs, i);
                    assert(all == seq![(tok, i, e)] + rest);
                    assert forall|k: int| 0 <= k < all.len() implies (#[trigger] all[k]).1 < cs.len()
                        && scan(cs, all[k].1) == (Some(all[k].0), all[k].2) by {
                        if k > 0 {
                            assert(all[k] == rest[k - 1]);
                        }
                    }
                },
            }
        }
    }
}

/// Every character of a run belongs to its class.
pub proof fn lemma_run_end_class(cs: Seq<char>, i: int, class: CharClass)
    requires
        0 <= i,
    ensures
        forall|j: int| i <= j < run_end(cs, i, class) ==> in_class(#[trigger] cs[j], class),
    decreases cs.len() - i,
{
    if i < cs.len() && in_class(cs[i], class) {
        lemma_run_end_class(cs, i + 1, class);
    }
}

} // verus!
