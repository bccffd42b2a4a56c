//! The tokens of grammar files and the lexer that finds them: the longest
//! match wins, keywords win over identifiers of the same length, blanks and
//! line comments are skipped, and anything else is an error token.

use crate::pretty_error::locations::{byte_len, lemma_byte_len_mono, lemma_byte_len_take, utf8_len_of};
use crate::text::chars::chars_of;
use crate::toktok::token::spans_match;
use crate::toktok::SpannedToken;
use vstd::prelude::*;

verus! {

/// A token of a grammar file.
#[derive(Debug, Clone, Copy, PartialEq, Eq, Structural, PartialOrd, Ord, Hash)]
pub enum Token {
    Semicolon,
    DoubleColon,
    Colon,
    Comma,
    LeftParen,
    RightParen,
    LeftAngle,
    RightAngle,
    FatArrow,
    Arrow,
    SingleQuote,
    Assign,
    QuestionMark,
    KeywordPublic,
    KeywordUse,
    KeywordAs,
    OperatorChoice,
    Identifier,
    TokenShort,
    RustBlock,
    Error,
}

pub open spec fn is_ident_start(c: char) -> bool {
    ('a' <= c && c <= 'z') || ('A' <= c && c <= 'Z') || c == '_'
}

pub open spec fn is_ident_char(c: char) -> bool {
    is_ident_start(c) || ('0' <= c && c <= '9')
}

pub open spec fn is_blank(c: char) -> bool {
    c == ' ' || c == '\t' || c == '\r' || c == '\n' || c == '\x0c'
}

/// The classes of characters that tokens run over.
#[derive(Debug, Clone, Copy, PartialEq, Eq, Structural)]
pub enum CharClass {
    Blank,
    NotNewline,
    NotQuote,
    IdentChar,
}

/// Whether `c` belongs to the class.
pub open spec fn in_class(c: char, class: CharClass) -> bool {
    match class {
        CharClass::Blank => is_blank(c),
        CharClass::NotNewline => c != '\r' && c != '\n',
        CharClass::NotQuote => c != '"',
        CharClass::IdentChar => is_ident_char(c),
    }
}

fn in_class_of(c: char, class: CharClass) -> (res: bool)
    ensures
        res == in_class(c, class),
{
    match class {
        CharClass::Blank => c == ' ' || c == '\t' || c == '\r' || c == '\n' || c == '\x0c',
        CharClass::NotNewline => c != '\r' && c != '\n',
        CharClass::NotQuote => c != '"',
        CharClass::IdentChar => ('a' <= c && c <= 'z') || ('A' <= c && c <= 'Z') || c == '_' || (
        '0' <= c && c <= '9'),
    }
}

/// The end of the run of characters of `class` from `i` on.
pub open spec fn run_end(cs: Seq<char>, i: int, class: CharClass) -> int
    decreases cs.len() - i,
{
    if i < 0 || i >= cs.len() || !in_class(cs[i], class) {
        i
    } else {
        run_end(cs, i + 1, class)
    }
}

/// The end of a Rust block whose braces are open `depth` deep at `i`: just
/// after the brace that closes it, if there is one.
pub open spec fn block_end(cs: Seq<char>, i: int, depth: int) -> Option<int>
    decreases cs.len() - i,
{
    if i < 0 || i >= cs.len() {
        None
    } else {
        let d = if cs[i] == '{' {
            depth + 1
        } else if cs[i] == '}' {
            depth - 1
        } else {
            depth
        };
        if d == 0 {
            Some(i + 1)
        } else {
            block_end(cs, i + 1, d)
        }
    }
}

/// The character at `i`, if there is one.
pub open spec fn char_at(cs: Seq<char>, i: int) -> Option<char> {
    if 0 <= i < cs.len() {
        Some(cs[i])
    } else {
        None
    }
}

/// The token of a word: a keyword, else an identifier.
pub open spec fn word_token(w: Seq<char>) -> Token {
    if w == seq!['p', 'u', 'b'] {
        Token::KeywordPublic
    } else if w == seq!['u', 's', 'e'] {
        Token::KeywordUse
    } else if w == seq!['a', 's'] {
        Token::KeywordAs
    } else {
        Token::Identifier
    }
}

/// What starts at `i < cs.len()`: a token (or nothing, for blanks and
/// comments) and where it ends.
pub open spec fn scan(cs: Seq<char>, i: int) -> (Option<Token>, int) {
    let c = cs[i];
    let next = char_at(cs, i + 1);
    if is_blank(c) {
        (None, run_end(cs, i, CharClass::Blank))
    } else if c == '/' {
        if next == Some('/') {
            (None, run_end(cs, i + 2, CharClass::NotNewline))
        } else {
            (Some(Token::Error), i + 1)
        }
    } else if c == ';' {
        (Some(Token::Semicolon), i + 1)
    } else if c == ':' {
        if next == Some(':') {
            (Some(Token::DoubleColon), i + 2)
        } else {
            (Some(Token::Colon), i + 1)
        }
    } else if c == ',' {
        (Some(Token::Comma), i + 1)
    } else if c == '(' {
        (Some(Token::LeftParen), i + 1)
    } else if c == ')' {
        (Some(Token::RightParen), i + 1)
    } else if c == '<' {
        (Some(Token::LeftAngle), i + 1)
    } else if c == '>' {
        (Some(Token::RightAngle), i + 1)
    } else if c == '=' {
        if next == Some('>') {
            (Some(Token::FatArrow), i + 2)
        } else {
            (Some(Token::Assign), i + 1)
        }
    } else if c == '-' {
        if next == Some('>') {
            (Some(Token::Arrow), i + 2)
        } else {
            (Some(Token::Error), i + 1)
        }
    } else if c == '\'' {
        (Some(Token::SingleQuote), i + 1)
    } else if c == '?' {
        (Some(Token::QuestionMark), i + 1)
    } else if c == '|' {
        (Some(Token::OperatorChoice), i + 1)
    } else if c == '"' {
        let q = run_end(cs, i + 1, CharClass::NotQuote);
        if q < cs.len() {
            (Some(Token::TokenShort), q + 1)
        } else {
            (Some(Token::Error), cs.len() as int)
        }
    } else if c == '{' {
        match block_end(cs, i + 1, 1) {
            Some(e) => (Some(Token::RustBlock), e),
            None => (Some(Token::Error), i + 1),
        }
    } else if is_ident_start(c) {
        let e = run_end(cs, i + 1, CharClass::IdentChar);
        (Some(word_token(cs.subrange(i, e))), e)
    } else {
        (Some(Token::Error), i + 1)
    }
}

/// A token with the character range it covers.
pub type CharToken = (Token, int, int);

/// The tokens from `i` on.
pub open spec fn lex_from(cs: Seq<char>, i: int) -> Seq<CharToken>
    decreases cs.len() - i,
{
    if i < 0 || i >= cs.len() {
        Seq::empty()
    } else {
        let (t, e) = scan(cs, i);
        if e <= i || e > cs.len() {
            Seq::empty()
        } else {
            match t {
                None => lex_from(cs, e),
                Some(tok) => seq![(tok, i, e)] + lex_from(cs, e),
            }
        }
    }
}

/// The tokens of `cs`, with character ranges.
pub open spec fn spec_lex(cs: Seq<char>) -> Seq<CharToken> {
    lex_from(cs, 0)
}

/// The tokens of `cs` with byte spans, as the lexer gives them.
pub open spec fn lexed(cs: Seq<char>, toks: Seq<SpannedToken<Token>>) -> bool {
    spans_match(cs, toks, spec_lex(cs))
}

proof fn lemma_run_end(cs: Seq<char>, i: int, class: CharClass)
    requires
        0 <= i,
    ensures
        i <= run_end(cs, i, class),
        i <= cs.len() ==> run_end(cs, i, class) <= cs.len(),
    decreases cs.len() - i,
{
    if i < cs.len() && in_class(cs[i], class) {
        lemma_run_end(cs, i + 1, class);
    }
}

fn run_end_of(cs: &Vec<char>, i: usize, class: CharClass) -> (res: usize)
    requires
        i <= cs@.len(),
    ensures
        res == run_end(cs@, i as int, class),
        i <= res <= cs@.len(),
{
    let mut j = i;
    proof {
        lemma_run_end(cs@, i as int, class);
    }
    while j < cs.len()
        invariant
            i <= j <= cs@.len(),
            run_end(cs@, j as int, class) == run_end(cs@, i as int, class),
        decreases cs@.len() - j,
    {
        if !in_class_of(cs[j], class) {
            return j;
        }
        j = j + 1;
    }
    j
}

fn block_end_of(cs: &Vec<char>, i: usize) -> (res: Option<usize>)
    requires
        1 <= i <= cs@.len(),
    ensures
        res matches Some(e) ==> block_end(cs@, i as int, 1) == Some(e as int) && i < e <= cs@.len(),
        res is None ==> block_end(cs@, i as int, 1) is None,
{
    let n = cs.len();
    let mut j = i;
    let mut depth: usize = 1;
    while j < n
        invariant
            n == cs@.len(),
            1 <= i <= j <= n,
            1 <= depth <= j - i + 1,
            block_end(cs@, j as int, depth as int) == block_end(cs@, i as int, 1),
        decreases cs@.len() - j,
    {
        let c = cs[j];
        if c == '{' {
            depth = depth + 1;
        } else if c == '}' {
            depth = depth - 1;
        }
        if depth == 0 {
            return Some(j + 1);
        }
        j = j + 1;
    }
    None
}

fn word_token_of(cs: &Vec<char>, i: usize, e: usize) -> (res: Token)
    requires
        i <= e <= cs@.len(),
    ensures
        res == word_token(cs@.subrange(i as int, e as int)),
{
    let ghost w = cs@.subrange(i as int, e as int);
    let n = e - i;
    let is_pub = n == 3 && cs[i] == 'p' && cs[i + 1] == 'u' && cs[i + 2] == 'b';
    let is_use = n == 3 && cs[i] == 'u' && cs[i + 1] == 's' && cs[i + 2] == 'e';
    let is_as = n == 2 && cs[i] == 'a' && cs[i + 1] == 's';
    proof {
        if is_pub {
            assert(w =~= seq!['p', 'u', 'b']);
        }
        if w == seq!['p', 'u', 'b'] {
            assert(w.len() == 3 && w[0] == 'p' && w[1] == 'u' && w[2] == 'b');
            assert(is_pub);
        }
        if is_use {
            assert(w =~= seq!['u', 's', 'e']);
        }
        if w == seq!['u', 's', 'e'] {
            assert(w.len() == 3 && w[0] == 'u' && w[1] == 's' && w[2] == 'e');
            assert(is_use);
        }
        if is_as {
            assert(w =~= seq!['a', 's']);
        }
        if w == seq!['a', 's'] {
            assert(w.len() == 2 && w[0] == 'a' && w[1] == 's');
            assert(is_as);
        }
    }
    if is_pub {
        Token::KeywordPublic
    } else if is_use {
        Token::KeywordUse
    } else if is_as {
        Token::KeywordAs
    } else {
        Token::Identifier
    }
}

fn next_is(cs: &Vec<char>, i: usize, c: char) -> (res: bool)
    ensures
        res == (char_at(cs@, i as int) == Some(c)),
        res ==> i < cs@.len(),
{
    i < cs.len() && cs[i] == c
}

/// What starts at `i`, and where it ends.
fn scan_of(cs: &Vec<char>, i: usize) -> (res: (Option<Token>, usize))
    requires
        i < cs@.len(),
    ensures
        (res.0, res.1 as int) == scan(cs@, i as int),
        i < res.1 <= cs@.len(),
{
    let n = cs.len();
    let c = cs[i];
    let j = i + 1;
    if c == ' ' || c == '\t' || c == '\r' || c == '\n' || c == '\x0c' {
        assert(in_class(c, CharClass::Blank));
        (None, run_end_of(cs, j, CharClass::Blank))
    } else if c == '/' {
        if next_is(cs, j, '/') {
            (None, run_end_of(cs, i + 2, CharClass::NotNewline))
        } else {
            (Some(Token::Error), j)
        }
    } else if c == ';' {
        (Some(Token::Semicolon), j)
    } else if c == ':' {
        if next_is(cs, j, ':') {
            (Some(Token::DoubleColon), i + 2)
        } else {
            (Some(Token::Colon), j)
        }
    } else if c == ',' {
        (Some(Token::Comma), j)
    } else if c == '(' {
        (Some(Token::LeftParen), j)
    } else if c == ')' {
        (Some(Token::RightParen), j)
    } else if c == '<' {
        (Some(Token::LeftAngle), j)
    } else if c == '>' {
        (Some(Token::RightAngle), j)
    } else if c == '=' {
        if next_is(cs, j, '>') {
            (Some(Token::FatArrow), i + 2)
        } else {
            (Some(Token::Assign), j)
        }
    } else if c == '-' {
        if next_is(cs, j, '>') {
            (Some(Token::Arrow), i + 2)
        } else {
            (Some(Token::Error), j)
        }
    } else if c == '\'' {
        (Some(Token::SingleQuote), j)
    } else if c == '?' {
        (Some(Token::QuestionMark), j)
    } else if c == '|' {
        (Some(Token::OperatorChoice), j)
    } else if c == '"' {
        let q = run_end_of(cs, j, CharClass::NotQuote);
        if q < cs.len() {
            (Some(Token::TokenShort), q + 1)
        } else {
            (Some(Token::Error), cs.len())
        }
    } else if c == '{' {
        match block_end_of(cs, j) {
            Some(e) => (Some(Token::RustBlock), e),
            None => (Some(Token::Error), j),
        }
    } else if ('a' <= c && c <= 'z') || ('A' <= c && c <= 'Z') || c == '_' {
        let e = run_end_of(cs, j, CharClass::IdentChar);
        (Some(word_token_of(cs, i, e)), e)
    } else {
        (Some(Token::Error), j)
    }
}

/// The tokens of `source`, with the byte ranges that they cover.
pub fn lex(source: &str) -> (res: Vec<SpannedToken<Token>>)
    requires
        byte_len(source@) <= usize::MAX,
    ensures
        lexed(source@, res@),
{
    lex_ranges(source).0
}

/// The tokens of `source` with the byte ranges that they cover, and the
/// character ranges.
pub fn lex_ranges(source: &str) -> (res: (Vec<SpannedToken<Token>>, Vec<(usize, usize)>))
    requires
        byte_len(source@) <= usize::MAX,
    ensures
        lexed(source@, res.0@),
        res.1@.len() == res.0@.len(),
        forall|k: int|
            0 <= k < res.1@.len() ==> (#[trigger] res.1@[k]).0 == spec_lex(source@)[k].1
                && res.1@[k].1 == spec_lex(source@)[k].2,
{
    let cs = chars_of(source);
    let n = cs.len();
    let ghost all = spec_lex(cs@);
    let ghost mut done: Seq<CharToken> = Seq::empty();
    let mut res: Vec<SpannedToken<Token>> = Vec::new();
    let mut ranges: Vec<(usize, usize)> = Vec::new();
    let mut i: usize = 0;
    let mut pos: usize = 0;
    assert(cs@.take(0) =~= Seq::<char>::empty());
    while i < n
        invariant
            n == cs@.len(),
            cs@ == source@,
            byte_len(cs@) <= usize::MAX,
            i <= n,
            pos == byte_len(cs@.take(i as int)),
            all == spec_lex(cs@),
            all == done + lex_from(cs@, i as int),
            res@.len() == done.len(),
            ranges@.len() == done.len(),
            forall|k: int|
                0 <= k < done.len() ==> (#[trigger] ranges@[k]).0 == done[k].1 && ranges@[k].1
                    == done[k].2,
            forall|k: int|
                0 <= k < done.len() ==> {
                    let (t, s, e) = #[trigger] done[k];
                    &&& res@[k].token == t
                    &&& res@[k].span.start == byte_len(cs@.take(s))
                    &&& res@[k].span.end == byte_len(cs@.take(e))
                },
        decreases n - i,
    {
        let (tok, e) = scan_of(&cs, i);
        let start = pos;
        let mut j = i;
        while j < e
            invariant
                i <= j <= e <= n,
                n == cs@.len(),
                byte_len(cs@) <= usize::MAX,
                pos == byte_len(cs@.take(j as int)),
            decreases e - j,
        {
            proof {
                lemma_byte_len_take(cs@, j as int);
                lemma_byte_len_mono(cs@, j + 1);
            }
            pos = pos + utf8_len_of(cs[j]);
            j = j + 1;
        }
        proof {
            let ghost old_done = done;
            match tok {
                None => {},
                Some(t) => {
                    done = done.push((t, i as int, e as int));
                },
            }
            assert(lex_from(cs@, i as int) == match tok {
                None => lex_from(cs@, e as int),
                Some(t) => seq![(t, i as int, e as int)] + lex_from(cs@, e as int),
            });
            match tok {
                None => {},
                Some(t) => {
                    assert(old_done + (seq![(t, i as int, e as int)] + lex_from(cs@, e as int))
                        =~= done + lex_from(cs@, e as int));
                },
            }
        }
        match tok {
            None => {},
            Some(t) => {
                res.push(SpannedToken { token: t, span: start..pos });
                ranges.push((i, e));
            },
        }
        i = e;
    }
    assert(lex_from(cs@, n as int) =~= Seq::<CharToken>::empty());
    assert(done =~= all);
    (res, ranges)
}

/// The tokens lie in order within the text, each covering at least one
/// character.
pub proof fn lemma_lex_ordered(cs: Seq<char>, i: int)
    requires
        0 <= i,
    ensures
        forall|k: int|
            0 <= k < lex_from(cs, i).len() ==> i <= (#[trigger] lex_from(cs, i)[k]).1 < lex_from(
                cs,
                i,
            )[k].2 <= cs.len(),
        forall|k1: int, k2: int|
            0 <= k1 < k2 < lex_from(cs, i).len() ==> (#[trigger] lex_from(cs, i)[k1]).2 <= (
            #[trigger] lex_from(cs, i)[k2]).1,
    decreases cs.len() - i,
{
    if i < cs.len() {
        let (t, e) = scan(cs, i);
        if e > i && e <= cs.len() {
            lemma_lex_ordered(cs, e);
            let rest = lex_from(cs, e);
            match t {
                None => {},
                Some(tok) => {
                    let all = lex_from(cs, i);
                    assert(all == seq![(tok, i, e)] + rest);
                    assert forall|k: int| 0 <= k < all.len() implies i <= (#[trigger] all[k]).1
                        < all[k].2 <= cs.len() by {
                        if k > 0 {
                            assert(all[k] == rest[k - 1]);
                        }
                    }
                    assert forall|k1: int, k2: int| 0 <= k1 < k2 < all.len() implies (
                    #[trigger] all[k1]).2 <= (#[trigger] all[k2]).1 by {
                        assert(all[k2] == rest[k2 - 1]);
                        if k1 > 0 {
                            assert(all[k1] == rest[k1 - 1]);
                        }
                    }
                },
            }
        }
    }
}

} // verus!
