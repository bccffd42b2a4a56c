//! JSON values:
//!
//! ```text
//! json   := value EOI
//! value  := object | array | TRUE | FALSE | INTEGER | STRING
//! object := "{" (STRING ":" value ("," STRING ":" value)*)? "}"
//! array  := "[" (value ("," value)*)? "]"
//! ```
//!
//! An integer is read without its underscores and must fit in 64 signed
//! bits; a string keeps the text between its quotes as written, escapes
//! included. A parse that fails reports the first token where the value
//! cannot go on, with the tokens that could stand there.

use super::lexer::{lemma_lex_ordered, lex_ranges, lexed, spec_lex, CharToken, Token};
use crate::pretty_error::locations::byte_len;
use crate::pretty_error::Span;
use crate::text::chars::slice_chars;
use crate::toktok::error::{ErrorView, KindView};
use crate::toktok::token::{fail_error, fail_view};
use crate::toktok::{Error, SpannedToken, TokenOrEoi};
use vstd::prelude::*;

verus! {

/// A JSON value.
#[derive(Debug)]
pub enum JsonValue {
    Bool(bool),
    Integer(i64),
    String(String),
    Array(Vec<JsonValue>),
    Object(Vec<(String, JsonValue)>),
}

/// The outcome of reading tokens: a result, or the index of the token
/// where the value cannot go on with the tokens that could stand there,
/// or the index of an integer that does not fit.
pub enum JParsed<A> {
    Done(A),
    Fail(int, Seq<TokenOrEoi<Token>>),
    Overflow(int),
}

/// A value by token indices: integers and strings by their token, object
/// keys by theirs.
pub enum JView {
    Bool(bool),
    Int(int),
    Str(int),
    Arr(Seq<JView>),
    Obj(Seq<(int, JView)>),
}

pub open spec fn tok(t: Token) -> TokenOrEoi<Token> {
    TokenOrEoi::Token(t)
}

/// Token `i` is there and is `t`.
pub open spec fn at(toks: Seq<CharToken>, i: int, t: Token) -> bool {
    0 <= i < toks.len() && toks[i].0 == t
}

/// The number written by decimal digits, underscores skipped.
pub open spec fn digits_value(s: Seq<char>) -> int
    decreases s.len(),
{
    if s.len() == 0 {
        0
    } else if s.last() == '_' {
        digits_value(s.drop_last())
    } else {
        digits_value(s.drop_last()) * 10 + (s.last() as int - '0' as int)
    }
}

/// The number written by an integer token.
pub open spec fn int_value(s: Seq<char>) -> int {
    if s.len() > 0 && s[0] == '-' {
        -digits_value(s.drop_first())
    } else if s.len() > 0 && s[0] == '+' {
        digits_value(s.drop_first())
    } else {
        digits_value(s)
    }
}

/// The text of token `i`.
pub open spec fn tok_text(cs: Seq<char>, toks: Seq<CharToken>, i: int) -> Seq<char> {
    cs.subrange(toks[i].1, toks[i].2)
}

/// The text of string token `i` between its quotes.
pub open spec fn str_text(cs: Seq<char>, toks: Seq<CharToken>, i: int) -> Seq<char> {
    cs.subrange(toks[i].1 + 1, toks[i].2 - 1)
}

/// The tokens that can start a value.
pub open spec fn value_starts() -> Seq<TokenOrEoi<Token>> {
    seq![
        tok(Token::BraceOpen),
        tok(Token::BracketOpen),
        tok(Token::True),
        tok(Token::False),
        tok(Token::Integer),
        tok(Token::String),
    ]
}

/// Token `i` can start a value.
pub open spec fn starts_value(toks: Seq<CharToken>, i: int) -> bool {
    at(toks, i, Token::BraceOpen) || at(toks, i, Token::BracketOpen) || at(toks, i, Token::True)
        || at(toks, i, Token::False) || at(toks, i, Token::Integer) || at(toks, i, Token::String)
}

/// A value from token `i`, and where it ends.
pub open spec fn value_from(cs: Seq<char>, toks: Seq<CharToken>, i: int) -> JParsed<(JView, int)>
    decreases toks.len() - i, 0int,
{
    if at(toks, i, Token::BraceOpen) {
        match object_from(cs, toks, i + 1) {
            JParsed::Done((ps, close)) => JParsed::Done((JView::Obj(ps), close + 1)),
            JParsed::Fail(j, x) => JParsed::Fail(j, x),
            JParsed::Overflow(j) => JParsed::Overflow(j),
        }
    } else if at(toks, i, Token::BracketOpen) {
        match array_from(cs, toks, i + 1) {
            JParsed::Done((vs, close)) => JParsed::Done((JView::Arr(vs), close + 1)),
            JParsed::Fail(j, x) => JParsed::Fail(j, x),
            JParsed::Overflow(j) => JParsed::Overflow(j),
        }
    } else if at(toks, i, Token::True) {
        JParsed::Done((JView::Bool(true), i + 1))
    } else if at(toks, i, Token::False) {
        JParsed::Done((JView::Bool(false), i + 1))
    } else if at(toks, i, Token::Integer) {
        let v = int_value(tok_text(cs, toks, i));
        if i64::MIN <= v <= i64::MAX {
            JParsed::Done((JView::Int(i), i + 1))
        } else {
            JParsed::Overflow(i)
        }
    } else if at(toks, i, Token::String) {
        JParsed::Done((JView::Str(i), i + 1))
    } else {
        JParsed::Fail(i, value_starts())
    }
}

/// The members of an object from token `i`, just after `{`: the members
/// and the index of the closing `}`.
pub open spec fn object_from(cs: Seq<char>, toks: Seq<CharToken>, i: int) -> JParsed<(Seq<(int, JView)>, int)>
    decreases toks.len() - i, 2int,
{
    if i < 0 || i > toks.len() {
        JParsed::Fail(i, Seq::empty())
    } else if at(toks, i, Token::BraceClose) {
        JParsed::Done((Seq::empty(), i))
    } else if !at(toks, i, Token::String) {
        JParsed::Fail(i, seq![tok(Token::String), tok(Token::BraceClose)])
    } else {
        members_from(cs, toks, i)
    }
}

/// Members from the key at token `i`, and the index of the closing `}`.
pub open spec fn members_from(cs: Seq<char>, toks: Seq<CharToken>, i: int) -> JParsed<(Seq<(int, JView)>, int)>
    decreases toks.len() - i, 1int,
{
    if !at(toks, i, Token::String) {
        JParsed::Fail(i, seq![tok(Token::String)])
    } else if !at(toks, i + 1, Token::Colon) {
        JParsed::Fail(i + 1, seq![tok(Token::Colon)])
    } else {
        match value_from(cs, toks, i + 2) {
            JParsed::Fail(j, x) => JParsed::Fail(j, x),
            JParsed::Overflow(j) => JParsed::Overflow(j),
            JParsed::Done((v, e)) => if e <= i + 2 || e > toks.len() {
                JParsed::Fail(i, Seq::empty())
            } else if at(toks, e, Token::BraceClose) {
                JParsed::Done((seq![(i, v)], e))
            } else if at(toks, e, Token::Comma) {
                match members_from(cs, toks, e + 1) {
                    JParsed::Done((rest, close)) => JParsed::Done((seq![(i, v)] + rest, close)),
                    JParsed::Fail(j, x) => JParsed::Fail(j, x),
                    JParsed::Overflow(j) => JParsed::Overflow(j),
                }
            } else {
                JParsed::Fail(e, seq![tok(Token::Comma), tok(Token::BraceClose)])
            },
        }
    }
}

/// The elements of an array from token `i`, just after `[`: the elements
/// and the index of the closing `]`.
pub open spec fn array_from(cs: Seq<char>, toks: Seq<CharToken>, i: int) -> JParsed<(Seq<JView>, int)>
    decreases toks.len() - i, 2int,
{
    if i < 0 || i > toks.len() {
        JParsed::Fail(i, Seq::empty())
    } else if at(toks, i, Token::BracketClose) {
        JParsed::Done((Seq::empty(), i))
    } else if !starts_value(toks, i) {
        JParsed::Fail(i, value_starts().push(tok(Token::BracketClose)))
    } else {
        elements_from(cs, toks, i)
    }
}

/// Elements from the value at token `i`, and the index of the closing `]`.
pub open spec fn elements_from(cs: Seq<char>, toks: Seq<CharToken>, i: int) -> JParsed<(Seq<JView>, int)>
    decreases toks.len() - i, 1int,
{
    if i < 0 || i > toks.len() {
        JParsed::Fail(i, Seq::empty())
    } else {
        match value_from(cs, toks, i) {
            JParsed::Fail(j, x) => JParsed::Fail(j, x),
            JParsed::Overflow(j) => JParsed::Overflow(j),
            JParsed::Done((v, e)) => if e <= i || e > toks.len() {
                JParsed::Fail(i, Seq::empty())
            } else if at(toks, e, Token::BracketClose) {
                JParsed::Done((seq![v], e))
            } else if at(toks, e, Token::Comma) {
                match elements_from(cs, toks, e + 1) {
                    JParsed::Done((rest, close)) => JParsed::Done((seq![v] + rest, close)),
                    JParsed::Fail(j, x) => JParsed::Fail(j, x),
                    JParsed::Overflow(j) => JParsed::Overflow(j),
                }
            } else {
                JParsed::Fail(e, seq![tok(Token::Comma), tok(Token::BracketClose)])
            },
        }
    }
}

/// A whole document: one value and nothing after it.
pub open spec fn json_from(cs: Seq<char>, toks: Seq<CharToken>) -> JParsed<JView> {
    match value_from(cs, toks, 0) {
        JParsed::Done((v, e)) => if e == toks.len() {
            JParsed::Done(v)
        } else {
            JParsed::Fail(e, seq![TokenOrEoi::Eoi])
        },
        JParsed::Fail(j, x) => JParsed::Fail(j, x),
        JParsed::Overflow(j) => JParsed::Overflow(j),
    }
}

/// The value is the one described, with texts from the source.
pub open spec fn json_ok(v: JsonValue, jv: JView, cs: Seq<char>, toks: Seq<CharToken>) -> bool
    decreases jv,
{
    match jv {
        JView::Bool(b) => v == JsonValue::Bool(b),
        JView::Int(i) => v matches JsonValue::Integer(n) && n == int_value(tok_text(cs, toks, i)),
        JView::Str(i) => v matches JsonValue::String(s) && s@ == str_text(cs, toks, i),
        JView::Arr(js) => v matches JsonValue::Array(vs) && vs@.len() == js.len() && forall|k: int|
            0 <= k < js.len() ==> json_ok(#[trigger] vs@[k], js[k], cs, toks),
        JView::Obj(js) => v matches JsonValue::Object(ps) && ps@.len() == js.len() && forall|k: int|
            0 <= k < js.len() ==> (#[trigger] ps@[k]).0@ == str_text(cs, toks, js[k].0) && json_ok(
                ps@[k].1,
                js[k].1,
                cs,
                toks,
            ),
    }
}

/// `"integer out of range"`
pub open spec fn overflow_message() -> Seq<char> {
    "integer out of range"@
}

/// Why a document could not be read.
enum JFail {
    Fail(usize, Vec<TokenOrEoi<Token>>),
    Overflow(usize),
}

/// The failure matches the spec's.
spec fn fail_ok<A>(f: JFail, p: JParsed<A>) -> bool {
    match p {
        JParsed::Fail(j, x) => f matches JFail::Fail(jj, xx) && jj == j && xx@ == x,
        JParsed::Overflow(j) => f matches JFail::Overflow(jj) && jj == j,
        JParsed::Done(_) => false,
    }
}

/// The source and its tokens.
struct JCtx<'a> {
    source: &'a str,
    cs: Vec<char>,
    ts: Vec<Token>,
    ranges: Vec<(usize, usize)>,
}

impl<'a> JCtx<'a> {
    spec fn toks(&self) -> Seq<CharToken> {
        spec_lex(self.source@)
    }

    spec fn wf(&self) -> bool {
        let toks = self.toks();
        &&& self.cs@ == self.source@
        &&& self.ts@.len() == toks.len()
        &&& self.ts@.len() <= usize::MAX
        &&& forall|t: int| 0 <= t < toks.len() ==> (#[trigger] self.ts@[t]) == toks[t].0
        &&& self.ranges@.len() == toks.len()
        &&& forall|t: int|
            0 <= t < toks.len() ==> (#[trigger] self.ranges@[t]).0 == toks[t].1
                && self.ranges@[t].1 == toks[t].2
        &&& forall|t: int| 0 <= t < toks.len() ==> (#[trigger] toks[t]).1 < toks[t].2 <= self.source@.len()
        &&& forall|t: int|
            0 <= t < toks.len() ==> crate::json::lexer::scan(self.source@, (#[trigger] toks[t]).1)
                == (Some(toks[t].0), toks[t].2)
    }

    fn at_of(&self, i: usize, t: Token) -> (res: bool)
        requires
            self.wf(),
        ensures
            res == at(self.toks(), i as int, t),
            res ==> i < self.ts@.len(),
    {
        i < self.ts.len() && self.ts[i] == t
    }
}

/// The number written by the digits from `a` to before `b`, if it is at
/// most two to the 63.
fn digits_of(cs: &Vec<char>, a: usize, b: usize) -> (res: Option<u64>)
    requires
        a <= b <= cs@.len(),
        forall|j: int| a <= j < b ==> crate::json::lexer::is_digit_or_underscore(#[trigger] cs@[j]),
    ensures
        res matches Some(m) ==> m == digits_value(cs@.subrange(a as int, b as int)) && m <= 0x8000_0000_0000_0000u64,
        res is None ==> digits_value(cs@.subrange(a as int, b as int)) > 0x8000_0000_0000_0000u64,
{
    let mut m: u64 = 0;
    let mut j = a;
    while j < b
        invariant
            a <= j <= b <= cs@.len(),
            forall|k: int| a <= k < b ==> crate::json::lexer::is_digit_or_underscore(#[trigger] cs@[k]),
            m == digits_value(cs@.subrange(a as int, j as int)),
            m <= 0x8000_0000_0000_0000u64,
        decreases b - j,
    {
        let c = cs[j];
        assert(cs@.subrange(a as int, j + 1).drop_last() =~= cs@.subrange(a as int, j as int));
        if c != '_' {
            let d = (c as u32 - '0' as u32) as u64;
            if m > (0x8000_0000_0000_0000u64 - d) / 10 {
                proof {
                    lemma_digits_grow(cs@.subrange(a as int, b as int), j - a + 1);
                    assert(cs@.subrange(a as int, b as int).take(j - a + 1) =~= cs@.subrange(a as int, j + 1));
                }
                return None;
            }
            m = m * 10 + d;
        }
        j = j + 1;
    }
    Some(m)
}

/// Digits after a prefix do not make the number smaller.
proof fn lemma_digits_grow(s: Seq<char>, k: int)
    requires
        0 <= k <= s.len(),
        forall|j: int| 0 <= j < s.len() ==> crate::json::lexer::is_digit_or_underscore(#[trigger] s[j]),
    ensures
        digits_value(s.take(k)) <= digits_value(s),
        digits_value(s.take(k)) >= 0,
    decreases s.len() - k,
{
    if k < s.len() {
        lemma_digits_grow(s, k + 1);
        assert(s.take(k + 1).drop_last() =~= s.take(k));
        lemma_digits_nonneg(s.take(k));
    } else {
        assert(s.take(k) =~= s);
        lemma_digits_nonneg(s);
    }
}

proof fn lemma_digits_nonneg(s: Seq<char>)
    requires
        forall|j: int| 0 <= j < s.len() ==> crate::json::lexer::is_digit_or_underscore(#[trigger] s[j]),
    ensures
        digits_value(s) >= 0,
    decreases s.len(),
{
    if s.len() > 0 {
        lemma_digits_nonneg(s.drop_last());
    }
}

/// The value of integer token `i`, if it fits in 64 signed bits.
fn int_of(ctx: &JCtx, i: usize) -> (res: Option<i64>)
    requires
        ctx.wf(),
        at(ctx.toks(), i as int, Token::Integer),
    ensures
        res matches Some(n) ==> n == int_value(tok_text(ctx.source@, ctx.toks(), i as int)),
        res is None ==> !(i64::MIN <= int_value(tok_text(ctx.source@, ctx.toks(), i as int)) <= i64::MAX),
{
    let ghost toks = ctx.toks();
    let (a, b) = ctx.ranges[i];
    let ghost cs = ctx.source@;
    let ghost text = cs.subrange(a as int, b as int);
    proof {
        assert(crate::json::lexer::scan(cs, toks[i as int].1) == (Some(toks[i as int].0), toks[i as int].2));
        let c = cs[a as int];
        if c == '+' || c == '-' {
            crate::json::lexer::lemma_run_end_class(cs, a + 1, crate::json::lexer::CharClass::Digit);
        } else {
            crate::json::lexer::lemma_run_end_class(cs, a as int, crate::json::lexer::CharClass::Digit);
        }
    }
    let c = ctx.cs[a];
    let negative = c == '-';
    let start = if c == '+' || c == '-' {
        a + 1
    } else {
        a
    };
    proof {
        assert(text.len() > 0);
        assert(text[0] == c);
        if c == '+' || c == '-' {
            assert(text.drop_first() =~= cs.subrange(a + 1, b as int));
        } else {
            assert(text =~= cs.subrange(a as int, b as int));
        }
    }
    let m = match digits_of(&ctx.cs, start, b) {
        None => return None,
        Some(m) => m,
    };
    if negative {
        if m == 0x8000_0000_0000_0000u64 {
            Some(i64::MIN)
        } else {
            Some(-(m as i64))
        }
    } else {
        if m > 0x7fff_ffff_ffff_ffffu64 {
            None
        } else {
            Some(m as i64)
        }
    }
}

fn one(a: Token) -> (res: Vec<TokenOrEoi<Token>>)
    ensures
        res@ == seq![tok(a)],
{
    let mut v = Vec::new();
    v.push(TokenOrEoi::Token(a));
    assert(v@ =~= seq![tok(a)]);
    v
}

fn two(a: Token, b: Token) -> (res: Vec<TokenOrEoi<Token>>)
    ensures
        res@ == seq![tok(a), tok(b)],
{
    let mut v = Vec::new();
    v.push(TokenOrEoi::Token(a));
    v.push(TokenOrEoi::Token(b));
    assert(v@ =~= seq![tok(a), tok(b)]);
    v
}

fn value_start_list(close: bool) -> (res: Vec<TokenOrEoi<Token>>)
    ensures
        res@ == if close {
            value_starts().push(tok(Token::BracketClose))
        } else {
            value_starts()
        },
{
    let mut v = Vec::new();
    v.push(TokenOrEoi::Token(Token::BraceOpen));
    v.push(TokenOrEoi::Token(Token::BracketOpen));
    v.push(TokenOrEoi::Token(Token::True));
    v.push(TokenOrEoi::Token(Token::False));
    v.push(TokenOrEoi::Token(Token::Integer));
    v.push(TokenOrEoi::Token(Token::String));
    if close {
        v.push(TokenOrEoi::Token(Token::BracketClose));
    }
    assert(v@ =~= if close {
        value_starts().push(tok(Token::BracketClose))
    } else {
        value_starts()
    });
    v
}

/// The text between the quotes of string token `i`.
fn str_of(ctx: &JCtx, i: usize) -> (res: String)
    requires
        ctx.wf(),
        at(ctx.toks(), i as int, Token::String),
    ensures
        res@ == str_text(ctx.source@, ctx.toks(), i as int),
{
    let (a, b) = ctx.ranges[i];
    proof {
        let cs = ctx.source@;
        let toks = ctx.toks();
        assert(crate::json::lexer::scan(cs, toks[i as int].1) == (Some(toks[i as int].0), toks[i as int].2));
        assert(cs[a as int] == '"');
        lemma_string_end(cs, a + 1);
    }
    slice_chars(&ctx.cs, a + 1, b - 1)
}

/// A string ends after its opening quote, with a closing quote.
proof fn lemma_string_end(cs: Seq<char>, j: int)
    requires
        0 <= j,
    ensures
        crate::json::lexer::string_end(cs, j) matches Some(e) ==> j < e <= cs.len() && cs[e - 1] == '"',
    decreases cs.len() - j,
{
    if j < cs.len() && cs[j] != '"' {
        if cs[j] == '\\' {
            if j + 1 < cs.len() {
                lemma_string_end(cs, j + 2);
            }
        } else {
            lemma_string_end(cs, j + 1);
        }
    }
}

/// Glues parsed items in front of what the rest gives.
spec fn glue<A>(done: Seq<A>, rest: JParsed<(Seq<A>, int)>) -> JParsed<(Seq<A>, int)> {
    match rest {
        JParsed::Done((r, k)) => JParsed::Done((done + r, k)),
        JParsed::Fail(j, x) => JParsed::Fail(j, x),
        JParsed::Overflow(j) => JParsed::Overflow(j),
    }
}

fn value_of(ctx: &JCtx, i: usize) -> (res: Result<(JsonValue, usize), JFail>)
    requires
        ctx.wf(),
    ensures
        res matches Err(JFail::Overflow(j)) ==> j < ctx.ts@.len(),
        match value_from(ctx.source@, ctx.toks(), i as int) {
            JParsed::Done((jv, e)) => res matches Ok((v, ee)) && ee == e && json_ok(v, jv, ctx.source@, ctx.toks()),
            p => res matches Err(f) && fail_ok(f, p),
        },
    decreases ctx.ts@.len() - i, 0int,
{
    if ctx.at_of(i, Token::BraceOpen) {
        let (ps, close) = match object_of(ctx, i + 1) {
            Err(f) => return Err(f),
            Ok(r) => r,
        };
        return Ok((JsonValue::Object(ps), close + 1));
    }
    if ctx.at_of(i, Token::BracketOpen) {
        let (vs, close) = match array_of(ctx, i + 1) {
            Err(f) => return Err(f),
            Ok(r) => r,
        };
        return Ok((JsonValue::Array(vs), close + 1));
    }
    if ctx.at_of(i, Token::True) {
        return Ok((JsonValue::Bool(true), i + 1));
    }
    if ctx.at_of(i, Token::False) {
        return Ok((JsonValue::Bool(false), i + 1));
    }
    if ctx.at_of(i, Token::Integer) {
        return match int_of(ctx, i) {
            Some(n) => Ok((JsonValue::Integer(n), i + 1)),
            None => Err(JFail::Overflow(i)),
        };
    }
    if ctx.at_of(i, Token::String) {
        return Ok((JsonValue::String(str_of(ctx, i)), i + 1));
    }
    Err(JFail::Fail(i, value_start_list(false)))
}

/// A closing brace or bracket that ends members or elements is a token.
proof fn lemma_members_close(cs: Seq<char>, toks: Seq<CharToken>, i: int)
    ensures
        members_from(cs, toks, i) matches JParsed::Done((ps, c)) ==> i <= c < toks.len(),
    decreases toks.len() - i,
{
    if at(toks, i, Token::String) && at(toks, i + 1, Token::Colon) {
        match value_from(cs, toks, i + 2) {
            JParsed::Done((v, e)) => {
                if e > i + 2 && e <= toks.len() && !at(toks, e, Token::BraceClose) && at(toks, e, Token::Comma) {
                    lemma_members_close(cs, toks, e + 1);
                }
            },
            _ => {},
        }
    }
}

proof fn lemma_elements_close(cs: Seq<char>, toks: Seq<CharToken>, i: int)
    ensures
        elements_from(cs, toks, i) matches JParsed::Done((vs, c)) ==> i <= c < toks.len(),
    decreases toks.len() - i,
{
    if 0 <= i <= toks.len() {
        match value_from(cs, toks, i) {
            JParsed::Done((v, e)) => {
                if e > i && e <= toks.len() && !at(toks, e, Token::BracketClose) && at(toks, e, Token::Comma) {
                    lemma_elements_close(cs, toks, e + 1);
                }
            },
            _ => {},
        }
    }
}

fn object_of(ctx: &JCtx, i: usize) -> (res: Result<(Vec<(String, JsonValue)>, usize), JFail>)
    requires
        ctx.wf(),
    ensures
        res matches Err(JFail::Overflow(j)) ==> j < ctx.ts@.len(),
        match object_from(ctx.source@, ctx.toks(), i as int) {
            JParsed::Done((js, close)) => res matches Ok((ps, c)) && c == close && c < ctx.ts@.len()
                && json_ok(JsonValue::Object(ps), JView::Obj(js), ctx.source@, ctx.toks()),
            p => res matches Err(f) && fail_ok(f, p),
        },
    decreases ctx.ts@.len() - i, 2int,
{
    let n = ctx.ts.len();
    let ghost cs = ctx.source@;
    let ghost toks = ctx.toks();
    if i > n {
        return Err(JFail::Fail(i, Vec::new()));
    }
    if ctx.at_of(i, Token::BraceClose) {
        let out: Vec<(String, JsonValue)> = Vec::new();
        assert(json_ok(JsonValue::Object(out), JView::Obj(Seq::empty()), cs, toks));
        return Ok((out, i));
    }
    if !ctx.at_of(i, Token::String) {
        return Err(JFail::Fail(i, two(Token::String, Token::BraceClose)));
    }
    proof {
        lemma_members_close(cs, toks, i as int);
    }
    let mut out: Vec<(String, JsonValue)> = Vec::new();
    let ghost mut js: Seq<(int, JView)> = Seq::empty();
    let mut k = i;
    loop
        invariant
            ctx.wf(),
            n == ctx.ts@.len(),
            cs == ctx.source@,
            toks == ctx.toks(),
            i <= k,
            object_from(cs, toks, i as int) == glue(js, members_from(cs, toks, k as int)),
            members_from(cs, toks, i as int) == glue(js, members_from(cs, toks, k as int)),
            out@.len() == js.len(),
            forall|t: int|
                0 <= t < js.len() ==> (#[trigger] out@[t]).0@ == str_text(cs, toks, js[t].0) && json_ok(
                    out@[t].1,
                    js[t].1,
                    cs,
                    toks,
                ),
        decreases n - k,
    {
        if !ctx.at_of(k, Token::String) {
            return Err(JFail::Fail(k, one(Token::String)));
        }
        if !ctx.at_of(k + 1, Token::Colon) {
            return Err(JFail::Fail(k + 1, one(Token::Colon)));
        }
        let key = str_of(ctx, k);
        let (v, e) = match value_of(ctx, k + 2) {
            Err(f) => return Err(f),
            Ok(r) => r,
        };
        if e <= k + 2 || e > n {
            return Err(JFail::Fail(k, Vec::new()));
        }
        let ghost jv = match value_from(cs, toks, k + 2) {
            JParsed::Done((jv, _)) => jv,
            _ => arbitrary(),
        };
        out.push((key, v));
        if ctx.at_of(e, Token::BraceClose) {
            proof {
                js = js.push((k as int, jv));
                assert(json_ok(JsonValue::Object(out), JView::Obj(js), cs, toks));
            }
            return Ok((out, e));
        }
        if !ctx.at_of(e, Token::Comma) {
            return Err(JFail::Fail(e, two(Token::Comma, Token::BraceClose)));
        }
        proof {
            match members_from(cs, toks, e + 1) {
                JParsed::Done((rest, close)) => {
                    assert(js + (seq![(k as int, jv)] + rest) =~= js.push((k as int, jv)) + rest);
                },
                _ => {},
            }
            js = js.push((k as int, jv));
        }
        k = e + 1;
    }
}

fn array_of(ctx: &JCtx, i: usize) -> (res: Result<(Vec<JsonValue>, usize), JFail>)
    requires
        ctx.wf(),
    ensures
        res matches Err(JFail::Overflow(j)) ==> j < ctx.ts@.len(),
        match array_from(ctx.source@, ctx.toks(), i as int) {
            JParsed::Done((js, close)) => res matches Ok((vs, c)) && c == close && c < ctx.ts@.len()
                && json_ok(JsonValue::Array(vs), JView::Arr(js), ctx.source@, ctx.toks()),
            p => res matches Err(f) && fail_ok(f, p),
        },
    decreases ctx.ts@.len() - i, 2int,
{
    let n = ctx.ts.len();
    let ghost cs = ctx.source@;
    let ghost toks = ctx.toks();
    if i > n {
        return Err(JFail::Fail(i, Vec::new()));
    }
    if ctx.at_of(i, Token::BracketClose) {
        let out: Vec<JsonValue> = Vec::new();
        assert(json_ok(JsonValue::Array(out), JView::Arr(Seq::empty()), cs, toks));
        return Ok((out, i));
    }
    if !(ctx.at_of(i, Token::BraceOpen) || ctx.at_of(i, Token::BracketOpen) || ctx.at_of(i, Token::True)
        || ctx.at_of(i, Token::False) || ctx.at_of(i, Token::Integer) || ctx.at_of(i, Token::String)) {
        return Err(JFail::Fail(i, value_start_list(true)));
    }
    proof {
        lemma_elements_close(cs, toks, i as int);
    }
    let mut out: Vec<JsonValue> = Vec::new();
    let ghost mut js: Seq<JView> = Seq::empty();
    let mut k = i;
    loop
        invariant
            ctx.wf(),
            n == ctx.ts@.len(),
            cs == ctx.source@,
            toks == ctx.toks(),
            i <= k <= n,
            array_from(cs, toks, i as int) == glue(js, elements_from(cs, toks, k as int)),
            out@.len() == js.len(),
            forall|t: int| 0 <= t < js.len() ==> json_ok(#[trigger] out@[t], js[t], cs, toks),
        decreases n - k,
    {
        let (v, e) = match value_of(ctx, k) {
            Err(f) => return Err(f),
            Ok(r) => r,
        };
        if e <= k || e > n {
            return Err(JFail::Fail(k, Vec::new()));
        }
        let ghost jv = match value_from(cs, toks, k as int) {
            JParsed::Done((jv, _)) => jv,
            _ => arbitrary(),
        };
        out.push(v);
        if ctx.at_of(e, Token::BracketClose) {
            proof {
                js = js.push(jv);
                assert(json_ok(JsonValue::Array(out), JView::Arr(js), cs, toks));
            }
            return Ok((out, e));
        }
        if !ctx.at_of(e, Token::Comma) {
            return Err(JFail::Fail(e, two(Token::Comma, Token::BracketClose)));
        }
        proof {
            match elements_from(cs, toks, e + 1) {
                JParsed::Done((rest, close)) => {
                    assert(js + (seq![jv] + rest) =~= js.push(jv) + rest);
                },
                _ => {},
            }
            js = js.push(jv);
        }
        k = e + 1;
    }
}

/// The error for an integer that does not fit: at its span.
pub open spec fn overflow_view(e: ErrorView<Token>, cs: Seq<char>, toks: Seq<CharToken>, j: int) -> bool {
    &&& e.span == Span::Range(
        (byte_len(cs.take(toks[j].1)) as usize)..(byte_len(cs.take(toks[j].2)) as usize),
    )
    &&& !e.is_fail
    &&& e.kind matches KindView::Custom(m) && m@ == overflow_message()
}

/// Reads a JSON document.
pub fn parse(source: &str) -> (res: Result<JsonValue, Error<Token>>)
    requires
        byte_len(source@) <= usize::MAX,
    ensures
        match json_from(source@, spec_lex(source@)) {
            JParsed::Done(jv) => res matches Ok(v) && json_ok(v, jv, source@, spec_lex(source@)),
            JParsed::Fail(j, x) => res matches Err(e) && e@ == fail_view(source@, spec_lex(source@), j, x),
            JParsed::Overflow(j) => res matches Err(e) && overflow_view(e@, source@, spec_lex(source@), j),
        },
{
    let (toks, ranges) = lex_ranges(source);
    let ghost lx = spec_lex(source@);
    proof {
        lemma_lex_ordered(source@, 0);
        crate::json::lexer::lemma_lex_scan(source@, 0);
    }
    let mut ts: Vec<Token> = Vec::new();
    let mut k: usize = 0;
    while k < toks.len()
        invariant
            k <= toks@.len(),
            lexed(source@, toks@),
            lx == spec_lex(source@),
            ts@.len() == k,
            forall|t: int| 0 <= t < k ==> (#[trigger] ts@[t]) == lx[t].0,
        decreases toks@.len() - k,
    {
        ts.push(toks[k].token);
        k = k + 1;
    }
    let n = ts.len();
    let ctx = JCtx { source, cs: crate::text::chars::chars_of(source), ts, ranges };
    let (v, e) = match value_of(&ctx, 0) {
        Ok(r) => r,
        Err(JFail::Fail(j, x)) => return Err(fail_error(&toks, j, x, Ghost(source@), Ghost(lx))),
        Err(JFail::Overflow(j)) => {
            let t = &toks[j];
            proof {
                reveal_strlit("integer out of range");
                let (tk, s, e) = lx[j as int];
            }
            return Err(Error::new_custom(Span::Range(t.span.start..t.span.end), "integer out of range".to_owned()));
        },
    };
    if e != n {
        let mut x = Vec::new();
        x.push(TokenOrEoi::Eoi);
        assert(x@ =~= seq![TokenOrEoi::<Token>::Eoi]);
        return Err(fail_error(&toks, e, x, Ghost(source@), Ghost(lx)));
    }
    Ok(v)
}

} // verus!
