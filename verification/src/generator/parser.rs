//! The rules of a grammar file:
//!
//! ```text
//! grammar     := rule* EOI
//! rule        := "pub"? IDENT "->" ret_type ":" production ("|" production)* ";"
//! production  := combinator+ RUST_BLOCK "?"?
//! combinator  := path "(" (combinator ("," combinator)*)? ")" | TOKEN_SHORT | path
//! ret_type    := ("<" | ">" | path | "'" | "," | "(" | ")")+
//! path        := IDENT ("::" path)?
//! ```
//!
//! Each choice is made by the next token, and a choice once made is kept:
//! a parse that fails reports the token where the chosen form cannot go
//! on, with the tokens that could stand there.

use super::ast::{
    Ast, Combinator, CombinatorKind, FunctionCall, Ident, Path, Production, RetType, Rule,
    RustBlock, TokenShort,
};
use super::lexer::{lemma_lex_ordered, lex_ranges, lexed, spec_lex, CharToken, Token};
use super::token_map::{kinds, Parsed};
use crate::toktok::token::{fail_error, fail_view};
use crate::pretty_error::locations::byte_len;
use crate::toktok::{Error, SpannedToken, TokenOrEoi};
use vstd::prelude::*;

verus! {

pub open spec fn tok(t: Token) -> TokenOrEoi<Token> {
    TokenOrEoi::Token(t)
}

/// Token `i` is there and is `t`.
pub open spec fn at(ts: Seq<Token>, i: int, t: Token) -> bool {
    0 <= i < ts.len() && ts[i] == t
}

/// A path from token `i`: identifiers separated by `::`; gives its end.
pub open spec fn path_from(ts: Seq<Token>, i: int) -> Parsed<int>
    decreases ts.len() - i,
{
    if !at(ts, i, Token::Identifier) {
        Parsed::Fail(i, seq![tok(Token::Identifier)])
    } else if at(ts, i + 1, Token::DoubleColon) {
        path_from(ts, i + 2)
    } else {
        Parsed::Done(i + 1)
    }
}

/// What a combinator is, by token indices.
pub enum CombKindView {
    Path,
    Short,
    /// The end of the path, and the arguments.
    Call(int, Seq<CombView>),
}

/// A combinator over the tokens from `start` to before `end`.
pub struct CombView {
    pub start: int,
    pub end: int,
    pub kind: CombKindView,
}

/// A combinator from token `i`.
pub open spec fn comb_from(ts: Seq<Token>, i: int) -> Parsed<CombView>
    decreases ts.len() - i, 0int,
{
    if at(ts, i, Token::TokenShort) {
        Parsed::Done(CombView { start: i, end: i + 1, kind: CombKindView::Short })
    } else if at(ts, i, Token::Identifier) {
        match path_from(ts, i) {
            Parsed::Fail(j, x) => Parsed::Fail(j, x),
            Parsed::Done(e) => if e <= i || e > ts.len() {
                Parsed::Fail(i, Seq::empty())
            } else if at(ts, e, Token::LeftParen) {
                match args_from(ts, e + 1) {
                    Parsed::Fail(j, x) => Parsed::Fail(j, x),
                    Parsed::Done((args, close)) => Parsed::Done(
                        CombView { start: i, end: close + 1, kind: CombKindView::Call(e, args) },
                    ),
                }
            } else {
                Parsed::Done(CombView { start: i, end: e, kind: CombKindView::Path })
            },
        }
    } else {
        Parsed::Fail(i, seq![tok(Token::Identifier), tok(Token::TokenShort)])
    }
}

/// The arguments of a call from token `i`, just after `(`: the arguments
/// and the index of the closing `)`.
pub open spec fn args_from(ts: Seq<Token>, i: int) -> Parsed<(Seq<CombView>, int)>
    decreases ts.len() - i, 1int,
{
    if i < 0 || i > ts.len() {
        Parsed::Fail(i, Seq::empty())
    } else if at(ts, i, Token::RightParen) {
        Parsed::Done((Seq::empty(), i))
    } else if at(ts, i, Token::Identifier) || at(ts, i, Token::TokenShort) {
        match comb_from(ts, i) {
            Parsed::Fail(j, x) => Parsed::Fail(j, x),
            Parsed::Done(c) => if c.end <= i || c.end > ts.len() {
                Parsed::Fail(i, Seq::empty())
            } else {
                match args_after(ts, c.end) {
                    Parsed::Fail(j, x) => Parsed::Fail(j, x),
                    Parsed::Done((rest, close)) => Parsed::Done((seq![c] + rest, close)),
                }
            },
        }
    } else {
        Parsed::Fail(
            i,
            seq![tok(Token::Identifier), tok(Token::TokenShort), tok(Token::RightParen)],
        )
    }
}

/// The rest of the arguments of a call after an argument that ends at `k`.
pub open spec fn args_after(ts: Seq<Token>, k: int) -> Parsed<(Seq<CombView>, int)>
    decreases ts.len() - k, 1int,
{
    if k < 0 || k > ts.len() {
        Parsed::Fail(k, Seq::empty())
    } else if at(ts, k, Token::RightParen) {
        Parsed::Done((Seq::empty(), k))
    } else if at(ts, k, Token::Comma) {
        match comb_from(ts, k + 1) {
            Parsed::Fail(j, x) => Parsed::Fail(j, x),
            Parsed::Done(c) => if c.end <= k + 1 || c.end > ts.len() {
                Parsed::Fail(k, Seq::empty())
            } else {
                match args_after(ts, c.end) {
                    Parsed::Fail(j, x) => Parsed::Fail(j, x),
                    Parsed::Done((rest, close)) => Parsed::Done((seq![c] + rest, close)),
                }
            },
        }
    } else {
        Parsed::Fail(k, seq![tok(Token::Comma), tok(Token::RightParen)])
    }
}

/// Token `i` can start a combinator.
pub open spec fn starts_comb(ts: Seq<Token>, i: int) -> bool {
    at(ts, i, Token::Identifier) || at(ts, i, Token::TokenShort)
}

/// One or more combinators from token `i`, and where they end.
pub open spec fn combs_from(ts: Seq<Token>, i: int) -> Parsed<(Seq<CombView>, int)>
    decreases ts.len() - i,
{
    match comb_from(ts, i) {
        Parsed::Fail(j, x) => Parsed::Fail(j, x),
        Parsed::Done(c) => if c.end <= i || c.end > ts.len() {
            Parsed::Fail(i, Seq::empty())
        } else if starts_comb(ts, c.end) {
            match combs_from(ts, c.end) {
                Parsed::Fail(j, x) => Parsed::Fail(j, x),
                Parsed::Done((rest, k)) => Parsed::Done((seq![c] + rest, k)),
            }
        } else {
            Parsed::Done((seq![c], c.end))
        },
    }
}

/// A production over the tokens from `start` to before `end`.
pub struct ProdView {
    pub start: int,
    pub end: int,
    pub combs: Seq<CombView>,
    pub block: int,
    pub fallible: bool,
}

/// A production from token `i`.
pub open spec fn prod_from(ts: Seq<Token>, i: int) -> Parsed<ProdView> {
    if !starts_comb(ts, i) {
        Parsed::Fail(i, seq![tok(Token::Identifier), tok(Token::TokenShort)])
    } else {
        match combs_from(ts, i) {
            Parsed::Fail(j, x) => Parsed::Fail(j, x),
            Parsed::Done((cs, k)) => if !at(ts, k, Token::RustBlock) {
                Parsed::Fail(
                    k,
                    seq![tok(Token::Identifier), tok(Token::TokenShort), tok(Token::RustBlock)],
                )
            } else {
                let f = at(ts, k + 1, Token::QuestionMark);
                Parsed::Done(
                    ProdView {
                        start: i,
                        end: if f {
                            k + 2
                        } else {
                            k + 1
                        },
                        combs: cs,
                        block: k,
                        fallible: f,
                    },
                )
            },
        }
    }
}

/// Productions separated by `|` from token `i`, and where they end.
pub open spec fn prods_from(ts: Seq<Token>, i: int) -> Parsed<(Seq<ProdView>, int)>
    decreases ts.len() - i,
{
    match prod_from(ts, i) {
        Parsed::Fail(j, x) => Parsed::Fail(j, x),
        Parsed::Done(p) => if p.end <= i || p.end > ts.len() {
            Parsed::Fail(i, Seq::empty())
        } else if at(ts, p.end, Token::OperatorChoice) {
            match prods_from(ts, p.end + 1) {
                Parsed::Fail(j, x) => Parsed::Fail(j, x),
                Parsed::Done((rest, k)) => Parsed::Done((seq![p] + rest, k)),
            }
        } else {
            Parsed::Done((seq![p], p.end))
        },
    }
}

/// A token of a return type other than a path.
pub open spec fn is_ret_punct(t: Token) -> bool {
    t == Token::LeftAngle || t == Token::RightAngle || t == Token::SingleQuote || t == Token::Comma
        || t == Token::LeftParen || t == Token::RightParen
}

/// The tokens that can start a part of a return type.
pub open spec fn ret_starts() -> Seq<TokenOrEoi<Token>> {
    seq![
        tok(Token::LeftAngle),
        tok(Token::RightAngle),
        tok(Token::Identifier),
        tok(Token::SingleQuote),
        tok(Token::Comma),
        tok(Token::LeftParen),
        tok(Token::RightParen),
    ]
}

/// Token `i` can start a part of a return type.
pub open spec fn starts_ret(ts: Seq<Token>, i: int) -> bool {
    0 <= i < ts.len() && (is_ret_punct(ts[i]) || ts[i] == Token::Identifier)
}

/// A return type from token `i`: one or more parts; gives its end.
pub open spec fn ret_from(ts: Seq<Token>, i: int) -> Parsed<int>
    decreases ts.len() - i,
{
    let item: Parsed<int> = if 0 <= i < ts.len() && is_ret_punct(ts[i]) {
        Parsed::Done(i + 1)
    } else if at(ts, i, Token::Identifier) {
        path_from(ts, i)
    } else {
        Parsed::Fail(i, ret_starts())
    };
    match item {
        Parsed::Fail(j, x) => Parsed::Fail(j, x),
        Parsed::Done(e) => if e <= i || e > ts.len() {
            Parsed::Fail(i, Seq::empty())
        } else if starts_ret(ts, e) {
            ret_from(ts, e)
        } else {
            Parsed::Done(e)
        },
    }
}

/// A rule over the tokens from its start to before `end`.
pub struct RuleView {
    pub public: bool,
    pub name: int,
    pub ret_start: int,
    pub ret_end: int,
    pub prods: Seq<ProdView>,
    pub end: int,
}

/// A rule from token `i`.
pub open spec fn rule_from(ts: Seq<Token>, i: int) -> Parsed<RuleView> {
    let public = at(ts, i, Token::KeywordPublic);
    let n = if public {
        i + 1
    } else {
        i
    };
    if !at(ts, n, Token::Identifier) {
        Parsed::Fail(n, seq![tok(Token::Identifier)])
    } else if !at(ts, n + 1, Token::Arrow) {
        Parsed::Fail(n + 1, seq![tok(Token::Arrow)])
    } else {
        match ret_from(ts, n + 2) {
            Parsed::Fail(j, x) => Parsed::Fail(j, x),
            Parsed::Done(r) => if !at(ts, r, Token::Colon) {
                Parsed::Fail(r, ret_starts().push(tok(Token::Colon)))
            } else {
                match prods_from(ts, r + 1) {
                    Parsed::Fail(j, x) => Parsed::Fail(j, x),
                    Parsed::Done((ps, k)) => if !at(ts, k, Token::Semicolon) {
                        Parsed::Fail(k, seq![tok(Token::OperatorChoice), tok(Token::Semicolon)])
                    } else {
                        Parsed::Done(
                            RuleView {
                                public,
                                name: n,
                                ret_start: n + 2,
                                ret_end: r,
                                prods: ps,
                                end: k + 1,
                            },
                        )
                    },
                }
            },
        }
    }
}

/// The rules from token `i` to the end of the input.
pub open spec fn rules_from(ts: Seq<Token>, i: int) -> Parsed<Seq<RuleView>>
    decreases ts.len() - i,
{
    if i < 0 || i >= ts.len() {
        Parsed::Done(Seq::empty())
    } else if !(at(ts, i, Token::KeywordPublic) || at(ts, i, Token::Identifier)) {
        Parsed::Fail(i, seq![tok(Token::KeywordPublic), tok(Token::Identifier), TokenOrEoi::Eoi])
    } else {
        match rule_from(ts, i) {
            Parsed::Fail(j, x) => Parsed::Fail(j, x),
            Parsed::Done(r) => if r.end <= i || r.end > ts.len() {
                Parsed::Fail(i, Seq::empty())
            } else {
                match rules_from(ts, r.end) {
                    Parsed::Fail(j, x) => Parsed::Fail(j, x),
                    Parsed::Done(rest) => Parsed::Done(seq![r] + rest),
                }
            },
        }
    }
}

/// The text of the tokens from `s` to before `e`.
pub open spec fn text(cs: Seq<char>, toks: Seq<CharToken>, s: int, e: int) -> Seq<char> {
    cs.subrange(toks[s].1, toks[e - 1].2)
}

/// The combinator is the one described, with texts from the source.
pub open spec fn comb_ok(c: Combinator, v: CombView, cs: Seq<char>, toks: Seq<CharToken>) -> bool
    decreases v,
{
    &&& c.source@ == text(cs, toks, v.start, v.end)
    &&& match v.kind {
        CombKindView::Path => c.kind matches CombinatorKind::Path(p) && p.0@ == text(
            cs,
            toks,
            v.start,
            v.end,
        ),
        CombKindView::Short => c.kind matches CombinatorKind::TokenShort(t) && t.0@ == text(
            cs,
            toks,
            v.start,
            v.start + 1,
        ),
        CombKindView::Call(pe, args) => c.kind matches CombinatorKind::FunctionCall(f) && f.name.0@
            == text(cs, toks, v.start, pe) && f.args@.len() == args.len() && forall|k: int|
            0 <= k < args.len() ==> comb_ok(#[trigger] f.args@[k], args[k], cs, toks),
    }
}

/// The production is the one described.
pub open spec fn prod_ok(p: Production, v: ProdView, cs: Seq<char>, toks: Seq<CharToken>) -> bool {
    &&& p.source@ == text(cs, toks, v.start, v.end)
    &&& p.rust_block.0@ == text(cs, toks, v.block, v.block + 1)
    &&& p.is_fallible == v.fallible
    &&& p.combinators@.len() == v.combs.len()
    &&& forall|k: int|
        0 <= k < v.combs.len() ==> comb_ok(#[trigger] p.combinators@[k], v.combs[k], cs, toks)
}

/// The rule is the one described.
pub open spec fn rule_ok(r: Rule, v: RuleView, cs: Seq<char>, toks: Seq<CharToken>) -> bool {
    &&& r.is_public == v.public
    &&& r.name.0@ == text(cs, toks, v.name, v.name + 1)
    &&& r.ret_type.0@ == text(cs, toks, v.ret_start, v.ret_end)
    &&& r.productions@.len() == v.prods.len()
    &&& forall|k: int|
        0 <= k < v.prods.len() ==> prod_ok(#[trigger] r.productions@[k], v.prods[k], cs, toks)
}

/// The grammar has the rules described.
pub open spec fn ast_ok(a: Ast, rules: Seq<RuleView>, cs: Seq<char>, toks: Seq<CharToken>) -> bool {
    &&& a.rules@.len() == rules.len()
    &&& forall|k: int| 0 <= k < rules.len() ==> rule_ok(#[trigger] a.rules@[k], rules[k], cs, toks)
}

/// A failure: the index of the token, and the tokens that would fit.
type Fail = (usize, Vec<TokenOrEoi<Token>>);

/// The result of a parse step matches the spec's, given how values match.
pub open spec fn fail_matches(f: Fail, j: int, x: Seq<TokenOrEoi<Token>>) -> bool {
    f.0 == j && f.1@ == x
}

/// The source and its tokens, as kinds and character ranges.
struct Ctx<'a> {
    source: &'a str,
    ts: Vec<Token>,
    ranges: Vec<(usize, usize)>,
}

impl<'a> Ctx<'a> {
    spec fn toks(&self) -> Seq<CharToken> {
        spec_lex(self.source@)
    }

    spec fn wf(&self) -> bool {
        let toks = self.toks();
        &&& self.ts@ == kinds(toks)
        &&& self.ranges@.len() == toks.len()
        &&& forall|t: int|
            0 <= t < toks.len() ==> (#[trigger] self.ranges@[t]).0 == toks[t].1
                && self.ranges@[t].1 == toks[t].2
        &&& forall|t: int| 0 <= t < toks.len() ==> (#[trigger] toks[t]).1 < toks[t].2 <= self.source@.len()
        &&& forall|t1: int, t2: int|
            0 <= t1 < t2 < toks.len() ==> (#[trigger] toks[t1]).2 <= (#[trigger] toks[t2]).1
    }

    /// The text of the tokens from `s` to before `e`.
    fn text_of(&self, s: usize, e: usize) -> (res: &'a str)
        requires
            self.wf(),
            s < e <= self.ts@.len(),
        ensures
            res@ == text(self.source@, self.toks(), s as int, e as int),
    {
        let a = self.ranges[s].0;
        let b = self.ranges[e - 1].1;
        proof {
            let toks = self.toks();
            assert(toks[s as int].1 < toks[s as int].2);
            if s < e - 1 {
                assert(toks[s as int].2 <= toks[e - 1].1);
            }
            assert(toks[e - 1].1 < toks[e - 1].2);
        }
        self.source.substring_char(a, b)
    }

    fn at_of(&self, i: usize, t: Token) -> (res: bool)
        ensures
            res == at(self.ts@, i as int, t),
            res ==> i < self.ts@.len() <= usize::MAX,
    {
        i < self.ts.len() && self.ts[i] == t
    }
}

fn list1(a: TokenOrEoi<Token>) -> (res: Vec<TokenOrEoi<Token>>)
    ensures
        res@ == seq![a],
{
    let mut v = Vec::new();
    v.push(a);
    assert(v@ =~= seq![a]);
    v
}

fn list2(a: TokenOrEoi<Token>, b: TokenOrEoi<Token>) -> (res: Vec<TokenOrEoi<Token>>)
    ensures
        res@ == seq![a, b],
{
    let mut v = Vec::new();
    v.push(a);
    v.push(b);
    assert(v@ =~= seq![a, b]);
    v
}

fn list3(a: TokenOrEoi<Token>, b: TokenOrEoi<Token>, c: TokenOrEoi<Token>) -> (res: Vec<TokenOrEoi<Token>>)
    ensures
        res@ == seq![a, b, c],
{
    let mut v = Vec::new();
    v.push(a);
    v.push(b);
    v.push(c);
    assert(v@ =~= seq![a, b, c]);
    v
}

fn ret_start_list(colon: bool) -> (res: Vec<TokenOrEoi<Token>>)
    ensures
        res@ == if colon {
            ret_starts().push(tok(Token::Colon))
        } else {
            ret_starts()
        },
{
    let mut v = Vec::new();
    v.push(TokenOrEoi::Token(Token::LeftAngle));
    v.push(TokenOrEoi::Token(Token::RightAngle));
    v.push(TokenOrEoi::Token(Token::Identifier));
    v.push(TokenOrEoi::Token(Token::SingleQuote));
    v.push(TokenOrEoi::Token(Token::Comma));
    v.push(TokenOrEoi::Token(Token::LeftParen));
    v.push(TokenOrEoi::Token(Token::RightParen));
    if colon {
        v.push(TokenOrEoi::Token(Token::Colon));
    }
    assert(v@ =~= if colon {
        ret_starts().push(tok(Token::Colon))
    } else {
        ret_starts()
    });
    v
}

fn path_of(ctx: &Ctx, i: usize) -> (res: Result<usize, Fail>)
    requires
        ctx.wf(),
    ensures
        match path_from(ctx.ts@, i as int) {
            Parsed::Done(e) => res matches Ok(ee) && ee == e,
            Parsed::Fail(j, x) => res matches Err(f) && fail_matches(f, j, x),
        },
{
    let mut j = i;
    loop
        invariant
            ctx.wf(),
            i <= j,
            path_from(ctx.ts@, j as int) == path_from(ctx.ts@, i as int),
        decreases ctx.ts@.len() - j,
    {
        if !ctx.at_of(j, Token::Identifier) {
            return Err((j, list1(TokenOrEoi::Token(Token::Identifier))));
        }
        if ctx.at_of(j + 1, Token::DoubleColon) {
            j = j + 2;
        } else {
            return Ok(j + 1);
        }
    }
}

/// Glues parsed items in front of what the rest gives.
pub open spec fn glue<A>(done: Seq<A>, rest: Parsed<(Seq<A>, int)>) -> Parsed<(Seq<A>, int)> {
    match rest {
        Parsed::Done((r, k)) => Parsed::Done((done + r, k)),
        Parsed::Fail(j, x) => Parsed::Fail(j, x),
    }
}

fn comb_of<'a>(ctx: &Ctx<'a>, i: usize) -> (res: Result<(Combinator<'a>, usize), Fail>)
    requires
        ctx.wf(),
    ensures
        match comb_from(ctx.ts@, i as int) {
            Parsed::Done(v) => res matches Ok((c, e)) && e == v.end && comb_ok(
                c,
                v,
                ctx.source@,
                ctx.toks(),
            ),
            Parsed::Fail(j, x) => res matches Err(f) && fail_matches(f, j, x),
        },
    decreases ctx.ts@.len() - i, 0int,
{
    if ctx.at_of(i, Token::TokenShort) {
        let t = ctx.text_of(i, i + 1);
        return Ok((Combinator { kind: CombinatorKind::TokenShort(TokenShort(t)), source: t }, i + 1));
    }
    if !ctx.at_of(i, Token::Identifier) {
        return Err((i, list2(TokenOrEoi::Token(Token::Identifier), TokenOrEoi::Token(Token::TokenShort))));
    }
    let e = match path_of(ctx, i) {
        Err(f) => return Err(f),
        Ok(e) => e,
    };
    if e <= i || e > ctx.ts.len() {
        return Err((i, Vec::new()));
    }
    if ctx.at_of(e, Token::LeftParen) {
        let (args, close) = match args_of(ctx, e + 1) {
            Err(f) => return Err(f),
            Ok(r) => r,
        };
        let ghost v = match comb_from(ctx.ts@, i as int) {
            Parsed::Done(v) => v,
            Parsed::Fail(_, _) => arbitrary(),
        };
        assert(e + 1 <= close < ctx.ts@.len()) by {
            match args_from(ctx.ts@, e + 1) {
                Parsed::Done((a, c)) => {},
                Parsed::Fail(_, _) => {},
            }
            lemma_close_in(ctx.ts@, e + 1);
        }
        let name = ctx.text_of(i, e);
        let src = ctx.text_of(i, close + 1);
        let c = Combinator { kind: CombinatorKind::FunctionCall(FunctionCall { name: Path(name), args }), source: src };
        Ok((c, close + 1))
    } else {
        let t = ctx.text_of(i, e);
        Ok((Combinator { kind: CombinatorKind::Path(Path(t)), source: t }, e))
    }
}

/// A closing parenthesis that ends arguments is a token.
proof fn lemma_close_in(ts: Seq<Token>, i: int)
    ensures
        args_from(ts, i) matches Parsed::Done((a, c)) ==> i <= c < ts.len(),
    decreases ts.len() - i, 1int,
{
    if 0 <= i <= ts.len() && !at(ts, i, Token::RightParen) && (at(ts, i, Token::Identifier) || at(ts, i, Token::TokenShort)) {
        match comb_from(ts, i) {
            Parsed::Done(c) => {
                if c.end > i && c.end <= ts.len() {
                    lemma_close_after(ts, c.end);
                }
            },
            _ => {},
        }
    }
}

proof fn lemma_close_after(ts: Seq<Token>, k: int)
    ensures
        args_after(ts, k) matches Parsed::Done((a, c)) ==> k <= c < ts.len(),
    decreases ts.len() - k, 0int,
{
    if 0 <= k <= ts.len() && !at(ts, k, Token::RightParen) && at(ts, k, Token::Comma) {
        match comb_from(ts, k + 1) {
            Parsed::Done(c) => {
                if c.end > k + 1 && c.end <= ts.len() {
                    lemma_close_after(ts, c.end);
                }
            },
            _ => {},
        }
    }
}

fn args_of<'a>(ctx: &Ctx<'a>, i: usize) -> (res: Result<(Vec<Combinator<'a>>, usize), Fail>)
    requires
        ctx.wf(),
    ensures
        match args_from(ctx.ts@, i as int) {
            Parsed::Done((vs, close)) => res matches Ok((cs, k)) && k == close && cs@.len() == vs.len()
                && forall|t: int|
                0 <= t < vs.len() ==> comb_ok(#[trigger] cs@[t], vs[t], ctx.source@, ctx.toks()),
            Parsed::Fail(j, x) => res matches Err(f) && fail_matches(f, j, x),
        },
    decreases ctx.ts@.len() - i, 1int,
{
    let n = ctx.ts.len();
    if i > n {
        return Err((i, Vec::new()));
    }
    if ctx.at_of(i, Token::RightParen) {
        return Ok((Vec::new(), i));
    }
    if !(ctx.at_of(i, Token::Identifier) || ctx.at_of(i, Token::TokenShort)) {
        return Err((i, list3(TokenOrEoi::Token(Token::Identifier), TokenOrEoi::Token(Token::TokenShort), TokenOrEoi::Token(Token::RightParen))));
    }
    let (c, e) = match comb_of(ctx, i) {
        Err(f) => return Err(f),
        Ok(r) => r,
    };
    if e <= i || e > n {
        return Err((i, Vec::new()));
    }
    let ghost v0 = match comb_from(ctx.ts@, i as int) {
        Parsed::Done(v) => v,
        Parsed::Fail(_, _) => arbitrary(),
    };
    let mut out: Vec<Combinator<'a>> = Vec::new();
    out.push(c);
    let ghost mut vs: Seq<CombView> = seq![v0];
    let mut k = e;
    loop
        invariant
            ctx.wf(),
            n == ctx.ts@.len(),
            i < k <= n,
            args_from(ctx.ts@, i as int) == glue(vs, args_after(ctx.ts@, k as int)),
            out@.len() == vs.len(),
            forall|t: int| 0 <= t < vs.len() ==> comb_ok(#[trigger] out@[t], vs[t], ctx.source@, ctx.toks()),
        decreases n - k,
    {
        if ctx.at_of(k, Token::RightParen) {
            assert(vs + Seq::<CombView>::empty() =~= vs);
            return Ok((out, k));
        }
        if !ctx.at_of(k, Token::Comma) {
            return Err((k, list2(TokenOrEoi::Token(Token::Comma), TokenOrEoi::Token(Token::RightParen))));
        }
        let (c, e) = match comb_of(ctx, k + 1) {
            Err(f) => return Err(f),
            Ok(r) => r,
        };
        if e <= k + 1 || e > n {
            return Err((k, Vec::new()));
        }
        let ghost v = match comb_from(ctx.ts@, k + 1) {
            Parsed::Done(v) => v,
            Parsed::Fail(_, _) => arbitrary(),
        };
        out.push(c);
        proof {
            match args_after(ctx.ts@, e as int) {
                Parsed::Done((rest, close)) => {
                    assert(vs + (seq![v] + rest) =~= vs.push(v) + rest);
                },
                _ => {},
            }
            vs = vs.push(v);
        }
        k = e;
    }
}

fn combs_of<'a>(ctx: &Ctx<'a>, i: usize) -> (res: Result<(Vec<Combinator<'a>>, usize), Fail>)
    requires
        ctx.wf(),
    ensures
        match combs_from(ctx.ts@, i as int) {
            Parsed::Done((vs, end)) => res matches Ok((cs, k)) && k == end && cs@.len() == vs.len()
                && forall|t: int|
                0 <= t < vs.len() ==> comb_ok(#[trigger] cs@[t], vs[t], ctx.source@, ctx.toks()),
            Parsed::Fail(j, x) => res matches Err(f) && fail_matches(f, j, x),
        },
{
    let n = ctx.ts.len();
    let mut out: Vec<Combinator<'a>> = Vec::new();
    let ghost mut vs: Seq<CombView> = Seq::empty();
    let mut k = i;
    assert(combs_from(ctx.ts@, i as int) == glue(vs, combs_from(ctx.ts@, k as int)));
    loop
        invariant
            ctx.wf(),
            n == ctx.ts@.len(),
            i <= k,
            combs_from(ctx.ts@, i as int) == glue(vs, combs_from(ctx.ts@, k as int)),
            out@.len() == vs.len(),
            forall|t: int| 0 <= t < vs.len() ==> comb_ok(#[trigger] out@[t], vs[t], ctx.source@, ctx.toks()),
        decreases n - k,
    {
        let (c, e) = match comb_of(ctx, k) {
            Err(f) => return Err(f),
            Ok(r) => r,
        };
        if e <= k || e > n {
            return Err((k, Vec::new()));
        }
        let ghost v = match comb_from(ctx.ts@, k as int) {
            Parsed::Done(v) => v,
            Parsed::Fail(_, _) => arbitrary(),
        };
        out.push(c);
        if !(ctx.at_of(e, Token::Identifier) || ctx.at_of(e, Token::TokenShort)) {
            proof {
                vs = vs.push(v);
            }
            return Ok((out, e));
        }
        proof {
            match combs_from(ctx.ts@, e as int) {
                Parsed::Done((rest, end)) => {
                    assert(vs + (seq![v] + rest) =~= vs.push(v) + rest);
                },
                _ => {},
            }
            vs = vs.push(v);
        }
        k = e;
    }
}

fn prod_of<'a>(ctx: &Ctx<'a>, i: usize) -> (res: Result<(Production<'a>, usize), Fail>)
    requires
        ctx.wf(),
    ensures
        match prod_from(ctx.ts@, i as int) {
            Parsed::Done(v) => res matches Ok((p, e)) && e == v.end && prod_ok(
                p,
                v,
                ctx.source@,
                ctx.toks(),
            ),
            Parsed::Fail(j, x) => res matches Err(f) && fail_matches(f, j, x),
        },
{
    if !(ctx.at_of(i, Token::Identifier) || ctx.at_of(i, Token::TokenShort)) {
        return Err((i, list2(TokenOrEoi::Token(Token::Identifier), TokenOrEoi::Token(Token::TokenShort))));
    }
    let (combinators, k) = match combs_of(ctx, i) {
        Err(f) => return Err(f),
        Ok(r) => r,
    };
    if !ctx.at_of(k, Token::RustBlock) {
        return Err((k, list3(TokenOrEoi::Token(Token::Identifier), TokenOrEoi::Token(Token::TokenShort), TokenOrEoi::Token(Token::RustBlock))));
    }
    proof {
        lemma_combs_start(ctx.ts@, i as int);
    }
    let block = ctx.text_of(k, k + 1);
    let fallible = ctx.at_of(k + 1, Token::QuestionMark);
    let end = if fallible {
        k + 2
    } else {
        k + 1
    };
    let src = ctx.text_of(i, end);
    Ok((Production { combinators, rust_block: RustBlock(block), is_fallible: fallible, source: src }, end))
}

/// Combinators end after they start.
proof fn lemma_combs_start(ts: Seq<Token>, i: int)
    ensures
        combs_from(ts, i) matches Parsed::Done((cs, k)) ==> i < k,
    decreases ts.len() - i,
{
    match comb_from(ts, i) {
        Parsed::Done(c) => {
            if c.end > i && c.end <= ts.len() && starts_comb(ts, c.end) {
                lemma_combs_start(ts, c.end);
            }
        },
        _ => {},
    }
}

fn prods_of<'a>(ctx: &Ctx<'a>, i: usize) -> (res: Result<(Vec<Production<'a>>, usize), Fail>)
    requires
        ctx.wf(),
    ensures
        match prods_from(ctx.ts@, i as int) {
            Parsed::Done((vs, end)) => res matches Ok((ps, k)) && k == end && ps@.len() == vs.len()
                && forall|t: int|
                0 <= t < vs.len() ==> prod_ok(#[trigger] ps@[t], vs[t], ctx.source@, ctx.toks()),
            Parsed::Fail(j, x) => res matches Err(f) && fail_matches(f, j, x),
        },
{
    let n = ctx.ts.len();
    let mut out: Vec<Production<'a>> = Vec::new();
    let ghost mut vs: Seq<ProdView> = Seq::empty();
    let mut k = i;
    assert(prods_from(ctx.ts@, i as int) == glue(vs, prods_from(ctx.ts@, k as int)));
    loop
        invariant
            ctx.wf(),
            n == ctx.ts@.len(),
            i <= k,
            prods_from(ctx.ts@, i as int) == glue(vs, prods_from(ctx.ts@, k as int)),
            out@.len() == vs.len(),
            forall|t: int| 0 <= t < vs.len() ==> prod_ok(#[trigger] out@[t], vs[t], ctx.source@, ctx.toks()),
        decreases n - k,
    {
        let (p, e) = match prod_of(ctx, k) {
            Err(f) => return Err(f),
            Ok(r) => r,
        };
        if e <= k || e > n {
            return Err((k, Vec::new()));
        }
        let ghost v = match prod_from(ctx.ts@, k as int) {
            Parsed::Done(v) => v,
            Parsed::Fail(_, _) => arbitrary(),
        };
        out.push(p);
        if !ctx.at_of(e, Token::OperatorChoice) {
            proof {
                vs = vs.push(v);
            }
            return Ok((out, e));
        }
        proof {
            match prods_from(ctx.ts@, e + 1) {
                Parsed::Done((rest, end)) => {
                    assert(vs + (seq![v] + rest) =~= vs.push(v) + rest);
                },
                _ => {},
            }
            vs = vs.push(v);
        }
        k = e + 1;
    }
}

fn ret_of(ctx: &Ctx, i: usize) -> (res: Result<usize, Fail>)
    requires
        ctx.wf(),
    ensures
        match ret_from(ctx.ts@, i as int) {
            Parsed::Done(e) => res matches Ok(ee) && ee == e,
            Parsed::Fail(j, x) => res matches Err(f) && fail_matches(f, j, x),
        },
{
    let n = ctx.ts.len();
    let mut k = i;
    loop
        invariant
            ctx.wf(),
            n == ctx.ts@.len(),
            i <= k,
            ret_from(ctx.ts@, i as int) == ret_from(ctx.ts@, k as int),
        decreases n - k,
    {
        let punct = k < n && (ctx.ts[k] == Token::LeftAngle || ctx.ts[k] == Token::RightAngle
            || ctx.ts[k] == Token::SingleQuote || ctx.ts[k] == Token::Comma || ctx.ts[k]
            == Token::LeftParen || ctx.ts[k] == Token::RightParen);
        let e = if punct {
            k + 1
        } else if ctx.at_of(k, Token::Identifier) {
            match path_of(ctx, k) {
                Err(f) => return Err(f),
                Ok(e) => e,
            }
        } else {
            return Err((k, ret_start_list(false)));
        };
        if e <= k || e > n {
            return Err((k, Vec::new()));
        }
        let more = e < n && (ctx.ts[e] == Token::LeftAngle || ctx.ts[e] == Token::RightAngle
            || ctx.ts[e] == Token::SingleQuote || ctx.ts[e] == Token::Comma || ctx.ts[e]
            == Token::LeftParen || ctx.ts[e] == Token::RightParen || ctx.ts[e] == Token::Identifier);
        if !more {
            return Ok(e);
        }
        k = e;
    }
}

fn rule_of<'a>(ctx: &Ctx<'a>, i: usize) -> (res: Result<(Rule<'a>, usize), Fail>)
    requires
        ctx.wf(),
    ensures
        match rule_from(ctx.ts@, i as int) {
            Parsed::Done(v) => res matches Ok((r, e)) && e == v.end && rule_ok(
                r,
                v,
                ctx.source@,
                ctx.toks(),
            ),
            Parsed::Fail(j, x) => res matches Err(f) && fail_matches(f, j, x),
        },
{
    let public = ctx.at_of(i, Token::KeywordPublic);
    let n = if public {
        i + 1
    } else {
        i
    };
    if !ctx.at_of(n, Token::Identifier) {
        return Err((n, list1(TokenOrEoi::Token(Token::Identifier))));
    }
    if !ctx.at_of(n + 1, Token::Arrow) {
        return Err((n + 1, list1(TokenOrEoi::Token(Token::Arrow))));
    }
    let r = match ret_of(ctx, n + 2) {
        Err(f) => return Err(f),
        Ok(r) => r,
    };
    if !ctx.at_of(r, Token::Colon) {
        return Err((r, ret_start_list(true)));
    }
    let (productions, k) = match prods_of(ctx, r + 1) {
        Err(f) => return Err(f),
        Ok(p) => p,
    };
    if !ctx.at_of(k, Token::Semicolon) {
        return Err((k, list2(TokenOrEoi::Token(Token::OperatorChoice), TokenOrEoi::Token(Token::Semicolon))));
    }
    proof {
        lemma_ret_start(ctx.ts@, n + 2);
    }
    let name = ctx.text_of(n, n + 1);
    let ret = ctx.text_of(n + 2, r);
    Ok((Rule { is_public: public, name: Ident(name), ret_type: RetType(ret), productions }, k + 1))
}

/// A return type ends after it starts.
proof fn lemma_ret_start(ts: Seq<Token>, i: int)
    ensures
        ret_from(ts, i) matches Parsed::Done(e) ==> i < e,
    decreases ts.len() - i,
{
    let item: Parsed<int> = if 0 <= i < ts.len() && is_ret_punct(ts[i]) {
        Parsed::Done(i + 1)
    } else if at(ts, i, Token::Identifier) {
        path_from(ts, i)
    } else {
        Parsed::Fail(i, ret_starts())
    };
    match item {
        Parsed::Done(e) => {
            if e > i && e <= ts.len() && starts_ret(ts, e) {
                lemma_ret_start(ts, e);
            }
        },
        _ => {},
    }
}

/// Reads the rules of a grammar file. Fails at the first token where the
/// rules cannot go on, naming the tokens that could stand there.
pub fn parse(source: &str) -> (res: Result<Ast<'_>, Error<Token>>)
    requires
        byte_len(source@) <= usize::MAX,
    ensures
        match rules_from(kinds(spec_lex(source@)), 0) {
            Parsed::Done(rules) => res matches Ok(ast) && ast_ok(ast, rules, source@, spec_lex(source@)),
            Parsed::Fail(j, x) => res matches Err(e) && e@ == fail_view(source@, spec_lex(source@), j, x),
        },
{
    let (toks, ranges) = lex_ranges(source);
    let ghost lx = spec_lex(source@);
    proof {
        lemma_lex_ordered(source@, 0);
    }
    let mut ts: Vec<Token> = Vec::new();
    let mut k: usize = 0;
    while k < toks.len()
        invariant
            k <= toks@.len(),
            lexed(source@, toks@),
            lx == spec_lex(source@),
            ts@ =~= kinds(lx).take(k as int),
        decreases toks@.len() - k,
    {
        ts.push(toks[k].token);
        k = k + 1;
    }
    assert(ts@ =~= kinds(lx));
    let ctx = Ctx { source, ts, ranges };
    match rules_of(&ctx) {
        Ok(rules) => Ok(Ast { rules }),
        Err((j, x)) => Err(fail_error(&toks, j, x, Ghost(source@), Ghost(spec_lex(source@)))),
    }
}

#[verifier::spinoff_prover]
#[verifier::rlimit(40)]
fn rules_of<'a>(ctx: &Ctx<'a>) -> (res: Result<Vec<Rule<'a>>, Fail>)
    requires
        ctx.wf(),
    ensures
        match rules_from(ctx.ts@, 0) {
            Parsed::Done(vs) => res matches Ok(rs) && rs@.len() == vs.len() && forall|t: int|
                0 <= t < vs.len() ==> rule_ok(#[trigger] rs@[t], vs[t], ctx.source@, ctx.toks()),
            Parsed::Fail(j, x) => res matches Err(f) && fail_matches(f, j, x),
        },
{
    let n = ctx.ts.len();
    let mut rules: Vec<Rule> = Vec::new();
    let ghost mut vs: Seq<RuleView> = Seq::empty();
    let mut i: usize = 0;
    while i < n
        invariant
            ctx.wf(),
            n == ctx.ts@.len(),
            i <= n,
            rules_from(ctx.ts@, 0) == glue_rules(vs, rules_from(ctx.ts@, i as int)),
            rules@.len() == vs.len(),
            forall|t: int| 0 <= t < vs.len() ==> rule_ok(#[trigger] rules@[t], vs[t], ctx.source@, ctx.toks()),
        decreases n - i,
    {
        if !(ctx.at_of(i, Token::KeywordPublic) || ctx.at_of(i, Token::Identifier)) {
            return Err((i, list3(TokenOrEoi::Token(Token::KeywordPublic), TokenOrEoi::Token(Token::Identifier), TokenOrEoi::Eoi)));
        }
        let (r, e) = match rule_of(ctx, i) {
            Err(f) => return Err(f),
            Ok(r) => r,
        };
        if e <= i || e > n {
            return Err((i, Vec::new()));
        }
        let ghost v = match rule_from(ctx.ts@, i as int) {
            Parsed::Done(v) => v,
            Parsed::Fail(_, _) => arbitrary(),
        };
        rules.push(r);
        proof {
            match rules_from(ctx.ts@, e as int) {
                Parsed::Done(rest) => {
                    assert(vs + (seq![v] + rest) =~= vs.push(v) + rest);
                },
                _ => {},
            }
            vs = vs.push(v);
        }
        i = e;
    }
    assert(vs + Seq::<RuleView>::empty() =~= vs);
    Ok(rules)
}

/// Glues parsed rules in front of what the rest gives.
pub open spec fn glue_rules(done: Seq<RuleView>, rest: Parsed<Seq<RuleView>>) -> Parsed<Seq<RuleView>> {
    match rest {
        Parsed::Done(r) => Parsed::Done(done + r),
        Parsed::Fail(j, x) => Parsed::Fail(j, x),
    }
}

} // verus!
