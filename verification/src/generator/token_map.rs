//! The token map of a grammar file: a list of `"short" = path::to::Token`
//! entries that says which token each shorthand in the rules stands for.

use super::error::GeneratorError;
use super::parser::{at, path_from};
use super::lexer::{lemma_lex_ordered, lex_ranges, lexed, spec_lex, CharToken, Token};
use crate::pretty_error::locations::byte_len;
use crate::pretty_error::Span;
use crate::text::chars::{chars_of, push_str, slice_chars, str_eq, string_from_chars};
use crate::toktok::token::{fail_error, fail_view};
use crate::toktok::{Error, SpannedToken, TokenOrEoi};
use crate::toktok::error::{ErrorView, KindView};
use vstd::prelude::*;

verus! {

/// The kinds of the tokens.
pub open spec fn kinds(toks: Seq<CharToken>) -> Seq<Token> {
    Seq::new(toks.len(), |k: int| toks[k].0)
}

/// The outcome of reading a token list: the entries as token indices (the
/// shorthand, and the first and past-the-last token of the path), or the
/// index of the first token that does not fit with the tokens that would.
pub enum Parsed<A> {
    Done(A),
    Fail(int, Seq<TokenOrEoi<Token>>),
}

/// The entries from token `i` on.
pub open spec fn pairs_from(ts: Seq<Token>, i: int) -> Parsed<Seq<(int, int, int)>>
    decreases ts.len() - i,
{
    if i < 0 || i >= ts.len() {
        Parsed::Done(Seq::empty())
    } else if ts[i] != Token::TokenShort {
        Parsed::Fail(i, seq![TokenOrEoi::Token(Token::TokenShort), TokenOrEoi::Eoi])
    } else if i + 1 >= ts.len() || ts[i + 1] != Token::Assign {
        Parsed::Fail(i + 1, seq![TokenOrEoi::Token(Token::Assign)])
    } else {
        match path_from(ts, i + 2) {
            Parsed::Fail(j, x) => Parsed::Fail(j, x),
            Parsed::Done(e) => if e <= i + 2 || e > ts.len() {
                Parsed::Fail(i + 2, Seq::empty())
            } else {
                match pairs_from(ts, e) {
                    Parsed::Done(rest) => Parsed::Done(seq![(i, i + 2, e)] + rest),
                    Parsed::Fail(j, x) => Parsed::Fail(j, x),
                }
            },
        }
    }
}

/// The text of the tokens from `s` to before `e`.
pub open spec fn tokens_text(cs: Seq<char>, toks: Seq<CharToken>, s: int, e: int) -> Seq<char> {
    cs.subrange(toks[s].1, toks[e - 1].2)
}

/// `"__intern__::c::exact("`
pub open spec fn exact_prefix() -> Seq<char> {
    "__intern__::c::exact("@
}

/// The entries: the shorthand with its quotes, and the combinator that
/// matches the token of the path.
pub open spec fn map_entries(cs: Seq<char>, toks: Seq<CharToken>, pairs: Seq<(int, int, int)>) -> Seq<
    (Seq<char>, Seq<char>),
> {
    Seq::new(
        pairs.len(),
        |k: int|
            (
                tokens_text(cs, toks, pairs[k].0, pairs[k].0 + 1),
                exact_prefix() + tokens_text(cs, toks, pairs[k].1, pairs[k].2) + seq![')'],
            ),
    )
}

/// The first entry whose shorthand came before, with the index of that
/// earlier entry.
pub open spec fn first_duplicate(entries: Seq<(Seq<char>, Seq<char>)>, k: int) -> Option<(int, int)>
    decreases entries.len() - k,
{
    if k < 0 || k >= entries.len() {
        None
    } else if exists|j: int| 0 <= j < k && entries[j].0 == entries[k].0 {
        Some((choose|j: int| 0 <= j < k && entries[j].0 == entries[k].0, k))
    } else {
        first_duplicate(entries, k + 1)
    }
}

/// `"duplicate token short: "`
pub open spec fn duplicate_prefix() -> Seq<char> {
    "duplicate token short: "@
}

/// `"could not find token: "`
pub open spec fn missing_prefix() -> Seq<char> {
    "could not find token: "@
}

/// The value of the entry with `key`, if there is one.
pub open spec fn lookup(entries: Seq<(Seq<char>, Seq<char>)>, key: Seq<char>) -> Option<Seq<char>> {
    if exists|k: int| 0 <= k < entries.len() && #[trigger] entries[k].0 == key {
        Some(entries[choose|k: int| 0 <= k < entries.len() && #[trigger] entries[k].0 == key].1)
    } else {
        None
    }
}

/// The map from token shorthands to the combinators that match them.
#[derive(Debug)]
pub struct TokenMap {
    map: Vec<(String, String)>,
}

impl TokenMap {
    /// The entries, in the order of the file.
    pub closed spec fn entries(&self) -> Seq<(Seq<char>, Seq<char>)> {
        Seq::new(self.map@.len(), |k: int| (self.map@[k].0@, self.map@[k].1@))
    }

    #[verifier::type_invariant]
    closed spec fn distinct(&self) -> bool {
        forall|i: int, j: int|
            0 <= i < j < self.map@.len() ==> self.map@[i].0@ != self.map@[j].0@
    }

    /// The combinator for a shorthand; an error if the map has none.
    pub fn map(&self, token_short: &str) -> (res: Result<String, GeneratorError>)
        ensures
            match lookup(self.entries(), token_short@) {
                Some(v) => res matches Ok(r) && r@ == v,
                None => res matches Err(GeneratorError::Message(m)) && m@ == missing_prefix()
                    + token_short@,
            },
    {
        proof {
            use_type_invariant(self);
        }
        let mut k: usize = 0;
        while k < self.map.len()
            invariant
                k <= self.map@.len(),
                self.distinct(),
                forall|j: int| 0 <= j < k ==> self.map@[j].0@ != token_short@,
            decreases self.map@.len() - k,
        {
            if str_eq(self.map[k].0.as_str(), token_short) {
                let v = self.map[k].1.clone();
                proof {
                    let es = self.entries();
                    assert(es[k as int].0 == token_short@);
                    let c = choose|c: int| 0 <= c < es.len() && #[trigger] es[c].0 == token_short@;
                    if c != k {
                        if c < k {
                            assert(self.map@[c].0@ != self.map@[k as int].0@);
                        } else {
                            assert(self.map@[k as int].0@ != self.map@[c].0@);
                        }
                    }
                }
                return Ok(v);
            }
            k = k + 1;
        }
        proof {
            reveal_strlit("could not find token: ");
            assert forall|j: int| 0 <= j < self.entries().len() implies #[trigger] self.entries()[j].0
                != token_short@ by {
                assert(self.entries()[j].0 == self.map@[j].0@);
            }
        }
        let mut out: Vec<char> = Vec::new();
        push_str(&mut out, "could not find token: ");
        push_str(&mut out, token_short);
        Err(GeneratorError::Message(string_from_chars(&out)))
    }
}

/// The entries found before, followed by what the rest of the tokens give.
pub open spec fn after(done: Seq<(int, int, int)>, rest: Parsed<Seq<(int, int, int)>>) -> Parsed<
    Seq<(int, int, int)>,
> {
    match rest {
        Parsed::Done(r) => Parsed::Done(done + r),
        Parsed::Fail(j, x) => Parsed::Fail(j, x),
    }
}

/// The view of an entry as token indices.
pub open spec fn triple_view(t: (usize, usize, usize)) -> (int, int, int) {
    (t.0 as int, t.1 as int, t.2 as int)
}

fn path_of(ts: &Vec<Token>, i: usize) -> (res: Result<usize, (usize, Vec<TokenOrEoi<Token>>)>)
    ensures
        match path_from(ts@, i as int) {
            Parsed::Done(e) => res matches Ok(ee) && ee == e,
            Parsed::Fail(j, x) => res matches Err((jj, xx)) && jj == j && xx@ == x,
        },
{
    let n = ts.len();
    let mut j = i;
    loop
        invariant
            n == ts@.len(),
            i <= j,
            path_from(ts@, j as int) == path_from(ts@, i as int),
        decreases n - j,
    {
        if !(j < n && ts[j] == Token::Identifier) {
            return Err((j, expected_of(TokenOrEoi::Token(Token::Identifier), None)));
        }
        if j + 1 < n && ts[j + 1] == Token::DoubleColon {
            j = j + 2;
        } else {
            return Ok(j + 1);
        }
    }
}

fn expected_of(a: TokenOrEoi<Token>, b: Option<TokenOrEoi<Token>>) -> (res: Vec<TokenOrEoi<Token>>)
    ensures
        res@ == match b {
            Some(b) => seq![a, b],
            None => seq![a],
        },
{
    let mut v: Vec<TokenOrEoi<Token>> = Vec::new();
    v.push(a);
    match b {
        Some(b) => {
            v.push(b);
        },
        None => {},
    }
    assert(v@ =~= match b {
        Some(b) => seq![a, b],
        None => seq![a],
    });
    v
}

/// The entries of a token list, as token indices, or where it fails.
fn parse_pairs(ts: &Vec<Token>) -> (res: Result<Vec<(usize, usize, usize)>, (usize, Vec<TokenOrEoi<Token>>)>)
    ensures
        match pairs_from(ts@, 0) {
            Parsed::Done(p) => res matches Ok(v) && Seq::new(v@.len(), |k: int| triple_view(v@[k])) == p,
            Parsed::Fail(j, x) => res matches Err((jj, xx)) && jj == j && xx@ == x,
        },
        res matches Ok(v) ==> forall|k: int|
            0 <= k < v@.len() ==> (#[trigger] v@[k]).0 + 2 == v@[k].1 && v@[k].1 < v@[k].2 <= ts@.len(),
{
    let n = ts.len();
    let mut done: Vec<(usize, usize, usize)> = Vec::new();
    let mut i: usize = 0;
    while i < n
        invariant
            n == ts@.len(),
            i <= n,
            pairs_from(ts@, 0) == after(Seq::new(done@.len(), |k: int| triple_view(done@[k])), pairs_from(ts@, i as int)),
            forall|k: int|
                0 <= k < done@.len() ==> (#[trigger] done@[k]).0 + 2 == done@[k].1 && done@[k].1 < done@[k].2 <= n,
        decreases n - i,
    {
        if ts[i] != Token::TokenShort {
            return Err((i, expected_of(TokenOrEoi::Token(Token::TokenShort), Some(TokenOrEoi::Eoi))));
        }
        if i + 1 >= n || ts[i + 1] != Token::Assign {
            return Err((i + 1, expected_of(TokenOrEoi::Token(Token::Assign), None)));
        }
        let e = match path_of(ts, i + 2) {
            Err(f) => return Err(f),
            Ok(e) => e,
        };
        if e <= i + 2 || e > n {
            return Err((i + 2, Vec::new()));
        }
        let ghost d = Seq::new(done@.len(), |k: int| triple_view(done@[k]));
        done.push((i, i + 2, e));
        proof {
            let d2 = Seq::new(done@.len(), |k: int| triple_view(done@[k]));
            assert(d2 =~= d.push((i as int, i + 2, e as int)));
            match pairs_from(ts@, e as int) {
                Parsed::Done(r) => {
                    assert(d + (seq![(i as int, i + 2, e as int)] + r) =~= d2 + r);
                },
                Parsed::Fail(j, x) => {},
            }
        }
        i = e;
    }
    proof {
        let d = Seq::new(done@.len(), |k: int| triple_view(done@[k]));
        assert(d + Seq::<(int, int, int)>::empty() =~= d);
    }
    Ok(done)
}

/// The first entry with `key`, if there is one.
fn find_key(map: &Vec<(String, String)>, key: &str) -> (res: Option<usize>)
    ensures
        res matches Some(j) ==> j < map@.len() && map@[j as int].0@ == key@ && forall|t: int|
            0 <= t < j ==> (#[trigger] map@[t]).0@ != key@,
        res is None ==> forall|t: int| 0 <= t < map@.len() ==> (#[trigger] map@[t]).0@ != key@,
{
    let mut j: usize = 0;
    while j < map.len()
        invariant
            j <= map@.len(),
            forall|t: int| 0 <= t < j ==> (#[trigger] map@[t]).0@ != key@,
        decreases map@.len() - j,
    {
        if str_eq(map[j].0.as_str(), key) {
            return Some(j);
        }
        j = j + 1;
    }
    None
}

/// Reads the token map of a grammar file: the entries in order, with the
/// path of each made into the combinator that matches that token. Fails if
/// the tokens do not follow `("short" = path)*`, or if a shorthand comes
/// twice: then the message names the combinator of its first entry.
pub fn parse_and_build(source: &str) -> (res: Result<TokenMap, GeneratorError>)
    requires
        byte_len(source@) <= usize::MAX,
    ensures
        match pairs_from(kinds(spec_lex(source@)), 0) {
            Parsed::Fail(j, x) => res matches Err(GeneratorError::Parse(e)) && e@ == fail_view(
                source@,
                spec_lex(source@),
                j,
                x,
            ),
            Parsed::Done(pairs) => {
                let es = map_entries(source@, spec_lex(source@), pairs);
                match first_duplicate(es, 0) {
                    Some((j, k)) => res matches Err(GeneratorError::Message(m)) && m@
                        == duplicate_prefix() + es[j].1,
                    None => res matches Ok(map) && map.entries() == es,
                }
            },
        },
{
    let (toks, ranges) = lex_ranges(source);
    let cs = chars_of(source);
    let ghost lx = spec_lex(source@);
    proof {
        lemma_lex_ordered(source@, 0);
    }
    let mut ks: Vec<Token> = Vec::new();
    let mut k: usize = 0;
    while k < toks.len()
        invariant
            k <= toks@.len(),
            lexed(source@, toks@),
            lx == spec_lex(source@),
            ks@ =~= kinds(lx).take(k as int),
        decreases toks@.len() - k,
    {
        ks.push(toks[k].token);
        k = k + 1;
    }
    assert(ks@ =~= kinds(lx));
    let pairs = match parse_pairs(&ks) {
        Err((j, expected)) => {
            return Err(GeneratorError::Parse(fail_error(&toks, j, expected, Ghost(source@), Ghost(spec_lex(source@)))));
        },
        Ok(p) => p,
    };
    let ghost pv = Seq::new(pairs@.len(), |k: int| triple_view(pairs@[k]));
    let ghost es = map_entries(source@, lx, pv);
    let mut map: Vec<(String, String)> = Vec::new();
    let mut k: usize = 0;
    proof {
        reveal_strlit("__intern__::c::exact(");
        reveal_strlit("duplicate token short: ");
    }
    while k < pairs.len()
        invariant
            k <= pairs@.len(),
            cs@ == source@,
            lx == spec_lex(source@),
            ks@.len() == lx.len(),
            ranges@.len() == lx.len(),
            forall|t: int|
                0 <= t < ranges@.len() ==> (#[trigger] ranges@[t]).0 == lx[t].1 && ranges@[t].1
                    == lx[t].2,
            forall|t: int| 0 <= t < lx.len() ==> (#[trigger] lx[t]).1 < lx[t].2 <= source@.len(),
            forall|t1: int, t2: int| 0 <= t1 < t2 < lx.len() ==> (#[trigger] lx[t1]).2 <= (#[trigger] lx[t2]).1,
            pv == Seq::new(pairs@.len(), |k: int| triple_view(pairs@[k])),
            forall|t: int|
                0 <= t < pairs@.len() ==> (#[trigger] pairs@[t]).0 + 2 == pairs@[t].1 && pairs@[t].1
                    < pairs@[t].2 <= ks@.len(),
            es == map_entries(source@, lx, pv),
            pairs_from(kinds(lx), 0) == Parsed::Done(pv),
            map@.len() == k,
            forall|t: int| 0 <= t < k ==> (#[trigger] map@[t]).0@ == es[t].0 && map@[t].1@ == es[t].1,
            forall|t1: int, t2: int| 0 <= t1 < t2 < k ==> map@[t1].0@ != map@[t2].0@,
            first_duplicate(es, 0) == first_duplicate(es, k as int),
        decreases pairs@.len() - k,
    {
        let (s, ps, pe) = pairs[k];
        let key = slice_chars(&cs, ranges[s].0, ranges[s].1);
        let mut val: Vec<char> = Vec::new();
        push_str(&mut val, "__intern__::c::exact(");
        let path = slice_chars(&cs, ranges[ps].0, ranges[pe - 1].1);
        push_str(&mut val, path.as_str());
        val.push(')');
        let value = string_from_chars(&val);
        proof {
            assert(es[k as int].0 == key@);
            assert(val@ =~= exact_prefix() + path@ + seq![')']);
            assert(es[k as int].1 == value@);
        }
        match find_key(&map, key.as_str()) {
            Some(j) => {
                let mut msg: Vec<char> = Vec::new();
                push_str(&mut msg, "duplicate token short: ");
                push_str(&mut msg, map[j].1.as_str());
                proof {
                    assert(exists|t: int| 0 <= t < k && es[t].0 == es[k as int].0) by {
                        assert(es[j as int].0 == es[k as int].0);
                    }
                    let c = choose|t: int| 0 <= t < k && es[t].0 == es[k as int].0;
                    if c != j {
                        if c < j {
                            assert(map@[c].0@ != key@);
                        } else {
                            assert(map@[j as int].0@ != map@[c].0@);
                        }
                    }
                    assert(first_duplicate(es, k as int) == Some((j as int, k as int)));
                }
                return Err(GeneratorError::Message(string_from_chars(&msg)));
            },
            None => {},
        }
        proof {
            assert(!(exists|t: int| 0 <= t < k && es[t].0 == es[k as int].0)) by {
                if exists|t: int| 0 <= t < k && es[t].0 == es[k as int].0 {
                    let c = choose|t: int| 0 <= t < k && es[t].0 == es[k as int].0;
                    assert(map@[c].0@ != key@);
                }
            }
            assert(first_duplicate(es, k as int) == first_duplicate(es, k + 1));
        }
        map.push((key, value));
        k = k + 1;
    }
    let res = TokenMap { map };
    assert(res.entries() =~= es);
    Ok(res)
}

/// Without a repeated shorthand from `k` on, no shorthand at or after `k`
/// equals one before it.
proof fn lemma_no_duplicate_distinct(entries: Seq<(Seq<char>, Seq<char>)>, k: int)
    requires
        0 <= k,
        first_duplicate(entries, k) is None,
    ensures
        forall|i: int, j: int|
            0 <= j < i < entries.len() && k <= i ==> #[trigger] entries[j].0 != #[trigger] entries[i].0,
    decreases entries.len() - k,
{
    if k < entries.len() {
        lemma_no_duplicate_distinct(entries, k + 1);
    }
}

/// The shorthand (with its quotes) of entry `k`.
pub open spec fn entry_short(cs: Seq<char>, pairs: Seq<(int, int, int)>, k: int) -> Seq<char> {
    tokens_text(cs, spec_lex(cs), pairs[k].0, pairs[k].0 + 1)
}

/// The path of entry `k`.
pub open spec fn entry_path(cs: Seq<char>, pairs: Seq<(int, int, int)>, k: int) -> Seq<char> {
    tokens_text(cs, spec_lex(cs), pairs[k].1, pairs[k].2)
}

/// Lookups in a token map read from a grammar file of `TokenShort = path`
/// entries with distinct shorthands (the map that `parse_and_build` then
/// gives): each shorthand of the file gives `__intern__::c::exact(path)`
/// with the path written beside it, and a name that is no shorthand of the
/// file gives nothing (so `map` answers "could not find token: " and the
/// name).
pub proof fn law_token_map_lookup(
    source: Seq<char>,
    pairs: Seq<(int, int, int)>,
    m: TokenMap,
    key: Seq<char>,
)
    requires
        are_pairs(kinds(spec_lex(source)), pairs),
        shorts_distinct(source, pairs),
        m.entries() == map_entries(source, spec_lex(source), pairs),
    ensures
        forall|k: int|
            0 <= k < pairs.len() ==> lookup(m.entries(), #[trigger] entry_short(source, pairs, k))
                == Some(exact_prefix() + entry_path(source, pairs, k) + seq![')']),
        (forall|k: int| 0 <= k < pairs.len() ==> #[trigger] entry_short(source, pairs, k) != key)
            ==> lookup(m.entries(), key) is None,
{
    let es = m.entries();
    law_token_map_syntax(source, pairs);
    lemma_no_duplicate_distinct(es, 0);
    assert forall|k: int| 0 <= k < pairs.len() implies lookup(
        m.entries(),
        #[trigger] entry_short(source, pairs, k),
    ) == Some(exact_prefix() + entry_path(source, pairs, k) + seq![')']) by {
        let key2 = entry_short(source, pairs, k);
        assert(es[k].0 == key2);
        let c = choose|c: int| 0 <= c < es.len() && #[trigger] es[c].0 == key2;
        if c < k {
            assert(es[c].0 != es[k].0);
        } else if c > k {
            assert(es[k].0 != es[c].0);
        }
    }
    if forall|k: int| 0 <= k < pairs.len() ==> #[trigger] entry_short(source, pairs, k) != key {
        assert forall|k: int| 0 <= k < es.len() implies #[trigger] es[k].0 != key by {
            assert(entry_short(source, pairs, k) != key);
        }
    }
}

/// Tokens `s` to before `e` form a path: identifiers joined by `::`.
pub open spec fn is_path(ts: Seq<Token>, s: int, e: int) -> bool {
    &&& 0 <= s < e <= ts.len()
    &&& (e - s) % 2 == 1
    &&& forall|j: int|
        s <= j < e ==> #[trigger] ts[j] == (if (j - s) % 2 == 0 {
            Token::Identifier
        } else {
            Token::DoubleColon
        })
}

/// The tokens from `i` on are `TokenShort = path` entries, one after the
/// other up to the end; entry `k` is the shorthand at `pairs[k].0`, and the
/// path from `pairs[k].1` to before `pairs[k].2`.
pub open spec fn are_pairs_from(ts: Seq<Token>, pairs: Seq<(int, int, int)>, i: int) -> bool {
    &&& (pairs.len() == 0 ==> i == ts.len())
    &&& (pairs.len() > 0 ==> pairs[0].0 == i && pairs.last().2 == ts.len())
    &&& forall|k: int|
        0 <= k < pairs.len() ==> {
            &&& 0 <= (#[trigger] pairs[k]).0
            &&& ts[pairs[k].0] == Token::TokenShort
            &&& ts[pairs[k].0 + 1] == Token::Assign
            &&& pairs[k].1 == pairs[k].0 + 2
            &&& is_path(ts, pairs[k].1, pairs[k].2)
        }
    &&& forall|k: int| 0 <= k < pairs.len() - 1 ==> (#[trigger] pairs[k]).2 == pairs[k + 1].0
}

/// The whole token list is `TokenShort = path` entries.
pub open spec fn are_pairs(ts: Seq<Token>, pairs: Seq<(int, int, int)>) -> bool {
    are_pairs_from(ts, pairs, 0)
}

/// No shorthand of the file comes twice.
pub open spec fn shorts_distinct(cs: Seq<char>, pairs: Seq<(int, int, int)>) -> bool {
    forall|i: int, j: int|
        0 <= i < j < pairs.len() ==> #[trigger] entry_short(cs, pairs, i) != #[trigger] entry_short(
            cs,
            pairs,
            j,
        )
}

proof fn lemma_path_from_is_path(ts: Seq<Token>, s: int, e: int)
    requires
        is_path(ts, s, e),
        !at(ts, e, Token::DoubleColon),
    ensures
        path_from(ts, s) == Parsed::<int>::Done(e),
    decreases e - s,
{
    assert(ts[s] == Token::Identifier);
    if e - s > 1 {
        assert(ts[s + 1] == Token::DoubleColon);
        assert forall|j: int| s + 2 <= j < e implies #[trigger] ts[j] == (if (j - (s + 2)) % 2 == 0 {
            Token::Identifier
        } else {
            Token::DoubleColon
        }) by {
            assert(ts[j] == (if (j - s) % 2 == 0 {
                Token::Identifier
            } else {
                Token::DoubleColon
            }));
            assert((j - s) % 2 == (j - (s + 2)) % 2);
        }
        lemma_path_from_is_path(ts, s + 2, e);
    }
}

proof fn lemma_is_path_from_path(ts: Seq<Token>, s: int, e: int)
    requires
        0 <= s,
        path_from(ts, s) == Parsed::<int>::Done(e),
    ensures
        is_path(ts, s, e),
        !at(ts, e, Token::DoubleColon),
    decreases ts.len() - s,
{
    if at(ts, s + 1, Token::DoubleColon) {
        lemma_is_path_from_path(ts, s + 2, e);
        assert forall|j: int| s <= j < e implies #[trigger] ts[j] == (if (j - s) % 2 == 0 {
            Token::Identifier
        } else {
            Token::DoubleColon
        }) by {
            if j >= s + 2 {
                assert(ts[j] == (if (j - (s + 2)) % 2 == 0 {
                    Token::Identifier
                } else {
                    Token::DoubleColon
                }));
                assert((j - s) % 2 == (j - (s + 2)) % 2);
            }
        }
    }
}

proof fn lemma_pairs_from_are_pairs(ts: Seq<Token>, pairs: Seq<(int, int, int)>, k: int)
    requires
        are_pairs(ts, pairs),
        0 <= k <= pairs.len(),
    ensures
        pairs_from(ts, if k < pairs.len() { pairs[k].0 } else { ts.len() as int })
            == Parsed::Done(pairs.subrange(k, pairs.len() as int)),
    decreases pairs.len() - k,
{
    if k == pairs.len() {
        assert(pairs.subrange(k, pairs.len() as int) =~= Seq::<(int, int, int)>::empty());
    } else {
        let (a, b, e) = pairs[k];
        assert(0 <= a && ts[a] == Token::TokenShort && ts[a + 1] == Token::Assign && b == a + 2
            && is_path(ts, b, e));
        if k + 1 < pairs.len() {
            assert(pairs[k].2 == pairs[k + 1].0);
            assert(ts[pairs[k + 1].0] == Token::TokenShort);
        } else {
            assert(pairs.last() == pairs[k]);
        }
        lemma_path_from_is_path(ts, b, e);
        lemma_pairs_from_are_pairs(ts, pairs, k + 1);
        assert(pairs.subrange(k, pairs.len() as int) =~= seq![(a, b, e)] + pairs.subrange(
            k + 1,
            pairs.len() as int,
        ));
    }
}

proof fn lemma_are_pairs_of_pairs_from(ts: Seq<Token>, i: int, pairs: Seq<(int, int, int)>)
    requires
        0 <= i <= ts.len(),
        pairs_from(ts, i) == Parsed::Done(pairs),
    ensures
        are_pairs_from(ts, pairs, i),
    decreases ts.len() - i,
{
    if i < ts.len() {
        match path_from(ts, i + 2) {
            Parsed::Done(e) => {
                lemma_is_path_from_path(ts, i + 2, e);
                match pairs_from(ts, e) {
                    Parsed::Done(rest) => {
                        lemma_are_pairs_of_pairs_from(ts, e, rest);
                        assert(pairs == seq![(i, i + 2, e)] + rest);
                        assert forall|k: int| 0 <= k < pairs.len() - 1 implies (
                        #[trigger] pairs[k]).2 == pairs[k + 1].0 by {
                            if k > 0 {
                                assert(pairs[k] == rest[k - 1]);
                                assert(pairs[k + 1] == rest[k]);
                            }
                        }
                        assert forall|k: int| 0 <= k < pairs.len() implies {
                            &&& 0 <= (#[trigger] pairs[k]).0
                            &&& ts[pairs[k].0] == Token::TokenShort
                            &&& ts[pairs[k].0 + 1] == Token::Assign
                            &&& pairs[k].1 == pairs[k].0 + 2
                            &&& is_path(ts, pairs[k].1, pairs[k].2)
                        } by {
                            if k > 0 {
                                assert(pairs[k] == rest[k - 1]);
                            }
                        }
                        if rest.len() > 0 {
                            assert(pairs.last() == rest.last());
                        }
                    },
                    Parsed::Fail(_, _) => {},
                }
            },
            Parsed::Fail(_, _) => {},
        }
    } else {
        assert(pairs =~= Seq::<(int, int, int)>::empty());
    }
}

proof fn lemma_distinct_no_duplicate(entries: Seq<(Seq<char>, Seq<char>)>, k: int)
    requires
        0 <= k,
        forall|i: int, j: int|
            0 <= j < i < entries.len() ==> #[trigger] entries[j].0 != #[trigger] entries[i].0,
    ensures
        first_duplicate(entries, k) is None,
    decreases entries.len() - k,
{
    if k < entries.len() {
        lemma_distinct_no_duplicate(entries, k + 1);
    }
}

/// The grammar of a token map: a token list is read as entries exactly when
/// it is `TokenShort = path` entries up to its end, and then the entries are
/// those pairs; no shorthand is repeated exactly when no entry is refused
/// as a duplicate. With `parse_and_build`, this says: it gives `Ok` exactly
/// for a file of such entries with distinct shorthands.
pub proof fn law_token_map_syntax(source: Seq<char>, pairs: Seq<(int, int, int)>)
    ensures
        are_pairs(kinds(spec_lex(source)), pairs) <==> pairs_from(kinds(spec_lex(source)), 0)
            == Parsed::Done(pairs),
        are_pairs(kinds(spec_lex(source)), pairs) ==> (shorts_distinct(source, pairs) <==> first_duplicate(
            map_entries(source, spec_lex(source), pairs),
            0,
        ) is None),
{
    let ts = kinds(spec_lex(source));
    let es = map_entries(source, spec_lex(source), pairs);
    if are_pairs(ts, pairs) {
        lemma_pairs_from_are_pairs(ts, pairs, 0);
        assert(pairs.subrange(0, pairs.len() as int) =~= pairs);
        if pairs.len() == 0 {
            assert(ts.len() == 0);
        }
    }
    if pairs_from(ts, 0) == Parsed::Done(pairs) {
        lemma_are_pairs_of_pairs_from(ts, 0, pairs);
    }
    if are_pairs(ts, pairs) {
        if shorts_distinct(source, pairs) {
            assert forall|i: int, j: int| 0 <= j < i < es.len() implies #[trigger] es[j].0
                != #[trigger] es[i].0 by {
                assert(es[j].0 == entry_short(source, pairs, j));
                assert(es[i].0 == entry_short(source, pairs, i));
            }
            lemma_distinct_no_duplicate(es, 0);
        }
        if first_duplicate(es, 0) is None {
            lemma_no_duplicate_distinct(es, 0);
            assert forall|i: int, j: int| 0 <= i < j < pairs.len() implies #[trigger] entry_short(
                source,
                pairs,
                i,
            ) != #[trigger] entry_short(source, pairs, j) by {
                assert(es[i].0 != es[j].0);
            }
        }
    }
}

} // verus!
