//! Line splitting, digit counting and indentation.

use crate::text::chars::{chars_of, string_from_chars};
use crate::value::format::dec_string;
use vstd::prelude::*;

verus! {

/// A number has no more decimal digits than its own value (or one).
pub proof fn lemma_dec_string_len(n: nat)
    ensures
        dec_string(n).len() >= 1,
        dec_string(n).len() <= if n == 0 {
            1
        } else {
            n
        },
        dec_string(n).len() <= n / 10 + 1,
    decreases n,
{
    if n >= 10 {
        lemma_dec_string_len(n / 10);
    }
}

/// The number of decimal digits of `num` (one for zero).
pub fn digits(num: usize) -> (res: usize)
    ensures
        res == dec_string(num as nat).len(),
{
    let ghost orig = num as nat;
    let mut n = num;
    let mut count: usize = 0;
    proof {
        lemma_dec_string_len(orig);
    }
    loop
        invariant
            dec_string(orig).len() == dec_string(n as nat).len() + count,
            dec_string(orig).len() <= if orig == 0 {
                1
            } else {
                orig
            },
            orig == num as nat,
        decreases n,
    {
        proof {
            lemma_dec_string_len(n as nat);
        }
        if n < 10 {
            assert(dec_string(n as nat) == seq![crate::value::format::digit_char(n as nat)]);
            return count + 1;
        }
        assert(dec_string(n as nat) == dec_string((n / 10) as nat).push(
            crate::value::format::digit_char((n % 10) as nat),
        ));
        n = n / 10;
        count = count + 1;
    }
}

/// A line without its `\r` before the line feed.
pub open spec fn strip_cr(l: Seq<char>) -> Seq<char> {
    if l.len() > 0 && l.last() == '\r' {
        l.drop_last()
    } else {
        l
    }
}

/// The lines of `cs` from index `i` on, given the text `cur` of the current
/// line so far and the lines `acc` found before: lines end at `\n` (a `\r`
/// before it is dropped), and an empty text after the last `\n` is no line.
pub open spec fn lines_from(cs: Seq<char>, i: int, cur: Seq<char>, acc: Seq<Seq<char>>) -> Seq<
    Seq<char>,
>
    decreases cs.len() - i,
{
    if i < 0 || i >= cs.len() {
        if cur.len() > 0 {
            acc.push(cur)
        } else {
            acc
        }
    } else if cs[i] == '\n' {
        lines_from(cs, i + 1, Seq::empty(), acc.push(strip_cr(cur)))
    } else {
        lines_from(cs, i + 1, cur.push(cs[i]), acc)
    }
}

/// The lines of `cs`, as `str::lines` gives them.
pub open spec fn lines_of(cs: Seq<char>) -> Seq<Seq<char>> {
    lines_from(cs, 0, Seq::empty(), Seq::empty())
}

/// The lines joined by `sep`.
pub open spec fn join(ls: Seq<Seq<char>>, sep: Seq<char>) -> Seq<char>
    decreases ls.len(),
{
    if ls.len() == 0 {
        Seq::empty()
    } else if ls.len() == 1 {
        ls[0]
    } else {
        join(ls.drop_last(), sep) + sep + ls.last()
    }
}

/// `n` spaces.
pub open spec fn spaces(n: nat) -> Seq<char> {
    Seq::new(n, |i: int| ' ')
}

/// The text with every line after the first indented by `indent` spaces.
pub open spec fn indent_text(cs: Seq<char>, indent: nat) -> Seq<char> {
    join(lines_of(cs), seq!['\n'] + spaces(indent))
}

/// The lines of `cs`, as `str::lines` gives them.
pub fn lines(cs: &Vec<char>) -> (res: Vec<Vec<char>>)
    ensures
        res@.len() == lines_of(cs@).len(),
        forall|k: int| 0 <= k < res@.len() ==> #[trigger] res@[k]@ == lines_of(cs@)[k],
{
    let mut acc: Vec<Vec<char>> = Vec::new();
    let mut cur: Vec<char> = Vec::new();
    let mut i: usize = 0;
    let ghost fin = lines_of(cs@);
    assert(acc@.map_values(|l: Vec<char>| l@) =~= Seq::<Seq<char>>::empty());
    assert(cur@ =~= Seq::<char>::empty());
    while i < cs.len()
        invariant
            i <= cs@.len(),
            fin == lines_from(cs@, i as int, cur@, acc@.map_values(|l: Vec<char>| l@)),
        decreases cs@.len() - i,
    {
        let c = cs[i];
        if c == '\n' {
            let ghost before = acc@.map_values(|l: Vec<char>| l@);
            if cur.len() > 0 && cur[cur.len() - 1] == '\r' {
                cur.pop();
            }
            acc.push(cur);
            cur = Vec::new();
            assert(acc@.map_values(|l: Vec<char>| l@) =~= before.push(acc@.last()@));
        } else {
            cur.push(c);
        }
        i = i + 1;
    }
    if cur.len() > 0 {
        let ghost before = acc@.map_values(|l: Vec<char>| l@);
        acc.push(cur);
        assert(acc@.map_values(|l: Vec<char>| l@) =~= before.push(acc@.last()@));
    }
    assert(acc@.map_values(|l: Vec<char>| l@) =~= fin);
    acc
}

/// `s` with every line after the first indented by `indent` spaces.
pub fn indent_str(s: &str, indent: usize) -> (res: String)
    ensures
        res@ == indent_text(s@, indent as nat),
{
    let cs = chars_of(s);
    let ls = lines(&cs);
    let mut out: Vec<char> = Vec::new();
    let ghost sep = seq!['\n'] + spaces(indent as nat);
    let ghost lv = lines_of(s@);
    let mut k: usize = 0;
    while k < ls.len()
        invariant
            k <= ls@.len(),
            ls@.len() == lv.len(),
            forall|j: int| 0 <= j < ls@.len() ==> #[trigger] ls@[j]@ == lv[j],
            sep == seq!['\n'] + spaces(indent as nat),
            out@ == join(lv.take(k as int), sep),
        decreases ls@.len() - k,
    {
        let ghost before = out@;
        if k > 0 {
            out.push('\n');
            let mut t: usize = 0;
            while t < indent
                invariant
                    t <= indent,
                    out@ == before + seq!['\n'] + spaces(t as nat),
                decreases indent - t,
            {
                out.push(' ');
                t = t + 1;
                assert(spaces(t as nat) =~= spaces((t - 1) as nat).push(' '));
            }
        }
        let line = &ls[k];
        let ghost mid = out@;
        let mut j: usize = 0;
        while j < line.len()
            invariant
                j <= line@.len(),
                out@ == mid + line@.take(j as int),
            decreases line@.len() - j,
        {
            out.push(line[j]);
            j = j + 1;
            assert(line@.take(j as int) =~= line@.take(j - 1).push(line@[j - 1]));
        }
        proof {
            assert(line@.take(line@.len() as int) =~= line@);
            assert(lv.take(k + 1).drop_last() =~= lv.take(k as int));
            if k == 0 {
                assert(mid =~= Seq::<char>::empty());
                assert(out@ =~= lv.take(1)[0]);
            } else {
                assert(out@ =~= before + sep + lv[k as int]);
            }
        }
        k = k + 1;
    }
    assert(lv.take(ls@.len() as int) =~= lv);
    string_from_chars(&out)
}

} // verus!
