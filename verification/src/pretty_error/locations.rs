//! Finding the lines, columns and text that a span covers.

use crate::pretty_error::Span;
use crate::text::chars::chars_of;
use vstd::prelude::*;

verus! {

/// A place in the source that an error covers: one line's part of the span.
/// Lines and columns count from one; the line text is given by character
/// indices into the source, the covered range by byte offsets.
#[derive(Debug, Clone, Copy, PartialEq, Eq, Structural)]
pub struct Loc {
    pub line: usize,
    pub column: usize,
    pub column_last: usize,
    pub slice_start: usize,
    pub slice_end: usize,
    pub range_start: usize,
    pub range_end: usize,
}

/// The state of a left-to-right scan of the source.
pub struct Scan {
    pub locs: Seq<Loc>,
    pub start_new: bool,
    pub pos: int,
    pub line_start: int,
    pub slice_end: int,
    pub line: int,
    pub column: int,
    pub failed: bool,
}

/// The number of bytes of the UTF-8 encoding of `c`.
pub open spec fn utf8_len(c: char) -> nat {
    if (c as nat) < 0x80 {
        1
    } else if (c as nat) < 0x800 {
        2
    } else if (c as nat) < 0x10000 {
        3
    } else {
        4
    }
}

/// The number of bytes of the UTF-8 encoding of `cs`.
pub open spec fn byte_len(cs: Seq<char>) -> nat
    decreases cs.len(),
{
    if cs.len() == 0 {
        0
    } else {
        byte_len(cs.drop_last()) + utf8_len(cs.last())
    }
}

/// The byte range of a span: the end of the input is an empty range there.
pub open spec fn span_range(cs: Seq<char>, span: Span) -> (int, int) {
    match span {
        Span::Eoi => (byte_len(cs) as int, byte_len(cs) as int),
        Span::Range(r) => (r.start as int, r.end as int),
    }
}

pub open spec fn in_range(r: (int, int), pos: int) -> bool {
    r.0 <= pos < r.1
}

/// A place of one column at `pos`, with the current line text.
pub open spec fn new_loc(st: Scan, end: int) -> Loc {
    Loc {
        line: st.line as usize,
        column: st.column as usize,
        column_last: st.column as usize,
        slice_start: st.line_start as usize,
        slice_end: st.slice_end as usize,
        range_start: st.pos as usize,
        range_end: end as usize,
    }
}

/// The width of a line break at character `i`: two for `\r\n`, one for
/// `\n`, none if there is none.
pub open spec fn break_width(cs: Seq<char>, i: int) -> int {
    if cs[i] == '\r' && i + 1 < cs.len() && cs[i + 1] == '\n' {
        2
    } else if cs[i] == '\n' {
        1
    } else {
        0
    }
}

/// The scan over a line break of width `w` at character `i`.
pub open spec fn scan_break(r: (int, int), i: int, w: int, st: Scan) -> Scan {
    let locs = if r.0 == st.pos {
        st.locs.push(new_loc(st, st.pos + w))
    } else {
        st.locs
    };
    Scan {
        locs,
        start_new: if in_range(r, st.pos) {
            true
        } else {
            st.start_new
        },
        pos: st.pos + w,
        line_start: i + w,
        slice_end: i + w,
        line: st.line + 1,
        column: 1,
        failed: false,
    }
}

/// Whether the character at the scan position starts a new place.
pub open spec fn char_pushes(r: (int, int), st: Scan) -> bool {
    r.0 == st.pos || (in_range(r, st.pos) && st.start_new)
}

/// Whether the character at the scan position extends the last place.
pub open spec fn char_extends(r: (int, int), st: Scan) -> bool {
    !char_pushes(r, st) && in_range(r, st.pos)
}

/// The places after the character `c` at index `i`, before the update of the
/// last place's line text.
pub open spec fn char_locs(r: (int, int), i: int, c: char, st: Scan) -> Seq<Loc> {
    let w = utf8_len(c) as int;
    if char_pushes(r, st) {
        st.locs.push(new_loc(Scan { slice_end: i + 1, ..st }, st.pos + w))
    } else if char_extends(r, st) && st.locs.len() > 0 {
        st.locs.update(
            st.locs.len() - 1,
            Loc { column_last: st.column as usize, range_end: (st.pos + w) as usize, ..st.locs.last() },
        )
    } else {
        st.locs
    }
}

/// The places with the line text of the last one set to the current line.
pub open spec fn with_last_slice(locs: Seq<Loc>, line_start: int, end: int) -> Seq<Loc> {
    if locs.len() > 0 {
        locs.update(
            locs.len() - 1,
            Loc { slice_start: line_start as usize, slice_end: end as usize, ..locs.last() },
        )
    } else {
        locs
    }
}

/// The scan over the character `c` (not a line break) at index `i`.
pub open spec fn scan_char(r: (int, int), i: int, c: char, st: Scan) -> Scan {
    Scan {
        locs: with_last_slice(char_locs(r, i, c, st), st.line_start, i + 1),
        start_new: false,
        pos: st.pos + utf8_len(c) as int,
        line_start: st.line_start,
        slice_end: i + 1,
        line: st.line,
        column: st.column + 1,
        failed: char_extends(r, st) && st.locs.len() == 0,
    }
}

/// One step of the scan at character `i`: a line break (`\r\n` taking two
/// characters) or another character. Returns the next index, the new state
/// and whether the scan stops there.
pub open spec fn scan_step(cs: Seq<char>, r: (int, int), i: int, st: Scan) -> (int, Scan, bool) {
    let w = break_width(cs, i);
    if w > 0 {
        (i + w, scan_break(r, i, w, st), st.pos + w >= r.1)
    } else {
        (i + 1, scan_char(r, i, cs[i], st), false)
    }
}

/// The scan from character `i` on, until the end, a stop, or a failure.
pub open spec fn scan_from(cs: Seq<char>, r: (int, int), i: int, st: Scan) -> Scan
    decreases cs.len() - i,
{
    if i < 0 || i >= cs.len() || st.failed {
        st
    } else {
        let (j, next, stop) = scan_step(cs, r, i, st);
        if stop || j <= i {
            next
        } else {
            scan_from(cs, r, j, next)
        }
    }
}

pub open spec fn scan_start() -> Scan {
    Scan {
        locs: Seq::empty(),
        start_new: false,
        pos: 0,
        line_start: 0,
        slice_end: 0,
        line: 1,
        column: 1,
        failed: false,
    }
}

/// The places that a span covers in the source: one per line, with a last
/// empty place at the position where the scan ended if the span starts there.
pub open spec fn spec_locations(cs: Seq<char>, span: Span) -> Seq<Loc> {
    let r = span_range(cs, span);
    let st = scan_from(cs, r, 0, scan_start());
    if r.0 == st.pos {
        st.locs.push(new_loc(st, st.pos))
    } else {
        st.locs
    }
}

/// The scan meets no character inside the span before it has found where
/// the span starts (there is then no place to extend).
pub open spec fn locations_defined(cs: Seq<char>, span: Span) -> bool {
    !scan_from(cs, span_range(cs, span), 0, scan_start()).failed
}

/// A place whose column counts from one and whose line text lies within
/// `n` characters.
pub open spec fn loc_ok(l: Loc, n: nat) -> bool {
    &&& l.column >= 1
    &&& l.line >= 1
    &&& l.slice_start <= l.slice_end <= n
}

/// A scan state at character `i` of `cs` with sane bounds.
pub open spec fn scan_ok(cs: Seq<char>, i: int, st: Scan) -> bool {
    &&& 0 <= i <= cs.len()
    &&& cs.len() + 2 <= usize::MAX
    &&& 1 <= st.column <= i + 1
    &&& 1 <= st.line <= i + 1
    &&& 0 <= st.line_start <= st.slice_end <= i
    &&& forall|k: int| 0 <= k < st.locs.len() ==> loc_ok(#[trigger] st.locs[k], cs.len())
}

proof fn lemma_scan_ok(cs: Seq<char>, r: (int, int), i: int, st: Scan)
    requires
        scan_ok(cs, i, st),
    ensures
        scan_ok(cs, cs.len() as int, scan_from(cs, r, i, st)) || scan_ok(
            cs,
            i,
            scan_from(cs, r, i, st),
        ),
        forall|k: int|
            0 <= k < scan_from(cs, r, i, st).locs.len() ==> loc_ok(
                #[trigger] scan_from(cs, r, i, st).locs[k],
                cs.len(),
            ),
        1 <= scan_from(cs, r, i, st).column <= cs.len() + 1,
        1 <= scan_from(cs, r, i, st).line <= cs.len() + 1,
        0 <= scan_from(cs, r, i, st).line_start <= scan_from(cs, r, i, st).slice_end <= cs.len(),
    decreases cs.len() - i,
{
    if i < 0 || i >= cs.len() || st.failed {
    } else {
        let (j, next, stop) = scan_step(cs, r, i, st);
        let w = break_width(cs, i);
        if w > 0 {
            assert(scan_ok(cs, j, next)) by {
                assert forall|k: int| 0 <= k < next.locs.len() implies loc_ok(
                    #[trigger] next.locs[k],
                    cs.len(),
                ) by {
                    if k < st.locs.len() {
                        assert(next.locs[k] == st.locs[k]);
                    }
                }
            }
        } else {
            let c = cs[i];
            let l0 = char_locs(r, i, c, st);
            assert forall|k: int| 0 <= k < l0.len() implies loc_ok(#[trigger] l0[k], cs.len()) by {
                if k < st.locs.len() {
                    assert(loc_ok(st.locs[k], cs.len()));
                }
            }
            assert(scan_ok(cs, j, next)) by {
                assert forall|k: int| 0 <= k < next.locs.len() implies loc_ok(
                    #[trigger] next.locs[k],
                    cs.len(),
                ) by {
                    assert(loc_ok(l0[k], cs.len()));
                }
            }
        }
        if !stop && j > i {
            lemma_scan_ok(cs, r, j, next);
        }
    }
}

/// Every place that the scan finds has a column from one and line text
/// within the source.
pub proof fn lemma_locations_ok(cs: Seq<char>, span: Span)
    requires
        cs.len() + 2 <= usize::MAX,
    ensures
        forall|k: int|
            0 <= k < spec_locations(cs, span).len() ==> loc_ok(
                #[trigger] spec_locations(cs, span)[k],
                cs.len(),
            ),
{
    let r = span_range(cs, span);
    assert(scan_ok(cs, 0, scan_start()));
    lemma_scan_ok(cs, r, 0, scan_start());
    let st = scan_from(cs, r, 0, scan_start());
    let res = spec_locations(cs, span);
    assert forall|k: int| 0 <= k < res.len() implies loc_ok(#[trigger] res[k], cs.len()) by {
        if k < st.locs.len() {
            assert(loc_ok(st.locs[k], cs.len()));
        }
    }
}

/// The number of bytes of the UTF-8 encoding of `c`.
pub fn utf8_len_of(c: char) -> (res: usize)
    ensures
        res == utf8_len(c),
{
    let u = c as u32;
    if u < 0x80 {
        1
    } else if u < 0x800 {
        2
    } else if u < 0x10000 {
        3
    } else {
        4
    }
}

/// The byte offset of every character boundary grows by the character's
/// encoded width.
pub proof fn lemma_byte_len_take(cs: Seq<char>, i: int)
    requires
        0 <= i < cs.len(),
    ensures
        byte_len(cs.take(i + 1)) == byte_len(cs.take(i)) + utf8_len(cs[i]),
        byte_len(cs.take(i)) <= byte_len(cs),
{
    assert(cs.take(i + 1).drop_last() =~= cs.take(i));
    lemma_byte_len_mono(cs, i + 1);
}

pub proof fn lemma_byte_len_mono(cs: Seq<char>, k: int)
    requires
        0 <= k <= cs.len(),
    ensures
        byte_len(cs.take(k)) <= byte_len(cs),
        byte_len(cs.take(k)) + (cs.len() - k) <= byte_len(cs),
    decreases cs.len() - k,
{
    if k == cs.len() {
        assert(cs.take(k) =~= cs);
    } else {
        lemma_byte_len_mono(cs, k + 1);
        assert(cs.take(k + 1).drop_last() =~= cs.take(k));
    }
}

/// The total number of bytes of `cs`.
fn byte_len_of(cs: &Vec<char>) -> (res: usize)
    requires
        byte_len(cs@) <= usize::MAX,
    ensures
        res == byte_len(cs@),
{
    let mut total: usize = 0;
    let mut i: usize = 0;
    assert(cs@.take(0) =~= Seq::<char>::empty());
    while i < cs.len()
        invariant
            i <= cs@.len(),
            total == byte_len(cs@.take(i as int)),
            byte_len(cs@) <= usize::MAX,
        decreases cs@.len() - i,
    {
        proof {
            lemma_byte_len_take(cs@, i as int);
            lemma_byte_len_mono(cs@, i + 1);
        }
        total = total + utf8_len_of(cs[i]);
        i = i + 1;
    }
    assert(cs@.take(cs@.len() as int) =~= cs@);
    total
}

/// The places that `span` covers in `source` (see `spec_locations`), or
/// `None` where the scan meets a character inside the span before it has
/// found where the span starts.
pub fn try_locations(source: &str, span: Span) -> (res: Option<Vec<Loc>>)
    requires
        byte_len(source@) + 2 <= usize::MAX,
    ensures
        res is Some <==> locations_defined(source@, span),
        res matches Some(v) ==> v@ == spec_locations(source@, span),
{
    let cs = chars_of(source);
    let n = cs.len();
    proof {
        lemma_byte_len_mono(cs@, 0);
    }
    let (r0, r1): (usize, usize) = match span {
        Span::Eoi => {
            let total = byte_len_of(&cs);
            (total, total)
        },
        Span::Range(r) => (r.start, r.end),
    };
    let ghost r = (r0 as int, r1 as int);
    assert(r == span_range(cs@, span));
    let ghost fin = scan_from(cs@, r, 0, scan_start());
    let mut locs: Vec<Loc> = Vec::new();
    let mut start_new = false;
    let mut pos: usize = 0;
    let mut line_start: usize = 0;
    let mut slice_end: usize = 0;
    let mut line: usize = 1;
    let mut column: usize = 1;
    let mut i: usize = 0;
    let mut stopped = false;
    assert(cs@.take(0) =~= Seq::<char>::empty());
    while i < n && !stopped
        invariant
            n == cs@.len(),
            cs@ == source@,
            r == span_range(cs@, span),
            r == (r0 as int, r1 as int),
            fin == scan_from(cs@, r, 0, scan_start()),
            byte_len(cs@) + 2 <= usize::MAX,
            n <= byte_len(cs@),
            i <= n,
            line_start <= slice_end <= i,
            1 <= line <= i + 1,
            1 <= column <= i + 1,
            pos as int == byte_len(cs@.take(i as int)),
            stopped ==> fin == (Scan {
                locs: locs@,
                start_new,
                pos: pos as int,
                line_start: line_start as int,
                slice_end: slice_end as int,
                line: line as int,
                column: column as int,
                failed: false,
            }),
            !stopped ==> fin == scan_from(
                cs@,
                r,
                i as int,
                Scan {
                    locs: locs@,
                    start_new,
                    pos: pos as int,
                    line_start: line_start as int,
                    slice_end: slice_end as int,
                    line: line as int,
                    column: column as int,
                    failed: false,
                },
            ),
        decreases n - i,
    {
        let ghost st = Scan {
            locs: locs@,
            start_new,
            pos: pos as int,
            line_start: line_start as int,
            slice_end: slice_end as int,
            line: line as int,
            column: column as int,
            failed: false,
        };
        let ghost step = scan_step(cs@, r, i as int, st);
        proof {
            lemma_byte_len_take(cs@, i as int);
            lemma_byte_len_mono(cs@, i as int);
        }
        let c = cs[i];
        let crlf = c == '\r' && i + 1 < n && cs[i + 1] == '\n';
        assert(crlf == (cs@[i as int] == '\r' && i + 1 < cs@.len() && cs@[i + 1] == '\n'));
        assert(c == cs@[i as int]);
        if crlf || c == '\n' {
            let w: usize = if crlf {
                2
            } else {
                1
            };
            proof {
                if crlf {
                    lemma_byte_len_take(cs@, i + 1);
                    lemma_byte_len_mono(cs@, i + 1);
                }
            }
            if r0 == pos {
                locs.push(
                    Loc {
                        line,
                        column,
                        column_last: column,
                        slice_start: line_start,
                        slice_end,
                        range_start: pos,
                        range_end: pos + w,
                    },
                );
            }
            if r0 <= pos && pos < r1 {
                start_new = true;
            }
            pos = pos + w;
            line_start = i + w;
            slice_end = i + w;
            line = line + 1;
            column = 1;
            i = i + w;
            if pos >= r1 {
                stopped = true;
            }
        } else {
            let w = utf8_len_of(c);
            assert(break_width(cs@, i as int) == 0);
            assert(step == (i + 1, scan_char(r, i as int, c, st), false));
            let pushed = r0 == pos || (r0 <= pos && pos < r1 && start_new);
            let extended = !pushed && r0 <= pos && pos < r1;
            if pushed {
                locs.push(
                    Loc {
                        line,
                        column,
                        column_last: column,
                        slice_start: line_start,
                        slice_end: i + 1,
                        range_start: pos,
                        range_end: pos + w,
                    },
                );
            } else if extended {
                if locs.len() == 0 {
                    proof {
                        assert(char_extends(r, st));
                        assert(step.1.failed);
                        assert(scan_from(cs@, r, i as int, st) == scan_from(cs@, r, i + 1, step.1));
                        assert(scan_from(cs@, r, i + 1, step.1) == step.1);
                    }
                    return None;
                }
                let k = locs.len() - 1;
                let last = locs[k];
                locs.set(k, Loc { column_last: column, range_end: pos + w, ..last });
            }
            if locs.len() > 0 {
                let k = locs.len() - 1;
                let last = locs[k];
                locs.set(k, Loc { slice_start: line_start, slice_end: i + 1, ..last });
            }
            start_new = false;
            pos = pos + w;
            slice_end = i + 1;
            column = column + 1;
            i = i + 1;
        }
        proof {
            assert(locs@ =~= step.1.locs);
            if !stopped {
                assert(cs@.take(i as int) =~= cs@.take(i as int));
            }
        }
    }
    if r0 == pos {
        locs.push(
            Loc {
                line,
                column,
                column_last: column,
                slice_start: line_start,
                slice_end,
                range_start: pos,
                range_end: pos,
            },
        );
    }
    Some(locs)
}

/// Whether the text is short enough for the scan: its bytes, and two more,
/// fit in a `usize`.
pub fn fits_scan(source: &str) -> (res: bool)
    ensures
        res == (byte_len(source@) + 2 <= usize::MAX),
{
    let cs = chars_of(source);
    let n = cs.len();
    let mut total: usize = 0;
    let mut i: usize = 0;
    assert(cs@.take(0) =~= Seq::<char>::empty());
    while i < n
        invariant
            n == cs@.len(),
            cs@ == source@,
            i <= n,
            total == byte_len(cs@.take(i as int)),
            total + 2 <= usize::MAX,
        decreases n - i,
    {
        proof {
            lemma_byte_len_take(cs@, i as int);
        }
        let w = utf8_len_of(cs[i]);
        if total > usize::MAX - 2 - w {
            proof {
                lemma_byte_len_mono(cs@, i + 1);
            }
            return false;
        }
        total = total + w;
        i = i + 1;
    }
    assert(cs@.take(n as int) =~= cs@);
    true
}

/// The places that `span` covers in `source` (see `spec_locations`).
pub fn locations(source: &str, span: Span) -> (res: Vec<Loc>)
    requires
        locations_defined(source@, span),
        byte_len(source@) + 2 <= usize::MAX,
    ensures
        res@ == spec_locations(source@, span),
{
    match try_locations(source, span) {
        Some(locs) => locs,
        None => Vec::new(),
    }
}

} // verus!
