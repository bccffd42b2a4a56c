//! Rendering an error as text: a header that points into the source, one
//! block per covered line, and the message.

use crate::pretty_error::error::{Error, Span};
use crate::pretty_error::lines::{digits, indent_str, indent_text, lemma_dec_string_len, spaces};
use crate::pretty_error::locations::{
    byte_len, lemma_byte_len_mono, lemma_locations_ok, locations, locations_defined, spec_locations, Loc,
};
use crate::text::chars::{chars_of, lemma_assoc, push_all, push_str, string_from_chars};
use crate::value::format::{dec_chars, dec_string};
use vstd::prelude::*;

verus! {

/// The colors of the messages.
#[derive(Debug, Clone, Copy, PartialEq, Eq, Structural)]
pub enum Colour {
    Blue,
    Red,
    Green,
}

/// The ANSI code of a foreground color.
pub open spec fn colour_code(c: Colour) -> Seq<char> {
    match c {
        Colour::Blue => seq!['3', '4'],
        Colour::Red => seq!['3', '1'],
        Colour::Green => seq!['3', '2'],
    }
}

/// `s` between the escape sequence that selects the color and the one that
/// resets all styles.
pub open spec fn painted(c: Colour, s: Seq<char>) -> Seq<char> {
    seq!['\x1b', '['] + colour_code(c) + seq!['m'] + s + seq!['\x1b', '[', '0', 'm']
}

/// `s` painted in `c` when colors are on, else `s` itself.
pub open spec fn colored(ansi: bool, c: Colour, s: Seq<char>) -> Seq<char> {
    if ansi {
        painted(c, s)
    } else {
        s
    }
}

/// `ansi_term::Colour::paint`, written out as a string.
///
/// Trusted: `ansi_term` 0.12 writes a style with only a foreground color as
/// `ESC [ <code> m`, then the text, then the reset sequence `ESC [ 0 m`
/// (`write_prefix`, `write_suffix` and the `Display` impl of
/// `ANSIGenericString`); blue is code 34, red 31 and green 32.
#[verifier::external_body]
pub(crate) fn paint(c: Colour, s: &str) -> (res: String)
    ensures
        res@ == painted(c, s@),
{
    let colour = match c {
        Colour::Blue => ansi_term::Colour::Blue,
        Colour::Red => ansi_term::Colour::Red,
        Colour::Green => ansi_term::Colour::Green,
    };
    colour.paint(s).to_string()
}

/// The margin of a line: `s`, padded with spaces to `len` characters, then
/// the bar.
pub open spec fn pre_text(s: Seq<char>, len: nat, ansi: bool) -> Seq<char> {
    colored(ansi, Colour::Blue, s) + spaces((len - s.len()) as nat) + colored(
        ansi,
        Colour::Blue,
        seq!['|'],
    )
}

/// The width of the margin: one more than the widest line number.
pub open spec fn loc_indent(locs: Seq<Loc>) -> nat
    decreases locs.len(),
{
    if locs.len() == 0 {
        0
    } else {
        let w = dec_string(locs.last().line as nat).len() + 1;
        let rest = loc_indent(locs.drop_last());
        if rest >= w {
            rest
        } else {
            w
        }
    }
}

/// `n` circumflexes (none if `n` is not positive).
pub open spec fn carets(n: int) -> Seq<char> {
    Seq::new(
        if n > 0 {
            n as nat
        } else {
            0
        },
        |i: int| '^',
    )
}

/// Four spaces.
pub open spec fn gap() -> Seq<char> {
    seq![' ', ' ', ' ', ' ']
}

/// The two lines shown for one place: the numbered source line, then the
/// circumflexes under the covered columns.
pub open spec fn loc_text(cs: Seq<char>, loc: Loc, indent: nat, ansi: bool) -> Seq<char> {
    pre_text(dec_string(loc.line as nat), indent, ansi) + gap() + cs.subrange(
        loc.slice_start as int,
        loc.slice_end as int,
    ) + seq!['\n'] + pre_text(Seq::empty(), indent, ansi) + gap() + spaces(
        (loc.column - 1) as nat,
    ) + colored(ansi, Colour::Red, carets(loc.column_last - loc.column + 1)) + seq!['\n']
}

/// The blocks of all places, in order.
pub open spec fn locs_text(cs: Seq<char>, locs: Seq<Loc>, indent: nat, ansi: bool) -> Seq<char>
    decreases locs.len(),
{
    if locs.len() == 0 {
        Seq::empty()
    } else {
        locs_text(cs, locs.drop_last(), indent, ansi) + loc_text(cs, locs.last(), indent, ansi)
    }
}

/// The view of an optional string.
pub open spec fn opt_str_view(o: Option<&str>) -> Option<Seq<char>> {
    match o {
        Some(s) => Some(s@),
        None => None,
    }
}

/// The view of an optional source with its span.
pub open spec fn source_view(o: Option<(&str, Span)>) -> Option<(Seq<char>, Span)> {
    match o {
        Some((s, span)) => Some((s@, span)),
        None => None,
    }
}

/// The width of the margin: two without a source.
pub open spec fn margin(source: Option<(Seq<char>, Span)>) -> nat {
    match source {
        None => 2,
        Some((src, span)) => loc_indent(spec_locations(src, span)),
    }
}

/// The arrow before the position.
pub open spec fn arrow() -> Seq<char> {
    seq!['-', '-', '>', ' ']
}

/// The header for an error in `src` at `span`: the arrow, the file name,
/// the line and column of the first place, and the blocks of all places
/// between two empty margins.
pub open spec fn source_header(
    src: Seq<char>,
    span: Span,
    file_name: Option<Seq<char>>,
    ansi: bool,
    indent: nat,
) -> Seq<char> {
    let locs = spec_locations(src, span);
    spaces((indent - 1) as nat) + colored(ansi, Colour::Blue, arrow()) + match file_name {
        Some(f) => f + seq![':'],
        None => Seq::empty(),
    } + dec_string(locs[0].line as nat) + seq![':'] + dec_string(locs[0].column as nat) + seq![
        '\n',
    ] + pre_text(Seq::empty(), indent, ansi) + seq!['\n'] + locs_text(src, locs, indent, ansi)
        + pre_text(Seq::empty(), indent, ansi) + seq!['\n']
}

/// The part before the message: nothing without a source.
pub open spec fn header_text(
    source: Option<(Seq<char>, Span)>,
    file_name: Option<Seq<char>>,
    ansi: bool,
    indent: nat,
) -> Seq<char> {
    match source {
        None => Seq::empty(),
        Some((src, span)) => source_header(src, span, file_name, ansi, indent),
    }
}

/// The message, indented under the margin, with the error code after it.
pub open spec fn footer_text(
    message: Seq<char>,
    error_code: Option<Seq<char>>,
    ansi: bool,
    indent: nat,
) -> Seq<char> {
    spaces(indent) + seq!['=', ' '] + colored(ansi, Colour::Red, indent_text(message, indent + 2))
        + match error_code {
        Some(c) => seq![' '] + c,
        None => Seq::empty(),
    }
}

/// The whole text of an error with the given parts.
pub open spec fn render_text(
    message: Seq<char>,
    error_code: Option<Seq<char>>,
    source: Option<(Seq<char>, Span)>,
    file_name: Option<Seq<char>>,
    ansi: bool,
) -> Seq<char> {
    header_text(source, file_name, ansi, margin(source)) + footer_text(
        message,
        error_code,
        ansi,
        margin(source),
    )
}

/// The whole text of an error.
pub open spec fn error_text(e: Error) -> Seq<char> {
    render_text(
        e.message@,
        opt_str_view(e.error_code),
        source_view(e.source),
        opt_str_view(e.file_name),
        e.ansi_colors,
    )
}

/// A source and span that can be rendered: the span is found in the
/// source and covers at least one place.
pub open spec fn source_renderable(src: Seq<char>, span: Span) -> bool {
    &&& locations_defined(src, span)
    &&& byte_len(src) + 2 <= usize::MAX
    &&& spec_locations(src, span).len() > 0
}

/// Whether the error at `span` can be shown in `source`.
pub fn can_render(source: &str, span: Span) -> (res: bool)
    ensures
        res == source_renderable(source@, span),
{
    if !crate::pretty_error::locations::fits_scan(source) {
        return false;
    }
    match crate::pretty_error::locations::try_locations(source, span) {
        Some(locs) => locs.len() > 0,
        None => false,
    }
}

/// An error can be rendered: its span, if it has one, is found in the
/// source and covers at least one place.
pub open spec fn renderable(e: Error) -> bool {
    match e.source {
        None => true,
        Some((src, span)) => source_renderable(src@, span),
    }
}

fn push_spaces(out: &mut Vec<char>, n: usize)
    ensures
        final(out)@ == old(out)@ + spaces(n as nat),
{
    let ghost start = out@;
    let mut i: usize = 0;
    while i < n
        invariant
            i <= n,
            out@ == start + spaces(i as nat),
        decreases n - i,
    {
        out.push(' ');
        i = i + 1;
        assert(spaces(i as nat) =~= spaces((i - 1) as nat).push(' '));
    }
}

fn push_colored(out: &mut Vec<char>, ansi: bool, c: Colour, s: &Vec<char>)
    ensures
        final(out)@ == old(out)@ + colored(ansi, c, s@),
{
    if ansi {
        let st = string_from_chars(s);
        let p = paint(c, st.as_str());
        push_str(out, p.as_str());
    } else {
        push_all(out, s);
    }
}

fn push_pre(out: &mut Vec<char>, s: &Vec<char>, len: usize, ansi: bool)
    requires
        s@.len() <= len,
    ensures
        final(out)@ == old(out)@ + pre_text(s@, len as nat, ansi),
{
    let ghost start = out@;
    push_colored(out, ansi, Colour::Blue, s);
    push_spaces(out, len - s.len());
    let mut bar: Vec<char> = Vec::new();
    bar.push('|');
    assert(bar@ =~= seq!['|']);
    push_colored(out, ansi, Colour::Blue, &bar);
    assert(out@ =~= start + pre_text(s@, len as nat, ansi));
}

#[verifier::rlimit(60)]
fn push_loc(out: &mut Vec<char>, cs: &Vec<char>, loc: Loc, indent: usize, ansi: bool)
    requires
        loc.slice_start <= loc.slice_end <= cs@.len(),
        loc.column >= 1,
        dec_string(loc.line as nat).len() < indent,
    ensures
        final(out)@ == old(out)@ + loc_text(cs@, loc, indent as nat, ansi),
{
    let ghost start = out@;
    let num = dec_chars(loc.line);
    push_pre(out, &num, indent, ansi);
    push_spaces(out, 4);
    let mut j: usize = loc.slice_start;
    let ghost mid = out@;
    while j < loc.slice_end
        invariant
            loc.slice_start <= j <= loc.slice_end <= cs@.len(),
            out@ == mid + cs@.subrange(loc.slice_start as int, j as int),
        decreases loc.slice_end - j,
    {
        out.push(cs[j]);
        j = j + 1;
        assert(cs@.subrange(loc.slice_start as int, j as int) =~= cs@.subrange(
            loc.slice_start as int,
            j - 1,
        ).push(cs@[j - 1]));
    }
    out.push('\n');
    let empty: Vec<char> = Vec::new();
    push_pre(out, &empty, indent, ansi);
    push_spaces(out, 4);
    push_spaces(out, loc.column - 1);
    let mut hats: Vec<char> = Vec::new();
    let mut k: usize = loc.column - 1;
    while k < loc.column_last
        invariant
            loc.column - 1 <= k,
            k >= loc.column_last ==> hats@.len() == (if loc.column_last >= loc.column - 1 {
                loc.column_last - (loc.column - 1)
            } else {
                0
            }),
            k < loc.column_last ==> hats@.len() == k - (loc.column - 1),
            forall|t: int| 0 <= t < hats@.len() ==> #[trigger] hats@[t] == '^',
        decreases loc.column_last - k,
    {
        hats.push('^');
        k = k + 1;
    }
    assert(hats@ =~= carets(loc.column_last - loc.column + 1));
    push_colored(out, ansi, Colour::Red, &hats);
    out.push('\n');
    proof {
        assert(spaces(4) =~= gap());
        assert(empty@ =~= Seq::<char>::empty());
    }
    assert(out@ =~= start + loc_text(cs@, loc, indent as nat, ansi));
}

/// The width of the margin for `locs`.
fn margin_width(locs: &Vec<Loc>) -> (w: usize)
    ensures
        w == loc_indent(locs@),
{
    let mut w: usize = 0;
    let mut k: usize = 0;
    assert(locs@.take(0) =~= Seq::<Loc>::empty());
    while k < locs.len()
        invariant
            k <= locs@.len(),
            w == loc_indent(locs@.take(k as int)),
            w <= usize::MAX / 10 + 2,
        decreases locs@.len() - k,
    {
        let d = digits(locs[k].line);
        proof {
            lemma_dec_string_len(locs@[k as int].line as nat);
            assert(locs@.take(k + 1).drop_last() =~= locs@.take(k as int));
        }
        if d + 1 > w {
            w = d + 1;
        }
        k = k + 1;
    }
    assert(locs@.take(locs@.len() as int) =~= locs@);
    w
}

fn push_locs(out: &mut Vec<char>, cs: &Vec<char>, locs: &Vec<Loc>, indent: usize, ansi: bool)
    requires
        forall|t: int|
            0 <= t < locs@.len() ==> crate::pretty_error::locations::loc_ok(
                #[trigger] locs@[t],
                cs@.len(),
            ),
        forall|t: int|
            0 <= t < locs@.len() ==> dec_string(#[trigger] locs@[t].line as nat).len() < indent,
    ensures
        final(out)@ == old(out)@ + locs_text(cs@, locs@, indent as nat, ansi),
{
    let ghost before = out@;
    let ghost lv = locs@;
    let mut j: usize = 0;
    assert(lv.take(0) =~= Seq::<Loc>::empty());
    while j < locs.len()
        invariant
            j <= lv.len(),
            locs@ == lv,
            forall|t: int|
                0 <= t < lv.len() ==> crate::pretty_error::locations::loc_ok(
                    #[trigger] lv[t],
                    cs@.len(),
                ),
            forall|t: int| 0 <= t < lv.len() ==> dec_string(#[trigger] lv[t].line as nat).len() < indent,
            out@ == before + locs_text(cs@, lv.take(j as int), indent as nat, ansi),
        decreases lv.len() - j,
    {
        assert(crate::pretty_error::locations::loc_ok(lv[j as int], cs@.len()));
        assert(dec_string(lv[j as int].line as nat).len() < indent);
        push_loc(out, cs, locs[j], indent, ansi);
        assert(lv.take(j + 1).drop_last() =~= lv.take(j as int));
        j = j + 1;
    }
    assert(lv.take(lv.len() as int) =~= lv);
}

/// Writes the header for an error in `src` at `span` and returns the width
/// of the margin.
#[verifier::rlimit(60)]
fn push_header(
    out: &mut Vec<char>,
    src: &str,
    span: &Span,
    file_name: Option<&str>,
    ansi: bool,
) -> (indent: usize)
    requires
        locations_defined(src@, *span),
        byte_len(src@) + 2 <= usize::MAX,
        spec_locations(src@, *span).len() > 0,
    ensures
        indent == loc_indent(spec_locations(src@, *span)),
        final(out)@ == old(out)@ + source_header(src@, *span, opt_str_view(file_name), ansi, indent as nat),
{
    let ghost start = out@;
    let locs = locations(src, span.clone());
    let cs = chars_of(src);
    proof {
        lemma_byte_len_mono(src@, 0);
        lemma_locations_ok(src@, *span);
        lemma_indent_bounds(locs@);
    }
    let indent = margin_width(&locs);
    let ghost lv = locs@;
    push_spaces(out, indent - 1);
    let ghost mut g = spaces((indent - 1) as nat);
    let mut arr: Vec<char> = Vec::new();
    arr.push('-');
    arr.push('-');
    arr.push('>');
    arr.push(' ');
    assert(arr@ =~= arrow());
    push_colored(out, ansi, Colour::Blue, &arr);
    proof {
        lemma_assoc(start, g, colored(ansi, Colour::Blue, arrow()));
        g = g + colored(ansi, Colour::Blue, arrow());
    }
    let ghost fname: Seq<char> = match file_name {
        Some(f) => f@ + seq![':'],
        None => Seq::empty(),
    };
    match file_name {
        Some(f) => {
            push_str(out, f);
            out.push(':');
        },
        None => {},
    }
    proof {
        assert(out@ =~= start + g + fname);
        lemma_assoc(start, g, fname);
        g = g + fname;
    }
    let l0 = dec_chars(locs[0].line);
    push_all(out, &l0);
    proof {
        lemma_assoc(start, g, l0@);
        g = g + l0@;
    }
    out.push(':');
    proof {
        lemma_assoc(start, g, seq![':']);
        g = g + seq![':'];
    }
    let c0 = dec_chars(locs[0].column);
    push_all(out, &c0);
    proof {
        lemma_assoc(start, g, c0@);
        g = g + c0@;
    }
    out.push('\n');
    proof {
        lemma_assoc(start, g, seq!['\n']);
        g = g + seq!['\n'];
    }
    let empty: Vec<char> = Vec::new();
    assert(empty@ =~= Seq::<char>::empty());
    push_pre(out, &empty, indent, ansi);
    proof {
        lemma_assoc(start, g, pre_text(Seq::empty(), indent as nat, ansi));
        g = g + pre_text(Seq::empty(), indent as nat, ansi);
    }
    out.push('\n');
    proof {
        lemma_assoc(start, g, seq!['\n']);
        g = g + seq!['\n'];
    }
    push_locs(out, &cs, &locs, indent, ansi);
    proof {
        lemma_assoc(start, g, locs_text(src@, lv, indent as nat, ansi));
        g = g + locs_text(src@, lv, indent as nat, ansi);
    }
    push_pre(out, &empty, indent, ansi);
    proof {
        lemma_assoc(start, g, pre_text(Seq::empty(), indent as nat, ansi));
        g = g + pre_text(Seq::empty(), indent as nat, ansi);
    }
    out.push('\n');
    proof {
        lemma_assoc(start, g, seq!['\n']);
        g = g + seq!['\n'];
    }
    assert(g == source_header(src@, *span, opt_str_view(file_name), ansi, indent as nat));
    indent
}

impl<'a> Error<'a> {
    /// The error as text: where it lies in the source, if it has one, then
    /// the message and the error code.
    #[verifier::rlimit(60)]
    pub fn to_string(&self) -> (res: String)
        requires
            renderable(*self),
        ensures
            res@ == error_text(*self),
    {
        let mut out: Vec<char> = Vec::new();
        let ansi = self.ansi_colors;
        let indent = match &self.source {
            None => 2,
            Some((src, span)) => push_header(&mut out, src, span, self.file_name, ansi),
        };
        proof {
            if let Some((src, span)) = &self.source {
                lemma_indent_bounds(spec_locations(src@, *span));
            }
        }
        assert(out@ =~= header_text(source_view(self.source), opt_str_view(self.file_name), ansi, margin(source_view(self.source))));
        let ghost head = out@;
        push_spaces(&mut out, indent);
        out.push('=');
        out.push(' ');
        let body = indent_str(self.message, indent + 2);
        let bc = chars_of(body.as_str());
        push_colored(&mut out, ansi, Colour::Red, &bc);
        match self.error_code {
            Some(c) => {
                out.push(' ');
                push_str(&mut out, c);
            },
            None => {},
        }
        assert(out@ =~= head + footer_text(self.message@, opt_str_view(self.error_code), ansi, margin(source_view(self.source))));
        string_from_chars(&out)
    }
}

/// The margin is wider than every line number, and small enough to add to.
proof fn lemma_indent_bounds(locs: Seq<Loc>)
    ensures
        forall|t: int|
            0 <= t < locs.len() ==> dec_string(#[trigger] locs[t].line as nat).len() < loc_indent(
                locs,
            ),
        locs.len() > 0 ==> loc_indent(locs) >= 2,
        loc_indent(locs) <= usize::MAX / 10 + 2,
    decreases locs.len(),
{
    if locs.len() > 0 {
        lemma_indent_bounds(locs.drop_last());
        lemma_dec_string_len(locs.last().line as nat);
        assert forall|t: int| 0 <= t < locs.len() implies dec_string(
            #[trigger] locs[t].line as nat,
        ).len() < loc_indent(locs) by {
            if t < locs.len() - 1 {
                assert(locs.drop_last()[t] == locs[t]);
            }
        }
    }
}

} // verus!
