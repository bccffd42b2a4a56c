//! VHDL text for bit ranges, criteria and operators.

use super::ir::{And, BinaryOperator, BitRange, Criterion, Or, UnaryOperator};
use crate::pretty_error::lines::join;
use crate::text::chars::{lemma_assoc, push_all, push_dec, string_from_chars};
use crate::value::format::dec_string;
use vstd::prelude::*;

verus! {

/// A bit range as VHDL writes it after a name; nothing for the full range.
#[derive(Debug)]
pub struct RenderBitRange(pub Option<BitRange>);

/// `" DOWNTO "`
pub open spec fn downto_text() -> Seq<char> {
    seq![' ', 'D', 'O', 'W', 'N', 'T', 'O', ' ']
}

/// `" TO "`
pub open spec fn to_text() -> Seq<char> {
    seq![' ', 'T', 'O', ' ']
}

/// The text of an optional bit range: the left and right bound in
/// parentheses, `DOWNTO` between them if the left one is greater, else `TO`.
pub open spec fn bit_range_text(r: Option<BitRange>) -> Seq<char> {
    match r {
        None => Seq::empty(),
        Some(range) => {
            let (m, l) = match range {
                BitRange::Downto(a, b) => (a, b),
                BitRange::To(a, b) => (a, b),
            };
            seq!['('] + dec_string(m as nat) + (if m > l {
                downto_text()
            } else {
                to_text()
            }) + dec_string(l as nat) + seq![')']
        },
    }
}

impl RenderBitRange {
    /// The VHDL text of the range.
    pub fn to_string(&self) -> (res: String)
        ensures
            res@ == bit_range_text(self.0),
    {
        let mut out: Vec<char> = Vec::new();
        match self.0 {
            None => {},
            Some(range) => {
                let (msb, lsb) = range.msb_lsb();
                out.push('(');
                push_dec(&mut out, msb);
                let mut sep: Vec<char> = Vec::new();
                if msb > lsb {
                    sep.push(' ');
                    sep.push('D');
                    sep.push('O');
                    sep.push('W');
                    sep.push('N');
                    sep.push('T');
                    sep.push('O');
                    sep.push(' ');
                    assert(sep@ =~= downto_text());
                } else {
                    sep.push(' ');
                    sep.push('T');
                    sep.push('O');
                    sep.push(' ');
                    assert(sep@ =~= to_text());
                }
                push_all(&mut out, &sep);
                push_dec(&mut out, lsb);
                out.push(')');
                assert(out@ =~= bit_range_text(self.0));
            },
        }
        string_from_chars(&out)
    }
}

/// A disjunction of conjunctions of criteria, as a VHDL condition.
#[derive(Debug)]
pub struct RenderCriteriaExpr<'a>(pub &'a Or<And<Criterion>>);

/// One criterion: the bit of the criteria vector compared with one or zero.
pub open spec fn criterion_text(c: Criterion) -> Seq<char> {
    match c {
        Criterion::True(id) => seq!['k', '('] + dec_string(id.0 as nat) + seq![
            ')',
            ' ',
            '=',
            ' ',
            '\'',
            '1',
            '\'',
        ],
        Criterion::False(id) => seq!['k', '('] + dec_string(id.0 as nat) + seq![
            ')',
            ' ',
            '=',
            ' ',
            '\'',
            '0',
            '\'',
        ],
    }
}

/// `" AND "`
pub open spec fn and_sep() -> Seq<char> {
    seq![' ', 'A', 'N', 'D', ' ']
}

/// `" OR "`
pub open spec fn or_sep() -> Seq<char> {
    seq![' ', 'O', 'R', ' ']
}

/// The criteria of a conjunction joined by `AND`.
pub open spec fn and_text(cs: Seq<Criterion>) -> Seq<char> {
    join(Seq::new(cs.len(), |i: int| criterion_text(cs[i])), and_sep())
}

/// A conjunction within a disjunction of `n` terms: in parentheses when
/// both have more than one term.
pub open spec fn or_term(n: nat, cs: Seq<Criterion>) -> Seq<char> {
    if n > 1 && cs.len() > 1 {
        seq!['('] + and_text(cs) + seq![')']
    } else {
        and_text(cs)
    }
}

/// The conjunctions of a disjunction joined by `OR`.
pub open spec fn or_text(or: Seq<Seq<Criterion>>) -> Seq<char> {
    join(Seq::new(or.len(), |i: int| or_term(or.len(), or[i])), or_sep())
}

/// The criteria of a disjunction, as sequences.
pub open spec fn or_view(or: &Or<And<Criterion>>) -> Seq<Seq<Criterion>> {
    Seq::new(or.0@.len(), |i: int| or.0@[i].0@)
}

/// Appends one criterion.
fn push_criterion(out: &mut Vec<char>, c: Criterion)
    ensures
        final(out)@ == old(out)@ + criterion_text(c),
{
    let ghost start = out@;
    out.push('k');
    out.push('(');
    let (id, bit) = match c {
        Criterion::True(id) => (id, '1'),
        Criterion::False(id) => (id, '0'),
    };
    push_dec(out, id.0);
    out.push(')');
    out.push(' ');
    out.push('=');
    out.push(' ');
    out.push('\'');
    out.push(bit);
    out.push('\'');
    assert(out@ =~= start + criterion_text(c));
}

/// Appends a conjunction.
fn push_and(out: &mut Vec<char>, and: &And<Criterion>)
    ensures
        final(out)@ == old(out)@ + and_text(and.0@),
{
    let ghost start = out@;
    let ghost cs = and.0@;
    let ghost terms = Seq::new(cs.len(), |i: int| criterion_text(cs[i]));
    let mut k: usize = 0;
    assert(terms.take(0) =~= Seq::<Seq<char>>::empty());
    while k < and.0.len()
        invariant
            k <= cs.len(),
            cs == and.0@,
            terms == Seq::new(cs.len(), |i: int| criterion_text(cs[i])),
            out@ == start + join(terms.take(k as int), and_sep()),
        decreases cs.len() - k,
    {
        let ghost before = out@;
        if k > 0 {
            out.push(' ');
            out.push('A');
            out.push('N');
            out.push('D');
            out.push(' ');
        }
        push_criterion(out, and.0[k]);
        proof {
            assert(terms.take(k + 1).drop_last() =~= terms.take(k as int));
            if k == 0 {
                assert(out@ =~= start + terms.take(1)[0]);
            } else {
                lemma_assoc(start, join(terms.take(k as int), and_sep()), and_sep());
                assert(out@ =~= start + (join(terms.take(k as int), and_sep()) + and_sep()
                    + terms[k as int]));
            }
        }
        k = k + 1;
    }
    assert(terms.take(cs.len() as int) =~= terms);
}

impl<'a> RenderCriteriaExpr<'a> {
    /// The VHDL condition.
    pub fn to_string(&self) -> (res: String)
        ensures
            res@ == or_text(or_view(self.0)),
    {
        let or = self.0;
        let n = or.0.len();
        let ghost ov = or_view(or);
        let ghost terms = Seq::new(ov.len(), |i: int| or_term(ov.len(), ov[i]));
        let mut out: Vec<char> = Vec::new();
        let mut k: usize = 0;
        assert(terms.take(0) =~= Seq::<Seq<char>>::empty());
        while k < n
            invariant
                k <= n,
                n == or.0@.len(),
                ov == or_view(or),
                ov.len() == n,
                terms == Seq::new(ov.len(), |i: int| or_term(ov.len(), ov[i])),
                out@ == join(terms.take(k as int), or_sep()),
            decreases n - k,
        {
            let ghost before = out@;
            if k > 0 {
                out.push(' ');
                out.push('O');
                out.push('R');
                out.push(' ');
            }
            let ghost mid = out@;
            let and = &or.0[k];
            let parens = n > 1 && and.0.len() > 1;
            if parens {
                out.push('(');
            }
            push_and(&mut out, and);
            if parens {
                out.push(')');
            }
            proof {
                assert(ov[k as int] == and.0@);
                assert(out@ =~= mid + or_term(ov.len(), ov[k as int]));
                assert(terms.take(k + 1).drop_last() =~= terms.take(k as int));
                if k == 0 {
                    assert(out@ =~= terms.take(1)[0]);
                } else {
                    assert(out@ =~= join(terms.take(k as int), or_sep()) + or_sep()
                        + terms[k as int]);
                }
            }
            k = k + 1;
        }
        assert(terms.take(n as int) =~= terms);
        string_from_chars(&out)
    }
}

/// The VHDL function that computes a binary operator.
pub open spec fn binary_operator_name(op: BinaryOperator) -> Seq<char> {
    match op {
        BinaryOperator::Eq => seq!['f', '_', 'e', 'q'],
        BinaryOperator::Ne => seq!['f', '_', 'n', 'e'],
        BinaryOperator::Le => seq!['f', '_', 'l', 'e'],
        BinaryOperator::Lt => seq!['f', '_', 'l', 't'],
        BinaryOperator::Ge => seq!['f', '_', 'g', 'e'],
        BinaryOperator::Gt => seq!['f', '_', 'g', 't'],
        BinaryOperator::Add => seq!['f', '_', 'a', 'd', 'd'],
        BinaryOperator::Sub => seq!['f', '_', 's', 'u', 'b'],
        BinaryOperator::And => seq!['f', '_', 'a', 'n', 'd'],
        BinaryOperator::Nand => seq!['f', '_', 'n', 'a', 'n', 'd'],
        BinaryOperator::Or => seq!['f', '_', 'o', 'r'],
        BinaryOperator::Nor => seq!['f', '_', 'n', 'o', 'r'],
        BinaryOperator::Xor => seq!['f', '_', 'x', 'o', 'r'],
    }
}

/// The VHDL function that computes a binary operator.
pub fn binary_operator(op: BinaryOperator) -> (res: &'static str)
    ensures
        res@ == binary_operator_name(op),
{
    match op {
        BinaryOperator::Eq => {
            proof {
                reveal_strlit("f_eq");
            }
            "f_eq"
        },
        BinaryOperator::Ne => {
            proof {
                reveal_strlit("f_ne");
            }
            "f_ne"
        },
        BinaryOperator::Le => {
            proof {
                reveal_strlit("f_le");
            }
            "f_le"
        },
        BinaryOperator::Lt => {
            proof {
                reveal_strlit("f_lt");
            }
            "f_lt"
        },
        BinaryOperator::Ge => {
            proof {
                reveal_strlit("f_ge");
            }
            "f_ge"
        },
        BinaryOperator::Gt => {
            proof {
                reveal_strlit("f_gt");
            }
            "f_gt"
        },
        BinaryOperator::Add => {
            proof {
                reveal_strlit("f_add");
            }
            "f_add"
        },
        BinaryOperator::Sub => {
            proof {
                reveal_strlit("f_sub");
            }
            "f_sub"
        },
        BinaryOperator::And => {
            proof {
                reveal_strlit("f_and");
            }
            "f_and"
        },
        BinaryOperator::Nand => {
            proof {
                reveal_strlit("f_nand");
            }
            "f_nand"
        },
        BinaryOperator::Or => {
            proof {
                reveal_strlit("f_or");
            }
            "f_or"
        },
        BinaryOperator::Nor => {
            proof {
                reveal_strlit("f_nor");
            }
            "f_nor"
        },
        BinaryOperator::Xor => {
            proof {
                reveal_strlit("f_xor");
            }
            "f_xor"
        },
    }
}

/// The VHDL function that computes a unary operator; a sign is a negation.
pub open spec fn unary_operator_name(op: UnaryOperator) -> Seq<char> {
    match op {
        UnaryOperator::Sign => seq!['f', '_', 'n', 'e', 'g'],
        UnaryOperator::Neg => seq!['f', '_', 'n', 'e', 'g'],
        UnaryOperator::Not => seq!['f', '_', 'n', 'o', 't'],
        UnaryOperator::Sxt => seq!['f', '_', 's', 'x', 't'],
    }
}

/// The VHDL function that computes a unary operator.
pub fn unary_operator(op: UnaryOperator) -> (res: &'static str)
    ensures
        res@ == unary_operator_name(op),
{
    match op {
        UnaryOperator::Sign | UnaryOperator::Neg => {
            proof {
                reveal_strlit("f_neg");
            }
            "f_neg"
        },
        UnaryOperator::Not => {
            proof {
                reveal_strlit("f_not");
            }
            "f_not"
        },
        UnaryOperator::Sxt => {
            proof {
                reveal_strlit("f_sxt");
            }
            "f_sxt"
        },
    }
}

} // verus!
