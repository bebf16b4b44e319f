//! Writing an expression back as source text.

use vstd::prelude::*;
use crate::floats::Binary64;
use crate::parser::{chars_of, string_of};
use crate::types::{views, Atom, AtomV, Bool, Expr, ExprV, Num, NumV, Ops};

verus! {

/// Whether an expression holds a float anywhere.
pub open spec fn has_float(e: ExprV) -> bool
    decreases e, 1int,
{
    match e {
        ExprV::Atomic(AtomV::Number(NumV::Float)) => true,
        ExprV::Atomic(_) => false,
        ExprV::Qexpr(items) => any_float(items),
        ExprV::List(items) => any_float(items),
    }
}

pub open spec fn any_float(items: Seq<ExprV>) -> bool
    decreases items, 0int,
{
    items.len() > 0 && (has_float(items[0]) || any_float(items.drop_first()))
}

/// The keyword an operator is written with.
pub open spec fn op_text(op: Ops) -> Seq<char> {
    match op {
        Ops::Add => seq!['a', 'd', 'd'],
        Ops::Sub => seq!['s', 'u', 'b'],
        Ops::Mul => seq!['m', 'u', 'l'],
        Ops::Div => seq!['d', 'i', 'v'],
        Ops::Rem => seq!['%'],
        Ops::Defun => seq!['d', 'e', 'f', 'u', 'n'],
        Ops::Nth => seq!['n', 't', 'h'],
        Ops::List => seq!['l', 'i', 's', 't'],
        Ops::Eval => seq!['e', 'v', 'a', 'l'],
        Ops::Car => seq!['c', 'a', 'r'],
        Ops::Mapcar => seq!['m', 'a', 'p', 'c', 'a', 'r'],
    }
}

pub open spec fn char_of_digit(d: nat) -> char {
    if d == 0 { '0' } else if d == 1 { '1' } else if d == 2 { '2' } else if d == 3 { '3' }
    else if d == 4 { '4' } else if d == 5 { '5' } else if d == 6 { '6' } else if d == 7 { '7' }
    else if d == 8 { '8' } else { '9' }
}

/// Decimal digits of a natural number, most significant first.
pub open spec fn nat_text(n: nat) -> Seq<char>
    decreases n,
{
    if n < 10 {
        seq![char_of_digit(n)]
    } else {
        nat_text(n / 10).push(char_of_digit(n % 10))
    }
}

pub open spec fn int_text(i: i64) -> Seq<char> {
    if i < 0 {
        seq!['-'] + nat_text((-(i as int)) as nat)
    } else {
        nat_text(i as nat)
    }
}

/// A string literal's contents with `"` and `\` escaped.
pub open spec fn escaped(q: Seq<char>) -> Seq<char>
    decreases q.len(),
{
    if q.len() == 0 {
        seq![]
    } else {
        let c = q.last();
        escaped(q.drop_last()) + if c == '"' || c == '\\' {
            seq!['\\', c]
        } else {
            seq![c]
        }
    }
}

/// The source text of an expression. (A float's text is the host's.)
pub open spec fn text_of(e: ExprV) -> Seq<char>
    decreases e, 1int,
{
    match e {
        ExprV::Atomic(AtomV::Name(n)) => n,
        ExprV::Atomic(AtomV::Quoted(q)) => seq!['"'] + escaped(q) + seq!['"'],
        ExprV::Atomic(AtomV::Op(op)) => op_text(op),
        ExprV::Atomic(AtomV::Number(NumV::Int(i))) => int_text(i),
        ExprV::Atomic(AtomV::Number(NumV::Float)) => seq![],
        ExprV::Atomic(AtomV::Boolean(Bool::True)) => seq!['t'],
        ExprV::Atomic(AtomV::Boolean(Bool::Nil)) => seq!['n', 'i', 'l'],
        ExprV::Qexpr(items) => seq!['\'', '('] + join(items) + seq![')'],
        ExprV::List(items) => seq!['('] + join(items) + seq![')'],
    }
}

/// The texts of the expressions, separated by single spaces.
pub open spec fn join(items: Seq<ExprV>) -> Seq<char>
    decreases items, 0int,
{
    if items.len() == 0 {
        seq![]
    } else if items.len() == 1 {
        text_of(items[0])
    } else {
        text_of(items[0]) + seq![' '] + join(items.drop_first())
    }
}

fn push_str(out: &mut Vec<char>, s: &str)
    ensures
        final(out)@ == old(out)@ + s@,
{
    let cs = chars_of(s);
    let ghost start = out@;
    let mut i: usize = 0;
    while i < cs.len()
        invariant
            i <= cs@.len(),
            cs@ == s@,
            out@ == start + cs@.subrange(0, i as int),
        decreases cs@.len() - i,
    {
        out.push(cs[i]);
        i = i + 1;
        assert(out@ =~= start + cs@.subrange(0, i as int));
    }
    assert(cs@.subrange(0, i as int) =~= cs@);
}

fn push_nat(out: &mut Vec<char>, n: u64)
    ensures
        final(out)@ == old(out)@ + nat_text(n as nat),
    decreases n,
{
    if n >= 10 {
        push_nat(out, n / 10);
    }
    let d = n % 10;
    let c = if d == 0 { '0' } else if d == 1 { '1' } else if d == 2 { '2' } else if d == 3 { '3' }
        else if d == 4 { '4' } else if d == 5 { '5' } else if d == 6 { '6' } else if d == 7 { '7' }
        else if d == 8 { '8' } else { '9' };
    let ghost before = out@;
    out.push(c);
    if n >= 10 {
        assert(out@ =~= old(out)@ + nat_text(n as nat));
    } else {
        assert(out@ =~= old(out)@ + nat_text(n as nat));
    }
}

fn push_op(out: &mut Vec<char>, op: Ops)
    ensures
        final(out)@ == old(out)@ + op_text(op),
{
    let w = match op {
        Ops::Add => vec!['a', 'd', 'd'],
        Ops::Sub => vec!['s', 'u', 'b'],
        Ops::Mul => vec!['m', 'u', 'l'],
        Ops::Div => vec!['d', 'i', 'v'],
        Ops::Rem => vec!['%'],
        Ops::Defun => vec!['d', 'e', 'f', 'u', 'n'],
        Ops::Nth => vec!['n', 't', 'h'],
        Ops::List => vec!['l', 'i', 's', 't'],
        Ops::Eval => vec!['e', 'v', 'a', 'l'],
        Ops::Car => vec!['c', 'a', 'r'],
        Ops::Mapcar => vec!['m', 'a', 'p', 'c', 'a', 'r'],
    };
    assert(w@ =~= op_text(op));
    let ghost start = out@;
    let mut i: usize = 0;
    while i < w.len()
        invariant
            i <= w@.len(),
            w@ == op_text(op),
            out@ == start + w@.subrange(0, i as int),
        decreases w@.len() - i,
    {
        out.push(w[i]);
        i = i + 1;
        assert(out@ =~= start + w@.subrange(0, i as int));
    }
    assert(w@.subrange(0, i as int) =~= w@);
}

fn push_escaped(out: &mut Vec<char>, q: &str)
    ensures
        final(out)@ == old(out)@ + escaped(q@),
{
    let cs = chars_of(q);
    let ghost start = out@;
    let mut i: usize = 0;
    while i < cs.len()
        invariant
            i <= cs@.len(),
            cs@ == q@,
            out@ == start + escaped(cs@.subrange(0, i as int)),
        decreases cs@.len() - i,
    {
        let c = cs[i];
        if c == '"' || c == '\\' {
            out.push('\\');
        }
        out.push(c);
        i = i + 1;
        assert(cs@.subrange(0, i as int).drop_last() =~= cs@.subrange(0, i - 1));
        assert(out@ =~= start + escaped(cs@.subrange(0, i as int)));
    }
    assert(cs@.subrange(0, i as int) =~= cs@);
}

fn push_text<F: Binary64>(out: &mut Vec<char>, e: &Expr, floats: &F)
    ensures
        !has_float(e@) ==> final(out)@ == old(out)@ + text_of(e@),
    decreases e, 0int,
{
    match e {
        Expr::Atomic(Atom::Name(n)) => push_str(out, n.as_str()),
        Expr::Atomic(Atom::Quoted(q)) => {
            out.push('"');
            push_escaped(out, q.as_str());
            out.push('"');
            assert(out@ =~= old(out)@ + text_of(e@));
        },
        Expr::Atomic(Atom::Op(op)) => push_op(out, *op),
        Expr::Atomic(Atom::Number(Num::Int(i))) => {
            if *i < 0 {
                out.push('-');
                let m: u64 = (0 - (*i as i128)) as u64;
                push_nat(out, m);
            } else {
                push_nat(out, *i as u64);
            }
            assert(out@ =~= old(out)@ + text_of(e@));
        },
        Expr::Atomic(Atom::Number(Num::Double(b))) => {
            let t = floats.show(*b);
            push_str(out, t.as_str());
        },
        Expr::Atomic(Atom::Boolean(Bool::True)) => {
            out.push('t');
            assert(out@ =~= old(out)@ + text_of(e@));
        },
        Expr::Atomic(Atom::Boolean(Bool::Nil)) => {
            push_str(out, "nil");
            proof {
                reveal_strlit("nil");
            }
            assert(out@ =~= old(out)@ + text_of(e@));
        },
        Expr::Qexpr(items) => {
            out.push('\'');
            out.push('(');
            let ghost o1 = out@;
            push_items(out, items, 0, floats);
            out.push(')');
            proof {
                lemma_items_text(items, e@);
                if !has_float(e@) {
                    assert(o1 =~= old(out)@ + seq!['\'', '(']);
                    assert(out@ =~= old(out)@ + text_of(e@));
                }
            }
        },
        Expr::List(items) => {
            out.push('(');
            let ghost o1 = out@;
            push_items(out, items, 0, floats);
            out.push(')');
            proof {
                lemma_items_text(items, e@);
                if !has_float(e@) {
                    assert(o1 =~= old(out)@ + seq!['(']);
                    assert(out@ =~= old(out)@ + text_of(e@));
                }
            }
        },
    }
}

proof fn lemma_items_text(items: &Vec<Expr>, e: ExprV)
    requires
        e == ExprV::Qexpr(views(items)) || e == ExprV::List(views(items)),
    ensures
        views(items).subrange(0, items@.len() as int) == views(items),
        has_float(e) == any_float(views(items)),
{
    crate::types::lemma_views(items);
    assert(views(items).subrange(0, items@.len() as int) =~= views(items));
}

/// Appends the texts of `items[i..]`, separated by spaces.
fn push_items<F: Binary64>(out: &mut Vec<char>, items: &Vec<Expr>, i: usize, floats: &F)
    requires
        i <= items@.len(),
    ensures
        !any_float(views(items).subrange(i as int, items@.len() as int)) ==> final(out)@ == old(
            out,
        )@ + join(views(items).subrange(i as int, items@.len() as int)),
    decreases items, items@.len() - i,
{
    proof {
        crate::types::lemma_views(items);
    }
    if i >= items.len() {
        assert(views(items).subrange(i as int, items@.len() as int) =~= seq![]);
        return;
    }
    push_text(out, &items[i], floats);
    let ghost mid = out@;
    let ghost rest = views(items).subrange(i as int, items@.len() as int);
    if i + 1 < items.len() {
        out.push(' ');
        push_items(out, items, i + 1, floats);
        assert(rest.drop_first() =~= views(items).subrange(i + 1, items@.len() as int));
        assert(!any_float(rest) ==> out@ =~= old(out)@ + join(rest));
    } else {
        assert(!any_float(rest) ==> out@ =~= old(out)@ + join(rest));
    }
}

/// The source text of an expression. Operators are written with their
/// keywords and string literals with `"` and `\` escaped, so that the text
/// of a parsed expression without floats parses back to it; a float is
/// written as the host shows it.
pub fn render<F: Binary64>(e: &Expr, floats: &F) -> (r: String)
    ensures
        !has_float(e@) ==> r@ == text_of(e@),
{
    let mut out: Vec<char> = Vec::new();
    push_text(&mut out, e, floats);
    assert(!has_float(e@) ==> out@ =~= text_of(e@));
    string_of(&out)
}

} // verus!
