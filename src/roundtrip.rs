//! Reading back what `render` writes.

use vstd::prelude::*;
use crate::grammar::{
    decimal_at, digits_value, expr_at, float_at, ident_at, in_class, is_alpha, is_digit,
    is_ident_char, items_rest, keywords, list_at, op_at, op_from, run_end, simple_escape,
    spaces_end, starts_with, string_at, string_rest, unicode_escape, CharClass,
};
use crate::render::{any_float, char_of_digit, escaped, has_float, join, nat_text, op_text, text_of};
use crate::parser::parse;
use crate::types::{AtomV, ExprV, NumV, Ops};

verus! {

proof fn lemma_run_end_at(s: Seq<char>, p: int, q: int, k: CharClass)
    requires
        0 <= p <= q <= s.len(),
        forall|i: int| p <= i < q ==> in_class(k, #[trigger] s[i]),
        q == s.len() || !in_class(k, s[q]),
    ensures
        run_end(s, p, k) == q,
    decreases q - p,
{
    if p < q {
        lemma_run_end_at(s, p + 1, q, k);
    }
}

/// The character after a keyword's first one never starts an expression's
/// text; used to tell keywords apart.
proof fn lemma_starts_with_char(s: Seq<char>, p: int, w: Seq<char>, j: int)
    requires
        starts_with(s, p, w),
        0 <= j < w.len(),
    ensures
        s[p + j] == w[j],
{
    assert(s.subrange(p, p + w.len())[j] == s[p + j]);
}

proof fn lemma_op_from_none(s: Seq<char>, p: int, i: int)
    requires
        0 <= i <= keywords().len(),
        forall|k: int| i <= k < keywords().len() ==> !starts_with(s, p, #[trigger] keywords()[k].0),
    ensures
        op_from(s, p, i) is None,
    decreases keywords().len() - i,
{
    if i < keywords().len() {
        lemma_op_from_none(s, p, i + 1);
    }
}

proof fn lemma_op_from_none_all(s: Seq<char>, p: int, i: int, k: int)
    requires
        0 <= i <= k < keywords().len(),
        op_from(s, p, i) is None,
    ensures
        !starts_with(s, p, keywords()[k].0),
    decreases k - i,
{
    if i < k {
        lemma_op_from_none_all(s, p, i + 1, k);
    }
}

/// Whether a keyword's first character is `c`.
pub open spec fn starts_keyword(c: char) -> bool {
    c == 'a' || c == 's' || c == 'm' || c == 'd' || c == '+' || c == '*' || c == '-' || c == '/'
        || c == '%' || c == 'n' || c == 'l' || c == 'e' || c == 'c'
}

proof fn lemma_no_keyword_at(s: Seq<char>, p: int)
    requires
        0 <= p < s.len(),
        !starts_keyword(s[p]),
    ensures
        op_at(s, p) is None,
{
    assert forall|k: int| 0 <= k < keywords().len() implies !starts_with(s, p, #[trigger] keywords()[k].0) by {
        if starts_with(s, p, keywords()[k].0) {
            lemma_starts_with_char(s, p, keywords()[k].0, 0);
        }
    }
    lemma_op_from_none(s, p, 0);
}

/// A name as the grammar reads it: an identifier that no keyword begins.
pub open spec fn valid_name(n: Seq<char>) -> bool {
    &&& n.len() > 0
    &&& (is_alpha(n[0]) || n[0] == '_')
    &&& forall|i: int| 0 <= i < n.len() ==> is_ident_char(#[trigger] n[i])
    &&& forall|k: int| 0 <= k < keywords().len() ==> !starts_with(n, 0, #[trigger] keywords()[k].0)
}

/// The expressions that parsing can give: names as above, operators that
/// have a keyword, integers that are not negative, no booleans.
pub open spec fn canon(e: ExprV) -> bool
    decreases e, 1int,
{
    match e {
        ExprV::Atomic(AtomV::Name(n)) => valid_name(n),
        ExprV::Atomic(AtomV::Quoted(_)) => true,
        ExprV::Atomic(AtomV::Op(op)) => !(op is Mapcar),
        ExprV::Atomic(AtomV::Number(NumV::Int(i))) => i >= 0,
        ExprV::Atomic(AtomV::Number(NumV::Float)) => true,
        ExprV::Atomic(AtomV::Boolean(_)) => false,
        ExprV::Qexpr(items) => all_canon(items),
        ExprV::List(items) => all_canon(items),
    }
}

pub open spec fn all_canon(items: Seq<ExprV>) -> bool
    decreases items, 0int,
{
    items.len() == 0 || (canon(items[0]) && all_canon(items.drop_first()))
}

proof fn lemma_all_canon_push(acc: Seq<ExprV>, e: ExprV)
    requires
        all_canon(acc),
        canon(e),
    ensures
        all_canon(acc.push(e)),
    decreases acc.len(),
{
    if acc.len() > 0 {
        lemma_all_canon_push(acc.drop_first(), e);
        assert(acc.push(e).drop_first() =~= acc.drop_first().push(e));
        assert(acc.push(e)[0] == acc[0]);
    } else {
        assert(acc.push(e).drop_first() =~= Seq::<ExprV>::empty());
        assert(all_canon(Seq::<ExprV>::empty()));
    }
}

proof fn lemma_op_from_some(s: Seq<char>, p: int, i: int)
    requires
        0 <= p <= s.len(),
    ensures
        op_from(s, p, i) matches Some((op, q)) ==> !(op is Mapcar) && p < q <= s.len(),
    decreases keywords().len() - i,
{
    if 0 <= i < keywords().len() && !starts_with(s, p, keywords()[i].0) {
        lemma_op_from_some(s, p, i + 1);
    }
}

proof fn lemma_float_consumes(s: Seq<char>, p: int)
    requires
        0 <= p <= s.len(),
    ensures
        float_at(s, p) matches Some(q) ==> p < q <= s.len(),
{
    crate::grammar::lemma_run_end(s, p, CharClass::Digit);
    if p < s.len() {
        crate::grammar::lemma_run_end(s, p + 1, CharClass::Digit);
    }
    let q = run_end(s, p, CharClass::Digit);
    if q < s.len() {
        crate::grammar::lemma_run_end(s, q + 1, CharClass::Digit);
    }
    let m = if 0 <= p < s.len() && is_digit(s[p]) {
        if q < s.len() && s[q] == '.' {
            run_end(s, q + 1, CharClass::Digit)
        } else {
            q
        }
    } else {
        run_end(s, p + 1, CharClass::Digit)
    };
    if 0 <= m && m + 2 <= s.len() {
        crate::grammar::lemma_run_end(s, m + 1, CharClass::Digit);
        crate::grammar::lemma_run_end(s, m + 2, CharClass::Digit);
    } else if 0 <= m && m + 1 <= s.len() {
        crate::grammar::lemma_run_end(s, m + 1, CharClass::Digit);
    }
}

proof fn lemma_string_consumes(s: Seq<char>, p: int, acc: Seq<char>)
    ensures
        string_rest(s, p, acc) matches Some((_, q)) ==> p < q <= s.len(),
    decreases s.len() - p,
{
    if 0 <= p < s.len() && s[p] != '"' {
        if s[p] != '\\' {
            lemma_string_consumes(s, p + 1, acc.push(s[p]));
        } else if p + 1 < s.len() {
            if simple_escape(s[p + 1]) is Some {
                lemma_string_consumes(s, p + 2, acc.push(simple_escape(s[p + 1])->0));
            } else if unicode_escape(s, p + 1) is Some {
                let (v, q) = unicode_escape(s, p + 1)->0;
                lemma_string_consumes(s, q, acc.push(crate::grammar::char_of(v)));
            } else {
                let q = run_end(s, p + 1, CharClass::Blank);
                if p < q <= s.len() {
                    lemma_string_consumes(s, q, acc);
                }
            }
        }
    }
}

/// What the grammar reads is canonical, and reading consumes input.
proof fn lemma_parsed_canon(s: Seq<char>, p: int)
    requires
        0 <= p <= s.len(),
    ensures
        expr_at(s, p) matches Ok((e, q)) ==> canon(e) && p < q <= s.len(),
    decreases s.len() - p, 1int,
{
    lemma_op_from_some(s, p, 0);
    if op_at(s, p) is Some {
    } else if string_at(s, p) is Some {
        lemma_string_consumes(s, p + 1, seq![]);
    } else if ident_at(s, p) is Some {
        let q = ident_at(s, p)->0;
        crate::grammar::lemma_run_end(s, p + 1, CharClass::Ident);
        let n = s.subrange(p, q);
        assert forall|k: int| 0 <= k < keywords().len() implies !starts_with(n, 0, #[trigger] keywords()[k].0) by {
            lemma_op_from_none_all(s, p, 0, k);
            let w = keywords()[k].0;
            if starts_with(n, 0, w) {
                assert(s.subrange(p, p + w.len()) =~= n.subrange(0, w.len() as int));
            }
        }
        assert forall|i: int| 0 <= i < n.len() implies is_ident_char(#[trigger] n[i]) by {
            if i > 0 {
                assert(n[i] == s[p + i]);
                assert(in_class(CharClass::Ident, s[p + i]));
            }
        }
    } else if decimal_at(s, p) is Some {
        crate::grammar::lemma_run_end(s, p, CharClass::DigitOrSep);
    } else if float_at(s, p) is Some {
        lemma_float_consumes(s, p);
    } else if p + 1 < s.len() && s[p] == '\'' && s[p + 1] == '(' {
        lemma_list_canon(s, p + 1);
    } else if p < s.len() && s[p] == '(' {
        lemma_list_canon(s, p);
    }
}

proof fn lemma_list_canon(s: Seq<char>, p: int)
    requires
        0 <= p <= s.len(),
    ensures
        list_at(s, p) matches Ok((items, q)) ==> all_canon(items) && p < q <= s.len(),
    decreases s.len() - p, 0int,
{
    if 0 <= p < s.len() {
        let q = spaces_end(s, p + 1);
        crate::grammar::lemma_run_end(s, p + 1, CharClass::Space);
        lemma_parsed_canon(s, q);
        let (items, end) = match expr_at(s, q) {
            Err(_) => (seq![], q),
            Ok((e, q1)) => if q < q1 <= s.len() {
                items_rest(s, q1, seq![e])
            } else {
                (seq![e], q1)
            },
        };
        match expr_at(s, q) {
            Err(_) => {},
            Ok((e, q1)) => {
                assert(seq![e].drop_first() =~= Seq::<ExprV>::empty());
                assert(all_canon(Seq::<ExprV>::empty()));
                assert(all_canon(seq![e]));
                lemma_rest_canon(s, q1, seq![e]);
            },
        }
        crate::grammar::lemma_run_end(s, end, CharClass::Space);
    }
}

proof fn lemma_rest_canon(s: Seq<char>, p: int, acc: Seq<ExprV>)
    requires
        0 <= p <= s.len(),
        all_canon(acc),
    ensures
        all_canon(items_rest(s, p, acc).0),
        p <= items_rest(s, p, acc).1 <= s.len(),
    decreases s.len() - p, 2int,
{
    if 0 <= p < s.len() && s[p] == ' ' {
        let q = spaces_end(s, p);
        crate::grammar::lemma_run_end(s, p, CharClass::Space);
        lemma_parsed_canon(s, q);
        match expr_at(s, q) {
            Ok((e, q1)) => {
                if q < q1 <= s.len() {
                    lemma_all_canon_push(acc, e);
                    lemma_rest_canon(s, q1, acc.push(e));
                }
            },
            Err(_) => {},
        }
    }
}

proof fn lemma_split(s: Seq<char>, a: int, x: Seq<char>, y: Seq<char>)
    requires
        0 <= a,
        a + x.len() + y.len() <= s.len(),
        s.subrange(a, a + x.len() + y.len()) == x + y,
    ensures
        s.subrange(a, a + x.len()) == x,
        s.subrange(a + x.len(), a + x.len() + y.len()) == y,
{
    assert forall|j: int| 0 <= j < x.len() implies s.subrange(a, a + x.len())[j] == x[j] by {
        assert(s.subrange(a, a + x.len() + y.len())[j] == (x + y)[j]);
    }
    assert forall|j: int| 0 <= j < y.len() implies s.subrange(a + x.len(), a + x.len() + y.len())[j]
        == y[j] by {
        assert(s.subrange(a, a + x.len() + y.len())[x.len() + j] == (x + y)[x.len() + j]);
        assert(s.subrange(a + x.len(), a + x.len() + y.len())[j] == s[a + x.len() + j]);
        assert(s.subrange(a, a + x.len() + y.len())[x.len() + j] == s[a + x.len() + j]);
        assert((x + y)[x.len() + j] == y[j]);
    }
    assert(s.subrange(a, a + x.len()) =~= x);
    assert(s.subrange(a + x.len(), a + x.len() + y.len()) =~= y);
}

proof fn lemma_at(s: Seq<char>, a: int, x: Seq<char>, j: int)
    requires
        0 <= a,
        a + x.len() <= s.len(),
        s.subrange(a, a + x.len()) == x,
        0 <= j < x.len(),
    ensures
        s[a + j] == x[j],
{
    assert(s.subrange(a, a + x.len())[j] == s[a + j]);
}

pub open spec fn esc1(c: char) -> Seq<char> {
    if c == '"' || c == '\\' {
        seq!['\\', c]
    } else {
        seq![c]
    }
}

proof fn lemma_escaped_front(q: Seq<char>)
    requires
        q.len() > 0,
    ensures
        escaped(q) == esc1(q[0]) + escaped(q.drop_first()),
    decreases q.len(),
{
    if q.len() == 1 {
        assert(q.drop_last() =~= Seq::<char>::empty());
        assert(q.drop_first() =~= Seq::<char>::empty());
        assert(escaped(q) =~= esc1(q[0]) + escaped(q.drop_first()));
    } else {
        let dl = q.drop_last();
        lemma_escaped_front(dl);
        assert(q.drop_first().drop_last() =~= dl.drop_first());
        assert(q.drop_first().last() == q.last());
        assert(dl[0] == q[0]);
        assert(escaped(q) =~= esc1(q[0]) + escaped(q.drop_first()));
    }
}

proof fn lemma_string_back(s: Seq<char>, i: int, r: Seq<char>, acc: Seq<char>)
    requires
        0 <= i,
        i + escaped(r).len() < s.len(),
        s.subrange(i, i + escaped(r).len()) == escaped(r),
        s[i + escaped(r).len()] == '"',
    ensures
        string_rest(s, i, acc) == Some((acc + r, i + escaped(r).len() + 1)),
    decreases r.len(),
{
    if r.len() == 0 {
        assert(acc + r =~= acc);
    } else {
        lemma_escaped_front(r);
        let c = r[0];
        let rest = r.drop_first();
        lemma_split(s, i, esc1(c), escaped(rest));
        lemma_at(s, i, esc1(c), 0);
        if c == '"' || c == '\\' {
            lemma_at(s, i, esc1(c), 1);
            lemma_string_back(s, i + 2, rest, acc.push(c));
        } else {
            lemma_string_back(s, i + 1, rest, acc.push(c));
        }
        assert(acc.push(c) + rest =~= acc + r);
    }
}

proof fn lemma_nat_text(s: Seq<char>, p: int, n: nat)
    requires
        0 <= p,
        p + nat_text(n).len() <= s.len(),
        s.subrange(p, p + nat_text(n).len()) == nat_text(n),
    ensures
        nat_text(n).len() > 0,
        digits_value(s, p, p + nat_text(n).len()) == n,
        forall|j: int| p <= j < p + nat_text(n).len() ==> is_digit(#[trigger] s[j]),
    decreases n,
{
    let t = nat_text(n);
    if n < 10 {
        lemma_at(s, p, t, 0);
        assert(digits_value(s, p, p) == 0);
    } else {
        let t1 = nat_text(n / 10);
        assert(t =~= t1 + seq![char_of_digit(n % 10)]);
        lemma_split(s, p, t1, seq![char_of_digit(n % 10)]);
        lemma_nat_text(s, p, n / 10);
        lemma_at(s, p, t, t.len() - 1);
    }
}

proof fn lemma_nat_text_first(n: nat)
    ensures
        nat_text(n).len() > 0,
        is_digit(nat_text(n)[0]),
    decreases n,
{
    if n >= 10 {
        lemma_nat_text_first(n / 10);
    }
}

proof fn lemma_text_first(e: ExprV)
    requires
        canon(e),
        !has_float(e),
    ensures
        text_of(e).len() > 0,
        text_of(e)[0] != ' ',
        text_of(e)[0] != ')',
{
    match e {
        ExprV::Atomic(AtomV::Number(NumV::Int(i))) => {
            lemma_nat_text_first(i as nat);
        },
        _ => {},
    }
}

proof fn lemma_op_from_first(s: Seq<char>, p: int, i: int, k: int)
    requires
        0 <= i <= k < keywords().len(),
        forall|j: int| i <= j < k ==> !starts_with(s, p, #[trigger] keywords()[j].0),
        starts_with(s, p, keywords()[k].0),
    ensures
        op_from(s, p, i) == Some((keywords()[k].1, p + keywords()[k].0.len())),
    decreases k - i,
{
    if i < k {
        lemma_op_from_first(s, p, i + 1, k);
    }
}

/// The position of an operator's keyword in the order they are tried.
pub open spec fn keyword_index(op: Ops) -> int {
    match op {
        Ops::Add => 0,
        Ops::Sub => 1,
        Ops::Mul => 2,
        Ops::Div => 3,
        Ops::Defun => 4,
        Ops::Rem => 9,
        Ops::Nth => 10,
        Ops::List => 11,
        Ops::Eval => 12,
        _ => 13,
    }
}

proof fn lemma_reparse_op(s: Seq<char>, p: int, op: Ops)
    requires
        !(op is Mapcar),
        0 <= p,
        p + op_text(op).len() <= s.len(),
        s.subrange(p, p + op_text(op).len()) == op_text(op),
    ensures
        op_at(s, p) == Some((op, p + op_text(op).len())),
{
    let k = keyword_index(op);
    let t = op_text(op);
    assert(keywords()[k].0 == t && keywords()[k].1 == op);
    lemma_at(s, p, t, 0);
    if t.len() > 1 {
        lemma_at(s, p, t, 1);
    }
    assert forall|j: int| 0 <= j < k implies !starts_with(s, p, #[trigger] keywords()[j].0) by {
        if starts_with(s, p, keywords()[j].0) {
            lemma_starts_with_char(s, p, keywords()[j].0, 0);
            if j == 3 {
                lemma_starts_with_char(s, p, keywords()[j].0, 1);
            }
        }
    }
    lemma_op_from_first(s, p, 0, k);
}

/// The delimiters that may follow an expression's text.
pub open spec fn delimited(s: Seq<char>, q: int) -> bool {
    q == s.len() || s[q] == ' ' || s[q] == ')'
}

proof fn lemma_reparse_name(s: Seq<char>, p: int, n: Seq<char>)
    requires
        valid_name(n),
        0 <= p,
        p + n.len() <= s.len(),
        s.subrange(p, p + n.len()) == n,
        delimited(s, p + n.len()),
    ensures
        expr_at(s, p) == Ok::<(ExprV, int), int>((ExprV::Atomic(AtomV::Name(n)), p + n.len())),
{
    lemma_at(s, p, n, 0);
    assert forall|k: int| 0 <= k < keywords().len() implies !starts_with(s, p, #[trigger] keywords()[k].0) by {
        let w = keywords()[k].0;
        if starts_with(s, p, w) {
            if w.len() <= n.len() {
                assert(n.subrange(0, w.len() as int) =~= s.subrange(p, p + w.len()));
                assert(starts_with(n, 0, w));
            } else {
                lemma_starts_with_char(s, p, w, n.len() as int);
            }
        }
    }
    lemma_op_from_none(s, p, 0);
    assert forall|i: int| p + 1 <= i < p + n.len() implies in_class(CharClass::Ident, #[trigger] s[i]) by {
        lemma_at(s, p, n, i - p);
    }
    lemma_run_end_at(s, p + 1, p + n.len(), CharClass::Ident);
}

proof fn lemma_reparse_int(s: Seq<char>, p: int, i: i64)
    requires
        i >= 0,
        0 <= p,
        p + nat_text(i as nat).len() <= s.len(),
        s.subrange(p, p + nat_text(i as nat).len()) == nat_text(i as nat),
        delimited(s, p + nat_text(i as nat).len()),
    ensures
        expr_at(s, p) == Ok::<(ExprV, int), int>((ExprV::Atomic(AtomV::Number(NumV::Int(i))), p + nat_text(i as nat).len())),
{
    let t = nat_text(i as nat);
    lemma_nat_text(s, p, i as nat);
    lemma_no_keyword_at(s, p);
    let q = p + t.len();
    lemma_run_end_at(s, p, q, CharClass::DigitOrSep);
}

/// The text of a canonical expression without floats reads back as the
/// same expression, when a space, `)` or the end of the input follows it.
proof fn lemma_reparse(s: Seq<char>, p: int, e: ExprV)
    requires
        canon(e),
        !has_float(e),
        0 <= p,
        p + text_of(e).len() <= s.len(),
        s.subrange(p, p + text_of(e).len()) == text_of(e),
        delimited(s, p + text_of(e).len()),
    ensures
        expr_at(s, p) == Ok::<(ExprV, int), int>((e, p + text_of(e).len())),
    decreases e, 2int,
{
    let t = text_of(e);
    lemma_text_first(e);
    lemma_at(s, p, t, 0);
    match e {
        ExprV::Atomic(AtomV::Name(n)) => {
            lemma_reparse_name(s, p, n);
        },
        ExprV::Atomic(AtomV::Quoted(q)) => {
            lemma_no_keyword_at(s, p);
            lemma_split(s, p, seq!['"'] + escaped(q), seq!['"']);
            lemma_split(s, p, seq!['"'], escaped(q));
            lemma_at(s, p, t, t.len() - 1);
            lemma_string_back(s, p + 1, q, seq![]);
            assert(Seq::<char>::empty() + q =~= q);
        },
        ExprV::Atomic(AtomV::Op(op)) => {
            lemma_reparse_op(s, p, op);
        },
        ExprV::Atomic(AtomV::Number(NumV::Int(i))) => {
            lemma_reparse_int(s, p, i);
        },
        ExprV::Qexpr(items) => {
            lemma_no_keyword_at(s, p);
            lemma_at(s, p, t, 1);
            let inner = seq!['('] + join(items) + seq![')'];
            assert(t == seq!['\''] + inner);
            lemma_split(s, p, seq!['\''], inner);
            lemma_reparse_list(s, p + 1, items);
        },
        ExprV::List(items) => {
            lemma_no_keyword_at(s, p);
            lemma_reparse_list(s, p, items);
        },
        _ => {},
    }
}

proof fn lemma_reparse_list(s: Seq<char>, p: int, items: Seq<ExprV>)
    requires
        all_canon(items),
        !any_float(items),
        0 <= p,
        p + join(items).len() + 2 <= s.len(),
        s.subrange(p, p + join(items).len() + 2) == seq!['('] + join(items) + seq![')'],
    ensures
        list_at(s, p) == Ok::<(Seq<ExprV>, int), int>((items, p + join(items).len() + 2)),
    decreases items, 1int,
{
    let t = seq!['('] + join(items) + seq![')'];
    let end = p + join(items).len() + 1;
    lemma_at(s, p, t, 1);
    lemma_at(s, p, t, t.len() - 1);
    lemma_split(s, p, seq!['('] + join(items), seq![')']);
    lemma_split(s, p, seq!['('], join(items));
    if items.len() == 0 {
        lemma_run_end_at(s, p + 1, p + 1, CharClass::Space);
        assert(spaces_end(s, p + 1) == p + 1);
        lemma_no_keyword_at(s, p + 1);
        assert(expr_at(s, p + 1) is Err);
        assert(items =~= Seq::<ExprV>::empty());
        lemma_run_end_at(s, end, end, CharClass::Space);
        assert(spaces_end(s, end) == end);
    } else {
        let e = items[0];
        lemma_text_first(e);
        let t0 = text_of(e);
        let rest = items.drop_first();
        let tail = if rest.len() == 0 { Seq::<char>::empty() } else { seq![' '] + join(rest) };
        assert(join(items) == t0 + tail);
        lemma_split(s, p + 1, t0, tail);
        lemma_at(s, p + 1, t0, 0);
        lemma_run_end_at(s, p + 1, p + 1, CharClass::Space);
        if rest.len() > 0 {
            lemma_at(s, p + 1 + t0.len(), tail, 0);
        }
        assert(spaces_end(s, p + 1) == p + 1);
        lemma_reparse(s, p + 1, e);
        lemma_reparse_rest(s, p + 1 + t0.len(), seq![e], rest);
        assert(seq![e] + rest =~= items);
        lemma_run_end_at(s, end, end, CharClass::Space);
        assert(spaces_end(s, end) == end);
        assert(items_rest(s, p + 1 + t0.len(), seq![e]) == (items, end));
    }
}

proof fn lemma_reparse_rest(s: Seq<char>, pos: int, acc: Seq<ExprV>, rest: Seq<ExprV>)
    requires
        all_canon(rest),
        !any_float(rest),
        0 <= pos,
        pos + (if rest.len() == 0 { 0 } else { join(rest).len() + 1 }) < s.len(),
        rest.len() > 0 ==> s.subrange(pos, pos + join(rest).len() + 1) == seq![' '] + join(rest),
        s[pos + (if rest.len() == 0 { 0 } else { join(rest).len() + 1 })] == ')',
    ensures
        items_rest(s, pos, acc) == (acc + rest, pos + (if rest.len() == 0 { 0 } else { join(rest).len() + 1 })),
    decreases rest, 0int,
{
    if rest.len() == 0 {
        assert(acc + rest =~= acc);
    } else {
        let e = rest[0];
        lemma_text_first(e);
        let t0 = text_of(e);
        let more = rest.drop_first();
        let tail = if more.len() == 0 { Seq::<char>::empty() } else { seq![' '] + join(more) };
        assert(join(rest) == t0 + tail);
        let whole = seq![' '] + join(rest);
        assert(whole =~= seq![' '] + t0 + tail);
        lemma_at(s, pos, whole, 0);
        lemma_at(s, pos, whole, 1);
        lemma_split(s, pos, seq![' '] + t0, tail);
        lemma_split(s, pos, seq![' '], t0);
        lemma_run_end_at(s, pos + 1, pos + 1, CharClass::Space);
        assert(spaces_end(s, pos) == pos + 1);
        if more.len() > 0 {
            lemma_at(s, pos + 1 + t0.len(), tail, 0);
        }
        lemma_reparse(s, pos + 1, e);
        lemma_reparse_rest(s, pos + 1 + t0.len(), acc.push(e), more);
        assert(acc.push(e) + more =~= acc + rest);
    }
}

/// Parsing, writing the expression back as text and parsing that text gives
/// the same expression, for every line that parses to an expression without
/// floats (the text of a float is the host's to choose).
pub proof fn law_parse_render_parse(s: Seq<char>)
    requires
        parse(s) is Ok,
        !has_float(parse(s)->Ok_0),
    ensures
        parse(text_of(parse(s)->Ok_0)) == parse(s),
{
    let e = parse(s)->Ok_0;
    lemma_parsed_canon(s, 0);
    let t = text_of(e);
    assert(t.subrange(0, t.len() as int) =~= t);
    lemma_reparse(t, 0, e);
}

} // verus!
