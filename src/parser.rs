//! The parser, proved to read what `grammar` describes.

use vstd::prelude::*;
use crate::floats::Binary64;
use crate::grammar::{
    char_of, code, decimal_at, digits_value, expr_at, float_at, hex_digits_value, hex_value,
    ident_at, in_class, is_digit, is_scalar, items_rest, keywords, list_at, op_at, op_from,
    run_end, simple_escape, starts_with, string_at, string_rest, unicode_escape, CharClass,
};
use crate::types::{seq_views, lemma_views, Atom, Expr, ExprV, Num, Ops};

verus! {

/// The characters of a string, one by one.
pub fn chars_of(s: &str) -> (r: Vec<char>)
    ensures
        r@ == s@,
{
    let n = s.unicode_len();
    let mut r: Vec<char> = Vec::new();
    let mut i: usize = 0;
    while i < n
        invariant
            n == s@.len(),
            i <= n,
            r@ == s@.subrange(0, i as int),
        decreases n - i,
    {
        r.push(s.get_char(i));
        i = i + 1;
        assert(r@ =~= s@.subrange(0, i as int));
    }
    assert(s@.subrange(0, n as int) =~= s@);
    r
}

/// Relies on `String`'s `FromIterator<char>`: the string of exactly these
/// characters, in order.
#[verifier::external_body]
pub(crate) fn string_of(v: &Vec<char>) -> (r: String)
    ensures
        r@ == v@,
{
    v.iter().collect()
}

/// Relies on `char::from_u32`: `Some` exactly for a Unicode scalar value
/// (not a surrogate, at most 0x10FFFF), holding the character of that code.
#[verifier::external_body]
fn char_from_code(u: u32) -> (r: Option<char>)
    ensures
        r is Some <==> is_scalar(u as nat),
        r is Some ==> code(r->0) == u as nat,
{
    char::from_u32(u)
}

fn class_has(k: CharClass, c: char) -> (r: bool)
    ensures
        r == in_class(k, c),
{
    let digit = '0' <= c && c <= '9';
    match k {
        CharClass::Space => c == ' ',
        CharClass::Ident => ('a' <= c && c <= 'z') || ('A' <= c && c <= 'Z') || digit || c == '_',
        CharClass::Digit => digit,
        CharClass::DigitOrSep => digit || c == '_',
        CharClass::Hex => digit || ('a' <= c && c <= 'f') || ('A' <= c && c <= 'F'),
        CharClass::Blank => c == ' ' || c == '\t' || c == '\r' || c == '\n',
    }
}

fn run_end_of(cs: &Vec<char>, p: usize, k: CharClass) -> (r: usize)
    requires
        p <= cs@.len(),
    ensures
        r as int == run_end(cs@, p as int, k),
        p <= r <= cs@.len(),
{
    let mut i = p;
    while i < cs.len() && class_has(k, cs[i])
        invariant
            p <= i <= cs@.len(),
            run_end(cs@, i as int, k) == run_end(cs@, p as int, k),
        decreases cs@.len() - i,
    {
        i = i + 1;
    }
    i
}

fn keyword(i: usize) -> (r: (Vec<char>, Ops))
    requires
        i < keywords().len(),
    ensures
        r.0@ == keywords()[i as int].0,
        r.1 == keywords()[i as int].1,
{
    let r = match i {
        0 => (vec!['a', 'd', 'd'], Ops::Add),
        1 => (vec!['s', 'u', 'b'], Ops::Sub),
        2 => (vec!['m', 'u', 'l'], Ops::Mul),
        3 => (vec!['d', 'i', 'v'], Ops::Div),
        4 => (vec!['d', 'e', 'f', 'u', 'n'], Ops::Defun),
        5 => (vec!['+'], Ops::Add),
        6 => (vec!['*'], Ops::Mul),
        7 => (vec!['-'], Ops::Sub),
        8 => (vec!['/'], Ops::Div),
        9 => (vec!['%'], Ops::Rem),
        10 => (vec!['n', 't', 'h'], Ops::Nth),
        11 => (vec!['l', 'i', 's', 't'], Ops::List),
        12 => (vec!['e', 'v', 'a', 'l'], Ops::Eval),
        _ => (vec!['c', 'a', 'r'], Ops::Car),
    };
    assert(r.0@ =~= keywords()[i as int].0);
    r
}

fn starts_with_at(cs: &Vec<char>, p: usize, w: &Vec<char>) -> (r: bool)
    requires
        p <= cs@.len(),
    ensures
        r == starts_with(cs@, p as int, w@),
{
    if w.len() > cs.len() - p {
        return false;
    }
    let mut i: usize = 0;
    let n = cs.len();
    while i < w.len()
        invariant
            n == cs@.len(),
            p + w@.len() <= n,
            i <= w@.len(),
            forall|j: int| 0 <= j < i ==> cs@[p + j] == w@[j],
        decreases w@.len() - i,
    {
        if cs[p + i] != w[i] {
            assert(cs@.subrange(p as int, p + w@.len())[i as int] != w@[i as int]);
            return false;
        }
        i = i + 1;
    }
    assert(cs@.subrange(p as int, p + w@.len()) =~= w@);
    true
}

fn op_of(cs: &Vec<char>, p: usize) -> (r: Option<(Ops, usize)>)
    requires
        p <= cs@.len(),
    ensures
        match r {
            Some((op, q)) => op_at(cs@, p as int) == Some((op, q as int)) && p < q <= cs@.len(),
            None => op_at(cs@, p as int) is None,
        },
{
    let mut i: usize = 0;
    let n = cs.len();
    while i < 14
        invariant
            n == cs@.len(),
            keywords().len() == 14,
            i <= 14,
            p <= cs@.len(),
            op_from(cs@, p as int, i as int) == op_from(cs@, p as int, 0),
        decreases 14 - i,
    {
        let (w, op) = keyword(i);
        if starts_with_at(cs, p, &w) {
            assert(w@.len() > 0) by {
                reveal_with_fuel(op_from, 1);
            }
            return Some((op, p + w.len()));
        }
        i = i + 1;
    }
    None
}

proof fn lemma_digits_grow(s: Seq<char>, p: int, k: int, q: int)
    requires
        p <= k <= q,
    ensures
        digits_value(s, p, k) <= digits_value(s, p, q),
    decreases q - k,
{
    if k < q {
        lemma_digits_grow(s, p, k, q - 1);
    }
}

fn decimal_of(cs: &Vec<char>, p: usize) -> (r: Option<(i64, usize)>)
    requires
        p <= cs@.len(),
    ensures
        match r {
            Some((v, q)) => decimal_at(cs@, p as int) == Some((v, q as int)) && p < q <= cs@.len(),
            None => decimal_at(cs@, p as int) is None,
        },
{
    let n = cs.len();
    if !(p < n && class_has(CharClass::Digit, cs[p])) {
        return None;
    }
    let q = run_end_of(cs, p, CharClass::DigitOrSep);
    proof {
        crate::grammar::lemma_run_end(cs@, p as int, CharClass::DigitOrSep);
    }
    if q < n && (cs[q] == '.' || cs[q] == 'e' || cs[q] == 'E') {
        return None;
    }
    let mut acc: u64 = 0;
    let mut k = p;
    while k < q
        invariant
            n == cs@.len(),
            p <= k <= q <= n,
            p < n && is_digit(cs@[p as int]),
            q as int == run_end(cs@, p as int, CharClass::DigitOrSep),
            !(q < n && (cs@[q as int] == '.' || cs@[q as int] == 'e' || cs@[q as int] == 'E')),
            acc as nat == digits_value(cs@, p as int, k as int),
            acc <= i64::MAX,
            forall|i: int| p <= i < q ==> in_class(CharClass::DigitOrSep, #[trigger] cs@[i]),
        decreases q - k,
    {
        let c = cs[k];
        assert(in_class(CharClass::DigitOrSep, cs@[k as int]));
        if c != '_' {
            let d = (c as u32 - '0' as u32) as u64;
            assert(d <= 9);
            if acc > (9223372036854775807u64 - d) / 10 {
                proof {
                    assert(digits_value(cs@, p as int, k + 1) == acc * 10 + d);
                    assert(acc * 10 + d > i64::MAX) by (nonlinear_arith)
                        requires
                            acc > (9223372036854775807u64 - d) / 10,
                            d <= 9,
                    ;
                    lemma_digits_grow(cs@, p as int, k + 1, q as int);
                }
                return None;
            }
            assert(acc * 10 + d <= i64::MAX) by (nonlinear_arith)
                requires
                    acc <= (9223372036854775807u64 - d) / 10,
                    d <= 9,
            ;
            acc = acc * 10 + d;
        }
        k = k + 1;
    }
    Some((acc as i64, q))
}

fn float_of(cs: &Vec<char>, p: usize) -> (r: Option<usize>)
    requires
        p <= cs@.len(),
    ensures
        match r {
            Some(q) => float_at(cs@, p as int) == Some(q as int) && p < q <= cs@.len(),
            None => float_at(cs@, p as int) is None,
        },
{
    let n = cs.len();
    let m = if p < n && class_has(CharClass::Digit, cs[p]) {
        let q = run_end_of(cs, p, CharClass::Digit);
        proof {
            crate::grammar::lemma_run_end(cs@, p as int, CharClass::Digit);
        }
        if q < n && cs[q] == '.' {
            run_end_of(cs, q + 1, CharClass::Digit)
        } else {
            q
        }
    } else if p < n && p + 1 < n && cs[p] == '.' && class_has(CharClass::Digit, cs[p + 1]) {
        run_end_of(cs, p + 1, CharClass::Digit)
    } else {
        return None;
    };
    if m < n && (cs[m] == 'e' || cs[m] == 'E') {
        let d = if m + 1 < n && (cs[m + 1] == '+' || cs[m + 1] == '-') {
            m + 2
        } else {
            m + 1
        };
        if d < n && class_has(CharClass::Digit, cs[d]) {
            Some(run_end_of(cs, d, CharClass::Digit))
        } else {
            None
        }
    } else {
        Some(m)
    }
}

fn ident_of(cs: &Vec<char>, p: usize) -> (r: Option<usize>)
    requires
        p <= cs@.len(),
    ensures
        match r {
            Some(q) => ident_at(cs@, p as int) == Some(q as int) && p < q <= cs@.len(),
            None => ident_at(cs@, p as int) is None,
        },
{
    if p < cs.len() {
        let c = cs[p];
        if ('a' <= c && c <= 'z') || ('A' <= c && c <= 'Z') || c == '_' {
            return Some(run_end_of(cs, p + 1, CharClass::Ident));
        }
    }
    None
}

fn simple_escape_of(c: char) -> (r: Option<char>)
    ensures
        r == simple_escape(c),
{
    if c == 'n' {
        Some('\n')
    } else if c == 'r' {
        Some('\r')
    } else if c == 't' {
        Some('\t')
    } else if c == 'b' {
        Some('\u{8}')
    } else if c == 'f' {
        Some('\u{c}')
    } else if c == '\\' || c == '/' || c == '"' {
        Some(c)
    } else {
        None
    }
}

pub open spec fn pow16(n: nat) -> nat
    decreases n,
{
    if n == 0 {
        1
    } else {
        16 * pow16((n - 1) as nat)
    }
}

fn unicode_of(cs: &Vec<char>, p: usize) -> (r: Option<(u32, usize)>)
    requires
        p <= cs@.len(),
    ensures
        match r {
            Some((v, q)) => unicode_escape(cs@, p as int) == Some((v as nat, q as int)) && p < q
                <= cs@.len(),
            None => unicode_escape(cs@, p as int) is None,
        },
{
    let n = cs.len();
    if !(p < n && p + 1 < n && cs[p] == 'u' && cs[p + 1] == '{') {
        return None;
    }
    let a = p + 2;
    let h = run_end_of(cs, a, CharClass::Hex);
    proof {
        crate::grammar::lemma_run_end(cs@, a as int, CharClass::Hex);
    }
    let q = if h - a > 6 {
        a + 6
    } else {
        h
    };
    if !(q > a && q < n && cs[q] == '}') {
        return None;
    }
    let mut acc: u64 = 0;
    let mut k = a;
    while k < q
        invariant
            n == cs@.len(),
            a <= k <= q < n,
            h <= n,
            q <= a + 6,
            q <= h,
            forall|i: int| a <= i < h ==> in_class(CharClass::Hex, #[trigger] cs@[i]),
            acc as nat == hex_digits_value(cs@, a as int, k as int),
            acc < pow16((k - a) as nat),
        decreases q - k,
    {
        let c = cs[k];
        assert(in_class(CharClass::Hex, cs@[k as int]));
        let d: u64 = if '0' <= c && c <= '9' {
            (c as u32 - '0' as u32) as u64
        } else if 'a' <= c && c <= 'f' {
            (c as u32 - 'a' as u32 + 10) as u64
        } else {
            (c as u32 - 'A' as u32 + 10) as u64
        };
        assert(d == hex_value(cs@[k as int]) && d < 16);
        proof {
            lemma_pow16_small((k + 1 - a) as nat);
            assert(pow16((k + 1 - a) as nat) == 16 * pow16((k - a) as nat));
        }
        acc = acc * 16 + d;
        k = k + 1;
    }
    proof {
        lemma_pow16_small((q - a) as nat);
    }
    let v = acc as u32;
    match char_from_code(v) {
        Some(_) => Some((v, q + 1)),
        None => None,
    }
}

proof fn lemma_pow16_small(n: nat)
    requires
        n <= 6,
    ensures
        pow16(n) <= 0x1000000,
{
    reveal_with_fuel(pow16, 7);
}

fn string_lit(cs: &Vec<char>, p: usize) -> (r: Option<(Vec<char>, usize)>)
    requires
        p <= cs@.len(),
    ensures
        match r {
            Some((v, q)) => string_at(cs@, p as int) == Some((v@, q as int)) && p < q <= cs@.len(),
            None => string_at(cs@, p as int) is None,
        },
{
    let n = cs.len();
    if !(p < n && cs[p] == '"') {
        return None;
    }
    let mut i = p + 1;
    let mut acc: Vec<char> = Vec::new();
    loop
        invariant
            n == cs@.len(),
            p < i <= n,
            cs@[p as int] == '"',
            string_rest(cs@, i as int, acc@) == string_rest(cs@, p + 1, seq![]),
        decreases n - i,
    {
        if i >= n {
            return None;
        }
        let c = cs[i];
        if c == '"' {
            return Some((acc, i + 1));
        }
        if c != '\\' {
            acc.push(c);
            i = i + 1;
            continue;
        }
        if i + 1 >= n {
            return None;
        }
        let e = cs[i + 1];
        if let Some(x) = simple_escape_of(e) {
            acc.push(x);
            i = i + 2;
            continue;
        }
        if let Some((v, q)) = unicode_of(cs, i + 1) {
            match char_from_code(v) {
                Some(ch) => {
                    proof {
                        let w = char_of(v as nat);
                        assert(code(w) == v as nat);
                        crate::grammar::lemma_chars_injective(w, ch);
                    }
                    acc.push(ch);
                    i = q;
                    continue;
                },
                None => {
                    return None;
                },
            }
        }
        if class_has(CharClass::Blank, e) {
            let q = run_end_of(cs, i + 1, CharClass::Blank);
            if i < q {
                i = q;
                continue;
            }
        }
        return None;
    }
}

fn expr_of<F: Binary64>(input: &str, cs: &Vec<char>, p: usize, floats: &F) -> (r: Result<
    (Expr, usize),
    usize,
>)
    requires
        cs@ == input@,
        p <= cs@.len(),
    ensures
        match r {
            Ok((e, q)) => expr_at(cs@, p as int) == Ok::<(ExprV, int), int>((e@, q as int)) && q
                <= cs@.len(),
            Err(x) => expr_at(cs@, p as int) == Err::<(ExprV, int), int>(x as int) && x <= cs@.len(),
        },
    decreases cs@.len() - p, 1int,
{
    if let Some((op, q)) = op_of(cs, p) {
        return Ok((Expr::Atomic(Atom::Op(op)), q));
    }
    if let Some((text, q)) = string_lit(cs, p) {
        return Ok((Expr::Atomic(Atom::Quoted(string_of(&text))), q));
    }
    if let Some(q) = ident_of(cs, p) {
        return Ok((Expr::Atomic(Atom::Name(input.substring_char(p, q).to_owned())), q));
    }
    if let Some((v, q)) = decimal_of(cs, p) {
        return Ok((Expr::Atomic(Atom::Number(Num::Int(v))), q));
    }
    if let Some(q) = float_of(cs, p) {
        let bits = floats.from_literal(input.substring_char(p, q));
        return Ok((Expr::Atomic(Atom::Number(Num::Double(bits))), q));
    }
    let n = cs.len();
    if p < n && p + 1 < n && cs[p] == '\'' && cs[p + 1] == '(' {
        match list_of(input, cs, p + 1, floats) {
            Ok((items, q)) => {
                proof {
                    lemma_views(&items);
                }
                Ok((Expr::Qexpr(items), q))
            },
            Err(x) => Err(x),
        }
    } else if p < n && cs[p] == '(' {
        match list_of(input, cs, p, floats) {
            Ok((items, q)) => {
                proof {
                    lemma_views(&items);
                }
                Ok((Expr::List(items), q))
            },
            Err(x) => Err(x),
        }
    } else {
        Err(p)
    }
}

fn list_of<F: Binary64>(input: &str, cs: &Vec<char>, p: usize, floats: &F) -> (r: Result<
    (Vec<Expr>, usize),
    usize,
>)
    requires
        cs@ == input@,
        p < cs@.len(),
    ensures
        match r {
            Ok((v, q)) => list_at(cs@, p as int) == Ok::<(Seq<ExprV>, int), int>(
                (seq_views(v@), q as int),
            ) && q <= cs@.len(),
            Err(x) => list_at(cs@, p as int) == Err::<(Seq<ExprV>, int), int>(x as int) && x
                <= cs@.len(),
        },
    decreases cs@.len() - p, 0int,
{
    let n = cs.len();
    let q = run_end_of(cs, p + 1, CharClass::Space);
    let mut items: Vec<Expr> = Vec::new();
    let mut end = q;
    match expr_of(input, cs, q, floats) {
        Err(_) => {
            assert(seq_views(items@) =~= Seq::<ExprV>::empty());
        },
        Ok((e, q1)) => {
            let ghost first = e@;
            items.push(e);
            if q < q1 && q1 <= n {
                let mut pos = q1;
                assert(seq_views(items@) =~= seq![first]);
                loop
                    invariant
                        n == cs@.len(),
                        cs@ == input@,
                        p < q < q1 <= pos <= n,
                        items_rest(cs@, pos as int, seq_views(items@)) == items_rest(
                            cs@,
                            q1 as int,
                            seq![first],
                        ),
                    ensures
                        items_rest(cs@, q1 as int, seq![first]) == (seq_views(items@), end as int),
                        end <= n,
                    decreases n - pos,
                {
                    if pos < n && cs[pos] == ' ' {
                        let q2 = run_end_of(cs, pos, CharClass::Space);
                        proof {
                            crate::grammar::lemma_run_end(cs@, pos as int, CharClass::Space);
                        }
                        match expr_of(input, cs, q2, floats) {
                            Ok((e2, q3)) => {
                                if q2 < q3 && q3 <= n {
                                    let ghost before = seq_views(items@);
                                    items.push(e2);
                                    assert(seq_views(items@) =~= before.push(e2@));
                                    pos = q3;
                                } else {
                                    end = pos;
                                    break ;
                                }
                            },
                            Err(_) => {
                                end = pos;
                                break ;
                            },
                        }
                    } else {
                        end = pos;
                        break ;
                    }
                }
            } else {
                end = q1;
                assert(seq_views(items@) =~= seq![first]);
            }
        },
    }
    let r = run_end_of(cs, end, CharClass::Space);
    if r < n && cs[r] == ')' {
        Ok((items, r + 1))
    } else {
        Err(r)
    }
}

/// A syntax error.
#[derive(Debug)]
pub enum SyntaxError {
    TrailingGarbage,
    ParsingError { message: String },
}

pub enum SyntaxErrV {
    TrailingGarbage,
    ParsingError { message: Seq<char> },
}

impl View for SyntaxError {
    type V = SyntaxErrV;

    open spec fn view(&self) -> SyntaxErrV {
        match self {
            SyntaxError::TrailingGarbage => SyntaxErrV::TrailingGarbage,
            SyntaxError::ParsingError { message } => SyntaxErrV::ParsingError { message: message@ },
        }
    }
}

/// The message for input that stops matching the grammar at `p`: it quotes
/// the rest of the input from there.
pub open spec fn failure_message(s: Seq<char>, p: int) -> Seq<char> {
    "no expression matches `"@ + s.subrange(p, s.len() as int) + "`"@
}

/// What parsing a whole line gives: one expression that takes all of it.
pub open spec fn parse(s: Seq<char>) -> Result<ExprV, SyntaxErrV> {
    match expr_at(s, 0) {
        Ok((e, q)) => if q == s.len() {
            Ok(e)
        } else {
            Err(SyntaxErrV::TrailingGarbage)
        },
        Err(p) => Err(SyntaxErrV::ParsingError { message: failure_message(s, p) }),
    }
}

fn failure(input: &str, p: usize) -> (r: SyntaxError)
    requires
        p <= input@.len(),
    ensures
        r@ == (SyntaxErrV::ParsingError { message: failure_message(input@, p as int) }),
{
    let n = input.unicode_len();
    let mut message = String::from_str("no expression matches `");
    message.append(input.substring_char(p, n));
    message.append("`");
    SyntaxError::ParsingError { message }
}

/// Parses one line: exactly one expression that takes the whole input.
pub fn parse_str<F: Binary64>(input: &str, floats: &F) -> (r: Result<Expr, SyntaxError>)
    ensures
        match r {
            Ok(e) => parse(input@) == Ok::<ExprV, SyntaxErrV>(e@),
            Err(x) => parse(input@) == Err::<ExprV, SyntaxErrV>(x@),
        },
{
    let cs = chars_of(input);
    match expr_of(input, &cs, 0, floats) {
        Ok((e, q)) => if q == cs.len() {
            Ok(e)
        } else {
            Err(SyntaxError::TrailingGarbage)
        },
        Err(p) => Err(failure(input, p)),
    }
}

/// Parses one expression at the start of the input; gives it with the rest
/// of the input.
pub fn expression<'a, F: Binary64>(input: &'a str, floats: &F) -> (r: Result<
    (&'a str, Expr),
    SyntaxError,
>)
    ensures
        match expr_at(input@, 0) {
            Ok((e, q)) => r matches Ok((rest, x)) && x@ == e && rest@ == input@.subrange(
                q,
                input@.len() as int,
            ),
            Err(p) => r matches Err(x) && x@ == (SyntaxErrV::ParsingError {
                message: failure_message(input@, p),
            }),
        },
{
    let cs = chars_of(input);
    match expr_of(input, &cs, 0, floats) {
        Ok((e, q)) => Ok((input.substring_char(q, cs.len()), e)),
        Err(p) => Err(failure(input, p)),
    }
}

/// Parses a parenthesized list at the start of the input; gives its
/// elements with the rest of the input.
pub fn sexpr<'a, F: Binary64>(input: &'a str, floats: &F) -> (r: Result<
    (&'a str, Vec<Expr>),
    SyntaxError,
>)
    ensures
        input@.len() > 0 && input@[0] == '(' ==> (match list_at(input@, 0) {
            Ok((items, q)) => r matches Ok((rest, v)) && seq_views(v@) == items && rest@
                == input@.subrange(q, input@.len() as int),
            Err(p) => r matches Err(x) && x@ == (SyntaxErrV::ParsingError {
                message: failure_message(input@, p),
            }),
        }),
        !(input@.len() > 0 && input@[0] == '(') ==> (r matches Err(x) && x@ == (
        SyntaxErrV::ParsingError { message: failure_message(input@, 0) })),
{
    let cs = chars_of(input);
    if cs.len() > 0 && cs[0] == '(' {
        match list_of(input, &cs, 0, floats) {
            Ok((items, q)) => Ok((input.substring_char(q, cs.len()), items)),
            Err(p) => Err(failure(input, p)),
        }
    } else {
        Err(failure(input, 0))
    }
}

} // verus!
