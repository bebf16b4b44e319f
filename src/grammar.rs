//! The grammar of expressions, as functions on the characters of a line.

use vstd::prelude::*;
use crate::types::{AtomV, ExprV, NumV, Ops};

verus! {

pub open spec fn is_digit(c: char) -> bool {
    '0' <= c && c <= '9'
}

pub open spec fn is_alpha(c: char) -> bool {
    ('a' <= c && c <= 'z') || ('A' <= c && c <= 'Z')
}

pub open spec fn is_ident_char(c: char) -> bool {
    is_alpha(c) || is_digit(c) || c == '_'
}

pub open spec fn is_hex(c: char) -> bool {
    is_digit(c) || ('a' <= c && c <= 'f') || ('A' <= c && c <= 'F')
}

pub open spec fn hex_value(c: char) -> nat {
    if is_digit(c) {
        (c as nat - '0' as nat) as nat
    } else if 'a' <= c && c <= 'f' {
        (c as nat - 'a' as nat + 10) as nat
    } else {
        (c as nat - 'A' as nat + 10) as nat
    }
}

pub open spec fn is_blank(c: char) -> bool {
    c == ' ' || c == '\t' || c == '\r' || c == '\n'
}

/// The operator keywords, in the order in which they are tried: a keyword
/// is tried before any shorter one it could be confused with.
pub open spec fn keywords() -> Seq<(Seq<char>, Ops)> {
    seq![
        (seq!['a', 'd', 'd'], Ops::Add),
        (seq!['s', 'u', 'b'], Ops::Sub),
        (seq!['m', 'u', 'l'], Ops::Mul),
        (seq!['d', 'i', 'v'], Ops::Div),
        (seq!['d', 'e', 'f', 'u', 'n'], Ops::Defun),
        (seq!['+'], Ops::Add),
        (seq!['*'], Ops::Mul),
        (seq!['-'], Ops::Sub),
        (seq!['/'], Ops::Div),
        (seq!['%'], Ops::Rem),
        (seq!['n', 't', 'h'], Ops::Nth),
        (seq!['l', 'i', 's', 't'], Ops::List),
        (seq!['e', 'v', 'a', 'l'], Ops::Eval),
        (seq!['c', 'a', 'r'], Ops::Car),
    ]
}

pub open spec fn starts_with(s: Seq<char>, p: int, w: Seq<char>) -> bool {
    0 <= p && p + w.len() <= s.len() && s.subrange(p, p + w.len()) == w
}

/// The first keyword, from the `i`-th on, that the input has at `p`.
pub open spec fn op_from(s: Seq<char>, p: int, i: int) -> Option<(Ops, int)>
    decreases keywords().len() - i,
{
    if i < 0 || i >= keywords().len() {
        None
    } else if starts_with(s, p, keywords()[i].0) {
        Some((keywords()[i].1, p + keywords()[i].0.len()))
    } else {
        op_from(s, p, i + 1)
    }
}

pub open spec fn op_at(s: Seq<char>, p: int) -> Option<(Ops, int)> {
    op_from(s, p, 0)
}

/// The kinds of character runs that the grammar reads.
#[derive(Clone, Copy, PartialEq, Eq, Structural)]
pub enum CharClass {
    Space,
    Ident,
    Digit,
    DigitOrSep,
    Hex,
    Blank,
}

pub open spec fn in_class(k: CharClass, c: char) -> bool {
    match k {
        CharClass::Space => c == ' ',
        CharClass::Ident => is_ident_char(c),
        CharClass::Digit => is_digit(c),
        CharClass::DigitOrSep => is_digit(c) || c == '_',
        CharClass::Hex => is_hex(c),
        CharClass::Blank => is_blank(c),
    }
}

/// The end of the run of characters of class `k` from `p` on.
pub open spec fn run_end(s: Seq<char>, p: int, k: CharClass) -> int
    decreases s.len() - p,
{
    if p < 0 || p >= s.len() || !in_class(k, s[p]) {
        p
    } else {
        run_end(s, p + 1, k)
    }
}

pub open spec fn spaces_end(s: Seq<char>, p: int) -> int {
    run_end(s, p, CharClass::Space)
}

pub open spec fn ident_at(s: Seq<char>, p: int) -> Option<int> {
    if 0 <= p < s.len() && (is_alpha(s[p]) || s[p] == '_') {
        Some(run_end(s, p + 1, CharClass::Ident))
    } else {
        None
    }
}

/// The value of the digits in `s[p..q]`, underscores skipped.
pub open spec fn digits_value(s: Seq<char>, p: int, q: int) -> nat
    decreases q - p,
{
    if q <= p {
        0
    } else if s[q - 1] == '_' {
        digits_value(s, p, q - 1)
    } else {
        digits_value(s, p, q - 1) * 10 + (s[q - 1] as nat - '0' as nat) as nat
    }
}

/// An integer literal: digits with `_` separators, starting with a digit,
/// not followed by `.`, `e` or `E`, and small enough for an i64.
pub open spec fn decimal_at(s: Seq<char>, p: int) -> Option<(i64, int)> {
    if 0 <= p < s.len() && is_digit(s[p]) {
        let q = run_end(s, p, CharClass::DigitOrSep);
        if q < s.len() && (s[q] == '.' || s[q] == 'e' || s[q] == 'E') {
            None
        } else if digits_value(s, p, q) > i64::MAX {
            None
        } else {
            Some((digits_value(s, p, q) as i64, q))
        }
    } else {
        None
    }
}

/// The end of a float literal: `d+ [. d*]` or `. d+`, then an optional
/// exponent `e [+|-] d+` (in either case).
pub open spec fn float_at(s: Seq<char>, p: int) -> Option<int> {
    let m = if 0 <= p < s.len() && is_digit(s[p]) {
        let q = run_end(s, p, CharClass::Digit);
        if q < s.len() && s[q] == '.' {
            Some(run_end(s, q + 1, CharClass::Digit))
        } else {
            Some(q)
        }
    } else if 0 <= p && p + 1 < s.len() && s[p] == '.' && is_digit(s[p + 1]) {
        Some(run_end(s, p + 1, CharClass::Digit))
    } else {
        None
    };
    match m {
        None => None,
        Some(q) => {
            if q < s.len() && (s[q] == 'e' || s[q] == 'E') {
                let d = if q + 1 < s.len() && (s[q + 1] == '+' || s[q + 1] == '-') {
                    q + 2
                } else {
                    q + 1
                };
                if d < s.len() && is_digit(s[d]) {
                    Some(run_end(s, d, CharClass::Digit))
                } else {
                    None
                }
            } else {
                Some(q)
            }
        },
    }
}

/// The character an escape `\x` stands for, for the one-letter escapes.
pub open spec fn simple_escape(c: char) -> Option<char> {
    if c == 'n' {
        Some('\n')
    } else if c == 'r' {
        Some('\r')
    } else if c == 't' {
        Some('\t')
    } else if c == 'b' {
        Some('\u{8}')
    } else if c == 'f' {
        Some('\u{c}')
    } else if c == '\\' || c == '/' || c == '"' {
        Some(c)
    } else {
        None
    }
}

pub open spec fn is_scalar(v: nat) -> bool {
    v <= 0xD7FF || (0xE000 <= v && v <= 0x10FFFF)
}

pub open spec fn code(c: char) -> nat {
    c as nat
}

/// The character whose code is `v`.
pub open spec fn char_of(v: nat) -> char {
    choose|c: char| #[trigger] code(c) == v
}

/// The value of the hex digits in `s[p..q]`.
pub open spec fn hex_digits_value(s: Seq<char>, p: int, q: int) -> nat
    decreases q - p,
{
    if q <= p {
        0
    } else {
        hex_digits_value(s, p, q - 1) * 16 + hex_value(s[q - 1])
    }
}

/// A unicode escape after `\`: `u{h}` with one to six hex digits naming a
/// Unicode scalar value; gives the value and the position after `}`.
pub open spec fn unicode_escape(s: Seq<char>, p: int) -> Option<(nat, int)> {
    if 0 <= p && p + 1 < s.len() && s[p] == 'u' && s[p + 1] == '{' {
        let h = run_end(s, p + 2, CharClass::Hex);
        let q = if h - (p + 2) > 6 { p + 8 } else { h };
        if q > p + 2 && q < s.len() && s[q] == '}' && is_scalar(hex_digits_value(s, p + 2, q)) {
            Some((hex_digits_value(s, p + 2, q), q + 1))
        } else {
            None
        }
    } else {
        None
    }
}

/// The rest of a string literal from `p` on, `acc` read so far: gives the
/// contents and the position after the closing quote.
pub open spec fn string_rest(s: Seq<char>, p: int, acc: Seq<char>) -> Option<(Seq<char>, int)>
    decreases s.len() - p,
{
    if p < 0 || p >= s.len() {
        None
    } else if s[p] == '"' {
        Some((acc, p + 1))
    } else if s[p] != '\\' {
        string_rest(s, p + 1, acc.push(s[p]))
    } else if p + 1 >= s.len() {
        None
    } else if simple_escape(s[p + 1]) is Some {
        string_rest(s, p + 2, acc.push(simple_escape(s[p + 1])->0))
    } else if unicode_escape(s, p + 1) is Some {
        let (v, q) = unicode_escape(s, p + 1)->0;
        string_rest(s, q, acc.push(char_of(v)))
    } else if is_blank(s[p + 1]) {
        // a run always ends after its start and within the input
        let q = run_end(s, p + 1, CharClass::Blank);
        if p < q <= s.len() {
            string_rest(s, q, acc)
        } else {
            None
        }
    } else {
        None
    }
}

pub open spec fn string_at(s: Seq<char>, p: int) -> Option<(Seq<char>, int)> {
    if 0 <= p < s.len() && s[p] == '"' {
        string_rest(s, p + 1, seq![])
    } else {
        None
    }
}

/// One expression at `p`: the alternatives are tried in order and the first
/// that matches wins. Gives the expression and the position after it, or
/// the position where the input stopped matching.
pub open spec fn expr_at(s: Seq<char>, p: int) -> Result<(ExprV, int), int>
    decreases s.len() - p, 1int,
{
    if p < 0 || p > s.len() {
        Err(p)
    } else if let Some((op, q)) = op_at(s, p) {
        Ok((ExprV::Atomic(AtomV::Op(op)), q))
    } else if let Some((text, q)) = string_at(s, p) {
        Ok((ExprV::Atomic(AtomV::Quoted(text)), q))
    } else if let Some(q) = ident_at(s, p) {
        Ok((ExprV::Atomic(AtomV::Name(s.subrange(p, q))), q))
    } else if let Some((v, q)) = decimal_at(s, p) {
        Ok((ExprV::Atomic(AtomV::Number(NumV::Int(v))), q))
    } else if let Some(q) = float_at(s, p) {
        Ok((ExprV::Atomic(AtomV::Number(NumV::Float)), q))
    } else if p + 1 < s.len() && s[p] == '\'' && s[p + 1] == '(' {
        match list_at(s, p + 1) {
            Ok((items, q)) => Ok((ExprV::Qexpr(items), q)),
            Err(e) => Err(e),
        }
    } else if p < s.len() && s[p] == '(' {
        match list_at(s, p) {
            Ok((items, q)) => Ok((ExprV::List(items), q)),
            Err(e) => Err(e),
        }
    } else {
        Err(p)
    }
}

/// A parenthesized list whose `(` is at `p`: elements separated by one or
/// more spaces, with spaces allowed after `(` and before `)`.
pub open spec fn list_at(s: Seq<char>, p: int) -> Result<(Seq<ExprV>, int), int>
    decreases s.len() - p, 0int,
{
    if p < 0 || p >= s.len() {
        Err(p)
    } else {
        let q = spaces_end(s, p + 1);
        // the guards on positions below never fail; they bound the recursion
        let (items, end) = if q <= p || q > s.len() {
            (seq![], q)
        } else {
            match expr_at(s, q) {
                Err(_) => (seq![], q),
                Ok((e, q1)) => if q < q1 <= s.len() {
                    items_rest(s, q1, seq![e])
                } else {
                    (seq![e], q1)
                },
            }
        };
        let r = spaces_end(s, end);
        if 0 <= r < s.len() && s[r] == ')' {
            Ok((items, r + 1))
        } else {
            Err(r)
        }
    }
}

/// More elements after one that ended at `p`: a separator of spaces and an
/// element, as long as both are there.
pub open spec fn items_rest(s: Seq<char>, p: int, acc: Seq<ExprV>) -> (Seq<ExprV>, int)
    decreases s.len() - p, 2int,
{
    if 0 <= p < s.len() && s[p] == ' ' {
        let q = spaces_end(s, p);
        // as in `list_at`, the guards on positions never fail
        if q <= p || q > s.len() {
            (acc, p)
        } else {
            match expr_at(s, q) {
                Ok((e, q1)) => if q < q1 <= s.len() {
                    items_rest(s, q1, acc.push(e))
                } else {
                    (acc, p)
                },
                Err(_) => (acc, p),
            }
        }
    } else {
        (acc, p)
    }
}

} // verus!

verus! {

pub proof fn lemma_run_end(s: Seq<char>, p: int, k: CharClass)
    requires
        0 <= p <= s.len(),
    ensures
        p <= run_end(s, p, k) <= s.len(),
        p < s.len() && in_class(k, s[p]) ==> run_end(s, p, k) > p,
        forall|i: int| p <= i < run_end(s, p, k) ==> in_class(k, #[trigger] s[i]),
        run_end(s, p, k) < s.len() ==> !in_class(k, s[run_end(s, p, k)]),
    decreases s.len() - p,
{
    if p < s.len() && in_class(k, s[p]) {
        lemma_run_end(s, p + 1, k);
    }
}

pub proof fn lemma_chars_injective(a: char, b: char)
    requires
        code(a) == code(b),
    ensures
        a == b,
{
}

} // verus!
