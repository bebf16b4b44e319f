//! The meaning of evaluation: environments, errors and the evaluation of
//! an expression, with a bound on how deeply evaluations nest.

use vstd::prelude::*;
use crate::types::{AtomV, Bool, ExprV, NumV, Ops};

verus! {

/// A user-defined function: its parameter names and its body, both kept as
/// written.
pub struct FunV {
    pub params: Seq<Seq<char>>,
    pub body: ExprV,
}

/// The model of an evaluation environment.
pub struct EnvV {
    pub vars: Map<Seq<char>, ExprV>,
    pub funcs: Map<Seq<char>, FunV>,
}

/// The model of an evaluation error.
pub enum ErrV {
    ArgumentNumber { exp: nat, got: nat },
    InvalidArguments { args: Seq<ExprV> },
    VoidFunction { name: Seq<char> },
    VoidVariable { name: Seq<char> },
    ShouldBeNum,
    InvalidVarName,
    Unimplemented { name: Seq<char> },
    InvalidFunction { expression: ExprV },
    IntOverflow,
    DivBy0,
    InvalidSyntax,
    WrongTypeArgumentList,
    IndexOutOfRange { index: i64, len: nat },
    RecursionLimit,
}

pub open spec fn nil() -> ExprV {
    ExprV::Atomic(AtomV::Boolean(Bool::Nil))
}

pub open spec fn int_atom(i: i64) -> ExprV {
    ExprV::Atomic(AtomV::Number(NumV::Int(i)))
}

pub open spec fn float_atom() -> ExprV {
    ExprV::Atomic(AtomV::Number(NumV::Float))
}

pub open spec fn name_atom(n: Seq<char>) -> ExprV {
    ExprV::Atomic(AtomV::Name(n))
}

pub open spec fn is_number(e: ExprV) -> bool {
    e matches ExprV::Atomic(AtomV::Number(_))
}

pub open spec fn int_of(e: ExprV) -> i64 {
    match e {
        ExprV::Atomic(AtomV::Number(NumV::Int(i))) => i,
        _ => 0,
    }
}

pub open spec fn is_arith(op: Ops) -> bool {
    op is Add || op is Mul || op is Sub || op is Div || op is Rem
}

pub open spec fn is_binary(op: Ops) -> bool {
    op is Sub || op is Div || op is Rem
}

/// Left fold of checked addition: `None` as soon as a partial sum leaves i64.
pub open spec fn int_sum(acc: i64, s: Seq<ExprV>) -> Option<i64>
    decreases s.len(),
{
    if s.len() == 0 {
        Some(acc)
    } else {
        match acc.checked_add(int_of(s[0])) {
            Some(a) => int_sum(a, s.drop_first()),
            None => None,
        }
    }
}

/// Left fold of checked multiplication.
pub open spec fn int_product(acc: i64, s: Seq<ExprV>) -> Option<i64>
    decreases s.len(),
{
    if s.len() == 0 {
        Some(acc)
    } else {
        match acc.checked_mul(int_of(s[0])) {
            Some(a) => int_product(a, s.drop_first()),
            None => None,
        }
    }
}

/// What an arithmetic operator gives on already evaluated arguments: every
/// argument must be a number; one float makes the result a float; otherwise
/// integer arithmetic, checked.
pub open spec fn numeric_result(op: Ops, vs: Seq<ExprV>) -> Result<ExprV, ErrV> {
    if exists|i: int| 0 <= i < vs.len() && !is_number(#[trigger] vs[i]) {
        Err(ErrV::ShouldBeNum)
    } else if exists|i: int| 0 <= i < vs.len() && #[trigger] vs[i] == float_atom() {
        Ok(float_atom())
    } else {
        let checked = match op {
            Ops::Add => int_sum(0, vs),
            Ops::Mul => int_product(1, vs),
            Ops::Sub => int_of(vs[0]).checked_sub(int_of(vs[1])),
            Ops::Div => int_of(vs[0]).checked_div(int_of(vs[1])),
            _ => int_of(vs[0]).checked_rem(int_of(vs[1])),
        };
        match checked {
            Some(x) => Ok(int_atom(x)),
            None => if op is Add || op is Mul || op is Sub {
                Err(ErrV::IntOverflow)
            } else {
                Err(ErrV::DivBy0)
            },
        }
    }
}

pub open spec fn all_names(ps: Seq<ExprV>) -> bool {
    forall|i: int| 0 <= i < ps.len() ==> #[trigger] ps[i] matches ExprV::Atomic(AtomV::Name(_))
}

pub open spec fn names_of(ps: Seq<ExprV>) -> Seq<Seq<char>> {
    Seq::new(ps.len(), |i: int| ps[i]->Atomic_0->Name_0)
}

/// `defun`: the name, the parameter list and the body are taken as written.
pub open spec fn defun_outcome(env: EnvV, args: Seq<ExprV>) -> (EnvV, Result<ExprV, ErrV>) {
    if args.len() != 3 {
        (env, Err(ErrV::ArgumentNumber { exp: 3, got: args.len() }))
    } else {
        match (args[0], args[1], args[2]) {
            (ExprV::Atomic(AtomV::Name(name)), ExprV::List(ps), ExprV::List(body)) => {
                if all_names(ps) {
                    let f = FunV { params: names_of(ps), body: ExprV::List(body) };
                    (EnvV { vars: env.vars, funcs: env.funcs.insert(name, f) }, Ok(name_atom(name)))
                } else {
                    (env, Err(ErrV::InvalidArguments { args: ps }))
                }
            },
            _ => (env, Err(ErrV::InvalidSyntax)),
        }
    }
}

/// `nth`: an integer literal and a quoted list, taken as written.
pub open spec fn nth_result(args: Seq<ExprV>) -> Result<ExprV, ErrV> {
    if args.len() == 2 && (args[0] matches ExprV::Atomic(AtomV::Number(NumV::Int(_))))
        && args[1] is Qexpr {
        let idx = int_of(args[0]);
        let v = args[1]->Qexpr_0;
        if 0 <= idx < v.len() {
            Ok(v[idx as int])
        } else {
            Err(ErrV::IndexOutOfRange { index: idx, len: v.len() })
        }
    } else {
        Err(ErrV::InvalidArguments { args })
    }
}

/// The arguments with which `map` applies its function to one element.
pub open spec fn element_args(e: ExprV) -> Seq<ExprV> {
    match e {
        ExprV::Qexpr(a) => a,
        _ => seq![e],
    }
}

/// Binds each parameter to its argument, left to right.
pub open spec fn bind(
    vars: Map<Seq<char>, ExprV>,
    ps: Seq<Seq<char>>,
    args: Seq<ExprV>,
) -> Map<Seq<char>, ExprV>
    decreases ps.len(),
{
    if ps.len() == 0 || args.len() == 0 {
        vars
    } else {
        bind(vars.insert(ps[0], args[0]), ps.drop_first(), args.drop_first())
    }
}

/// Removes the binding of every parameter.
pub open spec fn unbind(vars: Map<Seq<char>, ExprV>, ps: Seq<Seq<char>>) -> Map<Seq<char>, ExprV>
    decreases ps.len(),
{
    if ps.len() == 0 {
        vars
    } else {
        unbind(vars.remove(ps[0]), ps.drop_first())
    }
}

/// Evaluates `e` in `env` with at most `fuel` nested evaluations; gives the
/// environment afterwards and the value or the error.
pub open spec fn eval(env: EnvV, e: ExprV, fuel: nat) -> (EnvV, Result<ExprV, ErrV>)
    decreases fuel, 4int, 0int,
{
    if fuel == 0 {
        (env, Err(ErrV::RecursionLimit))
    } else {
        match e {
            ExprV::Atomic(AtomV::Name(n)) => {
                if env.vars.contains_key(n) {
                    eval(env, env.vars[n], (fuel - 1) as nat)
                } else {
                    (env, Err(ErrV::VoidVariable { name: n }))
                }
            },
            ExprV::Atomic(AtomV::Op(_)) => (env, Err(ErrV::InvalidVarName)),
            ExprV::Atomic(a) => (env, Ok(ExprV::Atomic(a))),
            ExprV::Qexpr(s) => (env, Ok(ExprV::List(s))),
            ExprV::List(s) => {
                if s.len() == 0 {
                    (env, Ok(nil()))
                } else {
                    apply(env, s[0], s.drop_first(), fuel)
                }
            },
        }
    }
}

/// Evaluates the expressions of `s` left to right, each in the environment
/// the previous one left; stops at the first error.
pub open spec fn eval_all(env: EnvV, s: Seq<ExprV>, fuel: nat) -> (EnvV, Result<Seq<ExprV>, ErrV>)
    decreases fuel, 5int, s.len(),
{
    if s.len() == 0 {
        (env, Ok(seq![]))
    } else {
        let (env1, r) = eval(env, s[0], fuel);
        match r {
            Err(x) => (env1, Err(x)),
            Ok(v) => {
                let (env2, rest) = eval_all(env1, s.drop_first(), fuel);
                match rest {
                    Err(x) => (env2, Err(x)),
                    Ok(vs) => (env2, Ok(seq![v] + vs)),
                }
            },
        }
    }
}

/// Applies `func` to each element of `s` in turn; stops at the first error.
pub open spec fn map_each(env: EnvV, func: ExprV, s: Seq<ExprV>, fuel: nat) -> (
    EnvV,
    Result<Seq<ExprV>, ErrV>,
)
    decreases fuel, 5int, s.len(),
{
    if s.len() == 0 {
        (env, Ok(seq![]))
    } else {
        let (env1, r) = apply(env, func, element_args(s[0]), fuel);
        match r {
            Err(x) => (env1, Err(x)),
            Ok(v) => {
                let (env2, rest) = map_each(env1, func, s.drop_first(), fuel);
                match rest {
                    Err(x) => (env2, Err(x)),
                    Ok(vs) => (env2, Ok(seq![v] + vs)),
                }
            },
        }
    }
}

/// Applies a function or an operator to unevaluated arguments.
pub open spec fn apply(env: EnvV, func: ExprV, args: Seq<ExprV>, fuel: nat) -> (
    EnvV,
    Result<ExprV, ErrV>,
)
    decreases fuel, 3int, 0int,
{
    if fuel == 0 {
        (env, Err(ErrV::RecursionLimit))
    } else {
        let inner = (fuel - 1) as nat;
        match func {
            ExprV::Atomic(AtomV::Name(n)) => call(env, n, args, inner),
            ExprV::Atomic(AtomV::Op(op)) => match op {
                Ops::Defun => defun_outcome(env, args),
                Ops::Nth => (env, nth_result(args)),
                Ops::List => list_outcome(env, args, inner),
                Ops::Eval => eval_twice(env, args, inner),
                Ops::Car => car_outcome(env, args, inner),
                Ops::Mapcar => mapcar_outcome(env, args, inner),
                _ => numeric_outcome(env, op, args, inner),
            },
            _ => (env, Err(ErrV::InvalidFunction { expression: func })),
        }
    }
}

/// Calls a user-defined function: its parameters are bound to the
/// unevaluated arguments while its body is evaluated, and unbound after.
pub open spec fn call(env: EnvV, name: Seq<char>, args: Seq<ExprV>, inner: nat) -> (
    EnvV,
    Result<ExprV, ErrV>,
)
    decreases inner + 1, 2int, 0int,
{
    if !env.funcs.contains_key(name) {
        (env, Err(ErrV::VoidFunction { name }))
    } else {
        let f = env.funcs[name];
        if args.len() != f.params.len() {
            (env, Err(ErrV::ArgumentNumber { exp: f.params.len(), got: args.len() }))
        } else {
            let entered = EnvV { vars: bind(env.vars, f.params, args), funcs: env.funcs };
            let (after, r) = eval(entered, f.body, inner);
            (EnvV { vars: unbind(after.vars, f.params), funcs: after.funcs }, r)
        }
    }
}

pub open spec fn numeric_outcome(env: EnvV, op: Ops, args: Seq<ExprV>, inner: nat) -> (
    EnvV,
    Result<ExprV, ErrV>,
)
    decreases inner + 1, 2int, 0int,
{
    if is_binary(op) && args.len() != 2 {
        (env, Err(ErrV::ArgumentNumber { exp: 2, got: args.len() }))
    } else {
        let (env1, r) = eval_all(env, args, inner);
        match r {
            Err(x) => (env1, Err(x)),
            Ok(vs) => (env1, numeric_result(op, vs)),
        }
    }
}

pub open spec fn list_outcome(env: EnvV, args: Seq<ExprV>, inner: nat) -> (
    EnvV,
    Result<ExprV, ErrV>,
)
    decreases inner + 1, 2int, 0int,
{
    let (env1, r) = eval_all(env, args, inner);
    match r {
        Err(x) => (env1, Err(x)),
        Ok(vs) => (env1, Ok(ExprV::Qexpr(vs))),
    }
}

pub open spec fn eval_twice(env: EnvV, args: Seq<ExprV>, inner: nat) -> (
    EnvV,
    Result<ExprV, ErrV>,
)
    decreases inner + 1, 2int, 0int,
{
    if args.len() != 1 {
        (env, Err(ErrV::ArgumentNumber { exp: 1, got: args.len() }))
    } else {
        let (env1, r) = eval(env, args[0], inner);
        match r {
            Err(x) => (env1, Err(x)),
            Ok(v) => eval(env1, v, inner),
        }
    }
}

pub open spec fn car_outcome(env: EnvV, args: Seq<ExprV>, inner: nat) -> (
    EnvV,
    Result<ExprV, ErrV>,
)
    decreases inner + 1, 2int, 0int,
{
    if args.len() != 1 {
        (env, Err(ErrV::ArgumentNumber { exp: 1, got: args.len() }))
    } else {
        let (env1, r) = eval(env, args[0], inner);
        match r {
            Err(x) => (env1, Err(x)),
            Ok(ExprV::List(c)) => (env1, Ok(if c.len() == 0 { nil() } else { c[0] })),
            Ok(_) => (env1, Err(ErrV::WrongTypeArgumentList)),
        }
    }
}

pub open spec fn mapcar_outcome(env: EnvV, args: Seq<ExprV>, inner: nat) -> (
    EnvV,
    Result<ExprV, ErrV>,
)
    decreases inner + 1, 2int, 0int,
{
    if args.len() == 2 && args[1] is Qexpr {
        let (env1, r) = map_each(env, args[0], args[1]->Qexpr_0, inner);
        match r {
            Err(x) => (env1, Err(x)),
            Ok(vs) => (env1, Ok(ExprV::List(vs))),
        }
    } else {
        (env, Err(ErrV::InvalidArguments { args }))
    }
}

} // verus!
