//! The evaluator: an environment of variables and functions, and the
//! evaluation of expressions in it, proved to follow `semantics`.

use vstd::prelude::*;
use crate::env::Table;
use crate::floats::Binary64;
use crate::semantics::{
    all_names, apply, bind, call, car_outcome, defun_outcome, element_args, eval, eval_all,
    eval_twice, float_atom, int_of, int_product, int_sum, is_arith, is_binary, is_number,
    list_outcome, map_each, mapcar_outcome, names_of, nth_result, numeric_outcome,
    numeric_result, unbind, EnvV, ErrV, FunV,
};
use crate::types::{
    duplicate_all, lemma_views, seq_views, Atom, AtomV, Bool, Expr, ExprV, Num, Ops,
};

verus! {

/// How deeply evaluations may nest before evaluation gives up with
/// `RecursionLimit`.
pub const MAX_DEPTH: usize = 256;

#[derive(Debug)]
pub enum EvalError {
    ArgumentNumber { exp: usize, got: usize },
    InvalidArguments { args: Vec<Expr> },
    VoidFunction { name: String },
    VoidVariable { name: String },
    ShouldBeNum,
    InvalidVarName,
    Unimplemented { name: String },
    InvalidFunction { expression: Expr },
    IntOverflow,
    DivBy0,
    InvalidSyntax,
    WrongTypeArgumentList,
    IndexOutOfRange { index: i64, len: usize },
    RecursionLimit,
}

impl View for EvalError {
    type V = ErrV;

    open spec fn view(&self) -> ErrV {
        match self {
            EvalError::ArgumentNumber { exp, got } => ErrV::ArgumentNumber {
                exp: *exp as nat,
                got: *got as nat,
            },
            EvalError::InvalidArguments { args } => ErrV::InvalidArguments { args: seq_views(args@) },
            EvalError::VoidFunction { name } => ErrV::VoidFunction { name: name@ },
            EvalError::VoidVariable { name } => ErrV::VoidVariable { name: name@ },
            EvalError::ShouldBeNum => ErrV::ShouldBeNum,
            EvalError::InvalidVarName => ErrV::InvalidVarName,
            EvalError::Unimplemented { name } => ErrV::Unimplemented { name: name@ },
            EvalError::InvalidFunction { expression } => ErrV::InvalidFunction {
                expression: expression@,
            },
            EvalError::IntOverflow => ErrV::IntOverflow,
            EvalError::DivBy0 => ErrV::DivBy0,
            EvalError::InvalidSyntax => ErrV::InvalidSyntax,
            EvalError::WrongTypeArgumentList => ErrV::WrongTypeArgumentList,
            EvalError::IndexOutOfRange { index, len } => ErrV::IndexOutOfRange {
                index: *index,
                len: *len as nat,
            },
            EvalError::RecursionLimit => ErrV::RecursionLimit,
        }
    }
}

pub open spec fn outcome_of(r: Result<Expr, EvalError>) -> Result<ExprV, ErrV> {
    match r {
        Ok(e) => Ok(e@),
        Err(x) => Err(x@),
    }
}

pub open spec fn outcomes_of(r: Result<Vec<Expr>, EvalError>) -> Result<Seq<ExprV>, ErrV> {
    match r {
        Ok(v) => Ok(seq_views(v@)),
        Err(x) => Err(x@),
    }
}

/// A user-defined function.
#[derive(Debug)]
pub struct Function {
    args: Vec<String>,
    body: Expr,
}

pub open spec fn names_view(v: Seq<String>) -> Seq<Seq<char>> {
    v.map_values(|s: String| s@)
}

impl View for Function {
    type V = FunV;

    closed spec fn view(&self) -> FunV {
        FunV { params: names_view(self.args@), body: self.body@ }
    }
}

fn copy_names(v: &Vec<String>) -> (r: Vec<String>)
    ensures
        names_view(r@) == names_view(v@),
{
    let mut r: Vec<String> = Vec::new();
    let mut i: usize = 0;
    while i < v.len()
        invariant
            i <= v@.len(),
            r@ =~= v@.take(i as int),
        decreases v@.len() - i,
    {
        r.push(v[i].clone());
        i = i + 1;
        assert(r@ =~= v@.take(i as int));
    }
    assert(v@.take(v@.len() as int) =~= v@);
    r
}

impl Function {
    pub fn new(args: Vec<String>, body: Expr) -> (r: Function)
        ensures
            r@ == (FunV { params: names_view(args@), body: body@ }),
    {
        Function { args, body }
    }

    pub fn duplicate(&self) -> (r: Function)
        ensures
            r@ == self@,
    {
        Function { args: copy_names(&self.args), body: self.body.duplicate() }
    }
}

/// The state of one evaluation session: variables and user-defined
/// functions, and the host's float arithmetic.
pub struct Context<F> {
    vars: Table<Expr>,
    funcs: Table<Function>,
    floats: F,
}

impl<F> View for Context<F> {
    type V = EnvV;

    closed spec fn view(&self) -> EnvV {
        EnvV { vars: self.vars@, funcs: self.funcs@ }
    }
}

} // verus!

verus! {

fn tail_of(v: &Vec<Expr>) -> (r: Vec<Expr>)
    requires
        v@.len() > 0,
    ensures
        seq_views(r@) == seq_views(v@).drop_first(),
{
    let mut r: Vec<Expr> = Vec::new();
    let mut i: usize = 1;
    while i < v.len()
        invariant
            1 <= i <= v@.len(),
            seq_views(r@) =~= seq_views(v@).subrange(1, i as int),
        decreases v@.len() - i,
    {
        let ghost old_r = seq_views(r@);
        r.push(v[i].duplicate());
        i = i + 1;
        assert(seq_views(r@) =~= old_r.push(v@[i - 1]@));
        assert(seq_views(r@) =~= seq_views(v@).subrange(1, i as int));
    }
    assert(seq_views(r@) =~= seq_views(v@).drop_first());
    r
}

fn dup_all(v: &Vec<Expr>) -> (r: Vec<Expr>)
    ensures
        seq_views(r@) == seq_views(v@),
{
    let r = duplicate_all(v);
    proof {
        lemma_views(v);
        lemma_views(&r);
    }
    r
}

fn element_args_of(e: &Expr) -> (r: Vec<Expr>)
    ensures
        seq_views(r@) == element_args(e@),
{
    match e {
        Expr::Qexpr(a) => {
            proof {
                lemma_views(a);
            }
            dup_all(a)
        },
        _ => {
            let r = vec![e.duplicate()];
            assert(seq_views(r@) =~= seq![e@]);
            r
        },
    }
}

fn int_at(vals: &Vec<Expr>, i: usize) -> (r: i64)
    requires
        i < vals@.len(),
    ensures
        r == int_of(vals@[i as int]@),
{
    match &vals[i] {
        Expr::Atomic(Atom::Number(Num::Int(x))) => *x,
        _ => 0,
    }
}

fn nth(args: &Vec<Expr>) -> (r: Result<Expr, EvalError>)
    ensures
        outcome_of(r) == nth_result(seq_views(args@)),
{
    if args.len() == 2 {
        match (&args[0], &args[1]) {
            (Expr::Atomic(Atom::Number(Num::Int(idx))), Expr::Qexpr(v)) => {
                proof {
                    lemma_views(v);
                }
                if 0 <= *idx && (*idx as u64) < (v.len() as u64) {
                    Ok(v[*idx as usize].duplicate())
                } else {
                    Err(EvalError::IndexOutOfRange { index: *idx, len: v.len() })
                }
            },
            _ => {
                let r = Err(EvalError::InvalidArguments { args: dup_all(args) });
                proof {
                    lemma_views(args);
                }
                r
            },
        }
    } else {
        let r = Err(EvalError::InvalidArguments { args: dup_all(args) });
        proof {
            lemma_views(args);
        }
        r
    }
}

impl<F: Binary64> Context<F> {
    pub closed spec fn wf(&self) -> bool {
        self.vars.wf() && self.funcs.wf()
    }

    pub fn new(floats: F) -> (r: Context<F>)
        ensures
            r.wf(),
            r@.vars == Map::<Seq<char>, ExprV>::empty(),
            r@.funcs == Map::<Seq<char>, FunV>::empty(),
    {
        Context { vars: Table::new(), funcs: Table::new(), floats }
    }

    /// Binds a variable to an expression, which is evaluated each time the
    /// variable is.
    pub fn add_var(&mut self, name: &str, var: Expr)
        requires
            old(self).wf(),
        ensures
            final(self).wf(),
            final(self)@ == (EnvV { vars: old(self)@.vars.insert(name@, var@), funcs: old(self)@.funcs }),
    {
        self.vars.insert(name.to_owned(), var);
    }

    /// Defines (or redefines) a function.
    pub fn add_func(&mut self, name: &str, fun: Function)
        requires
            old(self).wf(),
        ensures
            final(self).wf(),
            final(self)@ == (EnvV { vars: old(self)@.vars, funcs: old(self)@.funcs.insert(name@, fun@) }),
    {
        self.funcs.insert(name.to_owned(), fun);
    }

    /// Evaluates an expression; nested evaluations deeper than `MAX_DEPTH`
    /// fail with `RecursionLimit`.
    pub fn eval_ast(&mut self, ast: &Expr) -> (r: Result<Expr, EvalError>)
        requires
            old(self).wf(),
        ensures
            final(self).wf(),
            (final(self)@, outcome_of(r)) == eval(old(self)@, ast@, MAX_DEPTH as nat),
    {
        self.eval_at(ast, MAX_DEPTH)
    }

    fn eval_at(&mut self, ast: &Expr, depth: usize) -> (r: Result<Expr, EvalError>)
        requires
            old(self).wf(),
        ensures
            final(self).wf(),
            (final(self)@, outcome_of(r)) == eval(old(self)@, ast@, depth as nat),
        decreases depth, 4int, 0int,
    {
        if depth == 0 {
            return Err(EvalError::RecursionLimit);
        }
        match ast {
            Expr::Atomic(Atom::Name(name)) => {
                match self.vars.get(name) {
                    Some(var) => {
                        let var = var.duplicate();
                        self.eval_at(&var, depth - 1)
                    },
                    None => Err(EvalError::VoidVariable { name: name.clone() }),
                }
            },
            Expr::Atomic(Atom::Op(_)) => Err(EvalError::InvalidVarName),
            Expr::Atomic(atom) => Ok(Expr::Atomic(atom.duplicate())),
            Expr::List(list) => {
                proof {
                    lemma_views(list);
                }
                if list.len() == 0 {
                    Ok(Expr::Atomic(Atom::Boolean(Bool::Nil)))
                } else {
                    let args = tail_of(list);
                    self.apply(&list[0], &args, depth)
                }
            },
            Expr::Qexpr(list) => Ok(Expr::List(duplicate_all(list))),
        }
    }

    fn apply(&mut self, func: &Expr, args: &Vec<Expr>, depth: usize) -> (r: Result<Expr, EvalError>)
        requires
            old(self).wf(),
        ensures
            final(self).wf(),
            (final(self)@, outcome_of(r)) == apply(old(self)@, func@, seq_views(args@), depth as nat),
        decreases depth, 3int, 0int,
    {
        if depth == 0 {
            return Err(EvalError::RecursionLimit);
        }
        let inner = depth - 1;
        match func {
            Expr::Atomic(Atom::Name(name)) => self.call_user(name, args, inner),
            Expr::Atomic(Atom::Op(op)) => match op {
                Ops::Defun => self.defun(args),
                Ops::Nth => nth(args),
                Ops::List => self.list(args, inner),
                Ops::Eval => self.eval_builtin(args, inner),
                Ops::Car => self.car(args, inner),
                Ops::Mapcar => self.mapcar(args, inner),
                _ => self.numeric(*op, args, inner),
            },
            _ => Err(EvalError::InvalidFunction { expression: func.duplicate() }),
        }
    }
}

impl<F: Binary64> Context<F> {
    fn call_user(&mut self, name: &String, args: &Vec<Expr>, inner: usize) -> (r: Result<
        Expr,
        EvalError,
    >)
        requires
            old(self).wf(),
        ensures
            final(self).wf(),
            (final(self)@, outcome_of(r)) == call(old(self)@, name@, seq_views(args@), inner as nat),
        decreases inner + 1, 2int, 0int,
    {
        let fun = match self.funcs.get(name) {
            Some(f) => f.duplicate(),
            None => {
                return Err(EvalError::VoidFunction { name: name.clone() });
            },
        };
        if args.len() != fun.args.len() {
            return Err(EvalError::ArgumentNumber { exp: fun.args.len(), got: args.len() });
        }
        let ghost env0 = self@;
        let ghost ps = fun@.params;
        let ghost s = seq_views(args@);
        let n = fun.args.len();
        let mut i: usize = 0;
        assert(ps.subrange(0, n as int) =~= ps);
        assert(s.subrange(0, n as int) =~= s);
        while i < n
            invariant
                self.wf(),
                n == fun.args@.len(),
                n == args@.len(),
                ps == names_view(fun.args@),
                s == seq_views(args@),
                i <= n,
                self@.funcs == env0.funcs,
                bind(self@.vars, ps.subrange(i as int, n as int), s.subrange(i as int, n as int))
                    == bind(env0.vars, ps, s),
            decreases n - i,
        {
            proof {
                let ps_left = ps.subrange(i as int, n as int);
                let args_left = s.subrange(i as int, n as int);
                assert(ps_left.drop_first() =~= ps.subrange(i + 1, n as int));
                assert(args_left.drop_first() =~= s.subrange(i + 1, n as int));
            }
            self.vars.insert(fun.args[i].clone(), args[i].duplicate());
            i = i + 1;
        }
        proof {
            assert(ps.subrange(n as int, n as int).len() == 0);
            assert(ps.subrange(0, n as int) =~= ps);
            assert(s.subrange(0, n as int) =~= s);
        }
        let res = self.eval_at(&fun.body, inner);
        let ghost after = self@;
        let mut j: usize = 0;
        assert(ps.subrange(0, n as int) =~= ps);
        while j < n
            invariant
                self.wf(),
                n == fun.args@.len(),
                ps == names_view(fun.args@),
                j <= n,
                self@.funcs == after.funcs,
                unbind(self@.vars, ps.subrange(j as int, n as int)) == unbind(after.vars, ps),
            decreases n - j,
        {
            proof {
                let ps_left = ps.subrange(j as int, n as int);
                assert(ps_left.drop_first() =~= ps.subrange(j + 1, n as int));
            }
            self.vars.remove(&fun.args[j]);
            j = j + 1;
        }
        proof {
            assert(ps.subrange(0, n as int) =~= ps);
        }
        res
    }

    fn defun(&mut self, args: &Vec<Expr>) -> (r: Result<Expr, EvalError>)
        requires
            old(self).wf(),
        ensures
            final(self).wf(),
            (final(self)@, outcome_of(r)) == defun_outcome(old(self)@, seq_views(args@)),
    {
        if args.len() != 3 {
            return Err(EvalError::ArgumentNumber { exp: 3, got: args.len() });
        }
        proof {
            lemma_views(args);
        }
        match (&args[0], &args[1], &args[2]) {
            (Expr::Atomic(Atom::Name(name)), Expr::List(fn_args), Expr::List(fn_body)) => {
                proof {
                    lemma_views(fn_args);
                    lemma_views(fn_body);
                }
                let ghost ps = seq_views(fn_args@);
                let mut params: Vec<String> = Vec::new();
                let mut i: usize = 0;
                while i < fn_args.len()
                    invariant
                        self.wf(),
                        self@ == old(self)@,
                        seq_views(args@)[0] == ExprV::Atomic(AtomV::Name(name@)),
                        seq_views(args@)[1] == ExprV::List(ps),
                        seq_views(args@)[2] is List,
                        seq_views(args@).len() == 3,
                        i <= fn_args@.len(),
                        ps == seq_views(fn_args@),
                        params@.len() == i,
                        forall|j: int| 0 <= j < i ==> (#[trigger] ps[j] matches ExprV::Atomic(AtomV::Name(_))),
                        forall|j: int| 0 <= j < i ==> #[trigger] params@[j]@ == ps[j]->Atomic_0->Name_0,
                    decreases fn_args@.len() - i,
                {
                    match &fn_args[i] {
                        Expr::Atomic(Atom::Name(p)) => {
                            params.push(p.clone());
                        },
                        _ => {
                            assert(!(ps[i as int] matches ExprV::Atomic(AtomV::Name(_))));
                            assert(!all_names(ps));
                            return Err(EvalError::InvalidArguments { args: dup_all(fn_args) });
                        },
                    }
                    i = i + 1;
                }
                assert(names_view(params@) =~= names_of(ps));
                let f = Function::new(params, Expr::List(duplicate_all(fn_body)));
                self.funcs.insert(name.clone(), f);
                Ok(Expr::Atomic(Atom::Name(name.clone())))
            },
            _ => Err(EvalError::InvalidSyntax),
        }
    }

    fn list(&mut self, args: &Vec<Expr>, inner: usize) -> (r: Result<Expr, EvalError>)
        requires
            old(self).wf(),
        ensures
            final(self).wf(),
            (final(self)@, outcome_of(r)) == list_outcome(old(self)@, seq_views(args@), inner as nat),
        decreases inner + 1, 2int, 0int,
    {
        match self.eval_all(args, inner) {
            Ok(vals) => {
                proof {
                    lemma_views(&vals);
                }
                Ok(Expr::Qexpr(vals))
            },
            Err(x) => Err(x),
        }
    }

    fn eval_builtin(&mut self, args: &Vec<Expr>, inner: usize) -> (r: Result<Expr, EvalError>)
        requires
            old(self).wf(),
        ensures
            final(self).wf(),
            (final(self)@, outcome_of(r)) == eval_twice(old(self)@, seq_views(args@), inner as nat),
        decreases inner + 1, 2int, 0int,
    {
        if args.len() != 1 {
            return Err(EvalError::ArgumentNumber { exp: 1, got: args.len() });
        }
        match self.eval_at(&args[0], inner) {
            Ok(interm) => self.eval_at(&interm, inner),
            Err(x) => Err(x),
        }
    }

    fn car(&mut self, args: &Vec<Expr>, inner: usize) -> (r: Result<Expr, EvalError>)
        requires
            old(self).wf(),
        ensures
            final(self).wf(),
            (final(self)@, outcome_of(r)) == car_outcome(old(self)@, seq_views(args@), inner as nat),
        decreases inner + 1, 2int, 0int,
    {
        if args.len() != 1 {
            return Err(EvalError::ArgumentNumber { exp: 1, got: args.len() });
        }
        match self.eval_at(&args[0], inner) {
            Ok(Expr::List(c)) => {
                proof {
                    lemma_views(&c);
                }
                if c.len() == 0 {
                    Ok(Expr::Atomic(Atom::Boolean(Bool::Nil)))
                } else {
                    Ok(c[0].duplicate())
                }
            },
            Ok(_) => Err(EvalError::WrongTypeArgumentList),
            Err(x) => Err(x),
        }
    }

    fn mapcar(&mut self, args: &Vec<Expr>, inner: usize) -> (r: Result<Expr, EvalError>)
        requires
            old(self).wf(),
        ensures
            final(self).wf(),
            (final(self)@, outcome_of(r)) == mapcar_outcome(old(self)@, seq_views(args@), inner as nat),
        decreases inner + 1, 2int, 0int,
    {
        proof {
            lemma_views(args);
        }
        if args.len() == 2 {
            match &args[1] {
                Expr::Qexpr(v) => {
                    proof {
                        lemma_views(v);
                    }
                    match self.map_each(&args[0], v, inner) {
                        Ok(vals) => {
                            proof {
                                lemma_views(&vals);
                            }
                            Ok(Expr::List(vals))
                        },
                        Err(x) => Err(x),
                    }
                },
                _ => Err(EvalError::InvalidArguments { args: dup_all(args) }),
            }
        } else {
            Err(EvalError::InvalidArguments { args: dup_all(args) })
        }
    }

    fn numeric(&mut self, op: Ops, args: &Vec<Expr>, inner: usize) -> (r: Result<Expr, EvalError>)
        requires
            old(self).wf(),
            is_arith(op),
        ensures
            final(self).wf(),
            (final(self)@, outcome_of(r)) == numeric_outcome(old(self)@, op, seq_views(args@), inner as nat),
        decreases inner + 1, 2int, 0int,
    {
        if (op == Ops::Sub || op == Ops::Div || op == Ops::Rem) && args.len() != 2 {
            return Err(EvalError::ArgumentNumber { exp: 2, got: args.len() });
        }
        match self.eval_all(args, inner) {
            Ok(vals) => self.arith(op, &vals),
            Err(x) => Err(x),
        }
    }

    fn eval_all(&mut self, args: &Vec<Expr>, depth: usize) -> (r: Result<Vec<Expr>, EvalError>)
        requires
            old(self).wf(),
        ensures
            final(self).wf(),
            (final(self)@, outcomes_of(r)) == eval_all(old(self)@, seq_views(args@), depth as nat),
            r is Ok ==> r->Ok_0@.len() == args@.len(),
        decreases depth, 5int, 0int,
    {
        let ghost env0 = self@;
        let ghost s = seq_views(args@);
        let mut vals: Vec<Expr> = Vec::new();
        let mut i: usize = 0;
        assert(s.subrange(0, s.len() as int) =~= s);
        assert(seq_views(vals@) + s =~= s);
        while i < args.len()
            invariant
                self.wf(),
                env0 == old(self)@,
                i <= args@.len(),
                vals@.len() == i,
                s == seq_views(args@),
                match eval_all(self@, s.subrange(i as int, s.len() as int), depth as nat) {
                    (e, Ok(rest)) => eval_all(env0, s, depth as nat) == (e, Ok::<Seq<ExprV>, ErrV>(seq_views(vals@) + rest)),
                    (e, Err(x)) => eval_all(env0, s, depth as nat) == (e, Err::<Seq<ExprV>, ErrV>(x)),
                },
            decreases args@.len() - i,
        {
            let ghost before = self@;
            let ghost old_vals = seq_views(vals@);
            proof {
                assert(s.subrange(i as int, s.len() as int).drop_first() =~= s.subrange(i + 1, s.len() as int));
                assert(s.subrange(i as int, s.len() as int)[0] == s[i as int]);
                assert(s[i as int] == args@[i as int]@);
            }
            match self.eval_at(&args[i], depth) {
                Ok(v) => {
                    vals.push(v);
                    i = i + 1;
                    proof {
                        assert(seq_views(vals@) =~= old_vals.push(v@));
                        match eval_all(self@, s.subrange(i as int, s.len() as int), depth as nat) {
                            (e, Ok(rest)) => {
                                assert(old_vals + (seq![v@] + rest) =~= seq_views(vals@) + rest);
                            },
                            (e, Err(x)) => {},
                        }
                    }
                },
                Err(x) => {
                    assert(eval_all(before, s.subrange(i as int, s.len() as int), depth as nat) == (
                    self@, Err::<Seq<ExprV>, ErrV>(x@)));
                    return Err(x);
                },
            }
        }
        proof {
            assert(s.subrange(i as int, s.len() as int) =~= Seq::<ExprV>::empty());
            assert(seq_views(vals@) + Seq::<ExprV>::empty() =~= seq_views(vals@));
        }
        proof {
            lemma_views(&vals);
        }
        Ok(vals)
    }

    fn map_each(&mut self, func: &Expr, elems: &Vec<Expr>, depth: usize) -> (r: Result<
        Vec<Expr>,
        EvalError,
    >)
        requires
            old(self).wf(),
        ensures
            final(self).wf(),
            (final(self)@, outcomes_of(r)) == map_each(old(self)@, func@, seq_views(elems@), depth as nat),
        decreases depth, 5int, 0int,
    {
        let ghost env0 = self@;
        let ghost s = seq_views(elems@);
        let mut vals: Vec<Expr> = Vec::new();
        let mut i: usize = 0;
        assert(s.subrange(0, s.len() as int) =~= s);
        assert(seq_views(vals@) + s =~= s);
        while i < elems.len()
            invariant
                self.wf(),
                env0 == old(self)@,
                i <= elems@.len(),
                s == seq_views(elems@),
                match map_each(self@, func@, s.subrange(i as int, s.len() as int), depth as nat) {
                    (e, Ok(rest)) => map_each(env0, func@, s, depth as nat) == (e, Ok::<Seq<ExprV>, ErrV>(seq_views(vals@) + rest)),
                    (e, Err(x)) => map_each(env0, func@, s, depth as nat) == (e, Err::<Seq<ExprV>, ErrV>(x)),
                },
            decreases elems@.len() - i,
        {
            let ghost old_vals = seq_views(vals@);
            let ghost before = self@;
            proof {
                assert(s.subrange(i as int, s.len() as int).drop_first() =~= s.subrange(i + 1, s.len() as int));
                assert(s.subrange(i as int, s.len() as int)[0] == s[i as int]);
                assert(s[i as int] == elems@[i as int]@);
            }
            let call_args = element_args_of(&elems[i]);
            match self.apply(func, &call_args, depth) {
                Ok(v) => {
                    vals.push(v);
                    i = i + 1;
                    proof {
                        assert(seq_views(vals@) =~= old_vals.push(v@));
                        match map_each(self@, func@, s.subrange(i as int, s.len() as int), depth as nat) {
                            (e, Ok(rest)) => {
                                assert(old_vals + (seq![v@] + rest) =~= seq_views(vals@) + rest);
                            },
                            (e, Err(x)) => {},
                        }
                    }
                },
                Err(x) => {
                    assert(map_each(before, func@, s.subrange(i as int, s.len() as int), depth as nat) == (
                    self@, Err::<Seq<ExprV>, ErrV>(x@)));
                    return Err(x);
                },
            }
        }
        proof {
            assert(s.subrange(i as int, s.len() as int) =~= Seq::<ExprV>::empty());
            assert(seq_views(vals@) + Seq::<ExprV>::empty() =~= seq_views(vals@));
            lemma_views(&vals);
        }
        Ok(vals)
    }

    fn arith(&self, op: Ops, vals: &Vec<Expr>) -> (r: Result<Expr, EvalError>)
        requires
            is_arith(op),
            is_binary(op) ==> vals@.len() == 2,
        ensures
            outcome_of(r) == numeric_result(op, seq_views(vals@)),
    {
        let ghost s = seq_views(vals@);
        let mut any_float = false;
        let mut i: usize = 0;
        while i < vals.len()
            invariant
                i <= vals@.len(),
                s == seq_views(vals@),
                forall|j: int| 0 <= j < i ==> is_number(#[trigger] s[j]),
                any_float <==> exists|j: int| 0 <= j < i && #[trigger] s[j] == float_atom(),
            decreases vals@.len() - i,
        {
            match &vals[i] {
                Expr::Atomic(Atom::Number(Num::Double(_))) => {
                    assert(s[i as int] == float_atom());
                    any_float = true;
                },
                Expr::Atomic(Atom::Number(Num::Int(_))) => {},
                _ => {
                    assert(s[i as int] == vals@[i as int]@);
                    assert(!is_number(s[i as int]));
                    return Err(EvalError::ShouldBeNum);
                },
            }
            i = i + 1;
        }
        if any_float {
            return Ok(Expr::Atomic(Atom::Number(Num::Double(self.float_result(op, vals)))));
        }
        assert(!(exists|j: int| 0 <= j < s.len() && #[trigger] s[j] == float_atom()));
        assert(!(exists|j: int| 0 <= j < s.len() && !is_number(#[trigger] s[j])));
        let n = vals.len();
        assert(s.subrange(0, n as int) =~= s);
        match op {
            Ops::Add => {
                let mut acc: i64 = 0;
                let mut k: usize = 0;
                while k < n
                    invariant
                        n == vals@.len(),
                        s == seq_views(vals@),
                        op == Ops::Add,
                        !(exists|j: int| 0 <= j < s.len() && !is_number(#[trigger] s[j])),
                        !(exists|j: int| 0 <= j < s.len() && #[trigger] s[j] == float_atom()),
                        k <= n,
                        int_sum(acc, s.subrange(k as int, n as int)) == int_sum(0, s),
                    decreases n - k,
                {
                    proof {
                        assert(s.subrange(k as int, n as int).drop_first() =~= s.subrange(k + 1, n as int));
                        assert(s.subrange(k as int, n as int)[0] == s[k as int]);
                        assert(s[k as int] == vals@[k as int]@);
                    }
                    match acc.checked_add(int_at(vals, k)) {
                        Some(a) => {
                            acc = a;
                        },
                        None => {
                            return Err(EvalError::IntOverflow);
                        },
                    }
                    k = k + 1;
                }
                Ok(Expr::Atomic(Atom::Number(Num::Int(acc))))
            },
            Ops::Mul => {
                let mut acc: i64 = 1;
                let mut k: usize = 0;
                while k < n
                    invariant
                        n == vals@.len(),
                        s == seq_views(vals@),
                        op == Ops::Mul,
                        !(exists|j: int| 0 <= j < s.len() && !is_number(#[trigger] s[j])),
                        !(exists|j: int| 0 <= j < s.len() && #[trigger] s[j] == float_atom()),
                        k <= n,
                        int_product(acc, s.subrange(k as int, n as int)) == int_product(1, s),
                    decreases n - k,
                {
                    proof {
                        assert(s.subrange(k as int, n as int).drop_first() =~= s.subrange(k + 1, n as int));
                        assert(s.subrange(k as int, n as int)[0] == s[k as int]);
                        assert(s[k as int] == vals@[k as int]@);
                    }
                    match acc.checked_mul(int_at(vals, k)) {
                        Some(a) => {
                            acc = a;
                        },
                        None => {
                            return Err(EvalError::IntOverflow);
                        },
                    }
                    k = k + 1;
                }
                Ok(Expr::Atomic(Atom::Number(Num::Int(acc))))
            },
            Ops::Sub => match int_at(vals, 0).checked_sub(int_at(vals, 1)) {
                Some(x) => Ok(Expr::Atomic(Atom::Number(Num::Int(x)))),
                None => Err(EvalError::IntOverflow),
            },
            Ops::Div => match int_at(vals, 0).checked_div(int_at(vals, 1)) {
                Some(x) => Ok(Expr::Atomic(Atom::Number(Num::Int(x)))),
                None => Err(EvalError::DivBy0),
            },
            _ => match int_at(vals, 0).checked_rem(int_at(vals, 1)) {
                Some(x) => Ok(Expr::Atomic(Atom::Number(Num::Int(x)))),
                None => Err(EvalError::DivBy0),
            },
        }
    }

    fn float_of(&self, e: &Expr) -> u64 {
        match e {
            Expr::Atomic(Atom::Number(Num::Double(b))) => *b,
            Expr::Atomic(Atom::Number(Num::Int(i))) => self.floats.from_int(*i),
            _ => self.floats.from_int(0),
        }
    }

    /// The float result of an arithmetic operator, computed by the host.
    fn float_result(&self, op: Ops, vals: &Vec<Expr>) -> u64
        requires
            is_arith(op),
            is_binary(op) ==> vals@.len() == 2,
    {
        match op {
            Ops::Add | Ops::Mul => {
                let mut acc = if op == Ops::Add {
                    self.floats.from_int(0)
                } else {
                    self.floats.from_int(1)
                };
                let mut k: usize = 0;
                while k < vals.len()
                    decreases vals@.len() - k,
                {
                    let x = self.float_of(&vals[k]);
                    acc = if op == Ops::Add {
                        self.floats.sum(acc, x)
                    } else {
                        self.floats.product(acc, x)
                    };
                    k = k + 1;
                }
                acc
            },
            Ops::Sub => self.floats.difference(self.float_of(&vals[0]), self.float_of(&vals[1])),
            Ops::Div => self.floats.quotient(self.float_of(&vals[0]), self.float_of(&vals[1])),
            _ => self.floats.remainder(self.float_of(&vals[0]), self.float_of(&vals[1])),
        }
    }
}

} // verus!
