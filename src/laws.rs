//! Laws of evaluation, proved from the semantics.

use vstd::prelude::*;
use crate::semantics::{
    apply, bind, call, car_outcome, eval, eval_all, eval_twice, float_atom, int_atom, int_sum,
    is_arith, is_binary, is_number, list_outcome, numeric_outcome, numeric_result, unbind, EnvV,
    ErrV,
};
use crate::types::{AtomV, ExprV, Ops};

verus! {

pub open spec fn op_atom(op: Ops) -> ExprV {
    ExprV::Atomic(AtomV::Op(op))
}

/// Number literals evaluate to themselves and leave the environment alone.
proof fn lemma_eval_numbers(env: EnvV, nums: Seq<ExprV>, fuel: nat)
    requires
        fuel >= 1,
        forall|i: int| 0 <= i < nums.len() ==> is_number(#[trigger] nums[i]),
    ensures
        eval_all(env, nums, fuel) == (env, Ok::<Seq<ExprV>, ErrV>(nums)),
    decreases nums.len(),
{
    if nums.len() > 0 {
        assert(is_number(nums[0]));
        assert(eval(env, nums[0], fuel) == (env, Ok::<ExprV, ErrV>(nums[0])));
        lemma_eval_numbers(env, nums.drop_first(), fuel);
        assert(seq![nums[0]] + nums.drop_first() =~= nums);
    } else {
        assert(nums =~= Seq::<ExprV>::empty());
    }
}

/// An arithmetic operator applied to number literals evaluates them and
/// combines the values; the environment is left alone.
proof fn lemma_arith_literals(env: EnvV, op: Ops, nums: Seq<ExprV>, fuel: nat)
    requires
        fuel >= 2,
        is_arith(op),
        is_binary(op) ==> nums.len() == 2,
        forall|i: int| 0 <= i < nums.len() ==> is_number(#[trigger] nums[i]),
    ensures
        eval(env, ExprV::List(seq![op_atom(op)] + nums), fuel) == (env, numeric_result(op, nums)),
{
    let e = seq![op_atom(op)] + nums;
    assert(e.drop_first() =~= nums);
    lemma_eval_numbers(env, nums, (fuel - 1) as nat);
    assert(numeric_outcome(env, op, nums, (fuel - 1) as nat) == (env, numeric_result(op, nums)));
    assert(apply(env, op_atom(op), nums, fuel) == (env, numeric_result(op, nums)));
}

/// Adding two integers gives their sum when it fits in an i64, and fails
/// with `IntOverflow` otherwise.
pub proof fn law_int_add(env: EnvV, a: i64, b: i64, fuel: nat)
    requires
        fuel >= 2,
    ensures
        eval(env, ExprV::List(seq![op_atom(Ops::Add), int_atom(a), int_atom(b)]), fuel) == (
            env,
            if i64::MIN <= a + b <= i64::MAX {
                Ok::<ExprV, ErrV>(int_atom((a + b) as i64))
            } else {
                Err(ErrV::IntOverflow)
            },
        ),
{
    let nums = seq![int_atom(a), int_atom(b)];
    assert(seq![op_atom(Ops::Add)] + nums =~= seq![op_atom(Ops::Add), int_atom(a), int_atom(b)]);
    lemma_arith_literals(env, Ops::Add, nums, fuel);
    assert(nums.drop_first().drop_first() =~= Seq::<ExprV>::empty());
    reveal_with_fuel(int_sum, 3);
}

/// An arithmetic operator on number literals of which one is a float gives
/// a float, whatever the others are.
pub proof fn law_float_promotion(env: EnvV, op: Ops, nums: Seq<ExprV>, k: int, fuel: nat)
    requires
        fuel >= 2,
        is_arith(op),
        is_binary(op) ==> nums.len() == 2,
        forall|i: int| 0 <= i < nums.len() ==> is_number(#[trigger] nums[i]),
        0 <= k < nums.len(),
        nums[k] == float_atom(),
    ensures
        eval(env, ExprV::List(seq![op_atom(op)] + nums), fuel) == (env, Ok::<ExprV, ErrV>(
            float_atom(),
        )),
{
    lemma_arith_literals(env, op, nums, fuel);
}

/// Integer division and remainder by zero fail with `DivBy0`.
pub proof fn law_int_div_by_zero(env: EnvV, op: Ops, a: i64, fuel: nat)
    requires
        fuel >= 2,
        op is Div || op is Rem,
    ensures
        eval(env, ExprV::List(seq![op_atom(op), int_atom(a), int_atom(0)]), fuel) == (
            env,
            Err::<ExprV, ErrV>(ErrV::DivBy0),
        ),
{
    let nums = seq![int_atom(a), int_atom(0)];
    assert(seq![op_atom(op)] + nums =~= seq![op_atom(op), int_atom(a), int_atom(0)]);
    lemma_arith_literals(env, op, nums, fuel);
}

/// A quoted list evaluates to the same elements, unevaluated, as a list.
pub proof fn law_quote(env: EnvV, items: Seq<ExprV>, fuel: nat)
    requires
        fuel >= 1,
    ensures
        eval(env, ExprV::Qexpr(items), fuel) == (env, Ok::<ExprV, ErrV>(ExprV::List(items))),
{
}

/// `eval` of a quoted list evaluates the list itself.
pub proof fn law_eval_quoted(env: EnvV, items: Seq<ExprV>, fuel: nat)
    requires
        fuel >= 2,
    ensures
        eval(env, ExprV::List(seq![op_atom(Ops::Eval), ExprV::Qexpr(items)]), fuel) == eval(
            env,
            ExprV::List(items),
            (fuel - 1) as nat,
        ),
{
    let e = seq![op_atom(Ops::Eval), ExprV::Qexpr(items)];
    assert(e.drop_first() =~= seq![ExprV::Qexpr(items)]);
    let inner = (fuel - 1) as nat;
    assert(eval(env, ExprV::Qexpr(items), inner) == (env, Ok::<ExprV, ErrV>(ExprV::List(items))));
    assert(eval_twice(env, e.drop_first(), inner) == eval(env, ExprV::List(items), inner));
    assert(apply(env, op_atom(Ops::Eval), e.drop_first(), fuel) == eval(env, ExprV::List(items), inner));
}

/// `car` of a quoted list gives its first element: a quoted list evaluates
/// to a list.
pub proof fn law_car_of_quoted(env: EnvV, items: Seq<ExprV>, fuel: nat)
    requires
        fuel >= 2,
        items.len() > 0,
    ensures
        eval(env, ExprV::List(seq![op_atom(Ops::Car), ExprV::Qexpr(items)]), fuel) == (
            env,
            Ok::<ExprV, ErrV>(items[0]),
        ),
{
    let e = seq![op_atom(Ops::Car), ExprV::Qexpr(items)];
    assert(e.drop_first() =~= seq![ExprV::Qexpr(items)]);
    let inner = (fuel - 1) as nat;
    assert(eval(env, ExprV::Qexpr(items), inner) == (env, Ok::<ExprV, ErrV>(ExprV::List(items))));
    assert(car_outcome(env, e.drop_first(), inner) == (env, Ok::<ExprV, ErrV>(items[0])));
    assert(apply(env, op_atom(Ops::Car), e.drop_first(), fuel) == (env, Ok::<ExprV, ErrV>(items[0])));
}

/// `car` of what `list` builds is refused: `list` builds a quoted list.
pub proof fn law_car_of_built_list(env: EnvV, nums: Seq<ExprV>, fuel: nat)
    requires
        fuel >= 3,
        forall|i: int| 0 <= i < nums.len() ==> is_number(#[trigger] nums[i]),
    ensures
        eval(
            env,
            ExprV::List(seq![op_atom(Ops::Car), ExprV::List(seq![op_atom(Ops::List)] + nums)]),
            fuel,
        ) == (env, Err::<ExprV, ErrV>(ErrV::WrongTypeArgumentList)),
{
    let inner = seq![op_atom(Ops::List)] + nums;
    let e = seq![op_atom(Ops::Car), ExprV::List(inner)];
    assert(e.drop_first() =~= seq![ExprV::List(inner)]);
    assert(inner.drop_first() =~= nums);
    lemma_eval_numbers(env, nums, (fuel - 2) as nat);
    let f1 = (fuel - 1) as nat;
    let f2 = (fuel - 2) as nat;
    assert(list_outcome(env, nums, f2) == (env, Ok::<ExprV, ErrV>(ExprV::Qexpr(nums))));
    assert(apply(env, op_atom(Ops::List), nums, f1) == (env, Ok::<ExprV, ErrV>(ExprV::Qexpr(nums))));
    assert(eval(env, ExprV::List(inner), f1) == (env, Ok::<ExprV, ErrV>(ExprV::Qexpr(nums))));
    assert(car_outcome(env, e.drop_first(), f1) == (env, Err::<ExprV, ErrV>(ErrV::WrongTypeArgumentList)));
    assert(apply(env, op_atom(Ops::Car), e.drop_first(), fuel) == (env, Err::<ExprV, ErrV>(ErrV::WrongTypeArgumentList)));
}

/// A variable without a binding fails with `VoidVariable` naming it.
pub proof fn law_void_variable(env: EnvV, name: Seq<char>, fuel: nat)
    requires
        fuel >= 1,
        !env.vars.contains_key(name),
    ensures
        eval(env, ExprV::Atomic(AtomV::Name(name)), fuel) == (env, Err::<ExprV, ErrV>(
            ErrV::VoidVariable { name },
        )),
{
}

/// Calling a name that no function has fails with `VoidFunction` naming it,
/// before any argument is looked at.
pub proof fn law_void_function(env: EnvV, name: Seq<char>, args: Seq<ExprV>, fuel: nat)
    requires
        fuel >= 1,
        !env.funcs.contains_key(name),
    ensures
        eval(env, ExprV::List(seq![ExprV::Atomic(AtomV::Name(name))] + args), fuel) == (
            env,
            Err::<ExprV, ErrV>(ErrV::VoidFunction { name }),
        ),
{
    let e = seq![ExprV::Atomic(AtomV::Name(name))] + args;
    assert(e.drop_first() =~= args);
    assert(call(env, name, args, (fuel - 1) as nat) == (env, Err::<ExprV, ErrV>(ErrV::VoidFunction { name })));
    assert(apply(env, e[0], args, fuel) == (env, Err::<ExprV, ErrV>(ErrV::VoidFunction { name })));
}

proof fn lemma_unbind(vars: Map<Seq<char>, ExprV>, ps: Seq<Seq<char>>, k: Seq<char>)
    ensures
        unbind(vars, ps).contains_key(k) <==> vars.contains_key(k) && !ps.contains(k),
        unbind(vars, ps).contains_key(k) ==> unbind(vars, ps)[k] == vars[k],
    decreases ps.len(),
{
    if ps.len() > 0 {
        lemma_unbind(vars.remove(ps[0]), ps.drop_first(), k);
        if ps.contains(k) && k != ps[0] {
            let j = choose|j: int| 0 <= j < ps.len() && ps[j] == k;
            assert(ps.drop_first()[j - 1] == k);
        }
        if ps.drop_first().contains(k) {
            let j = choose|j: int| 0 <= j < ps.drop_first().len() && ps.drop_first()[j] == k;
            assert(ps[j + 1] == k);
        }
        if k == ps[0] {
            assert(ps[0] == k);
        }
    }
}

/// After a call of a user-defined function returns, whatever the call gave,
/// none of its parameters is bound: evaluating one of them afterwards fails
/// with `VoidVariable`.
pub proof fn law_call_unbinds(
    env: EnvV,
    name: Seq<char>,
    args: Seq<ExprV>,
    fuel: nat,
    k: int,
    later: nat,
)
    requires
        fuel >= 1,
        later >= 1,
        env.funcs.contains_key(name),
        args.len() == env.funcs[name].params.len(),
        0 <= k < args.len(),
    ensures
        ({
            let after = eval(env, ExprV::List(seq![ExprV::Atomic(AtomV::Name(name))] + args), fuel).0;
            let x = env.funcs[name].params[k];
            &&& !after.vars.contains_key(x)
            &&& eval(after, ExprV::Atomic(AtomV::Name(x)), later) == (after, Err::<ExprV, ErrV>(
                ErrV::VoidVariable { name: x },
            ))
        }),
{
    let e = seq![ExprV::Atomic(AtomV::Name(name))] + args;
    assert(e.drop_first() =~= args);
    let f = env.funcs[name];
    let entered = EnvV { vars: bind(env.vars, f.params, args), funcs: env.funcs };
    let after = eval(entered, f.body, (fuel - 1) as nat).0;
    lemma_unbind(after.vars, f.params, f.params[k]);
    assert(f.params.contains(f.params[k]));
    let r = call(env, name, args, (fuel - 1) as nat);
    assert(r.0.vars == unbind(after.vars, f.params));
    assert(apply(env, e[0], args, fuel) == r);
    law_void_variable(r.0, f.params[k], later);
}

} // verus!
