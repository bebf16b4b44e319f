use rlisp::{parse_str, Atom, Binary64, Bool, Context, EvalError, Expr, Function, Num, Ops};

struct F64;

impl Binary64 for F64 {
    fn from_literal(&self, text: &str) -> u64 {
        text.parse::<f64>().map(f64::to_bits).unwrap_or(f64::NAN.to_bits())
    }
    fn from_int(&self, i: i64) -> u64 {
        (i as f64).to_bits()
    }
    fn sum(&self, a: u64, b: u64) -> u64 {
        (f64::from_bits(a) + f64::from_bits(b)).to_bits()
    }
    fn difference(&self, a: u64, b: u64) -> u64 {
        (f64::from_bits(a) - f64::from_bits(b)).to_bits()
    }
    fn product(&self, a: u64, b: u64) -> u64 {
        (f64::from_bits(a) * f64::from_bits(b)).to_bits()
    }
    fn quotient(&self, a: u64, b: u64) -> u64 {
        (f64::from_bits(a) / f64::from_bits(b)).to_bits()
    }
    fn remainder(&self, a: u64, b: u64) -> u64 {
        (f64::from_bits(a) % f64::from_bits(b)).to_bits()
    }
    fn show(&self, a: u64) -> String {
        format!("{:?}", f64::from_bits(a))
    }
}

fn integer(i: i64) -> Expr {
    Expr::Atomic(Atom::Number(Num::Int(i)))
}

fn double(d: f64) -> Expr {
    Expr::Atomic(Atom::Number(Num::Double(d.to_bits())))
}

fn op(o: Ops) -> Expr {
    Expr::Atomic(Atom::Op(o))
}

fn name(n: &str) -> Expr {
    Expr::Atomic(Atom::Name(n.to_string()))
}

fn run(ctx: &mut Context<F64>, line: &str) -> Result<Expr, EvalError> {
    let ast = parse_str(line, &F64).expect("Parsing error");
    ctx.eval_ast(&ast)
}

#[test]
fn should_eval_atomic() {
    let mut ctx = Context::new(F64);
    let ast = integer(3);
    let result = ctx.eval_ast(&ast);
    assert_eq!(result.unwrap(), integer(3));
}

#[test]
fn should_eval_polish() {
    let mut ctx = Context::new(F64);
    let ast = Expr::List(vec![
        op(Ops::Add),
        integer(3),
        integer(3),
        Expr::List(vec![op(Ops::Add), integer(5), integer(9)]),
    ]);
    let result = ctx.eval_ast(&ast);
    assert_eq!(result.unwrap(), integer(20));
}

#[test]
fn should_eval_polish_with_vars() {
    let mut ctx = Context::new(F64);
    ctx.add_var("x", integer(12));
    let ast = Expr::List(vec![
        op(Ops::Add),
        integer(3),
        name("x"),
        Expr::List(vec![op(Ops::Mul), integer(9), name("x")]),
    ]);
    let result = ctx.eval_ast(&ast);
    assert_eq!(result.unwrap(), integer(123));
}

#[test]
fn should_eval_function() {
    let mut ctx = Context::new(F64);
    ctx.add_func(
        "square",
        Function::new(
            vec!["x".to_string()],
            Expr::List(vec![op(Ops::Mul), name("x"), name("x")]),
        ),
    );
    let ast = Expr::List(vec![
        name("square"),
        Expr::List(vec![op(Ops::Add), integer(5), integer(9)]),
    ]);
    let result = ctx.eval_ast(&ast);
    assert_eq!(result.unwrap(), integer(196));
}

#[test]
fn should_define_function() {
    let mut ctx = Context::new(F64);
    let ast = Expr::List(vec![
        op(Ops::Defun),
        name("square"),
        Expr::List(vec![name("x")]),
        Expr::List(vec![op(Ops::Mul), name("x"), name("x")]),
    ]);
    let result = ctx.eval_ast(&ast);
    assert_eq!(result.unwrap(), name("square"));
}

#[test]
fn should_define_function_from_car() {
    let mut ctx = Context::new(F64);
    let ast = Expr::List(vec![
        op(Ops::Defun),
        name("first"),
        Expr::List(vec![name("x")]),
        Expr::List(vec![op(Ops::Car), name("x")]),
    ]);
    let result = ctx.eval_ast(&ast);
    assert_eq!(result.unwrap(), name("first"));
    let ast = Expr::List(vec![name("first"), Expr::Qexpr(vec![integer(5), integer(6)])]);
    let result = ctx.eval_ast(&ast);
    assert_eq!(result.unwrap(), integer(5));
}

#[test]
fn int_addition_overflows() {
    let mut ctx = Context::new(F64);
    assert_eq!(run(&mut ctx, "(+ 3 3 (+ 5 9))").unwrap(), integer(20));
    assert!(matches!(
        run(&mut ctx, "(+ 9223372036854775807 1)"),
        Err(EvalError::IntOverflow)
    ));
    assert_eq!(run(&mut ctx, "(+ 9223372036854775806 1)").unwrap(), integer(i64::MAX));
    assert!(matches!(
        run(&mut ctx, "(* 4294967296 4294967296)"),
        Err(EvalError::IntOverflow)
    ));
    assert!(matches!(
        run(&mut ctx, "(- (- 0 9223372036854775807) 2)"),
        Err(EvalError::IntOverflow)
    ));
    assert_eq!(run(&mut ctx, "(+)").unwrap(), integer(0));
    assert_eq!(run(&mut ctx, "(*)").unwrap(), integer(1));
    assert_eq!(run(&mut ctx, "(- 2 5)").unwrap(), integer(-3));
    assert_eq!(run(&mut ctx, "(/ (- 0 7) 2)").unwrap(), integer(-3));
    assert_eq!(run(&mut ctx, "(% (- 0 7) 2)").unwrap(), integer(-1));
}

#[test]
fn mixed_arithmetic_is_float() {
    let mut ctx = Context::new(F64);
    assert_eq!(run(&mut ctx, "(+ 1 2.5)").unwrap(), double(3.5));
    assert_eq!(run(&mut ctx, "(* 2 1.5 2)").unwrap(), double(6.0));
    assert_eq!(run(&mut ctx, "(- 1 0.5)").unwrap(), double(0.5));
}

#[test]
fn division_by_zero() {
    let mut ctx = Context::new(F64);
    assert!(matches!(run(&mut ctx, "(/ 1 0)"), Err(EvalError::DivBy0)));
    assert!(matches!(run(&mut ctx, "(% 1 0)"), Err(EvalError::DivBy0)));
    assert_eq!(run(&mut ctx, "(/ 1.0 0)").unwrap(), double(f64::INFINITY));
    assert_eq!(run(&mut ctx, "(/ 1 0.0)").unwrap(), double(f64::INFINITY));
}

#[test]
fn defun_then_apply() {
    let mut ctx = Context::new(F64);
    assert_eq!(run(&mut ctx, "(defun square (x) (mul x x))").unwrap(), name("square"));
    assert_eq!(run(&mut ctx, "(square (add 5 9))").unwrap(), integer(196));
}

#[test]
fn quote_and_eval() {
    let mut ctx = Context::new(F64);
    assert_eq!(
        run(&mut ctx, "'(foo bar)").unwrap(),
        Expr::List(vec![name("foo"), name("bar")])
    );
    assert_eq!(run(&mut ctx, "(eval '(add 1 2))").unwrap(), integer(3));
}

#[test]
fn car_follows_quoting() {
    let mut ctx = Context::new(F64);
    assert_eq!(run(&mut ctx, "(car '(5 6))").unwrap(), integer(5));
    assert_eq!(
        run(&mut ctx, "(car '())").unwrap(),
        Expr::Atomic(Atom::Boolean(Bool::Nil))
    );
    assert_eq!(
        run(&mut ctx, "(list 5 6)").unwrap(),
        Expr::Qexpr(vec![integer(5), integer(6)])
    );
    assert!(matches!(
        run(&mut ctx, "(car (list 5 6))"),
        Err(EvalError::WrongTypeArgumentList)
    ));
    assert!(matches!(
        run(&mut ctx, "(car 1)"),
        Err(EvalError::WrongTypeArgumentList)
    ));
}

#[test]
fn unknown_names() {
    let mut ctx = Context::new(F64);
    match run(&mut ctx, "zork") {
        Err(EvalError::VoidVariable { name }) => assert_eq!(name, "zork"),
        other => panic!("unexpected {:?}", other),
    }
    match run(&mut ctx, "(frob 1 2)") {
        Err(EvalError::VoidFunction { name }) => assert_eq!(name, "frob"),
        other => panic!("unexpected {:?}", other),
    }
}

#[test]
fn parameters_do_not_leak() {
    let mut ctx = Context::new(F64);
    run(&mut ctx, "(defun square (x) (mul x x))").unwrap();
    assert_eq!(run(&mut ctx, "(square 5)").unwrap(), integer(25));
    match run(&mut ctx, "x") {
        Err(EvalError::VoidVariable { name }) => assert_eq!(name, "x"),
        other => panic!("unexpected {:?}", other),
    }
    // also when the body fails
    run(&mut ctx, "(defun bad (y) (car y))").unwrap();
    assert!(run(&mut ctx, "(bad 1)").is_err());
    assert!(matches!(run(&mut ctx, "y"), Err(EvalError::VoidVariable { .. })));
}

#[test]
fn empty_list_and_atoms() {
    let mut ctx = Context::new(F64);
    assert_eq!(
        run(&mut ctx, "()").unwrap(),
        Expr::Atomic(Atom::Boolean(Bool::Nil))
    );
    assert_eq!(
        run(&mut ctx, "\"hi\"").unwrap(),
        Expr::Atomic(Atom::Quoted("hi".to_string()))
    );
    assert!(matches!(run(&mut ctx, "add"), Err(EvalError::InvalidVarName)));
}

#[test]
fn argument_errors() {
    let mut ctx = Context::new(F64);
    assert!(matches!(
        run(&mut ctx, "(- 1)"),
        Err(EvalError::ArgumentNumber { exp: 2, got: 1 })
    ));
    assert!(matches!(
        run(&mut ctx, "(eval 1 2)"),
        Err(EvalError::ArgumentNumber { exp: 1, got: 2 })
    ));
    assert!(matches!(
        run(&mut ctx, "(car)"),
        Err(EvalError::ArgumentNumber { exp: 1, got: 0 })
    ));
    assert!(matches!(
        run(&mut ctx, "(defun f (x))"),
        Err(EvalError::ArgumentNumber { exp: 3, got: 2 })
    ));
    run(&mut ctx, "(defun f (x) (add x 1))").unwrap();
    assert!(matches!(
        run(&mut ctx, "(f 1 2)"),
        Err(EvalError::ArgumentNumber { exp: 1, got: 2 })
    ));
    match run(&mut ctx, "(defun g (x 1) (add x 1))") {
        Err(EvalError::InvalidArguments { args }) => assert_eq!(args, vec![name("x"), integer(1)]),
        other => panic!("unexpected {:?}", other),
    }
    assert!(matches!(
        run(&mut ctx, "(defun g (x) x)"),
        Err(EvalError::InvalidSyntax)
    ));
    assert!(matches!(run(&mut ctx, "(+ 1 \"a\")"), Err(EvalError::ShouldBeNum)));
    match run(&mut ctx, "(1 2)") {
        Err(EvalError::InvalidFunction { expression }) => assert_eq!(expression, integer(1)),
        other => panic!("unexpected {:?}", other),
    }
}

#[test]
fn nth_is_bounds_checked() {
    let mut ctx = Context::new(F64);
    assert_eq!(run(&mut ctx, "(nth 1 '(a b c))").unwrap(), name("b"));
    assert!(matches!(
        run(&mut ctx, "(nth 3 '(a b c))"),
        Err(EvalError::IndexOutOfRange { index: 3, len: 3 })
    ));
    match run(&mut ctx, "(nth x '(a))") {
        Err(EvalError::InvalidArguments { args }) => {
            assert_eq!(args, vec![name("x"), Expr::Qexpr(vec![name("a")])])
        }
        other => panic!("unexpected {:?}", other),
    }
}

#[test]
fn map_applies_to_each_element() {
    let mut ctx = Context::new(F64);
    run(&mut ctx, "(defun inc (x) (add x 1))").unwrap();
    let ast = Expr::List(vec![
        op(Ops::Mapcar),
        name("inc"),
        Expr::Qexpr(vec![integer(1), integer(2), integer(3)]),
    ]);
    assert_eq!(
        ctx.eval_ast(&ast).unwrap(),
        Expr::List(vec![integer(2), integer(3), integer(4)])
    );
    let ast = Expr::List(vec![
        op(Ops::Mapcar),
        op(Ops::Add),
        Expr::Qexpr(vec![Expr::Qexpr(vec![integer(1), integer(2)]), integer(5)]),
    ]);
    assert_eq!(
        ctx.eval_ast(&ast).unwrap(),
        Expr::List(vec![integer(3), integer(5)])
    );
    let ast = Expr::List(vec![op(Ops::Mapcar), name("inc"), integer(1)]);
    assert!(matches!(
        ctx.eval_ast(&ast),
        Err(EvalError::InvalidArguments { .. })
    ));
}

#[test]
fn runaway_recursion_is_stopped() {
    let mut ctx = Context::new(F64);
    run(&mut ctx, "(defun forever (x) (forever x))").unwrap();
    assert!(matches!(
        run(&mut ctx, "(forever 1)"),
        Err(EvalError::RecursionLimit)
    ));
    assert!(matches!(run(&mut ctx, "x"), Err(EvalError::VoidVariable { .. })));
}
