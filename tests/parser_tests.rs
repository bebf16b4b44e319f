use rlisp::{expression, parse_str, render, sexpr, Atom, Binary64, Bool, Expr, Num, Ops, SyntaxError};

struct F64;

impl Binary64 for F64 {
    fn from_literal(&self, text: &str) -> u64 {
        text.parse::<f64>().map(f64::to_bits).unwrap_or(f64::NAN.to_bits())
    }
    fn from_int(&self, i: i64) -> u64 {
        (i as f64).to_bits()
    }
    fn sum(&self, a: u64, b: u64) -> u64 {
        (f64::from_bits(a) + f64::from_bits(b)).to_bits()
    }
    fn difference(&self, a: u64, b: u64) -> u64 {
        (f64::from_bits(a) - f64::from_bits(b)).to_bits()
    }
    fn product(&self, a: u64, b: u64) -> u64 {
        (f64::from_bits(a) * f64::from_bits(b)).to_bits()
    }
    fn quotient(&self, a: u64, b: u64) -> u64 {
        (f64::from_bits(a) / f64::from_bits(b)).to_bits()
    }
    fn remainder(&self, a: u64, b: u64) -> u64 {
        (f64::from_bits(a) % f64::from_bits(b)).to_bits()
    }
    fn show(&self, a: u64) -> String {
        format!("{:?}", f64::from_bits(a))
    }
}

fn integer(i: i64) -> Expr {
    Expr::Atomic(Atom::Number(Num::Int(i)))
}

fn double(d: f64) -> Expr {
    Expr::Atomic(Atom::Number(Num::Double(d.to_bits())))
}

fn op(o: Ops) -> Expr {
    Expr::Atomic(Atom::Op(o))
}

fn name(n: &str) -> Expr {
    Expr::Atomic(Atom::Name(n.to_string()))
}

fn quoted(n: &str) -> Expr {
    Expr::Atomic(Atom::Quoted(n.to_string()))
}

#[test]
fn should_parse_polish() {
    let inp = "(+ 3 1232 312 (- 2 2))\n";
    let (rest, items) = sexpr(inp, &F64).expect("Parsing error");
    assert_eq!(rest, "\n");
    assert_eq!(
        items,
        vec![
            op(Ops::Add),
            integer(3),
            integer(1232),
            integer(312),
            Expr::List(vec![op(Ops::Sub), integer(2), integer(2)]),
        ]
    );
}

#[test]
fn should_parse_numbers_polish() {
    let inp = "(+ 3 12 2 (- 2. (/ 4 5E-3)))";
    let res = sexpr(inp, &F64).expect("Parsing error");
    assert_eq!(
        res.1,
        vec![
            op(Ops::Add),
            integer(3),
            integer(12),
            integer(2),
            Expr::List(vec![
                op(Ops::Sub),
                double(2.0),
                Expr::List(vec![op(Ops::Div), integer(4), double(0.005)]),
            ]),
        ]
    );
}

#[test]
fn should_parse_names() {
    let inp = "(lexp 3  2)";
    let res = sexpr(inp, &F64).expect("Parsing error");
    assert_eq!(res.1, vec![name("lexp"), integer(3), integer(2)]);
}

#[test]
fn should_parse_quoted_strings() {
    let inp = "(lexp 3  2 \"123qweQWE,./][]\")";
    let res = sexpr(inp, &F64).expect("Parsing error");
    assert_eq!(
        res.1,
        vec![name("lexp"), integer(3), integer(2), quoted("123qweQWE,./][]")]
    );
}

#[test]
fn should_parse_qexpr() {
    let inp = "(lexp 3  2 '(3 (+ 2 5)  \"ok\" )  )";
    let res = expression(inp, &F64).expect("Parsing error");
    assert_eq!(
        res.1,
        Expr::List(vec![
            name("lexp"),
            integer(3),
            integer(2),
            Expr::Qexpr(vec![
                integer(3),
                Expr::List(vec![op(Ops::Add), integer(2), integer(5)]),
                quoted("ok"),
            ]),
        ])
    );
}

#[test]
fn should_parse_singles() {
    let res_int = expression("32", &F64).expect("Parsing error");
    assert_eq!(res_int.1, integer(32));
    let res_name = expression("test", &F64).expect("Parsing error");
    assert_eq!(res_name.1, name("test"));
    let inp_string = "\"qwe123;'[],/\\u{1F602}\"";
    let res_string = expression(inp_string, &F64).expect("Parsing error");
    assert_eq!(res_string.1, quoted("qwe123;'[],/\u{1F602}"));
}

#[test]
fn keywords_win_over_names() {
    assert_eq!(parse_str("add", &F64).unwrap(), op(Ops::Add));
    assert_eq!(parse_str("defun", &F64).unwrap(), op(Ops::Defun));
    assert_eq!(parse_str("%", &F64).unwrap(), op(Ops::Rem));
    assert_eq!(parse_str("car", &F64).unwrap(), op(Ops::Car));
    // a name that starts with a keyword is read as the keyword
    assert!(matches!(parse_str("address", &F64), Err(SyntaxError::TrailingGarbage)));
    assert_eq!(parse_str("_x1", &F64).unwrap(), name("_x1"));
}

#[test]
fn integers_and_floats() {
    assert_eq!(parse_str("1_000", &F64).unwrap(), integer(1000));
    assert_eq!(parse_str("2.5", &F64).unwrap(), double(2.5));
    assert_eq!(parse_str(".5", &F64).unwrap(), double(0.5));
    assert_eq!(parse_str("5e2", &F64).unwrap(), double(500.0));
    assert_eq!(parse_str("9223372036854775807", &F64).unwrap(), integer(i64::MAX));
    // too large for an i64: read as a float
    assert_eq!(
        parse_str("9223372036854775808", &F64).unwrap(),
        double(9223372036854775808.0)
    );
    assert!(matches!(parse_str("5e", &F64), Err(SyntaxError::ParsingError { .. })));
}

#[test]
fn string_escapes() {
    assert_eq!(
        parse_str("\"a\\\"b\\\\c\\n\\t\\/\"", &F64).unwrap(),
        quoted("a\"b\\c\n\t/")
    );
    assert_eq!(parse_str("\"x\\   y\"", &F64).unwrap(), quoted("xy"));
    assert_eq!(parse_str("\"\\u{41}\"", &F64).unwrap(), quoted("A"));
    assert!(parse_str("\"\\u{D800}\"", &F64).is_err());
    assert!(parse_str("\"\\q\"", &F64).is_err());
    assert!(parse_str("\"open", &F64).is_err());
}

#[test]
fn lists_and_spacing() {
    assert_eq!(parse_str("()", &F64).unwrap(), Expr::List(vec![]));
    assert_eq!(parse_str("(  )", &F64).unwrap(), Expr::List(vec![]));
    assert_eq!(
        parse_str("( 1   2 )", &F64).unwrap(),
        Expr::List(vec![integer(1), integer(2)])
    );
    assert_eq!(parse_str("'()", &F64).unwrap(), Expr::Qexpr(vec![]));
    // elements need a space between them
    assert!(parse_str("(1(2))", &F64).is_err());
}

#[test]
fn syntax_errors() {
    assert!(matches!(
        parse_str("(+ 1 2)\n", &F64),
        Err(SyntaxError::TrailingGarbage)
    ));
    assert!(matches!(
        parse_str("(+ 1 2) ", &F64),
        Err(SyntaxError::TrailingGarbage)
    ));
    match parse_str("(+ 1 !)", &F64) {
        Err(SyntaxError::ParsingError { message }) => {
            assert_eq!(message, "no expression matches `!)`")
        }
        other => panic!("unexpected {:?}", other),
    }
    match parse_str("", &F64) {
        Err(SyntaxError::ParsingError { message }) => assert_eq!(message, "no expression matches ``"),
        other => panic!("unexpected {:?}", other),
    }
    assert!(matches!(
        expression(" 1", &F64),
        Err(SyntaxError::ParsingError { .. })
    ));
    assert!(matches!(sexpr("1", &F64), Err(SyntaxError::ParsingError { .. })));
}

#[test]
fn render_writes_source_text() {
    let e = parse_str("(defun sq (x) (mul x x))", &F64).unwrap();
    assert_eq!(render(&e, &F64), "(defun sq (x) (mul x x))");
    let e = parse_str("(+ 1 '(2 \"a\\\"b\"))", &F64).unwrap();
    assert_eq!(render(&e, &F64), "(add 1 '(2 \"a\\\"b\"))");
    assert_eq!(render(&integer(-42), &F64), "-42");
    assert_eq!(render(&integer(i64::MIN), &F64), "-9223372036854775808");
    assert_eq!(render(&double(2.5), &F64), "2.5");
    assert_eq!(render(&Expr::Atomic(Atom::Boolean(Bool::True)), &F64), "t");
    assert_eq!(render(&Expr::Atomic(Atom::Boolean(Bool::Nil)), &F64), "nil");
    assert_eq!(render(&op(Ops::Rem), &F64), "%");
    let e = Expr::Qexpr(vec![name("a"), Expr::List(vec![])]);
    assert_eq!(render(&e.clone(), &F64), "'(a ())");
}

#[test]
fn parse_render_parse_is_stable() {
    for s in [
        "(+   3 12  (- 2 1))",
        "'(a  b \"c d\")",
        "(nth 1 '(x y z))",
        "(% 7 2)",
        "\"tab\\there\"",
        "(list (eval '(car '(1 2))))",
    ] {
        let e = parse_str(s, &F64).unwrap();
        let again = parse_str(&render(&e, &F64), &F64).unwrap();
        assert_eq!(again, e);
    }
}
