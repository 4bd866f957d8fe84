use fractal_wasm::{parse, Expr};

/// The tree in prefix form, with each literal and name as written.
fn show(e: &Expr) -> String {
    match e {
        Expr::Number(t) => format!("#{}", t),
        Expr::Var(n) => n.clone(),
        Expr::Call(op, args) => {
            let parts: Vec<String> = args.iter().map(show).collect();
            format!("({} {})", op, parts.join(" "))
        }
    }
}

fn parsed(s: &str) -> String {
    show(&parse(s).expect("parses"))
}

#[test]
fn precedence_of_operators() {
    assert_eq!(parsed("1 + 2 * 3"), "(+ #1 (* #2 #3))");
    assert_eq!(parsed("(1 + 2) * 3"), "(* (+ #1 #2) #3)");
    assert_eq!(parsed("z*z + c < 4"), "(< (+ (* z z) c) #4)");
    assert_eq!(parsed("1 * 2 + 3 / 4"), "(+ (* #1 #2) (/ #3 #4))");
}

#[test]
fn left_associative_chains() {
    assert_eq!(parsed("a - b - c"), "(- (- a b) c)");
    assert_eq!(parsed("a / b / c"), "(/ (/ a b) c)");
    assert_eq!(parsed("a + b - c + d"), "(+ (- (+ a b) c) d)");
}

#[test]
fn comparisons() {
    assert_eq!(parsed("a < b"), "(< a b)");
    assert_eq!(parsed("a > b"), "(> a b)");
    assert_eq!(parsed("a <= b"), "(<= a b)");
    assert_eq!(parsed("a >= b"), "(>= a b)");
    assert_eq!(parsed("sqabs(z) > 4"), "(> (sqabs z) #4)");
    // At most one comparison.
    assert!(parse("a < b < c").is_err());
}

#[test]
fn keyword_calls() {
    assert_eq!(parsed("sqabs(1 + 2)"), "(sqabs (+ #1 #2))");
    assert_eq!(parsed("real (z)"), "(real z)");
    assert_eq!(parsed("conj(z)"), "(conj z)");
    assert_eq!(parsed("neg(z*z)"), "(neg (* z z))");
    // A keyword is a whole word; without parentheses it is a name.
    assert_eq!(parsed("sqabsz"), "sqabsz");
    assert_eq!(parsed("sqabs"), "sqabs");
}

#[test]
fn numbers_and_names() {
    assert_eq!(parsed("0.3"), "#0.3");
    assert_eq!(parsed("100"), "#100");
    assert_eq!(parsed("iter"), "iter");
    assert_eq!(parsed("x_1"), "x_1");
    assert!(parse("1.").is_err());
    assert!(parse(".5").is_err());
}

#[test]
fn whitespace_everywhere() {
    assert_eq!(parsed("  \t1\n+\r2  "), "(+ #1 #2)");
    assert_eq!(parsed(" ( z ) "), "z");
}

#[test]
fn errors_report_position() {
    let e = parse("1 2").unwrap_err();
    assert_eq!(e.text, "1 2");
    assert_eq!(e.remaining, 1);
    assert!(e.message.contains("end of input"));
    let e = parse("").unwrap_err();
    assert_eq!(e.remaining, 0);
    let e = parse("(1 + 2").unwrap_err();
    assert_eq!(e.remaining, 0);
    assert!(e.message.contains("\")\""));
    let e = parse("1 + )").unwrap_err();
    assert_eq!(e.remaining, 1);
    // The alternatives tried at the furthest position are joined.
    assert!(e.message.contains(" | "), "{}", e.message);
    assert!(e.message.contains("digit"), "{}", e.message);
    assert!(parse("1 +").is_err());
}


/// The value of a tree of literals and the four arithmetic operators.
fn eval(e: &Expr) -> f64 {
    match e {
        Expr::Number(t) => t.parse().unwrap(),
        Expr::Var(n) => panic!("no value for {}", n),
        Expr::Call(op, args) => {
            let a = eval(&args[0]);
            let b = eval(&args[1]);
            match op.as_str() {
                "+" => a + b,
                "-" => a - b,
                "*" => a * b,
                "/" => a / b,
                _ => panic!("operator {}", op),
            }
        }
    }
}

#[test]
fn evaluation_follows_precedence() {
    let cases: [(&str, f64); 6] = [
        ("1 + 2 * 3 - 4 / 5", 1.0 + 2.0 * 3.0 - 4.0 / 5.0),
        ("8 / 4 / 2", 8.0 / 4.0 / 2.0),
        ("10 - 3 - 2.5", 10.0 - 3.0 - 2.5),
        ("(10 - 3) * (2.5 + 0.25)", (10.0 - 3.0) * (2.5 + 0.25)),
        ("1.5 * 2 + 3 * 4 / 6 - 7", 1.5 * 2.0 + 3.0 * 4.0 / 6.0 - 7.0),
        ("2 * (3 + 4) * 5", 2.0 * (3.0 + 4.0) * 5.0),
    ];
    for (text, value) in cases {
        assert_eq!(eval(&parse(text).unwrap()), value, "{}", text);
    }
}
