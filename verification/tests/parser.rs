use yu_core::ast::{Expr, Stmt, UnOp};
use yu_core::diagnostic::TokDesc;
use yu_core::lexer::lex;
use yu_core::parser::parse;
use yu_core::{Diagnostic, ErrorKind};

fn parse_src(src: &str) -> Result<Vec<Stmt>, Diagnostic> {
    parse(src, &lex(src)?)
}

fn sexp(e: &Expr) -> String {
    match e {
        Expr::Number(n, _) => n.clone(),
        Expr::Text(s, _) => format!("{s:?}"),
        Expr::Bool(b, _) => b.to_string(),
        Expr::Nothing(_) => "nothing".into(),
        Expr::Name(n, _) => n.clone(),
        Expr::List(items, _) => {
            format!("[{}]", items.iter().map(sexp).collect::<Vec<_>>().join(" "))
        }
        Expr::Unary { op, expr, .. } => {
            format!("({} {})", if *op == UnOp::Neg { "-" } else { "not" }, sexp(expr))
        }
        Expr::Binary { op, left, right, .. } => {
            format!("({} {} {})", op.symbol(), sexp(left), sexp(right))
        }
        Expr::Call { callee, args, .. } => format!(
            "(call {}{})",
            sexp(callee),
            args.iter().map(|a| format!(" {}", sexp(a))).collect::<String>()
        ),
        Expr::Index { target, index, .. } => format!("(index {} {})", sexp(target), sexp(index)),
    }
}

fn block(b: &[Stmt]) -> String {
    format!("{{{}}}", b.iter().map(show).collect::<Vec<_>>().join(" "))
}

fn show(s: &Stmt) -> String {
    match s {
        Stmt::Expr(e) => sexp(e),
        Stmt::Assign { name, value, .. } => format!("(= {name} {})", sexp(value)),
        Stmt::SetIndex { target, index, value, .. } => {
            format!("(set {} {} {})", sexp(target), sexp(index), sexp(value))
        }
        Stmt::If { branches, otherwise } => {
            let mut out = String::from("(if");
            for (cond, body) in branches {
                out += &format!(" {} {}", sexp(cond), block(body));
            }
            if let Some(body) = otherwise {
                out += &format!(" else {}", block(body));
            }
            out + ")"
        }
        Stmt::While { cond, body, .. } => format!("(while {} {})", sexp(cond), block(body)),
        Stmt::Repeat { count, body, .. } => format!("(repeat {} {})", sexp(count), block(body)),
        Stmt::ForRange { var, from, to, step, body, .. } => format!(
            "(for {var} {} {}{} {})",
            sexp(from),
            sexp(to),
            step.as_ref().map(|s| format!(" {}", sexp(s))).unwrap_or_default(),
            block(body)
        ),
        Stmt::ForEach { var, iter, body, .. } => {
            format!("(each {var} {} {})", sexp(iter), block(body))
        }
        Stmt::Function(f) => format!("(fn {} ({}) {})", f.name, f.params.join(" "), block(&f.body)),
        Stmt::Return { value: Some(v), .. } => format!("(return {})", sexp(v)),
        Stmt::Return { value: None, .. } => "(return)".into(),
        Stmt::Break(_) => "break".into(),
        Stmt::Continue(_) => "continue".into(),
    }
}

fn one(src: &str) -> String {
    let program = parse_src(src).unwrap();
    assert_eq!(program.len(), 1, "{src}");
    show(&program[0])
}

#[test]
fn precedence() {
    assert_eq!(one("1 + 2 * 3"), "(+ 1 (* 2 3))");
    assert_eq!(one("10 - 3 - 2"), "(- (- 10 3) 2)");
    assert_eq!(one("-a * b"), "(* (- a) b)");
    assert_eq!(one("(1 + 2) * 3"), "(* (+ 1 2) 3)");
}

#[test]
fn logic_words_in_both_languages() {
    assert_eq!(one("не a == b або c і d"), "(or (not (== a b)) (and c d))");
    assert_eq!(one("not a == b or c and d"), "(or (not (== a b)) (and c d))");
}

#[test]
fn calls_indexing_and_lists() {
    assert_eq!(one("f(1, g(2))[3]"), "(index (call f 1 (call g 2)) 3)");
    assert_eq!(one("[1,\n 2,\n]"), "[1 2]");
    assert_eq!(one("скажи()"), "(call скажи)");
}

#[test]
fn literals() {
    assert_eq!(one("так"), "true");
    assert_eq!(one("нічого"), "nothing");
    assert_eq!(one("\"hi\""), "\"hi\"");
}

#[test]
fn assignment_targets() {
    assert_eq!(one("x = 1"), "(= x 1)");
    assert_eq!(one("a[1] = 2"), "(set a 1 2)");
    assert_eq!(parse_src("5 = x").unwrap_err().kind, ErrorKind::InvalidTarget);
    assert_eq!(
        parse_src("до = 5").unwrap_err().kind,
        ErrorKind::KeywordAsName("до".into())
    );
}

#[test]
fn expression_errors() {
    assert!(matches!(parse_src("x = 1 +").unwrap_err().kind, ErrorKind::Expected { .. }));
    assert!(matches!(parse_src("скажи(1").unwrap_err().kind, ErrorKind::Expected { .. }));
    assert_eq!(
        parse_src("x = 1 2").unwrap_err().kind,
        ErrorKind::UnexpectedToken(TokDesc::Text("2".into()))
    );
    assert_eq!(
        parse_src("    x = 1").unwrap_err().kind,
        ErrorKind::UnexpectedToken(TokDesc::Indent)
    );
}

#[test]
fn if_else_if_else_in_both_languages() {
    assert_eq!(
        one("якщо x > 0:\n    скажи(1)\nінакше якщо x < 0:\n    скажи(2)\nінакше:\n    скажи(3)\n"),
        "(if (> x 0) {(call скажи 1)} (< x 0) {(call скажи 2)} else {(call скажи 3)})"
    );
    assert_eq!(
        one("if x > 0:\n    say(1)\nelse:\n    say(2)"),
        "(if (> x 0) {(call say 1)} else {(call say 2)})"
    );
}

#[test]
fn repeat_accepts_every_grammatical_form() {
    for src in [
        "повтори 3 рази:\n    a = 1",
        "повтори 3 разів:\n    a = 1",
        "повтори 3 раз:\n    a = 1",
        "repeat 3 times:\n    a = 1",
        "повтори 3:\n    a = 1",
    ] {
        assert_eq!(one(src), "(repeat 3 {(= a 1)})", "{src}");
    }
}

#[test]
fn counting_and_list_loops() {
    assert_eq!(
        one("для i від 1 до 10 крок 2:\n    скажи(i)"),
        "(for i 1 10 2 {(call скажи i)})"
    );
    assert_eq!(one("for i from 1 to 3:\n    say(i)"), "(for i 1 3 {(call say i)})");
    assert_eq!(one("для x в xs:\n    скажи(x)"), "(each x xs {(call скажи x)})");
    assert_eq!(one("для x у xs:\n    скажи(x)"), "(each x xs {(call скажи x)})");
    assert_eq!(one("поки x < 3:\n    x = x + 1"), "(while (< x 3) {(= x (+ x 1))})");
}

#[test]
fn functions_and_jumps() {
    assert_eq!(
        one("функція квадрат(x):\n    поверни x * x"),
        "(fn квадрат (x) {(return (* x x))})"
    );
    assert_eq!(one("function f():\n    return"), "(fn f () {(return)})");
    assert_eq!(one("поки так:\n    стоп\n    далі"), "(while true {break continue})");
}

#[test]
fn nested_blocks() {
    assert_eq!(
        one("якщо a:\n    поки b:\n        c = 1\n    d = 2\n"),
        "(if a {(while b {(= c 1)}) (= d 2)})"
    );
}

#[test]
fn statement_errors() {
    assert_eq!(parse_src("стоп").unwrap_err().kind, ErrorKind::OutsideLoop("стоп".into()));
    assert_eq!(
        parse_src("поверни 1").unwrap_err().kind,
        ErrorKind::OutsideFunction("поверни".into())
    );
    assert_eq!(
        parse_src("поки так:\n    функція f():\n        стоп").unwrap_err().kind,
        ErrorKind::OutsideLoop("стоп".into())
    );
    assert!(matches!(
        parse_src("якщо x\n    скажи(1)").unwrap_err().kind,
        ErrorKind::Expected { .. }
    ));
    assert!(matches!(
        parse_src("якщо x:\nскажи(1)").unwrap_err().kind,
        ErrorKind::Expected { .. }
    ));
    assert!(matches!(
        parse_src("для i з 1 до 3:\n    скажи(i)").unwrap_err().kind,
        ErrorKind::Expected { .. }
    ));
    assert_eq!(
        parse_src("для до від 1 до 3:\n    скажи(1)").unwrap_err().kind,
        ErrorKind::KeywordAsName("до".into())
    );
}

#[test]
fn jumps_stay_inside_loops_and_returns_inside_functions() {
    let ok = "функція f(n):\n    поки так:\n        якщо n > 1:\n            стоп\n        далі\n    поверни n\n";
    assert!(parse_src(ok).is_ok());
    assert!(parse_src("функція f():\n    стоп").is_err());
    assert!(parse_src("поки так:\n    поверни").is_err());
}

#[test]
fn spans_of_statements_and_definitions() {
    let program = parse_src("x = 1 + 2\nфункція f(a, b):\n    поверни a\n").unwrap();
    match &program[0] {
        Stmt::Assign { span, .. } => assert_eq!((span.start, span.end), (0, 9)),
        other => panic!("{other:?}"),
    }
    match &program[1] {
        Stmt::Function(f) => {
            assert_eq!(f.params, vec!["a".to_string(), "b".to_string()]);
            assert_eq!(f.span.start, 10);
        }
        other => panic!("{other:?}"),
    }
}

#[test]
fn the_expected_error_points_at_the_token() {
    let err = parse_src("якщо x\n    y").unwrap_err();
    assert_eq!(
        err.kind,
        ErrorKind::Expected {
            uk: "двокрапка «:» в кінці рядка",
            en: "a colon ':' at the end of the line"
        }
    );
    assert_eq!((err.span.start, err.span.end), (10, 11));
}
