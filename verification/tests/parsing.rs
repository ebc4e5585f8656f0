use six::ast::{Arg, BinOp, Expr, PostOp, Stmt};
use six::parser::is_immutable_name;

fn one(src: &str) -> Stmt {
    let mut program = six::parse(src).expect("program should parse");
    assert_eq!(program.len(), 1, "one statement expected");
    program.remove(0)
}

fn expr(src: &str) -> Expr {
    match one(src) {
        Stmt::Expr(e) => e,
        other => panic!("expected an expression statement, got {:?}", other),
    }
}

fn var_name(e: &Expr) -> &str {
    match e {
        Expr::Var { name, .. } => name,
        other => panic!("expected a name, got {:?}", other),
    }
}

fn err(src: &str) -> six::error::SixError {
    six::parse(src).expect_err("expected a parse error")
}

#[test]
fn binding_and_immutability_flag() {
    match one("x : 5") {
        Stmt::Bind { name, deep, immutable, line, .. } => {
            assert_eq!(name, "x");
            assert!(!deep);
            assert!(!immutable);
            assert_eq!(line, 1);
        },
        other => panic!("{:?}", other),
    }
    match one("PI :: 3.14") {
        Stmt::Bind { name, deep, immutable, .. } => {
            assert_eq!(name, "PI");
            assert!(deep);
            assert!(immutable);
        },
        other => panic!("{:?}", other),
    }
}

#[test]
fn immutable_names_by_first_letter() {
    assert!(is_immutable_name("PI"));
    assert!(is_immutable_name("_Private"));
    assert!(is_immutable_name("__X1"));
    assert!(!is_immutable_name("pi"));
    assert!(!is_immutable_name("_x"));
    assert!(!is_immutable_name("42"));
    assert!(!is_immutable_name(""));
    assert!(is_immutable_name("Émile"));
}

#[test]
fn increment_desugars_to_assignment() {
    match one("x++") {
        Stmt::Assign { target, value, .. } => {
            assert_eq!(var_name(&target), "x");
            match value {
                Expr::Binary { op, left, right, .. } => {
                    assert_eq!(op, BinOp::Add);
                    assert_eq!(var_name(&left), "x");
                    assert!(matches!(*right, Expr::Number(ref n) if n == "1"));
                },
                other => panic!("{:?}", other),
            }
        },
        other => panic!("{:?}", other),
    }
    match one("g[0]--") {
        Stmt::Assign { target: Expr::Index { .. }, value: Expr::Binary { op, .. }, .. } => {
            assert_eq!(op, BinOp::Sub)
        },
        other => panic!("{:?}", other),
    }
    assert_eq!(err("5++").message, "'++' and '--' need a name or an index");
}

#[test]
fn assignment_targets() {
    assert!(matches!(one("x = 7"), Stmt::Assign { .. }));
    assert_eq!(err("f(x) = 7").message, "the left side of '=' must be a name or an index");
    assert_eq!(err("3 : 7").message, "the left side of a binding must be a name");
}

#[test]
fn precedence_folds_left() {
    match expr("1 - 2 - 3 * 4") {
        Expr::Binary { op: BinOp::Sub, left, right, .. } => {
            assert!(matches!(*left, Expr::Binary { op: BinOp::Sub, .. }));
            assert!(matches!(*right, Expr::Binary { op: BinOp::Mul, .. }));
        },
        other => panic!("{:?}", other),
    }
    assert!(matches!(expr("a or b and c"), Expr::Binary { op: BinOp::Or, .. }));
    assert!(matches!(expr("not a == b"), Expr::Binary { op: BinOp::Eq, .. }));
}

#[test]
fn flow_feeds_the_first_argument() {
    match expr("10 >> subtract(3)") {
        Expr::Call { callee, args, .. } => {
            assert_eq!(var_name(&callee), "subtract");
            assert_eq!(args.len(), 2);
            assert!(matches!(&args[0], Arg::Normal(Expr::Number(n)) if n == "10"));
            assert!(matches!(&args[1], Arg::Normal(Expr::Number(n)) if n == "3"));
        },
        other => panic!("{:?}", other),
    }
    match expr("x >> f") {
        Expr::Call { callee, args, .. } => {
            assert_eq!(var_name(&callee), "f");
            assert_eq!(args.len(), 1);
        },
        other => panic!("{:?}", other),
    }
}

#[test]
fn dot_flow_is_call_sugar() {
    match expr("[1 2 3 4].size") {
        Expr::Call { callee, args, .. } => {
            assert_eq!(var_name(&callee), "size");
            assert!(matches!(&args[0], Arg::Normal(Expr::Group { members, .. }) if members.len() == 4));
        },
        other => panic!("{:?}", other),
    }
    match expr("x.put(1 2)") {
        Expr::Call { args, .. } => assert_eq!(args.len(), 3),
        other => panic!("{:?}", other),
    }
}

#[test]
fn postfix_operators() {
    assert!(matches!(expr("x~"), Expr::Postfix { op: PostOp::Round, arg: None, .. }));
    assert!(matches!(expr("x~2"), Expr::Postfix { op: PostOp::Round, arg: Some(_), .. }));
    assert!(matches!(expr("x^"), Expr::Postfix { op: PostOp::Ceil, .. }));
    assert!(matches!(expr("(x)_"), Expr::Postfix { op: PostOp::Floor, .. }));
    assert!(matches!(expr("x_"), Expr::Var { .. }));
    assert!(matches!(expr("x**"), Expr::Postfix { op: PostOp::Square, arg: None, .. }));
    assert!(matches!(expr("x**y"), Expr::Postfix { op: PostOp::Power, arg: Some(_), .. }));
    assert!(matches!(expr("x//"), Expr::Postfix { op: PostOp::Sqrt, .. }));
}

#[test]
fn splat_and_groups() {
    match expr("add3(<nums>)") {
        Expr::Call { args, .. } => assert!(matches!(&args[0], Arg::Splat(_))),
        other => panic!("{:?}", other),
    }
    match expr("[\n  1 + 2\n  3\n]") {
        Expr::Group { members, .. } => {
            assert_eq!(members.len(), 2);
            assert!(matches!(members[0], Expr::Binary { .. }));
        },
        other => panic!("{:?}", other),
    }
    assert_eq!(err("[1 2").message, "unterminated Group literal: expected ']'");
}

#[test]
fn typed_empties() {
    assert!(matches!(expr("number .."), Expr::Empty));
    assert!(matches!(expr("text .."), Expr::Text(ref s) if s.is_empty()));
    assert!(matches!(expr("nil"), Expr::Empty));
    assert!(matches!(expr("$"), Expr::Last));
}

#[test]
fn function_declarations() {
    match one(":square(x)\n    x * x\n.") {
        Stmt::Func { def, immutable, line } => {
            assert_eq!(def.name, "square");
            assert_eq!(def.params, vec!["x".to_string()]);
            assert_eq!(def.body.len(), 1);
            assert!(!immutable);
            assert_eq!(line, 1);
        },
        other => panic!("{:?}", other),
    }
    assert_eq!(err(":f(x)\n  x\n").message, "unterminated block: expected '.'");
    assert_eq!(err(":f(1)\n.").message, "expected a parameter name, found number 1");
}

#[test]
fn conditionals_and_arms() {
    let src = "if\n    x > 10 >> \"big\"\n    x > 5 >>\n        \"medium\"\n    else >> \"small\"\n.";
    match expr(src) {
        Expr::If { any, arms, else_body, .. } => {
            assert!(!any);
            assert_eq!(arms.len(), 2);
            assert_eq!(arms[1].body.len(), 1);
            assert_eq!(else_body.map(|b| b.len()), Some(1));
        },
        other => panic!("{:?}", other),
    }
    assert!(matches!(expr("?*\n  a >> 1\n."), Expr::If { any: true, .. }));
    assert!(matches!(expr("if any\n  a >> 1\n."), Expr::If { any: true, .. }));
    assert_eq!(err("if\n  a >> 1\n").message, "unterminated conditional: expected '.'");
    assert_eq!(err("if\n  a 1\n.").message, "expected '>>' after a condition but found number 1");
}

#[test]
fn imports() {
    assert!(matches!(one("@tools"), Stmt::Import { ref name, .. } if name == "tools"));
    assert_eq!(err("@ 5").message, "expected a module name after '@', found number 5");
}

#[test]
fn stray_terminator_and_unexpected_tokens() {
    let e = err("x : 1\n.");
    assert_eq!(e.message, "stray block terminator '.'");
    assert_eq!(e.line, Some(2));
    assert_eq!(err(")").message, "unexpected ')'");
    assert_eq!(err("f(1").message, "unexpected end of input");
    assert_eq!(err("(1 2)").message, "expected ')' but found number 2");
}

#[test]
fn newlines_inside_parentheses_continue_expressions() {
    match expr("f(1\n  + 2)") {
        Expr::Call { args, .. } => {
            assert_eq!(args.len(), 1);
            assert!(matches!(&args[0], Arg::Normal(Expr::Binary { op: BinOp::Add, .. })));
        },
        other => panic!("{:?}", other),
    }
    assert_eq!(err("1\n+ 2").message, "unexpected '+'");
}

#[test]
fn expression_lines() {
    assert_eq!(expr("\n\nfoo").line(), 3);
    assert_eq!(expr("5").line(), 0);
}

#[test]
fn nested_bindings_record_immutability() {
    let program = six::parse(":f(x)\n    Max : 10\n    if\n        x > 1 >> y : 2\n    .\n.").unwrap();
    match &program[0] {
        Stmt::Func { def, .. } => {
            assert!(matches!(&def.body[0], Stmt::Bind { immutable: true, .. }));
            match &def.body[1] {
                Stmt::Expr(Expr::If { arms, .. }) => {
                    assert!(matches!(&arms[0].body[0], Stmt::Bind { immutable: false, .. }))
                },
                other => panic!("{:?}", other),
            }
        },
        other => panic!("{:?}", other),
    }
    assert!(matches!(one(":Area(w h)\n    w * h\n."), Stmt::Func { immutable: true, .. }));
}

#[test]
fn every_error_names_a_line() {
    for src in [
        "x : 10,00",
        "## open",
        "x : `",
        "\"open",
        "x : 1\n.",
        "f(1",
        "(1 2)",
        "[1 2",
        "if\n  a >> 1\n",
        ":f(x)\n  x\n",
        "@ 5",
        "3 : 4",
    ] {
        let e = six::parse(src).unwrap_err();
        assert!(e.line.is_some(), "no line for {:?}: {}", src, e.message);
    }
}

#[test]
fn suffixes_must_hug_their_operand() {
    assert_eq!(six::parse("f(x)").unwrap().len(), 1);
    assert_eq!(six::parse("f (x)").unwrap().len(), 2);
    assert!(matches!(expr("g[0]"), Expr::Index { .. }));
    assert_eq!(six::parse("g [0]").unwrap().len(), 2);
}

#[test]
fn remaining_error_messages() {
    assert_eq!(err("g[1 2]").message, "expected ']' to close an index but found number 2");
    assert_eq!(err("f(<g 1)").message, "expected '>' to close a splat argument but found number 1");
    assert_eq!(err("if\n  else 1\n.").message, "expected '>>' after 'else' but found number 1");
    assert_eq!(err(":1(x)\n.").message, "expected a function name, found number 1");
    assert_eq!(err(":f x\n.").message, "expected '(' to start the parameter list but found name 'x'");
    let e = six::lexer::lex("a | b").unwrap_err();
    assert_eq!(e.message, "unexpected character '|' (did you mean '||'?)");
}

#[test]
fn numbers_in_messages_read_as_numbers() {
    assert_eq!(err("(1 2.50)").message, "expected ')' but found number 2.5");
    assert_eq!(err("(1 007)").message, "expected ')' but found number 7");
    assert_eq!(err("(1 0.0)").message, "expected ')' but found number 0");
    assert_eq!(err("(1 1,000)").message, "expected ')' but found number 1000");
    assert_eq!(err("(1 100)").message, "expected ')' but found number 100");
}
