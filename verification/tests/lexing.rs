use six::lexer::lex;
use six::token::Tok;

fn err(src: &str) -> String {
    match six::parse(src) {
        Ok(_) => panic!("expected an error but the program parsed"),
        Err(e) => e.message,
    }
}

/// The literal text of the single number a program consists of.
fn number_text(src: &str) -> String {
    let program = six::parse(src).expect("program should parse");
    assert_eq!(program.len(), 1);
    match &program[0] {
        six::ast::Stmt::Expr(six::ast::Expr::Number(n)) => n.clone(),
        other => panic!("expected a number, got {:?}", other),
    }
}

fn num(src: &str) -> f64 {
    number_text(src).parse::<f64>().expect("number text is decimal")
}

#[test]
fn numbers_and_thousands_separators() {
    assert_eq!(num("1,000"), 1000.0);
    assert_eq!(num("1,000,000"), 1_000_000.0);
    assert_eq!(num("12,345.67"), 12_345.67);
}

#[test]
fn malformed_thousands_separator_errors() {
    assert!(err("x : 10,00").contains("numeric separator"));
    assert!(err("x : 1,00,000").contains("numeric separator"));
}

#[test]
fn unterminated_block_comment_errors() {
    assert!(err("## never closed\n1").contains("unterminated block comment"));
}

#[test]
fn separators_are_removed_from_number_text() {
    assert_eq!(number_text("1,000"), "1000");
    assert_eq!(number_text("12,345.67"), "12345.67");
    assert_eq!(number_text("3.14159"), "3.14159");
}

#[test]
fn malformed_separator_error_names_the_literal_and_line() {
    let e = six::parse("a : 1\nb : 10,00").unwrap_err();
    assert_eq!(e.message, "malformed numeric separator: 10,00");
    assert_eq!(e.line, Some(2));
}

#[test]
fn comma_in_fraction_errors() {
    let e = six::parse("1,000.000,1").unwrap_err();
    assert!(e.message.contains("fractional part"), "got: {}", e.message);
}

#[test]
fn lexing_ends_with_a_single_eof() {
    let toks = lex("x : 5\n").unwrap();
    assert!(matches!(toks.last().unwrap().tok, Tok::Eof));
    let eofs = toks.iter().filter(|t| matches!(t.tok, Tok::Eof)).count();
    assert_eq!(eofs, 1);
    assert!(matches!(toks[0].tok, Tok::Ident(ref n) if n == "x"));
    assert!(matches!(toks[1].tok, Tok::Colon));
    assert!(matches!(toks[2].tok, Tok::Number(ref n) if n == "5"));
}

#[test]
fn blank_lines_and_comments_collapse() {
    let toks = lex("\n\n# a comment\nx\n\n\ny ## block\ncomment ##\n").unwrap();
    let kinds: Vec<String> = toks.iter().map(|t| format!("{:?}", t.tok)).collect();
    assert_eq!(
        kinds,
        vec!["Ident(\"x\")", "Newline", "Ident(\"y\")", "Newline", "Eof"]
    );
    let lines: Vec<usize> = toks.iter().map(|t| t.line).collect();
    for pair in lines.windows(2) {
        assert!(pair[0] <= pair[1]);
    }
}

#[test]
fn keywords_and_symbols() {
    let toks = lex("if any else and or not true false nil .. >> ?? ?* ? ** // ++ --").unwrap();
    let kinds: Vec<String> = toks.iter().map(|t| format!("{:?}", t.tok)).collect();
    assert_eq!(
        kinds,
        vec![
            "If", "Any", "Else", "And", "Or", "Not", "True", "False", "Nil", "Empty", "FatArrow",
            "QElse", "QAny", "QIf", "StarStar", "SlashSlash", "PlusPlus", "MinusMinus", "Eof"
        ]
    );
}

#[test]
fn unexpected_character_errors() {
    let e = lex("x : `").unwrap_err();
    assert_eq!(e.message, "unexpected character '`'");
    assert_eq!(e.line, Some(1));
    let e = lex("a & b").unwrap_err();
    assert_eq!(e.message, "unexpected character '&' (did you mean '&&'?)");
}

#[test]
fn unterminated_text_errors() {
    let e = lex("x : \"abc").unwrap_err();
    assert_eq!(e.message, "unterminated text literal");
}

#[test]
fn space_before_marks_hugging_suffixes() {
    let toks = lex("f(x) g (y)").unwrap();
    assert!(!toks[1].space_before);
    assert!(toks[5].space_before);
}

#[test]
fn text_escapes() {
    let toks = lex("\"a\\nb\\t\\\"c\\\\\"").unwrap();
    assert!(matches!(toks[0].tok, Tok::Text(ref s) if s == "a\nb\t\"c\\"));
}

#[test]
fn number_tokens_are_plain_decimals() {
    let toks = lex("1,234,567 0.5 12.25 7 1,000.125 x2").unwrap();
    let mut count = 0;
    for t in &toks {
        if let Tok::Number(n) = &t.tok {
            count += 1;
            assert!(!n.contains(','));
            assert!(n.chars().all(|c| c.is_ascii_digit() || c == '.'));
            assert!(n.matches('.').count() <= 1);
            assert!(n.parse::<f64>().is_ok());
        }
    }
    assert_eq!(count, 5);
}

#[test]
fn first_token_counts_as_spaced() {
    assert!(lex("x").unwrap()[0].space_before);
    assert!(lex("f(x)").unwrap()[0].space_before);
    assert!(lex("\n\n  # note\n(y)").unwrap()[0].space_before);
    let only_eof = lex("").unwrap();
    assert_eq!(only_eof.len(), 1);
    assert!(only_eof[0].space_before);
}

#[test]
fn grouping_is_checked_piece_by_piece() {
    assert_eq!(number_text("1,234"), "1234");
    assert_eq!(number_text("12,345"), "12345");
    assert_eq!(number_text("123,456,789"), "123456789");
    for bad in ["1234,567", "1,23", "1,2345", "1,,234", "1,"] {
        let e = six::parse(bad).unwrap_err();
        assert_eq!(e.message, format!("malformed numeric separator: {}", bad));
        assert_eq!(e.line, Some(1));
    }
}

#[test]
fn which_characters_make_a_name() {
    let kinds = |src: &str| -> Vec<String> {
        lex(src).unwrap().iter().map(|t| format!("{:?}", t.tok)).collect()
    };
    assert_eq!(kinds("_a x7"), vec!["Ident(\"_a\")", "Ident(\"x7\")", "Eof"]);
    assert_eq!(kinds("7x"), vec!["Number(\"7\")", "Ident(\"x\")", "Eof"]);
    assert_eq!(kinds("a-b"), vec!["Ident(\"a-b\")", "Eof"]);
    assert_eq!(kinds("a-7"), vec!["Ident(\"a\")", "Minus", "Number(\"7\")", "Eof"]);
    assert_eq!(kinds("a - b"), vec!["Ident(\"a\")", "Minus", "Ident(\"b\")", "Eof"]);
}
