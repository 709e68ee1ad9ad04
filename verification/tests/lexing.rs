use dreamberd::lexer::tokenize;
use dreamberd::parser::build_tree;
use dreamberd::token::TokKind;
use dreamberd::diag::{Diagnostic, ErrKind, Phase};

#[test]
fn numbers_are_fixed_point() {
    let toks = tokenize("t", "x = 5!").unwrap();
    assert!(matches!(toks[2].kind, TokKind::Num(50000)));
    let toks = tokenize("t", "y = 1.25!").unwrap();
    assert!(matches!(toks[2].kind, TokKind::Num(12500)));
}

#[test]
fn too_many_fractional_digits_is_an_error() {
    match tokenize("t", "x = 1.23456!") {
        Err(d) => {
            assert!(matches!(d.kind, ErrKind::LexError));
            assert_eq!((d.line, d.column), (1, 5));
        }
        Ok(_) => panic!("expected a lexical error"),
    }
}

#[test]
fn comments_are_skipped_with_correct_positions() {
    let toks = tokenize("t", "// line one\n/* span\nlines */ x").unwrap();
    match &toks[0].kind {
        TokKind::Ident(s) => assert_eq!(s, "x"),
        k => panic!("unexpected token {:?}", k),
    }
    assert_eq!((toks[0].line, toks[0].col), (3, 10));
}

#[test]
fn unterminated_block_comment_reports_its_start() {
    match tokenize("t", "x! /* never closed") {
        Err(d) => {
            assert!(matches!(d.kind, ErrKind::LexError));
            assert_eq!((d.line, d.column), (1, 4));
        }
        Ok(_) => panic!("expected a lexical error"),
    }
}

#[test]
fn string_escapes_decode() {
    let toks = tokenize("t", r#"x = 'a\n\t\\\'b'!"#).unwrap();
    match &toks[2].kind {
        TokKind::Str(s) => assert_eq!(s, "a\n\t\\'b"),
        k => panic!("unexpected token {:?}", k),
    }
}

#[test]
fn invalid_escape_is_an_error() {
    match tokenize("t", r"x = 'a\qb'!") {
        Err(d) => assert!(matches!(d.kind, ErrKind::LexError)),
        Ok(_) => panic!("expected a lexical error"),
    }
}

#[test]
fn unrecognized_character_names_its_position() {
    match tokenize("t", "x = 5!\ny = @!") {
        Err(d) => {
            assert!(matches!(d.kind, ErrKind::LexError));
            assert_eq!((d.line, d.column), (2, 5));
        }
        Ok(_) => panic!("expected a lexical error"),
    }
}

#[test]
fn keywords_and_operators_lex() {
    let toks = tokenize("t", "while not <= != ==").unwrap();
    assert!(matches!(toks[0].kind, TokKind::KwWhile));
    assert!(matches!(toks[1].kind, TokKind::KwNot));
    assert!(matches!(toks[2].kind, TokKind::Le));
    assert!(matches!(toks[3].kind, TokKind::NotEq));
    assert!(matches!(toks[4].kind, TokKind::EqEq));
    assert!(matches!(toks[5].kind, TokKind::Eoi));
}

fn parse_err(src: &str) -> Diagnostic {
    let toks = tokenize("t", src).unwrap();
    match build_tree("t", toks, src) {
        Err(d) => d,
        Ok(_) => panic!("expected a parse error"),
    }
}

#[test]
fn missing_bang_is_a_parse_error() {
    let d = parse_err("x = 5");
    assert!(matches!(d.kind, ErrKind::ParseError));
    assert!(matches!(d.phase, Phase::Parse));
}

#[test]
fn unterminated_block_is_a_parse_error() {
    let d = parse_err("{ x = 1!");
    assert!(matches!(d.kind, ErrKind::ParseError));
}

#[test]
fn precedence_groups_multiplication_tighter() {
    let src = "print 2 + 3 * 4!\nprint (2 + 3) * 4!";
    let toks = tokenize("t", src).unwrap();
    let tree = build_tree("t", toks, src).unwrap();
    let mut it = dreamberd::interp::Interpreter::new("t".to_string(), src.to_string());
    assert!(it.run(&tree).is_ok());
    assert_eq!(it.output, vec!["14".to_string(), "20".to_string()]);
}

#[test]
fn diagnostics_render_with_phase_and_position() {
    let d = Diagnostic::new(Phase::Lex, ErrKind::LexError, "boom".to_string(), 3, 7);
    assert_eq!(d.render(), "lex phase, line 3, column 7: lexical error: boom");
}
