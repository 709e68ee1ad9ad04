use dreamberd::lexer::tokenize;
use dreamberd::parser::build_tree;
use dreamberd::interp::Interpreter;
use dreamberd::diag::{Diagnostic, ErrKind, Phase};
use dreamberd::env::Binding;
use dreamberd::value::Value;

fn run_program(src: &str) -> (Interpreter, Result<(), Diagnostic>) {
    let toks = tokenize("test", src).expect("tokenize");
    let tree = build_tree("test", toks, src).expect("parse");
    let mut it = Interpreter::new("test".to_string(), src.to_string());
    let r = it.run(&tree);
    (it, r)
}

#[test]
fn hello_prints_once() {
    let (it, r) = run_program("print 'Hello, DreamBerd!'!");
    assert!(r.is_ok());
    assert_eq!(it.output, vec!["Hello, DreamBerd!".to_string()]);
}

#[test]
fn unclosed_string_fails_at_quote() {
    let r = tokenize("test", "x = 'oops");
    match r {
        Err(d) => {
            assert!(matches!(d.kind, ErrKind::LexError));
            assert!(matches!(d.phase, Phase::Lex));
            assert_eq!(d.line, 1);
            assert_eq!(d.column, 5);
        }
        Ok(_) => panic!("expected a lexical error"),
    }
}

#[test]
fn immutable_assignment_fails_and_keeps_value() {
    let (it, r) = run_program("const const x = 5!\nx = 6!");
    match r {
        Err(d) => {
            assert!(matches!(d.kind, ErrKind::ImmutableAssignment));
            assert_eq!(d.line, 2);
        }
        Ok(()) => panic!("expected an immutable-assignment error"),
    }
    assert!(it.output.is_empty());
    let b: &Binding = &it.env.frames[0].bindings[0];
    assert!(matches!(b.value, Value::Num(50000)));
    assert!(!b.mutable);
}

#[test]
fn undefined_call_keeps_earlier_output() {
    let (it, r) = run_program("print 'a'!\nnope()!");
    match r {
        Err(d) => assert!(matches!(d.kind, ErrKind::UndefinedVariable)),
        Ok(()) => panic!("expected an undefined-variable error"),
    }
    assert_eq!(it.output, vec!["a".to_string()]);
}

#[test]
fn closures_resolve_in_defining_scope() {
    let src = "var x = 1!\nfunction f() { print x! }\n{ var x = 2! f()! }";
    let (it, r) = run_program(src);
    assert!(r.is_ok(), "{:?}", r.err().map(|d| d.render()));
    assert_eq!(it.output, vec!["1".to_string()]);
}

#[test]
fn pipeline_is_deterministic() {
    let src = "var n = 3!\nvar acc = 0!\nwhile (n > 0) { acc = acc + n! n = n - 1! }\nprint acc!";
    let t1 = tokenize("a", src).unwrap();
    let t2 = tokenize("b", src).unwrap();
    assert_eq!(format!("{:?}", t1), format!("{:?}", t2));
    let (i1, r1) = run_program(src);
    let (i2, r2) = run_program(src);
    assert!(r1.is_ok() && r2.is_ok());
    assert_eq!(i1.output, i2.output);
    assert_eq!(i1.output, vec!["6".to_string()]);
}

#[test]
fn arithmetic_and_coercions() {
    let (it, r) = run_program("print 1.5 + 2!\nprint 10 / 4!\nprint 'n=' + 2!\nprint 2 * 3.5!");
    assert!(r.is_ok());
    assert_eq!(
        it.output,
        vec!["3.5".to_string(), "2.5".to_string(), "n=2".to_string(), "7".to_string()]
    );
}

#[test]
fn division_by_zero_is_reported() {
    let (_, r) = run_program("print 1 / 0!");
    match r {
        Err(d) => assert!(matches!(d.kind, ErrKind::NativeOperationFailure)),
        Ok(()) => panic!("expected a failure"),
    }
}

#[test]
fn conditions_must_be_boolean() {
    let (_, r) = run_program("if (1) { print 'x'! }");
    match r {
        Err(d) => assert!(matches!(d.kind, ErrKind::TypeMismatch)),
        Ok(()) => panic!("expected a type mismatch"),
    }
}

#[test]
fn if_else_branches() {
    let (it, r) = run_program("if (1 < 2) { print 'yes'! } else { print 'no'! }");
    assert!(r.is_ok());
    assert_eq!(it.output, vec!["yes".to_string()]);
}

#[test]
fn functions_return_values() {
    let src = "function add(a, b) { return a + b! }\nprint add(2, 3)!";
    let (it, r) = run_program(src);
    assert!(r.is_ok(), "{:?}", r.err().map(|d| d.render()));
    assert_eq!(it.output, vec!["5".to_string()]);
}

#[test]
fn arity_mismatch_is_reported() {
    let src = "function f(a) { return a! }\nf(1, 2)!";
    let (_, r) = run_program(src);
    match r {
        Err(d) => assert!(matches!(d.kind, ErrKind::ArityMismatch)),
        Ok(()) => panic!("expected an arity error"),
    }
}

#[test]
fn runaway_loop_exhausts_the_step_budget() {
    let toks = tokenize("t", "while (true) { }").unwrap();
    let tree = build_tree("t", toks, "while (true) { }").unwrap();
    let mut it = Interpreter::new("t".to_string(), String::new());
    it.step_budget = 1000;
    match it.run(&tree) {
        Err(d) => assert!(matches!(d.kind, ErrKind::NativeOperationFailure)),
        Ok(()) => panic!("expected the budget to run out"),
    }
}

#[test]
fn equality_is_structural() {
    let (it, r) = run_program("print list(1, 2) == list(1, 2)!\nprint 'a' == 'b'!\nprint 1 != 2!");
    assert!(r.is_ok());
    assert_eq!(
        it.output,
        vec!["true".to_string(), "false".to_string(), "true".to_string()]
    );
}

#[test]
fn run_source_composes_the_stages() {
    let (it, r) = dreamberd::interp::run_source("t", "print 'one'!\nprint 2!");
    assert!(r.is_ok());
    assert_eq!(it.output, vec!["one".to_string(), "2".to_string()]);

    let (it, r) = dreamberd::interp::run_source("t", "x = 'oops");
    match r {
        Err(d) => {
            assert!(matches!(d.kind, ErrKind::LexError));
            assert_eq!((d.line, d.column), (1, 5));
        }
        Ok(()) => panic!("expected a lexical error"),
    }
    assert!(it.output.is_empty());

    let (it, r) = dreamberd::interp::run_source("t", "x = 5");
    match r {
        Err(d) => assert!(matches!(d.kind, ErrKind::ParseError)),
        Ok(()) => panic!("expected a parse error"),
    }
    assert!(it.output.is_empty());
}

#[test]
fn run_source_hello_end_to_end() {
    let (it, r) = dreamberd::interp::run_source("t", "print 'Hello, DreamBerd!'!");
    assert!(r.is_ok());
    assert_eq!(it.output, vec!["Hello, DreamBerd!".to_string()]);
}
