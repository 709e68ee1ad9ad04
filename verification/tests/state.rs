use dreamberd::lexer::tokenize;
use dreamberd::parser::build_tree;
use dreamberd::interp::Interpreter;
use dreamberd::codec::{export, import};
use dreamberd::diag::ErrKind;
use dreamberd::value::Value;

fn interp_after(src: &str) -> Interpreter {
    let toks = tokenize("t", src).unwrap();
    let tree = build_tree("t", toks, src).unwrap();
    let mut it = Interpreter::new("t".to_string(), src.to_string());
    it.run(&tree).unwrap();
    it
}

#[test]
fn export_import_round_trips_observably() {
    let it = interp_after(
        "var a = 1.5!\nconst const b = 'two'!\nvar c = list(1, 'x', true, undefined)!\nvar d = true!",
    );
    let bytes = export(&it.env).expect("export");
    let back = import(&bytes).expect("import");
    assert_eq!(back.frames.len(), it.env.frames.len());
    for (f1, f2) in it.env.frames.iter().zip(back.frames.iter()) {
        assert_eq!(f1.parent, f2.parent);
        assert_eq!(f1.bindings.len(), f2.bindings.len());
        for (b1, b2) in f1.bindings.iter().zip(f2.bindings.iter()) {
            assert_eq!(b1.name, b2.name);
            assert_eq!(b1.mutable, b2.mutable);
            assert_eq!(value_shape(&b1.value), value_shape(&b2.value));
        }
    }
    // A second trip gives the very same bytes.
    let bytes2 = export(&back).expect("re-export");
    assert_eq!(bytes, bytes2);
}

fn value_shape(v: &Value) -> String {
    match v {
        Value::Num(n) => format!("num:{}", n),
        Value::Text(s) => format!("text:{}", s),
        Value::Truth(b) => format!("truth:{}", b),
        Value::Undef => "undefined".to_string(),
        Value::Func(_) => "function".to_string(),
        Value::ListV(items) => {
            let inner: Vec<String> = items.iter().map(value_shape).collect();
            format!("list:[{}]", inner.join(","))
        }
    }
}

#[test]
fn live_closures_are_rejected_by_export() {
    let it = interp_after("function f() { return 1! }");
    match export(&it.env) {
        Err(d) => assert!(matches!(d.kind, ErrKind::SerializationError)),
        Ok(_) => panic!("expected a serialization error"),
    }
}

#[test]
fn foreign_input_is_rejected_by_import() {
    match import(&vec![1u8, 2, 3]) {
        Err(d) => assert!(matches!(d.kind, ErrKind::SerializationError)),
        Ok(_) => panic!("expected a serialization error"),
    }
    let it = interp_after("var a = 1!");
    let mut bytes = export(&it.env).unwrap();
    bytes.pop();
    assert!(import(&bytes).is_err());
}

fn run_output(src: &str) -> Vec<String> {
    interp_after(src).output
}

#[test]
fn builtin_len_str_abs() {
    assert_eq!(
        run_output("print len('abc')!\nprint len(list(1, 2))!\nprint str(1.5)!\nprint abs(0 - 2.5)!"),
        vec!["3", "2", "1.5", "2.5"]
    );
}

#[test]
fn builtin_list_get_push() {
    assert_eq!(
        run_output("var l = list(1, 2, 3)!\nprint get(l, 1)!\nprint push(l, 4)!\nprint l!"),
        vec!["2", "[1, 2, 3, 4]", "[1, 2, 3]"]
    );
}

#[test]
fn builtin_errors() {
    let toks = tokenize("t", "get(list(1), 5)!").unwrap();
    let tree = build_tree("t", toks, "get(list(1), 5)!").unwrap();
    let mut it = Interpreter::new("t".to_string(), String::new());
    match it.run(&tree) {
        Err(d) => assert!(matches!(d.kind, ErrKind::NativeOperationFailure)),
        Ok(()) => panic!("expected an out-of-range error"),
    }
    let toks = tokenize("t", "len(1, 2)!").unwrap();
    let tree = build_tree("t", toks, "len(1, 2)!").unwrap();
    let mut it = Interpreter::new("t".to_string(), String::new());
    match it.run(&tree) {
        Err(d) => assert!(matches!(d.kind, ErrKind::ArityMismatch)),
        Ok(()) => panic!("expected an arity error"),
    }
}

#[test]
fn shadowing_in_same_frame_takes_latest() {
    assert_eq!(run_output("var x = 1!\nvar x = 2!\nprint x!"), vec!["2"]);
}

#[test]
fn negative_numbers_render_with_sign() {
    assert_eq!(run_output("print 0 - 1.25!\nprint 0 - 3!"), vec!["-1.25", "-3"]);
}
