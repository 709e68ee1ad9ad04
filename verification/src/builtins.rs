//! The built-in catalog: a fixed table of native operations invocable by
//! name from evaluated code. Pure dispatch on (name, argument values);
//! each entry validates argument count and types and fails with a
//! descriptive error rather than a crash. The catalog is fixed at
//! construction of the interpreter; nothing registers into it at run
//! time.
//!
//! Entries: `len(text-or-list)`, `str(any)`, `abs(number)`, `list(...)`,
//! `get(list, index)`, `push(list, value)`. Numbers being fixed-point,
//! `len` returns the count scaled by ten thousand, and `get` requires a
//! whole-number index.

use vstd::prelude::*;
use crate::value::{Value, ValModel, val_model, list_models, to_text, text_of, in_i64};
use crate::diag::ErrKind;

verus! {

/// A failure inside a built-in: the error kind and a fixed message.
/// The caller attaches the call's source position.
pub struct NativeErr {
    pub kind: ErrKind,
    pub msg: &'static str,
}

/// Whether `n` names a built-in operation.
pub open spec fn is_builtin_name(n: Seq<char>) -> bool {
    n == "len"@ || n == "str"@ || n == "abs"@ || n == "list"@ || n == "get"@ || n == "push"@
}

/// What the catalog returns, on the models: the exact result value or
/// the exact error kind, for every name and argument list.
pub open spec fn spec_invoke(n: Seq<char>, args: Seq<ValModel>) -> Result<ValModel, ErrKind> {
    if n == "len"@ {
        if args.len() != 1 {
            Err(ErrKind::ArityMismatch)
        } else {
            match args[0] {
                ValModel::Text(s) => if s.len() <= 0x7fffffff {
                    Ok(ValModel::Num((s.len() * 10000) as int))
                } else {
                    Err(ErrKind::NativeOperationFailure)
                },
                ValModel::ListM(items) => if items.len() <= 0x7fffffff {
                    Ok(ValModel::Num((items.len() * 10000) as int))
                } else {
                    Err(ErrKind::NativeOperationFailure)
                },
                _ => Err(ErrKind::TypeMismatch),
            }
        }
    } else if n == "str"@ {
        if args.len() != 1 {
            Err(ErrKind::ArityMismatch)
        } else {
            Ok(ValModel::Text(text_of(args[0])))
        }
    } else if n == "abs"@ {
        if args.len() != 1 {
            Err(ErrKind::ArityMismatch)
        } else {
            match args[0] {
                ValModel::Num(v) => {
                    let m = if v < 0 {
                        -v
                    } else {
                        v
                    };
                    if in_i64(m) {
                        Ok(ValModel::Num(m))
                    } else {
                        Err(ErrKind::NativeOperationFailure)
                    }
                },
                _ => Err(ErrKind::TypeMismatch),
            }
        }
    } else if n == "list"@ {
        Ok(ValModel::ListM(args))
    } else if n == "get"@ {
        if args.len() != 2 {
            Err(ErrKind::ArityMismatch)
        } else {
            match (args[0], args[1]) {
                (ValModel::ListM(items), ValModel::Num(ix)) => {
                    if ix % 10000 != 0 {
                        Err(ErrKind::TypeMismatch)
                    } else if 0 <= ix / 10000 < items.len() {
                        Ok(items[ix / 10000])
                    } else {
                        Err(ErrKind::NativeOperationFailure)
                    }
                },
                _ => Err(ErrKind::TypeMismatch),
            }
        }
    } else if n == "push"@ {
        if args.len() != 2 {
            Err(ErrKind::ArityMismatch)
        } else {
            match args[0] {
                ValModel::ListM(items) => Ok(ValModel::ListM(items.push(args[1]))),
                _ => Err(ErrKind::TypeMismatch),
            }
        }
    } else {
        Err(ErrKind::UndefinedVariable)
    }
}

fn name_is(a: &String, b: &str) -> (r: bool)
    ensures
        r == (a@ == b@),
{
    let bo: String = b.to_owned();
    *a == bo
}

/// Whether `name` names a built-in.
pub fn is_builtin(name: &String) -> (r: bool)
    ensures
        r == is_builtin_name(name@),
{
    name_is(name, "len") || name_is(name, "str") || name_is(name, "abs") || name_is(name, "list")
        || name_is(name, "get") || name_is(name, "push")
}

/// Invokes the built-in `name` on `args`: exactly what `spec_invoke`
/// says, value for value on success, kind for kind on failure.
pub fn invoke(name: &String, args: Vec<Value>) -> (r: Result<Value, NativeErr>)
    ensures
        match spec_invoke(name@, list_models(args)) {
            Ok(m) => r matches Ok(v) && val_model(v) == m,
            Err(k) => r matches Err(e) && e.kind == k,
        },
{
    if name_is(name, "len") {
        if args.len() != 1 {
            return Err(NativeErr { kind: ErrKind::ArityMismatch, msg: "len takes one argument" });
        }
        match &args[0] {
            Value::Text(s) => {
                let n = s.as_str().unicode_len();
                if n <= 0x7fffffff {
                    Ok(Value::Num((n as i64) * 10000))
                } else {
                    Err(NativeErr { kind: ErrKind::NativeOperationFailure, msg: "text too long" })
                }
            },
            Value::ListV(items) => {
                let n = items.len();
                proof {
                    assert(list_models(args@[0]->ListV_0).len() == items@.len());
                }
                if n <= 0x7fffffff {
                    Ok(Value::Num((n as i64) * 10000))
                } else {
                    Err(NativeErr { kind: ErrKind::NativeOperationFailure, msg: "list too long" })
                }
            },
            _ => Err(NativeErr { kind: ErrKind::TypeMismatch, msg: "len needs text or a list" }),
        }
    } else if name_is(name, "str") {
        if args.len() != 1 {
            return Err(NativeErr { kind: ErrKind::ArityMismatch, msg: "str takes one argument" });
        }
        Ok(Value::Text(to_text(&args[0])))
    } else if name_is(name, "abs") {
        if args.len() != 1 {
            return Err(NativeErr { kind: ErrKind::ArityMismatch, msg: "abs takes one argument" });
        }
        match &args[0] {
            Value::Num(v) => {
                if *v == -0x8000000000000000i64 {
                    Err(
                        NativeErr {
                            kind: ErrKind::NativeOperationFailure,
                            msg: "magnitude out of range",
                        },
                    )
                } else if *v < 0 {
                    Ok(Value::Num(-*v))
                } else {
                    Ok(Value::Num(*v))
                }
            },
            _ => Err(NativeErr { kind: ErrKind::TypeMismatch, msg: "abs needs a number" }),
        }
    } else if name_is(name, "list") {
        Ok(Value::ListV(args))
    } else if name_is(name, "get") {
        if args.len() != 2 {
            return Err(NativeErr { kind: ErrKind::ArityMismatch, msg: "get takes two arguments" });
        }
        match (&args[0], &args[1]) {
            (Value::ListV(items), Value::Num(ix)) => {
                if *ix % 10000 != 0 {
                    return Err(
                        NativeErr {
                            kind: ErrKind::TypeMismatch,
                            msg: "index must be a whole number",
                        },
                    );
                }
                let q = *ix / 10000;
                if 0 <= q && (q as u64) < (items.len() as u64) {
                    proof {
                        assert(list_models(args@[0]->ListV_0)[q as int] == val_model(
                            items@[q as int],
                        ));
                    }
                    Ok(items[q as usize].dup())
                } else {
                    Err(NativeErr { kind: ErrKind::NativeOperationFailure, msg: "index out of range" })
                }
            },
            _ => Err(NativeErr { kind: ErrKind::TypeMismatch, msg: "get needs a list and an index" }),
        }
    } else if name_is(name, "push") {
        let ghost m = list_models(args);
        let mut rest = args;
        if rest.len() != 2 {
            return Err(NativeErr { kind: ErrKind::ArityMismatch, msg: "push takes two arguments" });
        }
        let v = rest.pop().unwrap();
        let first = rest.pop().unwrap();
        match first {
            Value::ListV(mut items) => {
                let ghost orig = items@;
                items.push(v);
                let r = Value::ListV(items);
                proof {
                    assert(val_model(r)->ListM_0 =~= m[0]->ListM_0.push(m[1]));
                }
                Ok(r)
            },
            _ => Err(NativeErr { kind: ErrKind::TypeMismatch, msg: "push needs a list" }),
        }
    } else {
        Err(NativeErr { kind: ErrKind::UndefinedVariable, msg: "unknown built-in" })
    }
}

} // verus!
