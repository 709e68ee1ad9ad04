//! Runtime values: fixed-point numbers, text, booleans, lists, function
//! values (closures) and the undefined value, together with their
//! mathematical model, structural equality, textual representation, and
//! fixed-point arithmetic.
//!
//! Numbers are an `i64` counting ten-thousandths, so `1.5` is 15000.
//! Multiplication and division truncate toward zero; any result outside
//! the representable range is reported, never wrapped.

use vstd::prelude::*;
use std::rc::Rc;
use crate::ast::Stmt;
use crate::numtext::{dec_digits, digit_char, u64_to_string};

verus! {

broadcast use vstd::std_specs::vec::axiom_vec_index_decreases;

/// Relies on std's Rc::clone: the clone refers to the very same value
/// (Verus models an `Rc<T>` by the `T` it holds).
#[verifier::external_body]
pub fn rc_dup<T>(v: &Rc<T>) -> (res: Rc<T>)
    ensures
        res == *v,
{
    Rc::clone(v)
}

/// A function value: parameter names, body, and the environment frame
/// captured at its definition (an index into the interpreter's arena).
/// Parameters and body are shared with the syntax tree they came from.
pub struct FuncVal {
    pub params: Rc<Vec<String>>,
    pub body: Rc<Vec<Stmt>>,
    pub env: usize,
}

/// A runtime value.
pub enum Value {
    Num(i64),
    Text(String),
    Truth(bool),
    ListV(Vec<Value>),
    Func(FuncVal),
    Undef,
}

/// The mathematical model of a value: unbounded integers, character
/// sequences, and element sequences. A function value models as itself;
/// contracts only ever compare functions for identity.
pub enum ValModel {
    Num(int),
    Text(Seq<char>),
    Truth(bool),
    ListM(Seq<ValModel>),
    FuncM(FuncVal),
    Undef,
}

/// The model of a value.
pub open spec fn val_model(v: Value) -> ValModel
    decreases v,
    via val_model_dec
{
    match v {
        Value::Num(n) => ValModel::Num(n as int),
        Value::Text(s) => ValModel::Text(s@),
        Value::Truth(b) => ValModel::Truth(b),
        Value::Undef => ValModel::Undef,
        Value::Func(f) => ValModel::FuncM(f),
        Value::ListV(items) => ValModel::ListM(list_models(items)),
    }
}

/// The models of a list's elements.
pub open spec fn list_models(items: Vec<Value>) -> Seq<ValModel>
    decreases items,
    via list_models_dec
{
    Seq::new(
        items@.len(),
        |k: int|
            if 0 <= k < items@.len() {
                val_model(items[k])
            } else {
                ValModel::Undef
            },
    )
}

#[via_fn]
proof fn list_models_dec(items: Vec<Value>) {
    assert forall|k: int| 0 <= k < items@.len() implies decreases_to!(items => items[k]) by {
        assert(decreases_to!(items => items[k]));
    }
}

#[via_fn]
proof fn val_model_dec(v: Value) {
    match v {
        Value::ListV(items) => {
            assert(decreases_to!(v => v->ListV_0));
        },
        _ => (),
    }
}

/// Whether a value contains no function value anywhere. Equality and
/// serialization are total exactly on such values.
pub open spec fn func_free(v: Value) -> bool
    decreases v,
    via func_free_dec
{
    match v {
        Value::Func(_) => false,
        Value::ListV(items) => forall|k: int|
            0 <= k < items@.len() ==> func_free(#[trigger] items[k]),
        _ => true,
    }
}

#[via_fn]
proof fn func_free_dec(v: Value) {
    match v {
        Value::ListV(items) => {
            assert forall|k: int| 0 <= k < items@.len() implies decreases_to!(v => items[k]) by {
                assert(decreases_to!(v => v->ListV_0));
                assert(decreases_to!(v->ListV_0 => v->ListV_0[k]));
            }
        },
        _ => (),
    }
}

impl Value {
    /// A copy with the very same model: same number, same characters,
    /// same elements, same function identity.
    pub fn dup(&self) -> (r: Value)
        ensures
            val_model(r) == val_model(*self),
        decreases self,
    {
        match self {
            Value::Num(n) => Value::Num(*n),
            Value::Text(s) => Value::Text(s.clone()),
            Value::Truth(b) => Value::Truth(*b),
            Value::Undef => Value::Undef,
            Value::Func(f) => Value::Func(
                FuncVal { params: rc_dup(&f.params), body: rc_dup(&f.body), env: f.env },
            ),
            Value::ListV(items) => {
                let mut out: Vec<Value> = Vec::new();
                let mut k: usize = 0;
                while k < items.len()
                    invariant
                        k <= items@.len(),
                        out@.len() == k,
                        self == Value::ListV(*items),
                        forall|m: int|
                            0 <= m < k ==> val_model(#[trigger] out@[m]) == val_model(items@[m]),
                    decreases items@.len() - k,
                {
                    proof {
                        assert(decreases_to!(*self => (*self)->ListV_0));
                        assert(decreases_to!(*items => (*items)[k as int]));
                    }
                    out.push(items[k].dup());
                    k = k + 1;
                }
                let r = Value::ListV(out);
                proof {
                    assert(val_model(r)->ListM_0 =~= val_model(*self)->ListM_0);
                }
                r
            },
        }
    }
}

/// Structural equality on models is decidable except across function
/// values; `val_eq` reports a comparison that reached a function.
pub fn val_eq(a: &Value, b: &Value) -> (r: Result<bool, ()>)
    ensures
        r matches Ok(e) ==> e == (val_model(*a) == val_model(*b)),
        func_free(*a) && func_free(*b) ==> r is Ok,
    decreases a,
{
    match (a, b) {
        (Value::Num(x), Value::Num(y)) => Ok(*x == *y),
        (Value::Text(x), Value::Text(y)) => Ok(*x == *y),
        (Value::Truth(x), Value::Truth(y)) => Ok(*x == *y),
        (Value::Undef, Value::Undef) => Ok(true),
        (Value::Func(_), _) => Err(()),
        (_, Value::Func(_)) => Err(()),
        (Value::ListV(xs), Value::ListV(ys)) => {
            if xs.len() != ys.len() {
                proof {
                    assert(val_model(*a)->ListM_0.len() != val_model(*b)->ListM_0.len());
                }
                return Ok(false);
            }
            let mut k: usize = 0;
            while k < xs.len()
                invariant
                    k <= xs@.len() == ys@.len(),
                    a == Value::ListV(*xs),
                    b == Value::ListV(*ys),
                    forall|m: int|
                        0 <= m < k ==> val_model(#[trigger] xs@[m]) == val_model(ys@[m]),
                decreases xs@.len() - k,
            {
                proof {
                    assert(decreases_to!(*a => (*a)->ListV_0));
                    assert(decreases_to!(*xs => (*xs)[k as int]));
                }
                match val_eq(&xs[k], &ys[k]) {
                    Ok(e) => {
                        if !e {
                            proof {
                                let s1 = val_model(*a)->ListM_0;
                                let s2 = val_model(*b)->ListM_0;
                                assert(s1[k as int] != s2[k as int]);
                            }
                            return Ok(false);
                        }
                    },
                    Err(()) => {
                        proof {
                            assert(!func_free(xs@[k as int]) || !func_free(ys@[k as int]));
                        }
                        return Err(());
                    },
                }
                k = k + 1;
            }
            proof {
                let s1 = val_model(*a)->ListM_0;
                let s2 = val_model(*b)->ListM_0;
                assert(s1 =~= s2);
            }
            Ok(true)
        },
        _ => {
            proof {
                assert(val_model(*a) != val_model(*b));
            }
            Ok(false)
        },
    }
}

// ---------------------------------------------------------------------------
// Textual representation.
// ---------------------------------------------------------------------------

/// The decimal text of the fractional part `f` (one ten-thousandth units,
/// `1 <= f <= 9999`), with trailing zeros trimmed.
pub open spec fn frac_text(f: int) -> Seq<char> {
    let d1 = digit_char((((f / 1000) % 10) as nat));
    let d2 = digit_char((((f / 100) % 10) as nat));
    let d3 = digit_char((((f / 10) % 10) as nat));
    let d4 = digit_char(((f % 10) as nat));
    if f % 10 != 0 {
        seq![d1, d2, d3, d4]
    } else if f % 100 != 0 {
        seq![d1, d2, d3]
    } else if f % 1000 != 0 {
        seq![d1, d2]
    } else {
        seq![d1]
    }
}

/// The text of a fixed-point number: optional minus sign, integer part,
/// and a fractional part only when it is nonzero.
pub open spec fn num_text(n: int) -> Seq<char> {
    let mag = if n < 0 {
        -n
    } else {
        n
    };
    let sign: Seq<char> = if n < 0 {
        "-"@
    } else {
        Seq::empty()
    };
    let whole = dec_digits((mag / 10000) as nat);
    let frac = mag % 10000;
    if frac == 0 {
        sign + whole
    } else {
        sign + whole + "."@ + frac_text(frac)
    }
}

/// The textual representation of a value, as `print` and the `str`
/// built-in produce it.
pub open spec fn text_of(m: ValModel) -> Seq<char>
    decreases m,
{
    match m {
        ValModel::Num(n) => num_text(n),
        ValModel::Text(s) => s,
        ValModel::Truth(b) => if b {
            "true"@
        } else {
            "false"@
        },
        ValModel::Undef => "undefined"@,
        ValModel::FuncM(_) => "<function>"@,
        ValModel::ListM(items) => "["@ + list_items_text(items) + "]"@,
    }
}

/// The comma-separated texts of a list's elements.
pub open spec fn list_items_text(items: Seq<ValModel>) -> Seq<char>
    decreases items,
{
    if items.len() == 0 {
        Seq::empty()
    } else if items.len() == 1 {
        text_of(items[0])
    } else {
        list_items_text(items.drop_last()) + ", "@ + text_of(items.last())
    }
}

/// Renders the fractional part of `mag` (`1 <= mag % 10000 <= 9999`).
fn frac_text_x(f: u64) -> (r: String)
    requires
        1 <= f <= 9999,
    ensures
        r@ == frac_text(f as int),
{
    let d1 = single_digit_str((f / 1000) % 10);
    let d2 = single_digit_str((f / 100) % 10);
    let d3 = single_digit_str((f / 10) % 10);
    let d4 = single_digit_str(f % 10);
    let r = if f % 10 != 0 {
        d1.to_owned().concat(d2).concat(d3).concat(d4)
    } else if f % 100 != 0 {
        d1.to_owned().concat(d2).concat(d3)
    } else if f % 1000 != 0 {
        d1.to_owned().concat(d2)
    } else {
        d1.to_owned()
    };
    proof {
        assert(r@ =~= frac_text(f as int));
    }
    r
}

/// A single decimal digit as a string slice.
fn single_digit_str(d: u64) -> (r: &'static str)
    requires
        d < 10,
    ensures
        r@ =~= seq![digit_char(d as nat)],
{
    proof {
        reveal_strlit("0");
        reveal_strlit("1");
        reveal_strlit("2");
        reveal_strlit("3");
        reveal_strlit("4");
        reveal_strlit("5");
        reveal_strlit("6");
        reveal_strlit("7");
        reveal_strlit("8");
        reveal_strlit("9");
    }
    match d {
        0 => "0",
        1 => "1",
        2 => "2",
        3 => "3",
        4 => "4",
        5 => "5",
        6 => "6",
        7 => "7",
        8 => "8",
        _ => "9",
    }
}

/// Renders a fixed-point number.
pub fn num_to_string(n: i64) -> (r: String)
    ensures
        r@ == num_text(n as int),
{
    let mag: u64 = if n < 0 {
        (-(n as i128)) as u64
    } else {
        n as u64
    };
    let whole = u64_to_string(mag / 10000);
    let frac = mag % 10000;
    let body = if frac == 0 {
        whole
    } else {
        whole.concat(".").concat(frac_text_x(frac).as_str())
    };
    let r = if n < 0 {
        "-".to_owned().concat(body.as_str())
    } else {
        body
    };
    proof {
        assert(r@ =~= num_text(n as int));
    }
    r
}

/// Renders a value as text.
pub fn to_text(v: &Value) -> (r: String)
    ensures
        r@ == text_of(val_model(*v)),
    decreases v,
{
    match v {
        Value::Num(n) => num_to_string(*n),
        Value::Text(s) => s.clone(),
        Value::Truth(b) => {
            if *b {
                "true".to_owned()
            } else {
                "false".to_owned()
            }
        },
        Value::Undef => "undefined".to_owned(),
        Value::Func(_) => "<function>".to_owned(),
        Value::ListV(items) => {
            let mut body: String = String::new();
            let mut k: usize = 0;
            proof {
                assert(list_models(*items).take(0) =~= Seq::<ValModel>::empty());
            }
            while k < items.len()
                invariant
                    k <= items@.len(),
                    *v == Value::ListV(*items),
                    body@ == list_items_text(list_models(*items).take(k as int)),
                decreases items@.len() - k,
            {
                proof {
                    assert(decreases_to!(*v => (*v)->ListV_0));
                    assert(decreases_to!(*items => (*items)[k as int]));
                }
                let piece = to_text(&items[k]);
                if k == 0 {
                    body = piece;
                } else {
                    body = body.concat(", ").concat(piece.as_str());
                }
                proof {
                    let ms = list_models(*items);
                    assert(ms.take(k as int + 1).drop_last() =~= ms.take(k as int));
                    assert(ms.take(k as int + 1).last() == ms[k as int]);
                    if k == 0 {
                        assert(ms.take(1).len() == 1);
                        assert(body@ =~= list_items_text(ms.take(1)));
                    }
                }
                k = k + 1;
            }
            let r = "[".to_owned().concat(body.as_str()).concat("]");
            proof {
                let ms = list_models(*items);
                assert(ms.take(items@.len() as int) =~= ms);
                assert(r@ =~= text_of(val_model(*v)));
            }
            r
        },
    }
}

// ---------------------------------------------------------------------------
// Fixed-point arithmetic: exact models, truncation toward zero, explicit
// range failure instead of wrapping.
// ---------------------------------------------------------------------------

/// Integer division truncating toward zero (both operands nonzero-safe;
/// `d` must be positive or negative, never zero).
pub open spec fn tdiv(n: int, d: int) -> int {
    let mag = abs_i(n) / abs_i(d);
    if (n < 0) == (d < 0) {
        mag
    } else {
        -mag
    }
}

pub open spec fn abs_i(n: int) -> int {
    if n < 0 {
        -n
    } else {
        n
    }
}

pub open spec fn in_i64(n: int) -> bool {
    -0x8000000000000000 <= n <= 0x7fffffffffffffff
}

/// The sum of two fixed-point numbers, if representable.
pub open spec fn fp_add(a: int, b: int) -> Option<int> {
    if in_i64(a + b) {
        Some(a + b)
    } else {
        None
    }
}

/// The difference of two fixed-point numbers, if representable.
pub open spec fn fp_sub(a: int, b: int) -> Option<int> {
    if in_i64(a - b) {
        Some(a - b)
    } else {
        None
    }
}

/// The product of two fixed-point numbers (truncating toward zero), if
/// representable.
pub open spec fn fp_mul(a: int, b: int) -> Option<int> {
    let r = tdiv(a * b, 10000);
    if in_i64(r) {
        Some(r)
    } else {
        None
    }
}

/// The quotient of two fixed-point numbers (truncating toward zero), if
/// the divisor is nonzero and the result representable.
pub open spec fn fp_div(a: int, b: int) -> Option<int> {
    if b == 0 {
        None
    } else {
        let r = tdiv(a * 10000, b);
        if in_i64(r) {
            Some(r)
        } else {
            None
        }
    }
}

/// The magnitude of `a` as unsigned.
fn mag_of(a: i64) -> (r: u64)
    ensures
        r as int == abs_i(a as int),
{
    if a < 0 {
        (-(a as i128)) as u64
    } else {
        a as u64
    }
}

fn fp_add_x(a: i64, b: i64) -> (r: Option<i64>)
    ensures
        match fp_add(a as int, b as int) {
            Some(v) => r matches Some(x) && x as int == v,
            None => r is None,
        },
{
    let t: i128 = a as i128 + b as i128;
    if -0x8000000000000000i128 <= t && t <= 0x7fffffffffffffffi128 {
        Some(t as i64)
    } else {
        None
    }
}

fn fp_sub_x(a: i64, b: i64) -> (r: Option<i64>)
    ensures
        match fp_sub(a as int, b as int) {
            Some(v) => r matches Some(x) && x as int == v,
            None => r is None,
        },
{
    let t: i128 = a as i128 - b as i128;
    if -0x8000000000000000i128 <= t && t <= 0x7fffffffffffffffi128 {
        Some(t as i64)
    } else {
        None
    }
}

fn fp_mul_x(a: i64, b: i64) -> (r: Option<i64>)
    ensures
        match fp_mul(a as int, b as int) {
            Some(v) => r matches Some(x) && x as int == v,
            None => r is None,
        },
{
    let ma = mag_of(a) as u128;
    let mb = mag_of(b) as u128;
    proof {
        assert((ma as int) * (mb as int) <= 0x8000000000000000 * 0x8000000000000000)
            by (nonlinear_arith)
            requires
                0 <= ma as int <= 0x8000000000000000,
                0 <= mb as int <= 0x8000000000000000,
        ;
        assert(abs_i((a as int) * (b as int)) == abs_i(a as int) * abs_i(b as int))
            by (nonlinear_arith);
        assert((a as int) * (b as int) < 0 ==> ((a < 0) != (b < 0))) by (nonlinear_arith);
        assert((a as int) * (b as int) > 0 ==> ((a < 0) == (b < 0))) by (nonlinear_arith);
    }
    let prod = ma * mb;
    let mag = prod / 10000;
    let neg = (a < 0) != (b < 0);
    if neg {
        if mag <= 0x8000000000000000u128 {
            Some((-(mag as i128)) as i64)
        } else {
            None
        }
    } else {
        if mag <= 0x7fffffffffffffffu128 {
            Some(mag as i64)
        } else {
            None
        }
    }
}

fn fp_div_x(a: i64, b: i64) -> (r: Option<i64>)
    ensures
        match fp_div(a as int, b as int) {
            Some(v) => r matches Some(x) && x as int == v,
            None => r is None,
        },
{
    if b == 0 {
        return None;
    }
    let ma = mag_of(a) as u128;
    let mb = mag_of(b) as u128;
    proof {
        assert((ma as int) * 10000 <= 0x8000000000000000 * 10000) by (nonlinear_arith)
            requires
                0 <= ma as int <= 0x8000000000000000,
        ;
        assert(abs_i((a as int) * 10000) == abs_i(a as int) * 10000) by (nonlinear_arith);
        assert((a as int) * 10000 < 0 <==> (a as int) < 0) by (nonlinear_arith);
        assert((a as int) * 10000 > 0 <==> (a as int) > 0) by (nonlinear_arith);
    }
    let prod = ma * 10000;
    let mag = prod / mb;
    let neg = (a < 0) != (b < 0);
    if neg {
        if mag <= 0x8000000000000000u128 {
            Some((-(mag as i128)) as i64)
        } else {
            None
        }
    } else {
        if mag <= 0x7fffffffffffffffu128 {
            Some(mag as i64)
        } else {
            None
        }
    }
}

/// The four arithmetic operations on fixed-point values, dispatched by a
/// tag so the evaluator has a single entry point. Returns `None` exactly
/// when the model says the operation is undefined or unrepresentable.
pub fn fp_arith(op: u8, a: i64, b: i64) -> (r: Option<i64>)
    requires
        op < 4,
    ensures
        match fp_result(op as int, a as int, b as int) {
            Some(v) => r matches Some(x) && x as int == v,
            None => r is None,
        },
{
    if op == 0 {
        fp_add_x(a, b)
    } else if op == 1 {
        fp_sub_x(a, b)
    } else if op == 2 {
        fp_mul_x(a, b)
    } else {
        fp_div_x(a, b)
    }
}

/// The model of `fp_arith`: 0 adds, 1 subtracts, 2 multiplies, 3 divides.
pub open spec fn fp_result(op: int, a: int, b: int) -> Option<int> {
    if op == 0 {
        fp_add(a, b)
    } else if op == 1 {
        fp_sub(a, b)
    } else if op == 2 {
        fp_mul(a, b)
    } else {
        fp_div(a, b)
    }
}

} // verus!
