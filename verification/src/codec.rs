//! The state serializer: externalizes an environment arena to bytes and
//! reads it back, for persistence between sessions. Never used during
//! evaluation.
//!
//! The format is self-describing: a two-byte magic and version header,
//! then the frame count and each frame (parent link, bindings); every
//! integer is eight bytes big-endian, every character four bytes.
//! Function values (live closures) are rejected with a
//! `SerializationError` rather than silently dropped; foreign or corrupt
//! input is rejected with a `SerializationError`, never misread.

use vstd::prelude::*;
use crate::diag::{Diagnostic, Phase, ErrKind};
use crate::value::{Value, ValModel, val_model, list_models, func_free};
use crate::env::{EnvArena, Frame, Binding, wf_frames};
use crate::strutil::{str_chars, chars_to_string};

verus! {

broadcast use vstd::std_specs::vec::axiom_vec_index_decreases, vstd::utf8::char_is_scalar, vstd::utf8::char_u32_cast;

// ---------------------------------------------------------------------------
// The model of an arena, and what is serializable.
// ---------------------------------------------------------------------------

/// The model of one binding.
pub struct BindingModel {
    pub name: Seq<char>,
    pub value: ValModel,
    pub mutable: bool,
}

/// The model of one frame.
pub struct FrameModel {
    pub parent: Option<int>,
    pub bindings: Seq<BindingModel>,
}

pub open spec fn binding_model(b: Binding) -> BindingModel {
    BindingModel { name: b.name@, value: val_model(b.value), mutable: b.mutable }
}

/// The models of a frame's bindings.
pub open spec fn bindings_model(bs: Seq<Binding>) -> Seq<BindingModel> {
    Seq::new(bs.len(), |i: int| binding_model(bs[i]))
}

pub open spec fn frame_model(fr: Frame) -> FrameModel {
    FrameModel {
        parent: match fr.parent {
            Some(p) => Some(p as int),
            None => None,
        },
        bindings: bindings_model(fr.bindings@),
    }
}

/// The observable content of an arena: frame by frame, binding by
/// binding — names, values, mutability, and the scope chain's shape.
pub open spec fn arena_model(frames: Seq<Frame>) -> Seq<FrameModel> {
    Seq::new(frames.len(), |i: int| frame_model(frames[i]))
}

/// An arena is serializable when no binding holds a function value.
pub open spec fn serializable(frames: Seq<Frame>) -> bool {
    forall|i: int, j: int|
        0 <= i < frames.len() && 0 <= j < frames[i].bindings@.len() ==> func_free(
            #[trigger] frames[i].bindings@[j].value,
        )
}

} // verus!

verus! {

/// Relies on std's char::from_u32: `Some` exactly for unicode scalar
/// values (not a surrogate, not above the maximum), and the returned
/// character has exactly the given scalar value.
pub assume_specification[ char::from_u32 ](u: u32) -> (r: Option<char>)
    ensures
        r matches Some(c) ==> c as u32 == u,
        (u < 0xD800 || (0xE000 <= u && u <= 0x10FFFF)) <==> r is Some,
;

/// A serialization-phase diagnostic (reported as part of evaluation).
fn sdiag(msg: &str) -> (d: Diagnostic)
    ensures
        d.kind == ErrKind::SerializationError,
        d.phase == Phase::Eval,
{
    Diagnostic::new(Phase::Eval, ErrKind::SerializationError, msg.to_owned(), 0, 0)
}

fn push_u64(out: &mut Vec<u8>, v: u64)
    ensures
        final(out)@ == old(out)@ + enc_u64s(v),
{
    out.push((v >> 56) as u8);
    out.push((v >> 48) as u8);
    out.push((v >> 40) as u8);
    out.push((v >> 32) as u8);
    out.push((v >> 24) as u8);
    out.push((v >> 16) as u8);
    out.push((v >> 8) as u8);
    out.push(v as u8);
    proof {
        assert(out@ =~= old(out)@ + enc_u64s(v));
    }
}

fn push_chars(out: &mut Vec<u8>, s: &str)
    ensures
        final(out)@ == old(out)@ + enc_chars_s(s@),
{
    let cs = str_chars(s);
    let mut k: usize = 0;
    proof {
        assert(cs@.take(0) =~= Seq::<char>::empty());
        assert(out@ =~= old(out)@ + enc_chars_s(cs@.take(0)));
    }
    while k < cs.len()
        invariant
            k <= cs@.len(),
            cs@ == s@,
            out@ == old(out)@ + enc_chars_s(cs@.take(k as int)),
        decreases cs@.len() - k,
    {
        let ghost before = out@;
        let u = cs[k] as u32;
        out.push((u >> 24) as u8);
        out.push((u >> 16) as u8);
        out.push((u >> 8) as u8);
        out.push(u as u8);
        proof {
            assert(out@ =~= before + enc_u32s(u));
            lemma_enc_chars_snoc(cs@, k as int);
            assert(out@ =~= old(out)@ + enc_chars_s(cs@.take(k as int + 1)));
        }
        k = k + 1;
    }
    proof {
        assert(cs@.take(cs@.len() as int) =~= cs@);
    }
}

/// Appends the encoding of one value — exactly the bytes the format's
/// model `enc_val_s` names — or reports the function value that makes
/// the value unserializable.
fn enc_value(out: &mut Vec<u8>, v: &Value) -> (r: Result<(), ()>)
    ensures
        r is Ok <==> func_free(*v),
        r is Ok ==> final(out)@ == old(out)@ + enc_val_s(val_model(*v)) && m_ok(val_model(*v)),
    decreases v,
{
    match v {
        Value::Undef => {
            out.push(0u8);
            proof {
                assert(out@ =~= old(out)@ + enc_val_s(val_model(*v)));
            }
            Ok(())
        },
        Value::Truth(b) => {
            if *b {
                out.push(2u8);
            } else {
                out.push(1u8);
            }
            proof {
                assert(out@ =~= old(out)@ + enc_val_s(val_model(*v)));
            }
            Ok(())
        },
        Value::Num(n) => {
            out.push(3u8);
            push_u64(out, *n as u64);
            proof {
                assert(*n as u64 == u64_of_num(n as int)) by {
                    if *n >= 0 {
                    } else {
                        assert(*n as u64 == (n + 0x10000000000000000) as u64) by (bit_vector);
                    }
                }
                assert(out@ =~= old(out)@ + enc_val_s(val_model(*v)));
            }
            Ok(())
        },
        Value::Text(s) => {
            out.push(4u8);
            let n = s.as_str().unicode_len();
            push_u64(out, n as u64);
            push_chars(out, s.as_str());
            proof {
                assert(out@ =~= old(out)@ + enc_val_s(val_model(*v)));
            }
            Ok(())
        },
        Value::ListV(items) => {
            out.push(5u8);
            push_u64(out, items.len() as u64);
            let ghost models = val_model(*v)->ListM_0;
            let ghost start = out@;
            let mut k: usize = 0;
            proof {
                assert(models.take(0) =~= Seq::<ValModel>::empty());
                assert(out@ =~= start + enc_vals_s(models.take(0)));
            }
            while k < items.len()
                invariant
                    k <= items@.len(),
                    *v == Value::ListV(*items),
                    models == val_model(*v)->ListM_0,
                    models.len() == items@.len(),
                    out@ == start + enc_vals_s(models.take(k as int)),
                    forall|m: int| 0 <= m < k ==> func_free(#[trigger] items@[m]),
                    forall|m: int| 0 <= m < k ==> m_ok(#[trigger] models[m]),
                decreases items@.len() - k,
            {
                proof {
                    assert(decreases_to!(*v => (*v)->ListV_0));
                    assert(decreases_to!(*items => (*items)[k as int]));
                }
                let ghost before = out@;
                match enc_value(out, &items[k]) {
                    Ok(()) => {
                        proof {
                            assert(models[k as int] == val_model(items@[k as int]));
                            lemma_enc_vals_snoc(models, k as int);
                            assert(out@ =~= start + enc_vals_s(models.take(k as int + 1)));
                        }
                    },
                    Err(()) => {
                        proof {
                            assert(!func_free(items@[k as int]));
                        }
                        return Err(());
                    },
                }
                k = k + 1;
            }
            proof {
                assert(models.take(models.len() as int) =~= models);
                assert(out@ =~= old(out)@ + enc_val_s(val_model(*v)));
            }
            Ok(())
        },
        Value::Func(_) => Err(()),
    }
}

/// Externalizes an environment arena: writes exactly the bytes the
/// format's model `enc_arena_s` names for the arena's model. Every
/// value variant round-trips except live closures: an arena holding any
/// function value is rejected with a `SerializationError`, exactly when
/// `serializable` says so, and nothing is silently dropped.
pub fn export(env: &EnvArena) -> (r: Result<Vec<u8>, Diagnostic>)
    requires
        wf_frames(env.frames@),
    ensures
        r is Ok <==> serializable(env.frames@),
        r matches Ok(b) ==> b@ == enc_arena_s(arena_model(env.frames@)) && arena_ok(
            arena_model(env.frames@),
        ),
        r matches Err(d) ==> d.kind == ErrKind::SerializationError,
{
    let ghost am = arena_model(env.frames@);
    let mut out: Vec<u8> = Vec::new();
    out.push(0xdbu8);
    out.push(0x01u8);
    push_u64(&mut out, env.frames.len() as u64);
    proof {
        assert(am.take(0) =~= Seq::<FrameModel>::empty());
        assert(out@ =~= seq![0xdbu8, 0x01u8] + enc_u64s(am.len() as u64) + enc_frames_s(
            am.take(0),
        ));
    }
    let mut i: usize = 0;
    while i < env.frames.len()
        invariant
            wf_frames(env.frames@),
            am == arena_model(env.frames@),
            am.len() == env.frames@.len(),
            i <= env.frames@.len(),
            out@ == seq![0xdbu8, 0x01u8] + enc_u64s(am.len() as u64) + enc_frames_s(
                am.take(i as int),
            ),
            forall|a: int, c: int|
                0 <= a < i && 0 <= c < env.frames@[a].bindings@.len() ==> func_free(
                    #[trigger] env.frames@[a].bindings@[c].value,
                ),
            forall|a: int| 0 <= a < i ==> fm_ok(#[trigger] am[a], a),
        decreases env.frames@.len() - i,
    {
        let fr = &env.frames[i];
        let ghost fm = am[i as int];
        let ghost frame_base = out@;
        match fr.parent {
            Some(p) => {
                out.push(1u8);
                push_u64(&mut out, p as u64);
            },
            None => {
                out.push(0u8);
            },
        }
        push_u64(&mut out, fr.bindings.len() as u64);
        let ghost hdr = out@;
        proof {
            assert(fm == frame_model(env.frames@[i as int]));
            assert(fm.bindings.take(0) =~= Seq::<BindingModel>::empty());
            assert(out@ =~= hdr + enc_bindings_s(fm.bindings.take(0)));
        }
        let mut j: usize = 0;
        while j < fr.bindings.len()
            invariant
                i < env.frames@.len(),
                *fr == env.frames@[i as int],
                fm == frame_model(env.frames@[i as int]),
                fm.bindings.len() == fr.bindings@.len(),
                j <= fr.bindings@.len(),
                out@ == hdr + enc_bindings_s(fm.bindings.take(j as int)),
                forall|c: int| 0 <= c < j ==> func_free(#[trigger] fr.bindings@[c].value),
                forall|c: int| 0 <= c < j ==> bm_ok(#[trigger] fm.bindings[c]),
            decreases fr.bindings@.len() - j,
        {
            let bd = &fr.bindings[j];
            let ghost bm = fm.bindings[j as int];
            let ghost bstart = out@;
            let n = bd.name.as_str().unicode_len();
            push_u64(&mut out, n as u64);
            push_chars(&mut out, bd.name.as_str());
            if bd.mutable {
                out.push(1u8);
            } else {
                out.push(0u8);
            }
            match enc_value(&mut out, &bd.value) {
                Ok(()) => {
                    proof {
                        assert(bm == binding_model(fr.bindings@[j as int]));
                        assert(out@ =~= bstart + enc_binding_s(bm));
                        lemma_enc_bindings_snoc(fm.bindings, j as int);
                        assert(out@ =~= hdr + enc_bindings_s(fm.bindings.take(j as int + 1)));
                    }
                },
                Err(()) => {
                    proof {
                        assert(!func_free(env.frames@[i as int].bindings@[j as int].value));
                    }
                    return Err(sdiag("a live closure cannot be serialized"));
                },
            }
            j = j + 1;
        }
        proof {
            assert(fm.bindings.take(fm.bindings.len() as int) =~= fm.bindings);
            assert(out@ =~= frame_base + enc_frame_s(fm));
            lemma_enc_frames_snoc(am, i as int);
            assert(out@ =~= seq![0xdbu8, 0x01u8] + enc_u64s(am.len() as u64) + enc_frames_s(
                am.take(i as int + 1),
            ));
            assert(fm_ok(am[i as int], i as int));
        }
        i = i + 1;
    }
    proof {
        assert(am.take(am.len() as int) =~= am);
    }
    Ok(out)
}

fn read_u64(b: &Vec<u8>, i: usize) -> (r: u64)
    requires
        i + 8 <= b@.len(),
    ensures
        r == dec_u64_at(b@, i as int),
{
    let n = b.len();
    proof {
        assert(i + 8 <= n);
    }
    ((b[i] as u64) << 56) | ((b[i + 1] as u64) << 48) | ((b[i + 2] as u64) << 40) | ((b[i + 3]
        as u64) << 32) | ((b[i + 4] as u64) << 24) | ((b[i + 5] as u64) << 16) | ((b[i + 6]
        as u64) << 8) | (b[i + 7] as u64)
}

/// Composes already-read characters with the model of the remainder.
pub open spec fn chars_compose(prefix: Seq<char>, rest: Option<(Seq<char>, int)>) -> Option<
    (Seq<char>, int),
> {
    match rest {
        Some(t) => Some((prefix + t.0, t.1)),
        None => None,
    }
}

/// Reads `count` characters of four bytes each: exactly what the
/// format's model `dec_chars_s` reads.
fn dec_chars(b: &Vec<u8>, i0: usize, count: u64) -> (r: Result<(String, usize), ()>)
    requires
        i0 <= b@.len(),
    ensures
        r matches Ok(t) ==> i0 <= t.1 <= b@.len(),
        match dec_chars_s(b@, i0 as int, count as nat) {
            Some(t) => r matches Ok(x) && x.0@ == t.0 && x.1 as int == t.1,
            None => r is Err,
        },
{
    let mut cs: Vec<char> = Vec::new();
    let mut i = i0;
    let mut k: u64 = 0;
    proof {
        assert(cs@ + dec_chars_s(b@, i as int, (count - k) as nat)->Some_0.0 =~= dec_chars_s(
            b@,
            i as int,
            (count - k) as nat,
        )->Some_0.0);
    }
    while k < count
        invariant
            i0 <= i <= b@.len(),
            k <= count,
            cs@.len() == k,
            dec_chars_s(b@, i0 as int, count as nat) == chars_compose(
                cs@,
                dec_chars_s(b@, i as int, (count - k) as nat),
            ),
        decreases count - k,
    {
        if b.len() - i < 4 {
            return Err(());
        }
        let u = ((b[i] as u32) << 24) | ((b[i + 1] as u32) << 16) | ((b[i + 2] as u32) << 8) | (b[i
            + 3] as u32);
        proof {
            assert(u == dec_u32_at(b@, i as int));
        }
        let ghost before = cs@;
        match char::from_u32(u) {
            Some(c) => {
                cs.push(c);
                proof {
                    vstd::utf8::char_u32_cast(c, u);
                    assert((u as char) == c);
                    let rest = dec_chars_s(b@, i as int + 4, (count - k - 1) as nat);
                    match rest {
                        Some(t) => {
                            assert(before + (seq![c] + t.0) =~= cs@ + t.0);
                        },
                        None => {},
                    }
                }
            },
            None => {
                return Err(());
            },
        }
        i = i + 4;
        k = k + 1;
    }
    proof {
        assert(dec_chars_s(b@, i as int, 0) == Some((Seq::<char>::empty(), i as int)));
        assert(cs@ + Seq::<char>::empty() =~= cs@);
    }
    Ok((chars_to_string(&cs), i))
}

/// Composes already-read element models with the model of the remainder.
pub open spec fn vals_compose(prefix: Seq<ValModel>, rest: Option<(Seq<ValModel>, int)>) -> Option<
    (Seq<ValModel>, int),
> {
    match rest {
        Some(t) => Some((prefix + t.0, t.1)),
        None => None,
    }
}

/// Reads one value starting at `i0`: exactly the value (model for
/// model) and end position that the format's model `dec_val_s` names,
/// failing exactly when it does.
fn dec_value(b: &Vec<u8>, i0: usize) -> (r: Result<(Value, usize), ()>)
    requires
        i0 <= b@.len(),
    ensures
        r matches Ok(t) ==> i0 < t.1 <= b@.len() && func_free(t.0),
        match dec_val_s(b@, i0 as int) {
            Some(t) => r matches Ok(x) && val_model(x.0) == t.0 && x.1 as int == t.1,
            None => r is Err,
        },
    decreases b@.len() - i0,
{
    if i0 >= b.len() {
        return Err(());
    }
    let tag = b[i0];
    if tag == 0 {
        Ok((Value::Undef, i0 + 1))
    } else if tag == 1 {
        Ok((Value::Truth(false), i0 + 1))
    } else if tag == 2 {
        Ok((Value::Truth(true), i0 + 1))
    } else if tag == 3 {
        if b.len() - i0 < 9 {
            return Err(());
        }
        let raw = read_u64(b, i0 + 1);
        let v: i64 = if raw < 0x8000000000000000 {
            raw as i64
        } else {
            -((0xffffffffffffffffu64 - raw) as i64) - 1
        };
        proof {
            assert(v as int == num_of_u64(raw));
        }
        Ok((Value::Num(v), i0 + 9))
    } else if tag == 4 {
        if b.len() - i0 < 9 {
            return Err(());
        }
        let n = read_u64(b, i0 + 1);
        match dec_chars(b, i0 + 9, n) {
            Ok((s, j)) => Ok((Value::Text(s), j)),
            Err(()) => Err(()),
        }
    } else if tag == 5 {
        if b.len() - i0 < 9 {
            return Err(());
        }
        let n = read_u64(b, i0 + 1);
        let mut items: Vec<Value> = Vec::new();
        let mut i = i0 + 9;
        let mut k: u64 = 0;
        proof {
            assert(list_models(items) =~= Seq::<ValModel>::empty());
            assert(list_models(items) + dec_vals_s(b@, i as int, (n - k) as nat)->Some_0.0
                =~= dec_vals_s(b@, i as int, (n - k) as nat)->Some_0.0);
        }
        while k < n
            invariant
                i0 + 9 <= i <= b@.len(),
                i0 < b@.len(),
                b@[i0 as int] == 5u8,
                n == dec_u64_at(b@, i0 as int + 1),
                k <= n,
                items@.len() == k,
                forall|m: int| 0 <= m < items@.len() ==> func_free(#[trigger] items@[m]),
                dec_vals_s(b@, i0 as int + 9, n as nat) == vals_compose(
                    list_models(items),
                    dec_vals_s(b@, i as int, (n - k) as nat),
                ),
            decreases n - k,
        {
            let ghost before = items;
            match dec_value(b, i) {
                Ok((v, j)) => {
                    items.push(v);
                    proof {
                        assert(list_models(items) =~= list_models(before).push(val_model(v)));
                        let rest = dec_vals_s(b@, j as int, (n - k - 1) as nat);
                        match rest {
                            Some(t) => {
                                assert(list_models(before) + (seq![val_model(v)] + t.0)
                                    =~= list_models(items) + t.0);
                            },
                            None => {},
                        }
                    }
                    i = j;
                },
                Err(()) => {
                    return Err(());
                },
            }
            k = k + 1;
        }
        proof {
            assert(dec_vals_s(b@, i as int, 0) == Some((Seq::<ValModel>::empty(), i as int)));
            assert(list_models(items) + Seq::<ValModel>::empty() =~= list_models(items));
        }
        Ok((Value::ListV(items), i))
    } else {
        Err(())
    }
}

/// Internalizes an environment arena: accepts exactly the byte strings
/// the format's model `dec_arena_s` accepts, and returns an arena whose
/// model is exactly what the model decodes. Foreign or corrupt input is
/// rejected with a `SerializationError` diagnostic; an accepted arena
/// is well formed (each parent link points strictly downward, so the
/// result is immediately usable as a scope chain) and holds no closure.
pub fn import(bytes: &Vec<u8>) -> (r: Result<EnvArena, Diagnostic>)
    ensures
        match dec_arena_s(bytes@) {
            Some(fs) => r matches Ok(a) && arena_model(a.frames@) == fs && wf_frames(a.frames@)
                && serializable(a.frames@),
            None => r matches Err(d) && d.kind == ErrKind::SerializationError,
        },
{
    if bytes.len() < 10 {
        return Err(sdiag("input too short"));
    }
    if !(bytes[0] == 0xdbu8 && bytes[1] == 0x01u8) {
        return Err(sdiag("unrecognized header"));
    }
    let nframes = read_u64(bytes, 2);
    let mut frames: Vec<Frame> = Vec::new();
    let mut i: usize = 10;
    let mut fi: u64 = 0;
    proof {
        assert(arena_model(frames@) =~= Seq::<FrameModel>::empty());
        assert(arena_model(frames@) + dec_frames_s(bytes@, 10, nframes as nat, 0)->Some_0.0
            =~= dec_frames_s(bytes@, 10, nframes as nat, 0)->Some_0.0);
    }
    while fi < nframes
        invariant
            bytes@.len() >= 10,
            bytes@[0] == 0xdbu8,
            bytes@[1] == 0x01u8,
            nframes == dec_u64_at(bytes@, 2),
            10 <= i <= bytes@.len(),
            frames@.len() == fi,
            fi <= nframes,
            wf_frames(frames@),
            serializable(frames@),
            dec_frames_s(bytes@, 10, nframes as nat, 0) == frames_compose(
                arena_model(frames@),
                dec_frames_s(bytes@, i as int, (nframes - fi) as nat, fi as int),
            ),
        decreases nframes - fi,
    {
        let ghost fstart = i;
        let frames_so_far = frames.len();
        if i >= bytes.len() {
            return Err(sdiag("truncated frame header"));
        }
        let ptag = bytes[i];
        let parent: Option<usize>;
        if ptag == 1 {
            if bytes.len() - i < 9 {
                return Err(sdiag("truncated parent link"));
            }
            let p = read_u64(bytes, i + 1);
            if !(p < fi) {
                return Err(sdiag("parent link does not point downward"));
            }
            proof {
                assert(p as int <= frames_so_far as int);
            }
            parent = Some(p as usize);
            i = i + 9;
        } else if ptag == 0 {
            parent = None;
            i = i + 1;
        } else {
            return Err(sdiag("unrecognized parent tag"));
        }
        let ghost pm: Option<int> = match parent {
            Some(pp) => Some(pp as int),
            None => None,
        };
        let ghost h = i;
        if bytes.len() - i < 8 {
            return Err(sdiag("truncated binding count"));
        }
        let nbind = read_u64(bytes, i);
        i = i + 8;
        let ghost bstart = i;
        let mut bindings: Vec<Binding> = Vec::new();
        let mut bi: u64 = 0;
        proof {
            assert(bindings_model(bindings@) =~= Seq::<BindingModel>::empty());
            assert(bindings_model(bindings@) + dec_bindings_s(
                bytes@,
                bstart as int,
                nbind as nat,
            )->Some_0.0 =~= dec_bindings_s(bytes@, bstart as int, nbind as nat)->Some_0.0);
        }
        while bi < nbind
            invariant
                bytes@.len() >= 10,
                bytes@[0] == 0xdbu8,
                bytes@[1] == 0x01u8,
                nframes == dec_u64_at(bytes@, 2),
                frames@.len() == fi,
                fi < nframes,
                wf_frames(frames@),
                serializable(frames@),
                dec_frames_s(bytes@, 10, nframes as nat, 0) == frames_compose(
                    arena_model(frames@),
                    dec_frames_s(bytes@, fstart as int, (nframes - fi) as nat, fi as int),
                ),
                10 <= fstart < bytes@.len(),
                (bytes@[fstart as int] == 1u8 && fstart + 9 <= bytes@.len() && (dec_u64_at(
                    bytes@,
                    fstart as int + 1,
                ) as int) < fi as int && pm == Some(dec_u64_at(bytes@, fstart as int + 1) as int)
                    && h == fstart + 9) || (bytes@[fstart as int] == 0u8 && pm
                    == Option::<int>::None && h == fstart + 1),
                (parent matches Some(p) ==> pm == Some(p as int)),
                (parent is None ==> pm is None),
                h + 8 <= bytes@.len(),
                nbind == dec_u64_at(bytes@, h as int),
                bstart == h + 8,
                bstart <= i <= bytes@.len(),
                bi <= nbind,
                bindings@.len() == bi,
                forall|m: int|
                    0 <= m < bindings@.len() ==> func_free(#[trigger] bindings@[m].value),
                dec_bindings_s(bytes@, bstart as int, nbind as nat) == bindings_compose(
                    bindings_model(bindings@),
                    dec_bindings_s(bytes@, i as int, (nbind - bi) as nat),
                ),
            decreases nbind - bi,
        {
            if bytes.len() - i < 8 {
                return Err(sdiag("truncated name length"));
            }
            let nlen = read_u64(bytes, i);
            let (name, j) = match dec_chars(bytes, i + 8, nlen) {
                Ok(t) => t,
                Err(()) => {
                    return Err(sdiag("malformed name"));
                },
            };
            if j >= bytes.len() {
                return Err(sdiag("truncated mutability flag"));
            }
            let mutable = bytes[j] == 1u8;
            if !(bytes[j] == 0u8 || bytes[j] == 1u8) {
                return Err(sdiag("unrecognized mutability flag"));
            }
            let (value, j2) = match dec_value(bytes, j + 1) {
                Ok(t) => t,
                Err(()) => {
                    return Err(sdiag("malformed value"));
                },
            };
            let ghost before = bindings@;
            let ghost bm = dec_binding_s(bytes@, i as int)->Some_0.0;
            bindings.push(Binding { name, value, mutable });
            proof {
                assert(dec_binding_s(bytes@, i as int) == Some(
                    (binding_model(bindings@[bi as int]), j2 as int),
                ));
                assert(bindings_model(bindings@) =~= bindings_model(before).push(
                    binding_model(bindings@[bi as int]),
                ));
                let rest = dec_bindings_s(bytes@, j2 as int, (nbind - bi - 1) as nat);
                match rest {
                    Some(t) => {
                        assert(bindings_model(before) + (seq![
                            binding_model(bindings@[bi as int]),
                        ] + t.0) =~= bindings_model(bindings@) + t.0);
                    },
                    None => {},
                }
            }
            i = j2;
            bi = bi + 1;
        }
        let ghost before_frames = frames@;
        frames.push(Frame { parent, bindings });
        proof {
            assert(dec_bindings_s(bytes@, i as int, 0) == Some(
                (Seq::<BindingModel>::empty(), i as int),
            ));
            assert(bindings_model(frames@[fi as int].bindings@) + Seq::<BindingModel>::empty()
                =~= bindings_model(frames@[fi as int].bindings@));
            assert(dec_frame_s(bytes@, fstart as int, fi as int) == Some(
                (frame_model(frames@[fi as int]), i as int),
            ));
            assert(arena_model(frames@) =~= arena_model(before_frames).push(
                frame_model(frames@[fi as int]),
            ));
            let rest = dec_frames_s(bytes@, i as int, (nframes - fi - 1) as nat, fi as int + 1);
            match rest {
                Some(t) => {
                    assert(arena_model(before_frames) + (seq![
                        frame_model(frames@[fi as int]),
                    ] + t.0) =~= arena_model(frames@) + t.0);
                },
                None => {},
            }
        }
        fi = fi + 1;
    }
    proof {
        assert(dec_frames_s(bytes@, i as int, 0, fi as int) == Some(
            (Seq::<FrameModel>::empty(), i as int),
        ));
        assert(arena_model(frames@) + Seq::<FrameModel>::empty() =~= arena_model(frames@));
    }
    if i != bytes.len() {
        return Err(sdiag("trailing bytes after the arena"));
    }
    Ok(EnvArena { frames })
}

} // verus!

// ---------------------------------------------------------------------------
// The byte-level model of the format, and the round-trip law: decoding
// an encoding yields exactly the value that was encoded.
// ---------------------------------------------------------------------------

verus! {

/// A unicode scalar value: what `char::from_u32` accepts.
pub open spec fn valid_scalar(u: u32) -> bool {
    u < 0xD800 || (0xE000 <= u && u <= 0x10FFFF)
}

/// Eight big-endian bytes.
pub open spec fn enc_u64s(v: u64) -> Seq<u8> {
    seq![
        (v >> 56) as u8,
        (v >> 48) as u8,
        (v >> 40) as u8,
        (v >> 32) as u8,
        (v >> 24) as u8,
        (v >> 16) as u8,
        (v >> 8) as u8,
        v as u8,
    ]
}

/// The value of eight big-endian bytes at `i`.
pub open spec fn dec_u64_at(b: Seq<u8>, i: int) -> u64
    recommends
        0 <= i,
        i + 8 <= b.len(),
{
    (((b[i] as u64) << 56) | ((b[i + 1] as u64) << 48) | ((b[i + 2] as u64) << 40) | ((b[i + 3]
        as u64) << 32) | ((b[i + 4] as u64) << 24) | ((b[i + 5] as u64) << 16) | ((b[i + 6]
        as u64) << 8) | (b[i + 7] as u64))
}

pub proof fn lemma_dec_u64_at(b: Seq<u8>, i: int, v: u64)
    requires
        0 <= i,
        i + 8 <= b.len(),
        b.subrange(i, i + 8) == enc_u64s(v),
    ensures
        dec_u64_at(b, i) == v,
{
    assert forall|k: int| 0 <= k < 8 implies b[i + k] == enc_u64s(v)[k] by {
        assert(b.subrange(i, i + 8)[k] == b[i + k]);
    }
    assert((((((v >> 56) as u8) as u64) << 56) | ((((v >> 48) as u8) as u64) << 48) | ((((v >> 40)
        as u8) as u64) << 40) | ((((v >> 32) as u8) as u64) << 32) | ((((v >> 24) as u8) as u64)
        << 24) | ((((v >> 16) as u8) as u64) << 16) | ((((v >> 8) as u8) as u64) << 8) | ((v
        as u8) as u64)) == v) by (bit_vector);
}

/// Four big-endian bytes.
pub open spec fn enc_u32s(u: u32) -> Seq<u8> {
    seq![(u >> 24) as u8, (u >> 16) as u8, (u >> 8) as u8, u as u8]
}

/// The value of four big-endian bytes at `i`.
pub open spec fn dec_u32_at(b: Seq<u8>, i: int) -> u32
    recommends
        0 <= i,
        i + 4 <= b.len(),
{
    (((b[i] as u32) << 24) | ((b[i + 1] as u32) << 16) | ((b[i + 2] as u32) << 8) | (b[i + 3]
        as u32))
}

pub proof fn lemma_dec_u32_at(b: Seq<u8>, i: int, u: u32)
    requires
        0 <= i,
        i + 4 <= b.len(),
        b.subrange(i, i + 4) == enc_u32s(u),
    ensures
        dec_u32_at(b, i) == u,
{
    assert forall|k: int| 0 <= k < 4 implies b[i + k] == enc_u32s(u)[k] by {
        assert(b.subrange(i, i + 4)[k] == b[i + k]);
    }
    assert((((((u >> 24) as u8) as u32) << 24) | ((((u >> 16) as u8) as u32) << 16) | ((((u >> 8)
        as u8) as u32) << 8) | ((u as u8) as u32)) == u) by (bit_vector);
}

/// Characters, four bytes each.
pub open spec fn enc_chars_s(s: Seq<char>) -> Seq<u8>
    decreases s.len(),
{
    if s.len() == 0 {
        Seq::empty()
    } else {
        enc_u32s(s[0] as u32) + enc_chars_s(s.subrange(1, s.len() as int))
    }
}

pub proof fn lemma_enc_chars_len(s: Seq<char>)
    ensures
        enc_chars_s(s).len() == 4 * s.len(),
    decreases s.len(),
{
    if s.len() > 0 {
        lemma_enc_chars_len(s.subrange(1, s.len() as int));
    }
}

/// Reads `count` characters of four bytes each starting at `i`.
pub open spec fn dec_chars_s(b: Seq<u8>, i: int, count: nat) -> Option<(Seq<char>, int)>
    decreases count,
{
    if count == 0 {
        Some((Seq::empty(), i))
    } else if 0 <= i && i + 4 <= b.len() {
        let u = dec_u32_at(b, i);
        if valid_scalar(u) {
            match dec_chars_s(b, i + 4, (count - 1) as nat) {
                Some((s, j)) => Some((seq![u as char] + s, j)),
                None => None,
            }
        } else {
            None
        }
    } else {
        None
    }
}

#[verifier::rlimit(50)]
pub proof fn lemma_chars_round_trip(b: Seq<u8>, i: int, s: Seq<char>)
    requires
        0 <= i,
        i + 4 * s.len() <= b.len(),
        b.subrange(i, i + 4 * s.len()) == enc_chars_s(s),
    ensures
        dec_chars_s(b, i, s.len()) == Some((s, i + 4 * s.len())),
    decreases s.len(),
{
    lemma_enc_chars_len(s);
    if s.len() == 0 {
        assert(s =~= Seq::<char>::empty());
    } else {
        let tail = s.subrange(1, s.len() as int);
        lemma_enc_chars_len(tail);
        let c0: char = s[0];
        let head = c0 as u32;
        assert(b.subrange(i, i + 4) =~= enc_u32s(head)) by {
            assert forall|k: int| #![trigger b.subrange(i, i + 4)[k]] 0 <= k < 4 implies b.subrange(i, i + 4)[k] == enc_u32s(head)[k]
                by {
                assert(b[i + k] == b.subrange(i, i + 4 * s.len())[k]);
                assert(enc_chars_s(s)[k] == (enc_u32s(head) + enc_chars_s(tail))[k]);
            }
        }
        lemma_dec_u32_at(b, i, head);
        vstd::utf8::char_is_scalar(c0);
        assert(valid_scalar(head));
        vstd::utf8::char_u32_cast(c0, head);
        assert((head as char) == s[0]);
        assert(b.subrange(i + 4, i + 4 + 4 * tail.len()) =~= enc_chars_s(tail)) by {
            assert forall|k: int| #![trigger b.subrange(i + 4, i + 4 + 4 * tail.len())[k]] 0 <= k < 4 * tail.len() implies b.subrange(
                i + 4,
                i + 4 + 4 * tail.len(),
            )[k] == enc_chars_s(tail)[k] by {
                assert(b[i + 4 + k] == b.subrange(i, i + 4 * s.len())[4 + k]);
                assert(enc_chars_s(s)[4 + k] == (enc_u32s(head) + enc_chars_s(tail))[4 + k]);
            }
        }
        lemma_chars_round_trip(b, i + 4, tail);
        assert(seq![s[0]] + tail =~= s);
    }
}

/// A model the format can represent faithfully: numbers fit the
/// machine's signed word, lengths fit the length field, and no function
/// value appears. Every value `export` accepts satisfies this.
pub open spec fn m_ok(m: ValModel) -> bool
    decreases m,
    via m_ok_dec
{
    match m {
        ValModel::Num(n) => -0x8000000000000000 <= n <= 0x7fffffffffffffff,
        ValModel::Text(s) => s.len() < 0x10000000000000000,
        ValModel::Truth(_) => true,
        ValModel::Undef => true,
        ValModel::FuncM(_) => false,
        ValModel::ListM(items) => items.len() < 0x10000000000000000 && (forall|k: int|
            0 <= k < items.len() ==> m_ok(#[trigger] items[k])),
    }
}

#[via_fn]
proof fn m_ok_dec(m: ValModel) {
    match m {
        ValModel::ListM(items) => {
            assert forall|k: int| 0 <= k < items.len() implies decreases_to!(m => items[k]) by {
                assert(decreases_to!(m => m->ListM_0));
                assert(decreases_to!(items => items[k]));
            }
        },
        _ => (),
    }
}

/// The unsigned word holding a signed number's two's-complement form.
pub open spec fn u64_of_num(n: int) -> u64
    recommends
        -0x8000000000000000 <= n <= 0x7fffffffffffffff,
{
    if n >= 0 {
        n as u64
    } else {
        (n + 0x10000000000000000) as u64
    }
}

/// The signed number a two's-complement word holds.
pub open spec fn num_of_u64(v: u64) -> int {
    if v < 0x8000000000000000 {
        v as int
    } else {
        v as int - 0x10000000000000000
    }
}

/// The encoding of one value.
pub open spec fn enc_val_s(m: ValModel) -> Seq<u8>
    decreases m, 0nat,
    via enc_val_dec
{
    match m {
        ValModel::Undef => seq![0u8],
        ValModel::Truth(t) => if t {
            seq![2u8]
        } else {
            seq![1u8]
        },
        ValModel::Num(n) => seq![3u8] + enc_u64s(u64_of_num(n)),
        ValModel::Text(s) => seq![4u8] + enc_u64s(s.len() as u64) + enc_chars_s(s),
        ValModel::ListM(items) => seq![5u8] + enc_u64s(items.len() as u64) + enc_vals_s(items),
        ValModel::FuncM(_) => seq![6u8],
    }
}

/// The concatenated encodings of a sequence of values.
pub open spec fn enc_vals_s(items: Seq<ValModel>) -> Seq<u8>
    decreases items, 1nat,
    via enc_vals_dec
{
    if items.len() == 0 {
        Seq::empty()
    } else {
        enc_val_s(items[0]) + enc_vals_s(items.subrange(1, items.len() as int))
    }
}

#[via_fn]
proof fn enc_val_dec(m: ValModel) {
    match m {
        ValModel::ListM(items) => {
            assert(decreases_to!(m => m->ListM_0));
        },
        _ => (),
    }
}

#[via_fn]
proof fn enc_vals_dec(items: Seq<ValModel>) {
    if items.len() > 0 {
        assert(decreases_to!(items => items[0]));
        assert(decreases_to!(items => items.subrange(1, items.len() as int)));
    }
}

/// Reads one value starting at `i`.
pub open spec fn dec_val_s(b: Seq<u8>, i: int) -> Option<(ValModel, int)>
    decreases b.len() - i, 0nat, 0nat,
{
    if !(0 <= i < b.len()) {
        None
    } else {
        let t = b[i];
        if t == 0 {
            Some((ValModel::Undef, i + 1))
        } else if t == 1 {
            Some((ValModel::Truth(false), i + 1))
        } else if t == 2 {
            Some((ValModel::Truth(true), i + 1))
        } else if t == 3 {
            if i + 9 <= b.len() {
                Some((ValModel::Num(num_of_u64(dec_u64_at(b, i + 1))), i + 9))
            } else {
                None
            }
        } else if t == 4 {
            if i + 9 <= b.len() {
                match dec_chars_s(b, i + 9, dec_u64_at(b, i + 1) as nat) {
                    Some((s, j)) => if j <= b.len() {
                        Some((ValModel::Text(s), j))
                    } else {
                        None
                    },
                    None => None,
                }
            } else {
                None
            }
        } else if t == 5 {
            if i + 9 <= b.len() {
                match dec_vals_s(b, i + 9, dec_u64_at(b, i + 1) as nat) {
                    Some((items, j)) => Some((ValModel::ListM(items), j)),
                    None => None,
                }
            } else {
                None
            }
        } else {
            None
        }
    }
}

/// Reads `count` values starting at `i`.
pub open spec fn dec_vals_s(b: Seq<u8>, i: int, count: nat) -> Option<(Seq<ValModel>, int)>
    decreases b.len() - i, count, 1nat,
{
    if count == 0 {
        Some((Seq::empty(), i))
    } else if 0 <= i <= b.len() {
        match dec_val_s(b, i) {
            Some((m, j)) => if i < j <= b.len() {
                match dec_vals_s(b, j, (count - 1) as nat) {
                    Some((rest, j2)) => Some((seq![m] + rest, j2)),
                    None => None,
                }
            } else {
                None
            },
            None => None,
        }
    } else {
        None
    }
}

/// The round-trip law at the value layer: wherever a representable
/// value's encoding sits in a byte sequence, decoding from its start
/// yields exactly that value and stops exactly past it. Together with
/// `lemma_vals_round_trip` this is the heart of `import(export(...))`:
/// nothing is lost or altered between a value and its bytes.
#[verifier::rlimit(50)]
pub proof fn lemma_value_round_trip(b: Seq<u8>, i: int, m: ValModel)
    requires
        m_ok(m),
        0 <= i,
        i + enc_val_s(m).len() <= b.len(),
        b.subrange(i, i + enc_val_s(m).len() as int) == enc_val_s(m),
    ensures
        dec_val_s(b, i) == Some((m, i + enc_val_s(m).len() as int)),
    decreases m, 0nat,
{
    let e = enc_val_s(m);
    assert(b[i] == e[0]) by {
        assert(b.subrange(i, i + e.len() as int)[0] == b[i]);
    }
    match m {
        ValModel::Undef => {},
        ValModel::Truth(_) => {},
        ValModel::Num(n) => {
            assert(b.subrange(i + 1, i + 9) =~= enc_u64s(u64_of_num(n))) by {
                assert forall|k: int| #![trigger b.subrange(i + 1, i + 9)[k]] 0 <= k < 8 implies b.subrange(i + 1, i + 9)[k] == enc_u64s(
                    u64_of_num(n),
                )[k] by {
                    assert(b[i + 1 + k] == b.subrange(i, i + e.len() as int)[1 + k]);
                }
            }
            lemma_dec_u64_at(b, i + 1, u64_of_num(n));
            assert(num_of_u64(u64_of_num(n)) == n);
            assert(dec_val_s(b, i) == Some((m, i + enc_val_s(m).len() as int)));
        },
        ValModel::Text(s) => {
            lemma_enc_chars_len(s);
            assert(b.subrange(i + 1, i + 9) =~= enc_u64s(s.len() as u64)) by {
                assert forall|k: int| #![trigger b.subrange(i + 1, i + 9)[k]] 0 <= k < 8 implies b.subrange(i + 1, i + 9)[k] == enc_u64s(
                    s.len() as u64,
                )[k] by {
                    assert(b[i + 1 + k] == b.subrange(i, i + e.len() as int)[1 + k]);
                }
            }
            lemma_dec_u64_at(b, i + 1, s.len() as u64);
            assert(b.subrange(i + 9, i + 9 + 4 * s.len()) =~= enc_chars_s(s)) by {
                assert forall|k: int| #![trigger b.subrange(i + 9, i + 9 + 4 * s.len())[k]] 0 <= k < 4 * s.len() implies b.subrange(
                    i + 9,
                    i + 9 + 4 * s.len(),
                )[k] == enc_chars_s(s)[k] by {
                    assert(b[i + 9 + k] == b.subrange(i, i + e.len() as int)[9 + k]);
                    assert(e[9 + k] == enc_chars_s(s)[k]);
                }
            }
            lemma_chars_round_trip(b, i + 9, s);
            assert(dec_val_s(b, i) == Some((m, i + enc_val_s(m).len() as int)));
        },
        ValModel::ListM(items) => {
            assert(b.subrange(i + 1, i + 9) =~= enc_u64s(items.len() as u64)) by {
                assert forall|k: int| #![trigger b.subrange(i + 1, i + 9)[k]] 0 <= k < 8 implies b.subrange(i + 1, i + 9)[k] == enc_u64s(
                    items.len() as u64,
                )[k] by {
                    assert(b[i + 1 + k] == b.subrange(i, i + e.len() as int)[1 + k]);
                }
            }
            lemma_dec_u64_at(b, i + 1, items.len() as u64);
            assert(b.subrange(i + 9, i + 9 + enc_vals_s(items).len()) =~= enc_vals_s(items)) by {
                assert forall|k: int| #![trigger b.subrange(i + 9, i + 9 + enc_vals_s(items).len())[k]] 0 <= k < enc_vals_s(items).len() implies b.subrange(
                    i + 9,
                    i + 9 + enc_vals_s(items).len(),
                )[k] == enc_vals_s(items)[k] by {
                    assert(b[i + 9 + k] == b.subrange(i, i + e.len() as int)[9 + k]);
                    assert(e[9 + k] == enc_vals_s(items)[k]);
                }
            }
            lemma_vals_round_trip(b, i + 9, items);
            assert(dec_val_s(b, i) == Some((m, i + enc_val_s(m).len() as int)));
        },
        ValModel::FuncM(_) => {},
    }
}

/// The round-trip law for a run of encoded values.
#[verifier::rlimit(50)]
pub proof fn lemma_vals_round_trip(b: Seq<u8>, i: int, items: Seq<ValModel>)
    requires
        forall|k: int| 0 <= k < items.len() ==> m_ok(#[trigger] items[k]),
        0 <= i,
        i + enc_vals_s(items).len() <= b.len(),
        b.subrange(i, i + enc_vals_s(items).len() as int) == enc_vals_s(items),
    ensures
        dec_vals_s(b, i, items.len()) == Some((items, i + enc_vals_s(items).len() as int)),
    decreases items, 1nat,
{
    if items.len() == 0 {
        assert(items =~= Seq::<ValModel>::empty());
    } else {
        let head = items[0];
        let tail = items.subrange(1, items.len() as int);
        let eh = enc_val_s(head);
        let et = enc_vals_s(tail);
        lemma_enc_val_len_pos(head);
        assert(b.subrange(i, i + eh.len() as int) =~= eh) by {
            assert forall|k: int| #![trigger b.subrange(i, i + eh.len() as int)[k]] 0 <= k < eh.len() implies b.subrange(i, i + eh.len() as int)[k]
                == eh[k] by {
                assert(b[i + k] == b.subrange(i, i + enc_vals_s(items).len() as int)[k]);
                assert(enc_vals_s(items)[k] == (eh + et)[k]);
            }
        }
        lemma_value_round_trip(b, i, head);
        assert(b.subrange(i + eh.len(), i + eh.len() + et.len()) =~= et) by {
            assert forall|k: int| #![trigger b.subrange(i + eh.len(), i + eh.len() + et.len())[k]] 0 <= k < et.len() implies b.subrange(
                i + eh.len(),
                i + eh.len() + et.len(),
            )[k] == et[k] by {
                assert(b[i + eh.len() + k] == b.subrange(
                    i,
                    i + enc_vals_s(items).len() as int,
                )[eh.len() + k]);
                assert(enc_vals_s(items)[eh.len() + k] == (eh + et)[eh.len() + k]);
            }
        }
        lemma_vals_round_trip(b, i + eh.len() as int, tail);
        assert(seq![head] + tail =~= items);
    }
}

/// Every encoding is at least one byte (its tag).
pub proof fn lemma_enc_val_len_pos(m: ValModel)
    ensures
        enc_val_s(m).len() >= 1,
{
}

} // verus!

verus! {

/// Extending the encoded prefix by one character appends that
/// character's four bytes.
pub proof fn lemma_enc_chars_snoc(s: Seq<char>, k: int)
    requires
        0 <= k < s.len(),
    ensures
        enc_chars_s(s.take(k + 1)) == enc_chars_s(s.take(k)) + enc_u32s(s[k] as u32),
    decreases k,
{
    if k == 0 {
        assert(s.take(0) =~= Seq::<char>::empty());
        assert(s.take(1).subrange(1, 1) =~= Seq::<char>::empty());
        assert(enc_chars_s(s.take(1)) =~= enc_chars_s(s.take(0)) + enc_u32s(s[0] as u32));
    } else {
        let t = s.subrange(1, s.len() as int);
        lemma_enc_chars_snoc(t, k - 1);
        assert(s.take(k + 1).subrange(1, k + 1) =~= t.take(k));
        assert(s.take(k).subrange(1, k) =~= t.take(k - 1));
        assert(t[k - 1] == s[k]);
        assert(s.take(k + 1)[0] == s[0]);
        assert(s.take(k)[0] == s[0]);
        assert(enc_u32s(s[0] as u32) + (enc_chars_s(t.take(k - 1)) + enc_u32s(s[k] as u32))
            =~= (enc_u32s(s[0] as u32) + enc_chars_s(t.take(k - 1))) + enc_u32s(s[k] as u32));
        assert(enc_chars_s(s.take(k + 1)) =~= enc_chars_s(s.take(k)) + enc_u32s(s[k] as u32));
    }
}

/// Extending the encoded prefix by one value appends that value's bytes.
pub proof fn lemma_enc_vals_snoc(items: Seq<ValModel>, k: int)
    requires
        0 <= k < items.len(),
    ensures
        enc_vals_s(items.take(k + 1)) == enc_vals_s(items.take(k)) + enc_val_s(items[k]),
    decreases k,
{
    if k == 0 {
        assert(items.take(0) =~= Seq::<ValModel>::empty());
        assert(items.take(1).subrange(1, 1) =~= Seq::<ValModel>::empty());
        assert(enc_vals_s(items.take(1)) =~= enc_vals_s(items.take(0)) + enc_val_s(items[0]));
    } else {
        let t = items.subrange(1, items.len() as int);
        lemma_enc_vals_snoc(t, k - 1);
        assert(items.take(k + 1).subrange(1, k + 1) =~= t.take(k));
        assert(items.take(k).subrange(1, k) =~= t.take(k - 1));
        assert(t[k - 1] == items[k]);
        assert(items.take(k + 1)[0] == items[0]);
        assert(items.take(k)[0] == items[0]);
        assert(enc_val_s(items[0]) + (enc_vals_s(t.take(k - 1)) + enc_val_s(items[k])) =~= (
        enc_val_s(items[0]) + enc_vals_s(t.take(k - 1))) + enc_val_s(items[k]));
        assert(enc_vals_s(items.take(k + 1)) =~= enc_vals_s(items.take(k)) + enc_val_s(items[k]));
    }
}

} // verus!

// ---------------------------------------------------------------------------
// The byte-level model of the whole arena, composed from the value
// layer: bindings, frames, and the framed file. `export` writes exactly
// `enc_arena_s` of the arena's model; `import` accepts exactly what
// `dec_arena_s` accepts and returns an arena with exactly the decoded
// model. `lemma_arena_round_trip` then gives the serializer round trip.
// ---------------------------------------------------------------------------

verus! {

/// A model the format represents faithfully: parents point strictly
/// downward, lengths fit the length fields, and every value satisfies
/// `m_ok`. Every arena `export` accepts satisfies this.
pub open spec fn bm_ok(bm: BindingModel) -> bool {
    &&& bm.name.len() < 0x10000000000000000
    &&& m_ok(bm.value)
}

pub open spec fn fm_ok(fm: FrameModel, i: int) -> bool {
    &&& (fm.parent matches Some(p) ==> 0 <= p < i)
    &&& fm.bindings.len() < 0x10000000000000000
    &&& forall|j: int| 0 <= j < fm.bindings.len() ==> bm_ok(#[trigger] fm.bindings[j])
}

pub open spec fn arena_ok(fs: Seq<FrameModel>) -> bool {
    &&& fs.len() < 0x10000000000000000
    &&& forall|i: int| 0 <= i < fs.len() ==> fm_ok(#[trigger] fs[i], i)
}

/// The encoding of one binding: name length, name, mutability, value.
pub open spec fn enc_binding_s(bm: BindingModel) -> Seq<u8> {
    enc_u64s(bm.name.len() as u64) + enc_chars_s(bm.name) + (if bm.mutable {
        seq![1u8]
    } else {
        seq![0u8]
    }) + enc_val_s(bm.value)
}

/// The concatenated encodings of a frame's bindings.
pub open spec fn enc_bindings_s(bs: Seq<BindingModel>) -> Seq<u8>
    decreases bs.len(),
{
    if bs.len() == 0 {
        Seq::empty()
    } else {
        enc_binding_s(bs[0]) + enc_bindings_s(bs.subrange(1, bs.len() as int))
    }
}

/// The encoding of one frame: parent link, binding count, bindings.
pub open spec fn enc_frame_s(fm: FrameModel) -> Seq<u8> {
    (match fm.parent {
        Some(p) => seq![1u8] + enc_u64s(p as u64),
        None => seq![0u8],
    }) + enc_u64s(fm.bindings.len() as u64) + enc_bindings_s(fm.bindings)
}

/// The concatenated encodings of the frames.
pub open spec fn enc_frames_s(fs: Seq<FrameModel>) -> Seq<u8>
    decreases fs.len(),
{
    if fs.len() == 0 {
        Seq::empty()
    } else {
        enc_frame_s(fs[0]) + enc_frames_s(fs.subrange(1, fs.len() as int))
    }
}

/// The encoding of a whole arena: magic, version, frame count, frames.
pub open spec fn enc_arena_s(fs: Seq<FrameModel>) -> Seq<u8> {
    seq![0xdbu8, 0x01u8] + enc_u64s(fs.len() as u64) + enc_frames_s(fs)
}

/// Extending the encoded prefix by one binding appends its bytes.
pub proof fn lemma_enc_bindings_snoc(bs: Seq<BindingModel>, k: int)
    requires
        0 <= k < bs.len(),
    ensures
        enc_bindings_s(bs.take(k + 1)) == enc_bindings_s(bs.take(k)) + enc_binding_s(bs[k]),
    decreases k,
{
    if k == 0 {
        assert(bs.take(0) =~= Seq::<BindingModel>::empty());
        assert(bs.take(1).subrange(1, 1) =~= Seq::<BindingModel>::empty());
        assert(enc_bindings_s(bs.take(1)) =~= enc_bindings_s(bs.take(0)) + enc_binding_s(bs[0]));
    } else {
        let t = bs.subrange(1, bs.len() as int);
        lemma_enc_bindings_snoc(t, k - 1);
        assert(bs.take(k + 1).subrange(1, k + 1) =~= t.take(k));
        assert(bs.take(k).subrange(1, k) =~= t.take(k - 1));
        assert(t[k - 1] == bs[k]);
        assert(bs.take(k + 1)[0] == bs[0]);
        assert(bs.take(k)[0] == bs[0]);
        assert(enc_binding_s(bs[0]) + (enc_bindings_s(t.take(k - 1)) + enc_binding_s(bs[k])) =~= (
        enc_binding_s(bs[0]) + enc_bindings_s(t.take(k - 1))) + enc_binding_s(bs[k]));
        assert(enc_bindings_s(bs.take(k + 1)) =~= enc_bindings_s(bs.take(k)) + enc_binding_s(
            bs[k],
        ));
    }
}

/// Extending the encoded prefix by one frame appends its bytes.
pub proof fn lemma_enc_frames_snoc(fs: Seq<FrameModel>, k: int)
    requires
        0 <= k < fs.len(),
    ensures
        enc_frames_s(fs.take(k + 1)) == enc_frames_s(fs.take(k)) + enc_frame_s(fs[k]),
    decreases k,
{
    if k == 0 {
        assert(fs.take(0) =~= Seq::<FrameModel>::empty());
        assert(fs.take(1).subrange(1, 1) =~= Seq::<FrameModel>::empty());
        assert(enc_frames_s(fs.take(1)) =~= enc_frames_s(fs.take(0)) + enc_frame_s(fs[0]));
    } else {
        let t = fs.subrange(1, fs.len() as int);
        lemma_enc_frames_snoc(t, k - 1);
        assert(fs.take(k + 1).subrange(1, k + 1) =~= t.take(k));
        assert(fs.take(k).subrange(1, k) =~= t.take(k - 1));
        assert(t[k - 1] == fs[k]);
        assert(fs.take(k + 1)[0] == fs[0]);
        assert(fs.take(k)[0] == fs[0]);
        assert(enc_frame_s(fs[0]) + (enc_frames_s(t.take(k - 1)) + enc_frame_s(fs[k])) =~= (
        enc_frame_s(fs[0]) + enc_frames_s(t.take(k - 1))) + enc_frame_s(fs[k]));
        assert(enc_frames_s(fs.take(k + 1)) =~= enc_frames_s(fs.take(k)) + enc_frame_s(fs[k]));
    }
}

/// Reads one binding starting at `i`.
pub open spec fn dec_binding_s(b: Seq<u8>, i: int) -> Option<(BindingModel, int)> {
    if !(0 <= i && i + 8 <= b.len()) {
        None
    } else {
        match dec_chars_s(b, i + 8, dec_u64_at(b, i) as nat) {
            Some((name, j)) => {
                if !(0 <= j < b.len()) {
                    None
                } else if b[j] == 0u8 || b[j] == 1u8 {
                    match dec_val_s(b, j + 1) {
                        Some((vm, j2)) => Some(
                            (BindingModel { name, value: vm, mutable: b[j] == 1u8 }, j2),
                        ),
                        None => None,
                    }
                } else {
                    None
                }
            },
            None => None,
        }
    }
}

/// Reads `count` bindings starting at `i`.
pub open spec fn dec_bindings_s(b: Seq<u8>, i: int, count: nat) -> Option<
    (Seq<BindingModel>, int),
>
    decreases b.len() - i, count,
{
    if count == 0 {
        Some((Seq::empty(), i))
    } else if 0 <= i <= b.len() {
        match dec_binding_s(b, i) {
            Some((bm, j)) => if i < j <= b.len() {
                match dec_bindings_s(b, j, (count - 1) as nat) {
                    Some((rest, j2)) => Some((seq![bm] + rest, j2)),
                    None => None,
                }
            } else {
                None
            },
            None => None,
        }
    } else {
        None
    }
}

/// Reads one frame starting at `i`; a parent link must point strictly
/// below the frame's own index `fi`.
pub open spec fn dec_frame_s(b: Seq<u8>, i: int, fi: int) -> Option<(FrameModel, int)> {
    if !(0 <= i < b.len()) {
        None
    } else {
        let hdr: Option<(Option<int>, int)> = if b[i] == 1u8 {
            if i + 9 <= b.len() {
                if (dec_u64_at(b, i + 1) as int) < fi {
                    Some((Some(dec_u64_at(b, i + 1) as int), i + 9))
                } else {
                    None
                }
            } else {
                None
            }
        } else if b[i] == 0u8 {
            Some((None, i + 1))
        } else {
            None
        };
        match hdr {
            Some((parent, h)) => {
                if h + 8 <= b.len() {
                    match dec_bindings_s(b, h + 8, dec_u64_at(b, h) as nat) {
                        Some((bs, j)) => Some((FrameModel { parent, bindings: bs }, j)),
                        None => None,
                    }
                } else {
                    None
                }
            },
            None => None,
        }
    }
}

/// Reads `count` frames starting at `i`, the first having index `fi`.
pub open spec fn dec_frames_s(b: Seq<u8>, i: int, count: nat, fi: int) -> Option<
    (Seq<FrameModel>, int),
>
    decreases b.len() - i, count,
{
    if count == 0 {
        Some((Seq::empty(), i))
    } else if 0 <= i <= b.len() {
        match dec_frame_s(b, i, fi) {
            Some((fm, j)) => if i < j <= b.len() {
                match dec_frames_s(b, j, (count - 1) as nat, fi + 1) {
                    Some((rest, j2)) => Some((seq![fm] + rest, j2)),
                    None => None,
                }
            } else {
                None
            },
            None => None,
        }
    } else {
        None
    }
}

/// Reads a whole arena: the accepted byte strings and their models.
pub open spec fn dec_arena_s(b: Seq<u8>) -> Option<Seq<FrameModel>> {
    if b.len() >= 10 && b[0] == 0xdbu8 && b[1] == 0x01u8 {
        match dec_frames_s(b, 10, dec_u64_at(b, 2) as nat, 0) {
            Some((fs, j)) => if j == b.len() {
                Some(fs)
            } else {
                None
            },
            None => None,
        }
    } else {
        None
    }
}

/// Composes already-read bindings with the model of the remainder.
pub open spec fn bindings_compose(
    prefix: Seq<BindingModel>,
    rest: Option<(Seq<BindingModel>, int)>,
) -> Option<(Seq<BindingModel>, int)> {
    match rest {
        Some(t) => Some((prefix + t.0, t.1)),
        None => None,
    }
}

/// Composes already-read frames with the model of the remainder.
pub open spec fn frames_compose(
    prefix: Seq<FrameModel>,
    rest: Option<(Seq<FrameModel>, int)>,
) -> Option<(Seq<FrameModel>, int)> {
    match rest {
        Some(t) => Some((prefix + t.0, t.1)),
        None => None,
    }
}

} // verus!

// ---------------------------------------------------------------------------
// The serializer round trip: decoding an arena's encoding yields exactly
// the arena's model. With `export`'s contract (it writes the encoding of
// the arena's model, which satisfies `arena_ok`) and `import`'s (it
// returns an arena with exactly the decoded model), this is
// `import(export(env))`: an environment observationally equal to `env`,
// for every serializable environment.
// ---------------------------------------------------------------------------

verus! {

#[verifier::rlimit(100)]
pub proof fn lemma_binding_round_trip(b: Seq<u8>, i: int, bm: BindingModel)
    requires
        bm_ok(bm),
        0 <= i,
        i + enc_binding_s(bm).len() <= b.len(),
        b.subrange(i, i + enc_binding_s(bm).len() as int) == enc_binding_s(bm),
    ensures
        dec_binding_s(b, i) == Some((bm, i + enc_binding_s(bm).len() as int)),
{
    let e = enc_binding_s(bm);
    lemma_enc_chars_len(bm.name);
    let nl = bm.name.len() as int;
    let ev = enc_val_s(bm.value);
    assert(e.len() == 9 + 4 * nl + ev.len());
    assert(b.subrange(i, i + 8) =~= enc_u64s(bm.name.len() as u64)) by {
        assert forall|k: int| #![trigger b.subrange(i, i + 8)[k]] 0 <= k < 8 implies b.subrange(
            i,
            i + 8,
        )[k] == enc_u64s(bm.name.len() as u64)[k] by {
            assert(b[i + k] == b.subrange(i, i + e.len() as int)[k]);
        }
    }
    lemma_dec_u64_at(b, i, bm.name.len() as u64);
    assert(b.subrange(i + 8, i + 8 + 4 * nl) =~= enc_chars_s(bm.name)) by {
        assert forall|k: int| #![trigger b.subrange(i + 8, i + 8 + 4 * nl)[k]] 0 <= k < 4 * nl
            implies b.subrange(i + 8, i + 8 + 4 * nl)[k] == enc_chars_s(bm.name)[k] by {
            assert(b[i + 8 + k] == b.subrange(i, i + e.len() as int)[8 + k]);
            assert(e[8 + k] == enc_chars_s(bm.name)[k]);
        }
    }
    lemma_chars_round_trip(b, i + 8, bm.name);
    let j = i + 8 + 4 * nl;
    assert(b[j] == e[8 + 4 * nl]) by {
        assert(b.subrange(i, i + e.len() as int)[8 + 4 * nl] == b[j]);
    }
    assert(b.subrange(j + 1, j + 1 + ev.len()) =~= ev) by {
        assert forall|k: int| #![trigger b.subrange(j + 1, j + 1 + ev.len())[k]] 0 <= k < ev.len()
            implies b.subrange(j + 1, j + 1 + ev.len())[k] == ev[k] by {
            assert(b[j + 1 + k] == b.subrange(i, i + e.len() as int)[9 + 4 * nl + k]);
            assert(e[9 + 4 * nl + k] == ev[k]);
        }
    }
    lemma_value_round_trip(b, j + 1, bm.value);
    if bm.mutable {
        assert(b[j] == 1u8);
    } else {
        assert(b[j] == 0u8);
    }
}

/// Every binding encoding is at least nine bytes.
pub proof fn lemma_enc_binding_len_pos(bm: BindingModel)
    ensures
        enc_binding_s(bm).len() >= 9,
{
}

#[verifier::rlimit(100)]
pub proof fn lemma_bindings_round_trip(b: Seq<u8>, i: int, bs: Seq<BindingModel>)
    requires
        forall|k: int| 0 <= k < bs.len() ==> bm_ok(#[trigger] bs[k]),
        0 <= i,
        i + enc_bindings_s(bs).len() <= b.len(),
        b.subrange(i, i + enc_bindings_s(bs).len() as int) == enc_bindings_s(bs),
    ensures
        dec_bindings_s(b, i, bs.len()) == Some((bs, i + enc_bindings_s(bs).len() as int)),
    decreases bs.len(),
{
    if bs.len() == 0 {
        assert(bs =~= Seq::<BindingModel>::empty());
    } else {
        let head = bs[0];
        let tail = bs.subrange(1, bs.len() as int);
        let eh = enc_binding_s(head);
        let et = enc_bindings_s(tail);
        lemma_enc_binding_len_pos(head);
        assert(b.subrange(i, i + eh.len() as int) =~= eh) by {
            assert forall|k: int| #![trigger b.subrange(i, i + eh.len() as int)[k]] 0 <= k
                < eh.len() implies b.subrange(i, i + eh.len() as int)[k] == eh[k] by {
                assert(b[i + k] == b.subrange(i, i + enc_bindings_s(bs).len() as int)[k]);
                assert(enc_bindings_s(bs)[k] == (eh + et)[k]);
            }
        }
        lemma_binding_round_trip(b, i, head);
        assert(b.subrange(i + eh.len(), i + eh.len() + et.len()) =~= et) by {
            assert forall|k: int| #![trigger b.subrange(i + eh.len(), i + eh.len() + et.len())[k]]
                0 <= k < et.len() implies b.subrange(i + eh.len(), i + eh.len() + et.len())[k]
                == et[k] by {
                assert(b[i + eh.len() + k] == b.subrange(
                    i,
                    i + enc_bindings_s(bs).len() as int,
                )[eh.len() + k]);
                assert(enc_bindings_s(bs)[eh.len() + k] == (eh + et)[eh.len() + k]);
            }
        }
        lemma_bindings_round_trip(b, i + eh.len() as int, tail);
        assert(seq![head] + tail =~= bs);
    }
}

#[verifier::rlimit(100)]
pub proof fn lemma_frame_round_trip(b: Seq<u8>, i: int, fm: FrameModel, fi: int)
    requires
        fm_ok(fm, fi),
        0 <= fi < 0x10000000000000000,
        0 <= i,
        i + enc_frame_s(fm).len() <= b.len(),
        b.subrange(i, i + enc_frame_s(fm).len() as int) == enc_frame_s(fm),
    ensures
        dec_frame_s(b, i, fi) == Some((fm, i + enc_frame_s(fm).len() as int)),
{
    let e = enc_frame_s(fm);
    let hlen: int = match fm.parent {
        Some(_) => 9,
        None => 1,
    };
    let eb = enc_bindings_s(fm.bindings);
    assert(e.len() == hlen + 8 + eb.len());
    assert(b[i] == e[0]) by {
        assert(b.subrange(i, i + e.len() as int)[0] == b[i]);
    }
    match fm.parent {
        Some(p) => {
            assert(b.subrange(i + 1, i + 9) =~= enc_u64s(p as u64)) by {
                assert forall|k: int| #![trigger b.subrange(i + 1, i + 9)[k]] 0 <= k < 8 implies
                    b.subrange(i + 1, i + 9)[k] == enc_u64s(p as u64)[k] by {
                    assert(b[i + 1 + k] == b.subrange(i, i + e.len() as int)[1 + k]);
                }
            }
            lemma_dec_u64_at(b, i + 1, p as u64);
        },
        None => {},
    }
    assert(b.subrange(i + hlen, i + hlen + 8) =~= enc_u64s(fm.bindings.len() as u64)) by {
        assert forall|k: int| #![trigger b.subrange(i + hlen, i + hlen + 8)[k]] 0 <= k < 8 implies
            b.subrange(i + hlen, i + hlen + 8)[k] == enc_u64s(fm.bindings.len() as u64)[k] by {
            assert(b[i + hlen + k] == b.subrange(i, i + e.len() as int)[hlen + k]);
            assert(e[hlen + k] == enc_u64s(fm.bindings.len() as u64)[k]);
        }
    }
    lemma_dec_u64_at(b, i + hlen, fm.bindings.len() as u64);
    assert(b.subrange(i + hlen + 8, i + hlen + 8 + eb.len()) =~= eb) by {
        assert forall|k: int| #![trigger b.subrange(i + hlen + 8, i + hlen + 8 + eb.len())[k]] 0
            <= k < eb.len() implies b.subrange(i + hlen + 8, i + hlen + 8 + eb.len())[k] == eb[k]
            by {
            assert(b[i + hlen + 8 + k] == b.subrange(i, i + e.len() as int)[hlen + 8 + k]);
            assert(e[hlen + 8 + k] == eb[k]);
        }
    }
    lemma_bindings_round_trip(b, i + hlen + 8, fm.bindings);
}

/// Every frame encoding is at least nine bytes.
pub proof fn lemma_enc_frame_len_pos(fm: FrameModel)
    ensures
        enc_frame_s(fm).len() >= 9,
{
}

#[verifier::rlimit(100)]
pub proof fn lemma_frames_round_trip(b: Seq<u8>, i: int, fs: Seq<FrameModel>, fi: int)
    requires
        forall|k: int| 0 <= k < fs.len() ==> fm_ok(#[trigger] fs[k], fi + k),
        0 <= fi,
        fi + fs.len() < 0x10000000000000000,
        0 <= i,
        i + enc_frames_s(fs).len() <= b.len(),
        b.subrange(i, i + enc_frames_s(fs).len() as int) == enc_frames_s(fs),
    ensures
        dec_frames_s(b, i, fs.len(), fi) == Some((fs, i + enc_frames_s(fs).len() as int)),
    decreases fs.len(),
{
    if fs.len() == 0 {
        assert(fs =~= Seq::<FrameModel>::empty());
    } else {
        let head = fs[0];
        let tail = fs.subrange(1, fs.len() as int);
        let eh = enc_frame_s(head);
        let et = enc_frames_s(tail);
        lemma_enc_frame_len_pos(head);
        assert(b.subrange(i, i + eh.len() as int) =~= eh) by {
            assert forall|k: int| #![trigger b.subrange(i, i + eh.len() as int)[k]] 0 <= k
                < eh.len() implies b.subrange(i, i + eh.len() as int)[k] == eh[k] by {
                assert(b[i + k] == b.subrange(i, i + enc_frames_s(fs).len() as int)[k]);
                assert(enc_frames_s(fs)[k] == (eh + et)[k]);
            }
        }
        assert(fm_ok(head, fi));
        lemma_frame_round_trip(b, i, head, fi);
        assert(b.subrange(i + eh.len(), i + eh.len() + et.len()) =~= et) by {
            assert forall|k: int| #![trigger b.subrange(i + eh.len(), i + eh.len() + et.len())[k]]
                0 <= k < et.len() implies b.subrange(i + eh.len(), i + eh.len() + et.len())[k]
                == et[k] by {
                assert(b[i + eh.len() + k] == b.subrange(
                    i,
                    i + enc_frames_s(fs).len() as int,
                )[eh.len() + k]);
                assert(enc_frames_s(fs)[eh.len() + k] == (eh + et)[eh.len() + k]);
            }
        }
        assert forall|k: int| 0 <= k < tail.len() implies fm_ok(#[trigger] tail[k], fi + 1 + k)
            by {
            assert(tail[k] == fs[k + 1]);
        }
        lemma_frames_round_trip(b, i + eh.len() as int, tail, fi + 1);
        assert(seq![head] + tail =~= fs);
    }
}

/// The serializer round trip, at the level `export` and `import` speak:
/// for every representable arena model (`arena_ok`, which holds of every
/// arena `export` accepts), decoding the encoding yields exactly the
/// model — so `import(export(env))` returns an environment
/// observationally equal to `env` whenever `export(env)` succeeds.
pub proof fn lemma_arena_round_trip(fs: Seq<FrameModel>)
    requires
        arena_ok(fs),
    ensures
        dec_arena_s(enc_arena_s(fs)) == Some(fs),
{
    let b = enc_arena_s(fs);
    let ef = enc_frames_s(fs);
    assert(b.len() == 10 + ef.len());
    assert(b[0] == 0xdbu8 && b[1] == 0x01u8);
    assert(b.subrange(2, 10) =~= enc_u64s(fs.len() as u64)) by {
        assert forall|k: int| #![trigger b.subrange(2, 10)[k]] 0 <= k < 8 implies b.subrange(
            2,
            10,
        )[k] == enc_u64s(fs.len() as u64)[k] by {
            assert(b[2 + k] == enc_u64s(fs.len() as u64)[k]);
        }
    }
    lemma_dec_u64_at(b, 2, fs.len() as u64);
    assert(b.subrange(10, 10 + ef.len() as int) =~= ef) by {
        assert forall|k: int| #![trigger b.subrange(10, 10 + ef.len() as int)[k]] 0 <= k < ef.len()
            implies b.subrange(10, 10 + ef.len() as int)[k] == ef[k] by {
            assert(b[10 + k] == ef[k]);
        }
    }
    lemma_frames_round_trip(b, 10, fs, 0);
}

} // verus!
