//! The scope chain: an arena of binding frames addressed by index.
//!
//! Each frame owns its bindings and refers to its parent (the enclosing
//! scope) by a strictly smaller index, so the chain is acyclic by
//! construction and closures can capture a frame by plain index with no
//! back-pointers. Name resolution walks from the given frame outward and
//! stops at the nearest frame that binds the name; assignment to an
//! immutable binding fails and provably leaves the arena untouched.

use vstd::prelude::*;
use crate::value::{Value, val_model};

verus! {

/// One name-to-value entry; `mutable` records the declaration form.
pub struct Binding {
    pub name: String,
    pub value: Value,
    pub mutable: bool,
}

/// A scope frame: its enclosing scope (if any) and its own bindings.
pub struct Frame {
    pub parent: Option<usize>,
    pub bindings: Vec<Binding>,
}

/// The arena of frames. Index 0 is the global scope.
pub struct EnvArena {
    pub frames: Vec<Frame>,
}

/// Frames are well formed when every parent index points strictly
/// downward; resolution then always terminates.
pub open spec fn wf_frames(frames: Seq<Frame>) -> bool {
    forall|i: int|
        0 <= i < frames.len() ==> ((#[trigger] frames[i].parent) matches Some(p) ==> p < i)
}

/// The index of the binding for `name` in one frame: the latest
/// declaration wins.
pub open spec fn find_in_frame(bs: Seq<Binding>, name: Seq<char>) -> Option<int>
    decreases bs.len(),
{
    if bs.len() == 0 {
        None
    } else if bs.last().name@ == name {
        Some(bs.len() - 1)
    } else {
        find_in_frame(bs.drop_last(), name)
    }
}

/// Resolves `name` from frame `f` outward along the parent chain:
/// the nearest enclosing scope that binds the name wins. Returns the
/// frame and binding indices.
pub open spec fn resolve(frames: Seq<Frame>, f: int, name: Seq<char>) -> Option<(int, int)>
    decreases f,
{
    if !(0 <= f < frames.len()) {
        None
    } else {
        match find_in_frame(frames[f].bindings@, name) {
            Some(b) => Some((f, b)),
            None => match frames[f].parent {
                Some(p) => if p < f {
                    resolve(frames, p as int, name)
                } else {
                    None
                },
                None => None,
            },
        }
    }
}

/// A resolved pair indexes real entries.
pub proof fn lemma_resolve_valid(frames: Seq<Frame>, f: int, name: Seq<char>)
    ensures
        resolve(frames, f, name) matches Some(p) ==> 0 <= p.0 < frames.len() && 0 <= p.1
            < frames[p.0].bindings@.len() && frames[p.0].bindings@[p.1].name@ == name,
    decreases f,
{
    if 0 <= f < frames.len() {
        lemma_find_valid(frames[f].bindings@, name);
        match frames[f].parent {
            Some(p) => {
                if p < f {
                    lemma_resolve_valid(frames, p as int, name);
                }
            },
            None => {},
        }
    }
}

pub proof fn lemma_find_valid(bs: Seq<Binding>, name: Seq<char>)
    ensures
        find_in_frame(bs, name) matches Some(b) ==> 0 <= b < bs.len() && bs[b].name@ == name,
    decreases bs.len(),
{
    if bs.len() > 0 && !(bs.last().name@ == name) {
        lemma_find_valid(bs.drop_last(), name);
    }
}

/// Lexical scoping, stated of the arena: resolution from a frame of the
/// original arena is untouched by any frames appended later — in
/// particular by the frames a function call pushes. A closure captured
/// at frame `f` therefore observes its defining scope, never the call
/// site's.
pub proof fn lemma_resolve_unaffected_by_growth(
    frames: Seq<Frame>,
    more: Seq<Frame>,
    f: int,
    name: Seq<char>,
)
    requires
        f < frames.len(),
    ensures
        resolve(frames + more, f, name) == resolve(frames, f, name),
    decreases f,
{
    if 0 <= f {
        assert((frames + more)[f] == frames[f]);
        match find_in_frame(frames[f].bindings@, name) {
            Some(_) => {},
            None => {
                match frames[f].parent {
                    Some(p) => {
                        if p < f {
                            lemma_resolve_unaffected_by_growth(frames, more, p as int, name);
                        }
                    },
                    None => {},
                }
            },
        }
    }
}

/// What a successful assignment does to the frames: the resolved
/// binding (and nothing else) now holds the assigned value; its name
/// and mutability, every other binding, every parent link, and the
/// number of frames are untouched.
pub open spec fn assign_updates(
    oldf: Seq<Frame>,
    newf: Seq<Frame>,
    fi: int,
    bi: int,
    value: Value,
) -> bool {
    &&& newf.len() == oldf.len()
    &&& forall|i: int| 0 <= i < oldf.len() && i != fi ==> newf[i] == oldf[i]
    &&& newf[fi].parent == oldf[fi].parent
    &&& newf[fi].bindings@.len() == oldf[fi].bindings@.len()
    &&& forall|j: int|
        0 <= j < oldf[fi].bindings@.len() && j != bi ==> newf[fi].bindings@[j]
            == oldf[fi].bindings@[j]
    &&& newf[fi].bindings@[bi].name == oldf[fi].bindings@[bi].name
    &&& newf[fi].bindings@[bi].mutable == oldf[fi].bindings@[bi].mutable
    &&& newf[fi].bindings@[bi].value == value
}

/// Why an assignment was refused.
#[derive(Clone, Copy, PartialEq, Eq, Structural, Debug)]
pub enum AssignErr {
    /// No enclosing scope binds the name.
    Undefined,
    /// The nearest binding was declared immutable.
    Immutable,
}

/// String equality, phrased over views.
fn str_eq(a: &String, b: &String) -> (r: bool)
    ensures
        r == (a@ == b@),
{
    *a == *b
}

impl EnvArena {
    /// A fresh arena holding only the empty global scope.
    pub fn new_root() -> (r: EnvArena)
        ensures
            r.frames@.len() == 1,
            wf_frames(r.frames@),
            r.frames@[0].parent is None,
            r.frames@[0].bindings@.len() == 0,
    {
        let mut frames: Vec<Frame> = Vec::new();
        frames.push(Frame { parent: None, bindings: Vec::new() });
        EnvArena { frames }
    }

    /// Opens a child scope of `parent` and returns its index.
    pub fn push_frame(&mut self, parent: usize) -> (idx: usize)
        requires
            parent < old(self).frames@.len(),
            wf_frames(old(self).frames@),
        ensures
            idx == old(self).frames@.len(),
            final(self).frames@.len() == old(self).frames@.len() + 1,
            forall|i: int|
                0 <= i < old(self).frames@.len() ==> final(self).frames@[i] == old(
                    self,
                ).frames@[i],
            final(self).frames@[idx as int].parent == Some(parent),
            final(self).frames@[idx as int].bindings@.len() == 0,
            wf_frames(final(self).frames@),
    {
        let idx = self.frames.len();
        self.frames.push(Frame { parent: Some(parent), bindings: Vec::new() });
        idx
    }

    /// Finds `name` in the bindings of one frame.
    fn find_in_frame_x(bs: &Vec<Binding>, name: &String) -> (r: Option<usize>)
        ensures
            match find_in_frame(bs@, name@) {
                Some(b) => r matches Some(x) && x as int == b,
                None => r is None,
            },
    {
        let mut k: usize = bs.len();
        proof {
            assert(bs@.take(bs@.len() as int) =~= bs@);
        }
        loop
            invariant
                k <= bs@.len(),
                find_in_frame(bs@, name@) == find_in_frame(bs@.take(k as int), name@),
            decreases k,
        {
            if k == 0 {
                proof {
                    assert(bs@.take(0) =~= Seq::<Binding>::empty());
                }
                return None;
            }
            k = k - 1;
            if str_eq(&bs[k].name, name) {
                proof {
                    assert(bs@.take(k as int + 1).last() == bs@[k as int]);
                }
                return Some(k);
            }
            proof {
                assert(bs@.take(k as int + 1).last() == bs@[k as int]);
                assert(bs@.take(k as int + 1).drop_last() =~= bs@.take(k as int));
            }
        }
    }

    /// Resolves `name` from frame `f` outward; returns a copy of the
    /// bound value (same model) with the binding's frame index.
    pub fn lookup(&self, f: usize, name: &String) -> (r: Option<Value>)
        requires
            wf_frames(self.frames@),
            f < self.frames@.len(),
        ensures
            match resolve(self.frames@, f as int, name@) {
                Some(p) => r matches Some(v) && val_model(v) == val_model(
                    self.frames@[p.0].bindings@[p.1].value,
                ),
                None => r is None,
            },
    {
        proof {
            lemma_resolve_valid(self.frames@, f as int, name@);
        }
        let mut cur: usize = f;
        loop
            invariant
                wf_frames(self.frames@),
                cur < self.frames@.len(),
                resolve(self.frames@, f as int, name@) == resolve(
                    self.frames@,
                    cur as int,
                    name@,
                ),
            decreases cur,
        {
            proof {
                lemma_find_valid(self.frames@[cur as int].bindings@, name@);
            }
            match Self::find_in_frame_x(&self.frames[cur].bindings, name) {
                Some(b) => {
                    return Some(self.frames[cur].bindings[b].value.dup());
                },
                None => {
                    match self.frames[cur].parent {
                        Some(p) => {
                            cur = p;
                        },
                        None => {
                            return None;
                        },
                    }
                },
            }
        }
    }

    /// Declares `name` in frame `f`; a redeclaration shadows the older
    /// binding in the same frame.
    pub fn declare(&mut self, f: usize, name: String, value: Value, mutable: bool)
        requires
            f < old(self).frames@.len(),
            wf_frames(old(self).frames@),
        ensures
            final(self).frames@.len() == old(self).frames@.len(),
            forall|i: int|
                0 <= i < old(self).frames@.len() && i != f ==> final(self).frames@[i] == old(
                    self,
                ).frames@[i],
            final(self).frames@[f as int].parent == old(self).frames@[f as int].parent,
            final(self).frames@[f as int].bindings@ == old(self).frames@[f as int].bindings@.push(
                Binding { name, value, mutable },
            ),
            wf_frames(final(self).frames@),
    {
        let b = Binding { name, value, mutable };
        self.frames[f].bindings.push(b);
    }

    /// Assigns to the nearest binding of `name`. An undeclared name or
    /// an immutable binding is refused, and the arena is then exactly
    /// what it was: a failed assignment changes nothing.
    pub fn assign(&mut self, f: usize, name: &String, value: Value) -> (r: Result<(), AssignErr>)
        requires
            f < old(self).frames@.len(),
            wf_frames(old(self).frames@),
        ensures
            wf_frames(final(self).frames@),
            match resolve(old(self).frames@, f as int, name@) {
                None => r matches Err(e) && e == AssignErr::Undefined && *final(self) == *old(self),
                Some(p) => {
                    if old(self).frames@[p.0].bindings@[p.1].mutable {
                        r is Ok && assign_updates(
                            old(self).frames@,
                            final(self).frames@,
                            p.0,
                            p.1,
                            value,
                        )
                    } else {
                        r matches Err(e) && e == AssignErr::Immutable && *final(self) == *old(self)
                    }
                },
            },
    {
        proof {
            lemma_resolve_valid(self.frames@, f as int, name@);
        }
        let mut cur: usize = f;
        loop
            invariant
                wf_frames(self.frames@),
                cur < self.frames@.len(),
                *self == *old(self),
                resolve(self.frames@, f as int, name@) == resolve(
                    self.frames@,
                    cur as int,
                    name@,
                ),
            decreases cur,
        {
            proof {
                lemma_find_valid(self.frames@[cur as int].bindings@, name@);
            }
            match Self::find_in_frame_x(&self.frames[cur].bindings, name) {
                Some(b) => {
                    if self.frames[cur].bindings[b].mutable {
                        self.frames[cur].bindings[b].value = value;
                        return Ok(());
                    } else {
                        return Err(AssignErr::Immutable);
                    }
                },
                None => {
                    match self.frames[cur].parent {
                        Some(p) => {
                            cur = p;
                        },
                        None => {
                            return Err(AssignErr::Undefined);
                        },
                    }
                },
            }
        }
    }
}

} // verus!
