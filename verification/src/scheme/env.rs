//! Environment frames and the interpreter's store: the frames, the contents
//! of the strings, and the captured output.
//!
//! Frames live in one growing table and refer to their parent by index, so a
//! closure can hold on to the frame it was made in, and `define` in that frame
//! is seen by every closure that holds it.
use vstd::prelude::*;

use super::text::chars_eq;
use super::value::{
    lemma_value_ok_grow, lemma_values_ok_grow, lemma_values_view, lemma_values_view_push,
    names_view, strings_view, value_ok, values_ok, values_view, SValue, Value,
};

verus! {

/// One environment frame: its bindings, in the order they were first made,
/// and the frame it extends.
#[derive(Debug)]
pub struct Frame {
    pub parent: Option<usize>,
    pub names: Vec<Vec<char>>,
    pub values: Vec<Value>,
}

pub struct SFrame {
    pub parent: Option<usize>,
    pub names: Seq<Seq<char>>,
    pub values: Seq<SValue>,
}

impl View for Frame {
    type V = SFrame;

    open spec fn view(&self) -> SFrame {
        SFrame { parent: self.parent, names: names_view(self.names@), values: values_view(self.values@) }
    }
}

/// What the interpreter holds between steps.
pub struct SState {
    pub frames: Seq<SFrame>,
    pub strings: Seq<Seq<char>>,
    pub output: Seq<char>,
    pub limit: usize,
}

/// The interpreter: environment frames (frame 0 is the global environment),
/// the contents of every string made so far, the text written by `display`,
/// `write` and `newline`, and the most nested eval dispatches allowed.
pub struct Interpreter {
    pub frames: Vec<Frame>,
    pub strings: Vec<Vec<char>>,
    pub output: Vec<char>,
    pub max_steps: usize,
}

pub open spec fn frames_view(frames: Seq<Frame>) -> Seq<SFrame> {
    frames.map_values(|f: Frame| f@)
}

impl View for Interpreter {
    type V = SState;

    open spec fn view(&self) -> SState {
        SState {
            frames: frames_view(self.frames@),
            strings: strings_view(self.strings@),
            output: self.output@,
            limit: self.max_steps,
        }
    }
}

/// The first index at or after `i` where `name` is bound, or -1.
pub open spec fn first_index(names: Seq<Seq<char>>, name: Seq<char>, i: int) -> int
    decreases names.len() - i,
{
    if i < 0 || i >= names.len() {
        -1
    } else if names[i] == name {
        i
    } else {
        first_index(names, name, i + 1)
    }
}

pub open spec fn frame_get(f: SFrame, name: Seq<char>) -> Option<SValue> {
    let i = first_index(f.names, name, 0);
    if i < 0 {
        None
    } else {
        Some(f.values[i])
    }
}

/// Binds `name` in the frame: a new binding, or a new value for an existing one.
pub open spec fn frame_define(f: SFrame, name: Seq<char>, v: SValue) -> SFrame {
    let i = first_index(f.names, name, 0);
    if i < 0 {
        SFrame { parent: f.parent, names: f.names.push(name), values: f.values.push(v) }
    } else {
        SFrame { parent: f.parent, names: f.names, values: f.values.update(i, v) }
    }
}

/// The value bound to `name` in frame `env` or, failing that, in the frames it extends.
pub open spec fn lookup(frames: Seq<SFrame>, env: int, name: Seq<char>) -> Option<SValue>
    decreases env,
{
    if env < 0 || env >= frames.len() {
        None
    } else {
        match frame_get(frames[env], name) {
            Some(v) => Some(v),
            None => match frames[env].parent {
                Some(p) => if p < env {
                    lookup(frames, p as int, name)
                } else {
                    None
                },
                None => None,
            },
        }
    }
}

/// The frame, from `env` outward, that binds `name`, or -1 when none does.
pub open spec fn binding_frame(frames: Seq<SFrame>, env: int, name: Seq<char>) -> int
    decreases env,
{
    if env < 0 || env >= frames.len() {
        -1
    } else if frame_get(frames[env], name) is Some {
        env
    } else {
        match frames[env].parent {
            Some(p) => if p < env {
                binding_frame(frames, p as int, name)
            } else {
                -1
            },
            None => -1,
        }
    }
}

pub open spec fn define(st: SState, env: int, name: Seq<char>, v: SValue) -> SState {
    SState { frames: st.frames.update(env, frame_define(st.frames[env], name, v)), ..st }
}

/// Binds each name to the value at the same place, in order.
pub open spec fn define_all(st: SState, env: int, names: Seq<Seq<char>>, values: Seq<SValue>) -> SState
    decreases names.len(),
{
    if names.len() == 0 || values.len() == 0 {
        st
    } else {
        define(
            define_all(st, env, names.drop_last(), values.drop_last()),
            env,
            names.last(),
            values.last(),
        )
    }
}

/// A new empty frame that extends `parent`, and its index.
pub open spec fn new_frame(st: SState, parent: usize) -> (SState, usize) {
    (
        SState {
            frames: st.frames.push(SFrame { parent: Some(parent), names: Seq::empty(), values: Seq::empty() }),
            ..st
        },
        st.frames.len() as usize,
    )
}

/// A new empty frame that extends no other, and its index.
pub open spec fn new_root(st: SState) -> (SState, usize) {
    (
        SState {
            frames: st.frames.push(SFrame { parent: None, names: Seq::empty(), values: Seq::empty() }),
            ..st
        },
        st.frames.len() as usize,
    )
}

/// A new string holding `s`, and its handle.
pub open spec fn alloc_string(st: SState, s: Seq<char>) -> (SState, usize) {
    (SState { strings: st.strings.push(s), ..st }, st.strings.len() as usize)
}

pub open spec fn frame_ok(f: SFrame, index: int, n_frames: nat, n_strings: nat) -> bool {
    &&& match f.parent {
        Some(p) => p < index,
        None => true,
    }
    &&& f.names.len() == f.values.len()
    &&& values_ok(f.values, n_frames, n_strings)
}

/// Every frame extends an earlier one, and every handle a binding holds exists.
pub open spec fn state_ok(st: SState) -> bool {
    &&& st.frames.len() > 0
    &&& forall|i: int|
        0 <= i < st.frames.len() ==> frame_ok(
            #[trigger] st.frames[i],
            i,
            st.frames.len(),
            st.strings.len(),
        )
}

/// `b` extends `a`: it has at least the frames and strings of `a`, and the output of `a`
/// is a prefix of its output.
pub open spec fn grows(a: SState, b: SState) -> bool {
    &&& a.frames.len() <= b.frames.len()
    &&& a.strings.len() <= b.strings.len()
    &&& a.limit == b.limit
    &&& a.output.is_prefix_of(b.output)
}

pub proof fn lemma_grows_trans(a: SState, b: SState, c: SState)
    requires
        grows(a, b),
        grows(b, c),
    ensures
        grows(a, c),
{
    assert(c.output.subrange(0, a.output.len() as int) =~= b.output.subrange(0, a.output.len() as int));
}

pub proof fn lemma_grows_refl(a: SState)
    ensures
        grows(a, a),
{
    assert(a.output.subrange(0, a.output.len() as int) =~= a.output);
}

proof fn lemma_first_index(names: Seq<Seq<char>>, name: Seq<char>, i: int)
    requires
        0 <= i,
    ensures
        first_index(names, name, i) == -1 || (i <= first_index(names, name, i) < names.len()
            && names[first_index(names, name, i)] == name),
        first_index(names, name, i) == -1 ==> forall|j: int| i <= j < names.len() ==> names[j] != name,
    decreases names.len() - i,
{
    if i < names.len() && names[i] != name {
        lemma_first_index(names, name, i + 1);
    }
}

pub proof fn lemma_define_ok(st: SState, env: int, name: Seq<char>, v: SValue)
    requires
        state_ok(st),
        0 <= env < st.frames.len(),
        value_ok(v, st.frames.len(), st.strings.len()),
    ensures
        state_ok(define(st, env, name, v)),
        define(st, env, name, v).frames.len() == st.frames.len(),
        define(st, env, name, v).strings == st.strings,
        define(st, env, name, v).output == st.output,
        grows(st, define(st, env, name, v)),
{
    lemma_first_index(st.frames[env].names, name, 0);
    let st2 = define(st, env, name, v);
    assert forall|i: int| 0 <= i < st2.frames.len() implies frame_ok(
        #[trigger] st2.frames[i],
        i,
        st2.frames.len(),
        st2.strings.len(),
    ) by {
        if i == env {
            assert(frame_ok(st.frames[i], i, st.frames.len(), st.strings.len()));
            let f = st.frames[env];
            let nf = frame_define(f, name, v);
            assert forall|j: int| 0 <= j < nf.values.len() implies value_ok(
                #[trigger] nf.values[j],
                st2.frames.len(),
                st2.strings.len(),
            ) by {
                if j < f.values.len() && nf.values[j] == f.values[j] {
                    assert(value_ok(f.values[j], st.frames.len(), st.strings.len()));
                }
            }
        } else {
            assert(frame_ok(st.frames[i], i, st.frames.len(), st.strings.len()));
        }
    }
    lemma_grows_refl(st);
}

pub proof fn lemma_define_all_ok(st: SState, env: int, names: Seq<Seq<char>>, values: Seq<SValue>)
    requires
        state_ok(st),
        0 <= env < st.frames.len(),
        values_ok(values, st.frames.len(), st.strings.len()),
    ensures
        state_ok(define_all(st, env, names, values)),
        define_all(st, env, names, values).frames.len() == st.frames.len(),
        define_all(st, env, names, values).strings == st.strings,
        define_all(st, env, names, values).output == st.output,
        define_all(st, env, names, values).limit == st.limit,
    decreases names.len(),
{
    if names.len() == 0 || values.len() == 0 {
    } else {
        assert(values_ok(values.drop_last(), st.frames.len(), st.strings.len()));
        lemma_define_all_ok(st, env, names.drop_last(), values.drop_last());
        let mid = define_all(st, env, names.drop_last(), values.drop_last());
        assert(value_ok(values[values.len() - 1], st.frames.len(), st.strings.len()));
        lemma_define_ok(mid, env, names.last(), values.last());
    }
}

pub proof fn lemma_new_frame_ok(st: SState, parent: usize)
    requires
        state_ok(st),
        st.frames.len() <= usize::MAX,
        parent < st.frames.len(),
    ensures
        state_ok(new_frame(st, parent).0),
        new_frame(st, parent).1 == st.frames.len(),
        grows(st, new_frame(st, parent).0),
        new_frame(st, parent).0.frames.len() == st.frames.len() + 1,
        new_frame(st, parent).0.strings == st.strings,
        new_frame(st, parent).0.output == st.output,
{
    let st2 = new_frame(st, parent).0;
    assert forall|i: int| 0 <= i < st2.frames.len() implies frame_ok(
        #[trigger] st2.frames[i],
        i,
        st2.frames.len(),
        st2.strings.len(),
    ) by {
        if i < st.frames.len() {
            assert(frame_ok(st.frames[i], i, st.frames.len(), st.strings.len()));
            lemma_values_ok_grow(st.frames[i].values, st.frames.len(), st.strings.len(), st2.frames.len(), st2.strings.len());
        }
    }
    lemma_grows_refl(st);
}

pub proof fn lemma_new_root_ok(st: SState)
    requires
        state_ok(st),
        st.frames.len() <= usize::MAX,
    ensures
        state_ok(new_root(st).0),
        new_root(st).1 == st.frames.len(),
        grows(st, new_root(st).0),
{
    let st2 = new_root(st).0;
    assert forall|i: int| 0 <= i < st2.frames.len() implies frame_ok(
        #[trigger] st2.frames[i],
        i,
        st2.frames.len(),
        st2.strings.len(),
    ) by {
        if i < st.frames.len() {
            assert(frame_ok(st.frames[i], i, st.frames.len(), st.strings.len()));
            lemma_values_ok_grow(st.frames[i].values, st.frames.len(), st.strings.len(), st2.frames.len(), st2.strings.len());
        }
    }
    lemma_grows_refl(st);
}

pub proof fn lemma_alloc_ok(st: SState, s: Seq<char>)
    requires
        state_ok(st),
        st.strings.len() <= usize::MAX,
    ensures
        state_ok(alloc_string(st, s).0),
        alloc_string(st, s).1 == st.strings.len(),
        grows(st, alloc_string(st, s).0),
        alloc_string(st, s).0.frames == st.frames,
        alloc_string(st, s).0.output == st.output,
        alloc_string(st, s).0.strings.len() == st.strings.len() + 1,
{
    let st2 = alloc_string(st, s).0;
    assert forall|i: int| 0 <= i < st2.frames.len() implies frame_ok(
        #[trigger] st2.frames[i],
        i,
        st2.frames.len(),
        st2.strings.len(),
    ) by {
        assert(frame_ok(st.frames[i], i, st.frames.len(), st.strings.len()));
        lemma_values_ok_grow(st.frames[i].values, st.frames.len(), st.strings.len(), st2.frames.len(), st2.strings.len());
    }
    lemma_grows_refl(st);
}

/// A value found by `lookup` in a well-formed state mentions only existing handles.
pub proof fn lemma_lookup_ok(st: SState, env: int, name: Seq<char>)
    requires
        state_ok(st),
    ensures
        lookup(st.frames, env, name) matches Some(v) ==> value_ok(v, st.frames.len(), st.strings.len()),
    decreases env,
{
    if 0 <= env < st.frames.len() {
        let f = st.frames[env];
        assert(frame_ok(f, env, st.frames.len(), st.strings.len()));
        lemma_first_index(f.names, name, 0);
        match frame_get(f, name) {
            Some(v) => {
                let i = first_index(f.names, name, 0);
                assert(value_ok(f.values[i], st.frames.len(), st.strings.len()));
            },
            None => match f.parent {
                Some(p) => if p < env {
                    lemma_lookup_ok(st, p as int, name);
                },
                None => {},
            },
        }
    }
}

proof fn lemma_first_index_push(names: Seq<Seq<char>>, x: Seq<char>, y: Seq<char>, i: int)
    requires
        0 <= i <= names.len(),
    ensures
        x != y ==> first_index(names.push(x), y, i) == first_index(names, y, i),
        x == y && first_index(names, y, i) == -1 ==> first_index(names.push(x), y, i) == names.len(),
        first_index(names, y, i) != -1 ==> first_index(names.push(x), y, i) == first_index(names, y, i),
    decreases names.len() - i,
{
    if i < names.len() {
        lemma_first_index_push(names, x, y, i + 1);
    } else {
        assert(names.push(x)[i] == x);
        assert(first_index(names.push(x), y, i + 1) == -1);
    }
}

/// What binding `name` in a frame does to the frame's bindings.
proof fn lemma_frame_define_get(f: SFrame, name: Seq<char>, v: SValue, other: Seq<char>)
    requires
        f.names.len() == f.values.len(),
    ensures
        frame_get(frame_define(f, name, v), name) == Some(v),
        other != name ==> frame_get(frame_define(f, name, v), other) == frame_get(f, other),
        frame_define(f, name, v).parent == f.parent,
        frame_define(f, name, v).names.len() == frame_define(f, name, v).values.len(),
{
    lemma_first_index(f.names, name, 0);
    lemma_first_index(f.names, other, 0);
    lemma_first_index_push(f.names, name, name, 0);
    lemma_first_index_push(f.names, name, other, 0);
}

/// Binding names in turn leaves the frame well-shaped and keeps its parent.
proof fn lemma_define_all_shape(st: SState, env: int, names: Seq<Seq<char>>, values: Seq<SValue>)
    requires
        0 <= env < st.frames.len(),
        st.frames[env].names.len() == st.frames[env].values.len(),
    ensures
        define_all(st, env, names, values).frames.len() == st.frames.len(),
        define_all(st, env, names, values).frames[env].names.len() == define_all(
            st,
            env,
            names,
            values,
        ).frames[env].values.len(),
        define_all(st, env, names, values).frames[env].parent == st.frames[env].parent,
    decreases names.len(),
{
    if names.len() > 0 && values.len() > 0 {
        lemma_define_all_shape(st, env, names.drop_last(), values.drop_last());
        let mid = define_all(st, env, names.drop_last(), values.drop_last());
        lemma_frame_define_get(mid.frames[env], names.last(), values.last(), names.last());
    }
}

/// Binding names touches only the frames, and keeps their number.
pub proof fn lemma_define_all_keeps(st: SState, env: int, names: Seq<Seq<char>>, values: Seq<SValue>)
    requires
        0 <= env < st.frames.len(),
    ensures
        define_all(st, env, names, values).strings == st.strings,
        define_all(st, env, names, values).output == st.output,
        define_all(st, env, names, values).limit == st.limit,
        define_all(st, env, names, values).frames.len() == st.frames.len(),
    decreases names.len(),
{
    if names.len() > 0 && values.len() > 0 {
        lemma_define_all_keeps(st, env, names.drop_last(), values.drop_last());
    }
}

/// After binding names in turn, a name bound only once is bound to its value.
pub proof fn lemma_define_all_get(st: SState, env: int, names: Seq<Seq<char>>, values: Seq<SValue>, k: int)
    requires
        0 <= env < st.frames.len(),
        st.frames[env].names.len() == st.frames[env].values.len(),
        names.len() == values.len(),
        0 <= k < names.len(),
        forall|j: int| 0 <= j < names.len() && j != k ==> names[j] != names[k],
    ensures
        frame_get(define_all(st, env, names, values).frames[env], names[k]) == Some(values[k]),
        define_all(st, env, names, values).frames.len() == st.frames.len(),
    decreases names.len(),
{
    lemma_define_all_shape(st, env, names, values);
    let mid = define_all(st, env, names.drop_last(), values.drop_last());
    lemma_define_all_shape(st, env, names.drop_last(), values.drop_last());
    lemma_frame_define_get(mid.frames[env], names.last(), values.last(), names[k]);
    if k < names.len() - 1 {
        assert(names[names.len() - 1] != names[k]);
        lemma_define_all_get(st, env, names.drop_last(), values.drop_last(), k);
    }
}

/// Looking a name up from the frame where it was just defined gives the value
/// it was given.
pub proof fn law_lookup_after_define(st: SState, env: int, name: Seq<char>, v: SValue)
    requires
        state_ok(st),
        0 <= env < st.frames.len(),
    ensures
        lookup(define(st, env, name, v).frames, env, name) == Some(v),
{
    assert(frame_ok(st.frames[env], env, st.frames.len(), st.strings.len()));
    lemma_frame_define_get(st.frames[env], name, v, name);
}

/// Defining a name changes the binding of no other name, as seen from any frame.
pub proof fn law_define_keeps_other_names(
    st: SState,
    env: int,
    name: Seq<char>,
    v: SValue,
    from: int,
    other: Seq<char>,
)
    requires
        state_ok(st),
        0 <= env < st.frames.len(),
        other != name,
    ensures
        lookup(define(st, env, name, v).frames, from, other) == lookup(st.frames, from, other),
    decreases from,
{
    assert(frame_ok(st.frames[env], env, st.frames.len(), st.strings.len()));
    lemma_frame_define_get(st.frames[env], name, v, other);
    if 0 <= from < st.frames.len() {
        match st.frames[from].parent {
            Some(p) => if p < from {
                law_define_keeps_other_names(st, env, name, v, p as int, other);
            },
            None => {},
        }
    }
}

/// After `set!` rebinds the nearest binding of a name, looking the name up
/// from the same frame gives the new value.
pub proof fn law_lookup_after_set(st: SState, env: int, name: Seq<char>, v: SValue)
    requires
        state_ok(st),
        binding_frame(st.frames, env, name) != -1,
    ensures
        lookup(define(st, binding_frame(st.frames, env, name), name, v).frames, env, name) == Some(v),
    decreases env,
{
    let f = binding_frame(st.frames, env, name);
    lemma_binding_frame_range(st, env, name);
    if f == env {
        law_lookup_after_define(st, env, name, v);
    } else {
        let p = st.frames[env].parent.unwrap();
        assert(binding_frame(st.frames, p as int, name) == f);
        law_lookup_after_set(st, p as int, name, v);
        let st2 = define(st, f, name, v);
        assert(st2.frames[env] == st.frames[env]);
    }
}

/// The frame that binds a name lies between the first frame and the one the
/// search starts from.
pub proof fn lemma_binding_frame_range(st: SState, env: int, name: Seq<char>)
    requires
        binding_frame(st.frames, env, name) != -1,
    ensures
        0 <= binding_frame(st.frames, env, name) <= env,
        env < st.frames.len(),
    decreases env,
{
    if frame_get(st.frames[env], name) is None {
        let p = st.frames[env].parent.unwrap();
        lemma_binding_frame_range(st, p as int, name);
    }
}

impl Interpreter {
    pub open spec fn ok(&self) -> bool {
        state_ok(self@)
    }

    pub proof fn lemma_frames_view(&self)
        ensures
            self@.frames.len() == self.frames@.len(),
            forall|i: int| 0 <= i < self.frames@.len() ==> #[trigger] self@.frames[i] == self.frames@[i]@,
            self@.strings.len() == self.strings@.len(),
            forall|i: int| 0 <= i < self.strings@.len() ==> #[trigger] self@.strings[i] == self.strings@[i]@,
    {
    }

    /// Index of `name` in frame `f`, if bound there.
    fn find_in_frame(&self, f: usize, name: &[char]) -> (r: Option<usize>)
        requires
            f < self.frames@.len(),
        ensures
            match r {
                Some(i) => first_index(self@.frames[f as int].names, name@, 0) == i && i < self.frames@[f as int].names@.len(),
                None => first_index(self@.frames[f as int].names, name@, 0) == -1,
            },
    {
        let ghost names = self@.frames[f as int].names;
        let frame = &self.frames[f];
        let mut i: usize = 0;
        while i < frame.names.len()
            invariant
                i <= frame.names@.len(),
                f < self.frames@.len(),
                *frame == self.frames@[f as int],
                names == self@.frames[f as int].names,
                names == names_view(frame.names@),
                first_index(names, name@, i as int) == first_index(names, name@, 0),
            decreases frame.names@.len() - i,
        {
            if chars_eq(&frame.names[i], name) {
                proof {
                    assert(names[i as int] == frame.names@[i as int]@);
                }
                return Some(i);
            }
            proof {
                assert(names[i as int] == frame.names@[i as int]@);
            }
            i = i + 1;
        }
        None
    }

    /// Binds `name` to `v` in frame `env`.
    pub fn define(&mut self, env: usize, name: Vec<char>, v: Value)
        requires
            old(self).ok(),
            env < old(self).frames@.len(),
            value_ok(v@, old(self)@.frames.len(), old(self)@.strings.len()),
        ensures
            final(self).ok(),
            final(self)@ == define(old(self)@, env as int, name@, v@),
            grows(old(self)@, final(self)@),
    {
        proof {
            lemma_define_ok(self@, env as int, name@, v@);
            lemma_first_index(self@.frames[env as int].names, name@, 0);
        }
        let ghost old_frames = self.frames@;
        match self.find_in_frame(env, &name) {
            Some(i) => {
                proof {
                    assert(self.frames@[env as int].names@.len() == self.frames@[env as int].values@.len()) by {
                        assert(frame_ok(self@.frames[env as int], env as int, self@.frames.len(), self@.strings.len()));
                        lemma_values_view(self.frames@[env as int].values@);
                    }
                }
                let ghost vv = v@;
                self.frames[env].values[i] = v;
                proof {
                    let of = old_frames[env as int];
                    lemma_values_view(of.values@);
                    lemma_values_view(self.frames@[env as int].values@);
                    assert(values_view(self.frames@[env as int].values@) =~= values_view(of.values@).update(i as int, vv));
                    assert(frames_view(self.frames@) =~= frames_view(old_frames).update(env as int, frame_define(frames_view(old_frames)[env as int], name@, vv)));
                }
            },
            None => {
                let ghost vv = v@;
                let ghost nn = name@;
                self.frames[env].names.push(name);
                self.frames[env].values.push(v);
                proof {
                    let of = old_frames[env as int];
                    lemma_values_view_push(of.values@, self.frames@[env as int].values@.last());
                    assert(self.frames@[env as int].values@ =~= of.values@.push(self.frames@[env as int].values@.last()));
                    assert(names_view(self.frames@[env as int].names@) =~= names_view(of.names@).push(nn));
                    assert(frames_view(self.frames@) =~= frames_view(old_frames).update(env as int, frame_define(frames_view(old_frames)[env as int], nn, vv)));
                }
            },
        }
    }

    /// A new empty frame extending `parent`; returns its index.
    pub fn new_frame(&mut self, parent: usize) -> (r: usize)
        requires
            old(self).ok(),
            parent < old(self).frames@.len(),
        ensures
            final(self).ok(),
            (final(self)@, r) == new_frame(old(self)@, parent),
            grows(old(self)@, final(self)@),
    {
        let _n = self.frames.len();
        proof {
            lemma_new_frame_ok(self@, parent);
        }
        let ghost old_frames = self.frames@;
        let r = self.frames.len();
        self.frames.push(Frame { parent: Some(parent), names: Vec::new(), values: Vec::new() });
        proof {
            assert(names_view(Seq::<Vec<char>>::empty()) =~= Seq::<Seq<char>>::empty());
            assert(frames_view(self.frames@) =~= frames_view(old_frames).push(SFrame { parent: Some(parent), names: Seq::empty(), values: Seq::empty() }));
        }
        r
    }

    /// A new empty frame that extends no other; returns its index.
    pub fn new_root_frame(&mut self) -> (r: usize)
        requires
            old(self).ok(),
        ensures
            final(self).ok(),
            (final(self)@, r) == new_root(old(self)@),
            grows(old(self)@, final(self)@),
    {
        let _n = self.frames.len();
        proof {
            lemma_new_root_ok(self@);
        }
        let ghost old_frames = self.frames@;
        let r = self.frames.len();
        self.frames.push(Frame { parent: None, names: Vec::new(), values: Vec::new() });
        proof {
            assert(names_view(Seq::<Vec<char>>::empty()) =~= Seq::<Seq<char>>::empty());
            assert(frames_view(self.frames@) =~= frames_view(old_frames).push(SFrame { parent: None, names: Seq::empty(), values: Seq::empty() }));
        }
        r
    }

    /// A new string holding `s`; returns its handle.
    pub fn alloc_string(&mut self, s: Vec<char>) -> (r: usize)
        requires
            old(self).ok(),
        ensures
            final(self).ok(),
            (final(self)@, r) == alloc_string(old(self)@, s@),
            grows(old(self)@, final(self)@),
    {
        let _n = self.strings.len();
        proof {
            lemma_alloc_ok(self@, s@);
        }
        let ghost old_strings = self.strings@;
        let ghost sv = s@;
        let r = self.strings.len();
        self.strings.push(s);
        proof {
            assert(strings_view(self.strings@) =~= strings_view(old_strings).push(sv));
        }
        r
    }

    /// The frame, from `env` outward, that binds `name`.
    pub fn binding_frame(&self, env: usize, name: &[char]) -> (r: Option<usize>)
        requires
            self.ok(),
        ensures
            match r {
                Some(f) => binding_frame(self@.frames, env as int, name@) == f as int && f < self@.frames.len(),
                None => binding_frame(self@.frames, env as int, name@) == -1,
            },
    {
        if env >= self.frames.len() {
            return None;
        }
        let mut cur = env;
        loop
            invariant
                self.ok(),
                cur < self.frames@.len(),
                binding_frame(self@.frames, cur as int, name@) == binding_frame(self@.frames, env as int, name@),
            decreases cur,
        {
            proof {
                assert(frame_ok(self@.frames[cur as int], cur as int, self@.frames.len(), self@.strings.len()));
                self.lemma_frames_view();
            }
            match self.find_in_frame(cur, name) {
                Some(_) => {
                    return Some(cur);
                },
                None => {},
            }
            match self.frames[cur].parent {
                Some(p) => {
                    if p >= cur {
                        return None;
                    }
                    cur = p;
                },
                None => {
                    return None;
                },
            }
        }
    }

    /// The value bound to `name` as seen from frame `env`.
    pub fn lookup(&self, env: usize, name: &[char]) -> (r: Option<Value>)
        requires
            self.ok(),
        ensures
            match lookup(self@.frames, env as int, name@) {
                Some(v) => r matches Some(x) && x@ == v,
                None => r is None,
            },
            r matches Some(x) ==> value_ok(x@, self@.frames.len(), self@.strings.len()),
    {
        proof {
            lemma_lookup_ok(self@, env as int, name@);
        }
        if env >= self.frames.len() {
            return None;
        }
        let mut cur = env;
        loop
            invariant
                self.ok(),
                cur < self.frames@.len(),
                lookup(self@.frames, cur as int, name@) == lookup(self@.frames, env as int, name@),
            decreases cur,
        {
            proof {
                assert(frame_ok(self@.frames[cur as int], cur as int, self@.frames.len(), self@.strings.len()));
            }
            match self.find_in_frame(cur, name) {
                Some(i) => {
                    proof {
                        lemma_values_view(self.frames@[cur as int].values@);
                    }
                    return Some(self.frames[cur].values[i].copy());
                },
                None => {},
            }
            match self.frames[cur].parent {
                Some(p) => {
                    cur = p;
                },
                None => {
                    return None;
                },
            }
        }
    }
}

} // verus!
