use vstd::prelude::*;
use vstd::string::*;
use crate::value::{RucketVal, RucketErr, ValView, ErrView, Primitive, copy_val, names_view};

verus! {

/// One scope: its bindings, in order of definition (a later binding of a
/// name hides an earlier one), and the index of its parent frame.
pub struct Frame {
    bindings: Vec<(String, RucketVal)>,
    parent: Option<usize>,
}

/// The arena of all frames of a program run, and the cells that boxes
/// address. Frames are never removed while the arena lives, so an index held
/// by a closure stays valid; the whole arena is reclaimed at once when it is
/// dropped.
pub struct Env {
    frames: Vec<Frame>,
    boxes: Vec<RucketVal>,
    address: String,
}

/// Model of a frame: a map from names to values and the parent's index.
pub struct FrameView {
    pub vars: Map<Seq<char>, ValView>,
    pub parent: Option<nat>,
}

/// Model of the arena. `address` is the host's text for where the arena's
/// storage was placed when it was made.
pub struct EnvView {
    pub frames: Seq<FrameView>,
    pub boxes: Seq<ValView>,
    pub address: Seq<char>,
}

pub open spec fn is_hex_digit(c: char) -> bool {
    ('0' <= c && c <= '9') || ('a' <= c && c <= 'f') || ('A' <= c && c <= 'F')
}

/// Text in the host's pointer notation: `0x` and at least one hex digit.
pub open spec fn pointer_shaped(s: Seq<char>) -> bool {
    &&& s.len() >= 3
    &&& s[0] == '0'
    &&& s[1] == 'x'
    &&& forall|i: int| 2 <= i < s.len() ==> is_hex_digit(#[trigger] s[i])
}

/// Relies on the `{:p}` formatting of std's `fmt::Pointer` for raw pointers:
/// `0x` followed by the address in hexadecimal.
#[verifier::external_body]
fn pointer_text(frames: &Vec<Frame>) -> (r: String)
    ensures
        pointer_shaped(r@),
{
    format!("{:p}", frames.as_ptr())
}

/// The map that a sequence of bindings defines: later ones win.
pub open spec fn bind_map(s: Seq<(String, RucketVal)>) -> Map<Seq<char>, ValView>
    decreases s.len(),
{
    if s.len() == 0 {
        Map::empty()
    } else {
        bind_map(s.drop_last()).insert(s.last().0@, s.last().1@)
    }
}

pub closed spec fn frame_view(f: Frame) -> FrameView {
    FrameView {
        vars: bind_map(f.bindings@),
        parent: match f.parent {
            Some(p) => Some(p as nat),
            None => None,
        },
    }
}

impl Env {
    pub closed spec fn view(&self) -> EnvView {
        EnvView {
            frames: Seq::new(self.frames@.len(), |i: int| frame_view(self.frames@[i])),
            boxes: Seq::new(self.boxes@.len(), |i: int| self.boxes@[i]@),
            address: self.address@,
        }
    }

    /// Every parent index is smaller than the index of its child.
    pub closed spec fn wf(&self) -> bool {
        &&& forall|i: int|
            0 <= i < self.frames@.len() ==> match (#[trigger] self.frames@[i]).parent {
                Some(p) => p < i,
                None => true,
            }
        &&& pointer_shaped(self.address@)
    }
}

impl EnvView {
    pub open spec fn has_frame(&self, f: int) -> bool {
        0 <= f < self.frames.len()
    }

    /// Every parent index is smaller than the index of its child.
    pub open spec fn wf(&self) -> bool {
        forall|i: int|
            0 <= i < self.frames.len() ==> match (#[trigger] self.frames[i]).parent {
                Some(p) => p < i,
                None => true,
            }
    }
}

/// The index of the nearest frame, from `f` up the parent chain, that binds
/// `name`.
pub open spec fn owner(st: EnvView, f: int, name: Seq<char>) -> Option<nat>
    decreases f,
{
    if !st.has_frame(f) {
        None
    } else if st.frames[f].vars.contains_key(name) {
        Some(f as nat)
    } else {
        match st.frames[f].parent {
            Some(p) => if p < f {
                owner(st, p as int, name)
            } else {
                None
            },
            None => None,
        }
    }
}

/// The value that `name` has when seen from frame `f`.
pub open spec fn lookup_spec(st: EnvView, f: int, name: Seq<char>) -> Option<ValView> {
    match owner(st, f, name) {
        Some(g) => Some(st.frames[g as int].vars[name]),
        None => None,
    }
}

/// `st` with `name` bound to `v` in frame `f`.
pub open spec fn define_spec(st: EnvView, f: int, name: Seq<char>, v: ValView) -> EnvView {
    EnvView {
        frames: st.frames.update(
            f,
            FrameView { vars: st.frames[f].vars.insert(name, v), parent: st.frames[f].parent },
        ),
        boxes: st.boxes,
        address: st.address,
    }
}

/// Assignment: the nearest binding of `name` is replaced; no binding at all
/// is an error.
pub open spec fn assign_spec(st: EnvView, f: int, name: Seq<char>, v: ValView) -> Result<
    EnvView,
    ErrView,
> {
    match owner(st, f, name) {
        Some(g) => Ok(define_spec(st, g as int, name, v)),
        None => Err(ErrView::UnboundIdentifier(name)),
    }
}

/// The map binding the first `n` names to the first `n` values.
pub open spec fn bind_pairs(names: Seq<Seq<char>>, vals: Seq<ValView>, n: nat) -> Map<
    Seq<char>,
    ValView,
>
    decreases n,
{
    if n == 0 || n > names.len() || n > vals.len() {
        Map::empty()
    } else {
        bind_pairs(names, vals, (n - 1) as nat).insert(names[n - 1], vals[n - 1])
    }
}

/// `st` with a new frame, child of `parent`, binding `names` to `vals`.
pub open spec fn child_spec(
    st: EnvView,
    parent: int,
    names: Seq<Seq<char>>,
    vals: Seq<ValView>,
) -> EnvView {
    EnvView {
        frames: st.frames.push(
            FrameView { vars: bind_pairs(names, vals, names.len()), parent: Some(parent as nat) },
        ),
        boxes: st.boxes,
        address: st.address,
    }
}

proof fn lemma_bind_map_last(s: Seq<(String, RucketVal)>, name: Seq<char>, i: int)
    requires
        0 <= i < s.len(),
        s[i].0@ == name,
        forall|j: int| i < j < s.len() ==> (#[trigger] s[j]).0@ != name,
    ensures
        bind_map(s).contains_key(name),
        bind_map(s)[name] == s[i].1@,
    decreases s.len(),
{
    if i < s.len() - 1 {
        lemma_bind_map_last(s.drop_last(), name, i);
    }
}

proof fn lemma_bind_map_absent(s: Seq<(String, RucketVal)>, name: Seq<char>)
    requires
        forall|j: int| 0 <= j < s.len() ==> (#[trigger] s[j]).0@ != name,
    ensures
        !bind_map(s).contains_key(name),
    decreases s.len(),
{
    if s.len() > 0 {
        lemma_bind_map_absent(s.drop_last(), name);
    }
}

impl Frame {
    /// Index of the last binding of `name`, if any.
    fn find(&self, name: &String) -> (r: Option<usize>)
        ensures
            match r {
                Some(i) => i < self.bindings@.len() && bind_map(self.bindings@).contains_key(name@)
                    && bind_map(self.bindings@)[name@] == self.bindings@[i as int].1@,
                None => !bind_map(self.bindings@).contains_key(name@),
            },
    {
        let mut i: usize = self.bindings.len();
        while i > 0
            invariant
                i <= self.bindings@.len(),
                forall|j: int| i <= j < self.bindings@.len() ==> (#[trigger] self.bindings@[j]).0@ != name@,
            decreases i,
        {
            if self.bindings[i - 1].0 == *name {
                proof {
                    lemma_bind_map_last(self.bindings@, name@, i - 1);
                }
                return Some(i - 1);
            }
            i = i - 1;
        }
        proof {
            lemma_bind_map_absent(self.bindings@, name@);
        }
        None
    }
}

pub proof fn lemma_owner_frame(st: EnvView, f: int, name: Seq<char>)
    ensures
        match owner(st, f, name) {
            Some(g) => st.has_frame(g as int) && st.frames[g as int].vars.contains_key(name),
            None => true,
        },
    decreases f,
{
    if st.has_frame(f) && !st.frames[f].vars.contains_key(name) {
        match st.frames[f].parent {
            Some(p) => if p < f {
                lemma_owner_frame(st, p as int, name);
            },
            None => {},
        }
    }
}

/// The bindings of the global frame made by `Env::default_env`.
pub open spec fn default_bindings() -> Map<Seq<char>, ValView> {
    Map::empty().insert("+"@, ValView::Prim(Primitive::Add)).insert("-"@, ValView::Prim(Primitive::Sub)).insert(
        "*"@,
        ValView::Prim(Primitive::Mul),
    ).insert("="@, ValView::Prim(Primitive::NumEq)).insert("<"@, ValView::Prim(Primitive::Less)).insert(
        "equal?"@,
        ValView::Prim(Primitive::Equal),
    ).insert("assert!"@, ValView::Prim(Primitive::AssertTruthy)).insert(
        "box"@,
        ValView::Prim(Primitive::NewBox),
    ).insert("unbox"@, ValView::Prim(Primitive::Unbox)).insert(
        "set-box!"@,
        ValView::Prim(Primitive::SetBox),
    ).insert("active-object-count"@, ValView::Prim(Primitive::ActiveObjects)).insert(
        "memory-address"@,
        ValView::Prim(Primitive::MemoryAddress),
    ).insert("inspect-bytecode"@, ValView::Prim(Primitive::InspectBytecode))
}

impl Env {
    /// A fresh arena whose global frame (index 0) binds the primitives'
    /// names (see `default_bindings`).
    pub fn default_env() -> (r: Env)
        ensures
            r.wf(),
            r@.frames.len() == 1,
            r@.frames[0].vars == default_bindings(),
            r@.frames[0].parent is None,
            r@.boxes.len() == 0,
            pointer_shaped(r@.address),
    {
        let mut env = Env::new();
        env.define(0, String::from_str("+"), RucketVal::FuncV(Primitive::Add));
        env.define(0, String::from_str("-"), RucketVal::FuncV(Primitive::Sub));
        env.define(0, String::from_str("*"), RucketVal::FuncV(Primitive::Mul));
        env.define(0, String::from_str("="), RucketVal::FuncV(Primitive::NumEq));
        env.define(0, String::from_str("<"), RucketVal::FuncV(Primitive::Less));
        env.define(0, String::from_str("equal?"), RucketVal::FuncV(Primitive::Equal));
        env.define(0, String::from_str("assert!"), RucketVal::FuncV(Primitive::AssertTruthy));
        env.define(0, String::from_str("box"), RucketVal::FuncV(Primitive::NewBox));
        env.define(0, String::from_str("unbox"), RucketVal::FuncV(Primitive::Unbox));
        env.define(0, String::from_str("set-box!"), RucketVal::FuncV(Primitive::SetBox));
        env.define(
            0,
            String::from_str("active-object-count"),
            RucketVal::FuncV(Primitive::ActiveObjects),
        );
        env.define(0, String::from_str("memory-address"), RucketVal::FuncV(Primitive::MemoryAddress));
        env.define(
            0,
            String::from_str("inspect-bytecode"),
            RucketVal::FuncV(Primitive::InspectBytecode),
        );
        env
    }

    /// The arena with a single, empty root frame (index 0) and no boxes.
    pub fn new() -> (r: Env)
        ensures
            r.wf(),
            r@.frames.len() == 1,
            r@.frames[0].vars == Map::<Seq<char>, ValView>::empty(),
            r@.frames[0].parent is None,
            r@.boxes.len() == 0,
            pointer_shaped(r@.address),
    {
        let mut frames: Vec<Frame> = Vec::new();
        frames.push(Frame { bindings: Vec::new(), parent: None });
        let address = pointer_text(&frames);
        let r = Env { frames, boxes: Vec::new(), address };
        assert(r@.frames[0].vars =~= Map::<Seq<char>, ValView>::empty());
        r
    }

    pub fn num_frames(&self) -> (r: usize)
        ensures
            r == self@.frames.len(),
    {
        self.frames.len()
    }

    /// The host's pointer text for the arena (see `EnvView::address`).
    pub fn address(&self) -> (r: String)
        requires
            self.wf(),
        ensures
            r@ == self@.address,
            pointer_shaped(r@),
    {
        self.address.clone()
    }

    pub fn num_boxes(&self) -> (r: usize)
        ensures
            r == self@.boxes.len(),
    {
        self.boxes.len()
    }

    /// Binds `name` to `v` in frame `f` only, replacing any binding of it
    /// there.
    pub fn define(&mut self, f: usize, name: String, v: RucketVal)
        requires
            old(self).wf(),
            f < old(self)@.frames.len(),
        ensures
            final(self).wf(),
            final(self)@ == define_spec(old(self)@, f as int, name@, v@),
    {
        let ghost old_b = self.frames@[f as int].bindings@;
        let mut frame = Frame { bindings: Vec::new(), parent: None };
        std::mem::swap(&mut frame, &mut self.frames[f]);
        frame.bindings.push((name, v));
        std::mem::swap(&mut frame, &mut self.frames[f]);
        proof {
            assert(self.frames@[f as int].bindings@.drop_last() =~= old_b);
            assert(self@.frames =~= define_spec(old(self)@, f as int, name@, v@).frames);
            assert(self@.boxes =~= old(self)@.boxes);
        }
    }

    /// The value of `name` seen from frame `f`: the nearest binding up the
    /// parent chain.
    pub fn lookup(&self, f: usize, name: &String) -> (r: Result<RucketVal, RucketErr>)
        requires
            self.wf(),
            f < self@.frames.len(),
        ensures
            match (r, lookup_spec(self@, f as int, name@)) {
                (Ok(v), Some(w)) => v@ == w,
                (Err(e), None) => e@ == ErrView::UnboundIdentifier(name@),
                _ => false,
            },
    {
        match self.owner_of(f, name) {
            Some((g, i)) => Ok(copy_val(&self.frames[g].bindings[i].1)),
            None => Err(RucketErr::UnboundIdentifier(name.clone())),
        }
    }

    /// The nearest frame binding `name` and the position of the binding.
    fn owner_of(&self, f: usize, name: &String) -> (r: Option<(usize, usize)>)
        requires
            self.wf(),
            f < self@.frames.len(),
        ensures
            match r {
                Some((g, i)) => owner(self@, f as int, name@) == Some(g as nat) && g
                    < self.frames@.len() && i < self.frames@[g as int].bindings@.len()
                    && self@.frames[g as int].vars[name@] == self.frames@[g as int].bindings@[i as int].1@,
                None => owner(self@, f as int, name@) is None,
            },
    {
        let mut cur: usize = f;
        loop
            invariant
                self.wf(),
                cur < self@.frames.len(),
                owner(self@, f as int, name@) == owner(self@, cur as int, name@),
            decreases cur,
        {
            let found = self.frames[cur].find(name);
            match found {
                Some(i) => {
                    return Some((cur, i));
                },
                None => {},
            }
            match self.frames[cur].parent {
                Some(p) => {
                    cur = p;
                },
                None => {
                    return None;
                },
            }
        }
    }

    /// Replaces the nearest binding of `name` seen from frame `f`; an error,
    /// and no change, when no frame of the chain binds it.
    pub fn assign(&mut self, f: usize, name: &String, v: RucketVal) -> (r: Result<(), RucketErr>)
        requires
            old(self).wf(),
            f < old(self)@.frames.len(),
        ensures
            final(self).wf(),
            final(self)@.frames.len() == old(self)@.frames.len(),
            match (r, assign_spec(old(self)@, f as int, name@, v@)) {
                (Ok(()), Ok(st)) => final(self)@ == st,
                (Err(e), Err(x)) => e@ == x && final(self)@ == old(self)@,
                _ => false,
            },
    {
        match self.owner_of(f, name) {
            Some((g, _)) => {
                proof {
                    lemma_owner_frame(self@, f as int, name@);
                }
                self.define(g, name.clone(), v);
                Ok(())
            },
            None => Err(RucketErr::UnboundIdentifier(name.clone())),
        }
    }

    /// A new frame, child of `parent`, binding each name to the value at the
    /// same position; returns its index.
    pub fn child_frame(&mut self, parent: usize, names: &[String], vals: Vec<RucketVal>) -> (r:
        usize)
        requires
            old(self).wf(),
            parent < old(self)@.frames.len(),
            names@.len() == vals@.len(),
        ensures
            final(self).wf(),
            r == old(self)@.frames.len(),
            final(self)@ == child_spec(
                old(self)@,
                parent as int,
                names_view(names@),
                Seq::new(vals@.len(), |i: int| vals@[i]@),
            ),
    {
        let ghost nv = names_view(names@);
        let ghost vv = Seq::new(vals@.len(), |i: int| vals@[i]@);
        let mut bindings: Vec<(String, RucketVal)> = Vec::new();
        let mut vals = vals;
        let ghost vals0 = vals@;
        let mut rest: Vec<(String, RucketVal)> = Vec::new();
        // move the values out from the back, then put them in order
        let mut k: usize = vals.len();
        while k > 0
            invariant
                k <= vals0.len(),
                vals@ == vals0.subrange(0, k as int),
                names@.len() == vals0.len(),
                rest@.len() == vals0.len() - k,
                forall|j: int|
                    0 <= j < rest@.len() ==> (#[trigger] rest@[j]).0@ == names@[k + rest@.len() - 1 - j]@
                        && rest@[j].1 == vals0[k + rest@.len() - 1 - j],
            decreases k,
        {
            let v = vals.pop().unwrap();
            rest.push((names[k - 1].clone(), v));
            k = k - 1;
        }
        let mut i: usize = 0;
        while i < names.len()
            invariant
                names@.len() == vals0.len(),
                i <= names@.len(),
                rest@.len() == names@.len() - i,
                forall|j: int|
                    0 <= j < rest@.len() ==> (#[trigger] rest@[j]).0@ == names@[names@.len() - 1 - j]@
                        && rest@[j].1 == vals0[names@.len() - 1 - j],
                bindings@.len() == i,
                bind_map(bindings@) == bind_pairs(nv, vv, i as nat),
                nv == names_view(names@),
                vv == Seq::new(vals0.len(), |i: int| vals0[i]@),
            decreases names@.len() - i,
        {
            proof {
                let j = rest@.len() - 1;
                assert(rest@[j].0@ == names@[names@.len() - 1 - j]@);
                assert(names@.len() - 1 - j == i);
            }
            let pair = rest.pop().unwrap();
            let ghost old_b = bindings@;
            bindings.push(pair);
            proof {
                assert(bindings@.drop_last() =~= old_b);
                assert(pair.0@ == nv[i as int]);
                assert(pair.1@ == vv[i as int]);
            }
            i = i + 1;
        }
        self.frames.push(Frame { bindings, parent: Some(parent) });
        proof {
            assert(self@.frames =~= child_spec(old(self)@, parent as int, nv, vv).frames);
            assert(self@.boxes =~= old(self)@.boxes);
        }
        self.frames.len() - 1
    }

    /// A new box cell holding `v`; returns its index.
    pub fn new_box(&mut self, v: RucketVal) -> (r: usize)
        requires
            old(self).wf(),
        ensures
            final(self).wf(),
            r == old(self)@.boxes.len(),
            final(self)@ == (EnvView {
                frames: old(self)@.frames,
                boxes: old(self)@.boxes.push(v@),
                address: old(self)@.address,
            }),
    {
        self.boxes.push(v);
        proof {
            assert(self@.frames =~= old(self)@.frames);
            assert(self@.boxes =~= old(self)@.boxes.push(v@));
        }
        self.boxes.len() - 1
    }

    /// A copy of what box `i` holds.
    pub fn get_box(&self, i: usize) -> (r: RucketVal)
        requires
            i < self@.boxes.len(),
        ensures
            r@ == self@.boxes[i as int],
    {
        copy_val(&self.boxes[i])
    }

    /// Puts `v` in box `i` and returns what it held.
    pub fn set_box(&mut self, i: usize, v: RucketVal) -> (r: RucketVal)
        requires
            old(self).wf(),
            i < old(self)@.boxes.len(),
        ensures
            final(self).wf(),
            r@ == old(self)@.boxes[i as int],
            final(self)@ == (EnvView {
                frames: old(self)@.frames,
                boxes: old(self)@.boxes.update(i as int, v@),
                address: old(self)@.address,
            }),
    {
        let ghost nv = v@;
        let mut v = v;
        std::mem::swap(&mut v, &mut self.boxes[i]);
        proof {
            assert(self@.frames =~= old(self)@.frames);
            assert(self@.boxes =~= old(self)@.boxes.update(i as int, nv));
        }
        v
    }
}

} // verus!
