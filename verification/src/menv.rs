//! Environments: frames of bindings, chained by parent links.
//!
//! All frames of one interpreter live in a single arena, the `MalEnv`. A frame is named
//! by its index; a closure records the index of the frame in which it was created, and a
//! child frame records the index of its parent. Frames are only ever added, so an index
//! stays valid, and a parent always has a smaller index than its children.

use crate::text::str_eq;
use crate::types::{MalType, Value};
use vstd::prelude::*;

verus! {

/// Model of one frame: its parent, and the values bound in it.
pub struct Scope {
    pub parent: Option<nat>,
    pub vars: Map<Seq<char>, Value>,
}

/// Model of an environment: its frames by index, and the index of the frame in focus.
pub struct Scopes {
    pub frames: Seq<Scope>,
    pub current: nat,
}

/// The empty frame without a parent.
pub open spec fn root_scope() -> Scope {
    Scope { parent: None, vars: Map::empty() }
}

/// The value that `name` resolves to from frame `at`: the binding in the nearest frame
/// on the parent chain that has one.
pub open spec fn lookup(frames: Seq<Scope>, at: nat, name: Seq<char>) -> Option<Value>
    decreases at,
{
    if at >= frames.len() {
        None
    } else if frames[at as int].vars.contains_key(name) {
        Some(frames[at as int].vars[name])
    } else {
        match frames[at as int].parent {
            Some(p) => if p < at {
                lookup(frames, p, name)
            } else {
                None
            },
            None => None,
        }
    }
}

/// The frames after binding `name` to `value` in frame `at`; no other frame changes,
/// and nothing changes if `at` is the index of no frame.
pub open spec fn define(frames: Seq<Scope>, at: nat, name: Seq<char>, value: Value) -> Seq<
    Scope,
> {
    if at < frames.len() {
        frames.update(
            at as int,
            Scope { parent: frames[at as int].parent, vars: frames[at as int].vars.insert(name, value) },
        )
    } else {
        frames
    }
}

/// A frame that holds `vars` and whose parent is frame `parent`; it has no parent if
/// `parent` is the index of no frame.
pub open spec fn child_scope(frames: Seq<Scope>, parent: nat, vars: Map<Seq<char>, Value>) -> Scope {
    Scope {
        parent: if parent < frames.len() {
            Some(parent)
        } else {
            None
        },
        vars,
    }
}

/// The frames after adding an empty child of `parent`; the child gets the next index.
pub open spec fn extend(frames: Seq<Scope>, parent: nat) -> Seq<Scope> {
    frames.push(child_scope(frames, parent, Map::empty()))
}

/// The map that a sequence of bindings makes; a later binding of a name replaces an
/// earlier one.
pub open spec fn vars_of(pairs: Seq<(Seq<char>, Value)>) -> Map<Seq<char>, Value>
    decreases pairs.len(),
{
    if pairs.len() == 0 {
        Map::empty()
    } else {
        vars_of(pairs.drop_last()).insert(pairs.last().0, pairs.last().1)
    }
}

/// The models of a sequence of bindings.
pub open spec fn pairs_of(bindings: Seq<(String, MalType)>) -> Seq<(Seq<char>, Value)> {
    Seq::new(bindings.len(), |i: int| (bindings[i].0@, bindings[i].1@))
}

/// The model of an optional value.
pub open spec fn option_value(found: Option<MalType>) -> Option<Value> {
    match found {
        Some(v) => Some(v@),
        None => None,
    }
}

/// Looking a name up from a frame only reads that frame and earlier ones: two arenas
/// that agree on the frames up to `at` resolve every name from `at` alike.
pub proof fn lookup_reads_earlier_frames(
    first: Seq<Scope>,
    second: Seq<Scope>,
    at: nat,
    name: Seq<char>,
)
    requires
        at < first.len(),
        at < second.len(),
        forall|i: int| 0 <= i <= at ==> first[i] == second[i],
    ensures
        lookup(first, at, name) == lookup(second, at, name),
    decreases at,
{
    if !first[at as int].vars.contains_key(name) {
        match first[at as int].parent {
            Some(p) => {
                if p < at {
                    lookup_reads_earlier_frames(first, second, p, name);
                }
            },
            None => {},
        }
    }
}

/// A name that was just bound in a frame resolves, from that frame, to the value it was
/// bound to.
pub proof fn lookup_after_define(frames: Seq<Scope>, at: nat, name: Seq<char>, value: Value)
    requires
        at < frames.len(),
    ensures
        lookup(define(frames, at, name, value), at, name) == Some(value),
{
}

/// Binding a name in a frame changes what no other name resolves to from that frame.
pub proof fn define_leaves_other_names(
    frames: Seq<Scope>,
    at: nat,
    name: Seq<char>,
    value: Value,
    other: Seq<char>,
)
    requires
        at < frames.len(),
        other != name,
    ensures
        lookup(define(frames, at, name, value), at, other) == lookup(frames, at, other),
{
    let after = define(frames, at, name, value);
    if !frames[at as int].vars.contains_key(other) {
        match frames[at as int].parent {
            Some(p) => {
                if p < at {
                    lookup_reads_earlier_frames(frames, after, p, other);
                }
            },
            None => {},
        }
    }
}

/// Binding a name in a frame changes nothing for the frames before it: a child never
/// changes what its ancestors see.
pub proof fn define_leaves_earlier_frames(
    frames: Seq<Scope>,
    child: nat,
    name: Seq<char>,
    value: Value,
    at: nat,
    other: Seq<char>,
)
    requires
        at < child,
    ensures
        lookup(define(frames, child, name, value), at, other) == lookup(frames, at, other),
{
    if child < frames.len() {
        lookup_reads_earlier_frames(frames, define(frames, child, name, value), at, other);
    }
}

/// A new child resolves every name as its parent does.
pub proof fn child_reads_through(frames: Seq<Scope>, parent: nat, name: Seq<char>)
    requires
        parent < frames.len(),
    ensures
        lookup(extend(frames, parent), frames.len(), name) == lookup(frames, parent, name),
{
    lookup_reads_earlier_frames(frames, extend(frames, parent), parent, name);
}

/// A binding in a child hides the binding of the same name in its ancestors, and hides
/// no other.
pub proof fn child_shadows(
    frames: Seq<Scope>,
    parent: nat,
    name: Seq<char>,
    value: Value,
    other: Seq<char>,
)
    requires
        parent < frames.len(),
        other != name,
    ensures
        lookup(define(extend(frames, parent), frames.len(), name, value), frames.len(), name)
            == Some(value),
        lookup(define(extend(frames, parent), frames.len(), name, value), frames.len(), other)
            == lookup(frames, parent, other),
{
    let extended = extend(frames, parent);
    define_leaves_other_names(extended, frames.len(), name, value, other);
    child_reads_through(frames, parent, other);
}

/// One frame: the names bound in it, each once, and their values at the same positions.
struct Frame {
    parent: Option<usize>,
    names: Vec<String>,
    values: Vec<MalType>,
}

impl Frame {
    spec fn inv(&self) -> bool {
        &&& self.names.len() == self.values.len()
        &&& forall|i: int, j: int|
            0 <= i < j < self.names.len() ==> self.names[i]@ != self.names[j]@
    }

    spec fn has(&self, name: Seq<char>) -> bool {
        exists|i: int| 0 <= i < self.names.len() && #[trigger] self.names[i]@ == name
    }

    spec fn slot(&self, name: Seq<char>) -> int {
        choose|i: int| 0 <= i < self.names.len() && #[trigger] self.names[i]@ == name
    }

    spec fn vars(&self) -> Map<Seq<char>, Value> {
        Map::new(|name: Seq<char>| self.has(name), |name: Seq<char>| self.values[self.slot(name)]@)
    }

    spec fn model(&self) -> Scope {
        Scope {
            parent: match self.parent {
                Some(p) => Some(p as nat),
                None => None,
            },
            vars: self.vars(),
        }
    }

    /// The position of `key` among the names of this frame.
    fn find(&self, key: &str) -> (found: Option<usize>)
        requires
            self.inv(),
        ensures
            match found {
                Some(i) => i < self.names.len() && self.names[i as int]@ == key@ && self.slot(key@)
                    == i,
                None => !self.has(key@),
            },
    {
        let mut i: usize = 0;
        while i < self.names.len()
            invariant
                self.inv(),
                i <= self.names.len(),
                forall|j: int| 0 <= j < i ==> self.names[j]@ != key@,
            decreases self.names.len() - i,
        {
            if str_eq(self.names[i].as_str(), key) {
                assert(self.names[i as int]@ == key@);
                assert(self.names[self.slot(key@)]@ == key@);
                return Some(i);
            }
            i += 1;
        }
        None
    }

    /// Binds `key` to `value`, replacing what it was bound to.
    fn put(&mut self, key: &str, value: MalType)
        requires
            old(self).inv(),
        ensures
            final(self).inv(),
            final(self).parent == old(self).parent,
            final(self).vars() == old(self).vars().insert(key@, value@),
    {
        let ghost before = *self;
        match self.find(key) {
            Some(i) => {
                self.values.set(i, value);
                assert forall|name: Seq<char>| self.has(name) == before.has(name) by {
                    if before.has(name) {
                        assert(self.names[before.slot(name)]@ == name);
                    }
                    if self.has(name) {
                        assert(before.names[self.slot(name)]@ == name);
                    }
                }
                assert(self.vars() =~= before.vars().insert(key@, value@));
            },
            None => {
                self.names.push(key.to_owned());
                self.values.push(value);
                let ghost last = before.names.len() as int;
                assert(self.names[last]@ == key@);
                assert forall|name: Seq<char>| self.has(name) == (before.has(name) || name
                    == key@) by {
                    if before.has(name) {
                        assert(self.names[before.slot(name)]@ == name);
                    }
                    if self.has(name) && name != key@ {
                        assert(before.names[self.slot(name)]@ == name);
                    }
                }
                assert forall|name: Seq<char>| before.has(name) implies self.slot(name)
                    == before.slot(name) by {
                    assert(self.names[before.slot(name)]@ == name);
                }
                assert(self.vars() =~= before.vars().insert(key@, value@));
            },
        }
    }
}

/// An environment: the arena of all frames, with one frame in focus.
///
/// `set` and `get` work from the frame in focus; `set_in`, `get_from` and `child_of`
/// name a frame by its index.
pub struct MalEnv {
    frames: Vec<Frame>,
    current: usize,
}

impl View for MalEnv {
    type V = Scopes;

    closed spec fn view(&self) -> Scopes {
        Scopes {
            frames: Seq::new(self.frames.len() as nat, |i: int| self.frames[i].model()),
            current: self.current as nat,
        }
    }
}

impl MalEnv {
    /// What the representation keeps true: every frame binds each name once, and every
    /// parent link points to an earlier frame.
    pub closed spec fn inv(&self) -> bool {
        &&& self.current < self.frames.len()
        &&& forall|i: int| 0 <= i < self.frames.len() ==> (#[trigger] self.frames[i]).inv()
        &&& forall|i: int|
            0 <= i < self.frames.len() ==> match (#[trigger] self.frames[i]).parent {
                Some(p) => p < i,
                None => true,
            }
    }

    /// A usable environment: the representation is sound and the focus is one of its
    /// frames.
    pub open spec fn wf(&self) -> bool {
        &&& self.inv()
        &&& self@.current < self@.frames.len()
        &&& self@.frames.len() <= usize::MAX
    }

    /// A new environment. Without a parent it has a single empty root frame, in focus.
    /// With a parent it is the parent's arena with one more frame: an empty child of the
    /// frame that was in focus, now in focus itself.
    pub fn init(parent: Option<MalEnv>) -> (env: MalEnv)
        requires
            match parent {
                Some(p) => p.wf(),
                None => true,
            },
        ensures
            env.wf(),
            match parent {
                Some(p) => env@ == (Scopes {
                    frames: extend(p@.frames, p@.current),
                    current: p@.frames.len(),
                }),
                None => env@ == (Scopes { frames: seq![root_scope()], current: 0 }),
            },
    {
        match parent {
            Some(p) => {
                let mut env = p;
                let focus = env.current;
                let child = env.child_of(focus);
                env.current = child;
                assert(env@.frames =~= extend(p@.frames, p@.current));
                env
            },
            None => {
                let mut frames: Vec<Frame> = Vec::new();
                let root = Frame { parent: None, names: Vec::new(), values: Vec::new() };
                assert(root.vars() =~= Map::empty());
                frames.push(root);
                let env = MalEnv { frames, current: 0 };
                assert(env@.frames =~= seq![root_scope()]);
                env
            },
        }
    }

    /// Binds `key` to `value` in the frame in focus, replacing an earlier binding of
    /// `key` there. No other frame changes.
    pub fn set(&mut self, key: &str, value: MalType)
        requires
            old(self).wf(),
        ensures
            final(self).wf(),
            final(self)@ == (Scopes {
                frames: define(old(self)@.frames, old(self)@.current, key@, value@),
                current: old(self)@.current,
            }),
    {
        let at = self.current;
        self.set_in(at, key, value);
    }

    /// The value that `key` resolves to from the frame in focus: a copy of the binding in
    /// the nearest frame on the parent chain that has one, or `None` if none has.
    pub fn get(&self, key: &str) -> (found: Option<MalType>)
        requires
            self.wf(),
        ensures
            option_value(found) == lookup(self@.frames, self@.current, key@),
    {
        self.get_from(self.current, key)
    }

    /// The index of the frame in focus.
    pub fn current(&self) -> (at: usize)
        requires
            self.wf(),
        ensures
            at == self@.current,
            at < self@.frames.len(),
    {
        self.current
    }

    /// The number of frames.
    pub fn size(&self) -> (n: usize)
        ensures
            n == self@.frames.len(),
    {
        self.frames.len()
    }

    /// Adds an empty frame whose parent is the frame `parent`, and returns its index. If
    /// `parent` is not the index of a frame, the new frame has no parent.
    pub fn child_of(&mut self, parent: usize) -> (child: usize)
        requires
            old(self).wf(),
        ensures
            final(self).wf(),
            child == old(self)@.frames.len(),
            final(self)@ == (Scopes {
                frames: extend(old(self)@.frames, parent as nat),
                current: old(self)@.current,
            }),
    {
        let child = self.frames.len();
        let link = if parent < child {
            Some(parent)
        } else {
            None
        };
        let frame = Frame { parent: link, names: Vec::new(), values: Vec::new() };
        assert(frame.vars() =~= Map::empty());
        self.frames.push(frame);
        assert(self@.frames =~= extend(old(self)@.frames, parent as nat));
        child
    }

    /// Adds a frame whose parent is the frame `parent` and which holds `bindings`, made in
    /// order, and returns its index. If `parent` is not the index of a frame, the new
    /// frame has no parent.
    pub fn child_with(&mut self, parent: usize, bindings: Vec<(String, MalType)>) -> (child: usize)
        requires
            old(self).wf(),
        ensures
            final(self).wf(),
            child == old(self)@.frames.len(),
            final(self)@ == (Scopes {
                frames: old(self)@.frames.push(
                    child_scope(old(self)@.frames, parent as nat, vars_of(pairs_of(bindings@))),
                ),
                current: old(self)@.current,
            }),
    {
        let ghost before = self@;
        let child = self.child_of(parent);
        for pair in it: bindings
            invariant
                self.wf(),
                it.seq() == bindings@,
                child == before.frames.len(),
                self@ == (Scopes {
                    frames: before.frames.push(
                        child_scope(
                            before.frames,
                            parent as nat,
                            vars_of(pairs_of(bindings@.take(it.index() as int))),
                        ),
                    ),
                    current: before.current,
                }),
        {
            let ghost k = it.index() as int;
            assert(pairs_of(bindings@.take(k + 1)).drop_last() =~= pairs_of(bindings@.take(k)));
            self.set_in(child, pair.0.as_str(), pair.1);
            assert(self@.frames =~= before.frames.push(
                child_scope(
                    before.frames,
                    parent as nat,
                    vars_of(pairs_of(bindings@.take(k + 1))),
                ),
            ));
        }
        assert(bindings@.take(bindings@.len() as int) =~= bindings@);
        child
    }

    /// Binds `key` to `value` in frame `at`, replacing an earlier binding of `key`
    /// there. No other frame changes. If `at` is not the index of a frame, nothing
    /// changes.
    pub fn set_in(&mut self, at: usize, key: &str, value: MalType)
        requires
            old(self).wf(),
        ensures
            final(self).wf(),
            final(self)@ == (Scopes {
                frames: define(old(self)@.frames, at as nat, key@, value@),
                current: old(self)@.current,
            }),
    {
        if at >= self.frames.len() {
            return;
        }
        let ghost before = *self;
        let mut frame = Frame { parent: None, names: Vec::new(), values: Vec::new() };
        core::mem::swap(&mut frame, &mut self.frames[at]);
        frame.put(key, value);
        self.frames.set(at, frame);
        assert(self@.frames =~= define(before@.frames, at as nat, key@, value@));
    }

    /// The value that `key` resolves to from frame `at`, as `get_from` returns it,
    /// borrowed from the frame that holds it.
    pub fn peek(&self, at: usize, key: &str) -> (found: Option<&MalType>)
        requires
            self.wf(),
        ensures
            match found {
                Some(v) => lookup(self@.frames, at as nat, key@) == Some(v@),
                None => lookup(self@.frames, at as nat, key@) is None,
            },
    {
        if at >= self.frames.len() {
            return None;
        }
        let mut i: usize = at;
        loop
            invariant
                self.wf(),
                i < self.frames.len(),
                lookup(self@.frames, i as nat, key@) == lookup(self@.frames, at as nat, key@),
            decreases i,
        {
            let frame = &self.frames[i];
            match frame.find(key) {
                Some(k) => {
                    assert(frame.has(key@));
                    return Some(&frame.values[k]);
                },
                None => {
                    match frame.parent {
                        Some(p) => {
                            i = p;
                        },
                        None => {
                            return None;
                        },
                    }
                },
            }
        }
    }

    /// The value that `key` resolves to from frame `at`: a copy of the binding in the
    /// nearest frame on the parent chain of `at` that has one. `None` if none has, or if
    /// `at` is not the index of a frame.
    pub fn get_from(&self, at: usize, key: &str) -> (found: Option<MalType>)
        requires
            self.wf(),
        ensures
            option_value(found) == lookup(self@.frames, at as nat, key@),
    {
        match self.peek(at, key) {
            Some(v) => Some(v.clone()),
            None => None,
        }
    }
}

} // verus!
