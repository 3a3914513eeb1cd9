//! The store of shared objects: lists and environment frames.
//!
//! A handle is an index into the store, so "the same object" means "the same
//! index", a list may hold a handle of itself, and a frame may hold a closure
//! that captured that very frame.
use vstd::prelude::*;
use crate::error::{AresError, AresErrorView, AresResult};
use crate::value::{Env, ListRef, Value, ValueView, views};

verus! {

/// One scope level: its own bindings and the frame it was opened in.
struct Frame {
    bindings: Vec<(String, Value)>,
    parent: Option<Env>,
}

/// One scope level, as plain mathematical data.
pub struct FrameView {
    pub bindings: Map<Seq<char>, ValueView>,
    pub parent: Option<Env>,
}

/// The store, as plain mathematical data: the elements of each list and the
/// contents of each frame, by index.
pub struct HeapView {
    pub lists: Seq<Seq<ValueView>>,
    pub frames: Seq<FrameView>,
}

/// The store of lists and frames.
pub struct Heap {
    lists: Vec<Vec<Value>>,
    frames: Vec<Frame>,
}

/// The mapping that a sequence of definitions leaves behind: a later
/// definition of a name replaces an earlier one.
pub open spec fn bound(defs: Seq<(Seq<char>, ValueView)>) -> Map<Seq<char>, ValueView>
    decreases defs.len(),
{
    if defs.len() == 0 {
        Map::empty()
    } else {
        bound(defs.drop_last()).insert(defs.last().0, defs.last().1)
    }
}

/// The definitions of a sequence of name-value pairs, as plain data.
pub open spec fn defs_view(defs: Seq<(String, Value)>) -> Seq<(Seq<char>, ValueView)> {
    defs.map_values(|d: (String, Value)| (d.0@, d.1@))
}

impl HeapView {
    /// Whether every handle in `v` refers to an object of this store.
    pub open spec fn holds(self, v: ValueView) -> bool {
        match v {
            ValueView::List(l) => l.index < self.lists.len(),
            ValueView::Lambda(p) => p.bodies.index < self.lists.len() && p.environment.index
                < self.frames.len(),
            _ => true,
        }
    }

    /// Whether every value of the sequence is held.
    pub open spec fn holds_all(self, vs: Seq<ValueView>) -> bool {
        forall|i: int| 0 <= i < vs.len() ==> self.holds(#[trigger] vs[i])
    }

    /// Every stored value refers to stored objects only, and the parent of a
    /// frame is a frame that was made before it.
    pub open spec fn wf(self) -> bool {
        &&& forall|l: int, i: int|
            0 <= l < self.lists.len() && 0 <= i < self.lists[l].len() ==> self.holds(
                #[trigger] self.lists[l][i],
            )
        &&& forall|f: int, name: Seq<char>|
            0 <= f < self.frames.len() && self.frames[f].bindings.contains_key(name)
                ==> self.holds(#[trigger] self.frames[f].bindings[name])
        &&& forall|f: int|
            0 <= f < self.frames.len() ==> match (#[trigger] self.frames[f]).parent {
                Some(p) => p.index < f,
                None => true,
            }
    }

    /// Whether the frame `env` itself has a binding for `name`.
    pub open spec fn binds(self, env: Env, name: Seq<char>) -> bool {
        env.index < self.frames.len() && self.frames[env.index as int].bindings.contains_key(name)
    }

    /// The frame that is `steps` parent links up from `env`, if the chain is
    /// that long.
    pub open spec fn ancestor(self, env: Env, steps: nat) -> Option<Env>
        decreases steps,
    {
        if env.index >= self.frames.len() {
            None
        } else if steps == 0 {
            Some(env)
        } else {
            match self.frames[env.index as int].parent {
                Some(p) => self.ancestor(p, (steps - 1) as nat),
                None => None,
            }
        }
    }

    /// What `name` denotes in frame `env`: the binding of the nearest frame on
    /// the parent chain that has one.
    pub open spec fn resolve(self, env: Env, name: Seq<char>) -> Option<ValueView>
        decreases env.index,
    {
        if env.index >= self.frames.len() {
            None
        } else if self.frames[env.index as int].bindings.contains_key(name) {
            Some(self.frames[env.index as int].bindings[name])
        } else {
            match self.frames[env.index as int].parent {
                Some(p) => if p.index < env.index {
                    self.resolve(p, name)
                } else {
                    None
                },
                None => None,
            }
        }
    }
}

impl Frame {
    spec fn view(&self) -> FrameView {
        FrameView { bindings: bound(defs_view(self.bindings@)), parent: self.parent }
    }
}

impl View for Heap {
    type V = HeapView;

    closed spec fn view(&self) -> HeapView {
        HeapView {
            lists: self.lists@.map_values(|l: Vec<Value>| views(l@)),
            frames: self.frames@.map_values(|f: Frame| f.view()),
        }
    }
}

impl Heap {
    /// The invariant of the store.
    pub open spec fn wf(&self) -> bool {
        self@.wf()
    }

    /// An empty store.
    pub fn new() -> (res: Heap)
        ensures
            res.wf(),
            res@.lists.len() == 0,
            res@.frames.len() == 0,
    {
        Heap { lists: Vec::new(), frames: Vec::new() }
    }

    /// The number of list objects.
    pub fn list_count(&self) -> (res: usize)
        ensures
            res == self@.lists.len(),
    {
        self.lists.len()
    }

    /// The number of frames.
    pub fn frame_count(&self) -> (res: usize)
        ensures
            res == self@.frames.len(),
    {
        self.frames.len()
    }

    /// Whether every handle in `value` refers to an object of this store.
    pub fn holds(&self, value: &Value) -> (res: bool)
        ensures
            res == self@.holds(value@),
    {
        match value {
            Value::List(l) => l.index < self.lists.len(),
            Value::Lambda(p) => p.bodies().index < self.lists.len() && p.environment().index
                < self.frames.len(),
            _ => true,
        }
    }

    /// Whether every handle in every one of `values` refers to an object of
    /// this store.
    pub fn holds_all(&self, values: &Vec<Value>) -> (res: bool)
        ensures
            res == self@.holds_all(views(values@)),
    {
        let mut i: usize = 0;
        while i < values.len()
            invariant
                i <= values.len(),
                forall|j: int| 0 <= j < i ==> self@.holds(#[trigger] views(values@)[j]),
            decreases values.len() - i,
        {
            if !self.holds(&values[i]) {
                proof {
                    assert(!self@.holds(views(values@)[i as int]));
                }
                return false;
            }
            i = i + 1;
        }
        true
    }

    /// Stores a new list object with the given elements and hands out its
    /// handle; every other object stays as it was.
    pub fn new_list(&mut self, items: Vec<Value>) -> (res: ListRef)
        requires
            old(self).wf(),
            old(self)@.holds_all(views(items@)),
        ensures
            final(self).wf(),
            res.index == old(self)@.lists.len(),
            final(self)@.lists == old(self)@.lists.push(views(items@)),
            final(self)@.frames == old(self)@.frames,
    {
        let index = self.lists.len();
        self.lists.push(items);
        proof {
            assert(self@.lists =~= old(self)@.lists.push(views(items@)));
            assert(self@.frames =~= old(self)@.frames);
        }
        ListRef { index }
    }

    /// The number of elements of a list.
    pub fn list_len(&self, list: ListRef) -> (res: usize)
        requires
            list.index < self@.lists.len(),
        ensures
            res == self@.lists[list.index as int].len(),
    {
        self.lists[list.index].len()
    }

    /// The element of a list at a position.
    pub fn list_get(&self, list: ListRef, i: usize) -> (res: &Value)
        requires
            list.index < self@.lists.len(),
            i < self@.lists[list.index as int].len(),
        ensures
            res@ == self@.lists[list.index as int][i as int],
    {
        &self.lists[list.index][i]
    }

    /// Appends a value to a list object. Every handle of the list sees the new
    /// element; the value may be a handle of the list itself.
    pub fn list_push(&mut self, list: ListRef, value: Value)
        requires
            old(self).wf(),
            list.index < old(self)@.lists.len(),
            old(self)@.holds(value@),
        ensures
            final(self).wf(),
            final(self)@.lists == old(self)@.lists.update(
                list.index as int,
                old(self)@.lists[list.index as int].push(value@),
            ),
            final(self)@.frames == old(self)@.frames,
    {
        let mut items: Vec<Value> = Vec::new();
        std::mem::swap(&mut items, &mut self.lists[list.index]);
        items.push(value);
        self.lists.set(list.index, items);
        proof {
            assert(views(items@) =~= old(self)@.lists[list.index as int].push(value@));
            assert(self@.lists =~= old(self)@.lists.update(
                list.index as int,
                old(self)@.lists[list.index as int].push(value@),
            ));
            assert(self@.frames =~= old(self)@.frames);
        }
    }

    /// Opens a frame without a parent and without bindings.
    pub fn new_root(&mut self) -> (res: Env)
        requires
            old(self).wf(),
        ensures
            final(self).wf(),
            res.index == old(self)@.frames.len(),
            final(self)@.frames == old(self)@.frames.push(
                FrameView { bindings: Map::empty(), parent: None },
            ),
            final(self)@.lists == old(self)@.lists,
    {
        let index = self.frames.len();
        let frame = Frame { bindings: Vec::new(), parent: None };
        proof {
            assert(defs_view(frame.bindings@) =~= Seq::empty());
        }
        self.frames.push(frame);
        proof {
            assert(self@.frames =~= old(self)@.frames.push(
                FrameView { bindings: Map::empty(), parent: None },
            ));
            assert(self@.lists =~= old(self)@.lists);
        }
        Env { index }
    }

    /// Opens a frame inside `parent`, bound as `bindings` says; where a name
    /// occurs twice, the later pair counts. The parent is shared, not copied,
    /// and no existing frame changes.
    pub fn new_child(&mut self, parent: Env, bindings: Vec<(String, Value)>) -> (res: Env)
        requires
            old(self).wf(),
            parent.index < old(self)@.frames.len(),
            forall|i: int| 0 <= i < bindings@.len() ==> old(self)@.holds(#[trigger] bindings@[i].1@),
        ensures
            final(self).wf(),
            res.index == old(self)@.frames.len(),
            final(self)@.frames == old(self)@.frames.push(
                FrameView { bindings: bound(defs_view(bindings@)), parent: Some(parent) },
            ),
            final(self)@.lists == old(self)@.lists,
    {
        let index = self.frames.len();
        proof {
            lemma_bound_holds(old(self)@, defs_view(bindings@));
        }
        self.frames.push(Frame { bindings: bindings, parent: Some(parent) });
        proof {
            assert(self@.frames =~= old(self)@.frames.push(
                FrameView { bindings: bound(defs_view(bindings@)), parent: Some(parent) },
            ));
            assert(self@.lists =~= old(self)@.lists);
        }
        Env { index }
    }

    /// What `name` denotes in frame `env`: the frame's own binding, else that
    /// of the nearest ancestor that has one. Fails with `UnboundName` exactly
    /// when no frame up to the root binds the name.
    pub fn lookup(&self, env: Env, name: &str) -> (res: AresResult<Value>)
        requires
            self.wf(),
            env.index < self@.frames.len(),
        ensures
            match self@.resolve(env, name@) {
                Some(v) => res matches Ok(r) && r@ == v,
                None => res matches Err(e) && e@ == AresErrorView::UnboundName(name@),
            },
    {
        let key = String::from_str(name);
        let mut cur = env;
        loop
            invariant
                self.wf(),
                key@ == name@,
                cur.index < self@.frames.len(),
                self@.resolve(cur, name@) == self@.resolve(env, name@),
            decreases cur.index,
        {
            let frame = &self.frames[cur.index];
            assert(self@.frames[cur.index as int] == frame.view());
            match find(&frame.bindings, &key) {
                Some(i) => {
                    return Ok(frame.bindings[i].1.clone());
                },
                None => match frame.parent {
                    Some(p) => {
                        cur = p;
                    },
                    None => {
                        return Err(AresError::UnboundName(key));
                    },
                },
            }
        }
    }

    /// Binds `name` to `value` in the frame `env` itself, replacing what the
    /// frame had for that name; no other frame changes.
    pub fn define(&mut self, env: Env, name: String, value: Value)
        requires
            old(self).wf(),
            env.index < old(self)@.frames.len(),
            old(self)@.holds(value@),
        ensures
            final(self).wf(),
            final(self)@.frames == old(self)@.frames.update(
                env.index as int,
                FrameView {
                    bindings: old(self)@.frames[env.index as int].bindings.insert(name@, value@),
                    parent: old(self)@.frames[env.index as int].parent,
                },
            ),
            final(self)@.lists == old(self)@.lists,
    {
        let mut frame = Frame { bindings: Vec::new(), parent: None };
        std::mem::swap(&mut frame, &mut self.frames[env.index]);
        let ghost before = frame.bindings@;
        match find(&frame.bindings, &name) {
            Some(i) => {
                proof {
                    lemma_bound_update(defs_view(before), i as int, name@, value@);
                    assert(defs_view(before.update(i as int, (name, value))) =~= defs_view(
                        before,
                    ).update(i as int, (name@, value@)));
                }
                frame.bindings.set(i, (name, value));
            },
            None => {
                frame.bindings.push((name, value));
                proof {
                    assert(defs_view(frame.bindings@).drop_last() =~= defs_view(before));
                }
            },
        }
        self.frames.set(env.index, frame);
        proof {
            assert(self@.frames =~= old(self)@.frames.update(
                env.index as int,
                FrameView {
                    bindings: old(self)@.frames[env.index as int].bindings.insert(name@, value@),
                    parent: old(self)@.frames[env.index as int].parent,
                },
            ));
            assert(self@.lists =~= old(self)@.lists);
        }
    }
}

/// The position of the definition of `name` that counts, if there is one.
fn find(defs: &Vec<(String, Value)>, name: &String) -> (res: Option<usize>)
    ensures
        match res {
            Some(i) => {
                &&& i < defs@.len()
                &&& defs@[i as int].0@ == name@
                &&& forall|j: int| i < j < defs@.len() ==> (#[trigger] defs@[j]).0@ != name@
                &&& bound(defs_view(defs@)).contains_key(name@)
                &&& bound(defs_view(defs@))[name@] == defs@[i as int].1@
            },
            None => !bound(defs_view(defs@)).contains_key(name@),
        },
{
    let mut i: usize = defs.len();
    let ghost all = defs_view(defs@);
    proof {
        assert(all.take(i as int) =~= all);
    }
    while i > 0
        invariant
            i <= defs@.len(),
            all == defs_view(defs@),
            bound(all).contains_key(name@) == bound(all.take(i as int)).contains_key(name@),
            bound(all).contains_key(name@) ==> bound(all)[name@] == bound(all.take(i as int))[name@],
            forall|j: int| i <= j < defs@.len() ==> (#[trigger] defs@[j]).0@ != name@,
        decreases i,
    {
        proof {
            assert(all.take(i as int).drop_last() =~= all.take(i - 1));
        }
        if defs[i - 1].0 == *name {
            return Some(i - 1);
        }
        i = i - 1;
    }
    proof {
        assert(all.take(0) =~= Seq::empty());
    }
    None
}

/// Every value that a sequence of held definitions binds is held.
proof fn lemma_bound_holds(heap: HeapView, defs: Seq<(Seq<char>, ValueView)>)
    requires
        forall|i: int| 0 <= i < defs.len() ==> heap.holds(#[trigger] defs[i].1),
    ensures
        forall|name: Seq<char>| #[trigger]
            bound(defs).contains_key(name) ==> heap.holds(bound(defs)[name]),
    decreases defs.len(),
{
    if defs.len() > 0 {
        lemma_bound_holds(heap, defs.drop_last());
        assert(heap.holds(defs[defs.len() - 1].1));
        assert forall|name: Seq<char>| #[trigger]
            bound(defs).contains_key(name) implies heap.holds(bound(defs)[name]) by {
            if name != defs.last().0 {
                assert(bound(defs.drop_last()).contains_key(name));
            }
        }
    }
}

/// A name that a frame any number of parent links up binds, and no frame
/// nearer than that, denotes what that frame binds it to.
pub proof fn lemma_resolve_reaches_ancestor(heap: HeapView, env: Env, steps: nat, name: Seq<char>)
    requires
        heap.wf(),
        heap.ancestor(env, steps) is Some,
        heap.binds(heap.ancestor(env, steps)->0, name),
        forall|k: nat| k < steps ==> !heap.binds(#[trigger] heap.ancestor(env, k)->0, name),
    ensures
        heap.resolve(env, name) == Some(
            heap.frames[heap.ancestor(env, steps)->0.index as int].bindings[name],
        ),
    decreases steps,
{
    if steps > 0 {
        assert(!heap.binds(heap.ancestor(env, 0)->0, name));
        let p = heap.frames[env.index as int].parent->0;
        assert forall|k: nat| k < steps - 1 implies !heap.binds(
            #[trigger] heap.ancestor(p, k)->0,
            name,
        ) by {
            assert(heap.ancestor(env, k + 1) == heap.ancestor(p, k));
            assert(!heap.binds(heap.ancestor(env, k + 1)->0, name));
        }
        lemma_resolve_reaches_ancestor(heap, p, (steps - 1) as nat, name);
    }
}

/// A name that no frame from `env` up to the root binds denotes nothing, so
/// looking it up fails.
pub proof fn lemma_resolve_unbound(heap: HeapView, env: Env, name: Seq<char>)
    requires
        heap.wf(),
        forall|k: nat|
            heap.ancestor(env, k) is Some ==> !heap.binds(#[trigger] heap.ancestor(env, k)->0, name),
    ensures
        heap.resolve(env, name) is None,
    decreases env.index,
{
    if env.index < heap.frames.len() {
        assert(heap.ancestor(env, 0) == Some(env));
        assert(!heap.binds(heap.ancestor(env, 0)->0, name));
        match heap.frames[env.index as int].parent {
            Some(p) => {
                assert forall|k: nat| heap.ancestor(p, k) is Some implies !heap.binds(
                    #[trigger] heap.ancestor(p, k)->0,
                    name,
                ) by {
                    assert(heap.ancestor(env, k + 1) == heap.ancestor(p, k));
                    assert(!heap.binds(heap.ancestor(env, k + 1)->0, name));
                }
                lemma_resolve_unbound(heap, p, name);
            },
            None => {},
        }
    }
}

/// Where no name is defined twice, each definition counts: the mapping has
/// every defined name with its value, and no other name.
pub proof fn lemma_bound_distinct(defs: Seq<(Seq<char>, ValueView)>)
    requires
        forall|i: int, j: int| 0 <= i < j < defs.len() ==> defs[i].0 != defs[j].0,
    ensures
        forall|i: int|
            0 <= i < defs.len() ==> bound(defs).contains_key(#[trigger] defs[i].0) && bound(
                defs,
            )[defs[i].0] == defs[i].1,
        forall|name: Seq<char>| #[trigger]
            bound(defs).contains_key(name) ==> exists|i: int|
                0 <= i < defs.len() && #[trigger] defs[i].0 == name,
    decreases defs.len(),
{
    if defs.len() > 0 {
        let front = defs.drop_last();
        lemma_bound_distinct(front);
        assert forall|i: int| 0 <= i < defs.len() implies bound(defs).contains_key(
            #[trigger] defs[i].0,
        ) && bound(defs)[defs[i].0] == defs[i].1 by {
            if i < defs.len() - 1 {
                assert(front[i] == defs[i]);
                assert(defs[i].0 != defs[defs.len() - 1].0);
            }
        }
        assert forall|name: Seq<char>| #[trigger] bound(defs).contains_key(name) implies exists|
            i: int,
        |
            0 <= i < defs.len() && #[trigger] defs[i].0 == name by {
            if name == defs.last().0 {
                assert(defs[defs.len() - 1].0 == name);
            } else {
                assert(bound(front).contains_key(name));
                let i = choose|i: int| 0 <= i < front.len() && #[trigger] front[i].0 == name;
                assert(defs[i].0 == name);
            }
        }
    }
}

/// Replacing the definition of a name that counts is defining the name anew.
proof fn lemma_bound_update(
    defs: Seq<(Seq<char>, ValueView)>,
    i: int,
    name: Seq<char>,
    value: ValueView,
)
    requires
        0 <= i < defs.len(),
        defs[i].0 == name,
        forall|j: int| i < j < defs.len() ==> (#[trigger] defs[j]).0 != name,
    ensures
        bound(defs.update(i, (name, value))) =~= bound(defs).insert(name, value),
    decreases defs.len(),
{
    let changed = defs.update(i, (name, value));
    if i == defs.len() - 1 {
        assert(changed.drop_last() =~= defs.drop_last());
    } else {
        assert(changed.drop_last() =~= defs.drop_last().update(i, (name, value)));
        assert(defs[defs.len() - 1].0 != name);
        lemma_bound_update(defs.drop_last(), i, name, value);
    }
}

} // verus!
