//! Closures: a body, parameter names and the frame the closure was made in.
use vstd::prelude::*;
use vstd::std_specs::cmp::PartialEqSpec;
use vstd::std_specs::cmp::PartialEqSpecImpl;
use crate::heap::{FrameView, Heap, HeapView, bound, defs_view, lemma_bound_distinct};
use crate::value::{Env, ListRef, Value, ValueView, views};

verus! {

/// A closure. The body is a shared list object and the environment a shared
/// frame; both are held by handle, so copying a procedure copies handles only.
#[derive(Debug)]
pub struct Procedure {
    pub name: Option<String>,
    pub bodies: ListRef,
    param_names: Vec<String>,
    environment: Env,
}

/// The character sequences of a sequence of strings.
pub open spec fn texts(names: Seq<String>) -> Seq<Seq<char>> {
    names.map_values(|s: String| s@)
}

/// What a procedure is, as plain mathematical data.
pub struct ProcedureView {
    pub name: Option<Seq<char>>,
    pub bodies: ListRef,
    pub param_names: Seq<Seq<char>>,
    pub environment: Env,
}

impl View for Procedure {
    type V = ProcedureView;

    closed spec fn view(&self) -> ProcedureView {
        ProcedureView {
            name: match self.name {
                Some(n) => Some(n@),
                None => None,
            },
            bodies: self.bodies,
            param_names: texts(self.param_names@),
            environment: self.environment,
        }
    }
}

/// Names and values paired by position, as far as both sequences go.
pub open spec fn paired(names: Seq<Seq<char>>, values: Seq<ValueView>) -> Seq<
    (Seq<char>, ValueView),
> {
    Seq::new(
        if names.len() <= values.len() {
            names.len()
        } else {
            values.len()
        },
        |i: int| (names[i], values[i]),
    )
}

impl ProcedureView {
    /// The bindings of a call with the given arguments: each parameter with
    /// the argument at its position. Parameters beyond the arguments stay
    /// unbound, arguments beyond the parameters are left out.
    pub open spec fn call_bindings(self, args: Seq<ValueView>) -> Map<Seq<char>, ValueView> {
        bound(paired(self.param_names, args))
    }

    /// The pair of object identities that equality and hashing go by.
    pub open spec fn identity(self) -> (usize, usize) {
        (self.bodies.index, self.environment.index)
    }
}

impl Procedure {
    /// Makes a closure over `env` with the given body and parameter names.
    pub fn new(name: Option<String>, bodies: ListRef, param_names: Vec<String>, env: Env) -> (res:
        Procedure)
        ensures
            res@ == (ProcedureView {
                name: match name {
                    Some(n) => Some(n@),
                    None => None,
                },
                bodies: bodies,
                param_names: texts(param_names@),
                environment: env,
            }),
    {
        Procedure { name: name, bodies: bodies, param_names: param_names, environment: env }
    }

    /// The name the closure was given, if it has one.
    pub fn name(&self) -> (res: &Option<String>)
        ensures
            match *res {
                Some(n) => self@.name == Some(n@),
                None => self@.name.is_none(),
            },
    {
        &self.name
    }

    /// The handle of the body object.
    pub fn bodies(&self) -> (res: ListRef)
        ensures
            res == self@.bodies,
    {
        self.bodies
    }

    /// The frame this closure was made in.
    pub fn environment(&self) -> (res: Env)
        ensures
            res == self@.environment,
    {
        self.environment
    }

    /// The declared parameter names, in order.
    pub fn param_names(&self) -> (res: &Vec<String>)
        ensures
            texts(res@) == self@.param_names,
    {
        &self.param_names
    }

    /// Opens the frame of one call: a new child of the captured frame that
    /// binds the parameters to `values` by position. The body is not looked
    /// at, and no existing object changes.
    pub fn gen_env(&self, heap: &mut Heap, values: &Vec<Value>) -> (res: Env)
        requires
            old(heap).wf(),
            self@.environment.index < old(heap)@.frames.len(),
            old(heap)@.holds_all(views(values@)),
        ensures
            final(heap).wf(),
            res.index == old(heap)@.frames.len(),
            final(heap)@.frames == old(heap)@.frames.push(
                FrameView {
                    bindings: self@.call_bindings(views(values@)),
                    parent: Some(self@.environment),
                },
            ),
            final(heap)@.lists == old(heap)@.lists,
    {
        let mut bindings: Vec<(String, Value)> = Vec::new();
        let mut i: usize = 0;
        while i < self.param_names.len() && i < values.len()
            invariant
                i <= self.param_names.len(),
                i <= values.len(),
                bindings@.len() == i,
                forall|j: int|
                    0 <= j < i ==> (#[trigger] bindings@[j]).0@ == self.param_names@[j]@
                        && bindings@[j].1@ == values@[j]@,
            decreases self.param_names.len() - i,
        {
            bindings.push((self.param_names[i].clone(), values[i].clone()));
            i = i + 1;
        }
        proof {
            assert(defs_view(bindings@) =~= paired(self@.param_names, views(values@)));
            assert forall|j: int| 0 <= j < bindings@.len() implies old(heap)@.holds(
                #[trigger] bindings@[j].1@,
            ) by {
                assert(old(heap)@.holds(views(values@)[j]));
            }
        }
        heap.new_child(self.environment, bindings)
    }

    /// The identities of the body object and of the captured frame: equal
    /// closures have equal identities, and a hash is taken of these two words.
    pub fn identity(&self) -> (res: (usize, usize))
        ensures
            res == self@.identity(),
    {
        (self.bodies.index, self.environment.index)
    }
}

/// Closures are equal exactly when they are over the same body object and
/// the same frame; equal text over other objects does not make them equal.
impl PartialEq for Procedure {
    fn eq(&self, other: &Procedure) -> (res: bool) {
        self.bodies.index == other.bodies.index && self.environment.index
            == other.environment.index
    }
}

impl PartialEqSpecImpl for Procedure {
    open spec fn obeys_eq_spec() -> bool {
        true
    }

    open spec fn eq_spec(&self, other: &Procedure) -> bool {
        self@.identity() == other@.identity()
    }
}

impl Eq for Procedure {

}

impl Clone for Procedure {
    fn clone(&self) -> (res: Procedure)
        ensures
            res@ == self@,
    {
        let name = match &self.name {
            Some(n) => Some(n.clone()),
            None => None,
        };
        let mut names: Vec<String> = Vec::new();
        let mut i: usize = 0;
        while i < self.param_names.len()
            invariant
                i <= self.param_names.len(),
                names@.len() == i,
                forall|j: int| 0 <= j < i ==> (#[trigger] names@[j])@ == self.param_names@[j]@,
            decreases self.param_names.len() - i,
        {
            names.push(self.param_names[i].clone());
            i = i + 1;
        }
        proof {
            assert(texts(names@) =~= texts(self.param_names@));
        }
        Procedure { name: name, bodies: self.bodies, param_names: names, environment: self.environment }
    }
}

/// Closures over the same body object and the same frame are equal and have
/// the same identity, which is what a hash of a closure is taken of; their
/// names and parameters play no part.
pub proof fn lemma_same_objects_equal(a: Procedure, b: Procedure)
    requires
        a@.bodies == b@.bodies,
        a@.environment == b@.environment,
    ensures
        PartialEqSpec::eq_spec(&a, &b),
        a@.identity() == b@.identity(),
{
}

/// A closure over a frame that was opened after another frame is not equal
/// to a closure over that other frame, whatever the two bodies are: a new
/// frame takes the first index past those in use.
pub proof fn lemma_child_closure_differs(heap: HeapView, parent: Env, child: Env, a: Procedure, b: Procedure)
    requires
        parent.index < heap.frames.len(),
        child.index == heap.frames.len(),
        a@.environment == parent,
        b@.environment == child,
    ensures
        !PartialEqSpec::eq_spec(&a, &b),
        a@.identity() != b@.identity(),
{
}

/// The frame of a call pairs parameters and arguments by position and stops
/// where the shorter of the two ends: where the parameter names differ from
/// one another, each parameter that has an argument at its position is bound
/// to it, a parameter without one is unbound, and so is every other name.
pub proof fn lemma_call_bindings_by_position(p: ProcedureView, args: Seq<ValueView>)
    requires
        forall|i: int, j: int|
            0 <= i < j < p.param_names.len() ==> p.param_names[i] != p.param_names[j],
    ensures
        forall|i: int|
            0 <= i < p.param_names.len() && i < args.len() ==> p.call_bindings(args).contains_key(
                #[trigger] p.param_names[i],
            ) && p.call_bindings(args)[p.param_names[i]] == args[i],
        forall|i: int|
            args.len() <= i < p.param_names.len() ==> !p.call_bindings(args).contains_key(
                #[trigger] p.param_names[i],
            ),
        forall|name: Seq<char>| #[trigger]
            p.call_bindings(args).contains_key(name) ==> p.param_names.contains(name),
{
    let defs = paired(p.param_names, args);
    lemma_bound_distinct(defs);
    assert forall|i: int|
        0 <= i < p.param_names.len() && i < args.len() implies p.call_bindings(args).contains_key(
        #[trigger] p.param_names[i],
    ) && p.call_bindings(args)[p.param_names[i]] == args[i] by {
        assert(defs[i].0 == p.param_names[i]);
    }
    assert forall|i: int| args.len() <= i < p.param_names.len() implies !p.call_bindings(
        args,
    ).contains_key(#[trigger] p.param_names[i]) by {
        if bound(defs).contains_key(p.param_names[i]) {
            let j = choose|j: int| 0 <= j < defs.len() && #[trigger] defs[j].0 == p.param_names[i];
            assert(p.param_names[j] == p.param_names[i]);
        }
    }
    assert forall|name: Seq<char>| #[trigger]
        p.call_bindings(args).contains_key(name) implies p.param_names.contains(name) by {
        let j = choose|j: int| 0 <= j < defs.len() && #[trigger] defs[j].0 == name;
        assert(p.param_names[j] == name);
    }
}

} // verus!
