//! The transitions between the states of a resource.

use crate::model::expr::state_info;
use crate::model::identity::NamingView;
use crate::model::reference::{lemma_unknown_among, Reference, ReferenceView};
use crate::model::resolve::{
    all_kept, lemma_all_kept, resolve_state_all, state_pass_all, Kept, Namespaces, Resolvable,
};
use crate::model::resource::ResourceId;
use crate::model::state::StateId;
use crate::parser::error::{in_place, RlError, RlErrorView};
use vstd::hash_map::StringHashMap;
use vstd::prelude::*;

verus! {

/// Mathematical model of a [`Transition`].
pub struct TransitionView {
    pub src: ReferenceView<StateId>,
    pub dst: ReferenceView<StateId>,
}

/// A transition that a resource may make, from one of its states to another.
#[derive(Debug, PartialEq, Eq)]
pub struct Transition {
    src: Reference<StateId>,
    dst: Reference<StateId>,
}

impl Clone for Transition {
    fn clone(&self) -> (r: Self)
        ensures
            r@ == self@,
    {
        Transition { src: self.src.clone(), dst: self.dst.clone() }
    }
}

impl View for Transition {
    type V = TransitionView;

    closed spec fn view(&self) -> TransitionView {
        TransitionView { src: self.src@, dst: self.dst@ }
    }
}

impl DeepView for Transition {
    type V = TransitionView;

    open spec fn deep_view(&self) -> TransitionView {
        self@
    }
}

impl TransitionView {
    /// The names of states that the ends use and have not resolved, each
    /// with the place of its use.
    pub open spec fn state_uses(self) -> Set<NamingView> {
        self.src.uses() + self.dst.uses()
    }

    /// The transition `after` is this one, but that names may have been
    /// resolved, each to the identifier that its namespace among `spaces`
    /// gives it.
    pub open spec fn kept(self, after: TransitionView, spaces: Namespaces) -> bool {
        &&& self.src.kept(after.src, spaces.states)
        &&& self.dst.kept(after.dst, spaces.states)
    }

    /// Each end, if it is resolved, stands for one of `ids`.
    pub open spec fn among(self, ids: Set<StateId>) -> bool {
        self.src.among(ids) && self.dst.among(ids)
    }

    /// Both ends are resolved.
    pub open spec fn resolved(self) -> bool {
        self.src is Resolved && self.dst is Resolved
    }

    /// The transition between the states `src` and `dst`, both resolved.
    pub open spec fn between(src: StateId, dst: StateId) -> TransitionView {
        TransitionView { src: ReferenceView::Resolved(src), dst: ReferenceView::Resolved(dst) }
    }

    /// The transition with both ends resolved against `map`, the source
    /// first, or the error of the first end that `map` does not know.
    pub open spec fn resolve(self, map: Map<Seq<char>, StateId>) -> Result<
        TransitionView,
        RlErrorView,
    > {
        match self.src.resolve(map, state_info()) {
            Err(e) => Err(e),
            Ok(src) => match self.dst.resolve(map, state_info()) {
                Err(e) => Err(e),
                Ok(dst) => Ok(TransitionView { src, dst }),
            },
        }
    }
}

impl Transition {
    pub fn new(src: Reference<StateId>, dst: Reference<StateId>) -> (r: Self)
        ensures
            r@ == (TransitionView { src: src@, dst: dst@ }),
    {
        Transition { src, dst }
    }

    /// The state that the transition leaves.
    pub fn src(&self) -> (r: &Reference<StateId>)
        ensures
            r@ == self@.src,
    {
        &self.src
    }

    /// The state that the transition enters.
    pub fn dst(&self) -> (r: &Reference<StateId>)
        ensures
            r@ == self@.dst,
    {
        &self.dst
    }

    /// Resolves both ends of the transition, the source first.
    pub fn resolve(&mut self, map: &StringHashMap<StateId>) -> (r: Result<(), RlError>)
        ensures
            in_place(old(self)@.resolve(map@), final(self)@, r),
            old(self)@.kept(final(self)@, Namespaces::only_states(map@)),
    {
        match self.src.resolve_in_place(map, "state") {
            Ok(()) => {},
            Err(e) => {
                return Err(e);
            },
        }
        self.dst.resolve_in_place(map, "state")
    }
}

impl Kept for Transition {
    open spec fn kept(before: TransitionView, after: TransitionView, spaces: Namespaces) -> bool {
        before.kept(after, spaces)
    }

    proof fn lemma_kept(
        a: TransitionView,
        b: TransitionView,
        c: TransitionView,
        spaces: Namespaces,
        wider: Namespaces,
    ) {
    }
}

impl Resolvable for Transition {
    /// A transition holds no reference to a resource: the pass changes
    /// nothing.
    open spec fn resource_pass(v: TransitionView, map: Map<Seq<char>, ResourceId>) -> Result<
        TransitionView,
        RlErrorView,
    > {
        Ok(v)
    }

    open spec fn state_pass(v: TransitionView, map: Map<Seq<char>, StateId>) -> Result<
        TransitionView,
        RlErrorView,
    > {
        v.resolve(map)
    }

    open spec fn resources_resolved(v: TransitionView) -> bool {
        true
    }

    open spec fn states_resolved(v: TransitionView) -> bool {
        v.resolved()
    }

    open spec fn resources_among(v: TransitionView, ids: Set<ResourceId>) -> bool {
        true
    }

    open spec fn states_among(v: TransitionView, ids: Set<StateId>) -> bool {
        v.among(ids)
    }

    proof fn lemma_among(
        v: TransitionView,
        resources: Map<Seq<char>, ResourceId>,
        states: Map<Seq<char>, StateId>,
        resource_ids: Set<ResourceId>,
        state_ids: Set<StateId>,
    ) {
    }

    proof fn lemma_passes(
        v: TransitionView,
        resources: Map<Seq<char>, ResourceId>,
        states: Map<Seq<char>, StateId>,
    ) {
    }

    proof fn lemma_pass_kept(
        v: TransitionView,
        resources: Map<Seq<char>, ResourceId>,
        states: Map<Seq<char>, StateId>,
    ) {
        Transition::lemma_kept(
            v,
            v,
            v,
            Namespaces::only_resources(resources),
            Namespaces::only_resources(resources),
        );
        Transition::lemma_kept(
            v,
            v,
            v,
            Namespaces::only_states(states),
            Namespaces::only_states(states),
        );
    }

    open spec fn resource_uses(v: TransitionView) -> Set<NamingView> {
        Set::empty()
    }

    open spec fn state_uses(v: TransitionView) -> Set<NamingView> {
        v.state_uses()
    }

    proof fn lemma_uses(
        v: TransitionView,
        resources: Map<Seq<char>, ResourceId>,
        states: Map<Seq<char>, StateId>,
    ) {
        v.src.lemma_uses(states, state_info());
        v.dst.lemma_uses(states, state_info());
        if v.src.resolve(states, state_info()) is Err {
            lemma_unknown_among(
                v.src.uses(),
                v.state_uses(),
                states,
                state_info(),
                v.src.resolve(states, state_info())->Err_0,
            );
        } else if v.dst.resolve(states, state_info()) is Err {
            lemma_unknown_among(
                v.dst.uses(),
                v.state_uses(),
                states,
                state_info(),
                v.dst.resolve(states, state_info())->Err_0,
            );
        }
    }

    fn resolve_resource(&mut self, map: &StringHashMap<ResourceId>) -> (r: Result<(), RlError>) {
        Ok(())
    }

    fn resolve_state(&mut self, map: &StringHashMap<StateId>) -> (r: Result<(), RlError>) {
        self.resolve(map)
    }
}

/// Mathematical model of [`Transitions`].
pub enum TransitionsView {
    All,
    List(Seq<TransitionView>),
}

/// The transition policy of a resource.
#[derive(Debug, PartialEq, Eq)]
pub enum Transitions {
    /// Every transition between two different states is allowed.
    All,
    /// The listed transitions are allowed, and no others.
    List(Vec<Transition>),
}

impl Clone for Transitions {
    fn clone(&self) -> (r: Self)
        ensures
            r@ == self@,
    {
        match self {
            Transitions::All => Transitions::All,
            Transitions::List(list) => {
                let copy = list.clone();
                proof {
                    assert(copy.deep_view() =~= list.deep_view());
                }
                Transitions::List(copy)
            },
        }
    }
}

impl View for Transitions {
    type V = TransitionsView;

    open spec fn view(&self) -> TransitionsView {
        match self {
            Transitions::All => TransitionsView::All,
            Transitions::List(list) => TransitionsView::List(list.deep_view()),
        }
    }
}

impl DeepView for Transitions {
    type V = TransitionsView;

    open spec fn deep_view(&self) -> TransitionsView {
        self@
    }
}

impl TransitionsView {
    /// The policy `after` is this one, but that names may have been resolved,
    /// each to the identifier that its namespace among `spaces` gives it in
    /// the transitions it lists.
    pub open spec fn kept(self, after: TransitionsView, spaces: Namespaces) -> bool {
        match (self, after) {
            (TransitionsView::All, TransitionsView::All) => true,
            (TransitionsView::List(a), TransitionsView::List(b)) => all_kept::<Transition>(
                a,
                b,
                spaces,
            ),
            _ => false,
        }
    }

    /// A policy is kept by doing nothing; what is kept twice is kept; and
    /// what is kept under some namespaces is kept under more.
    pub proof fn lemma_kept(
        self,
        b: TransitionsView,
        c: TransitionsView,
        spaces: Namespaces,
        wider: Namespaces,
    )
        ensures
            self.kept(self, spaces),
            self.kept(b, spaces) && b.kept(c, spaces) ==> self.kept(c, spaces),
            self.kept(b, spaces) && spaces.within(wider) ==> self.kept(b, wider),
    {
        if let TransitionsView::List(x) = self {
            lemma_all_kept::<Transition>(x, x, x, spaces, wider);
            if let TransitionsView::List(y) = b {
                lemma_all_kept::<Transition>(x, y, y, spaces, wider);
                if let TransitionsView::List(z) = c {
                    lemma_all_kept::<Transition>(x, y, z, spaces, wider);
                }
            }
        }
    }

    /// The policy with the ends of its listed transitions resolved against
    /// `map`, in order, or the error of the first end that `map` does not
    /// know. The policy that allows everything lists nothing and stays.
    pub open spec fn resolve(self, map: Map<Seq<char>, StateId>) -> Result<
        TransitionsView,
        RlErrorView,
    > {
        match self {
            TransitionsView::All => Ok(self),
            TransitionsView::List(list) => match state_pass_all::<Transition>(list, map) {
                Err(e) => Err(e),
                Ok(list) => Ok(TransitionsView::List(list)),
            },
        }
    }
}

impl Transitions {
    /// Resolves the ends of the listed transitions, in order.
    pub fn resolve(&mut self, map: &StringHashMap<StateId>) -> (r: Result<(), RlError>)
        ensures
            in_place(old(self)@.resolve(map@), final(self)@, r),
            old(self)@.kept(final(self)@, Namespaces::only_states(map@)),
    {
        match self {
            Transitions::All => Ok(()),
            Transitions::List(list) => resolve_state_all(list, map),
        }
    }
}

} // verus!
