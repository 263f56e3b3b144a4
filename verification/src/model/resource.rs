//! Resources: finite-state machines with named states and a transition
//! policy.

use crate::model::deep::{lemma_deep_empty, lemma_deep_index, lemma_deep_push};
use crate::model::expr::state_info;
use crate::model::identity::{GetFromId, Id, Named, Naming, NamingView};
use crate::model::naming::{lemma_name_map, lemma_name_map_push, lemma_name_map_value, name_map};
use crate::model::reference::{decided, lemma_unknown_among, map_among, Reference, ReferenceView};
use crate::model::resolve::{
    all_state_uses, all_states_among, all_states_resolved, lemma_among_all, lemma_pass_kept_all,
    lemma_passes_all, lemma_uses_all, state_pass_all, Kept, Namespaces,
};
use crate::model::state::{State, StateId, StateView};
use crate::model::transition::{Transition, Transitions, TransitionsView, TransitionView};
use crate::parser::error::{in_place, RlError, RlErrorView};
use crate::parser::position::{Position, PositionView};
use vstd::hash_map::StringHashMap;
use vstd::prelude::*;
use vstd::string::StringExecFns;

verus! {

/// Identifier of a resource: its index among the resources of the skillset.
#[derive(Clone, Copy, PartialEq, Eq, Structural, Debug, Hash)]
pub struct ResourceId(pub usize);

impl Id for ResourceId {
    open spec fn spec_default() -> Self {
        ResourceId(0)
    }

    open spec fn spec_index(&self) -> usize {
        self.0
    }

    fn default() -> (r: Self) {
        ResourceId(0)
    }

    fn index(&self) -> (r: usize) {
        self.0
    }
}

/// Mathematical model of a [`Resource`].
pub struct ResourceView {
    pub id: ResourceId,
    pub name: Seq<char>,
    pub states: Seq<StateView>,
    pub initial: ReferenceView<StateId>,
    pub transitions: TransitionsView,
    pub position: Option<PositionView>,
}

/// A resource: a finite-state machine. It owns its states.
#[derive(Debug)]
pub struct Resource {
    id: ResourceId,
    name: String,
    states: Vec<State>,
    initial: Reference<StateId>,
    transitions: Transitions,
    position: Option<Position>,
}

impl Clone for Resource {
    fn clone(&self) -> (r: Self)
        ensures
            r@ == self@,
    {
        let states = self.states.clone();
        proof {
            assert(states.deep_view() =~= self.states.deep_view());
        }
        Resource {
            id: self.id,
            name: self.name.clone(),
            states,
            initial: self.initial.clone(),
            transitions: self.transitions.clone(),
            position: self.position.clone(),
        }
    }
}

impl View for Resource {
    type V = ResourceView;

    closed spec fn view(&self) -> ResourceView {
        ResourceView {
            id: self.id,
            name: self.name@,
            states: self.states.deep_view(),
            initial: self.initial@,
            transitions: self.transitions@,
            position: self.position.deep_view(),
        }
    }
}

impl DeepView for Resource {
    type V = ResourceView;

    open spec fn deep_view(&self) -> ResourceView {
        self@
    }
}

/// The transitions from state `i` to each of the first `m` states that has
/// another identifier, in the order of the states.
pub open spec fn pairs_from(states: Seq<StateView>, i: int, m: int) -> Seq<TransitionView>
    decreases m,
{
    if m <= 0 {
        Seq::empty()
    } else if states[i].id != states[m - 1].id {
        pairs_from(states, i, m - 1).push(TransitionView::between(states[i].id, states[m - 1].id))
    } else {
        pairs_from(states, i, m - 1)
    }
}

/// The transitions from each of the first `n` states to every state that has
/// another identifier: ordered by source, then by destination.
pub open spec fn all_pairs(states: Seq<StateView>, n: int) -> Seq<TransitionView>
    decreases n,
{
    if n <= 0 {
        Seq::empty()
    } else {
        all_pairs(states, n - 1) + pairs_from(states, n - 1, states.len() as int)
    }
}

impl ResourceView {
    /// Every state carries the identifier that its place gives it: this
    /// resource, and the state's index, which fits the machine's word.
    pub open spec fn wf(self) -> bool {
        &&& self.states.len() <= usize::MAX
        &&& forall|i: int|
            0 <= i < self.states.len() ==> (#[trigger] self.states[i]).id == StateId(
                self.id,
                i as usize,
            )
    }

    /// The states by name and identifier, in order.
    pub open spec fn entries(self) -> Seq<(Seq<char>, StateId)> {
        self.states.map_values(|s: StateView| (s.name, s.id))
    }

    /// The namespace of the resource's own states.
    pub open spec fn state_map(self) -> Map<Seq<char>, StateId> {
        name_map(self.entries())
    }

    /// The states by name and position, in order.
    pub open spec fn names(self) -> Seq<NamingView> {
        self.states.map_values(|s: StateView| (s.name, s.position))
    }

    /// The state that `id` stands for: the one at its index, provided that
    /// `id` names this resource as the owner.
    pub open spec fn get_state(self, id: StateId) -> Option<StateView> {
        if id.0 == self.id && id.1 < self.states.len() {
            Some(self.states[id.1 as int])
        } else {
            None
        }
    }

    /// State `i` is the first that is named `name`.
    pub open spec fn first_named(self, name: Seq<char>, i: int) -> bool {
        &&& 0 <= i < self.states.len()
        &&& self.states[i].name == name
        &&& forall|k: int| 0 <= k < i ==> (#[trigger] self.states[k]).name != name
    }

    /// The resource under the identifier `id`: each state keeps its index
    /// and names `id` as its owner.
    pub open spec fn reparent(self, id: ResourceId) -> ResourceView {
        ResourceView {
            id,
            states: self.states.map_values(|s: StateView| StateView {
                id: StateId(id, s.id.1),
                ..s
            }),
            ..self
        }
    }

    /// The transitions that the policy allows.
    pub open spec fn transitions_list(self) -> Seq<TransitionView> {
        match self.transitions {
            TransitionsView::All => all_pairs(self.states, self.states.len() as int),
            TransitionsView::List(list) => list,
        }
    }

    /// The resource after it resolved its own references against the
    /// namespace of its own states: first the initial state, then the ends
    /// of the listed transitions.
    pub open spec fn resolve_state(self) -> Result<ResourceView, RlErrorView> {
        match self.initial.resolve(self.state_map(), state_info()) {
            Err(e) => Err(e),
            Ok(initial) => match self.transitions.resolve(self.state_map()) {
                Err(e) => Err(e),
                Ok(transitions) => Ok(ResourceView { initial, transitions, ..self }),
            },
        }
    }
}

/// The states carry identifiers that differ from one another.
pub open spec fn distinct_ids(states: Seq<StateView>) -> bool {
    forall|i: int, j: int|
        0 <= i < states.len() && 0 <= j < states.len() && i != j ==> (#[trigger] states[i]).id != (
        #[trigger] states[j]).id
}

/// Where the transition from state `i` to state `j` stands among the
/// transitions between `n` states: behind those of the states before `i`,
/// and behind those from `i` to the states before `j`.
pub open spec fn pair_index(n: int, i: int, j: int) -> int {
    i * (n - 1) + if j < i {
        j
    } else {
        j - 1
    }
}

/// No transition of an all-pairs policy leads from a state to itself.
pub proof fn lemma_pairs_from_no_loop(states: Seq<StateView>, i: int, m: int)
    requires
        0 <= i < states.len(),
        0 <= m <= states.len(),
    ensures
        forall|k: int|
            0 <= k < pairs_from(states, i, m).len() ==> (#[trigger] pairs_from(
                states,
                i,
                m,
            )[k]).src != pairs_from(states, i, m)[k].dst,
    decreases m,
{
    if m > 0 {
        lemma_pairs_from_no_loop(states, i, m - 1);
    }
}

/// No transition of an all-pairs policy leads from a state to itself.
pub proof fn lemma_all_pairs_no_loop(states: Seq<StateView>, n: int)
    requires
        0 <= n <= states.len(),
    ensures
        forall|k: int|
            0 <= k < all_pairs(states, n).len() ==> (#[trigger] all_pairs(states, n)[k]).src
                != all_pairs(states, n)[k].dst,
    decreases n,
{
    if n > 0 {
        lemma_all_pairs_no_loop(states, n - 1);
        lemma_pairs_from_no_loop(states, n - 1, states.len() as int);
    }
}

/// Among states with distinct identifiers, state `i` has a transition to
/// each of the first `m` states but itself, in their order.
pub proof fn lemma_pairs_from(states: Seq<StateView>, i: int, m: int)
    requires
        distinct_ids(states),
        0 <= i < states.len(),
        0 <= m <= states.len(),
    ensures
        pairs_from(states, i, m).len() == if i < m {
            m - 1
        } else {
            m
        },
        forall|j: int|
            0 <= j < m && j != i ==> pairs_from(states, i, m)[if j < i {
                j
            } else {
                j - 1
            }] == TransitionView::between(states[i].id, (#[trigger] states[j]).id),
    decreases m,
{
    if m > 0 {
        lemma_pairs_from(states, i, m - 1);
        if i != m - 1 {
            assert(states[i].id != states[m - 1].id);
        }
    }
}

/// Among `n` states with distinct identifiers, the first `r` states have
/// `r * (n - 1)` transitions, and the transition from state `i` to state `j`
/// stands at `pair_index(n, i, j)`.
pub proof fn lemma_all_pairs_upto(states: Seq<StateView>, r: int)
    requires
        distinct_ids(states),
        0 <= r <= states.len(),
    ensures
        all_pairs(states, r).len() == r * (states.len() - 1),
        forall|i: int, j: int|
            0 <= i < r && 0 <= j < states.len() && i != j ==> 0 <= pair_index(
                states.len() as int,
                i,
                j,
            ) < all_pairs(states, r).len() && all_pairs(states, r)[pair_index(
                states.len() as int,
                i,
                j,
            )] == TransitionView::between((#[trigger] states[i]).id, (#[trigger] states[j]).id),
    decreases r,
{
    let n = states.len() as int;
    if r > 0 {
        lemma_all_pairs_upto(states, r - 1);
        lemma_pairs_from(states, r - 1, n);
        let before = all_pairs(states, r - 1);
        let row = pairs_from(states, r - 1, n);
        assert(before.len() + row.len() == r * (n - 1)) by (nonlinear_arith)
            requires
                before.len() == (r - 1) * (n - 1),
                row.len() == n - 1,
        ;
        assert forall|i: int, j: int| 0 <= i < r && 0 <= j < n && i != j implies 0 <= pair_index(
            n,
            i,
            j,
        ) < all_pairs(states, r).len() && all_pairs(states, r)[pair_index(n, i, j)]
            == TransitionView::between((#[trigger] states[i]).id, (#[trigger] states[j]).id) by {
            let p = if j < i {
                j
            } else {
                j - 1
            };
            if i < r - 1 {
                assert(0 <= pair_index(n, i, j) < before.len());
            } else {
                assert(i * (n - 1) == before.len());
                assert(row[p] == TransitionView::between(states[i].id, states[j].id));
                assert((before + row)[before.len() + p] == row[p]);
            }
        }
    }
}

impl ResourceView {
    /// The transitions of a resource that allows all of them: between `n`
    /// states there are `n * (n - 1)`, none leads from a state to itself, and
    /// the one from state `i` to another state `j` stands at
    /// `pair_index(n, i, j)`, so that they are ordered by source and then by
    /// destination.
    pub proof fn lemma_all_pairs(self)
        requires
            self.wf(),
            self.transitions is All,
        ensures
            self.transitions_list().len() == self.states.len() * (self.states.len() - 1),
            forall|k: int|
                0 <= k < self.transitions_list().len()
                    ==> (#[trigger] self.transitions_list()[k]).src
                    != self.transitions_list()[k].dst,
            forall|i: int, j: int|
                #![trigger pair_index(self.states.len() as int, i, j)]
                0 <= i < self.states.len() && 0 <= j < self.states.len() && i != j
                    ==> 0 <= pair_index(self.states.len() as int, i, j)
                    < self.transitions_list().len() && self.transitions_list()[pair_index(
                    self.states.len() as int,
                    i,
                    j,
                )] == TransitionView::between(
                    StateId(self.id, i as usize),
                    StateId(self.id, j as usize),
                ),
    {
        let n = self.states.len() as int;
        assert(distinct_ids(self.states));
        lemma_all_pairs_no_loop(self.states, n);
        lemma_all_pairs_upto(self.states, n);
        assert forall|i: int, j: int|
            #![trigger pair_index(n, i, j)]
            0 <= i < n && 0 <= j < n && i != j implies 0 <= pair_index(n, i, j)
            < self.transitions_list().len() && self.transitions_list()[pair_index(n, i, j)]
            == TransitionView::between(
                StateId(self.id, i as usize),
                StateId(self.id, j as usize),
            ) by {
            assert(self.states[i].id == StateId(self.id, i as usize));
            assert(self.states[j].id == StateId(self.id, j as usize));
        }
    }

    /// The resource's own references are resolved: its initial state and
    /// both ends of every listed transition.
    pub open spec fn resolved(self) -> bool {
        &&& self.initial is Resolved
        &&& match self.transitions {
            TransitionsView::All => true,
            TransitionsView::List(list) => all_states_resolved::<Transition>(list),
        }
    }

    /// What resolving its own references does to a resource. When it
    /// succeeds, the references are resolved and nothing else has changed;
    /// and a resource whose own references are resolved stays as it is.
    pub proof fn lemma_resolve_state(self)
        ensures
            self.resolve_state() matches Ok(w) ==> w.resolved() && w == (ResourceView {
                initial: w.initial,
                transitions: w.transitions,
                ..self
            }) && (w.transitions is All <==> self.transitions is All) && (self.wf() ==> w.wf())
                && self.kept(w, Namespaces::only_states(self.state_map())),
            self.resolved() ==> self.resolve_state() == Ok::<ResourceView, RlErrorView>(self),
    {
        if let TransitionsView::List(list) = self.transitions {
            lemma_passes_all::<Transition>(list, Map::empty(), self.state_map());
            lemma_pass_kept_all::<Transition>(list, Map::empty(), self.state_map());
        }
    }

    /// The namespaces for the resource's own references: where `spaces`
    /// has one for states, the namespace of the resource's own states, and
    /// none else.
    pub open spec fn own_spaces(self, spaces: Namespaces) -> Namespaces {
        Namespaces {
            types: None,
            resources: None,
            states: if spaces.states is Some {
                Some(self.state_map())
            } else {
                None
            },
        }
    }

    /// The resource `after` is this one, but that names may have been
    /// resolved: in its initial state and in the ends of the transitions it
    /// lists, each to the identifier that the namespace of its own states
    /// gives it, where `spaces` has a namespace for states. It has the
    /// identifier, the name, the position and the states that it had.
    pub open spec fn kept(self, after: ResourceView, spaces: Namespaces) -> bool {
        &&& after.id == self.id
        &&& after.name == self.name
        &&& after.states == self.states
        &&& after.position == self.position
        &&& self.initial.kept(after.initial, self.own_spaces(spaces).states)
        &&& self.transitions.kept(after.transitions, self.own_spaces(spaces))
    }

    /// The names of states that the resource itself uses and has not
    /// resolved, each with the place of its use: in its initial state and in
    /// the ends of the transitions it lists.
    pub open spec fn own_uses(self) -> Set<NamingView> {
        self.initial.uses() + match self.transitions {
            TransitionsView::All => Set::empty(),
            TransitionsView::List(list) => all_state_uses::<Transition>(list),
        }
    }

    /// When a resource resolves its own references: exactly when every name
    /// it uses is the name of one of its own states; else it fails with the
    /// error of a name that it uses and that none of its states carries.
    pub proof fn lemma_own_uses(self)
        ensures
            decided(self.resolve_state(), self.own_uses(), self.state_map(), state_info()),
    {
        let map = self.state_map();
        self.initial.lemma_uses(map, state_info());
        if self.initial.resolve(map, state_info()) is Err {
            lemma_unknown_among(
                self.initial.uses(),
                self.own_uses(),
                map,
                state_info(),
                self.initial.resolve(map, state_info())->Err_0,
            );
        } else if let TransitionsView::List(list) = self.transitions {
            lemma_uses_all::<Transition>(list, Map::empty(), map);
            if state_pass_all::<Transition>(list, map) is Err {
                lemma_unknown_among(
                    all_state_uses::<Transition>(list),
                    self.own_uses(),
                    map,
                    state_info(),
                    state_pass_all::<Transition>(list, map)->Err_0,
                );
            }
        }
    }

    /// The identifiers of the resource's own states.
    pub open spec fn state_ids(self) -> Set<StateId> {
        Set::new(|id: StateId| self.get_state(id) is Some)
    }

    /// The resource's own references, where they are resolved, stand for
    /// states of the resource itself: its initial state and both ends of
    /// every listed transition.
    pub open spec fn valid(self) -> bool {
        &&& self.initial.among(self.state_ids())
        &&& match self.transitions {
            TransitionsView::All => true,
            TransitionsView::List(list) => all_states_among::<Transition>(list, self.state_ids()),
        }
    }

    /// The namespace of a well-formed resource gives identifiers of its own
    /// states only.
    pub proof fn lemma_state_map_among(self)
        requires
            self.wf(),
        ensures
            map_among(self.state_map(), self.state_ids()),
    {
        assert forall|name: Seq<char>| self.state_map().contains_key(name)
            implies self.state_ids().contains(
        #[trigger] self.state_map()[name]) by {
            lemma_name_map_value(self.entries(), name);
            let k = choose|k: int|
                0 <= k < self.entries().len() && (#[trigger] self.entries()[k]) == (
                    name,
                    self.state_map()[name],
                );
            assert(self.states[k].id == StateId(self.id, k as usize));
        }
    }

    /// A well-formed resource whose resolved references stand for states of
    /// its own still is one after it resolved its own references: every
    /// reference then stands for a state of the resource.
    pub proof fn lemma_resolve_state_valid(self)
        requires
            self.wf(),
            self.valid(),
            self.resolve_state() is Ok,
        ensures
            self.resolve_state()->Ok_0.valid(),
            self.resolve_state()->Ok_0.state_ids() == self.state_ids(),
    {
        let w = self.resolve_state()->Ok_0;
        self.lemma_state_map_among();
        self.lemma_resolve_state();
        assert(w.state_ids() =~= self.state_ids());
        if let TransitionsView::List(list) = self.transitions {
            lemma_among_all::<Transition>(
                list,
                Map::empty(),
                self.state_map(),
                Set::empty(),
                self.state_ids(),
            );
        }
    }

    /// Under a new identifier every state names that identifier as its
    /// owner, and a well-formed resource stays well formed.
    pub proof fn lemma_reparent(self, id: ResourceId)
        ensures
            self.reparent(id).states.len() == self.states.len(),
            forall|i: int|
                0 <= i < self.states.len() ==> (#[trigger] self.reparent(id).states[i]).id.0 == id,
            self.wf() ==> self.reparent(id).wf(),
    {
    }

    /// A resource that resolved its own references has an initial state of
    /// its own, provided that the initial state was given by name.
    pub proof fn lemma_initial_owned(self)
        requires
            self.wf(),
            self.initial is Unresolved,
            self.resolve_state() is Ok,
        ensures
            self.resolve_state()->Ok_0.initial is Resolved,
            self.get_state(self.resolve_state()->Ok_0.initial->Resolved_0) is Some,
    {
        lemma_name_map(self.entries());
        let name = self.initial->Unresolved_0;
        assert(self.state_map().contains_key(name));
        lemma_name_map_value(self.entries(), name);
        let k = choose|k: int|
            0 <= k < self.entries().len() && (#[trigger] self.entries()[k]) == (
                name,
                self.state_map()[name],
            );
        assert(self.states[k].id == StateId(self.id, k as usize));
    }
}

impl Kept for Resource {
    open spec fn kept(before: ResourceView, after: ResourceView, spaces: Namespaces) -> bool {
        before.kept(after, spaces)
    }

    proof fn lemma_kept(
        a: ResourceView,
        b: ResourceView,
        c: ResourceView,
        spaces: Namespaces,
        wider: Namespaces,
    ) {
        a.transitions.lemma_kept(
            b.transitions,
            c.transitions,
            a.own_spaces(spaces),
            a.own_spaces(spaces),
        );
        a.transitions.lemma_kept(
            b.transitions,
            c.transitions,
            a.own_spaces(spaces),
            a.own_spaces(wider),
        );
    }
}

impl Resource {
    /// A resource named `name`, declared at `position`, not yet inserted. It
    /// has no state, allows every transition, and its initial state is the
    /// unresolved name `?`.
    pub fn new(name: &str, position: Option<Position>) -> (r: Self)
        ensures
            r@ == (ResourceView {
                id: ResourceId::spec_default(),
                name: name@,
                states: Seq::empty(),
                initial: ReferenceView::Unresolved("?"@, None),
                transitions: TransitionsView::All,
                position: position.deep_view(),
            }),
            r@.wf(),
    {
        let states: Vec<State> = Vec::new();
        proof {
            lemma_deep_empty(states);
        }
        Resource {
            id: ResourceId::default(),
            name: String::from_str(name),
            states,
            initial: Reference::Unresolved(String::from_str("?"), None),
            transitions: Transitions::All,
            position,
        }
    }

    pub fn states(&self) -> (r: &Vec<State>)
        ensures
            r.deep_view() == self@.states,
    {
        &self.states
    }

    /// Inserts `state` behind the states that are there, and gives it its
    /// identifier: this resource and the state's index.
    pub fn add_state(&mut self, state: State) -> (id: StateId)
        ensures
            id == StateId(old(self)@.id, old(self)@.states.len() as usize),
            final(self)@ == (ResourceView {
                states: old(self)@.states.push(StateView { id, ..state@ }),
                ..old(self)@
            }),
            old(self)@.wf() ==> final(self)@.wf(),
    {
        let id = StateId(self.id, self.states.len());
        let mut state = state;
        state.set_id(id);
        let ghost before = self.states;
        self.states.push(state);
        proof {
            lemma_deep_push(before, self.states, state);
            assert(self.states.deep_view().len() == self.states.len());
        }
        id
    }

    /// The state that `id` stands for, if `id` names this resource as the
    /// owner and a state stands at its index.
    pub fn get_state(&self, id: StateId) -> (r: Option<&State>)
        ensures
            r.deep_view() == self@.get_state(id),
    {
        let StateId(resource_id, index) = id;
        if self.id != resource_id {
            None
        } else if index < self.states.len() {
            proof {
                lemma_deep_index(self.states, index as int);
            }
            Some(&self.states[index])
        } else {
            None
        }
    }

    /// The initial state, as it was set or resolved.
    pub fn initial_reference(&self) -> (r: &Reference<StateId>)
        ensures
            r@ == self@.initial,
    {
        &self.initial
    }

    /// The identifier of the initial state, once it is resolved.
    pub fn initial(&self) -> (id: StateId)
        requires
            self@.initial is Resolved,
        ensures
            self@.initial == ReferenceView::Resolved(id),
    {
        self.initial.resolved()
    }

    pub fn set_initial(&mut self, state: Reference<StateId>)
        ensures
            final(self)@ == (ResourceView { initial: state@, ..old(self)@ }),
    {
        self.initial = state;
    }

    /// The namespace of the resource's own states: each name with the
    /// identifier of the last state that carries it.
    pub fn state_map(&self) -> (r: StringHashMap<StateId>)
        ensures
            r@ == self@.state_map(),
    {
        let mut map: StringHashMap<StateId> = StringHashMap::new();
        let mut i: usize = 0;
        while i < self.states.len()
            invariant
                0 <= i <= self.states.len(),
                map@ == name_map(self@.entries().take(i as int)),
            decreases self.states.len() - i,
        {
            let state = &self.states[i];
            proof {
                lemma_deep_index(self.states, i as int);
                lemma_name_map_push(
                    self@.entries().take(i as int),
                    state@.name,
                    state@.id,
                );
                assert(self@.entries().take(i as int).push((state@.name, state@.id))
                    =~= self@.entries().take(i as int + 1));
            }
            map.insert(String::from_str(state.name()), state.id());
            i = i + 1;
        }
        proof {
            assert(self@.entries().take(i as int) =~= self@.entries());
        }
        map
    }

    /// The first state that is named `name`, if there is one.
    pub fn get_state_from_name(&self, name: &str) -> (r: Option<&State>)
        ensures
            match r {
                Some(state) => exists|i: int|
                    self@.first_named(name@, i) && state@ == self@.states[i],
                None => forall|i: int|
                    0 <= i < self@.states.len() ==> (#[trigger] self@.states[i]).name != name@,
            },
    {
        let wanted = String::from_str(name);
        let mut i: usize = 0;
        while i < self.states.len()
            invariant
                0 <= i <= self.states.len(),
                wanted@ == name@,
                forall|k: int| 0 <= k < i ==> (#[trigger] self@.states[k]).name != name@,
            decreases self.states.len() - i,
        {
            let state = &self.states[i];
            proof {
                lemma_deep_index(self.states, i as int);
            }
            if state.has_name(&wanted) {
                proof {
                    assert(self@.first_named(name@, i as int));
                }
                return Some(state);
            }
            i = i + 1;
        }
        None
    }

    pub fn transitions(&self) -> (r: &Transitions)
        ensures
            r@ == self@.transitions,
    {
        &self.transitions
    }

    pub fn set_transitions(&mut self, transitions: Transitions)
        ensures
            final(self)@ == (ResourceView { transitions: transitions@, ..old(self)@ }),
    {
        self.transitions = transitions;
    }

    /// The transitions that the policy allows. Where it allows every
    /// transition they are worked out anew: for each state in order, the
    /// transitions to every other state in order.
    pub fn transitions_list(&self) -> (r: Vec<Transition>)
        ensures
            r.deep_view() == self@.transitions_list(),
    {
        match &self.transitions {
            Transitions::All => {
                let mut list: Vec<Transition> = Vec::new();
                let n = self.states.len();
                let mut i: usize = 0;
                proof {
                    lemma_deep_empty(list);
                }
                while i < n
                    invariant
                        n == self.states.len(),
                        n == self@.states.len(),
                        0 <= i <= n,
                        list.deep_view() == all_pairs(self@.states, i as int),
                    decreases n - i,
                {
                    let ghost row = list.deep_view();
                    let src = self.states[i].id();
                    let mut j: usize = 0;
                    proof {
                        lemma_deep_index(self.states, i as int);
                        assert(row + pairs_from(self@.states, i as int, 0) =~= row);
                    }
                    while j < n
                        invariant
                            n == self.states.len(),
                            n == self@.states.len(),
                            0 <= i < n,
                            0 <= j <= n,
                            src == self@.states[i as int].id,
                            list.deep_view() == row + pairs_from(self@.states, i as int, j as int),
                        decreases n - j,
                    {
                        let dst = self.states[j].id();
                        proof {
                            lemma_deep_index(self.states, j as int);
                        }
                        if src != dst {
                            let transition = Transition::new(
                                Reference::Resolved(src),
                                Reference::Resolved(dst),
                            );
                            let ghost before = list;
                            list.push(transition);
                            proof {
                                lemma_deep_push(before, list, transition);
                                assert((row + pairs_from(self@.states, i as int, j as int)).push(
                                    transition@,
                                ) =~= row + pairs_from(self@.states, i as int, j as int + 1));
                            }
                        }
                        j = j + 1;
                    }
                    i = i + 1;
                }
                list
            },
            Transitions::List(transitions) => {
                let list = transitions.clone();
                proof {
                    assert(list.deep_view() =~= transitions.deep_view());
                }
                list
            },
        }
    }

    /// The names of the states with their positions, in order.
    pub fn names(&self) -> (r: Vec<Naming>)
        ensures
            r.deep_view() == self@.names(),
    {
        let mut names: Vec<Naming> = Vec::new();
        let mut i: usize = 0;
        proof {
            lemma_deep_empty(names);
        }
        while i < self.states.len()
            invariant
                0 <= i <= self.states.len(),
                names.deep_view() == self@.names().take(i as int),
            decreases self.states.len() - i,
        {
            let entry = self.states[i].naming();
            let ghost before = names;
            names.push(entry);
            proof {
                lemma_deep_index(self.states, i as int);
                lemma_deep_push(before, names, entry);
                assert(self@.names().take(i as int).push(entry.deep_view()) =~= self@.names().take(
                    i as int + 1,
                ));
            }
            i = i + 1;
        }
        proof {
            assert(self@.names().take(i as int) =~= self@.names());
        }
        names
    }

    /// Resolves the resource's own references against the namespace of its
    /// own states: the initial state, then the ends of the listed
    /// transitions.
    /// Whatever the outcome, nothing has changed but that names of states may
    /// have been resolved.
    pub fn resolve_state(&mut self) -> (r: Result<(), RlError>)
        ensures
            in_place(old(self)@.resolve_state(), final(self)@, r),
            old(self)@.kept(final(self)@, Namespaces::only_states(old(self)@.state_map())),
            old(self)@.wf() ==> final(self)@.wf(),
            r is Ok ==> final(self)@.resolved(),
            r is Ok && old(self)@.wf() && old(self)@.valid() ==> final(self)@.valid(),
    {
        proof {
            Resource::lemma_kept(
                old(self)@,
                old(self)@,
                old(self)@,
                Namespaces::only_states(old(self)@.state_map()),
                Namespaces::only_states(old(self)@.state_map()),
            );
            old(self)@.lemma_resolve_state();
            if old(self)@.wf() && old(self)@.valid() && old(self)@.resolve_state() is Ok {
                old(self)@.lemma_resolve_state_valid();
            }
        }
        let map = self.state_map();
        match self.resolve_initial_state(&map) {
            Ok(()) => {},
            Err(e) => {
                return Err(e);
            },
        }
        self.transitions.resolve(&map)
    }

    /// Resolves the initial state against `map`.
    pub fn resolve_initial_state(&mut self, map: &StringHashMap<StateId>) -> (r: Result<
        (),
        RlError,
    >)
        ensures
            in_place(
                match old(self)@.initial.resolve(map@, state_info()) {
                    Err(e) => Err(e),
                    Ok(initial) => Ok(ResourceView { initial, ..old(self)@ }),
                },
                final(self)@,
                r,
            ),
            r is Err ==> final(self)@ == old(self)@,
            final(self)@ == (ResourceView { initial: final(self)@.initial, ..old(self)@ }),
            old(self)@.initial.kept(final(self)@.initial, Some(map@)),
    {
        self.initial.resolve_in_place(map, "state")
    }
}

impl Named<ResourceId> for Resource {
    open spec fn spec_id(&self) -> ResourceId {
        self@.id
    }

    open spec fn spec_name(&self) -> Seq<char> {
        self@.name
    }

    open spec fn spec_position(&self) -> Option<PositionView> {
        self@.position
    }

    fn id(&self) -> (r: ResourceId) {
        self.id
    }

    /// Assigns the identifier, and rewrites the identifier of every state
    /// so that it names the new one as its owner.
    fn set_id(&mut self, id: ResourceId)
        ensures
            final(self)@ == old(self)@.reparent(id),
            old(self)@.wf() ==> final(self)@.wf(),
    {
        self.id = id;
        let ghost before = old(self)@.states;
        let mut i: usize = 0;
        while i < self.states.len()
            invariant
                0 <= i <= self.states.len(),
                self.states.len() == before.len(),
                before == old(self)@.states,
                self.id == id,
                self.name == old(self).name,
                self.initial == old(self).initial,
                self.transitions == old(self).transitions,
                self.position == old(self).position,
                forall|k: int|
                    0 <= k < i ==> #[trigger] self.states.deep_view()[k] == (StateView {
                        id: StateId(id, before[k].id.1),
                        ..before[k]
                    }),
                forall|k: int|
                    i <= k < before.len() ==> #[trigger] self.states.deep_view()[k] == before[k],
            decreases self.states.len() - i,
        {
            let ghost previous = self.states.deep_view();
            let StateId(_, index) = self.states[i].id();
            self.states[i].set_id(StateId(id, index));
            proof {
                assert(previous[i as int] == before[i as int]);
                assert forall|k: int|
                    0 <= k < before.len() && k != i implies #[trigger] self.states.deep_view()[k]
                    == previous[k] by {}
            }
            i = i + 1;
        }
        proof {
            assert(self.states.deep_view() =~= old(self)@.reparent(id).states);
        }
    }

    fn name(&self) -> (r: &str) {
        self.name.as_str()
    }

    fn position(&self) -> (r: Option<Position>) {
        self.position.clone()
    }
}

impl GetFromId<StateId, State> for Resource {
    open spec fn spec_get(&self, id: StateId) -> Option<StateView> {
        self@.get_state(id)
    }

    fn get(&self, id: StateId) -> (r: Option<&State>) {
        self.get_state(id)
    }
}

} // verus!
