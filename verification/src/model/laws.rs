//! What holds of every skillset: what its namespaces know, when its checks
//! fail, and what its resolution passes achieve.

use crate::model::data::{Data, DataId, DataView};
use crate::model::deep::{
    all_ok, lemma_concat_from, lemma_concat_slot, lemma_concat_slots_ordered,
    lemma_first_report_exists, lemma_sequence_succeeds, slot,
};
use crate::model::event::{Event, EventId, EventView};
use crate::model::expr::{resource_info, state_info, type_info, ExprView};
use crate::model::identity::NamingView;
use crate::model::invariants::Invariant;
use crate::model::naming::{lemma_local_clash_fails, lemma_name_map, lemma_name_map_value, name_map};
use crate::model::reference::{
    decided, known, lemma_kept_resolved, lemma_unknown_among, map_among, ReferenceView,
};
use crate::model::resolve::{
    all_resource_uses, all_resources_among, all_resources_resolved, all_state_uses,
    all_states_among, all_states_resolved, all_type_uses, all_types_among, all_types_resolved,
    lemma_all_kept, lemma_among_all, lemma_pass_kept_all, lemma_passes_all,
    lemma_same_resource_uses, lemma_same_state_uses, lemma_sequence_pointwise, lemma_type_pass_all,
    lemma_type_pass_kept_all, lemma_type_uses_all, lemma_types_among_all, lemma_uses_all,
    resource_pass_all, state_pass_all, type_pass_all, Kept, Namespaces, Resolvable, Typed,
};
use crate::model::resource::{Resource, ResourceId, ResourceView};
use crate::model::rl_type::{RlTypeView, TypeId};
use crate::model::skill::{Skill, SkillId, SkillView};
use crate::model::skillset::{
    naming_blocks, resource_namings, state_blocks, state_entries, SkillsetView,
};
use crate::model::state::StateId;
use crate::parser::error::{quoted, RlErrorView};
use crate::parser::position::PositionView;
use vstd::prelude::*;

verus! {

/// What every pass leaves of the skills: there are as many as before, each
/// under its name, at its position, with its identifier, and well formed if
/// it was.
pub open spec fn skills_kept(before: Seq<SkillView>, after: Seq<SkillView>) -> bool {
    &&& after.len() == before.len()
    &&& forall|k: int|
        0 <= k < before.len() ==> (#[trigger] after[k]).id == before[k].id && after[k].name
            == before[k].name && after[k].position == before[k].position && (before[k].wf()
            ==> after[k].wf())
}

/// What the type pass does to the skills.
proof fn lemma_type_pass_skills(
    before: Seq<SkillView>,
    after: Seq<SkillView>,
    types: Map<Seq<char>, TypeId>,
)
    requires
        type_pass_all::<Skill>(before, types) == Ok::<Seq<SkillView>, RlErrorView>(after),
    ensures
        skills_kept(before, after),
        all_types_resolved::<Skill>(after),
        all_resources_resolved::<Skill>(after) <==> all_resources_resolved::<Skill>(before),
        all_states_resolved::<Skill>(after) <==> all_states_resolved::<Skill>(before),
{
    lemma_type_pass_all::<Skill>(before, types);
    lemma_sequence_pointwise(before.map_values(|v: SkillView| Skill::type_pass(v, types)));
    assert forall|k: int| 0 <= k < before.len() implies (#[trigger] after[k]).id == before[k].id
        && after[k].name == before[k].name && after[k].position == before[k].position && (
    before[k].wf() ==> after[k].wf()) && (after[k].resources_resolved()
        <==> before[k].resources_resolved()) && (after[k].states_resolved()
        <==> before[k].states_resolved()) by {
        before[k].lemma_passes_apart(types, Map::empty(), Map::empty());
    }
    assert(all_resources_resolved::<Skill>(after) <==> all_resources_resolved::<Skill>(before)) by {
        if all_resources_resolved::<Skill>(before) {
            assert forall|k: int| 0 <= k < after.len() implies Skill::resources_resolved(
                #[trigger] after[k],
            ) by {
                assert(Skill::resources_resolved(before[k]));
            }
        }
        if all_resources_resolved::<Skill>(after) {
            assert forall|k: int| 0 <= k < before.len() implies Skill::resources_resolved(
                #[trigger] before[k],
            ) by {
                assert(Skill::resources_resolved(after[k]));
            }
        }
    }
    assert(all_states_resolved::<Skill>(after) <==> all_states_resolved::<Skill>(before)) by {
        if all_states_resolved::<Skill>(before) {
            assert forall|k: int| 0 <= k < after.len() implies Skill::states_resolved(
                #[trigger] after[k],
            ) by {
                assert(Skill::states_resolved(before[k]));
            }
        }
        if all_states_resolved::<Skill>(after) {
            assert forall|k: int| 0 <= k < before.len() implies Skill::states_resolved(
                #[trigger] before[k],
            ) by {
                assert(Skill::states_resolved(after[k]));
            }
        }
    }
}

/// What the resource pass and the state pass do to the skills.
proof fn lemma_later_pass_skills(
    before: Seq<SkillView>,
    after: Seq<SkillView>,
    resources: Map<Seq<char>, ResourceId>,
    states: Map<Seq<char>, StateId>,
)
    requires
        resource_pass_all::<Skill>(before, resources) == Ok::<Seq<SkillView>, RlErrorView>(after)
            || state_pass_all::<Skill>(before, states) == Ok::<Seq<SkillView>, RlErrorView>(after),
    ensures
        skills_kept(before, after),
        all_types_resolved::<Skill>(after) <==> all_types_resolved::<Skill>(before),
{
    if resource_pass_all::<Skill>(before, resources) == Ok::<Seq<SkillView>, RlErrorView>(after) {
        lemma_sequence_pointwise(
            before.map_values(|v: SkillView| Skill::resource_pass(v, resources)),
        );
    } else {
        lemma_sequence_pointwise(before.map_values(|v: SkillView| Skill::state_pass(v, states)));
    }
    assert forall|k: int| 0 <= k < before.len() implies (#[trigger] after[k]).id == before[k].id
        && after[k].name == before[k].name && after[k].position == before[k].position && (
    before[k].wf() ==> after[k].wf()) && (after[k].types_resolved()
        <==> before[k].types_resolved()) by {
        before[k].lemma_passes_apart(Map::empty(), resources, states);
    }
    if all_types_resolved::<Skill>(before) {
        assert forall|k: int| 0 <= k < after.len() implies Skill::types_resolved(
            #[trigger] after[k],
        ) by {
            assert(Skill::types_resolved(before[k]));
        }
    }
    if all_types_resolved::<Skill>(after) {
        assert forall|k: int| 0 <= k < before.len() implies Skill::types_resolved(
            #[trigger] before[k],
        ) by {
            assert(Skill::types_resolved(after[k]));
        }
    }
}

/// What a pass keeps of the skills where it resolves nothing: the resolved
/// references of the other spaces still stand for what they stood for.
proof fn lemma_skills_among_apart(
    before: Seq<SkillView>,
    after: Seq<SkillView>,
    types: Map<Seq<char>, TypeId>,
    resources: Map<Seq<char>, ResourceId>,
    states: Map<Seq<char>, StateId>,
    type_ids: Set<TypeId>,
    resource_ids: Set<ResourceId>,
    state_ids: Set<StateId>,
)
    ensures
        type_pass_all::<Skill>(before, types) == Ok::<Seq<SkillView>, RlErrorView>(after) ==> (
        all_resources_among::<Skill>(before, resource_ids) ==> all_resources_among::<Skill>(
            after,
            resource_ids,
        )) && (all_states_among::<Skill>(before, state_ids) ==> all_states_among::<Skill>(
            after,
            state_ids,
        )),
        resource_pass_all::<Skill>(before, resources) == Ok::<Seq<SkillView>, RlErrorView>(after)
            || state_pass_all::<Skill>(before, states) == Ok::<Seq<SkillView>, RlErrorView>(after)
            ==> (all_types_among::<Skill>(before, type_ids) ==> all_types_among::<Skill>(
            after,
            type_ids,
        )),
{
    if type_pass_all::<Skill>(before, types) == Ok::<Seq<SkillView>, RlErrorView>(after) {
        lemma_sequence_pointwise(before.map_values(|v: SkillView| Skill::type_pass(v, types)));
        assert forall|k: int|
            0 <= k < before.len() && Skill::resources_among(
                before[k],
                resource_ids,
            ) implies Skill::resources_among(#[trigger] after[k], resource_ids) by {
            before[k].lemma_passes_apart(types, resources, states);
        }
        assert forall|k: int|
            0 <= k < before.len() && Skill::states_among(
                before[k],
                state_ids,
            ) implies Skill::states_among(#[trigger] after[k], state_ids) by {
            before[k].lemma_passes_apart(types, resources, states);
        }
    }
    if resource_pass_all::<Skill>(before, resources) == Ok::<Seq<SkillView>, RlErrorView>(after) {
        lemma_sequence_pointwise(
            before.map_values(|v: SkillView| Skill::resource_pass(v, resources)),
        );
        assert forall|k: int|
            0 <= k < before.len() && Skill::types_among(
                before[k],
                type_ids,
            ) implies Skill::types_among(#[trigger] after[k], type_ids) by {
            before[k].lemma_passes_apart(types, resources, states);
        }
    } else if state_pass_all::<Skill>(before, states) == Ok::<Seq<SkillView>, RlErrorView>(after) {
        lemma_sequence_pointwise(before.map_values(|v: SkillView| Skill::state_pass(v, states)));
        assert forall|k: int|
            0 <= k < before.len() && Skill::types_among(
                before[k],
                type_ids,
            ) implies Skill::types_among(#[trigger] after[k], type_ids) by {
            before[k].lemma_passes_apart(types, resources, states);
        }
    }
}

/// What a pass does to the events: it leaves each under its name, at its
/// position, with its identifier.
proof fn lemma_pass_events(
    before: Seq<EventView>,
    after: Seq<EventView>,
    resources: Map<Seq<char>, ResourceId>,
    states: Map<Seq<char>, StateId>,
)
    requires
        resource_pass_all::<Event>(before, resources) == Ok::<Seq<EventView>, RlErrorView>(after)
            || state_pass_all::<Event>(before, states) == Ok::<Seq<EventView>, RlErrorView>(after),
    ensures
        after.len() == before.len(),
        forall|k: int|
            0 <= k < before.len() ==> (#[trigger] after[k]).id == before[k].id && after[k].name
                == before[k].name && after[k].position == before[k].position,
{
    if resource_pass_all::<Event>(before, resources) == Ok::<Seq<EventView>, RlErrorView>(after) {
        lemma_sequence_pointwise(
            before.map_values(|v: EventView| Event::resource_pass(v, resources)),
        );
    } else {
        lemma_sequence_pointwise(before.map_values(|v: EventView| Event::state_pass(v, states)));
    }
}

impl SkillsetView {
    /// Resource `a` declares, as its state `i`, a state named `name`.
    pub open spec fn declares_state(self, a: int, i: int, name: Seq<char>) -> bool {
        &&& 0 <= a < self.resources.len()
        &&& 0 <= i < self.resources[a].states.len()
        &&& self.resources[a].states[i].name == name
    }

    /// The namespace of the states knows a name exactly when some resource
    /// declares a state of that name, wherever that resource stands among
    /// the resources.
    pub proof fn lemma_state_map_knows(self, name: Seq<char>)
        ensures
            self.state_map().contains_key(name) <==> exists|a: int, i: int|
                self.declares_state(a, i, name),
    {
        let blocks = state_blocks(self.resources);
        let entries = state_entries(self.resources);
        lemma_name_map(entries);
        if self.state_map().contains_key(name) {
            let k = choose|k: int| 0 <= k < entries.len() && (#[trigger] entries[k]).0 == name;
            let place = lemma_concat_from(blocks, k);
            assert(self.declares_state(place.0, place.1, name));
        }
        if exists|a: int, i: int| self.declares_state(a, i, name) {
            let (a, i) = choose|a: int, i: int| self.declares_state(a, i, name);
            lemma_concat_slot(blocks, a, i);
            assert(entries[slot(blocks, a, i)].0 == name);
        }
    }

    /// What the namespace of the states gives a name is the identifier of a
    /// state that carries the name.
    pub proof fn lemma_state_map_value(self, name: Seq<char>)
        requires
            self.state_map().contains_key(name),
        ensures
            exists|a: int, i: int|
                self.declares_state(a, i, name) && self.resources[a].states[i].id
                    == self.state_map()[name],
    {
        let blocks = state_blocks(self.resources);
        let entries = state_entries(self.resources);
        lemma_name_map_value(entries, name);
        let k = choose|k: int|
            0 <= k < entries.len() && (#[trigger] entries[k]) == (name, self.state_map()[name]);
        let place = lemma_concat_from(blocks, k);
        let (a, i) = place;
        assert(self.declares_state(a, i, name) && self.resources[a].states[i].id
            == self.state_map()[name]);
    }

    /// The identifier that the namespace of the states gives a name is that
    /// of a state which the skillset finds under it and which carries the
    /// name; its owner is the resource that declares the state, wherever
    /// that resource stands.
    pub proof fn lemma_state_map_names(self, name: Seq<char>)
        requires
            self.wf(),
            self.state_map().contains_key(name),
        ensures
            self.get_state(self.state_map()[name]) matches Some(state) && state.name == name
                && state.id == self.state_map()[name],
            self.get_resource(self.state_map()[name].0) is Some,
    {
        self.lemma_state_map_value(name);
        let (a, i) = choose|a: int, i: int|
            self.declares_state(a, i, name) && self.resources[a].states[i].id
                == self.state_map()[name];
        assert(self.resources[a].id == ResourceId(a as usize));
        assert(self.resources[a].states[i].id == StateId(self.resources[a].id, i as usize));
    }

    /// The identifier that the namespace of the types gives a name is that
    /// of a type which the skillset finds under it and which carries the
    /// name; and likewise for the resources.
    pub proof fn lemma_map_names(self, name: Seq<char>)
        requires
            self.wf(),
        ensures
            self.type_map().contains_key(name) ==> (self.get_type(
                self.type_map()[name],
            ) matches Some(x) && x.name == name),
            self.resource_map().contains_key(name) ==> (self.get_resource(
                self.resource_map()[name],
            ) matches Some(x) && x.name == name),
    {
        if self.type_map().contains_key(name) {
            let types = self.types.map_values(|x: RlTypeView| (x.name, x.id));
            lemma_name_map_value(types, name);
            let k = choose|k: int|
                0 <= k < types.len() && (#[trigger] types[k]) == (name, self.type_map()[name]);
            assert(self.types[k].id == TypeId(k as usize));
        }
        if self.resource_map().contains_key(name) {
            let resources = self.resources.map_values(|x: ResourceView| (x.name, x.id));
            lemma_name_map_value(resources, name);
            let k = choose|k: int|
                0 <= k < resources.len() && (#[trigger] resources[k]) == (
                    name,
                    self.resource_map()[name],
                );
            assert(self.resources[k].id == ResourceId(k as usize));
        }
    }

    /// A reference to a state that a resource declares resolves against the
    /// namespace of the states, also when that resource is declared behind
    /// the place of the reference; a reference to a state that no resource
    /// declares fails with an error that names the state and the place where
    /// the name was used.
    pub proof fn lemma_state_reference(self, name: Seq<char>, position: Option<PositionView>)
        ensures
            (exists|a: int, i: int| self.declares_state(a, i, name))
                ==> ReferenceView::<StateId>::Unresolved(name, position).resolve(
                self.state_map(),
                state_info(),
            ) is Ok,
            !(exists|a: int, i: int| self.declares_state(a, i, name))
                ==> ReferenceView::<StateId>::Unresolved(name, position).resolve(
                self.state_map(),
                state_info(),
            ) == Err::<ReferenceView<StateId>, RlErrorView>(
                RlErrorView::Resolve { element: quoted(state_info(), name), position },
            ),
    {
        self.lemma_state_map_knows(name);
    }

    /// The resources keep their states, names and identifiers when they
    /// resolve their own references, so that the state pass sees the
    /// namespaces as they were before.
    pub proof fn lemma_own_states_keep_namespace(self)
        requires
            self.resolve_own_states() is Ok,
        ensures
            self.resolve_own_states()->Ok_0.len() == self.resources.len(),
            forall|a: int|
                0 <= a < self.resources.len() ==> (#[trigger] self.resolve_own_states()->Ok_0[a])
                    == (ResourceView {
                    initial: self.resolve_own_states()->Ok_0[a].initial,
                    transitions: self.resolve_own_states()->Ok_0[a].transitions,
                    ..self.resources[a]
                }),
            state_entries(self.resolve_own_states()->Ok_0) == state_entries(self.resources),
            resource_namings(self.resolve_own_states()->Ok_0) == resource_namings(self.resources),
    {
        let outcomes = self.resources.map_values(|x: ResourceView| x.resolve_state());
        let resolved = self.resolve_own_states()->Ok_0;
        assert forall|a: int| 0 <= a < self.resources.len() implies (#[trigger] resolved[a]) == (
        ResourceView {
            initial: resolved[a].initial,
            transitions: resolved[a].transitions,
            ..self.resources[a]
        }) by {
            assert(outcomes[a] is Ok);
        }
        assert(state_blocks(resolved) =~= state_blocks(self.resources));
        assert(naming_blocks(resolved) =~= naming_blocks(self.resources));
    }

    /// A skillset is kept by doing nothing; what is kept twice is kept; and
    /// what is kept under some namespaces is kept under more.
    pub proof fn lemma_kept(
        self,
        b: SkillsetView,
        c: SkillsetView,
        spaces: Namespaces,
        wider: Namespaces,
    )
        ensures
            self.kept(self, spaces),
            self.kept(b, spaces) && b.kept(c, spaces) ==> self.kept(c, spaces),
            self.kept(b, spaces) && spaces.within(wider) ==> self.kept(b, wider),
    {
        lemma_all_kept::<Data>(self.data, b.data, c.data, spaces, wider);
        lemma_all_kept::<Resource>(self.resources, b.resources, c.resources, spaces, wider);
        lemma_all_kept::<Event>(self.events, b.events, c.events, spaces, wider);
        lemma_all_kept::<Skill>(self.skills, b.skills, c.skills, spaces, wider);
    }

    /// What is kept of a skillset keeps its shape. It declares what it
    /// declared: there are as many data, resources, events and skills, each
    /// with its identifier, under its name and at its position, and every
    /// resource has the states it had; so the namespaces are as they were,
    /// the duplicate check ends as it would have, and a well-formed skillset
    /// is still well formed.
    pub proof fn lemma_kept_shape(self, after: SkillsetView, spaces: Namespaces)
        requires
            self.kept(after, spaces),
        ensures
            self.declares_like(after),
            after.type_map() == self.type_map(),
            after.duplicate_error() == self.duplicate_error(),
            forall|k: int|
                0 <= k < self.data.len() ==> (#[trigger] after.data[k]).id == self.data[k].id,
            forall|k: int|
                0 <= k < self.resources.len() ==> (#[trigger] after.resources[k]).id
                    == self.resources[k].id && after.resources[k].states
                    == self.resources[k].states,
            forall|k: int|
                0 <= k < self.events.len() ==> (#[trigger] after.events[k]).id == self.events[k].id,
            forall|k: int|
                0 <= k < self.skills.len() ==> (#[trigger] after.skills[k]).id == self.skills[k].id,
            self.wf() ==> after.wf(),
    {
        assert(after.data_naming() =~= self.data_naming());
        assert(after.event_naming() =~= self.event_naming());
        assert(after.skill_naming() =~= self.skill_naming());
        assert(naming_blocks(after.resources) =~= naming_blocks(self.resources));
        assert(state_blocks(after.resources) =~= state_blocks(self.resources));
        assert(after.resources.map_values(|x: ResourceView| (x.name, x.id))
            =~= self.resources.map_values(|x: ResourceView| (x.name, x.id)));
        assert forall|k: int| 0 <= k < self.skills.len() implies (#[trigger] after.skills[k]).id
            == self.skills[k].id && after.skills[k].duplicate_error(after.type_naming())
            == self.skills[k].duplicate_error(self.type_naming()) && (self.skills[k].wf()
            ==> after.skills[k].wf()) by {
            self.skills[k].lemma_kept_shape(after.skills[k], spaces);
        }
        assert(after.duplicate_checks() =~= self.duplicate_checks());
    }

    /// The namespaces of a well-formed skillset give identifiers of its own
    /// entities only.
    pub proof fn lemma_namespaces_among(self)
        requires
            self.wf(),
        ensures
            map_among(self.type_map(), self.type_ids()),
            map_among(self.resource_map(), self.resource_ids()),
            map_among(self.state_map(), self.state_ids()),
    {
        let types = self.types.map_values(|x: RlTypeView| (x.name, x.id));
        assert forall|name: Seq<char>| self.type_map().contains_key(name)
            implies self.type_ids().contains(
        #[trigger] self.type_map()[name]) by {
            lemma_name_map_value(types, name);
            let k = choose|k: int|
                0 <= k < types.len() && (#[trigger] types[k]) == (name, self.type_map()[name]);
            assert(self.types[k].id == TypeId(k as usize));
        }
        let resources = self.resources.map_values(|x: ResourceView| (x.name, x.id));
        assert forall|name: Seq<char>| self.resource_map().contains_key(name)
            implies self.resource_ids().contains(
        #[trigger] self.resource_map()[name]) by {
            lemma_name_map_value(resources, name);
            let k = choose|k: int|
                0 <= k < resources.len() && (#[trigger] resources[k]) == (
                    name,
                    self.resource_map()[name],
                );
            assert(self.resources[k].id == ResourceId(k as usize));
        }
        assert forall|name: Seq<char>| self.state_map().contains_key(name)
            implies self.state_ids().contains(
        #[trigger] self.state_map()[name]) by {
            self.lemma_state_map_value(name);
            let (a, i) = choose|a: int, i: int|
                self.declares_state(a, i, name) && self.resources[a].states[i].id
                    == self.state_map()[name];
            assert(self.resources[a].id == ResourceId(a as usize));
            assert(self.resources[a].states[i].id == StateId(self.resources[a].id, i as usize));
        }
    }

    /// What the type pass achieves. When it succeeds, every reference to a
    /// type is resolved, no other reference has changed, and the skillset
    /// declares what it declared; and a skillset whose references to types
    /// are resolved passes unchanged.
    pub proof fn lemma_resolve_type(self)
        ensures
            self.resolve_type() matches Ok(w) ==> w.types_resolved() && (w.resources_resolved()
                <==> self.resources_resolved()) && (w.states_resolved() <==> self.states_resolved())
                && self.declares_like(w) && (self.wf() ==> w.wf()) && (self.wf() && self.valid()
                ==> w.valid()) && self.kept(w, Namespaces::only_types(self.type_map())),
            self.types_resolved() ==> self.resolve_type() == Ok::<SkillsetView, RlErrorView>(self),
    {
        let types = self.type_map();
        lemma_type_pass_all::<Data>(self.data, types);
        lemma_type_pass_all::<Skill>(self.skills, types);
        lemma_type_pass_kept_all::<Data>(self.data, types);
        lemma_type_pass_kept_all::<Skill>(self.skills, types);
        self.lemma_kept(self, self, Namespaces::only_types(types), Namespaces::only_types(types));
        if self.resolve_type() is Ok {
            let w = self.resolve_type()->Ok_0;
            lemma_sequence_pointwise(self.data.map_values(|v: DataView| Data::type_pass(v, types)));
            lemma_type_pass_skills(self.skills, w.skills, types);
            assert(w.resources == self.resources && w.events == self.events);
            assert(w.data_naming() =~= self.data_naming());
            if self.wf() && self.valid() {
                self.lemma_namespaces_among();
                lemma_types_among_all::<Data>(self.data, types, self.type_ids());
                lemma_types_among_all::<Skill>(self.skills, types, self.type_ids());
                lemma_skills_among_apart(
                    self.skills,
                    w.skills,
                    types,
                    Map::empty(),
                    Map::empty(),
                    self.type_ids(),
                    self.resource_ids(),
                    self.state_ids(),
                );
                assert(w.type_ids() =~= self.type_ids());
                assert(w.resource_ids() =~= self.resource_ids());
                assert(w.state_ids() =~= self.state_ids());
            }
            assert(w.skill_naming() =~= self.skill_naming());
            if self.wf() {
                assert forall|i: int| 0 <= i < w.data.len() implies (#[trigger] w.data[i]).id
                    == DataId(i as usize) by {
                    assert(self.data[i].id == DataId(i as usize));
                }
                assert forall|i: int| 0 <= i < w.skills.len() implies (#[trigger] w.skills[i]).id
                    == SkillId(i as usize) && w.skills[i].wf() by {
                    assert(self.skills[i].id == SkillId(i as usize));
                }
            }
        }
    }

    /// What the resource pass achieves. When it succeeds, every reference
    /// to a resource is resolved, no other reference has changed, and the
    /// skillset declares what it declared; and a skillset whose references
    /// to resources are resolved passes unchanged.
    pub proof fn lemma_resolve_resource(self)
        ensures
            self.resolve_resource() matches Ok(w) ==> w.resources_resolved() && (w.types_resolved()
                <==> self.types_resolved()) && (w.states_resolved() <==> self.states_resolved())
                && self.declares_like(w) && (self.wf() ==> w.wf()) && (self.wf() && self.valid()
                ==> w.valid()) && self.kept(w, Namespaces::only_resources(self.resource_map())),
            self.resources_resolved() ==> self.resolve_resource() == Ok::<
                SkillsetView,
                RlErrorView,
            >(self),
    {
        let resources = self.resource_map();
        lemma_passes_all::<Event>(self.events, resources, Map::empty());
        lemma_passes_all::<Skill>(self.skills, resources, Map::empty());
        lemma_pass_kept_all::<Event>(self.events, resources, Map::empty());
        lemma_pass_kept_all::<Skill>(self.skills, resources, Map::empty());
        self.lemma_kept(
            self,
            self,
            Namespaces::only_resources(resources),
            Namespaces::only_resources(resources),
        );
        if self.resolve_resource() is Ok {
            let w = self.resolve_resource()->Ok_0;
            lemma_pass_events(self.events, w.events, resources, Map::empty());
            lemma_later_pass_skills(self.skills, w.skills, resources, Map::empty());
            assert(w.resources == self.resources && w.data == self.data);
            assert(w.event_naming() =~= self.event_naming());
            if self.wf() && self.valid() {
                self.lemma_namespaces_among();
                lemma_among_all::<Event>(
                    self.events,
                    resources,
                    Map::empty(),
                    self.resource_ids(),
                    self.state_ids(),
                );
                lemma_among_all::<Skill>(
                    self.skills,
                    resources,
                    Map::empty(),
                    self.resource_ids(),
                    self.state_ids(),
                );
                lemma_skills_among_apart(
                    self.skills,
                    w.skills,
                    Map::empty(),
                    resources,
                    Map::empty(),
                    self.type_ids(),
                    self.resource_ids(),
                    self.state_ids(),
                );
                assert(w.type_ids() =~= self.type_ids());
                assert(w.resource_ids() =~= self.resource_ids());
                assert(w.state_ids() =~= self.state_ids());
            }
            assert(w.skill_naming() =~= self.skill_naming());
            if self.wf() {
                assert forall|i: int| 0 <= i < w.events.len() implies (#[trigger] w.events[i]).id
                    == EventId(i as usize) by {
                    assert(self.events[i].id == EventId(i as usize));
                }
                assert forall|i: int| 0 <= i < w.skills.len() implies (#[trigger] w.skills[i]).id
                    == SkillId(i as usize) && w.skills[i].wf() by {
                    assert(self.skills[i].id == SkillId(i as usize));
                }
            }
        }
    }

    /// What the state pass achieves. When it succeeds, every reference to a
    /// state is resolved, no other reference has changed, and the skillset
    /// declares what it declared; and a skillset whose references to states
    /// are resolved passes unchanged.
    pub proof fn lemma_resolve_state(self)
        ensures
            self.resolve_state() matches Ok(w) ==> w.states_resolved() && (w.types_resolved()
                <==> self.types_resolved()) && (w.resources_resolved()
                <==> self.resources_resolved()) && self.declares_like(w) && (self.wf() ==> w.wf())
                && (self.wf() && self.valid() ==> w.valid()) && self.kept(
                w,
                Namespaces::only_states(self.state_map()),
            ),
            self.states_resolved() ==> self.resolve_state() == Ok::<SkillsetView, RlErrorView>(
                self,
            ),
    {
        let outcomes = self.resources.map_values(|x: ResourceView| x.resolve_state());
        if self.states_resolved() {
            assert forall|a: int| 0 <= a < self.resources.len() implies #[trigger] outcomes[a]
                == Ok::<ResourceView, RlErrorView>(self.resources[a]) by {
                self.resources[a].lemma_resolve_state();
            }
            lemma_sequence_succeeds(outcomes, self.resources);
            lemma_passes_all::<Event>(self.events, Map::empty(), self.state_map());
            lemma_passes_all::<Skill>(self.skills, Map::empty(), self.state_map());
        }
        if self.resolve_state() is Ok {
            let w = self.resolve_state()->Ok_0;
            let states = name_map(state_entries(w.resources));
            self.lemma_own_states_keep_namespace();
            lemma_sequence_pointwise(outcomes);
            lemma_passes_all::<Event>(self.events, Map::empty(), states);
            lemma_passes_all::<Skill>(self.skills, Map::empty(), states);
            lemma_pass_kept_all::<Event>(self.events, Map::empty(), states);
            lemma_pass_kept_all::<Skill>(self.skills, Map::empty(), states);
            self.lemma_kept(
                self,
                self,
                Namespaces::only_states(states),
                Namespaces::only_states(states),
            );
            assert forall|a: int| 0 <= a < self.resources.len() implies self.resources[a].kept(
                #[trigger] w.resources[a],
                Namespaces::only_states(states),
            ) by {
                self.resources[a].lemma_resolve_state();
                assert(outcomes[a] == Ok::<ResourceView, RlErrorView>(w.resources[a]));
            }
            lemma_pass_events(self.events, w.events, Map::empty(), states);
            lemma_later_pass_skills(self.skills, w.skills, Map::empty(), states);
            assert forall|a: int| 0 <= a < w.resources.len() implies (
            #[trigger] w.resources[a]).resolved() && (self.resources[a].wf()
                ==> w.resources[a].wf()) by {
                self.resources[a].lemma_resolve_state();
            }
            assert(w.event_naming() =~= self.event_naming());
            assert(w.skill_naming() =~= self.skill_naming());
            assert(w.resources.map_values(|x: ResourceView| (x.name, x.id))
                =~= self.resources.map_values(|x: ResourceView| (x.name, x.id)));
            if self.wf() && self.valid() {
                self.lemma_namespaces_among();
                assert(w.data == self.data);
                assert(w.type_ids() =~= self.type_ids());
                assert(w.resource_ids() =~= self.resource_ids());
                assert(w.state_ids() =~= self.state_ids()) by {
                    assert forall|id: StateId| w.get_state(id) is Some <==> self.get_state(
                        id,
                    ) is Some by {
                        if id.0.0 < self.resources.len() {
                            assert(w.resources[id.0.0 as int].states
                                == self.resources[id.0.0 as int].states);
                        }
                    }
                }
                lemma_among_all::<Event>(
                    self.events,
                    Map::empty(),
                    states,
                    self.resource_ids(),
                    self.state_ids(),
                );
                lemma_among_all::<Skill>(
                    self.skills,
                    Map::empty(),
                    states,
                    self.resource_ids(),
                    self.state_ids(),
                );
                lemma_skills_among_apart(
                    self.skills,
                    w.skills,
                    Map::empty(),
                    Map::empty(),
                    states,
                    self.type_ids(),
                    self.resource_ids(),
                    self.state_ids(),
                );
                assert forall|a: int| 0 <= a < w.resources.len() implies (
                #[trigger] w.resources[a]).valid() by {
                    assert(outcomes[a] == Ok::<ResourceView, RlErrorView>(w.resources[a]));
                    self.resources[a].lemma_resolve_state_valid();
                }
            }
            if self.wf() {
                assert forall|i: int| 0 <= i < w.events.len() implies (#[trigger] w.events[i]).id
                    == EventId(i as usize) by {
                    assert(self.events[i].id == EventId(i as usize));
                }
                assert forall|i: int| 0 <= i < w.resources.len() implies (
                #[trigger] w.resources[i]).id == ResourceId(i as usize)
                    && w.resources[i].wf() by {
                    assert(self.resources[i].id == ResourceId(i as usize));
                }
                assert forall|i: int| 0 <= i < w.skills.len() implies (#[trigger] w.skills[i]).id
                    == SkillId(i as usize) && w.skills[i].wf() by {
                    assert(self.skills[i].id == SkillId(i as usize));
                }
            }
        }
    }

    /// What the three passes achieve. When they succeed, every reference in
    /// the skillset is resolved, and nothing else has changed: the skillset
    /// declares what it declared, and is well formed if it was. And
    /// resolving is idempotent: a skillset in which every reference is
    /// resolved passes unchanged.
    pub proof fn lemma_resolve(self)
        ensures
            self.resolve() matches Ok(w) ==> w.resolved() && self.declares_like(w) && (self.wf()
                ==> w.wf()) && (self.wf() && self.valid() ==> w.valid()) && self.kept(
                w,
                Namespaces::all(self.type_map(), self.resource_map(), self.state_map()),
            ),
            self.resolved() ==> self.resolve() == Ok::<SkillsetView, RlErrorView>(self),
    {
        self.lemma_resolve_type();
        let all = Namespaces::all(self.type_map(), self.resource_map(), self.state_map());
        if self.resolve_type() is Ok {
            let typed = self.resolve_type()->Ok_0;
            typed.lemma_resolve_resource();
            if typed.resolve_resource() is Ok {
                let resourced = typed.resolve_resource()->Ok_0;
                resourced.lemma_resolve_state();
                if resourced.resolve_state() is Ok {
                    let w = resourced.resolve_state()->Ok_0;
                    self.lemma_kept(typed, w, Namespaces::only_types(self.type_map()), all);
                    typed.lemma_kept(
                        resourced,
                        w,
                        Namespaces::only_resources(self.resource_map()),
                        all,
                    );
                    resourced.lemma_kept(w, w, Namespaces::only_states(self.state_map()), all);
                    typed.lemma_kept(resourced, w, all, all);
                    self.lemma_kept(typed, w, all, all);
                }
            }
        }
    }

    /// When the type pass succeeds: exactly when every name of a type that
    /// is used is the name of a declared type; else it fails with the error
    /// of a name that is used and not declared. It leaves the names of
    /// resources and of states in use.
    pub proof fn lemma_type_uses(self)
        ensures
            decided(self.resolve_type(), self.type_uses(), self.type_map(), type_info()),
            self.resolve_type() matches Ok(w) ==> w.resource_uses() == self.resource_uses()
                && w.state_uses() == self.state_uses(),
    {
        let types = self.type_map();
        lemma_type_uses_all::<Data>(self.data, types);
        lemma_type_uses_all::<Skill>(self.skills, types);
        if type_pass_all::<Data>(self.data, types) is Err {
            lemma_unknown_among(
                all_type_uses::<Data>(self.data),
                self.type_uses(),
                types,
                type_info(),
                type_pass_all::<Data>(self.data, types)->Err_0,
            );
        } else if type_pass_all::<Skill>(self.skills, types) is Err {
            lemma_unknown_among(
                all_type_uses::<Skill>(self.skills),
                self.type_uses(),
                types,
                type_info(),
                type_pass_all::<Skill>(self.skills, types)->Err_0,
            );
        } else {
            let w = self.resolve_type()->Ok_0;
            lemma_sequence_pointwise(
                self.skills.map_values(|v: SkillView| Skill::type_pass(v, types)),
            );
            assert forall|k: int| 0 <= k < self.skills.len() implies Skill::resource_uses(
                #[trigger] self.skills[k],
            ) == Skill::resource_uses(w.skills[k]) && Skill::state_uses(self.skills[k])
                == Skill::state_uses(w.skills[k]) by {
                self.skills[k].lemma_passes_apart(types, Map::empty(), Map::empty());
            }
            lemma_same_resource_uses::<Skill>(self.skills, w.skills);
            lemma_same_state_uses::<Skill>(self.skills, w.skills);
        }
    }

    /// When the resource pass succeeds: exactly when every name of a
    /// resource that is used is the name of a declared resource; else it
    /// fails with the error of a name that is used and not declared. It
    /// leaves the names of states in use.
    pub proof fn lemma_resource_uses(self)
        ensures
            decided(
                self.resolve_resource(),
                self.resource_uses(),
                self.resource_map(),
                resource_info(),
            ),
            self.resolve_resource() matches Ok(w) ==> w.state_uses() == self.state_uses(),
    {
        let resources = self.resource_map();
        lemma_uses_all::<Event>(self.events, resources, Map::empty());
        lemma_uses_all::<Skill>(self.skills, resources, Map::empty());
        if resource_pass_all::<Event>(self.events, resources) is Err {
            lemma_unknown_among(
                all_resource_uses::<Event>(self.events),
                self.resource_uses(),
                resources,
                resource_info(),
                resource_pass_all::<Event>(self.events, resources)->Err_0,
            );
        } else if resource_pass_all::<Skill>(self.skills, resources) is Err {
            lemma_unknown_among(
                all_resource_uses::<Skill>(self.skills),
                self.resource_uses(),
                resources,
                resource_info(),
                resource_pass_all::<Skill>(self.skills, resources)->Err_0,
            );
        }
    }

    /// When the state pass succeeds: exactly when every name of a state
    /// that a resource itself uses is the name of one of its own states, and
    /// every name of a state that an event or a skill uses is the name of a
    /// state of some resource. Where the resources resolve their own, a
    /// failure is the error of a name that an event or a skill uses and that
    /// no resource declares.
    pub proof fn lemma_state_uses(self)
        ensures
            self.resolve_own_states() is Ok <==> self.own_states_known(),
            self.own_states_known() ==> decided(
                self.resolve_state(),
                self.state_uses(),
                self.state_map(),
                state_info(),
            ),
            !self.own_states_known() ==> self.resolve_state() is Err,
    {
        let outcomes = self.resources.map_values(|x: ResourceView| x.resolve_state());
        assert forall|a: int| 0 <= a < self.resources.len() implies ((
        #[trigger] outcomes[a]) is Ok <==> known(
            self.resources[a].own_uses(),
            self.resources[a].state_map(),
        )) by {
            self.resources[a].lemma_own_uses();
            if outcomes[a] is Err {
                let e = outcomes[a]->Err_0;
                let u = choose|u: NamingView|
                    #[trigger] self.resources[a].own_uses().contains(u)
                        && !self.resources[a].state_map().contains_key(u.0) && e == (
                    RlErrorView::Resolve { element: quoted(state_info(), u.0), position: u.1 });
            }
        }
        if self.own_states_known() {
            assert(all_ok(outcomes));
            self.lemma_own_states_keep_namespace();
            let states = self.state_map();
            lemma_uses_all::<Event>(self.events, Map::empty(), states);
            lemma_uses_all::<Skill>(self.skills, Map::empty(), states);
            if state_pass_all::<Event>(self.events, states) is Err {
                lemma_unknown_among(
                    all_state_uses::<Event>(self.events),
                    self.state_uses(),
                    states,
                    state_info(),
                    state_pass_all::<Event>(self.events, states)->Err_0,
                );
            } else if state_pass_all::<Skill>(self.skills, states) is Err {
                lemma_unknown_among(
                    all_state_uses::<Skill>(self.skills),
                    self.state_uses(),
                    states,
                    state_info(),
                    state_pass_all::<Skill>(self.skills, states)->Err_0,
                );
            }
        } else {
            let a = choose|a: int|
                0 <= a < self.resources.len() && !known(
                    (#[trigger] self.resources[a]).own_uses(),
                    self.resources[a].state_map(),
                );
            assert(!(outcomes[a] is Ok));
        }
    }

    /// When resolution succeeds. It succeeds exactly when every name that is
    /// used is declared: every type by a type, every resource by a resource,
    /// every state that a resource itself uses by that resource, and every
    /// state that an event or a skill uses by some resource. Where in the
    /// skillset a name is declared does not matter, so a name may be used
    /// before the entity that carries it is declared. Where only names of
    /// states that events and skills use are left unknown, resolution fails
    /// with the error of such a name: it names the state and the place where
    /// the name was used.
    pub proof fn lemma_resolve_decided(self)
        ensures
            self.resolve() is Ok <==> known(self.type_uses(), self.type_map()) && known(
                self.resource_uses(),
                self.resource_map(),
            ) && self.own_states_known() && known(self.state_uses(), self.state_map()),
            known(self.type_uses(), self.type_map()) && known(
                self.resource_uses(),
                self.resource_map(),
            ) && self.own_states_known() ==> decided(
                self.resolve(),
                self.state_uses(),
                self.state_map(),
                state_info(),
            ),
    {
        self.lemma_type_uses();
        self.lemma_resolve_type();
        if self.resolve_type() is Ok {
            let typed = self.resolve_type()->Ok_0;
            assert(typed.resources == self.resources);
            typed.lemma_resource_uses();
            typed.lemma_resolve_resource();
            if typed.resolve_resource() is Ok {
                let resourced = typed.resolve_resource()->Ok_0;
                assert(resourced.resources == self.resources);
                resourced.lemma_state_uses();
            }
        }
    }

    /// A name of a state that an event or a skill uses and that no resource
    /// declares makes resolution fail, where every other name that is used is
    /// declared: the error names a state that no resource declares, and the
    /// place where that name was used.
    pub proof fn lemma_undeclared_state_fails(self, name: Seq<char>, position: Option<PositionView>)
        requires
            known(self.type_uses(), self.type_map()),
            known(self.resource_uses(), self.resource_map()),
            self.own_states_known(),
            self.state_uses().contains((name, position)),
            forall|a: int, i: int| !self.declares_state(a, i, name),
        ensures
            self.resolve() matches Err(e) && exists|u: NamingView|
                #[trigger] self.state_uses().contains(u) && (forall|a: int, i: int|
                    !self.declares_state(a, i, u.0)) && e == (RlErrorView::Resolve {
                    element: quoted(state_info(), u.0),
                    position: u.1,
                }),
    {
        self.lemma_resolve_decided();
        self.lemma_state_map_knows(name);
        assert(!known(self.state_uses(), self.state_map()));
        let e = self.resolve()->Err_0;
        let u = choose|u: NamingView|
            #[trigger] self.state_uses().contains(u) && !self.state_map().contains_key(u.0) && e
                == (RlErrorView::Resolve { element: quoted(state_info(), u.0), position: u.1 });
        self.lemma_state_map_knows(u.0);
    }

    /// A name may be used before it is declared: where every name that is
    /// used is declared somewhere in the skillset, resolution succeeds. Every
    /// reference is then resolved, each name to the identifier that its
    /// namespace gives it, which is that of the entity that carries the name.
    pub proof fn lemma_declared_names_resolve(self)
        requires
            known(self.type_uses(), self.type_map()),
            known(self.resource_uses(), self.resource_map()),
            self.own_states_known(),
            forall|u: NamingView| #[trigger]
                self.state_uses().contains(u) ==> exists|a: int, i: int|
                    self.declares_state(a, i, u.0),
        ensures
            self.resolve() is Ok,
            self.resolve()->Ok_0.resolved(),
            self.kept(
                self.resolve()->Ok_0,
                Namespaces::all(self.type_map(), self.resource_map(), self.state_map()),
            ),
    {
        assert forall|u: NamingView| #[trigger]
            self.state_uses().contains(u) implies self.state_map().contains_key(u.0) by {
            self.lemma_state_map_knows(u.0);
        }
        self.lemma_resolve_decided();
        self.lemma_resolve();
    }

    /// The guard of an invariant may name a state of a resource that is
    /// declared behind the skill. Where the guard compares a resource with a
    /// state that it names, and resolution succeeds, the guard holds the
    /// identifier of a state that carries that name: the skillset finds the
    /// state under it, and its owner is the resource that declares the state.
    pub proof fn lemma_invariant_names_state(
        self,
        k: int,
        j: int,
        resource: ReferenceView<ResourceId>,
        name: Seq<char>,
        position: Option<PositionView>,
    )
        requires
            self.wf(),
            self.resolve() is Ok,
            0 <= k < self.skills.len(),
            0 <= j < self.skills[k].invariants.len(),
            self.skills[k].invariants[j].guard == ExprView::ResourceEq(
                resource,
                ReferenceView::Unresolved(name, position),
            ),
        ensures
            self.state_map().contains_key(name),
            exists|a: int, i: int|
                self.declares_state(a, i, name) && self.state_map()[name] == StateId(
                    ResourceId(a as usize),
                    i as usize,
                ),
            self.resolve()->Ok_0.skills[k].invariants[j].guard matches ExprView::ResourceEq(
                _,
                state,
            ) && state == ReferenceView::<StateId>::Resolved(self.state_map()[name]),
            self.resolve()->Ok_0.get_state(self.state_map()[name]) matches Some(state)
                && state.name == name,
    {
        let w = self.resolve()->Ok_0;
        self.lemma_resolve();
        let before = self.skills[k].invariants[j];
        let after = w.skills[k].invariants[j];
        assert(Skill::kept(
            self.skills[k],
            w.skills[k],
            Namespaces::all(self.type_map(), self.resource_map(), self.state_map()),
        ));
        assert(Invariant::kept(
            before,
            after,
            Namespaces::all(self.type_map(), self.resource_map(), self.state_map()),
        ));
        assert(Skill::states_resolved(w.skills[k]));
        assert(Invariant::states_resolved(after));
        lemma_kept_resolved(
            ReferenceView::<StateId>::Unresolved(name, position),
            after.guard->ResourceEq_1,
            self.state_map(),
        );
        self.lemma_state_map_value(name);
        let (a, i) = choose|a: int, i: int|
            self.declares_state(a, i, name) && self.resources[a].states[i].id
                == self.state_map()[name];
        assert(self.resources[a].id == ResourceId(a as usize));
        assert(self.resources[a].states[i].id == StateId(self.resources[a].id, i as usize));
        assert(self.declares_state(a, i, name) && self.state_map()[name] == StateId(
            ResourceId(a as usize),
            i as usize,
        ));
        w.lemma_state_map_names(name);
    }

    /// Two states of one name make the check fail, also when they belong
    /// to different resources.
    pub proof fn lemma_shared_state_name_fails(
        self,
        name: Seq<char>,
        a: int,
        i: int,
        b: int,
        j: int,
    )
        requires
            self.declares_state(a, i, name),
            self.declares_state(b, j, name),
            a != b || i != j,
        ensures
            self.duplicate_error() is Some,
    {
        let blocks = naming_blocks(self.resources);
        let names = resource_namings(self.resources);
        lemma_concat_slot(blocks, a, i + 1);
        lemma_concat_slot(blocks, b, j + 1);
        let first = slot(blocks, a, i + 1);
        let second = slot(blocks, b, j + 1);
        assert(names[first].0 == self.resources[a].states[i].name);
        assert(names[second].0 == self.resources[b].states[j].name);
        if a < b {
            lemma_concat_slots_ordered(blocks, a, i + 1, b, j + 1);
        }
        if b < a {
            lemma_concat_slots_ordered(blocks, b, j + 1, a, i + 1);
        }
        if first < second {
            lemma_local_clash_fails(self.type_naming(), names, first, second);
        } else {
            lemma_local_clash_fails(self.type_naming(), names, second, first);
        }
        let checks = self.duplicate_checks();
        assert(checks[1] is Some);
        let k = lemma_first_report_exists(checks, 1);
    }

    /// An input of a skill that is named like a type makes the check fail.
    pub proof fn lemma_input_named_like_type_fails(self, k: int, i: int, t: int)
        requires
            0 <= k < self.skills.len(),
            0 <= i < self.skills[k].inputs.len(),
            0 <= t < self.types.len(),
            self.types[t].name == self.skills[k].inputs[i].name,
        ensures
            self.duplicate_error() is Some,
    {
        self.skills[k].lemma_input_named_like_type_fails(self.type_naming(), t, i);
        let checks = self.duplicate_checks();
        assert(checks[4 + k] == self.skills[k].duplicate_error(self.type_naming()));
        let first = lemma_first_report_exists(checks, 4 + k);
    }
}

} // verus!
