//! The skillset: the top of the model. It owns every type, data item,
//! resource, event and skill, checks their names and resolves their
//! references.

use crate::model::data::{Data, DataId, DataView};
use crate::model::deep::{
    concat, first_error, lemma_concat_take, lemma_deep_append, lemma_deep_empty, lemma_deep_index,
    lemma_deep_push, lemma_first_error, lemma_sequence_fails, lemma_sequence_succeeds, sequence,
};
use crate::model::event::{Event, EventId, EventView};
use crate::model::identity::{GetFromId, Id, Named, Naming, NamingView};
use crate::model::invariants::{Invariant, InvariantId, InvariantView};
use crate::model::naming::{
    check_duplicate, duplicate_error, entries_of, lemma_name_map_push, merge_naming, name_map,
    name_map_all, naming_all, namings,
};
use crate::model::precondition::{Precondition, PreconditionId, PreconditionView};
use crate::model::reference::known;
use crate::model::resolve::{
    all_kept, all_resource_uses, all_resources_among, all_resources_resolved, all_state_uses,
    all_states_among, all_states_resolved, all_type_uses, all_types_among, all_types_resolved,
    resolve_resource_all, resolve_state_all, resolve_type_all, resource_pass_all, state_pass_all,
    type_pass_all, Kept, Namespaces, Resolvable, Typed,
};
use crate::model::resource::{Resource, ResourceId, ResourceView};
use crate::model::rl_type::{RlType, RlTypeView, TypeId};
use crate::model::skill::{Skill, SkillId, SkillView};
use crate::model::state::{State, StateId, StateView};
use crate::model::terminate::{Failure, FailureId, Success, SuccessId, TerminateView};
use crate::parser::error::{checked, in_place, RlError, RlErrorView};
use crate::parser::position::{Position, PositionView};
use vstd::hash_map::StringHashMap;
use vstd::prelude::*;
use vstd::string::StringExecFns;

verus! {

/// Mathematical model of a [`Skillset`].
pub struct SkillsetView {
    pub name: Seq<char>,
    pub types: Seq<RlTypeView>,
    pub data: Seq<DataView>,
    pub resources: Seq<ResourceView>,
    pub events: Seq<EventView>,
    pub skills: Seq<SkillView>,
    pub position: Option<PositionView>,
}

/// A skillset. It owns its types, data, resources, events and skills, and
/// gives each its identifier when it is inserted.
#[derive(Debug)]
pub struct Skillset {
    name: String,
    types: Vec<RlType>,
    data: Vec<Data>,
    resources: Vec<Resource>,
    events: Vec<Event>,
    skills: Vec<Skill>,
    position: Option<Position>,
}

impl Clone for Skillset {
    fn clone(&self) -> (r: Self)
        ensures
            r@ == self@,
    {
        let types = self.types.clone();
        proof {
            assert(types.deep_view() =~= self.types.deep_view());
        }
        let data = self.data.clone();
        proof {
            assert(data.deep_view() =~= self.data.deep_view());
        }
        let resources = self.resources.clone();
        proof {
            assert(resources.deep_view() =~= self.resources.deep_view());
        }
        let events = self.events.clone();
        proof {
            assert(events.deep_view() =~= self.events.deep_view());
        }
        let skills = self.skills.clone();
        proof {
            assert(skills.deep_view() =~= self.skills.deep_view());
        }
        Skillset {
            name: self.name.clone(),
            types,
            data,
            resources,
            events,
            skills,
            position: self.position.clone(),
        }
    }
}

impl Default for Skillset {
    fn default() -> (r: Self)
        ensures
            r@ == SkillsetView::empty(),
            r@.wf(),
    {
        let types: Vec<RlType> = Vec::new();
        let data: Vec<Data> = Vec::new();
        let resources: Vec<Resource> = Vec::new();
        let events: Vec<Event> = Vec::new();
        let skills: Vec<Skill> = Vec::new();
        proof {
            lemma_deep_empty(types);
            lemma_deep_empty(data);
            lemma_deep_empty(resources);
            lemma_deep_empty(events);
            lemma_deep_empty(skills);
        }
        Skillset { name: String::new(), types, data, resources, events, skills, position: None }
    }
}

impl View for Skillset {
    type V = SkillsetView;

    closed spec fn view(&self) -> SkillsetView {
        SkillsetView {
            name: self.name@,
            types: self.types.deep_view(),
            data: self.data.deep_view(),
            resources: self.resources.deep_view(),
            events: self.events.deep_view(),
            skills: self.skills.deep_view(),
            position: self.position.deep_view(),
        }
    }
}

impl DeepView for Skillset {
    type V = SkillsetView;

    open spec fn deep_view(&self) -> SkillsetView {
        self@
    }
}

/// The states of each resource by name and identifier, resource by
/// resource.
pub open spec fn state_blocks(resources: Seq<ResourceView>) -> Seq<Seq<(Seq<char>, StateId)>> {
    resources.map_values(|x: ResourceView| x.entries())
}

/// The states of `resources` by name and identifier: resource by resource,
/// and within a resource in the order of its states.
pub open spec fn state_entries(resources: Seq<ResourceView>) -> Seq<(Seq<char>, StateId)> {
    concat(state_blocks(resources))
}

/// The names that a resource brings into the namespace of the resources:
/// its own, directly followed by those of its states.
pub open spec fn resource_block(resource: ResourceView) -> Seq<NamingView> {
    seq![(resource.name, resource.position)] + resource.names()
}

/// The names of each resource and its states, resource by resource.
pub open spec fn naming_blocks(resources: Seq<ResourceView>) -> Seq<Seq<NamingView>> {
    resources.map_values(|x: ResourceView| resource_block(x))
}

/// The namespace of `resources`: each resource by name and position,
/// directly followed by its states.
pub open spec fn resource_namings(resources: Seq<ResourceView>) -> Seq<NamingView> {
    concat(naming_blocks(resources))
}

impl SkillsetView {
    /// The skillset without a name and with nothing in it.
    pub open spec fn empty() -> SkillsetView {
        SkillsetView {
            name: Seq::empty(),
            types: Seq::empty(),
            data: Seq::empty(),
            resources: Seq::empty(),
            events: Seq::empty(),
            skills: Seq::empty(),
            position: None,
        }
    }

    /// Every entity carries the identifier that its place gives it: its
    /// index, which fits the machine's word. The resources and the skills
    /// are well formed themselves.
    pub open spec fn wf(self) -> bool {
        &&& self.types.len() <= usize::MAX
        &&& forall|i: int|
            0 <= i < self.types.len() ==> (#[trigger] self.types[i]).id == TypeId(i as usize)
        &&& self.data.len() <= usize::MAX
        &&& forall|i: int|
            0 <= i < self.data.len() ==> (#[trigger] self.data[i]).id == DataId(i as usize)
        &&& self.resources.len() <= usize::MAX
        &&& forall|i: int|
            0 <= i < self.resources.len()
                ==> (#[trigger] self.resources[i]).id == ResourceId(i as usize)
                    && self.resources[i].wf()
        &&& self.events.len() <= usize::MAX
        &&& forall|i: int|
            0 <= i < self.events.len() ==> (#[trigger] self.events[i]).id == EventId(i as usize)
        &&& self.skills.len() <= usize::MAX
        &&& forall|i: int|
            0 <= i < self.skills.len()
                ==> (#[trigger] self.skills[i]).id == SkillId(i as usize) && self.skills[i].wf()
    }

    /// The type that `id` stands for, if there is one at its index.
    pub open spec fn get_type(self, id: TypeId) -> Option<RlTypeView> {
        if id.0 < self.types.len() {
            Some(self.types[id.0 as int])
        } else {
            None
        }
    }

    /// The data item that `id` stands for, if there is one at its index.
    pub open spec fn get_data(self, id: DataId) -> Option<DataView> {
        if id.0 < self.data.len() {
            Some(self.data[id.0 as int])
        } else {
            None
        }
    }

    /// The resource that `id` stands for, if there is one at its index.
    pub open spec fn get_resource(self, id: ResourceId) -> Option<ResourceView> {
        if id.0 < self.resources.len() {
            Some(self.resources[id.0 as int])
        } else {
            None
        }
    }

    /// The event that `id` stands for, if there is one at its index.
    pub open spec fn get_event(self, id: EventId) -> Option<EventView> {
        if id.0 < self.events.len() {
            Some(self.events[id.0 as int])
        } else {
            None
        }
    }

    /// The skill that `id` stands for, if there is one at its index.
    pub open spec fn get_skill(self, id: SkillId) -> Option<SkillView> {
        if id.0 < self.skills.len() {
            Some(self.skills[id.0 as int])
        } else {
            None
        }
    }

    /// The state that `id` stands for: the one that the resource which `id`
    /// names as the owner finds for it.
    pub open spec fn get_state(self, id: StateId) -> Option<StateView> {
        match self.get_resource(id.0) {
            Some(resource) => resource.get_state(id),
            None => None,
        }
    }

    /// The namespace of the types.
    pub open spec fn type_map(self) -> Map<Seq<char>, TypeId> {
        name_map(self.types.map_values(|x: RlTypeView| (x.name, x.id)))
    }

    /// The namespace of the resources.
    pub open spec fn resource_map(self) -> Map<Seq<char>, ResourceId> {
        name_map(self.resources.map_values(|x: ResourceView| (x.name, x.id)))
    }

    /// The namespace of the states of all resources together.
    pub open spec fn state_map(self) -> Map<Seq<char>, StateId> {
        name_map(state_entries(self.resources))
    }

    /// The types by name and position, in order.
    pub open spec fn type_naming(self) -> Seq<NamingView> {
        self.types.map_values(|x: RlTypeView| (x.name, x.position))
    }

    /// The data by name and position, in order.
    pub open spec fn data_naming(self) -> Seq<NamingView> {
        self.data.map_values(|x: DataView| (x.name, x.position))
    }

    /// The events by name and position, in order.
    pub open spec fn event_naming(self) -> Seq<NamingView> {
        self.events.map_values(|x: EventView| (x.name, x.position))
    }

    /// The skills by name and position, in order.
    pub open spec fn skill_naming(self) -> Seq<NamingView> {
        self.skills.map_values(|x: SkillView| (x.name, x.position))
    }

    /// The resources by name and position, each directly followed by its
    /// states.
    pub open spec fn resource_naming(self) -> Seq<NamingView> {
        resource_namings(self.resources)
    }

    /// The checks of the skillset, in order: the data, the resources with
    /// their states, the events and the skills, each behind the declared
    /// types; then the checks of each skill.
    pub open spec fn duplicate_checks(self) -> Seq<Option<RlErrorView>> {
        seq![
            duplicate_error(self.type_naming() + self.data_naming()),
            duplicate_error(self.type_naming() + self.resource_naming()),
            duplicate_error(self.type_naming() + self.event_naming()),
            duplicate_error(self.type_naming() + self.skill_naming()),
        ] + self.skills.map_values(|x: SkillView| x.duplicate_error(self.type_naming()))
    }

    /// The error of the first check that fails, if any does.
    pub open spec fn duplicate_error(self) -> Option<RlErrorView> {
        first_error(self.duplicate_checks())
    }

    /// The skillset after the type pass: the data, then the skills, against
    /// the namespace of the types.
    pub open spec fn resolve_type(self) -> Result<SkillsetView, RlErrorView> {
        match type_pass_all::<Data>(self.data, self.type_map()) {
            Err(e) => Err(e),
            Ok(data) => match type_pass_all::<Skill>(self.skills, self.type_map()) {
                Err(e) => Err(e),
                Ok(skills) => Ok(SkillsetView { data, skills, ..self }),
            },
        }
    }

    /// The skillset after the resource pass: the events, then the skills,
    /// against the namespace of the resources.
    pub open spec fn resolve_resource(self) -> Result<SkillsetView, RlErrorView> {
        match resource_pass_all::<Event>(self.events, self.resource_map()) {
            Err(e) => Err(e),
            Ok(events) => match resource_pass_all::<Skill>(self.skills, self.resource_map()) {
                Err(e) => Err(e),
                Ok(skills) => Ok(SkillsetView { events, skills, ..self }),
            },
        }
    }

    /// The resources after each resolved its own references, in order.
    pub open spec fn resolve_own_states(self) -> Result<Seq<ResourceView>, RlErrorView> {
        sequence(self.resources.map_values(|x: ResourceView| x.resolve_state()))
    }

    /// The skillset after the state pass: first each resource resolves its
    /// own references against its own states; then the events and the skills
    /// are resolved against the namespace of the states of all resources.
    pub open spec fn resolve_state(self) -> Result<SkillsetView, RlErrorView> {
        match self.resolve_own_states() {
            Err(e) => Err(e),
            Ok(resources) => {
                let map = name_map(state_entries(resources));
                match state_pass_all::<Event>(self.events, map) {
                    Err(e) => Err(e),
                    Ok(events) => match state_pass_all::<Skill>(self.skills, map) {
                        Err(e) => Err(e),
                        Ok(skills) => Ok(SkillsetView { resources, events, skills, ..self }),
                    },
                }
            },
        }
    }

    /// The skillset after the three passes: types, resources, states.
    pub open spec fn resolve(self) -> Result<SkillsetView, RlErrorView> {
        match self.resolve_type() {
            Err(e) => Err(e),
            Ok(typed) => match typed.resolve_resource() {
                Err(e) => Err(e),
                Ok(resourced) => resourced.resolve_state(),
            },
        }
    }
}

impl SkillsetView {
    /// Every reference to a type in the skillset is resolved.
    pub open spec fn types_resolved(self) -> bool {
        &&& all_types_resolved::<Data>(self.data)
        &&& all_types_resolved::<Skill>(self.skills)
    }

    /// Every reference to a resource in the skillset is resolved.
    pub open spec fn resources_resolved(self) -> bool {
        &&& all_resources_resolved::<Event>(self.events)
        &&& all_resources_resolved::<Skill>(self.skills)
    }

    /// Every reference to a state in the skillset is resolved: those of the
    /// resources themselves, and those of the events and the skills.
    pub open spec fn states_resolved(self) -> bool {
        &&& forall|a: int| 0 <= a < self.resources.len()
            ==> (#[trigger] self.resources[a]).resolved()
        &&& all_states_resolved::<Event>(self.events)
        &&& all_states_resolved::<Skill>(self.skills)
    }

    /// Every reference in the skillset is resolved.
    pub open spec fn resolved(self) -> bool {
        &&& self.types_resolved()
        &&& self.resources_resolved()
        &&& self.states_resolved()
    }

    /// The skillset `after` is this one, but that names may have been
    /// resolved, each to the identifier that its namespace among `spaces`
    /// gives it. No entity was added, removed or moved, each
    /// has the identifier, the name and the position it had, and no
    /// reference that was resolved has been rewritten.
    pub open spec fn kept(self, after: SkillsetView, spaces: Namespaces) -> bool {
        &&& after.name == self.name
        &&& after.position == self.position
        &&& after.types == self.types
        &&& all_kept::<Data>(self.data, after.data, spaces)
        &&& all_kept::<Resource>(self.resources, after.resources, spaces)
        &&& all_kept::<Event>(self.events, after.events, spaces)
        &&& all_kept::<Skill>(self.skills, after.skills, spaces)
    }

    /// The names of types that the data and the skills use and have not
    /// resolved, each with the place of its use.
    pub open spec fn type_uses(self) -> Set<NamingView> {
        all_type_uses::<Data>(self.data) + all_type_uses::<Skill>(self.skills)
    }

    /// The names of resources that the events and the skills use and have
    /// not resolved, each with the place of its use.
    pub open spec fn resource_uses(self) -> Set<NamingView> {
        all_resource_uses::<Event>(self.events) + all_resource_uses::<Skill>(self.skills)
    }

    /// The names of states that the events and the skills use and have not
    /// resolved, each with the place of its use.
    pub open spec fn state_uses(self) -> Set<NamingView> {
        all_state_uses::<Event>(self.events) + all_state_uses::<Skill>(self.skills)
    }

    /// Every name of a state that a resource itself uses is the name of one
    /// of its own states.
    pub open spec fn own_states_known(self) -> bool {
        forall|a: int|
            0 <= a < self.resources.len() ==> known(
                (#[trigger] self.resources[a]).own_uses(),
                self.resources[a].state_map(),
            )
    }

    /// The identifiers of the types.
    pub open spec fn type_ids(self) -> Set<TypeId> {
        Set::new(|id: TypeId| self.get_type(id) is Some)
    }

    /// The identifiers of the resources.
    pub open spec fn resource_ids(self) -> Set<ResourceId> {
        Set::new(|id: ResourceId| self.get_resource(id) is Some)
    }

    /// The identifiers of the states of all resources.
    pub open spec fn state_ids(self) -> Set<StateId> {
        Set::new(|id: StateId| self.get_state(id) is Some)
    }

    /// Every reference in the skillset, where it is resolved, stands for an
    /// entity of the skillset: a type, a resource or a state that the
    /// skillset finds under the identifier. The references of a resource to
    /// its own states stand for states of that resource.
    pub open spec fn valid(self) -> bool {
        &&& all_types_among::<Data>(self.data, self.type_ids())
        &&& all_types_among::<Skill>(self.skills, self.type_ids())
        &&& all_resources_among::<Event>(self.events, self.resource_ids())
        &&& all_resources_among::<Skill>(self.skills, self.resource_ids())
        &&& all_states_among::<Event>(self.events, self.state_ids())
        &&& all_states_among::<Skill>(self.skills, self.state_ids())
        &&& forall|a: int| 0 <= a < self.resources.len() ==> (#[trigger] self.resources[a]).valid()
    }

    /// The skillset `other` declares what this one declares: it has the
    /// same name and types, as many data, resources, events and skills, each
    /// under the name and at the position of its counterpart, and so the
    /// same namespaces.
    pub open spec fn declares_like(self, other: SkillsetView) -> bool {
        &&& other.name == self.name
        &&& other.position == self.position
        &&& other.types == self.types
        &&& other.data.len() == self.data.len()
        &&& other.resources.len() == self.resources.len()
        &&& other.events.len() == self.events.len()
        &&& other.skills.len() == self.skills.len()
        &&& other.data_naming() == self.data_naming()
        &&& other.resource_naming() == self.resource_naming()
        &&& other.event_naming() == self.event_naming()
        &&& other.skill_naming() == self.skill_naming()
        &&& other.resource_map() == self.resource_map()
        &&& other.state_map() == self.state_map()
    }
}

impl Skillset {
    /// A skillset named `name`, declared at `position`, with nothing in it.
    pub fn new(name: &str, position: Option<Position>) -> (r: Self)
        ensures
            r@ == (SkillsetView {
                name: name@,
                types: Seq::empty(),
                data: Seq::empty(),
                resources: Seq::empty(),
                events: Seq::empty(),
                skills: Seq::empty(),
                position: position.deep_view(),
            }),
            r@.wf(),
    {
        let types: Vec<RlType> = Vec::new();
        let data: Vec<Data> = Vec::new();
        let resources: Vec<Resource> = Vec::new();
        let events: Vec<Event> = Vec::new();
        let skills: Vec<Skill> = Vec::new();
        proof {
            lemma_deep_empty(types);
            lemma_deep_empty(data);
            lemma_deep_empty(resources);
            lemma_deep_empty(events);
            lemma_deep_empty(skills);
        }
        Skillset { name: String::from_str(name), types, data, resources, events, skills, position }
    }

    pub fn name(&self) -> (r: &str)
        ensures
            r@ == self@.name,
    {
        self.name.as_str()
    }

    pub fn position(&self) -> (r: Option<Position>)
        ensures
            r.deep_view() == self@.position,
    {
        self.position.clone()
    }

    pub fn types(&self) -> (r: &Vec<RlType>)
        ensures
            r.deep_view() == self@.types,
    {
        &self.types
    }

    /// Inserts `rl_type` behind the types that are there, and gives it its
    /// identifier: its index.
    pub fn add_type(&mut self, rl_type: RlType) -> (id: TypeId)
        ensures
            id == TypeId(old(self)@.types.len() as usize),
            final(self)@ == (SkillsetView {
                types: old(self)@.types.push(RlTypeView { id, ..rl_type@ }),
                ..old(self)@
            }),
            old(self)@.wf() ==> final(self)@.wf(),
    {
        let id = TypeId(self.types.len());
        let mut rl_type = rl_type;
        rl_type.set_id(id);
        let ghost before = self.types;
        self.types.push(rl_type);
        proof {
            lemma_deep_push(before, self.types, rl_type);
            assert(self.types.deep_view().len() == self.types.len());
        }
        id
    }

    /// The type that `id` stands for, if there is one at its index.
    pub fn get_type(&self, id: TypeId) -> (r: Option<&RlType>)
        ensures
            r.deep_view() == self@.get_type(id),
    {
        let index = id.index();
        if index < self.types.len() {
            proof {
                lemma_deep_index(self.types, index as int);
            }
            Some(&self.types[index])
        } else {
            None
        }
    }

    /// The namespace of the types: each name with the identifier of the last
    /// type that carries it.
    pub fn type_map(&self) -> (r: StringHashMap<TypeId>)
        ensures
            r@ == self@.type_map(),
    {
        let map = name_map_all(&self.types);
        proof {
            assert(entries_of::<TypeId, RlType>(self.types@) =~= self@.types.map_values(
                |x: RlTypeView| (x.name, x.id),
            ));
        }
        map
    }

    pub fn data(&self) -> (r: &Vec<Data>)
        ensures
            r.deep_view() == self@.data,
    {
        &self.data
    }

    /// Inserts `data` behind the data that are there, and gives it its
    /// identifier: its index.
    pub fn add_data(&mut self, data: Data) -> (id: DataId)
        ensures
            id == DataId(old(self)@.data.len() as usize),
            final(self)@ == (SkillsetView {
                data: old(self)@.data.push(DataView { id, ..data@ }),
                ..old(self)@
            }),
            old(self)@.wf() ==> final(self)@.wf(),
    {
        let id = DataId(self.data.len());
        let mut data = data;
        data.set_id(id);
        let ghost before = self.data;
        self.data.push(data);
        proof {
            lemma_deep_push(before, self.data, data);
            assert(self.data.deep_view().len() == self.data.len());
        }
        id
    }

    /// The data item that `id` stands for, if there is one at its index.
    pub fn get_data(&self, id: DataId) -> (r: Option<&Data>)
        ensures
            r.deep_view() == self@.get_data(id),
    {
        let index = id.index();
        if index < self.data.len() {
            proof {
                lemma_deep_index(self.data, index as int);
            }
            Some(&self.data[index])
        } else {
            None
        }
    }

    pub fn resources(&self) -> (r: &Vec<Resource>)
        ensures
            r.deep_view() == self@.resources,
    {
        &self.resources
    }

    /// Inserts `resource` behind the resources that are there, and gives it
    /// its identifier: its index. The identifier of every state of the
    /// resource is rewritten so that it names the identifier that the
    /// resource has from now on.
    pub fn add_resource(&mut self, resource: Resource) -> (id: ResourceId)
        ensures
            id == ResourceId(old(self)@.resources.len() as usize),
            final(self)@ == (SkillsetView {
                resources: old(self)@.resources.push(resource@.reparent(id)),
                ..old(self)@
            }),
            forall|i: int|
                0 <= i < resource@.states.len()
                    ==> (#[trigger] final(self)@.resources[id.0 as int].states[i]).id
                    == StateId(id, resource@.states[i].id.1),
            old(self)@.wf() && resource@.wf() ==> final(self)@.wf(),
    {
        let id = ResourceId(self.resources.len());
        let mut resource = resource;
        resource.set_id(id);
        let ghost before = self.resources;
        self.resources.push(resource);
        proof {
            lemma_deep_push(before, self.resources, resource);
            assert(self.resources.deep_view().len() == self.resources.len());
        }
        id
    }

    /// The resource that `id` stands for, if there is one at its index.
    pub fn get_resource(&self, id: ResourceId) -> (r: Option<&Resource>)
        ensures
            r.deep_view() == self@.get_resource(id),
    {
        let index = id.index();
        if index < self.resources.len() {
            proof {
                lemma_deep_index(self.resources, index as int);
            }
            Some(&self.resources[index])
        } else {
            None
        }
    }

    /// The namespace of the resources: each name with the identifier of the
    /// last resource that carries it.
    pub fn resource_map(&self) -> (r: StringHashMap<ResourceId>)
        ensures
            r@ == self@.resource_map(),
    {
        let map = name_map_all(&self.resources);
        proof {
            assert(entries_of::<ResourceId, Resource>(self.resources@)
                =~= self@.resources.map_values(
                |x: ResourceView| (x.name, x.id),
            ));
        }
        map
    }

    /// The state that `id` stands for, if the resource that `id` names as
    /// the owner is there and finds it.
    pub fn get_state(&self, id: StateId) -> (r: Option<&State>)
        ensures
            r.deep_view() == self@.get_state(id),
    {
        match self.get_resource(id.resource()) {
            Some(resource) => resource.get_state(id),
            None => None,
        }
    }

    /// The namespace of the states of all resources together: each name
    /// with the identifier of the last state that carries it.
    pub fn state_map(&self) -> (r: StringHashMap<StateId>)
        ensures
            r@ == self@.state_map(),
    {
        let mut map: StringHashMap<StateId> = StringHashMap::new();
        let mut i: usize = 0;
        while i < self.resources.len()
            invariant
                0 <= i <= self.resources.len(),
                map@ == name_map(concat(state_blocks(self@.resources).take(i as int))),
            decreases self.resources.len() - i,
        {
            let states = self.resources[i].states();
            let ghost done = concat(state_blocks(self@.resources).take(i as int));
            let ghost own = self@.resources[i as int].entries();
            let mut j: usize = 0;
            proof {
                lemma_deep_index(self.resources, i as int);
                assert(done + own.take(0) =~= done);
            }
            while j < states.len()
                invariant
                    0 <= j <= states.len(),
                    0 <= i < self.resources.len(),
                    states.deep_view() == self@.resources[i as int].states,
                    own == self@.resources[i as int].entries(),
                    map@ == name_map(done + own.take(j as int)),
                decreases states.len() - j,
            {
                let state = &states[j];
                proof {
                    lemma_deep_index(*states, j as int);
                    lemma_name_map_push(done + own.take(j as int), state@.name, state@.id);
                    assert((done + own.take(j as int)).push((state@.name, state@.id)) =~= done
                        + own.take(j as int + 1));
                }
                map.insert(String::from_str(state.name()), state.id());
                j = j + 1;
            }
            proof {
                assert(own.take(j as int) =~= own);
                lemma_concat_take(state_blocks(self@.resources), i as int);
            }
            i = i + 1;
        }
        proof {
            assert(state_blocks(self@.resources).take(i as int) =~= state_blocks(self@.resources));
        }
        map
    }

    pub fn events(&self) -> (r: &Vec<Event>)
        ensures
            r.deep_view() == self@.events,
    {
        &self.events
    }

    /// Inserts `event` behind the events that are there, and gives it its
    /// identifier: its index.
    pub fn add_event(&mut self, event: Event) -> (id: EventId)
        ensures
            id == EventId(old(self)@.events.len() as usize),
            final(self)@ == (SkillsetView {
                events: old(self)@.events.push(EventView { id, ..event@ }),
                ..old(self)@
            }),
            old(self)@.wf() ==> final(self)@.wf(),
    {
        let id = EventId(self.events.len());
        let mut event = event;
        event.set_id(id);
        let ghost before = self.events;
        self.events.push(event);
        proof {
            lemma_deep_push(before, self.events, event);
            assert(self.events.deep_view().len() == self.events.len());
        }
        id
    }

    /// The event that `id` stands for, if there is one at its index.
    pub fn get_event(&self, id: EventId) -> (r: Option<&Event>)
        ensures
            r.deep_view() == self@.get_event(id),
    {
        let index = id.index();
        if index < self.events.len() {
            proof {
                lemma_deep_index(self.events, index as int);
            }
            Some(&self.events[index])
        } else {
            None
        }
    }

    pub fn skills(&self) -> (r: &Vec<Skill>)
        ensures
            r.deep_view() == self@.skills,
    {
        &self.skills
    }

    /// Inserts `skill` behind the skills that are there, and gives it its
    /// identifier: its index. The identifier of every precondition,
    /// invariant, success and failure of the skill is rewritten so that it
    /// names the identifier that the skill has from now on.
    pub fn add_skill(&mut self, skill: Skill) -> (id: SkillId)
        ensures
            id == SkillId(old(self)@.skills.len() as usize),
            final(self)@ == (SkillsetView {
                skills: old(self)@.skills.push(skill@.reparent(id)),
                ..old(self)@
            }),
            old(self)@.wf() && skill@.wf() ==> final(self)@.wf(),
    {
        let id = SkillId(self.skills.len());
        let mut skill = skill;
        skill.set_id(id);
        let ghost before = self.skills;
        self.skills.push(skill);
        proof {
            lemma_deep_push(before, self.skills, skill);
            assert(self.skills.deep_view().len() == self.skills.len());
        }
        id
    }

    /// The skill that `id` stands for, if there is one at its index.
    pub fn get_skill(&self, id: SkillId) -> (r: Option<&Skill>)
        ensures
            r.deep_view() == self@.get_skill(id),
    {
        let index = id.index();
        if index < self.skills.len() {
            proof {
                lemma_deep_index(self.skills, index as int);
            }
            Some(&self.skills[index])
        } else {
            None
        }
    }

    /// The names of the types with their positions, in order.
    pub fn type_naming(&self) -> (r: Vec<Naming>)
        ensures
            r.deep_view() == self@.type_naming(),
    {
        let names = naming_all(&self.types);
        proof {
            assert(namings::<TypeId, RlType>(self.types@) =~= self@.type_naming());
        }
        names
    }

    /// The names of the data with their positions, in order.
    pub fn data_naming(&self) -> (r: Vec<Naming>)
        ensures
            r.deep_view() == self@.data_naming(),
    {
        let names = naming_all(&self.data);
        proof {
            assert(namings::<DataId, Data>(self.data@) =~= self@.data_naming());
        }
        names
    }

    /// The names of the resources with their positions, each directly
    /// followed by the names of its states.
    pub fn resource_naming(&self) -> (r: Vec<Naming>)
        ensures
            r.deep_view() == self@.resource_naming(),
    {
        let mut names: Vec<Naming> = Vec::new();
        let mut i: usize = 0;
        proof {
            lemma_deep_empty(names);
        }
        while i < self.resources.len()
            invariant
                0 <= i <= self.resources.len(),
                names.deep_view() == concat(naming_blocks(self@.resources).take(i as int)),
            decreases self.resources.len() - i,
        {
            let resource = &self.resources[i];
            let entry = resource.naming();
            let ghost before = names;
            names.push(entry);
            let ghost pushed = names;
            let mut own = resource.names();
            let ghost added = own;
            names.append(&mut own);
            proof {
                lemma_deep_index(self.resources, i as int);
                lemma_deep_push(before, pushed, entry);
                lemma_deep_append(pushed, added, names);
                lemma_concat_take(naming_blocks(self@.resources), i as int);
                assert(names.deep_view() =~= before.deep_view() + resource_block(
                    self@.resources[i as int],
                ));
            }
            i = i + 1;
        }
        proof {
            assert(naming_blocks(self@.resources).take(i as int) =~= naming_blocks(
                self@.resources,
            ));
        }
        names
    }

    /// The names of the events with their positions, in order.
    pub fn event_naming(&self) -> (r: Vec<Naming>)
        ensures
            r.deep_view() == self@.event_naming(),
    {
        let names = naming_all(&self.events);
        proof {
            assert(namings::<EventId, Event>(self.events@) =~= self@.event_naming());
        }
        names
    }

    /// The names of the skills with their positions, in order.
    pub fn skill_naming(&self) -> (r: Vec<Naming>)
        ensures
            r.deep_view() == self@.skill_naming(),
    {
        let names = naming_all(&self.skills);
        proof {
            assert(namings::<SkillId, Skill>(self.skills@) =~= self@.skill_naming());
        }
        names
    }

    /// Checks that no name is declared twice: among the data, among the
    /// resources and all their states, among the events and among the
    /// skills, each together with the declared types; then within each
    /// skill. The first check that fails ends the whole with its error.
    pub fn duplicate(&self) -> (r: Result<(), RlError>)
        ensures
            checked(self@.duplicate_error(), r),
    {
        let types = self.type_naming();
        let ghost checks = self@.duplicate_checks();
        match check_duplicate(merge_naming(&types, self.data_naming())) {
            Ok(()) => {},
            Err(e) => {
                proof {
                    lemma_first_error(checks, 0);
                }
                return Err(e);
            },
        }
        match check_duplicate(merge_naming(&types, self.resource_naming())) {
            Ok(()) => {},
            Err(e) => {
                proof {
                    lemma_first_error(checks, 1);
                }
                return Err(e);
            },
        }
        match check_duplicate(merge_naming(&types, self.event_naming())) {
            Ok(()) => {},
            Err(e) => {
                proof {
                    lemma_first_error(checks, 2);
                }
                return Err(e);
            },
        }
        match check_duplicate(merge_naming(&types, self.skill_naming())) {
            Ok(()) => {},
            Err(e) => {
                proof {
                    lemma_first_error(checks, 3);
                }
                return Err(e);
            },
        }
        let mut i: usize = 0;
        while i < self.skills.len()
            invariant
                0 <= i <= self.skills.len(),
                checks == self@.duplicate_checks(),
                forall|k: int| 0 <= k < 4 + i ==> (#[trigger] checks[k]) is None,
            decreases self.skills.len() - i,
        {
            proof {
                lemma_deep_index(self.skills, i as int);
            }
            match self.skills[i].duplicate(self) {
                Ok(()) => {},
                Err(e) => {
                    proof {
                        lemma_first_error(checks, 4 + i as int);
                    }
                    return Err(e);
                },
            }
            i = i + 1;
        }
        Ok(())
    }

    /// Resolves every reference of the skillset: types first, then
    /// resources, then states. The first reference that fails ends the whole
    /// with its error. Whatever the outcome, nothing but references has
    /// changed: names may have been resolved, and that is all.
    pub fn resolve(&mut self) -> (r: Result<(), RlError>)
        ensures
            in_place(old(self)@.resolve(), final(self)@, r),
            old(self)@.kept(
                final(self)@,
                Namespaces::all(
                    old(self)@.type_map(),
                    old(self)@.resource_map(),
                    old(self)@.state_map(),
                ),
            ),
            old(self)@.declares_like(final(self)@),
            old(self)@.wf() ==> final(self)@.wf(),
            r is Ok ==> final(self)@.resolved(),
            r is Ok && old(self)@.wf() && old(self)@.valid() ==> final(self)@.valid(),
    {
        let ghost before = self@;
        let ghost types = Namespaces::only_types(before.type_map());
        let ghost resources = Namespaces::only_resources(before.resource_map());
        let ghost states = Namespaces::only_states(before.state_map());
        let ghost all = Namespaces::all(
            before.type_map(),
            before.resource_map(),
            before.state_map(),
        );
        proof {
            before.lemma_resolve();
        }
        let r = match self.resolve_type() {
            Ok(()) => {
                let ghost typed = self@;
                match self.resolve_resource() {
                    Ok(()) => {
                        let ghost resourced = self@;
                        let r = self.resolve_state();
                        proof {
                            resourced.lemma_kept(self@, self@, states, all);
                            typed.lemma_kept(resourced, self@, resources, all);
                            typed.lemma_kept(resourced, self@, all, all);
                            before.lemma_kept(typed, self@, types, all);
                            before.lemma_kept(typed, self@, all, all);
                        }
                        r
                    },
                    Err(e) => {
                        proof {
                            typed.lemma_kept(self@, self@, resources, all);
                            before.lemma_kept(typed, self@, types, all);
                            before.lemma_kept(typed, self@, all, all);
                        }
                        Err(e)
                    },
                }
            },
            Err(e) => {
                proof {
                    before.lemma_kept(self@, self@, types, all);
                }
                Err(e)
            },
        };
        proof {
            before.lemma_kept_shape(self@, all);
        }
        r
    }

    /// Resolves the references to types: in the data, then in the skills.
    /// Whatever the outcome, nothing but references to types has changed.
    pub fn resolve_type(&mut self) -> (r: Result<(), RlError>)
        ensures
            in_place(old(self)@.resolve_type(), final(self)@, r),
            old(self)@.kept(final(self)@, Namespaces::only_types(old(self)@.type_map())),
            old(self)@.declares_like(final(self)@),
            final(self)@.resources == old(self)@.resources,
            final(self)@.events == old(self)@.events,
            old(self)@.wf() ==> final(self)@.wf(),
            r is Ok ==> final(self)@.types_resolved(),
            r is Ok && old(self)@.wf() && old(self)@.valid() ==> final(self)@.valid(),
    {
        proof {
            old(self)@.lemma_resolve_type();
            old(self)@.lemma_kept(
                old(self)@,
                old(self)@,
                Namespaces::only_types(old(self)@.type_map()),
                Namespaces::only_types(old(self)@.type_map()),
            );
        }
        let map = self.type_map();
        let r = match resolve_type_all(&mut self.data, &map) {
            Ok(()) => resolve_type_all(&mut self.skills, &map),
            Err(e) => Err(e),
        };
        proof {
            old(self)@.lemma_kept_shape(self@, Namespaces::only_types(old(self)@.type_map()));
        }
        r
    }

    /// Resolves the references to resources: in the events, then in the
    /// skills. Whatever the outcome, nothing but references to resources has
    /// changed.
    pub fn resolve_resource(&mut self) -> (r: Result<(), RlError>)
        ensures
            in_place(old(self)@.resolve_resource(), final(self)@, r),
            old(self)@.kept(final(self)@, Namespaces::only_resources(old(self)@.resource_map())),
            old(self)@.declares_like(final(self)@),
            final(self)@.data == old(self)@.data,
            final(self)@.resources == old(self)@.resources,
            old(self)@.wf() ==> final(self)@.wf(),
            r is Ok ==> final(self)@.resources_resolved(),
            r is Ok && old(self)@.wf() && old(self)@.valid() ==> final(self)@.valid(),
    {
        proof {
            old(self)@.lemma_resolve_resource();
            old(self)@.lemma_kept(
                old(self)@,
                old(self)@,
                Namespaces::only_resources(old(self)@.resource_map()),
                Namespaces::only_resources(old(self)@.resource_map()),
            );
        }
        let map = self.resource_map();
        let r = match resolve_resource_all(&mut self.events, &map) {
            Ok(()) => resolve_resource_all(&mut self.skills, &map),
            Err(e) => Err(e),
        };
        proof {
            old(self)@.lemma_kept_shape(
                self@,
                Namespaces::only_resources(old(self)@.resource_map()),
            );
        }
        r
    }

    /// Lets each resource resolve its own references against its own
    /// states, in order, and stops at the first resource that fails.
    fn resolve_own_states(&mut self) -> (r: Result<(), RlError>)
        ensures
            match old(self)@.resolve_own_states() {
                Ok(resources) => r is Ok && final(self)@.resources == resources,
                Err(e) => r is Err && r->Err_0@ == e,
            },
            all_kept::<Resource>(
                old(self)@.resources,
                final(self)@.resources,
                Namespaces::only_states(old(self)@.state_map()),
            ),
            final(self)@ == (SkillsetView { resources: final(self)@.resources, ..old(self)@ }),
    {
        let ghost before = old(self)@.resources;
        let ghost outcomes = before.map_values(|x: ResourceView| x.resolve_state());
        let mut i: usize = 0;
        while i < self.resources.len()
            invariant
                0 <= i <= self.resources.len(),
                self.resources.len() == before.len(),
                before == old(self)@.resources,
                outcomes == before.map_values(|x: ResourceView| x.resolve_state()),
                self.name == old(self).name,
                self.types == old(self).types,
                self.data == old(self).data,
                self.events == old(self).events,
                self.skills == old(self).skills,
                self.position == old(self).position,
                forall|k: int|
                    0 <= k < i ==> #[trigger] outcomes[k] == Ok::<ResourceView, RlErrorView>(
                        self.resources.deep_view()[k],
                    ),
                forall|k: int|
                    0 <= k < i ==> before[k].kept(
                        #[trigger] self.resources.deep_view()[k],
                        Namespaces::only_states(old(self)@.state_map()),
                    ),
                forall|k: int|
                    i <= k < self.resources.len() ==> #[trigger] self.resources.deep_view()[k]
                        == before[k],
            decreases self.resources.len() - i,
        {
            let ghost previous = self.resources.deep_view();
            proof {
                assert(previous[i as int] == before[i as int]);
                assert(outcomes[i as int] == before[i as int].resolve_state());
            }
            let outcome = self.resources[i].resolve_state();
            proof {
                assert forall|k: int|
                    0 <= k < self.resources.len()
                        && k != i implies #[trigger] self.resources.deep_view()[k]
                    == previous[k] by {}
                assert(before[i as int].kept(
                    self.resources.deep_view()[i as int],
                    Namespaces::only_states(old(self)@.state_map()),
                ));
            }
            match outcome {
                Ok(()) => {},
                Err(e) => {
                    proof {
                        lemma_sequence_fails(outcomes, i as int);
                        let now = self.resources.deep_view();
                        assert forall|k: int| 0 <= k < before.len() implies before[k].kept(
                            now[k],
                            Namespaces::only_states(old(self)@.state_map()),
                        ) by {
                            Resource::lemma_kept(
                                before[k],
                                before[k],
                                before[k],
                                Namespaces::only_states(old(self)@.state_map()),
                                Namespaces::only_states(old(self)@.state_map()),
                            );
                        }
                    }
                    return Err(e);
                },
            }
            i = i + 1;
        }
        proof {
            lemma_sequence_succeeds(outcomes, self.resources.deep_view());
        }
        Ok(())
    }

    /// Resolves the references to states. Each resource first resolves its
    /// own, against its own states; then the events and the skills are
    /// resolved against the states of all resources. Whatever the outcome,
    /// nothing but references to states has changed.
    pub fn resolve_state(&mut self) -> (r: Result<(), RlError>)
        ensures
            in_place(old(self)@.resolve_state(), final(self)@, r),
            old(self)@.kept(final(self)@, Namespaces::only_states(old(self)@.state_map())),
            old(self)@.declares_like(final(self)@),
            final(self)@.data == old(self)@.data,
            old(self)@.wf() ==> final(self)@.wf(),
            r is Ok ==> final(self)@.states_resolved(),
            r is Ok && old(self)@.wf() && old(self)@.valid() ==> final(self)@.valid(),
    {
        proof {
            old(self)@.lemma_resolve_state();
            old(self)@.lemma_kept(
                old(self)@,
                old(self)@,
                Namespaces::only_states(old(self)@.state_map()),
                Namespaces::only_states(old(self)@.state_map()),
            );
        }
        let r = match self.resolve_own_states() {
            Ok(()) => {
                proof {
                    old(self)@.lemma_own_states_keep_namespace();
                }
                let map = self.state_map();
                match resolve_state_all(&mut self.events, &map) {
                    Ok(()) => resolve_state_all(&mut self.skills, &map),
                    Err(e) => Err(e),
                }
            },
            Err(e) => Err(e),
        };
        proof {
            old(self)@.lemma_kept_shape(self@, Namespaces::only_states(old(self)@.state_map()));
        }
        r
    }
}

impl GetFromId<TypeId, RlType> for Skillset {
    open spec fn spec_get(&self, id: TypeId) -> Option<RlTypeView> {
        self@.get_type(id)
    }

    fn get(&self, id: TypeId) -> (r: Option<&RlType>) {
        self.get_type(id)
    }
}

impl GetFromId<DataId, Data> for Skillset {
    open spec fn spec_get(&self, id: DataId) -> Option<DataView> {
        self@.get_data(id)
    }

    fn get(&self, id: DataId) -> (r: Option<&Data>) {
        self.get_data(id)
    }
}

impl GetFromId<ResourceId, Resource> for Skillset {
    open spec fn spec_get(&self, id: ResourceId) -> Option<ResourceView> {
        self@.get_resource(id)
    }

    fn get(&self, id: ResourceId) -> (r: Option<&Resource>) {
        self.get_resource(id)
    }
}

impl GetFromId<StateId, State> for Skillset {
    open spec fn spec_get(&self, id: StateId) -> Option<StateView> {
        self@.get_state(id)
    }

    fn get(&self, id: StateId) -> (r: Option<&State>) {
        self.get_state(id)
    }
}

impl GetFromId<EventId, Event> for Skillset {
    open spec fn spec_get(&self, id: EventId) -> Option<EventView> {
        self@.get_event(id)
    }

    fn get(&self, id: EventId) -> (r: Option<&Event>) {
        self.get_event(id)
    }
}

impl GetFromId<SkillId, Skill> for Skillset {
    open spec fn spec_get(&self, id: SkillId) -> Option<SkillView> {
        self@.get_skill(id)
    }

    fn get(&self, id: SkillId) -> (r: Option<&Skill>) {
        self.get_skill(id)
    }
}

impl GetFromId<PreconditionId, Precondition> for Skillset {
    open spec fn spec_get(&self, id: PreconditionId) -> Option<PreconditionView> {
        match self@.get_skill(id.0) {
            Some(skill) => skill.get_precondition(id),
            None => None,
        }
    }

    fn get(&self, id: PreconditionId) -> (r: Option<&Precondition>) {
        match self.get_skill(id.skill()) {
            Some(skill) => skill.get_precondition(id),
            None => None,
        }
    }
}

impl GetFromId<InvariantId, Invariant> for Skillset {
    open spec fn spec_get(&self, id: InvariantId) -> Option<InvariantView> {
        match self@.get_skill(id.0) {
            Some(skill) => skill.get_invariant(id),
            None => None,
        }
    }

    fn get(&self, id: InvariantId) -> (r: Option<&Invariant>) {
        match self.get_skill(id.skill()) {
            Some(skill) => skill.get_invariant(id),
            None => None,
        }
    }
}

impl GetFromId<SuccessId, Success> for Skillset {
    open spec fn spec_get(&self, id: SuccessId) -> Option<TerminateView<SuccessId>> {
        match self@.get_skill(id.0) {
            Some(skill) => skill.get_success(id),
            None => None,
        }
    }

    fn get(&self, id: SuccessId) -> (r: Option<&Success>) {
        match self.get_skill(id.skill()) {
            Some(skill) => skill.get_success(id),
            None => None,
        }
    }
}

impl GetFromId<FailureId, Failure> for Skillset {
    open spec fn spec_get(&self, id: FailureId) -> Option<TerminateView<FailureId>> {
        match self@.get_skill(id.0) {
            Some(skill) => skill.get_failure(id),
            None => None,
        }
    }

    fn get(&self, id: FailureId) -> (r: Option<&Failure>) {
        match self.get_skill(id.skill()) {
            Some(skill) => skill.get_failure(id),
            None => None,
        }
    }
}

} // verus!
