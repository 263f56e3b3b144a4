//! The entity model: identifiers, references, the entities of a skillset and
//! the rules that check and resolve them.

pub mod data;
pub mod deep;
pub mod effect;
pub mod event;
pub mod expr;
pub mod identity;
pub mod interrupt;
pub mod invariants;
pub mod laws;
pub mod naming;
pub mod parameter;
pub mod postcondition;
pub mod precondition;
pub mod progress;
pub mod reference;
pub mod resolve;
pub mod resource;
pub mod rl_type;
pub mod skill;
pub mod skillset;
pub mod state;
pub mod terminate;
pub mod transition;
pub mod variable;

pub use self::data::{Data, DataId, DataView};
pub use self::effect::{Effect, EffectView};
pub use self::event::{Event, EventId, EventView};
pub use self::expr::{Expr, ExprView};
pub use self::identity::{GetFromId, Id, Named, NameMap, Naming, NamingView};
pub use self::interrupt::{Interrupt, InterruptView};
pub use self::invariants::{Invariant, InvariantId, InvariantView};
pub use self::naming::{check_duplicate, merge_naming};
pub use self::parameter::{
    Parameter, ParameterView, SkillParameter, SkillParameterId, SkillsetId, SkillsetParameter,
    SkillsetParameterId,
};
pub use self::postcondition::{Postcondition, PostconditionId, PostconditionView};
pub use self::precondition::{Precondition, PreconditionId, PreconditionView};
pub use self::progress::{Progress, ProgressView};
pub use self::reference::{Reference, ReferenceView};
pub use self::resolve::{Kept, Namespaces, Resolvable, Typed};
pub use self::resource::{Resource, ResourceId, ResourceView};
pub use self::rl_type::{RlType, RlTypeView, TypeId};
pub use self::skill::{Skill, SkillId, SkillView};
pub use self::skillset::{Skillset, SkillsetView};
pub use self::state::{State, StateId, StateView};
pub use self::terminate::{
    Failure, FailureId, Success, SuccessId, Terminate, TerminateId, TerminateView,
};
pub use self::transition::{Transition, Transitions, TransitionsView, TransitionView};
pub use self::variable::{Variable, VariableView};
