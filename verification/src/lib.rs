//! Entity model and name-resolution engine for a skillset description
//! language: typed data, finite-state resources, events and skills, with a
//! duplicate-name checker and a three-pass resolver.

use crate::model::{Skillset, SkillsetView};
use crate::model::resolve::Namespaces;
use crate::parser::{RlError, RlErrorView};
use crate::parser::error::result_view;
use vstd::prelude::*;

pub mod model;
pub mod parser;

verus! {

/// What becomes of a skillset that was parsed without error: the error of
/// the duplicate check if it fails, else the error of the first reference
/// that does not resolve, else the skillset with every reference resolved.
pub open spec fn validated(skillset: SkillsetView) -> Result<SkillsetView, RlErrorView> {
    match skillset.duplicate_error() {
        Some(e) => Err(e),
        None => skillset.resolve(),
    }
}

/// What loading makes of the outcome of parsing: a parse error stays as it
/// is, a parsed skillset is validated.
pub open spec fn loaded(parsed: Result<SkillsetView, RlErrorView>) -> Result<
    SkillsetView,
    RlErrorView,
> {
    match parsed {
        Err(e) => Err(e),
        Ok(skillset) => validated(skillset),
    }
}

/// Completes the loading of a skillset from the outcome of parsing its
/// files: checks the parsed skillset for duplicate names, then resolves its
/// references, and hands it back when both went well. The first error wins.
pub fn load_skillset(parsed: Result<Skillset, RlError>) -> (r: Result<Skillset, RlError>)
    ensures
        result_view(r) == loaded(result_view(parsed)),
        r matches Ok(skillset) ==> skillset@.resolved() && parsed->Ok_0@.kept(
            skillset@,
            Namespaces::all(
                parsed->Ok_0@.type_map(),
                parsed->Ok_0@.resource_map(),
                parsed->Ok_0@.state_map(),
            ),
        ) && parsed->Ok_0@.declares_like(skillset@),
        r matches Ok(skillset) ==> (parsed->Ok_0@.wf() ==> skillset@.wf()) && (parsed->Ok_0@.wf()
            && parsed->Ok_0@.valid() ==> skillset@.valid()),
{
    match parsed {
        Ok(skillset) => {
            let mut skillset = skillset;
            match skillset.duplicate() {
                Ok(()) => {},
                Err(e) => {
                    return Err(e);
                },
            }
            match skillset.resolve() {
                Ok(()) => {},
                Err(e) => {
                    return Err(e);
                },
            }
            Ok(skillset)
        },
        Err(e) => Err(e),
    }
}

} // verus!
