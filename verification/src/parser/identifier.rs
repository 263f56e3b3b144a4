//! Identifiers as the grammar meets them: a name and the place where it
//! stands.

use crate::parser::position::{lookup_source, Position, PositionView};
use line_col::LineColLookup;
use vstd::prelude::*;
use vstd::string::{StringExecFns, StringSliceAdditionalSpecFns};

verus! {

/// Mathematical model of an [`Identifier`].
pub struct IdentifierView {
    pub name: Seq<char>,
    pub position: PositionView,
}

/// A name in a source file, with its position.
#[derive(Debug)]
pub struct Identifier {
    pub name: String,
    pub position: Position,
}

impl View for Identifier {
    type V = IdentifierView;

    open spec fn view(&self) -> IdentifierView {
        IdentifierView { name: self.name@, position: self.position@ }
    }
}

impl DeepView for Identifier {
    type V = IdentifierView;

    open spec fn deep_view(&self) -> IdentifierView {
        self@
    }
}

impl Identifier {
    /// The identifier `name` that stands at byte `offset` of the text behind
    /// `lookup`, which was read from `file`.
    pub fn new(file: &str, lookup: &LineColLookup, name: &str, offset: usize) -> (r: Self)
        requires
            offset <= lookup_source(lookup).len(),
        ensures
            r@ == (IdentifierView {
                name: name@,
                position: Position::spec_new(file@, lookup_source(lookup), offset),
            }),
    {
        Identifier { name: String::from_str(name), position: Position::new(file, lookup, offset) }
    }

    /// The identifier `name` that stands at byte `offset` of `text`, which
    /// was read from `file`, or `None` when `offset` lies behind the end of
    /// `text`.
    pub fn locate(file: &str, text: &str, name: &str, offset: usize) -> (r: Option<Self>)
        ensures
            r.deep_view() == (if offset <= text.spec_bytes().len() {
                Some(
                    IdentifierView {
                        name: name@,
                        position: Position::spec_new(file@, text.spec_bytes(), offset),
                    },
                )
            } else {
                None
            }),
    {
        if offset <= text.as_bytes().len() {
            let lookup = LineColLookup::new(text);
            Some(Identifier::new(file, &lookup, name, offset))
        } else {
            None
        }
    }
}

} // verus!
