//! The diagnostics that loading, checking and resolving a skillset can end in.

use crate::parser::position::{Position, PositionView};
use vstd::prelude::*;
use vstd::string::StringExecFns;

verus! {

/// Mathematical model of an [`RlError`].
pub enum RlErrorView {
    File { filename: Seq<char>, message: Seq<char> },
    Parse { file: Seq<char>, position: Option<PositionView>, message: Seq<char> },
    Resolve { element: Seq<char>, position: Option<PositionView> },
    Duplicate { name: Seq<char>, first: Option<PositionView>, position: Option<PositionView> },
}

/// The single error value that a failed operation reports.
#[derive(Debug, PartialEq, Eq)]
pub enum RlError {
    /// A source file could not be read.
    File { filename: String, message: String },
    /// The grammar rejected a source file.
    Parse { file: String, position: Option<Position>, message: String },
    /// A name was used where no entity of the required kind carries it.
    /// `position` is where the name was used.
    Resolve { element: String, position: Option<Position> },
    /// A name was declared twice in one namespace. `first` is where it was
    /// first seen, `position` is the declaration that clashes with it.
    Duplicate { name: String, first: Option<Position>, position: Option<Position> },
}

impl View for RlError {
    type V = RlErrorView;

    open spec fn view(&self) -> RlErrorView {
        match self {
            RlError::File { filename, message } => RlErrorView::File {
                filename: filename@,
                message: message@,
            },
            RlError::Parse { file, position, message } => RlErrorView::Parse {
                file: file@,
                position: position.deep_view(),
                message: message@,
            },
            RlError::Resolve { element, position } => RlErrorView::Resolve {
                element: element@,
                position: position.deep_view(),
            },
            RlError::Duplicate { name, first, position } => RlErrorView::Duplicate {
                name: name@,
                first: first.deep_view(),
                position: position.deep_view(),
            },
        }
    }
}

impl Clone for RlError {
    fn clone(&self) -> (r: Self)
        ensures
            r == *self,
    {
        match self {
            RlError::File { filename, message } => RlError::File {
                filename: filename.clone(),
                message: message.clone(),
            },
            RlError::Parse { file, position, message } => RlError::Parse {
                file: file.clone(),
                position: position.clone(),
                message: message.clone(),
            },
            RlError::Resolve { element, position } => RlError::Resolve {
                element: element.clone(),
                position: position.clone(),
            },
            RlError::Duplicate { name, first, position } => RlError::Duplicate {
                name: name.clone(),
                first: first.clone(),
                position: position.clone(),
            },
        }
    }
}

impl DeepView for RlError {
    type V = RlErrorView;

    open spec fn deep_view(&self) -> RlErrorView {
        self@
    }
}

/// The view of a result whose two sides both have one.
pub open spec fn result_view<T: View, E: View>(r: Result<T, E>) -> Result<T::V, E::V> {
    match r {
        Ok(v) => Ok(v@),
        Err(e) => Err(e@),
    }
}

/// What an operation that rewrites a value in place owes its caller, given
/// the outcome `expected` that the model computes for the value before the
/// call: on success the value `after` the call is the computed one, on
/// failure the error is the computed one and `after` is left unspecified.
pub open spec fn in_place<V, E: View>(
    expected: Result<V, E::V>,
    after: V,
    r: Result<(), E>,
) -> bool {
    match expected {
        Ok(v) => r is Ok && after == v,
        Err(e) => r is Err && r->Err_0@ == e,
    }
}

/// What an operation that only checks a value owes its caller, given the
/// error that the model computes, if any.
pub open spec fn checked<E: View>(expected: Option<E::V>, r: Result<(), E>) -> bool {
    match expected {
        None => r is Ok,
        Some(e) => r is Err && r->Err_0@ == e,
    }
}

/// The text `<info> '<name>'` that a resolve error names its element by.
pub open spec fn quoted(info: Seq<char>, name: Seq<char>) -> Seq<char> {
    info + seq![' ', '\''] + name + seq!['\'']
}

impl RlError {
    /// The error for a file that could not be read.
    pub fn new_file(filename: &str, message: &str) -> (r: RlError)
        ensures
            r@ == (RlErrorView::File { filename: filename@, message: message@ }),
    {
        RlError::File { filename: String::from_str(filename), message: String::from_str(message) }
    }

    /// The error for the file `file` that the grammar rejected at `position`
    /// with `message`.
    pub fn new_parse(file: &str, position: Option<Position>, message: &str) -> (r: RlError)
        ensures
            r@ == (RlErrorView::Parse {
                file: file@,
                position: position.deep_view(),
                message: message@,
            }),
    {
        RlError::Parse {
            file: String::from_str(file),
            position,
            message: String::from_str(message),
        }
    }

    /// The error for the name `name`, used at `position`, that no entity of
    /// the kind `info` carries.
    pub fn new_resolve(info: &str, name: &str, position: Option<Position>) -> (r: RlError)
        ensures
            r@ == (RlErrorView::Resolve {
                element: quoted(info@, name@),
                position: position.deep_view(),
            }),
    {
        let mut element = String::from_str(info);
        element.append(" '");
        element.append(name);
        element.append("'");
        proof {
            reveal_strlit(" '");
            reveal_strlit("'");
            assert(" '"@ =~= seq![' ', '\'']);
            assert("'"@ =~= seq!['\'']);
        }
        RlError::Resolve { element, position }
    }

    /// The error for the name `name`, first declared at `first` and declared
    /// again at `position`.
    pub fn new_duplicate(name: &str, first: Option<Position>, position: Option<Position>) -> (r:
        RlError)
        ensures
            r@ == (RlErrorView::Duplicate {
                name: name@,
                first: first.deep_view(),
                position: position.deep_view(),
            }),
    {
        RlError::Duplicate { name: String::from_str(name), first, position }
    }
}

} // verus!
