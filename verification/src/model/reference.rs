//! References: links to entities that are written as names and resolved to
//! identifiers.

use crate::model::identity::{Id, NamingView};
use crate::parser::error::{in_place, quoted, result_view, RlError, RlErrorView};
use crate::parser::position::{Position, PositionView};
use vstd::hash_map::StringHashMap;
use vstd::prelude::*;

verus! {

/// Mathematical model of a [`Reference`].
pub enum ReferenceView<I> {
    Unresolved(Seq<char>, Option<PositionView>),
    Resolved(I),
}

/// A link to an entity with identifiers of kind `I`.
#[derive(Debug, PartialEq, Eq, Hash)]
pub enum Reference<I: Id> {
    /// A name as it was written, with the place where it was used. It has
    /// not been looked up.
    Unresolved(String, Option<Position>),
    /// The identifier that the name was found to stand for.
    Resolved(I),
}

impl<I: Id> View for Reference<I> {
    type V = ReferenceView<I>;

    open spec fn view(&self) -> ReferenceView<I> {
        match self {
            Reference::Unresolved(name, position) => ReferenceView::Unresolved(
                name@,
                position.deep_view(),
            ),
            Reference::Resolved(id) => ReferenceView::Resolved(*id),
        }
    }
}

impl<I: Id> DeepView for Reference<I> {
    type V = ReferenceView<I>;

    open spec fn deep_view(&self) -> ReferenceView<I> {
        self@
    }
}

impl<I: Id> Clone for Reference<I> {
    fn clone(&self) -> (r: Self)
        ensures
            r == *self,
    {
        match self {
            Reference::Unresolved(name, position) => Reference::Unresolved(
                name.clone(),
                position.clone(),
            ),
            Reference::Resolved(id) => Reference::Resolved(*id),
        }
    }
}

/// Every name that is used is known to the namespace.
pub open spec fn known<I>(uses: Set<NamingView>, map: Map<Seq<char>, I>) -> bool {
    forall|u: NamingView| #[trigger] uses.contains(u) ==> map.contains_key(u.0)
}

/// The error `e` is that of a name among `uses` that the namespace does not
/// know: it names the element, as `info` and the name in quotes, and the
/// place where the name was used.
pub open spec fn unknown<I>(
    uses: Set<NamingView>,
    map: Map<Seq<char>, I>,
    info: Seq<char>,
    e: RlErrorView,
) -> bool {
    exists|u: NamingView|
        #[trigger] uses.contains(u) && !map.contains_key(u.0) && e == (RlErrorView::Resolve {
            element: quoted(info, u.0),
            position: u.1,
        })
}

/// The names that are used decide the outcome of a pass: it succeeds when
/// the namespace knows them all, and else fails with the error of one that
/// it does not know.
pub open spec fn decided<V, I>(
    outcome: Result<V, RlErrorView>,
    uses: Set<NamingView>,
    map: Map<Seq<char>, I>,
    info: Seq<char>,
) -> bool {
    match outcome {
        Ok(_) => known(uses, map),
        Err(e) => unknown(uses, map, info, e),
    }
}

/// An error of a name among some uses is an error of a name among more.
pub proof fn lemma_unknown_among<I>(
    uses: Set<NamingView>,
    more: Set<NamingView>,
    map: Map<Seq<char>, I>,
    info: Seq<char>,
    e: RlErrorView,
)
    requires
        unknown(uses, map, info, e),
        uses.subset_of(more),
    ensures
        unknown(more, map, info, e),
{
    let u = choose|u: NamingView|
        #[trigger] uses.contains(u) && !map.contains_key(u.0) && e == (RlErrorView::Resolve {
            element: quoted(info, u.0),
            position: u.1,
        });
    assert(more.contains(u));
}

/// Every identifier that the namespace gives is one of `ids`.
pub open spec fn map_among<I>(map: Map<Seq<char>, I>, ids: Set<I>) -> bool {
    forall|name: Seq<char>| map.contains_key(name) ==> ids.contains(#[trigger] map[name])
}

impl<I> ReferenceView<I> {
    /// The reference `after` is this one, or this one is a name that the
    /// namespace `space` knows and `after` is the identifier that `space`
    /// gives it. Where there is no namespace the reference is as it was. A
    /// resolved reference is never rewritten.
    pub open spec fn kept(self, after: ReferenceView<I>, space: Option<Map<Seq<char>, I>>) -> bool {
        after == self || (space matches Some(map) && self matches ReferenceView::Unresolved(name, _)
            && map.contains_key(name) && after == ReferenceView::<I>::Resolved(map[name]))
    }

    /// The name that the reference uses, with the place of the use, if the
    /// reference is not resolved.
    pub open spec fn uses(self) -> Set<NamingView> {
        match self {
            ReferenceView::Unresolved(name, position) => set![(name, position)],
            ReferenceView::Resolved(_) => Set::empty(),
        }
    }

    /// The name that a reference uses decides whether it resolves.
    pub proof fn lemma_uses(self, map: Map<Seq<char>, I>, info: Seq<char>)
        ensures
            decided(self.resolve(map, info), self.uses(), map, info),
            self.resolve(map, info) matches Ok(w) ==> w.uses() == Set::<NamingView>::empty(),
    {
        if let ReferenceView::Unresolved(name, position) = self {
            assert(self.uses().contains((name, position)));
        }
    }

    /// The reference, if it is resolved, stands for one of `ids`.
    pub open spec fn among(self, ids: Set<I>) -> bool {
        match self {
            ReferenceView::Unresolved(_, _) => true,
            ReferenceView::Resolved(id) => ids.contains(id),
        }
    }

    /// The outcome of resolving the reference against the namespace `map`:
    /// a resolved reference stays as it is; a name that `map` knows becomes
    /// the identifier that `map` gives it; any other name is an error that
    /// names the element, as `info` and the name in quotes, and the place
    /// where the name was used.
    pub open spec fn resolve(self, map: Map<Seq<char>, I>, info: Seq<char>) -> Result<
        ReferenceView<I>,
        RlErrorView,
    > {
        match self {
            ReferenceView::Unresolved(name, position) => if map.contains_key(name) {
                Ok(ReferenceView::Resolved(map[name]))
            } else {
                Err(RlErrorView::Resolve { element: quoted(info, name), position })
            },
            ReferenceView::Resolved(_) => Ok(self),
        }
    }
}

impl<I: Id> Reference<I> {
    /// The identifier behind a resolved reference.
    pub fn resolved(&self) -> (id: I)
        requires
            self@ is Resolved,
        ensures
            self@ == ReferenceView::Resolved(id),
    {
        match self {
            Reference::Unresolved(_, _) => unreached(),
            Reference::Resolved(id) => *id,
        }
    }

    /// Whether the reference has been resolved.
    pub fn is_resolved(&self) -> (r: bool)
        ensures
            r == (self@ is Resolved),
    {
        match self {
            Reference::Unresolved(_, _) => false,
            Reference::Resolved(_) => true,
        }
    }

    /// Resolves the reference against the namespace `map`. `info` says what
    /// kind of entity is looked for, for the error message.
    pub fn resolve(&self, map: &StringHashMap<I>, info: &str) -> (r: Result<Self, RlError>)
        ensures
            result_view(r) == self@.resolve(map@, info@),
    {
        match self {
            Reference::Unresolved(name, position) => match map.get(name.as_str()) {
                Some(id) => Ok(Reference::Resolved(*id)),
                None => Err(RlError::new_resolve(info, name.as_str(), position.clone())),
            },
            Reference::Resolved(id) => Ok(Reference::Resolved(*id)),
        }
    }
}

impl<I: Id> Reference<I> {
    /// Resolves the reference where it stands: on success it holds the
    /// identifier, on failure it is left as it was.
    pub fn resolve_in_place(&mut self, map: &StringHashMap<I>, info: &str) -> (r: Result<
        (),
        RlError,
    >)
        ensures
            in_place(old(self)@.resolve(map@, info@), final(self)@, r),
            r is Err ==> *final(self) == *old(self),
            old(self)@.kept(final(self)@, Some(map@)),
    {
        match self.resolve(map, info) {
            Ok(resolved) => {
                *self = resolved;
                Ok(())
            },
            Err(e) => Err(e),
        }
    }
}

/// Resolving a resolved reference changes nothing and cannot fail, whatever
/// the namespace holds.
pub proof fn lemma_resolve_resolved<I>(id: I, map: Map<Seq<char>, I>, info: Seq<char>)
    ensures
        ReferenceView::Resolved(id).resolve(map, info) == Ok::<ReferenceView<I>, RlErrorView>(
            ReferenceView::Resolved(id),
        ),
{
}

/// Resolving against a namespace that gives identifiers among `ids` leaves a
/// reference that stands for one of `ids`.
pub proof fn lemma_resolve_among<I>(
    reference: ReferenceView<I>,
    map: Map<Seq<char>, I>,
    info: Seq<char>,
    ids: Set<I>,
)
    requires
        reference.among(ids),
        map_among(map, ids),
        reference.resolve(map, info) is Ok,
    ensures
        reference.resolve(map, info)->Ok_0.among(ids),
{
}

/// A name that was kept and is resolved stands for the identifier that the
/// namespace gives the name.
pub proof fn lemma_kept_resolved<I>(
    reference: ReferenceView<I>,
    after: ReferenceView<I>,
    map: Map<Seq<char>, I>,
)
    requires
        reference.kept(after, Some(map)),
        reference is Unresolved,
        after is Resolved,
    ensures
        map.contains_key(reference->Unresolved_0),
        after == ReferenceView::<I>::Resolved(map[reference->Unresolved_0]),
{
}

/// Resolving is idempotent: what a successful resolution returns resolves to
/// itself, against any namespace.
pub proof fn lemma_resolve_idempotent<I>(
    reference: ReferenceView<I>,
    map: Map<Seq<char>, I>,
    other: Map<Seq<char>, I>,
    info: Seq<char>,
)
    requires
        reference.resolve(map, info) is Ok,
    ensures
        reference.resolve(map, info)->Ok_0 is Resolved,
        reference.resolve(map, info)->Ok_0.resolve(other, info) == reference.resolve(map, info),
{
}

} // verus!
