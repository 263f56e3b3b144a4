//! Namespaces and the check that no name is declared twice in one.

use crate::model::deep::{lemma_deep_append, lemma_deep_empty, lemma_deep_index, lemma_deep_push};
use crate::model::identity::{Id, Named, Naming, NamingView};
use crate::parser::error::{checked, RlError, RlErrorView};
use crate::parser::position::Position;
use vstd::hash_map::StringHashMap;
use vstd::prelude::*;
use vstd::string::StringExecFns;

verus! {

/// The names of a namespace, in order.
pub open spec fn names_of(names: Seq<NamingView>) -> Seq<Seq<char>> {
    names.map_values(|n: NamingView| n.0)
}

/// No name occurs twice.
pub open spec fn distinct_names(names: Seq<NamingView>) -> bool {
    forall|i: int, j: int|
        0 <= i < j < names.len() ==> (#[trigger] names[i]).0 != (#[trigger] names[j]).0
}

/// Entry `j` is the first, from the left, whose name was seen before, and
/// entry `i` is where that name was first seen.
pub open spec fn first_clash(names: Seq<NamingView>, i: int, j: int) -> bool {
    &&& 0 <= i < j < names.len()
    &&& names[i].0 == names[j].0
    &&& forall|k: int| 0 <= k < i ==> (#[trigger] names[k]).0 != names[j].0
    &&& distinct_names(names.take(j))
}

/// The error for a clash between the entries `i` and `j`: it cites the name,
/// the place of entry `i` as the first declaration, and the place of entry
/// `j` as the clashing one.
pub open spec fn clash_error(names: Seq<NamingView>, i: int, j: int) -> RlErrorView {
    RlErrorView::Duplicate { name: names[j].0, first: names[i].1, position: names[j].1 }
}

/// The error that the duplicate check reports for `names`, or `None` when it
/// passes.
pub open spec fn duplicate_error(names: Seq<NamingView>) -> Option<RlErrorView> {
    if distinct_names(names) {
        None
    } else {
        let (i, j) = choose|i: int, j: int| first_clash(names, i, j);
        Some(clash_error(names, i, j))
    }
}

/// A namespace has at most one first clash.
pub proof fn lemma_first_clash_unique(names: Seq<NamingView>, i: int, j: int, a: int, b: int)
    requires
        first_clash(names, i, j),
        first_clash(names, a, b),
    ensures
        i == a,
        j == b,
{
    if j < b {
        assert(names.take(b)[i] == names[i]);
        assert(names.take(b)[j] == names[j]);
    }
    if b < j {
        assert(names.take(j)[a] == names[a]);
        assert(names.take(j)[b] == names[b]);
    }
}

/// A first clash decides the outcome of the check.
pub proof fn lemma_first_clash_decides(names: Seq<NamingView>, i: int, j: int)
    requires
        first_clash(names, i, j),
    ensures
        !distinct_names(names),
        duplicate_error(names) == Some(clash_error(names, i, j)),
{
    let (a, b) = choose|a: int, b: int| first_clash(names, a, b);
    lemma_first_clash_unique(names, i, j, a, b);
}

/// Before any entry with a given name stands a first one with that name.
pub proof fn lemma_first_seen(names: Seq<NamingView>, i: int) -> (k: int)
    requires
        0 <= i < names.len(),
    ensures
        0 <= k <= i,
        names[k].0 == names[i].0,
        forall|m: int| 0 <= m < k ==> (#[trigger] names[m]).0 != names[i].0,
    decreases i,
{
    if forall|m: int| 0 <= m < i ==> (#[trigger] names[m]).0 != names[i].0 {
        i
    } else {
        let m = choose|m: int| 0 <= m < i && (#[trigger] names[m]).0 == names[i].0;
        lemma_first_seen(names, m)
    }
}

/// A namespace in which a name occurs twice has a first clash, so that the
/// error of the check is that of this clash.
pub proof fn lemma_first_clash_exists(names: Seq<NamingView>) -> (clash: (int, int))
    requires
        !distinct_names(names),
    ensures
        first_clash(names, clash.0, clash.1),
        duplicate_error(names) == Some(clash_error(names, clash.0, clash.1)),
    decreases names.len(),
{
    let n = names.len() as int;
    let rest = names.drop_last();
    let clash = if distinct_names(rest) {
        let (a, b) = choose|a: int, b: int|
            0 <= a < b < n && (#[trigger] names[a]).0 == (#[trigger] names[b]).0;
        if b < n - 1 {
            assert(rest[a] == names[a]);
            assert(rest[b] == names[b]);
        }
        let i = lemma_first_seen(names, a);
        assert(names.take(n - 1) =~= rest);
        (i, n - 1)
    } else {
        let (i, j) = lemma_first_clash_exists(rest);
        assert(rest[i] == names[i]);
        assert(rest[j] == names[j]);
        assert(names.take(j) =~= rest.take(j));
        assert forall|k: int| 0 <= k < i implies (#[trigger] names[k]).0 != names[j].0 by {
            assert(rest[k] == names[k]);
        }
        (i, j)
    };
    lemma_first_clash_decides(names, clash.0, clash.1);
    clash
}

/// Two entries with one name make the check fail.
pub proof fn lemma_clash_fails(names: Seq<NamingView>, i: int, j: int)
    requires
        0 <= i < j < names.len(),
        names[i].0 == names[j].0,
    ensures
        duplicate_error(names) is Some,
{
}

/// An entry of a local namespace that is named like an entry of the global
/// one makes the check of the merged namespace fail.
pub proof fn lemma_clash_with_global_fails(
    globals: Seq<NamingView>,
    locals: Seq<NamingView>,
    i: int,
    j: int,
)
    requires
        0 <= i < globals.len(),
        0 <= j < locals.len(),
        globals[i].0 == locals[j].0,
    ensures
        duplicate_error(globals + locals) is Some,
{
    lemma_clash_fails(globals + locals, i, globals.len() + j);
}

/// Two entries of a local namespace with one name make the check of the
/// merged namespace fail.
pub proof fn lemma_local_clash_fails(
    globals: Seq<NamingView>,
    locals: Seq<NamingView>,
    i: int,
    j: int,
)
    requires
        0 <= i < j < locals.len(),
        locals[i].0 == locals[j].0,
    ensures
        duplicate_error(globals + locals) is Some,
{
    lemma_clash_fails(globals + locals, globals.len() + i, globals.len() + j);
}

/// The check passes exactly when the names form a sequence without
/// duplicates.
pub proof fn lemma_distinct_names(names: Seq<NamingView>)
    ensures
        distinct_names(names) <==> names_of(names).no_duplicates(),
{
    let ns = names_of(names);
    if distinct_names(names) {
        assert forall|i: int, j: int|
            0 <= i < ns.len() && 0 <= j < ns.len() && i != j implies ns[i] != ns[j] by {
            if i < j {
                assert(names[i].0 != names[j].0);
            } else {
                assert(names[j].0 != names[i].0);
            }
        }
    }
    if ns.no_duplicates() {
        assert forall|i: int, j: int| 0 <= i < j < names.len() implies (#[trigger] names[i]).0 != (
        #[trigger] names[j]).0 by {
            assert(ns[i] != ns[j]);
        }
    }
}

/// Whether the check passes does not depend on the order of the entries:
/// two namespaces that hold the same names, each as often as the other,
/// pass or fail together.
pub proof fn lemma_duplicate_order_independent(a: Seq<NamingView>, b: Seq<NamingView>)
    requires
        names_of(a).to_multiset() == names_of(b).to_multiset(),
    ensures
        duplicate_error(a) is None <==> duplicate_error(b) is None,
{
    lemma_distinct_names(a);
    lemma_distinct_names(b);
    if names_of(a).no_duplicates() {
        names_of(a).lemma_multiset_has_no_duplicates();
        names_of(b).lemma_multiset_has_no_duplicates_conv();
    }
    if names_of(b).no_duplicates() {
        names_of(b).lemma_multiset_has_no_duplicates();
        names_of(a).lemma_multiset_has_no_duplicates_conv();
    }
}

/// The namespace that a sequence of named identifiers builds when its
/// entries are inserted from left to right: each name stands for the
/// identifier of the last entry that carries it.
pub open spec fn name_map<I>(entries: Seq<(Seq<char>, I)>) -> Map<Seq<char>, I>
    decreases entries.len(),
{
    if entries.len() == 0 {
        Map::empty()
    } else {
        name_map(entries.drop_last()).insert(entries.last().0, entries.last().1)
    }
}

/// A namespace knows exactly the names of its entries, and gives each the
/// identifier of the last entry that carries it.
pub proof fn lemma_name_map<I>(entries: Seq<(Seq<char>, I)>)
    ensures
        forall|name: Seq<char>|
            name_map(entries).contains_key(name) <==> exists|i: int|
                0 <= i < entries.len() && (#[trigger] entries[i]).0 == name,
        forall|i: int|
            0 <= i < entries.len() && (forall|k: int|
                i < k < entries.len() ==> (#[trigger] entries[k]).0 != entries[i].0)
                ==> name_map(entries)[(#[trigger] entries[i]).0] == entries[i].1,
    decreases entries.len(),
{
    if entries.len() > 0 {
        let rest = entries.drop_last();
        let last = entries.last();
        lemma_name_map(rest);
        assert(name_map(entries) == name_map(rest).insert(last.0, last.1));
        assert forall|name: Seq<char>|
            name_map(entries).contains_key(name) <==> exists|i: int|
                0 <= i < entries.len() && (#[trigger] entries[i]).0 == name by {
            if name_map(entries).contains_key(name) {
                if name == last.0 {
                    assert(entries[entries.len() - 1].0 == name);
                } else {
                    assert(name_map(rest).contains_key(name));
                    let i = choose|i: int| 0 <= i < rest.len() && (#[trigger] rest[i]).0 == name;
                    assert(entries[i] == rest[i]);
                }
            }
            if exists|i: int| 0 <= i < entries.len() && (#[trigger] entries[i]).0 == name {
                let i = choose|i: int| 0 <= i < entries.len() && (#[trigger] entries[i]).0 == name;
                if i < rest.len() {
                    assert(rest[i] == entries[i]);
                    assert(name_map(rest).contains_key(name));
                }
            }
        }
        assert forall|i: int|
            0 <= i < entries.len() && (forall|k: int|
                i < k < entries.len() ==> (#[trigger] entries[k]).0 != entries[i].0)
                implies name_map(entries)[(#[trigger] entries[i]).0] == entries[i].1 by {
            if i < rest.len() {
                assert(rest[i] == entries[i]);
                assert(entries[entries.len() - 1].0 != entries[i].0);
                assert forall|k: int| i < k < rest.len() implies (#[trigger] rest[k]).0
                    != rest[i].0 by {
                    assert(rest[k] == entries[k]);
                }
            }
        }
    }
}

/// What a namespace gives a name is the identifier of an entry with that
/// name.
pub proof fn lemma_name_map_value<I>(entries: Seq<(Seq<char>, I)>, name: Seq<char>)
    requires
        name_map(entries).contains_key(name),
    ensures
        exists|i: int|
            0 <= i < entries.len() && (#[trigger] entries[i]) == (name, name_map(entries)[name]),
    decreases entries.len(),
{
    if entries.len() > 0 {
        let rest = entries.drop_last();
        let last = entries.last();
        assert(name_map(entries) == name_map(rest).insert(last.0, last.1));
        if name == last.0 {
            assert(entries[entries.len() - 1] == (name, name_map(entries)[name]));
        } else {
            lemma_name_map_value(rest, name);
            let i = choose|i: int|
                0 <= i < rest.len() && (#[trigger] rest[i]) == (name, name_map(rest)[name]);
            assert(entries[i] == rest[i]);
        }
    }
}

/// Adding an entry to a sequence of named identifiers inserts it into the
/// namespace.
pub proof fn lemma_name_map_push<I>(entries: Seq<(Seq<char>, I)>, name: Seq<char>, id: I)
    ensures
        name_map(entries.push((name, id))) == name_map(entries).insert(name, id),
{
    assert(entries.push((name, id)).drop_last() =~= entries);
}

/// Checks that no name occurs twice in `names`, scanning from the left and
/// remembering where each name was first seen. The first name that was seen
/// before ends the check with an error that cites both places.
pub fn check_duplicate(names: Vec<Naming>) -> (r: Result<(), RlError>)
    ensures
        checked(duplicate_error(names.deep_view()), r),
{
    let ghost model = names.deep_view();
    let mut seen: StringHashMap<Option<Position>> = StringHashMap::new();
    let mut j: usize = 0;
    while j < names.len()
        invariant
            0 <= j <= names.len(),
            model == names.deep_view(),
            distinct_names(model.take(j as int)),
            forall|name: Seq<char>|
                seen@.contains_key(name) <==> exists|k: int|
                    0 <= k < j && (#[trigger] model[k]).0 == name,
            forall|k: int|
                0 <= k < j ==> seen@[(#[trigger] model[k]).0].deep_view() == model[k].1,
        decreases names.len() - j,
    {
        let entry = &names[j];
        assert(model[j as int] == entry.deep_view());
        match seen.get(entry.0.as_str()) {
            Some(first) => {
                let error = RlError::new_duplicate(
                    entry.0.as_str(),
                    first.clone(),
                    entry.1.clone(),
                );
                proof {
                    let i = choose|k: int| 0 <= k < j && (#[trigger] model[k]).0 == entry.0@;
                    assert forall|k: int| 0 <= k < i implies (#[trigger] model[k]).0
                        != model[j as int].0 by {
                        assert(model.take(j as int)[k] == model[k]);
                        assert(model.take(j as int)[i] == model[i]);
                    }
                    assert(first_clash(model, i, j as int));
                    lemma_first_clash_decides(model, i, j as int);
                }
                return Err(error);
            },
            None => {
                seen.insert(entry.0.clone(), entry.1.clone());
                proof {
                    let next = model.take(j as int + 1);
                    assert forall|a: int, b: int| 0 <= a < b < next.len() implies (
                    #[trigger] next[a]).0 != (#[trigger] next[b]).0 by {
                        assert(next[a] == model[a]);
                        assert(next[b] == model[b]);
                        if b < j {
                            assert(model.take(j as int)[a] == model[a]);
                            assert(model.take(j as int)[b] == model[b]);
                        }
                    }
                    assert forall|k: int| 0 <= k < j + 1 implies seen@[(
                    #[trigger] model[k]).0].deep_view() == model[k].1 by {
                        if k < j {
                            assert(model[k].0 != model[j as int].0);
                        }
                    }
                }
            },
        }
        j = j + 1;
    }
    proof {
        assert(model.take(j as int) =~= model);
    }
    Ok(())
}

/// The names and positions of a sequence of entities, in order.
pub open spec fn namings<I: Id, T: Named<I>>(items: Seq<T>) -> Seq<NamingView> {
    items.map_values(|x: T| (x.spec_name(), x.spec_position()))
}

/// The names of `items` with their positions, in order.
pub fn naming_all<I: Id, T: Named<I>>(items: &Vec<T>) -> (r: Vec<Naming>)
    ensures
        r.deep_view() == namings::<I, T>(items@),
{
    let mut names: Vec<Naming> = Vec::new();
    let mut i: usize = 0;
    proof {
        lemma_deep_empty(names);
    }
    while i < items.len()
        invariant
            0 <= i <= items.len(),
            names.deep_view() == namings::<I, T>(items@).take(i as int),
        decreases items.len() - i,
    {
        let entry = items[i].naming();
        let ghost before = names;
        names.push(entry);
        proof {
            lemma_deep_push(before, names, entry);
            assert(namings::<I, T>(items@).take(i as int).push(entry.deep_view()) =~= namings::<
                I,
                T,
            >(items@).take(i as int + 1));
        }
        i = i + 1;
    }
    proof {
        assert(namings::<I, T>(items@).take(i as int) =~= namings::<I, T>(items@));
    }
    names
}

/// The names and identifiers of a sequence of entities, in order.
pub open spec fn entries_of<I: Id, T: Named<I>>(items: Seq<T>) -> Seq<(Seq<char>, I)> {
    items.map_values(|x: T| (x.spec_name(), x.spec_id()))
}

/// The namespace of `items`: each name with the identifier of the last
/// entity that carries it.
pub fn name_map_all<I: Id, T: Named<I>>(items: &Vec<T>) -> (r: StringHashMap<I>)
    ensures
        r@ == name_map(entries_of::<I, T>(items@)),
{
    let ghost entries = entries_of::<I, T>(items@);
    let mut map: StringHashMap<I> = StringHashMap::new();
    let mut i: usize = 0;
    while i < items.len()
        invariant
            0 <= i <= items.len(),
            entries == entries_of::<I, T>(items@),
            map@ == name_map(entries.take(i as int)),
        decreases items.len() - i,
    {
        let item = &items[i];
        proof {
            lemma_name_map_push(entries.take(i as int), item.spec_name(), item.spec_id());
            assert(entries.take(i as int).push((item.spec_name(), item.spec_id()))
                =~= entries.take(i as int + 1));
        }
        map.insert(String::from_str(item.name()), item.id());
        i = i + 1;
    }
    proof {
        assert(entries.take(i as int) =~= entries);
    }
    map
}

/// The namespace that holds the entries of `globals` followed by those of
/// `locals`.
pub fn merge_naming(globals: &Vec<Naming>, locals: Vec<Naming>) -> (r: Vec<Naming>)
    ensures
        r.deep_view() == globals.deep_view() + locals.deep_view(),
{
    let mut merged: Vec<Naming> = Vec::new();
    let mut i: usize = 0;
    proof {
        lemma_deep_empty(merged);
    }
    while i < globals.len()
        invariant
            0 <= i <= globals.len(),
            merged.deep_view() =~= globals.deep_view().take(i as int),
        decreases globals.len() - i,
    {
        let entry = &globals[i];
        let copy: Naming = (entry.0.clone(), entry.1.clone());
        let ghost before = merged;
        merged.push(copy);
        proof {
            lemma_deep_push(before, merged, copy);
            lemma_deep_index(*globals, i as int);
        }
        i = i + 1;
    }
    let ghost before = merged;
    let ghost added = locals;
    let mut locals = locals;
    merged.append(&mut locals);
    proof {
        lemma_deep_append(before, added, merged);
        assert(globals.deep_view().take(i as int) =~= globals.deep_view());
    }
    merged
}

} // verus!
