//! Facts about the deep views of vectors, and about sequences of outcomes.

use vstd::prelude::*;

verus! {

/// Pushing onto a vector pushes the element's view onto the vector's view.
pub proof fn lemma_deep_push<T: DeepView>(before: Vec<T>, after: Vec<T>, x: T)
    requires
        after@ == before@.push(x),
    ensures
        after.deep_view() == before.deep_view().push(x.deep_view()),
{
    assert(after.deep_view() =~= before.deep_view().push(x.deep_view()));
}

/// Appending vectors appends their views.
pub proof fn lemma_deep_append<T: DeepView>(a: Vec<T>, b: Vec<T>, after: Vec<T>)
    requires
        after@ == a@ + b@,
    ensures
        after.deep_view() == a.deep_view() + b.deep_view(),
{
    assert(after.deep_view() =~= a.deep_view() + b.deep_view());
}

/// The view of an element is the element of the view.
pub proof fn lemma_deep_index<T: DeepView>(v: Vec<T>, i: int)
    requires
        0 <= i < v@.len(),
    ensures
        v.deep_view().len() == v@.len(),
        v.deep_view()[i] == v@[i].deep_view(),
{
}

/// An empty vector has an empty view.
pub proof fn lemma_deep_empty<T: DeepView>(v: Vec<T>)
    requires
        v@.len() == 0,
    ensures
        v.deep_view() == Seq::<T::V>::empty(),
{
    assert(v.deep_view() =~= Seq::<T::V>::empty());
}

/// The blocks laid one behind the other.
pub open spec fn concat<T>(blocks: Seq<Seq<T>>) -> Seq<T>
    decreases blocks.len(),
{
    if blocks.len() == 0 {
        Seq::empty()
    } else {
        concat(blocks.drop_last()) + blocks.last()
    }
}

/// Where element `i` of block `a` stands once the blocks are laid one behind
/// the other.
pub open spec fn slot<T>(blocks: Seq<Seq<T>>, a: int, i: int) -> int {
    concat(blocks.take(a)).len() + i
}

/// One more block is laid behind those before it.
pub proof fn lemma_concat_take<T>(blocks: Seq<Seq<T>>, m: int)
    requires
        0 <= m < blocks.len(),
    ensures
        concat(blocks.take(m + 1)) == concat(blocks.take(m)) + blocks[m],
{
    assert(blocks.take(m + 1).drop_last() =~= blocks.take(m));
}

/// What the first `m` blocks hold stands first in what the first `n` hold.
pub proof fn lemma_concat_prefix<T>(blocks: Seq<Seq<T>>, m: int, n: int)
    requires
        0 <= m <= n <= blocks.len(),
    ensures
        concat(blocks.take(m)).len() <= concat(blocks.take(n)).len(),
        forall|k: int|
            0 <= k < concat(blocks.take(m)).len() ==> #[trigger] concat(blocks.take(n))[k]
                == concat(blocks.take(m))[k],
    decreases n - m,
{
    if m < n {
        lemma_concat_prefix(blocks, m, n - 1);
        lemma_concat_take(blocks, n - 1);
    }
}

/// Every element of every block stands in its slot.
pub proof fn lemma_concat_slot<T>(blocks: Seq<Seq<T>>, a: int, i: int)
    requires
        0 <= a < blocks.len(),
        0 <= i < blocks[a].len(),
    ensures
        0 <= slot(blocks, a, i) < concat(blocks).len(),
        concat(blocks)[slot(blocks, a, i)] == blocks[a][i],
{
    lemma_concat_take(blocks, a);
    lemma_concat_prefix(blocks, a + 1, blocks.len() as int);
    assert(blocks.take(blocks.len() as int) =~= blocks);
}

/// The slots of an earlier block come before those of a later one.
pub proof fn lemma_concat_slots_ordered<T>(blocks: Seq<Seq<T>>, a: int, i: int, b: int, j: int)
    requires
        0 <= a < b < blocks.len(),
        0 <= i < blocks[a].len(),
        0 <= j,
    ensures
        slot(blocks, a, i) < slot(blocks, b, j),
{
    lemma_concat_take(blocks, a);
    lemma_concat_prefix(blocks, a + 1, b);
}

/// Every slot belongs to an element of a block.
pub proof fn lemma_concat_from<T>(blocks: Seq<Seq<T>>, k: int) -> (place: (int, int))
    requires
        0 <= k < concat(blocks).len(),
    ensures
        0 <= place.0 < blocks.len(),
        0 <= place.1 < blocks[place.0].len(),
        slot(blocks, place.0, place.1) == k,
        concat(blocks)[k] == blocks[place.0][place.1],
    decreases blocks.len(),
{
    let rest = blocks.drop_last();
    let n = blocks.len() as int;
    if k >= concat(rest).len() {
        assert(blocks.take(n - 1) =~= rest);
        (n - 1, k - concat(rest).len())
    } else {
        let place = lemma_concat_from(rest, k);
        assert(rest.take(place.0) =~= blocks.take(place.0));
        place
    }
}

/// Every outcome is a success.
pub open spec fn all_ok<T, E>(outcomes: Seq<Result<T, E>>) -> bool {
    forall|i: int| 0 <= i < outcomes.len() ==> (#[trigger] outcomes[i]) is Ok
}

/// Outcome `i` is the first failure.
pub open spec fn first_failure<T, E>(outcomes: Seq<Result<T, E>>, i: int) -> bool {
    &&& 0 <= i < outcomes.len()
    &&& outcomes[i] is Err
    &&& forall|k: int| 0 <= k < i ==> (#[trigger] outcomes[k]) is Ok
}

/// The outcome of a run of steps that stops at the first failure: the values
/// of all steps when every step succeeds, else the error of the first step
/// that fails.
pub open spec fn sequence<T, E>(outcomes: Seq<Result<T, E>>) -> Result<Seq<T>, E> {
    if all_ok(outcomes) {
        Ok(Seq::new(outcomes.len(), |i: int| outcomes[i]->Ok_0))
    } else {
        Err(outcomes[choose|i: int| first_failure(outcomes, i)]->Err_0)
    }
}

/// The first failure decides the outcome of the run.
pub proof fn lemma_sequence_fails<T, E>(outcomes: Seq<Result<T, E>>, i: int)
    requires
        first_failure(outcomes, i),
    ensures
        sequence(outcomes) == Err::<Seq<T>, E>(outcomes[i]->Err_0),
{
    let k = choose|k: int| first_failure(outcomes, k);
    assert(k == i) by {
        if k < i {
            assert(outcomes[k] is Ok);
        }
        if i < k {
            assert(outcomes[i] is Ok);
        }
    }
}

/// Before any step that fails stands a first one that does, and it decides
/// the outcome of the run.
pub proof fn lemma_first_failure_exists<T, E>(outcomes: Seq<Result<T, E>>, i: int) -> (k: int)
    requires
        0 <= i < outcomes.len(),
        outcomes[i] is Err,
    ensures
        first_failure(outcomes, k),
        k <= i,
        sequence(outcomes) == Err::<Seq<T>, E>(outcomes[k]->Err_0),
    decreases i,
{
    if forall|j: int| 0 <= j < i ==> (#[trigger] outcomes[j]) is Ok {
        lemma_sequence_fails(outcomes, i);
        i
    } else {
        let j = choose|j: int| 0 <= j < i && (#[trigger] outcomes[j]) is Err;
        lemma_first_failure_exists(outcomes, j)
    }
}

/// A run in which every step succeeds yields the steps' values.
pub proof fn lemma_sequence_succeeds<T, E>(outcomes: Seq<Result<T, E>>, values: Seq<T>)
    requires
        values.len() == outcomes.len(),
        forall|i: int| 0 <= i < outcomes.len() ==> #[trigger] outcomes[i] == Ok::<T, E>(values[i]),
    ensures
        sequence(outcomes) == Ok::<Seq<T>, E>(values),
{
    assert(all_ok(outcomes));
    assert(Seq::new(outcomes.len(), |i: int| outcomes[i]->Ok_0) =~= values);
}

/// Every check passes.
pub open spec fn all_pass<E>(checks: Seq<Option<E>>) -> bool {
    forall|i: int| 0 <= i < checks.len() ==> (#[trigger] checks[i]) is None
}

/// Check `i` is the first that reports an error.
pub open spec fn first_report<E>(checks: Seq<Option<E>>, i: int) -> bool {
    &&& 0 <= i < checks.len()
    &&& checks[i] is Some
    &&& forall|k: int| 0 <= k < i ==> (#[trigger] checks[k]) is None
}

/// The outcome of a run of checks that stops at the first error: the error
/// of the first check that reports one, if any does.
pub open spec fn first_error<E>(checks: Seq<Option<E>>) -> Option<E> {
    if all_pass(checks) {
        None
    } else {
        checks[choose|i: int| first_report(checks, i)]
    }
}

/// The first check that reports an error decides the outcome of the run.
pub proof fn lemma_first_error<E>(checks: Seq<Option<E>>, i: int)
    requires
        first_report(checks, i),
    ensures
        first_error(checks) == checks[i],
{
    let k = choose|k: int| first_report(checks, k);
    assert(k == i) by {
        if k < i {
            assert(checks[k] is None);
        }
        if i < k {
            assert(checks[i] is None);
        }
    }
}

/// Before any check that reports an error stands a first one that does, and
/// it decides the outcome of the run.
pub proof fn lemma_first_report_exists<E>(checks: Seq<Option<E>>, i: int) -> (k: int)
    requires
        0 <= i < checks.len(),
        checks[i] is Some,
    ensures
        first_report(checks, k),
        k <= i,
        first_error(checks) == checks[k],
    decreases i,
{
    if forall|j: int| 0 <= j < i ==> (#[trigger] checks[j]) is None {
        lemma_first_error(checks, i);
        i
    } else {
        let j = choose|j: int| 0 <= j < i && (#[trigger] checks[j]) is Some;
        lemma_first_report_exists(checks, j)
    }
}

} // verus!
