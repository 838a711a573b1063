use vstd::prelude::*;

verus! {

/// One structural change of an ordered collection.
#[derive(Clone, PartialEq, Eq, Debug)]
pub enum VecDiff<T> {
    /// The collection became empty.
    Clear,
    /// `value` now stands at `index`; the elements from `index` on moved right by one.
    InsertAt { index: usize, value: T },
    /// The element at `index` is gone; the elements after it moved left by one.
    RemoveAt { index: usize },
}

/// Whether `d` can be applied to a collection of `len` elements.
pub open spec fn diff_fits<T>(len: nat, d: VecDiff<T>) -> bool {
    match d {
        VecDiff::Clear => true,
        VecDiff::InsertAt { index, .. } => index <= len,
        VecDiff::RemoveAt { index } => index < len,
    }
}

/// The collection `s` after the change `d`.
pub open spec fn apply_diff<T>(s: Seq<T>, d: VecDiff<T>) -> Seq<T> {
    match d {
        VecDiff::Clear => Seq::empty(),
        VecDiff::InsertAt { index, value } => s.insert(index as int, value),
        VecDiff::RemoveAt { index } => s.remove(index as int),
    }
}

/// Whether the changes `ds`, applied one after another from `s`, each fit the
/// collection as it stands when the change is applied.
pub open spec fn diffs_fit<T>(s: Seq<T>, ds: Seq<VecDiff<T>>) -> bool
    decreases ds.len(),
{
    if ds.len() == 0 {
        true
    } else {
        diffs_fit(s, ds.drop_last()) && diff_fits(apply_diffs(s, ds.drop_last()).len(), ds.last())
    }
}

/// The collection `s` after the changes `ds`, applied in order.
pub open spec fn apply_diffs<T>(s: Seq<T>, ds: Seq<VecDiff<T>>) -> Seq<T>
    decreases ds.len(),
{
    if ds.len() == 0 {
        s
    } else {
        apply_diff(apply_diffs(s, ds.drop_last()), ds.last())
    }
}

/// Appending one change to a replayed sequence of changes applies it last.
pub proof fn lemma_apply_diffs_push<T>(s: Seq<T>, ds: Seq<VecDiff<T>>, d: VecDiff<T>)
    ensures
        apply_diffs(s, ds.push(d)) == apply_diff(apply_diffs(s, ds), d),
        diffs_fit(s, ds.push(d)) == (diffs_fit(s, ds) && diff_fits(apply_diffs(s, ds).len(), d)),
{
    assert(ds.push(d).drop_last() =~= ds);
}

} // verus!
