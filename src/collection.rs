use vstd::prelude::*;

verus! {

/// Read access to an ordered collection whose changes are reported as
/// [`VecDiff`](crate::vec_diff::VecDiff)s.
pub trait ObservableCollection<T> {
    /// The elements, in order.
    spec fn items(&self) -> Seq<T>;

    fn len(&self) -> (r: usize)
        ensures
            r == self.items().len(),
    ;

    fn get(&self, index: usize) -> (r: Option<T>)
        ensures
            index < self.items().len() ==> r == Some(self.items()[index as int]),
            index >= self.items().len() ==> r is None,
    ;
}

} // verus!
