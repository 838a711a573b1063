use vstd::prelude::*;

use crate::collection::ObservableCollection;
use crate::event::{Event, Subscription};
use crate::vec_diff::{apply_diff, diff_fits, VecDiff};

verus! {

/// A plain owned sequence that reports each of its changes as one
/// [`VecDiff`], to the registrations of its change event.
pub struct ObservableVec<T> {
    items: Vec<T>,
    changed_event: Event,
}

impl<T: Copy> ObservableVec<T> {
    pub closed spec fn view(&self) -> Seq<T> {
        self.items@
    }

    /// The registrations for change notifications, oldest first.
    pub closed spec fn listeners(&self) -> Seq<u64> {
        self.changed_event.listeners()
    }

    pub closed spec fn wf(&self) -> bool {
        self.changed_event.wf()
    }

    /// Whether one more change registration can be handed out.
    pub closed spec fn can_subscribe(&self) -> bool {
        self.changed_event.can_subscribe()
    }

    pub fn new() -> (r: Self)
        ensures
            r.wf(),
            r.can_subscribe(),
            r.view() == Seq::<T>::empty(),
            r.listeners() == Seq::<u64>::empty(),
    {
        ObservableVec { items: Vec::new(), changed_event: Event::new() }
    }

    /// A collection that starts with `items`.
    pub fn from_vec(items: Vec<T>) -> (r: Self)
        ensures
            r.wf(),
            r.can_subscribe(),
            r.view() == items@,
            r.listeners() == Seq::<u64>::empty(),
    {
        ObservableVec { items, changed_event: Event::new() }
    }

    /// The element at `index`.
    pub fn item(&self, index: usize) -> (r: T)
        requires
            index < self.view().len(),
        ensures
            r == self.view()[index as int],
    {
        self.items[index]
    }

    /// Appends `value`; returns the change reported.
    pub fn push(&mut self, value: T) -> (d: VecDiff<T>)
        ensures
            final(self).wf() == old(self).wf(),
            final(self).listeners() == old(self).listeners(),
            final(self).can_subscribe() == old(self).can_subscribe(),
            final(self).view() == old(self).view().push(value),
            d == (VecDiff::InsertAt { index: old(self).view().len() as usize, value }),
            diff_fits(old(self).view().len(), d),
            apply_diff(old(self).view(), d) == final(self).view(),
    {
        let index = self.items.len();
        self.items.push(value);
        proof {
            assert(old(self).view().insert(index as int, value) =~= self.items@);
        }
        VecDiff::InsertAt { index, value }
    }

    /// Inserts `value` at `index`; returns the change reported.
    pub fn insert(&mut self, index: usize, value: T) -> (d: VecDiff<T>)
        requires
            index <= old(self).view().len(),
        ensures
            final(self).wf() == old(self).wf(),
            final(self).listeners() == old(self).listeners(),
            final(self).can_subscribe() == old(self).can_subscribe(),
            final(self).view() == old(self).view().insert(index as int, value),
            d == (VecDiff::InsertAt { index, value }),
            apply_diff(old(self).view(), d) == final(self).view(),
    {
        self.items.insert(index, value);
        VecDiff::InsertAt { index, value }
    }

    /// Removes the element at `index`; returns the change reported.
    pub fn remove(&mut self, index: usize) -> (d: VecDiff<T>)
        requires
            index < old(self).view().len(),
        ensures
            final(self).wf() == old(self).wf(),
            final(self).listeners() == old(self).listeners(),
            final(self).can_subscribe() == old(self).can_subscribe(),
            final(self).view() == old(self).view().remove(index as int),
            d == (VecDiff::<T>::RemoveAt { index }),
            apply_diff(old(self).view(), d) == final(self).view(),
    {
        self.items.remove(index);
        VecDiff::RemoveAt { index }
    }

    /// Removes every element; returns the change reported.
    pub fn clear(&mut self) -> (d: VecDiff<T>)
        ensures
            final(self).wf() == old(self).wf(),
            final(self).listeners() == old(self).listeners(),
            final(self).can_subscribe() == old(self).can_subscribe(),
            final(self).view() == Seq::<T>::empty(),
            d == VecDiff::<T>::Clear,
            apply_diff(old(self).view(), d) == final(self).view(),
    {
        self.items.clear();
        VecDiff::Clear
    }

    /// Takes over one change reported by another collection, as a mirror of
    /// it does.
    pub fn apply(&mut self, d: VecDiff<T>)
        requires
            diff_fits(old(self).view().len(), d),
        ensures
            final(self).wf() == old(self).wf(),
            final(self).listeners() == old(self).listeners(),
            final(self).can_subscribe() == old(self).can_subscribe(),
            final(self).view() == apply_diff(old(self).view(), d),
    {
        match d {
            VecDiff::Clear => {
                self.items.clear();
            },
            VecDiff::InsertAt { index, value } => {
                self.items.insert(index, value);
            },
            VecDiff::RemoveAt { index } => {
                self.items.remove(index);
            },
        }
    }

    /// Registers for change notifications. A vector can always change, so
    /// the result is never `None`.
    pub fn on_changed(&mut self) -> (r: Option<Subscription>)
        requires
            old(self).wf(),
            old(self).can_subscribe(),
        ensures
            final(self).wf(),
            final(self).view() == old(self).view(),
            r matches Some(s) && !old(self).listeners().contains(s.id_spec())
                && final(self).listeners() == old(self).listeners().push(s.id_spec()),
    {
        Some(self.changed_event.subscribe())
    }

    /// Ends the registration `s`.
    pub fn unsubscribe(&mut self, s: Subscription)
        requires
            old(self).wf(),
        ensures
            final(self).wf(),
            final(self).view() == old(self).view(),
            !final(self).listeners().contains(s.id_spec()),
            old(self).listeners().contains(s.id_spec()) ==> exists|i: int|
                0 <= i < old(self).listeners().len() && old(self).listeners()[i] == s.id_spec()
                    && final(self).listeners() == old(self).listeners().remove(i),
            !old(self).listeners().contains(s.id_spec()) ==> final(self).listeners()
                == old(self).listeners(),
    {
        self.changed_event.unsubscribe(s);
    }

    /// The registrations to notify of each change, in delivery order.
    pub fn subscribers(&self) -> (r: Vec<Subscription>)
        ensures
            r@.len() == self.listeners().len(),
            forall|i: int| 0 <= i < r@.len() ==> r@[i].id_spec() == self.listeners()[i],
    {
        self.changed_event.emit()
    }
}

impl<T: Copy> ObservableCollection<T> for ObservableVec<T> {
    open spec fn items(&self) -> Seq<T> {
        self.view()
    }

    fn len(&self) -> (r: usize) {
        self.items.len()
    }

    fn get(&self, index: usize) -> (r: Option<T>) {
        if index < self.items.len() {
            Some(self.items[index])
        } else {
            None
        }
    }
}

} // verus!
