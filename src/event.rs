use vstd::prelude::*;

verus! {

/// Handle of one registration with an [`Event`]. Handing it back to
/// [`Event::unsubscribe`] ends the registration.
#[derive(Clone, Copy, PartialEq, Eq, Structural, Debug)]
pub struct Subscription {
    id: u64,
}

impl Subscription {
    /// The stable identity of the registration.
    pub closed spec fn id_spec(&self) -> u64 {
        self.id
    }

    /// The handle of the registration known as `id`.
    pub(crate) fn from_id(id: u64) -> (r: Self)
        ensures
            r.id_spec() == id,
    {
        Subscription { id }
    }

    pub fn id(&self) -> (r: u64)
        ensures
            r == self.id_spec(),
    {
        self.id
    }
}

/// A multicast notification channel: the ordered set of live registrations.
/// Delivery order is registration order.
pub struct Event {
    listeners: Vec<u64>,
    next_id: u64,
}

impl Event {
    /// The identities of the live registrations, oldest first.
    pub closed spec fn listeners(&self) -> Seq<u64> {
        self.listeners@
    }

    /// Identities are never reused and the live ones are distinct.
    pub closed spec fn wf(&self) -> bool {
        &&& forall|i: int, j: int|
            0 <= i < j < self.listeners@.len() ==> self.listeners@[i] != self.listeners@[j]
        &&& forall|i: int| 0 <= i < self.listeners@.len() ==> self.listeners@[i] < self.next_id
    }

    /// Whether `id` was ever handed out by this event.
    pub closed spec fn issued(&self, id: u64) -> bool {
        id < self.next_id
    }

    /// Whether another registration can still be handed out.
    pub closed spec fn can_subscribe(&self) -> bool {
        self.next_id < u64::MAX
    }

    pub fn new() -> (r: Self)
        ensures
            r.wf(),
            r.listeners() == Seq::<u64>::empty(),
            r.can_subscribe(),
            forall|id: u64| !#[trigger] r.issued(id),
    {
        Event { listeners: Vec::new(), next_id: 0 }
    }

    /// Registers a new listener after all live ones.
    pub fn subscribe(&mut self) -> (s: Subscription)
        requires
            old(self).wf(),
            old(self).can_subscribe(),
        ensures
            final(self).wf(),
            !old(self).issued(s.id_spec()),
            forall|id: u64| #[trigger] final(self).issued(id) == (old(self).issued(id) || id == s.id_spec()),
            !old(self).listeners().contains(s.id_spec()),
            final(self).listeners() == old(self).listeners().push(s.id_spec()),
    {
        let id = self.next_id;
        self.listeners.push(id);
        self.next_id = id + 1;
        Subscription { id }
    }

    /// Whether `s` is still registered.
    pub fn is_subscribed(&self, s: &Subscription) -> (r: bool)
        ensures
            r == self.listeners().contains(s.id_spec()),
    {
        let mut i: usize = 0;
        while i < self.listeners.len()
            invariant
                i <= self.listeners@.len(),
                forall|j: int| 0 <= j < i ==> self.listeners@[j] != s.id,
            decreases self.listeners@.len() - i,
        {
            if self.listeners[i] == s.id {
                return true;
            }
            i += 1;
        }
        false
    }

    /// Ends the registration `s`; the other registrations keep their order.
    /// Ending one that is no longer live changes nothing.
    pub fn unsubscribe(&mut self, s: Subscription)
        requires
            old(self).wf(),
        ensures
            final(self).wf(),
            final(self).can_subscribe() == old(self).can_subscribe(),
            forall|id: u64| #[trigger] final(self).issued(id) == old(self).issued(id),
            !final(self).listeners().contains(s.id_spec()),
            old(self).listeners().contains(s.id_spec()) ==> exists|i: int|
                0 <= i < old(self).listeners().len() && old(self).listeners()[i] == s.id_spec()
                    && final(self).listeners() == old(self).listeners().remove(i),
            !old(self).listeners().contains(s.id_spec()) ==> final(self).listeners()
                == old(self).listeners(),
    {
        let mut i: usize = 0;
        while i < self.listeners.len()
            invariant
                i <= self.listeners@.len(),
                self.listeners@ == old(self).listeners@,
                self.next_id == old(self).next_id,
                self.wf(),
                forall|j: int| 0 <= j < i ==> self.listeners@[j] != s.id,
            decreases self.listeners@.len() - i,
        {
            if self.listeners[i] == s.id {
                let ghost before = self.listeners@;
                self.listeners.remove(i);
                assert forall|j: int| 0 <= j < self.listeners@.len() implies self.listeners@[j]
                    != s.id by {
                    if j < i {
                    } else {
                        assert(before[j + 1] == self.listeners@[j]);
                    }
                }
                return;
            }
            i += 1;
        }
    }

    /// The registrations to notify of one emitted value, in delivery order.
    pub fn emit(&self) -> (r: Vec<Subscription>)
        ensures
            r@.len() == self.listeners().len(),
            forall|i: int| 0 <= i < r@.len() ==> r@[i].id_spec() == self.listeners()[i],
    {
        let mut r: Vec<Subscription> = Vec::new();
        let mut i: usize = 0;
        while i < self.listeners.len()
            invariant
                i <= self.listeners@.len(),
                r@.len() == i,
                forall|j: int| 0 <= j < i ==> r@[j].id == self.listeners@[j],
            decreases self.listeners@.len() - i,
        {
            r.push(Subscription { id: self.listeners[i] });
            i += 1;
        }
        r
    }
}

/// A registration that was ended stays ended: a later registration never
/// brings it back, so no later emission reaches it.
pub proof fn lemma_ended_registration_stays_silent(before: Event, after: Event, ended: u64, added: u64)
    requires
        before.issued(ended),
        !before.listeners().contains(ended),
        !before.issued(added),
        after.listeners() == before.listeners().push(added),
    ensures
        !after.listeners().contains(ended),
{
    assert(ended != added);
    if after.listeners().contains(ended) {
        let i = choose|i: int| 0 <= i < after.listeners().len() && after.listeners()[i] == ended;
        assert(before.listeners()[i] == ended);
    }
}

} // verus!
