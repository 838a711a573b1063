use vstd::prelude::*;

use crate::event::{Event, Subscription};

verus! {

/// One one-way binding: whenever `source` changes, its value is copied into
/// `target`.
#[derive(Clone, Copy)]
struct Binding {
    id: u64,
    source: usize,
    target: usize,
}

/// A set of properties, each holding one value, and the bindings between
/// them. A property is addressed by the index that [`PropertyGraph::add`]
/// returned; two bindings in opposite directions bind two properties both
/// ways.
pub struct PropertyGraph<T> {
    values: Vec<T>,
    events: Vec<Event>,
    bindings: Vec<Binding>,
    next_id: u64,
}

/// `order` lists distinct indices below `n`.
pub open spec fn distinct_below(order: Seq<usize>, n: nat) -> bool {
    &&& order.no_duplicates()
    &&& forall|k: int| 0 <= k < order.len() ==> order[k] < n
}

proof fn lemma_distinct_below_len(order: Seq<usize>, n: nat)
    requires
        distinct_below(order, n),
    ensures
        order.len() <= n,
{
    let ints = order.map_values(|x: usize| x as int);
    assert(ints.no_duplicates()) by {
        assert forall|i: int, j: int| 0 <= i < ints.len() && 0 <= j < ints.len() && i != j implies ints[i]
            != ints[j] by {
            assert(order[i] != order[j]);
        }
    }
    ints.unique_seq_to_set();
    vstd::set_lib::lemma_int_range(0, n as int);
    assert(ints.to_set().subset_of(vstd::set_lib::set_int_range(0, n as int))) by {
        assert forall|x: int| ints.to_set().contains(x) implies vstd::set_lib::set_int_range(
            0,
            n as int,
        ).contains(x) by {
            let k = choose|k: int| 0 <= k < ints.len() && ints[k] == x;
            assert(order[k] < n);
        }
    }
    vstd::set_lib::lemma_len_subset(ints.to_set(), vstd::set_lib::set_int_range(0, n as int));
}

impl<T: Copy> PropertyGraph<T> {
    /// The value of each property.
    pub closed spec fn values(&self) -> Seq<T> {
        self.values@
    }

    /// Whether a live binding copies `source` into `target`.
    pub closed spec fn bound(&self, source: int, target: int) -> bool {
        exists|b: int|
            #![trigger self.bindings@[b]]
            0 <= b < self.bindings@.len() && self.bindings@[b].source == source
                && self.bindings@[b].target == target
    }

    /// Whether the live binding with identity `id` copies `source` into `target`.
    pub closed spec fn bound_by(&self, id: u64, source: int, target: int) -> bool {
        exists|b: int|
            #![trigger self.bindings@[b]]
            0 <= b < self.bindings@.len() && self.bindings@[b].id == id && self.bindings@[b].source
                == source && self.bindings@[b].target == target
    }

    /// The identities of the live bindings, oldest first.
    pub closed spec fn binding_ids(&self) -> Seq<u64> {
        Seq::new(self.bindings@.len(), |b: int| self.bindings@[b].id)
    }

    /// The registrations for change notifications of property `p`.
    pub closed spec fn listeners(&self, p: int) -> Seq<u64> {
        self.events@[p].listeners()
    }

    /// Whether one more change registration of `p` can be handed out.
    pub closed spec fn can_listen(&self, p: int) -> bool {
        self.events@[p].can_subscribe()
    }

    pub closed spec fn wf(&self) -> bool {
        &&& self.events@.len() == self.values@.len()
        &&& forall|i: int| 0 <= i < self.events@.len() ==> #[trigger] self.events@[i].wf()
        &&& forall|b: int|
            0 <= b < self.bindings@.len() ==> #[trigger] self.bindings@[b].source
                < self.values@.len() && self.bindings@[b].target < self.values@.len()
        &&& forall|b: int| 0 <= b < self.bindings@.len() ==> #[trigger] self.bindings@[b].id < self.next_id
        &&& forall|a: int, b: int|
            0 <= a < b < self.bindings@.len() ==> self.bindings@[a].id != self.bindings@[b].id
    }

    /// How many more bindings can be given an identity.
    pub closed spec fn bindings_left(&self) -> int {
        u64::MAX - self.next_id
    }

    /// Whether one more binding can be given an identity.
    pub open spec fn can_bind(&self) -> bool {
        self.bindings_left() > 0
    }

    /// `after` is this graph once `p` was set to `v`: the change went to
    /// every property reachable from `p` over bindings, each reached once, in
    /// the order `order`; no other property changed.
    pub open spec fn set_outcome(self, p: int, v: T, after: Self, order: Seq<usize>) -> bool {
        &&& after.wf()
        &&& after.values().len() == self.values().len()
        &&& forall|s: int, t: int| #[trigger] after.bound(s, t) == self.bound(s, t)
        &&& after.binding_ids() == self.binding_ids()
        &&& after.bindings_left() == self.bindings_left()
        &&& forall|q: int| #[trigger] after.listeners(q) == self.listeners(q)
        &&& forall|q: int| #[trigger] after.can_listen(q) == self.can_listen(q)
        &&& distinct_below(order, self.values().len())
        &&& order.len() >= 1 && order[0] == p
        &&& forall|q: int|
            0 <= q < self.values().len() ==> #[trigger] after.values()[q] == if order.contains(
                q as usize,
            ) {
                v
            } else {
                self.values()[q]
            }
        &&& forall|s: int, t: int|
            #[trigger] self.bound(s, t) && order.contains(s as usize) ==> order.contains(t as usize)
        &&& forall|k: int| 1 <= k < order.len() ==> #[trigger] self.reached_earlier(order, k)
    }

    /// Some property listed before `order[k]` is bound to pass its value on to it.
    pub open spec fn reached_earlier(self, order: Seq<usize>, k: int) -> bool {
        exists|j: int| 0 <= j < k && #[trigger] self.bound(order[j] as int, order[k] as int)
    }

    /// The values stay; only the bindings are those of `other`.
    proof fn lemma_same_bindings(&self, other: &Self)
        requires
            self.bindings@ == other.bindings@,
        ensures
            forall|s: int, t: int| #[trigger] self.bound(s, t) == other.bound(s, t),
            forall|id: u64, s: int, t: int| #[trigger] self.bound_by(id, s, t) == other.bound_by(id, s, t),
            self.binding_ids() == other.binding_ids(),
    {
        assert(self.binding_ids() =~= other.binding_ids());
    }

    /// Sets `p` to `value` and passes the value on over the bindings, to each
    /// property reachable from `p` once. Returns the properties that changed,
    /// in the order they changed; each fires its own change once. A cycle of
    /// bindings, two properties bound both ways included, ends there: no
    /// property is set twice.
    pub fn set(&mut self, p: usize, value: T) -> (order: Vec<usize>)
        requires
            old(self).wf(),
            p < old(self).values().len(),
        ensures
            old(self).set_outcome(p as int, value, *final(self), order@),
    {
        let ghost g0 = *self;
        let n = self.values.len();
        let mut visited: Vec<bool> = Vec::new();
        let mut q: usize = 0;
        while q < n
            invariant
                q <= n,
                visited@.len() == q,
                forall|k: int| 0 <= k < q ==> !visited@[k],
            decreases n - q,
        {
            visited.push(false);
            q += 1;
        }
        self.values.set(p, value);
        visited.set(p, true);
        let mut order: Vec<usize> = Vec::new();
        order.push(p);
        proof {
            assert forall|k: int| 0 <= k < n implies visited@[k] == order@.contains(k as usize) by {
                if visited@[k] {
                    assert(order@[0] == k);
                }
            }
        }
        let mut i: usize = 0;
        while i < order.len()
            invariant
                n == self.values@.len(),
                n == old(self).values@.len(),
                n == visited@.len(),
                self.bindings@ == old(self).bindings@,
                self.events@ == old(self).events@,
                self.next_id == old(self).next_id,
                old(self).wf(),
                g0 == *old(self),
                i <= order@.len(),
                order@.len() <= n,
                distinct_below(order@, n as nat),
                order@.len() >= 1,
                order@[0] == p,
                forall|k: int| 0 <= k < n ==> #[trigger] visited@[k] == order@.contains(k as usize),
                forall|k: int|
                    0 <= k < n ==> #[trigger] self.values@[k] == if visited@[k] {
                        value
                    } else {
                        old(self).values@[k]
                    },
                forall|j: int, b: int|
                    0 <= j < i && 0 <= b < self.bindings@.len() && self.bindings@[b].source
                        == order@[j] ==> visited@[self.bindings@[b].target as int],
                forall|k: int| 1 <= k < order@.len() ==> #[trigger] g0.reached_earlier(order@, k),
            decreases n - i,
        {
            let s = order[i];
            let mut b: usize = 0;
            while b < self.bindings.len()
                invariant
                    n == self.values@.len(),
                    n == old(self).values@.len(),
                    n == visited@.len(),
                    self.bindings@ == old(self).bindings@,
                    self.events@ == old(self).events@,
                    self.next_id == old(self).next_id,
                    old(self).wf(),
                    g0 == *old(self),
                    i < order@.len(),
                    order@[i as int] == s,
                    b <= self.bindings@.len(),
                    order@.len() <= n,
                    distinct_below(order@, n as nat),
                    order@.len() >= 1,
                    order@[0] == p,
                    forall|k: int| 0 <= k < n ==> #[trigger] visited@[k] == order@.contains(k as usize),
                    forall|k: int|
                        0 <= k < n ==> #[trigger] self.values@[k] == if visited@[k] {
                            value
                        } else {
                            old(self).values@[k]
                        },
                    forall|j: int, c: int|
                        0 <= j < i && 0 <= c < self.bindings@.len() && self.bindings@[c].source
                            == order@[j] ==> visited@[self.bindings@[c].target as int],
                    forall|c: int|
                        0 <= c < b && self.bindings@[c].source == s ==> visited@[self.bindings@[c].target as int],
                    forall|k: int| 1 <= k < order@.len() ==> #[trigger] g0.reached_earlier(order@, k),
                decreases self.bindings@.len() - b,
            {
                let bd = self.bindings[b];
                if bd.source == s && !visited[bd.target] {
                    let ghost before = order@;
                    let ghost before_visited = visited@;
                    proof {
                        assert(old(self).bindings@[b as int].target < n);
                        assert(!before.contains(bd.target));
                        assert(distinct_below(before.push(bd.target), n as nat)) by {
                            assert forall|x: int, y: int|
                                0 <= x < before.len() + 1 && 0 <= y < before.len() + 1 && x != y implies before.push(
                                    bd.target,
                                )[x] != before.push(bd.target)[y] by {
                                if x < before.len() && y < before.len() {
                                } else if x == before.len() {
                                    assert(before[y] != bd.target);
                                } else {
                                    assert(before[x] != bd.target);
                                }
                            }
                        }
                        lemma_distinct_below_len(before.push(bd.target), n as nat);
                    }
                    self.values.set(bd.target, value);
                    visited.set(bd.target, true);
                    order.push(bd.target);
                    proof {
                        assert(order@ == before.push(bd.target));
                        assert forall|k: int| 0 <= k < n implies #[trigger] visited@[k] == order@.contains(
                            k as usize,
                        ) by {
                            if k == bd.target {
                                assert(order@[before.len() as int] == bd.target);
                            } else {
                                assert(visited@[k] == before_visited[k]);
                                if before.contains(k as usize) {
                                    let w = choose|w: int| 0 <= w < before.len() && before[w] == k as usize;
                                    assert(order@[w] == k as usize);
                                }
                                if order@.contains(k as usize) {
                                    let w = choose|w: int| 0 <= w < order@.len() && order@[w] == k as usize;
                                    assert(before[w] == k as usize);
                                }
                            }
                        }
                        assert(g0.bound(order@[i as int] as int, order@[before.len() as int] as int)) by {
                            assert(g0.bindings@[b as int].source == s);
                        }
                        assert forall|k: int| 1 <= k < order@.len() implies #[trigger] g0.reached_earlier(
                            order@,
                            k,
                        ) by {
                            if k < before.len() {
                                assert(g0.reached_earlier(before, k));
                                let j = choose|j: int|
                                    0 <= j < k && #[trigger] g0.bound(before[j] as int, before[k] as int);
                                assert(order@[j] == before[j]);
                                assert(order@[k] == before[k]);
                            } else {
                                assert(g0.bound(order@[i as int] as int, order@[k] as int));
                            }
                        }
                        assert forall|j: int, c: int|
                            0 <= j < i && 0 <= c < self.bindings@.len() && self.bindings@[c].source
                                == order@[j] implies visited@[self.bindings@[c].target as int] by {
                            assert(order@[j] == before[j]);
                            assert(before_visited[self.bindings@[c].target as int]);
                        }
                    }
                }
                b += 1;
            }
            i += 1;
        }
        proof {
            self.lemma_same_bindings(old(self));
            assert forall|st: int, t: int|
                #[trigger] old(self).bound(st, t) && order@.contains(st as usize) implies order@.contains(
                t as usize,
            ) by {
                let c = choose|c: int|
                    #![trigger old(self).bindings@[c]]
                    0 <= c < old(self).bindings@.len() && old(self).bindings@[c].source == st
                        && old(self).bindings@[c].target == t;
                let j = choose|j: int| 0 <= j < order@.len() && order@[j] == st as usize;
                assert(visited@[old(self).bindings@[c].target as int]);
            }
            assert forall|k: int| 0 <= k < n implies #[trigger] self.values()[k] == if order@.contains(
                k as usize,
            ) {
                value
            } else {
                old(self).values()[k]
            } by {
                assert(visited@[k] == order@.contains(k as usize));
            }
        }
        order
    }

    /// Reads `p`, applies `f` to its value and sets `p` to the result, as
    /// [`PropertyGraph::set`] does.
    pub fn change<F: Fn(T) -> T>(&mut self, p: usize, f: &F) -> (order: Vec<usize>)
        requires
            old(self).wf(),
            p < old(self).values().len(),
            f.requires((old(self).values()[p as int],)),
        ensures
            f.ensures((old(self).values()[p as int],), final(self).values()[p as int]),
            old(self).set_outcome(p as int, final(self).values()[p as int], *final(self), order@),
    {
        let current = self.values[p];
        let next = f(current);
        let order = self.set(p, next);
        proof {
            assert(order@.contains(p));
        }
        order
    }

    /// Ends the binding `s`; values stay as they are.
    pub fn unbind(&mut self, s: Subscription)
        requires
            old(self).wf(),
        ensures
            final(self).wf(),
            final(self).values() == old(self).values(),
            final(self).bindings_left() == old(self).bindings_left(),
            forall|q: int| #[trigger] final(self).listeners(q) == old(self).listeners(q),
            forall|q: int| #[trigger] final(self).can_listen(q) == old(self).can_listen(q),
            !final(self).binding_ids().contains(s.id_spec()),
            forall|id: u64, a: int, b: int|
                #[trigger] final(self).bound_by(id, a, b) == (old(self).bound_by(id, a, b) && id
                    != s.id_spec()),
            forall|a: int, b: int| #[trigger] final(self).bound(a, b) ==> old(self).bound(a, b),
    {
        let mut i: usize = 0;
        while i < self.bindings.len()
            invariant
                i <= self.bindings@.len(),
                self.bindings@ == old(self).bindings@,
                self.values@ == old(self).values@,
                self.events@ == old(self).events@,
                self.next_id == old(self).next_id,
                self.wf(),
                forall|j: int| 0 <= j < i ==> self.bindings@[j].id != s.id_spec(),
            decreases self.bindings@.len() - i,
        {
            if self.bindings[i].id == s.id() {
                let ghost before = self.bindings@;
                self.bindings.remove(i);
                proof {
                    let after = self.bindings@;
                    assert forall|j: int| 0 <= j < after.len() implies #[trigger] after[j] == if j < i {
                        before[j]
                    } else {
                        before[j + 1]
                    } by {}
                    assert forall|a: int, b: int| 0 <= a < b < after.len() implies after[a].id
                        != after[b].id by {
                        if b < i {
                            assert(before[a].id != before[b].id);
                        } else if a < i {
                            assert(before[a].id != before[b + 1].id);
                        } else {
                            assert(before[a + 1].id != before[b + 1].id);
                        }
                    }
                    assert forall|b: int| 0 <= b < after.len() implies #[trigger] after[b].source < self.values@.len()
                        && after[b].target < self.values@.len() && after[b].id < self.next_id by {
                        if b < i {
                            assert(before[b].source < self.values@.len());
                            assert(before[b].id < self.next_id);
                        } else {
                            assert(before[b + 1].source < self.values@.len());
                            assert(before[b + 1].id < self.next_id);
                        }
                    }
                    assert forall|j: int| 0 <= j < after.len() implies after[j].id != s.id_spec() by {
                        if j >= i {
                            assert(before[j + 1].id != before[i as int].id);
                        }
                    }
                    assert(!self.binding_ids().contains(s.id_spec())) by {
                        assert forall|j: int| 0 <= j < after.len() implies self.binding_ids()[j] != s.id_spec() by {
                            assert(after[j].id != s.id_spec());
                        }
                    }
                    assert forall|id: u64, a: int, b: int| #[trigger] self.bound_by(id, a, b) == (old(
                        self,
                    ).bound_by(id, a, b) && id != s.id_spec()) by {
                        if self.bound_by(id, a, b) {
                            let w = choose|w: int|
                                #![trigger after[w]]
                                0 <= w < after.len() && after[w].id == id && after[w].source == a && after[w].target == b;
                            if w < i {
                                assert(before[w] == after[w]);
                            } else {
                                assert(before[w + 1] == after[w]);
                            }
                        }
                        if old(self).bound_by(id, a, b) && id != s.id_spec() {
                            let w = choose|w: int|
                                #![trigger before[w]]
                                0 <= w < before.len() && before[w].id == id && before[w].source == a && before[w].target == b;
                            if w < i {
                                assert(after[w] == before[w]);
                            } else {
                                assert(w != i);
                                assert(after[w - 1] == before[w]);
                            }
                        }
                    }
                    assert forall|a: int, b: int| #[trigger] self.bound(a, b) implies old(self).bound(a, b) by {
                        let w = choose|w: int|
                            #![trigger after[w]]
                            0 <= w < after.len() && after[w].source == a && after[w].target == b;
                        if w < i {
                            assert(before[w] == after[w]);
                        } else {
                            assert(before[w + 1] == after[w]);
                        }
                    }
                }
                return;
            }
            i += 1;
        }
        proof {
            self.lemma_same_bindings(old(self));
            assert forall|j: int| 0 <= j < self.bindings@.len() implies self.binding_ids()[j] != s.id_spec() by {
                assert(self.bindings@[j].id != s.id_spec());
            }
        }
    }

    /// Registers for the change notifications of `p`.
    pub fn on_changed(&mut self, p: usize) -> (s: Subscription)
        requires
            old(self).wf(),
            p < old(self).values().len(),
            old(self).can_listen(p as int),
        ensures
            final(self).wf(),
            final(self).values() == old(self).values(),
            forall|a: int, b: int| #[trigger] final(self).bound(a, b) == old(self).bound(a, b),
            final(self).binding_ids() == old(self).binding_ids(),
            final(self).bindings_left() == old(self).bindings_left(),
            !old(self).listeners(p as int).contains(s.id_spec()),
            final(self).listeners(p as int) == old(self).listeners(p as int).push(s.id_spec()),
            forall|q: int|
                0 <= q < old(self).values().len() && q != p ==> #[trigger] final(self).listeners(q)
                    == old(self).listeners(q),
            forall|q: int|
                0 <= q < old(self).values().len() && q != p ==> #[trigger] final(self).can_listen(q)
                    == old(self).can_listen(q),
    {
        let s = self.events[p].subscribe();
        proof {
            self.lemma_same_bindings(old(self));
        }
        s
    }

    /// Ends the change registration `s` of `p`.
    pub fn unsubscribe(&mut self, p: usize, s: Subscription)
        requires
            old(self).wf(),
            p < old(self).values().len(),
        ensures
            final(self).wf(),
            final(self).values() == old(self).values(),
            forall|a: int, b: int| #[trigger] final(self).bound(a, b) == old(self).bound(a, b),
            final(self).binding_ids() == old(self).binding_ids(),
            final(self).bindings_left() == old(self).bindings_left(),
            !final(self).listeners(p as int).contains(s.id_spec()),
            !old(self).listeners(p as int).contains(s.id_spec()) ==> final(self).listeners(p as int)
                == old(self).listeners(p as int),
            forall|q: int|
                0 <= q < old(self).values().len() && q != p ==> #[trigger] final(self).listeners(q)
                    == old(self).listeners(q),
            forall|q: int|
                0 <= q < old(self).values().len() ==> #[trigger] final(self).can_listen(q)
                    == old(self).can_listen(q),
    {
        self.events[p].unsubscribe(s);
        proof {
            self.lemma_same_bindings(old(self));
        }
    }

    /// The registrations to notify of a change of `p`, in delivery order.
    pub fn subscribers(&self, p: usize) -> (r: Vec<Subscription>)
        requires
            p < self.values().len(),
            self.wf(),
        ensures
            r@.len() == self.listeners(p as int).len(),
            forall|i: int| 0 <= i < r@.len() ==> r@[i].id_spec() == self.listeners(p as int)[i],
    {
        self.events[p].emit()
    }

    pub fn new() -> (r: Self)
        ensures
            r.wf(),
            r.bindings_left() == u64::MAX,
            r.values() == Seq::<T>::empty(),
            r.binding_ids() == Seq::<u64>::empty(),
            forall|s: int, t: int| !#[trigger] r.bound(s, t),
    {
        let r = PropertyGraph { values: Vec::new(), events: Vec::new(), bindings: Vec::new(), next_id: 0 };
        assert(r.binding_ids() =~= Seq::<u64>::empty());
        r
    }

    /// Adds an unbound property holding `initial`; returns its index.
    pub fn add(&mut self, initial: T) -> (p: usize)
        requires
            old(self).wf(),
        ensures
            final(self).wf(),
            p == old(self).values().len(),
            final(self).values() == old(self).values().push(initial),
            forall|s: int, t: int| #[trigger] final(self).bound(s, t) == old(self).bound(s, t),
            final(self).binding_ids() == old(self).binding_ids(),
            final(self).bindings_left() == old(self).bindings_left(),
            final(self).listeners(p as int) == Seq::<u64>::empty(),
            final(self).can_listen(p as int),
            forall|q: int|
                0 <= q < old(self).values().len() ==> #[trigger] final(self).listeners(q)
                    == old(self).listeners(q),
            forall|q: int|
                0 <= q < old(self).values().len() ==> #[trigger] final(self).can_listen(q)
                    == old(self).can_listen(q),
    {
        let p = self.values.len();
        self.values.push(initial);
        self.events.push(Event::new());
        proof {
            assert forall|s: int, t: int| #[trigger] self.bound(s, t) == old(self).bound(s, t) by {
                if old(self).bound(s, t) {
                    let w = choose|w: int|
                        0 <= w < old(self).bindings@.len() && old(self).bindings@[w].source == s
                            && old(self).bindings@[w].target == t;
                    assert(self.bindings@[w] == old(self).bindings@[w]);
                }
            }
        }
        p
    }

    pub fn get(&self, p: usize) -> (r: T)
        requires
            p < self.values().len(),
        ensures
            r == self.values()[p as int],
    {
        self.values[p]
    }

    /// Binds `target` to `source`: from now on every change of `source` is
    /// copied into `target`, until the returned registration is unbound.
    pub fn bind(&mut self, target: usize, source: usize) -> (s: Subscription)
        requires
            old(self).wf(),
            old(self).can_bind(),
            target < old(self).values().len(),
            source < old(self).values().len(),
        ensures
            final(self).wf(),
            final(self).values() == old(self).values(),
            final(self).bindings_left() == old(self).bindings_left() - 1,
            forall|q: int| #[trigger] final(self).listeners(q) == old(self).listeners(q),
            forall|q: int| #[trigger] final(self).can_listen(q) == old(self).can_listen(q),
            !old(self).binding_ids().contains(s.id_spec()),
            final(self).binding_ids() == old(self).binding_ids().push(s.id_spec()),
            forall|a: int, b: int|
                #[trigger] final(self).bound(a, b) == (old(self).bound(a, b) || (a == source && b
                    == target)),
    {
        let id = self.next_id;
        let ghost old_bindings = self.bindings@;
        self.bindings.push(Binding { id, source, target });
        self.next_id = id + 1;
        proof {
            let n = self.bindings@.len() - 1;
            assert forall|a: int, b: int| #[trigger] self.bound(a, b) == (old(self).bound(a, b) || (a
                == source && b == target)) by {
                if old(self).bound(a, b) {
                    let w = choose|w: int|
                        0 <= w < old_bindings.len() && old_bindings[w].source == a
                            && old_bindings[w].target == b;
                    assert(self.bindings@[w] == old_bindings[w]);
                }
                if a == source && b == target {
                    assert(self.bindings@[n].source == a);
                }
                if self.bound(a, b) {
                    let w = choose|w: int|
                        0 <= w < self.bindings@.len() && self.bindings@[w].source == a
                            && self.bindings@[w].target == b;
                    if w < n {
                        assert(old_bindings[w].source == a);
                    }
                }
            }
            assert(self.binding_ids() =~= old(self).binding_ids().push(id));
            assert(!old(self).binding_ids().contains(id)) by {
                assert forall|b: int| 0 <= b < old_bindings.len() implies old(self).binding_ids()[b]
                    != id by {
                    assert(old_bindings[b].id < id);
                }
            }
            assert forall|a: int, b: int| 0 <= a < b < self.bindings@.len() implies self.bindings@[a].id
                != self.bindings@[b].id by {
                if b < n {
                    assert(old_bindings[a].id != old_bindings[b].id);
                } else {
                    assert(old_bindings[a].id < id);
                }
            }
        }
        Subscription::from_id(id)
    }
}

/// Two properties bound both ways: setting `a` to `v` leaves `v` in both, and
/// no property changes twice. Where no other property is bound to either of
/// them, exactly the two change, `a` first.
pub proof fn lemma_two_way_binding<T: Copy>(
    before: PropertyGraph<T>,
    a: int,
    b: int,
    v: T,
    after: PropertyGraph<T>,
    order: Seq<usize>,
)
    requires
        before.wf(),
        0 <= a < before.values().len(),
        0 <= b < before.values().len(),
        a != b,
        before.bound(a, b),
        before.bound(b, a),
        before.set_outcome(a, v, after, order),
    ensures
        after.values()[a] == v,
        after.values()[b] == v,
        order.no_duplicates(),
        order.len() <= before.values().len(),
        (forall|s: int, t: int|
            #[trigger] before.bound(s, t) && (s == a || s == b) ==> t == a || t == b) ==> order
            == seq![a as usize, b as usize],
{
    assert(order.contains(a as usize)) by {
        assert(order[0] == a as usize);
    }
    assert(order.contains(b as usize)) by {
        assert(before.bound(order[0] as int, b));
    }
    lemma_distinct_below_len(order, before.values().len());
    if forall|s: int, t: int| #[trigger] before.bound(s, t) && (s == a || s == b) ==> t == a || t == b {
        lemma_within_pair(before, a, b, order, (order.len() - 1) as int);
        let j = choose|j: int| 0 <= j < order.len() && order[j] == b as usize;
        assert(order[j] as int == b);
        assert(j == 1) by {
            if j > 1 {
                assert(order[1] as int == a || order[1] as int == b);
                assert(order[1] != order[0]);
                assert(order[1] != order[j]);
            }
        }
        if order.len() > 2 {
            assert(order[2] as int == a || order[2] as int == b);
            assert(order[2] != order[0]);
            assert(order[2] != order[1]);
        }
        assert(order =~= seq![a as usize, b as usize]);
    }
}

proof fn lemma_within_pair<T: Copy>(g: PropertyGraph<T>, a: int, b: int, order: Seq<usize>, k: int)
    requires
        0 <= k < order.len(),
        order[0] == a,
        0 <= a,
        0 <= b,
        forall|i: int| 1 <= i < order.len() ==> #[trigger] g.reached_earlier(order, i),
        forall|s: int, t: int| #[trigger] g.bound(s, t) && (s == a || s == b) ==> t == a || t == b,
    ensures
        forall|i: int| 0 <= i <= k ==> order[i] as int == a || order[i] as int == b,
    decreases k,
{
    if k > 0 {
        lemma_within_pair(g, a, b, order, k - 1);
        assert(g.reached_earlier(order, k));
        let j = choose|j: int| 0 <= j < k && #[trigger] g.bound(order[j] as int, order[k] as int);
        assert(order[j] as int == a || order[j] as int == b);
    }
}

} // verus!
