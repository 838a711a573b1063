use vstd::prelude::*;

use crate::menu::Callback;
use crate::property::{lemma_two_way_binding, PropertyGraph};

verus! {

/// The view model of the counter example: two counters that the view binds
/// to each other both ways.
pub struct MainViewModel {
    pub properties: PropertyGraph<i32>,
    pub counter: usize,
    pub counter2: usize,
}

impl MainViewModel {
    pub open spec fn wf(&self) -> bool {
        &&& self.properties.wf()
        &&& self.counter < self.properties.values().len()
        &&& self.counter2 < self.properties.values().len()
        &&& self.counter != self.counter2
    }

    pub open spec fn counter_value(&self) -> i32 {
        self.properties.values()[self.counter as int]
    }

    pub open spec fn counter2_value(&self) -> i32 {
        self.properties.values()[self.counter2 as int]
    }

    /// Whether the two counters are bound to each other both ways.
    pub open spec fn counters_bound(&self) -> bool {
        &&& self.properties.bound(self.counter as int, self.counter2 as int)
        &&& self.properties.bound(self.counter2 as int, self.counter as int)
    }

    pub fn new() -> (r: Self)
        ensures
            r.wf(),
            r.properties.bindings_left() == u64::MAX,
            r.counter_value() == 10,
            r.counter2_value() == 0,
            forall|s: int, t: int| !#[trigger] r.properties.bound(s, t),
    {
        let mut properties = PropertyGraph::new();
        let counter = properties.add(10);
        let counter2 = properties.add(0);
        MainViewModel { properties, counter, counter2 }
    }

    /// Binds the counters both ways, as the view does when it is built.
    pub fn bind_counters(&mut self) -> (r: (crate::event::Subscription, crate::event::Subscription))
        requires
            old(self).wf(),
            old(self).properties.bindings_left() >= 2,
        ensures
            final(self).wf(),
            final(self).counters_bound(),
            final(self).counter == old(self).counter,
            final(self).counter2 == old(self).counter2,
            final(self).properties.values() == old(self).properties.values(),
            final(self).properties.bindings_left() == old(self).properties.bindings_left() - 2,
            forall|s: int, t: int|
                #[trigger] final(self).properties.bound(s, t) == (old(self).properties.bound(s, t) || (s
                    == old(self).counter && t == old(self).counter2) || (s == old(self).counter2 && t
                    == old(self).counter)),
    {
        let forward = self.properties.bind(self.counter2, self.counter);
        let backward = self.properties.bind(self.counter, self.counter2);
        (forward, backward)
    }

    /// Adds one to the first counter; a bound second counter follows.
    pub fn increase(&mut self)
        requires
            old(self).wf(),
            old(self).counter_value() < i32::MAX,
        ensures
            final(self).wf(),
            final(self).counter == old(self).counter,
            final(self).counter2 == old(self).counter2,
            final(self).counter_value() == old(self).counter_value() + 1,
            exists|order: Seq<usize>|
                old(self).properties.set_outcome(
                    old(self).counter as int,
                    final(self).counter_value(),
                    final(self).properties,
                    order,
                ),
            old(self).counters_bound() ==> final(self).counter2_value() == final(self).counter_value(),
    {
        let step = |c: i32| -> (r: i32)
            requires
                c < i32::MAX,
            ensures
                r == c + 1,
            { c + 1 };
        let order = self.properties.change(self.counter, &step);
        proof {
            self.lemma_follow(*old(self), order@);
        }
    }

    /// Takes one from the first counter; a bound second counter follows.
    pub fn decrease(&mut self)
        requires
            old(self).wf(),
            old(self).counter_value() > i32::MIN,
        ensures
            final(self).wf(),
            final(self).counter == old(self).counter,
            final(self).counter2 == old(self).counter2,
            final(self).counter_value() == old(self).counter_value() - 1,
            exists|order: Seq<usize>|
                old(self).properties.set_outcome(
                    old(self).counter as int,
                    final(self).counter_value(),
                    final(self).properties,
                    order,
                ),
            old(self).counters_bound() ==> final(self).counter2_value() == final(self).counter_value(),
    {
        let step = |c: i32| -> (r: i32)
            requires
                c > i32::MIN,
            ensures
                r == c - 1,
            { c - 1 };
        let order = self.properties.change(self.counter, &step);
        proof {
            self.lemma_follow(*old(self), order@);
        }
    }

    proof fn lemma_follow(&self, before: Self, order: Seq<usize>)
        requires
            before.wf(),
            self.counter == before.counter,
            self.counter2 == before.counter2,
            before.properties.set_outcome(
                before.counter as int,
                self.counter_value(),
                self.properties,
                order,
            ),
        ensures
            self.wf(),
            before.counters_bound() ==> self.counter2_value() == self.counter_value(),
    {
        if before.counters_bound() {
            lemma_two_way_binding(
                before.properties,
                before.counter as int,
                before.counter2 as int,
                self.counter_value(),
                self.properties,
                order,
            );
        }
    }

    pub fn counter(&self) -> (r: i32)
        requires
            self.wf(),
        ensures
            r == self.counter_value(),
    {
        self.properties.get(self.counter)
    }

    pub fn counter2(&self) -> (r: i32)
        requires
            self.wf(),
        ensures
            r == self.counter2_value(),
    {
        self.properties.get(self.counter2)
    }
}

/// A button showing a text, declared by the counter example.
pub struct ButtonText {
    pub text: String,
    pub clicked: Callback,
}

impl ButtonText {
    /// A button with no text that does nothing when clicked.
    pub fn new() -> (r: Self)
        ensures
            r.text@.len() == 0,
            r.clicked.handler_spec() is None,
    {
        ButtonText { text: String::new(), clicked: Callback::empty() }
    }
}

} // verus!
