use fui::collection::ObservableCollection;
use fui::event::Event;
use fui::counter::MainViewModel;
use fui::observable_vec::ObservableVec;
use fui::property::PropertyGraph;
use fui::vec_diff::VecDiff;

#[test]
fn event_delivers_in_subscription_order() {
    let mut event = Event::new();
    let a = event.subscribe();
    let b = event.subscribe();
    let c = event.subscribe();
    assert_eq!(event.emit(), vec![a, b, c]);
    assert!(event.is_subscribed(&b));
    event.unsubscribe(b);
    assert!(!event.is_subscribed(&b));
    assert_eq!(event.emit(), vec![a, c]);
}

#[test]
fn event_unsubscribe_twice_is_harmless() {
    let mut event = Event::new();
    let a = event.subscribe();
    event.unsubscribe(a);
    event.unsubscribe(a);
    assert!(event.emit().is_empty());
    let b = event.subscribe();
    assert_ne!(a.id(), b.id());
    assert_eq!(event.emit(), vec![b]);
}

/// A listener mirrors the source through the changes delivered to it; once
/// unsubscribed, later changes of the source no longer reach its mirror.
#[test]
fn unsubscribed_listener_stops_observing() {
    let mut source = ObservableVec::from_vec(vec![1, 2]);
    let first = source.on_changed().unwrap();
    let second = source.on_changed().unwrap();
    let mut mirror_first = ObservableVec::from_vec(vec![1, 2]);
    let mut mirror_second = ObservableVec::from_vec(vec![1, 2]);

    let deliver = |d: VecDiff<i32>,
                   source: &ObservableVec<i32>,
                   m1: &mut ObservableVec<i32>,
                   m2: &mut ObservableVec<i32>| {
        for s in source.subscribers() {
            if s == first {
                m1.apply(d.clone());
            } else if s == second {
                m2.apply(d.clone());
            }
        }
    };

    let d = source.push(3);
    deliver(d, &source, &mut mirror_first, &mut mirror_second);
    assert_eq!(mirror_first.len(), 3);
    assert_eq!(mirror_second.len(), 3);

    source.unsubscribe(first);
    let d = source.remove(0);
    deliver(d, &source, &mut mirror_first, &mut mirror_second);
    let d = source.insert(0, 7);
    deliver(d, &source, &mut mirror_first, &mut mirror_second);
    assert_eq!(mirror_first.len(), 3);
    assert_eq!(mirror_first.get(0), Some(1));
    assert_eq!(mirror_second.get(0), Some(7));
    assert_eq!(mirror_second.get(1), Some(2));
    assert_eq!(source.subscribers(), vec![second]);
}

#[test]
fn observable_vec_reports_each_change() {
    let mut v = ObservableVec::new();
    assert_eq!(v.push(5), VecDiff::InsertAt { index: 0, value: 5 });
    assert_eq!(v.insert(0, 4), VecDiff::InsertAt { index: 0, value: 4 });
    assert_eq!(v.remove(1), VecDiff::RemoveAt { index: 1 });
    assert_eq!(v.len(), 1);
    assert_eq!(v.item(0), 4);
    assert_eq!(v.clear(), VecDiff::Clear);
    assert_eq!(v.get(0), None);
}

#[test]
fn binding_both_ways_copies_and_terminates() {
    let mut g = PropertyGraph::new();
    let a = g.add(1);
    let b = g.add(2);
    g.bind(b, a);
    g.bind(a, b);
    let order = g.set(a, 10);
    assert_eq!(order, vec![a, b]);
    assert_eq!(g.get(a), 10);
    assert_eq!(g.get(b), 10);
    let order = g.set(b, 20);
    assert_eq!(order, vec![b, a]);
    assert_eq!(g.get(a), 20);
    assert_eq!(g.get(b), 20);
}

#[test]
fn binding_chain_reaches_each_property_once() {
    let mut g = PropertyGraph::new();
    let a = g.add(0);
    let b = g.add(0);
    let c = g.add(0);
    let d = g.add(0);
    g.bind(b, a);
    g.bind(c, b);
    g.bind(a, c);
    g.bind(c, a);
    let order = g.set(a, 3);
    assert_eq!(order, vec![a, b, c]);
    assert_eq!(g.get(d), 0);
    assert_eq!(g.get(c), 3);
}

#[test]
fn unbinding_stops_propagation_and_keeps_value() {
    let mut g = PropertyGraph::new();
    let a = g.add(1);
    let b = g.add(1);
    let sub = g.bind(b, a);
    g.set(a, 5);
    assert_eq!(g.get(b), 5);
    g.unbind(sub);
    assert_eq!(g.get(b), 5);
    let order = g.set(a, 6);
    assert_eq!(order, vec![a]);
    assert_eq!(g.get(b), 5);
}

#[test]
fn change_applies_function_to_current_value() {
    let mut g = PropertyGraph::new();
    let a = g.add(4);
    let b = g.add(0);
    g.bind(b, a);
    let order = g.change(a, &|x: i32| x * 3);
    assert_eq!(order, vec![a, b]);
    assert_eq!(g.get(b), 12);
}

#[test]
fn view_model_counters_follow_each_other() {
    let mut vm = MainViewModel::new();
    assert_eq!(vm.counter(), 10);
    assert_eq!(vm.counter2(), 0);
    vm.increase();
    assert_eq!(vm.counter(), 11);
    assert_eq!(vm.counter2(), 0);
    vm.bind_counters();
    vm.increase();
    assert_eq!(vm.counter(), 12);
    assert_eq!(vm.counter2(), 12);
    vm.decrease();
    vm.decrease();
    assert_eq!(vm.counter(), 10);
    assert_eq!(vm.counter2(), 10);
    let order = vm.properties.set(vm.counter2, 3);
    assert_eq!(order.len(), 2);
    assert_eq!(vm.counter(), 3);
}

#[test]
fn property_change_listeners() {
    let mut g = PropertyGraph::new();
    let a = g.add(0);
    let b = g.add(0);
    g.bind(b, a);
    let on_a = g.on_changed(a);
    let on_b1 = g.on_changed(b);
    let on_b2 = g.on_changed(b);
    let order = g.set(a, 1);
    let mut notified = Vec::new();
    for p in order {
        notified.extend(g.subscribers(p));
    }
    assert_eq!(notified, vec![on_a, on_b1, on_b2]);
    g.unsubscribe(b, on_b1);
    assert_eq!(g.subscribers(b), vec![on_b2]);
    assert_eq!(g.subscribers(a), vec![on_a]);
}
