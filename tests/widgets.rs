use fui::event_processor::{ControlEvent, ControlId, EventProcessor, Gesture, HitTestResult, Point};
use fui::menu::{sibling_indices, Callback, Menu, MenuItem, MenuItemState, Orientation};
use fui::window::{should_paint, Window, WindowOptions};

fn at(x: i32, y: i32) -> Point {
    Point { x, y }
}

#[test]
fn tap_goes_to_captured_control() {
    let mut p = EventProcessor::new();
    assert!(p.is_hover_active());
    let button = ControlId { id: 7 };
    let r = p.handle_gesture_event(Gesture::TapDown { position: at(1, 2) }, Some(button), true);
    assert_eq!(r, Some((button, ControlEvent::TapDown { position: at(1, 2) })));
    assert!(!p.is_hover_active());
    let r = p.handle_gesture_event(Gesture::TapMove { position: at(50, 60) }, None, true);
    assert_eq!(r, Some((button, ControlEvent::TapMove { position: at(50, 60) })));
    let r = p.handle_gesture_event(Gesture::TapUp { position: at(3, 4) }, None, true);
    assert_eq!(r, Some((button, ControlEvent::TapUp { position: at(3, 4) })));
    assert!(p.is_hover_active());
    assert_eq!(p.get_captured_control(true), None);
}

#[test]
fn tap_on_nothing_captures_nothing() {
    let mut p = EventProcessor::new();
    let r = p.handle_gesture_event(Gesture::TapDown { position: at(0, 0) }, None, true);
    assert_eq!(r, None);
    assert!(p.is_hover_active());
    let r = p.handle_gesture_event(Gesture::TapMove { position: at(1, 1) }, None, true);
    assert_eq!(r, None);
}

#[test]
fn vanished_control_gets_nothing() {
    let mut p = EventProcessor::new();
    let c = ControlId { id: 1 };
    p.handle_gesture_event(Gesture::TapDown { position: at(0, 0) }, Some(c), true);
    assert_eq!(p.get_captured_control(false), None);
    assert_eq!(p.send_event_to_captured_control(ControlEvent::HoverLeave, false), None);
    let r = p.handle_gesture_event(Gesture::TapUp { position: at(0, 0) }, None, false);
    assert_eq!(r, None);
    assert!(p.is_hover_active());
}

#[test]
fn hit_test_result_compares() {
    let c = ControlId { id: 3 };
    assert_eq!(HitTestResult::Child(c), HitTestResult::Child(ControlId { id: 3 }));
    assert_ne!(HitTestResult::Nothing, HitTestResult::Current);
}

#[test]
fn menu_item_constructors() {
    let item = MenuItem::simple("Open", Callback::new(4));
    match item {
        MenuItem::Text { text, shortcut, icon, callback, sub_items } => {
            assert_eq!(text, "Open");
            assert_eq!(shortcut, None);
            assert_eq!(icon, None);
            assert_eq!(callback.handler(), Some(4));
            assert!(sub_items.is_empty());
        }
        _ => panic!("expected a text entry"),
    }
    let full = MenuItem::full("Save", Some("Ctrl+S".to_string()), Some(ControlId { id: 2 }), Callback::empty());
    assert!(!full.has_sub_items());
    match full {
        MenuItem::Text { text, shortcut, icon, callback, .. } => {
            assert_eq!(text, "Save");
            assert_eq!(shortcut, Some("Ctrl+S".to_string()));
            assert_eq!(icon, Some(ControlId { id: 2 }));
            assert_eq!(callback.handler(), None);
        }
        _ => panic!("expected a text entry"),
    }
    let folder = MenuItem::folder("File", vec![MenuItem::Separator, MenuItem::simple("Exit", Callback::new(1))]);
    assert!(folder.has_sub_items());
    match folder {
        MenuItem::Text { text, callback, sub_items, .. } => {
            assert_eq!(text, "File");
            assert_eq!(callback.handler(), None);
            assert_eq!(sub_items.len(), 2);
        }
        _ => panic!("expected a text entry"),
    }
    let menu = Menu::new(vec![MenuItem::Separator]);
    assert_eq!(menu.orientation, Orientation::Horizontal);
    assert_eq!(menu.items.len(), 1);
}

#[test]
fn siblings_are_all_other_entries() {
    let s = sibling_indices(3);
    assert_eq!(s, vec![vec![1, 2], vec![0, 2], vec![0, 1]]);
    assert!(sibling_indices(0).is_empty());
    assert_eq!(sibling_indices(1), vec![Vec::<usize>::new()]);
}

#[test]
fn top_entry_with_popup_activates_menu() {
    let mut file = MenuItemState::new(true, true);
    let mut edit = MenuItemState::new(true, true);
    let mut active = false;
    // hovering an inactive menu highlights but opens nothing
    let r = file.hover(true, active);
    assert!(file.is_highlighted());
    assert!(!r.close_siblings);
    assert!(!file.is_open());
    let r = file.tap_down(&mut active);
    assert!(active);
    assert!(file.is_open());
    assert!(!r.run_callback);
    // moving to a sibling in an active menu takes over
    let r = edit.hover(true, active);
    assert!(r.close_siblings);
    assert!(edit.is_open());
    file.close_popup();
    assert!(!file.is_open());
    assert!(!file.is_highlighted());
    // deactivating closes everything
    edit.menu_active_changed(false);
    assert!(!edit.is_open());
}

#[test]
fn entries_without_popup_run_their_callback() {
    let mut active = true;
    let mut top = MenuItemState::new(true, false);
    let r = top.tap_down(&mut active);
    assert!(r.run_callback);
    assert!(active);
    let mut inner = MenuItemState::new(false, false);
    let r = inner.hover(true, active);
    assert!(r.close_siblings);
    assert!(inner.is_highlighted());
    let r = inner.tap_down(&mut active);
    assert!(r.run_callback);
    assert!(!active);
    let r = inner.hover(false, active);
    assert!(!inner.is_highlighted());
    assert!(!r.close_siblings);
}

#[test]
fn window_shows_view_then_layers() {
    let options = WindowOptions { title: "Example".to_string(), width: 800, height: 600, visible: true, icon: Vec::new() };
    let mut w = Window::new(options);
    assert!(!w.is_created());
    assert_eq!(w.options().width, 800);
    let a = ControlId { id: 1 };
    let b = ControlId { id: 2 };
    let c = ControlId { id: 3 };
    w.set_vm(a);
    w.set_vm(b);
    w.add_layer(c);
    w.create();
    assert!(w.is_created());
    w.set_vm(c);
    w.add_layer(a);
    w.remove_layer(c);
    w.remove_layer(ControlId { id: 9 });
    assert!(should_paint(1, 1));
    assert!(!should_paint(0, 5));
    assert!(!should_paint(5, -1));
}

#[test]
fn button_text_starts_empty() {
    let b = fui::counter::ButtonText::new();
    assert_eq!(b.text, "");
    assert_eq!(b.clicked.handler(), None);
}
