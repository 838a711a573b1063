use vstd::prelude::*;

verus! {

/// A position on the window, in whole pixels.
#[derive(Clone, Copy, PartialEq, Eq, Structural, Debug)]
pub struct Point {
    pub x: i32,
    pub y: i32,
}

/// Identity of a control of the widget tree.
#[derive(Clone, Copy, PartialEq, Eq, Structural, Debug)]
pub struct ControlId {
    pub id: u64,
}

/// What a hit test at one point found.
#[derive(Clone, Copy, PartialEq, Eq, Structural, Debug)]
pub enum HitTestResult {
    Nothing,
    Current,
    Child(ControlId),
}

/// An event delivered to one control.
#[derive(Clone, Copy, PartialEq, Eq, Structural, Debug)]
pub enum ControlEvent {
    HoverEnter,
    HoverLeave,
    TapDown { position: Point },
    TapUp { position: Point },
    TapMove { position: Point },
}

/// A gesture recognised from the raw input of the window.
#[derive(Clone, Copy, PartialEq, Eq, Structural, Debug)]
pub enum Gesture {
    TapDown { position: Point },
    TapUp { position: Point },
    TapMove { position: Point },
}

/// Routes gestures to controls. A tap captures the control it went down on:
/// the moves and the release of that tap go to it, wherever they happen, and
/// hover tracking pauses until the release.
pub struct EventProcessor {
    hover_active: bool,
    captured_control: Option<ControlId>,
}

impl EventProcessor {
    pub closed spec fn hover_active_spec(&self) -> bool {
        self.hover_active
    }

    pub closed spec fn captured_spec(&self) -> Option<ControlId> {
        self.captured_control
    }

    pub fn new() -> (r: Self)
        ensures
            r.hover_active_spec(),
            r.captured_spec() is None,
    {
        EventProcessor { hover_active: true, captured_control: None }
    }

    /// Whether hover tracking runs.
    pub fn is_hover_active(&self) -> (r: bool)
        ensures
            r == self.hover_active_spec(),
    {
        self.hover_active
    }

    /// The captured control, if there is one and it still exists
    /// (`captured_alive` tells whether it does).
    pub fn get_captured_control(&self, captured_alive: bool) -> (r: Option<ControlId>)
        ensures
            r == if captured_alive {
                self.captured_spec()
            } else {
                None
            },
    {
        if captured_alive {
            self.captured_control
        } else {
            None
        }
    }

    /// The delivery of `event` to the captured control, if there is one and
    /// it still exists.
    pub fn send_event_to_captured_control(&self, event: ControlEvent, captured_alive: bool) -> (r:
        Option<(ControlId, ControlEvent)>)
        ensures
            r == match self.get_captured_control_spec(captured_alive) {
                Some(c) => Some((c, event)),
                None => None::<(ControlId, ControlEvent)>,
            },
    {
        match self.get_captured_control(captured_alive) {
            Some(c) => Some((c, event)),
            None => None,
        }
    }

    pub open spec fn get_captured_control_spec(&self, captured_alive: bool) -> Option<ControlId> {
        if captured_alive {
            self.captured_spec()
        } else {
            None
        }
    }

    /// Handles one gesture. `hit` is the control that a hit test finds at
    /// the position of a tap going down; `captured_alive` tells whether the
    /// captured control still exists. Returns the control event to deliver,
    /// with its receiver.
    pub fn handle_gesture_event(&mut self, gesture: Gesture, hit: Option<ControlId>, captured_alive: bool) -> (r:
        Option<(ControlId, ControlEvent)>)
        ensures
            match gesture {
                Gesture::TapDown { position } => match hit {
                    Some(c) => {
                        &&& final(self).captured_spec() == Some(c)
                        &&& !final(self).hover_active_spec()
                        &&& r == Some((c, ControlEvent::TapDown { position }))
                    },
                    None => {
                        &&& *final(self) == *old(self)
                        &&& r is None
                    },
                },
                Gesture::TapUp { position } => {
                    &&& final(self).captured_spec() is None
                    &&& final(self).hover_active_spec()
                    &&& r == match old(self).get_captured_control_spec(captured_alive) {
                        Some(c) => Some((c, ControlEvent::TapUp { position })),
                        None => None::<(ControlId, ControlEvent)>,
                    }
                },
                Gesture::TapMove { position } => {
                    &&& *final(self) == *old(self)
                    &&& r == match old(self).get_captured_control_spec(captured_alive) {
                        Some(c) => Some((c, ControlEvent::TapMove { position })),
                        None => None::<(ControlId, ControlEvent)>,
                    }
                },
            },
    {
        match gesture {
            Gesture::TapDown { position } => {
                match hit {
                    Some(c) => {
                        self.captured_control = Some(c);
                        self.hover_active = false;
                        self.send_event_to_captured_control(ControlEvent::TapDown { position }, true)
                    },
                    None => None,
                }
            },
            Gesture::TapUp { position } => {
                let r = self.send_event_to_captured_control(
                    ControlEvent::TapUp { position },
                    captured_alive,
                );
                self.captured_control = None;
                self.hover_active = true;
                r
            },
            Gesture::TapMove { position } => {
                self.send_event_to_captured_control(ControlEvent::TapMove { position }, captured_alive)
            },
        }
    }
}

} // verus!
