use vstd::prelude::*;

use crate::event_processor::ControlId;

verus! {

/// How a window is to look when it is created.
pub struct WindowOptions {
    pub title: String,
    pub width: i32,
    pub height: i32,
    pub visible: bool,
    pub icon: Vec<u8>,
}

enum WindowState {
    BeforeCreation { view: Option<ControlId> },
    Created { layers: Vec<ControlId>, view: Option<ControlId> },
}

/// `s` without any occurrence of `c`, in order.
pub open spec fn without(s: Seq<ControlId>, c: ControlId) -> Seq<ControlId>
    decreases s.len(),
{
    if s.len() == 0 {
        s
    } else if s.last() == c {
        without(s.drop_last(), c)
    } else {
        without(s.drop_last(), c).push(s.last())
    }
}

/// A top-level window: before creation it remembers the view to show; once
/// created it shows a stack of layers, the view first.
pub struct Window {
    options: WindowOptions,
    state: WindowState,
}

impl Window {
    pub closed spec fn is_created_spec(&self) -> bool {
        self.state is Created
    }

    /// The view shown first.
    pub closed spec fn view_spec(&self) -> Option<ControlId> {
        match self.state {
            WindowState::BeforeCreation { view } => view,
            WindowState::Created { view, .. } => view,
        }
    }

    /// The layers shown, bottom first; none before creation.
    pub closed spec fn layers_spec(&self) -> Seq<ControlId> {
        match self.state {
            WindowState::BeforeCreation { .. } => Seq::empty(),
            WindowState::Created { layers, .. } => layers@,
        }
    }

    pub fn new(window_options: WindowOptions) -> (r: Self)
        ensures
            !r.is_created_spec(),
            r.view_spec() is None,
            r.layers_spec() == Seq::<ControlId>::empty(),
    {
        Window { options: window_options, state: WindowState::BeforeCreation { view: None } }
    }

    pub fn options(&self) -> &WindowOptions {
        &self.options
    }

    pub fn is_created(&self) -> (r: bool)
        ensures
            r == self.is_created_spec(),
    {
        match self.state {
            WindowState::BeforeCreation { .. } => false,
            WindowState::Created { .. } => true,
        }
    }

    /// Shows `view`, the view of a view model: before creation it replaces
    /// the view to show; afterwards it goes on top as a new layer.
    pub fn set_vm(&mut self, view: ControlId)
        ensures
            final(self).is_created_spec() == old(self).is_created_spec(),
            !old(self).is_created_spec() ==> final(self).view_spec() == Some(view)
                && final(self).layers_spec() == old(self).layers_spec(),
            old(self).is_created_spec() ==> final(self).view_spec() == old(self).view_spec()
                && final(self).layers_spec() == old(self).layers_spec().push(view),
    {
        match &mut self.state {
            WindowState::BeforeCreation { view: v } => {
                *v = Some(view);
            },
            WindowState::Created { layers, .. } => {
                layers.push(view);
            },
        }
    }

    /// Creates the window: the remembered view becomes the first layer.
    pub fn create(&mut self)
        requires
            !old(self).is_created_spec(),
        ensures
            final(self).is_created_spec(),
            final(self).view_spec() == old(self).view_spec(),
            final(self).layers_spec() == match old(self).view_spec() {
                Some(v) => seq![v],
                None => Seq::<ControlId>::empty(),
            },
    {
        let view = match self.state {
            WindowState::BeforeCreation { view } => view,
            WindowState::Created { view, .. } => view,
        };
        let mut layers: Vec<ControlId> = Vec::new();
        if let Some(v) = view {
            layers.push(v);
        }
        proof {
            if view is Some {
                assert(layers@ =~= seq![view->0]);
            }
        }
        self.state = WindowState::Created { layers, view };
    }

    /// Puts `control` on top, as a new layer; nothing before creation.
    pub fn add_layer(&mut self, control: ControlId)
        ensures
            final(self).is_created_spec() == old(self).is_created_spec(),
            final(self).view_spec() == old(self).view_spec(),
            old(self).is_created_spec() ==> final(self).layers_spec() == old(self).layers_spec().push(
                control,
            ),
            !old(self).is_created_spec() ==> final(self).layers_spec() == old(self).layers_spec(),
    {
        match &mut self.state {
            WindowState::BeforeCreation { .. } => {},
            WindowState::Created { layers, .. } => {
                layers.push(control);
            },
        }
    }

    /// Takes every layer that is `control` away; nothing before creation.
    pub fn remove_layer(&mut self, control: ControlId)
        ensures
            final(self).is_created_spec() == old(self).is_created_spec(),
            final(self).view_spec() == old(self).view_spec(),
            final(self).layers_spec() == without(old(self).layers_spec(), control),
    {
        match &mut self.state {
            WindowState::BeforeCreation { .. } => {},
            WindowState::Created { layers, .. } => {
                let mut kept: Vec<ControlId> = Vec::new();
                let mut i: usize = 0;
                while i < layers.len()
                    invariant
                        i <= layers@.len(),
                        kept@ == without(layers@.take(i as int), control),
                    decreases layers@.len() - i,
                {
                    let c = layers[i];
                    proof {
                        assert(layers@.take(i + 1).drop_last() =~= layers@.take(i as int));
                    }
                    if c != control {
                        kept.push(c);
                    }
                    i += 1;
                }
                proof {
                    assert(layers@.take(i as int) =~= layers@);
                }
                *layers = kept;
            },
        }
    }
}

/// Whether a window of this size is painted: only one with some area is.
pub fn should_paint(width: i32, height: i32) -> (r: bool)
    ensures
        r == (width > 0 && height > 0),
{
    width > 0 && height > 0
}

} // verus!
