use vstd::prelude::*;

use crate::event_processor::ControlId;

verus! {

broadcast use vstd::string::group_string_axioms;

/// Handle of a handler that the widget layer keeps. An empty callback has
/// none, and invoking it does nothing.
#[derive(Clone, Copy, PartialEq, Eq, Structural, Debug)]
pub struct Callback {
    handler: Option<u64>,
}

impl Callback {
    pub closed spec fn handler_spec(&self) -> Option<u64> {
        self.handler
    }

    pub fn empty() -> (r: Self)
        ensures
            r.handler_spec() is None,
    {
        Callback { handler: None }
    }

    pub fn new(handler: u64) -> (r: Self)
        ensures
            r.handler_spec() == Some(handler),
    {
        Callback { handler: Some(handler) }
    }

    pub fn handler(&self) -> (r: Option<u64>)
        ensures
            r == self.handler_spec(),
    {
        self.handler
    }
}

/// One entry of a menu.
pub enum MenuItem {
    Separator,
    Text {
        text: String,
        shortcut: Option<String>,
        icon: Option<ControlId>,
        callback: Callback,
        sub_items: Vec<MenuItem>,
    },
    Custom { content: ControlId, callback: Callback, sub_items: Vec<MenuItem> },
}

impl MenuItem {
    /// An entry that only opens `sub_items`.
    pub fn folder(text: &str, sub_items: Vec<MenuItem>) -> (r: Self)
        ensures
            r matches MenuItem::Text { text: t, shortcut, icon, callback, sub_items: s } && t@
                == text@ && shortcut is None && icon is None && callback.handler_spec() is None && s@
                == sub_items@,
    {
        MenuItem::Text {
            text: text.to_string(),
            shortcut: None,
            icon: None,
            callback: Callback::empty(),
            sub_items,
        }
    }

    /// An entry that runs `callback`.
    pub fn simple(text: &str, callback: Callback) -> (r: Self)
        ensures
            r matches MenuItem::Text { text: t, shortcut, icon, callback: c, sub_items: s } && t@
                == text@ && shortcut is None && icon is None && c == callback && s@.len() == 0,
    {
        MenuItem::Text {
            text: text.to_string(),
            shortcut: None,
            icon: None,
            callback,
            sub_items: Vec::new(),
        }
    }

    /// An entry that runs `callback`, with a shortcut text and an icon.
    pub fn full(text: &str, shortcut: Option<String>, icon: Option<ControlId>, callback: Callback) -> (r:
        Self)
        ensures
            r matches MenuItem::Text { text: t, shortcut: sc, icon: ic, callback: c, sub_items: s }
                && t@ == text@ && sc == shortcut && ic == icon && c == callback && s@.len() == 0,
    {
        MenuItem::Text { text: text.to_string(), shortcut, icon, callback, sub_items: Vec::new() }
    }

    pub open spec fn sub_item_count(&self) -> nat {
        match self {
            MenuItem::Separator => 0,
            MenuItem::Text { sub_items, .. } => sub_items@.len(),
            MenuItem::Custom { sub_items, .. } => sub_items@.len(),
        }
    }

    /// Whether the entry opens a popup of further entries.
    pub fn has_sub_items(&self) -> (r: bool)
        ensures
            r == (self.sub_item_count() > 0),
    {
        match self {
            MenuItem::Separator => false,
            MenuItem::Text { sub_items, .. } => sub_items.len() > 0,
            MenuItem::Custom { sub_items, .. } => sub_items.len() > 0,
        }
    }
}

/// How the entries of a menu bar are laid out.
#[derive(Clone, Copy, PartialEq, Eq, Structural, Debug)]
pub enum Orientation {
    Horizontal,
    Vertical,
}

/// A menu bar.
pub struct Menu {
    pub orientation: Orientation,
    pub items: Vec<MenuItem>,
}

impl Menu {
    /// A horizontal menu bar holding `items`.
    pub fn new(items: Vec<MenuItem>) -> (r: Self)
        ensures
            r.orientation == Orientation::Horizontal,
            r.items@ == items@,
    {
        Menu { orientation: Orientation::Horizontal, items }
    }
}

/// For each of `count` entries of one level, the other entries of that
/// level, whose popups close when it opens its own.
pub fn sibling_indices(count: usize) -> (r: Vec<Vec<usize>>)
    ensures
        r@.len() == count,
        forall|i: int|
            0 <= i < count ==> (#[trigger] r@[i])@.len() == count - 1 && forall|j: int|
                0 <= j < count - 1 ==> r@[i]@[j] == if j < i {
                    j
                } else {
                    j + 1
                },
{
    let mut r: Vec<Vec<usize>> = Vec::new();
    let mut i: usize = 0;
    while i < count
        invariant
            i <= count,
            r@.len() == i,
            forall|k: int|
                0 <= k < i ==> (#[trigger] r@[k])@.len() == count - 1 && forall|j: int|
                    0 <= j < count - 1 ==> r@[k]@[j] == if j < k {
                        j
                    } else {
                        j + 1
                    },
        decreases count - i,
    {
        let mut others: Vec<usize> = Vec::new();
        let mut j: usize = 0;
        while j < count
            invariant
                i < count,
                j <= count,
                others@.len() == if j <= i {
                    j as int
                } else {
                    j - 1
                },
                forall|m: int|
                    0 <= m < others@.len() ==> others@[m] == if m < i {
                        m
                    } else {
                        m + 1
                    },
            decreases count - j,
        {
            if j != i {
                others.push(j);
            }
            j += 1;
        }
        r.push(others);
        i += 1;
    }
    r
}

/// What the widget layer does after an entry reacted to input.
#[derive(Clone, Copy, PartialEq, Eq, Structural, Debug)]
pub struct MenuReaction {
    /// Run the entry's callback.
    pub run_callback: bool,
    /// Close the popups of the other entries of the same level.
    pub close_siblings: bool,
}

/// The interactive state of one text entry: whether its popup is open and
/// whether it is drawn highlighted. Entries of the bar itself are "top".
pub struct MenuItemState {
    is_top: bool,
    has_sub_items: bool,
    is_open: bool,
    highlighted: bool,
}

impl MenuItemState {
    pub closed spec fn is_top_spec(&self) -> bool {
        self.is_top
    }

    pub closed spec fn has_sub_items_spec(&self) -> bool {
        self.has_sub_items
    }

    pub closed spec fn is_open_spec(&self) -> bool {
        self.is_open
    }

    pub closed spec fn highlighted_spec(&self) -> bool {
        self.highlighted
    }

    pub fn new(is_top: bool, has_sub_items: bool) -> (r: Self)
        ensures
            r.is_top_spec() == is_top,
            r.has_sub_items_spec() == has_sub_items,
            !r.is_open_spec(),
            !r.highlighted_spec(),
    {
        MenuItemState { is_top, has_sub_items, is_open: false, highlighted: false }
    }

    pub fn is_open(&self) -> (r: bool)
        ensures
            r == self.is_open_spec(),
    {
        self.is_open
    }

    pub fn is_highlighted(&self) -> (r: bool)
        ensures
            r == self.highlighted_spec(),
    {
        self.highlighted
    }

    /// Closes the popup; an entry with a popup loses its highlight then.
    pub fn close_popup(&mut self)
        ensures
            final(self).is_top_spec() == old(self).is_top_spec(),
            final(self).has_sub_items_spec() == old(self).has_sub_items_spec(),
            !final(self).is_open_spec(),
            final(self).highlighted_spec() == (old(self).highlighted_spec()
                && !old(self).has_sub_items_spec()),
    {
        self.is_open = false;
        if self.has_sub_items {
            self.highlighted = false;
        }
    }

    /// A tap went down on the entry. On the bar, an entry with a popup
    /// activates the menu and opens; one without runs its callback. Inside a
    /// popup, an entry without a popup deactivates the menu and runs its
    /// callback.
    pub fn tap_down(&mut self, menu_active: &mut bool) -> (r: MenuReaction)
        ensures
            final(self).is_top_spec() == old(self).is_top_spec(),
            final(self).has_sub_items_spec() == old(self).has_sub_items_spec(),
            final(self).highlighted_spec() == old(self).highlighted_spec(),
            !r.close_siblings,
            old(self).is_top_spec() && old(self).has_sub_items_spec() ==> *final(menu_active)
                && final(self).is_open_spec() && !r.run_callback,
            old(self).is_top_spec() && !old(self).has_sub_items_spec() ==> *final(menu_active)
                == *old(menu_active) && final(self).is_open_spec() == old(self).is_open_spec()
                && r.run_callback,
            !old(self).is_top_spec() && !old(self).has_sub_items_spec() ==> !*final(menu_active)
                && final(self).is_open_spec() == old(self).is_open_spec() && r.run_callback,
            !old(self).is_top_spec() && old(self).has_sub_items_spec() ==> *final(menu_active)
                == *old(menu_active) && final(self).is_open_spec() == old(self).is_open_spec()
                && !r.run_callback,
    {
        if self.is_top {
            if self.has_sub_items {
                *menu_active = true;
                self.is_open = true;
                MenuReaction { run_callback: false, close_siblings: false }
            } else {
                MenuReaction { run_callback: true, close_siblings: false }
            }
        } else {
            if !self.has_sub_items {
                *menu_active = false;
                MenuReaction { run_callback: true, close_siblings: false }
            } else {
                MenuReaction { run_callback: false, close_siblings: false }
            }
        }
    }

    /// The pointer entered (`hovered`) or left the entry. On the bar an entry
    /// is highlighted while hovered or while the menu is active, and takes
    /// over from its siblings when hovered in an active menu. Inside a popup
    /// an entry with a popup stays highlighted, and a hovered one takes over
    /// from its siblings.
    pub fn hover(&mut self, hovered: bool, menu_active: bool) -> (r: MenuReaction)
        ensures
            final(self).is_top_spec() == old(self).is_top_spec(),
            final(self).has_sub_items_spec() == old(self).has_sub_items_spec(),
            !r.run_callback,
            final(self).highlighted_spec() == (hovered || if old(self).is_top_spec() {
                menu_active
            } else {
                old(self).has_sub_items_spec()
            }),
            r.close_siblings == (hovered && (menu_active || !old(self).is_top_spec())),
            final(self).is_open_spec() == (old(self).is_open_spec() || (r.close_siblings
                && old(self).has_sub_items_spec())),
    {
        let takes_over = if self.is_top {
            self.highlighted = hovered || menu_active;
            hovered && menu_active
        } else {
            self.highlighted = hovered || self.has_sub_items;
            hovered
        };
        if takes_over && self.has_sub_items {
            self.is_open = true;
        }
        MenuReaction { run_callback: false, close_siblings: takes_over }
    }

    /// The menu became active or inactive; an inactive menu closes every
    /// popup.
    pub fn menu_active_changed(&mut self, active: bool)
        ensures
            active ==> *final(self) == *old(self),
            !active ==> final(self).is_top_spec() == old(self).is_top_spec()
                && final(self).has_sub_items_spec() == old(self).has_sub_items_spec()
                && !final(self).is_open_spec() && final(self).highlighted_spec() == (
                old(self).highlighted_spec() && !old(self).has_sub_items_spec()),
    {
        if !active {
            self.close_popup();
        }
    }
}

} // verus!
