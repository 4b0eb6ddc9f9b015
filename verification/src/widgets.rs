//! The small stateful widgets of the shell: the help overlay and the
//! frames around the lists.  Rendering itself happens in the shell; only
//! the state lives here.

use vstd::prelude::*;

verus! {

/// The help overlay's visibility.
pub struct Help {
    pub visible: bool,
}

impl Help {
    /// A hidden help overlay.
    pub fn new() -> (r: Help)
        ensures
            !r.visible,
    {
        Help { visible: false }
    }

    /// Shows the overlay when hidden and hides it when shown.
    pub fn toggle(&mut self)
        ensures
            final(self).visible == !old(self).visible,
    {
        self.visible = !self.visible;
    }
}

/// The frame around the ambient log list.
pub struct LogView;

impl LogView {
    /// The log frame.
    pub fn new() -> LogView {
        LogView
    }
}

/// The frame under the main content.
pub struct StatusBar;

impl StatusBar {
    /// The status frame.
    pub fn new() -> StatusBar {
        StatusBar
    }
}

/// The frame around the unit list.
pub struct UnitList;

impl UnitList {
    /// The unit-list frame.
    pub fn new() -> UnitList {
        UnitList
    }
}

} // verus!
