use vstd::prelude::*;

verus! {

/// Which trajectory plot the main window shows.
#[derive(Clone, Copy, Debug, PartialEq, Eq, Structural)]
pub enum WindowToShow {
    LatitudeVsTimeGraph,
    LongitudeVsTimeGraph,
}

/// Which auxiliary windows are open.
#[derive(Clone, Copy, Debug, PartialEq, Eq, Structural)]
pub struct WindowsOpened {
    pub settings: bool,
}

impl Default for WindowsOpened {
    /// All auxiliary windows start closed.
    fn default() -> (r: WindowsOpened)
        ensures
            !r.settings,
    {
        WindowsOpened { settings: false }
    }
}

} // verus!
