use vstd::prelude::*;

verus! {

/// The screen shown.
#[derive(Clone, Copy, PartialEq, Eq, Structural, Debug)]
pub enum View {
    Stories,
    Comments,
}

/// What a key press asks for.
#[derive(Clone, Copy, PartialEq, Eq, Structural, Debug)]
pub enum Action {
    ToggleHelp,
    BackOrQuit,
    Refresh,
    Enter,
    OpenComments,
    Expand,
    Collapse,
    ToggleCollapse,
    OpenPrimaryBrowser,
    OpenSecondaryBrowser,
    MoveDown,
    MoveUp,
    PageDown,
    PageUp,
    GoTop,
    GoBottom,
}

} // verus!
