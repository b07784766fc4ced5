use vstd::prelude::*;

verus! {

/// The state of the pointer's buttons.
#[derive(Debug, Clone, Copy, PartialEq, Eq, Structural)]
pub enum MouseStatus {
    Idle,
    Clicked,
}

/// The state of the keyboard: a key code that went down or up.
#[derive(Debug, Clone, Copy, PartialEq, Eq, Structural)]
pub enum KeyboardStatus {
    Idle,
    KeyDown(u8),
    KeyUp(u8),
}

/// What a frame hands to the widgets: the pointer's pixel position and its buttons.
#[derive(Debug, Clone, Copy, PartialEq, Eq)]
pub struct UpdateData {
    pub mouse_position: (u32, u32),
    pub mouse_status: MouseStatus,
}

} // verus!
