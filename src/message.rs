use vstd::prelude::*;

verus! {

/// The state of a value that the user can edit.
#[derive(Debug, Clone, Copy, PartialEq, Eq, Structural)]
pub enum ValueState {
    Enabled,
    Correct,
    Wrong,
    Disabled,
    Hidden,
}

/// The state of a command that the user can run.
#[derive(Debug, Clone, Copy, PartialEq, Eq, Structural)]
pub enum CommandState {
    Enabled,
    Disabled,
    Hidden,
}

} // verus!
