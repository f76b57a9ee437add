//! The abstract input actions games read through `input.LEFT` and the
//! like. The keys, buttons and stick directions behind each action are
//! the engine's business.

use vstd::prelude::*;

verus! {

pub const ACTION_LEFT: u32 = 1;
pub const ACTION_RIGHT: u32 = 2;
pub const ACTION_UP: u32 = 3;
pub const ACTION_DOWN: u32 = 4;
pub const ACTION_CONFIRM: u32 = 5;
pub const ACTION_CANCEL: u32 = 6;

/// The number of actions; their ids run from 1 to this.
pub const ACTION_COUNT: u32 = 6;

/// True when `action` is one of the `ACTION_*` ids.
pub fn is_valid_action(action: u32) -> (r: bool)
    ensures
        r <==> 1 <= action <= ACTION_COUNT,
{
    1 <= action && action <= ACTION_COUNT
}

} // verus!
