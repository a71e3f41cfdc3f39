//! Overlay-panel state: what the interaction shell tunes at runtime.
//!
//! The shell itself (window, input, rendering) lives outside this crate;
//! only the plain state it manipulates is kept here.

use vstd::prelude::*;

verus! {

/// State of the runtime control panel: whether the simulation is ticking,
/// and the grid dimensions a pending resize would apply.
pub struct Gui {
    /// Whether `update` is being driven on the fixed cadence.
    pub playing: bool,
    /// Width a pending resize would give the grid.
    pub new_width: u32,
    /// Height a pending resize would give the grid.
    pub new_height: u32,
}

impl Gui {
    /// Fresh panel state: playing, with a 256 x 256 pending size.
    pub fn new() -> (g: Gui)
        ensures
            g.playing,
            g.new_width == 256,
            g.new_height == 256,
    {
        Gui { playing: true, new_width: 256, new_height: 256 }
    }
}

} // verus!
