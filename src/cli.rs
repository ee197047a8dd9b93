//! Values given on the command line.

use vstd::prelude::*;

pub use crate::settings::{Direction, StartCorner};

verus! {

/// The strip layout as given on the command line.
#[derive(Clone, Copy, Debug)]
pub struct RustylightCli {
    pub start_corner: StartCorner,
    pub direction: Direction,
    pub led_count: u32,
}

} // verus!
