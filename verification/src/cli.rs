//! Parsed command-line configuration. Argument parsing itself happens
//! outside the library; this is the plain value it produces.

use vstd::prelude::*;

verus! {

/// Configuration to start a world: the robot's name and the world's
/// dimensions in tiles.
#[derive(Debug)]
pub struct Cli {
    /// Name of the robot to be added to the world.
    pub name: String,
    /// Height (number of tiles) of the world.
    pub height: u32,
    /// Width (number of tiles) of the world.
    pub width: u32,
}

impl Cli {
    pub fn new(name: String, height: u32, width: u32) -> (r: Self)
        ensures
            r.name == name,
            r.height == height,
            r.width == width,
    {
        Cli { name, height, width }
    }
}

} // verus!
