// Touchpad gesture recognition: frames of finger positions in, shell commands out.
use vstd::prelude::*;

pub mod geometry;
pub mod frame;
pub mod sequence_step;
pub mod config;
pub mod matcher;
pub mod engine;
pub mod laws;
pub mod loader;
pub mod wayland;

verus! {

} // verus!
