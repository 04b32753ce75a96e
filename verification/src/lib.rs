//! Verified core of the `malx` renderer and its asset loaders.

pub mod controls;
pub mod error;
pub mod frame;
pub mod geometry;
pub mod gltf;
pub mod loader;
pub mod obj;
pub mod text;

use vstd::prelude::*;

verus! {
} // verus!
