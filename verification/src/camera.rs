//! The well-known camera names the base graph's main pass draws for.

use vstd::prelude::*;

verus! {

pub const CAMERA3D: &'static str = "Camera3d";

pub const CAMERA2D: &'static str = "Camera2d";

} // verus!
