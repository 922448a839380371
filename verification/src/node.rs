//! The well-known node names of the base graph: the shared naming
//! convention through which independently developed plugins refer to
//! each other's nodes without a central registry.

use vstd::prelude::*;

verus! {

pub const PRIMARY_SWAP_CHAIN: &'static str = "swapchain";

pub const CAMERA3D: &'static str = "camera3d";

pub const CAMERA2D: &'static str = "camera2d";

pub const TEXTURE_COPY: &'static str = "texture_copy";

pub const MAIN_DEPTH_TEXTURE: &'static str = "main_pass_depth_texture";

pub const MAIN_PASS: &'static str = "main_pass";

pub const SHARED_BUFFERS: &'static str = "shared_buffers";

} // verus!
