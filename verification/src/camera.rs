//! The two cameras.

use vstd::prelude::*;

verus! {

/// One of the two cameras.
#[derive(Clone, Copy, Debug, PartialEq, Eq, Structural)]
pub enum CameraId {
    Left,
    Right,
}

impl CameraId {
    /// The camera's place in every per-camera table.
    pub open spec fn index(self) -> int {
        match self {
            CameraId::Left => 0,
            CameraId::Right => 1,
        }
    }

    /// The camera that it is paired with.
    pub open spec fn other(self) -> CameraId {
        match self {
            CameraId::Left => CameraId::Right,
            CameraId::Right => CameraId::Left,
        }
    }
}

/// The camera's place in every per-camera table.
pub fn camera_index(camera: CameraId) -> (r: usize)
    ensures
        r == camera.index(),
        r < 2,
{
    match camera {
        CameraId::Left => 0,
        CameraId::Right => 1,
    }
}

/// The place of the camera that it is paired with.
pub fn other_camera_index(camera: CameraId) -> (r: usize)
    ensures
        r == camera.other().index(),
        r < 2,
        r != camera.index(),
{
    1 - camera_index(camera)
}

/// Each camera is paired with the other one, and the two have places of their own.
pub proof fn law_cameras_are_paired(camera: CameraId)
    ensures
        camera.other() != camera,
        camera.other().other() == camera,
        camera.index() + camera.other().index() == 1,
        camera.index() == 0 <==> camera == CameraId::Left,
{
}

} // verus!
