//! The camera's state. Its coordinates are type parameters: the library
//! decides which values change and when, while the arithmetic on them is
//! supplied by the caller.
use vstd::prelude::*;

verus! {

/// Why a camera could not be made.
#[derive(Clone, Copy, Debug, PartialEq, Eq, Structural)]
pub enum CameraError {
    /// The viewport has no height, so its aspect ratio is not finite.
    ZeroHeight,
}

/// The size of the viewport in pixels. Its aspect ratio is the fraction
/// `width / height`, kept exactly as the two sizes.
#[derive(Clone, Copy, Debug, PartialEq, Eq, Structural)]
pub struct Viewport {
    pub width: u32,
    pub height: u32,
}

impl Viewport {
    /// The aspect ratio of this viewport is `num / den`.
    pub open spec fn has_aspect(self, num: int, den: int) -> bool {
        self.width * den == num * self.height
    }
}

/// A camera: where it stands (`eye`), the point it looks at (`target`), its
/// up direction, its vertical field of view in degrees, and the viewport
/// that gives its aspect ratio.
#[derive(Clone, Copy, Debug)]
pub struct Camera<P, V, S> {
    pub eye: P,
    pub target: P,
    pub up: V,
    pub fov: S,
    pub viewport: Viewport,
}

impl<P, V, S> Camera<P, V, S> {
    /// A camera at `eye` looking at `target` through a viewport of
    /// `width` by `height` pixels; fails when `height` is zero.
    pub fn new(eye: P, target: P, up: V, fov: S, width: u32, height: u32) -> (r: Result<Self, CameraError>)
        ensures
            height == 0 <==> (r == Err::<Self, CameraError>(CameraError::ZeroHeight)),
            height != 0 ==> (r == Ok::<Self, CameraError>(
                Camera { eye, target, up, fov, viewport: Viewport { width, height } },
            )),
            height != 0 ==> r->Ok_0.viewport.has_aspect(width as int, height as int),
    {
        if height == 0 {
            Err(CameraError::ZeroHeight)
        } else {
            Ok(Camera { eye, target, up, fov, viewport: Viewport { width, height } })
        }
    }

    /// Takes the new viewport size; nothing else changes.
    pub fn resize(&mut self, width: u32, height: u32)
        ensures
            final(self).viewport == (Viewport { width, height }),
            final(self).eye == old(self).eye,
            final(self).target == old(self).target,
            final(self).up == old(self).up,
            final(self).fov == old(self).fov,
    {
        self.viewport = Viewport { width, height };
    }
}

} // verus!
