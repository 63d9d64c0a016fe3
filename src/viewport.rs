use vstd::prelude::*;
use crate::links::RSGNodeKey;

verus! {

/// A rectangle of the render target, in pixels.
#[derive(Clone, Copy, PartialEq, Eq, Structural, Debug)]
pub struct RSGViewportRect {
    pub x: u32,
    pub y: u32,
    pub w: u32,
    pub h: u32,
}

impl Default for RSGViewportRect {
    fn default() -> (r: Self)
        ensures
            r.x == 0 && r.y == 0 && r.w == 0 && r.h == 0,
    {
        RSGViewportRect { x: 0, y: 0, w: 0, h: 0 }
    }
}

/// A viewport: where its subtree is drawn, and through which camera node.
#[derive(Clone, Copy, PartialEq, Eq, Structural, Debug)]
pub struct RSGViewportComponent {
    pub rect: Option<RSGViewportRect>,
    pub camera_node_key: Option<RSGNodeKey>,
}

impl RSGViewportComponent {
    /// A viewport over `rect` (the whole target when absent) seen through the camera
    /// of node `camera_node_key`, if any.
    pub fn new(rect: Option<RSGViewportRect>, camera_node_key: Option<RSGNodeKey>) -> (r: Self)
        ensures
            r.rect == rect,
            r.camera_node_key == camera_node_key,
    {
        RSGViewportComponent { rect, camera_node_key }
    }
}

} // verus!
