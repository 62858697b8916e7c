//! Shared small types: crossing axes, step directions, sprites, and the
//! polled key state the camera reacts to.

use vstd::prelude::*;
use crate::fixed::Fx;
use crate::vec2::{Vec2, v_small};
use crate::fixed::fx_small;

verus! {

/// Which grid axis a ray crossing stepped over.
#[derive(Clone, Copy, PartialEq, Eq, Structural, Debug)]
pub enum Side {
    X,
    Y,
}

/// The axis a thin wall's plane is offset along.
#[derive(Clone, Copy, PartialEq, Eq, Structural, Debug)]
pub enum Orientation {
    XAxis,
    YAxis,
}

/// Direction of travel along one grid axis.
#[derive(Clone, Copy, PartialEq, Eq, Structural, Debug)]
pub enum Step {
    Left,
    Right,
}

/// The signed unit step a direction stands for.
pub open spec fn step_sign(s: Step) -> int {
    match s {
        Step::Left => -1,
        Step::Right => 1,
    }
}

impl Step {
    /// The signed unit step: -1 for left, +1 for right.
    pub fn value(&self) -> (r: i32)
        ensures
            r == step_sign(*self),
    {
        match self {
            Step::Left => -1,
            Step::Right => 1,
        }
    }

    /// Left when the ray's component is negative, right otherwise.
    pub fn from(value: bool) -> (r: Step)
        ensures
            r == if value {
                Step::Left
            } else {
                Step::Right
            },
    {
        match value {
            true => Step::Left,
            false => Step::Right,
        }
    }
}

/// A billboarded object in the world, drawn after the walls with the shared
/// depth buffer arbitrating occlusion. The texture is an index into the
/// asset table; the camera distance is recomputed every frame.
#[derive(Clone, Copy, Debug)]
pub struct Sprite {
    pub position: Vec2<Fx>,
    pub texture: usize,
    pub vertical_offset: Fx,
    pub scale_factor: Vec2<Fx>,
    pub distance_from_camera: Fx,
}

/// A sprite whose geometry stays inside the fixed-point working range: it
/// stands in the world's non-negative coordinate quadrant like the camera.
pub open spec fn sprite_small(s: Sprite) -> bool {
    &&& 0 <= s.position.x.raw <= 0x8000_0000
    &&& 0 <= s.position.y.raw <= 0x8000_0000
    &&& fx_small(s.vertical_offset.raw as int)
    &&& v_small(s.scale_factor)
    &&& 0 <= s.scale_factor.x.raw
    &&& 0 <= s.scale_factor.y.raw
}

/// The six logical movement and rotation actions, polled once per frame.
#[derive(Clone, Copy, PartialEq, Eq, Structural, Debug)]
pub struct KeyState {
    pub forward: bool,
    pub back: bool,
    pub strafe_left: bool,
    pub strafe_right: bool,
    pub turn_left: bool,
    pub turn_right: bool,
}

} // verus!
