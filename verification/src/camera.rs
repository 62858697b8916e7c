//! The camera: position, facing direction, projection plane and eye height.
//! It derives a per-column ray direction and moves under keyboard commands,
//! committing a step only when the destination grid cell is open.

use vstd::prelude::*;
use crate::fixed::{
    Fx, FX_SCALE, fx_div_raw, fx_mul_raw, fx_small, lemma_abs_mul, lemma_tdiv_range, tdiv,
};
use crate::grid::{Grid, MapCell};
use crate::util::{KeyState, Side, Step};
use crate::vec2::{
    Vec2, lemma_norm_component, lemma_rotate_keeps_norm, norm_sq, rot_x_raw, rot_y_raw, v_small,
};

verus! {

/// Upper bound on the raw norm of the direction and plane vectors.
pub const DIR_NORM_BOUND: i64 = 0x100_0000;

/// Upper bound on a raw position coordinate (and on the eye height).
pub const POS_BOUND: i64 = 0x8000_0000;

/// One recorded wall crossing along a column's ray: which axis was crossed,
/// the travel direction on each axis, the cell hit, and the sub-cell offset
/// of the wall plane (zero for full walls).
#[derive(Clone, Copy, Debug)]
pub struct Intersection {
    pub side: Side,
    pub step: Vec2<Step>,
    pub map_coordinates: Vec2<usize>,
    pub wall_offset: Vec2<Fx>,
}

/// A per-column transient: the column's ray direction plus the ordered
/// intersections the traversal found, consumed immediately by the compositor.
pub struct Ray {
    pub direction: Vec2<Fx>,
    pub intersections: Vec<Intersection>,
}

/// The player's viewpoint.
pub struct Camera {
    pub position: Vec2<Fx>,
    pub direction: Vec2<Fx>,
    pub plane: Vec2<Fx>,
    pub height: Fx,
}

/// The signed screen-space offset of a column, in [-1, 1] at fixed-point
/// scale: 2 * x / width - 1.
pub open spec fn camera_x_raw(x: int, width: int) -> int {
    tdiv(2 * x * (FX_SCALE as int), width) - FX_SCALE
}

/// The ray direction a camera derives for one screen column: the facing
/// direction plus the plane scaled by the column's signed offset.
pub open spec fn ray_direction_spec(cam: Camera, x: int, width: int) -> Vec2<Fx> {
    Vec2 {
        x: Fx {
            raw: (cam.direction.x.raw + fx_mul_raw(
                cam.plane.x.raw as int,
                camera_x_raw(x, width),
            )) as i64,
        },
        y: Fx {
            raw: (cam.direction.y.raw + fx_mul_raw(
                cam.plane.y.raw as int,
                camera_x_raw(x, width),
            )) as i64,
        },
    }
}

/// Whether a raw position stands in an open (Empty) cell of the grid. The
/// grid coordinate is the whole part of each component.
pub open spec fn raw_open(world: Grid, xr: int, yr: int) -> bool {
    &&& 0 <= xr <= POS_BOUND
    &&& 0 <= yr <= POS_BOUND
    &&& world.in_bounds(xr / (FX_SCALE as int), yr / (FX_SCALE as int))
    &&& (world.cell(xr / (FX_SCALE as int), yr / (FX_SCALE as int)) matches MapCell::Empty { .. })
}

/// A candidate move: the displaced position when its cell is open, the
/// original position otherwise. No sliding, no partial movement.
pub open spec fn try_move_raw(world: Grid, px: int, py: int, dx: int, dy: int) -> (int, int) {
    if raw_open(world, px + dx, py + dy) {
        (px + dx, py + dy)
    } else {
        (px, py)
    }
}

/// Camera movement never commits a position whose grid cell is not open: a
/// move toward a wall, a thin wall or out of the grid leaves the position
/// unchanged, and a committed move always stands in an open cell.
pub proof fn lemma_move_commits_only_open(world: Grid, px: int, py: int, dx: int, dy: int)
    ensures
        try_move_raw(world, px, py, dx, dy) == (px, py) || raw_open(
            world,
            px + dx,
            py + dy,
        ),
        !raw_open(world, px + dx, py + dy) ==> try_move_raw(world, px, py, dx, dy) == (px, py),
        raw_open(world, px + dx, py + dy) ==> try_move_raw(world, px, py, dx, dy) == (
            px + dx,
            py + dy,
        ),
{
}

/// The position after one frame of movement input: forward, back, then the
/// two strafes, each an independent candidate move from the position the
/// previous one left. Forward and back displace along the facing direction
/// at full speed; strafing along the direction rotated a quarter turn, at
/// two thirds speed.
pub open spec fn update_position_spec(world: Grid, cam: Camera, keys: KeyState, ms: int) -> (
    int,
    int,
) {
    let dx = cam.direction.x.raw as int;
    let dy = cam.direction.y.raw as int;
    let sms = fx_div_raw(ms, 98304);
    let p0 = (cam.position.x.raw as int, cam.position.y.raw as int);
    let p1 = if keys.forward {
        try_move_raw(world, p0.0, p0.1, fx_mul_raw(dx, ms), fx_mul_raw(dy, ms))
    } else {
        p0
    };
    let p2 = if keys.back {
        try_move_raw(world, p1.0, p1.1, -fx_mul_raw(dx, ms), -fx_mul_raw(dy, ms))
    } else {
        p1
    };
    let p3 = if keys.strafe_left {
        try_move_raw(world, p2.0, p2.1, -fx_mul_raw(dy, sms), fx_mul_raw(dx, sms))
    } else {
        p2
    };
    if keys.strafe_right {
        try_move_raw(world, p3.0, p3.1, fx_mul_raw(dy, sms), -fx_mul_raw(dx, sms))
    } else {
        p3
    }
}

/// A basis vector after one frame of rotation input: a left turn by the
/// angle whose cosine and sine are (c, s), then a right turn by its
/// opposite, each applied only while its key is held.
pub open spec fn update_rotation_spec(v: Vec2<Fx>, keys: KeyState, c: int, s: int) -> (int, int) {
    let d0 = (v.x.raw as int, v.y.raw as int);
    let d1 = if keys.turn_left {
        (rot_x_raw(d0.0, d0.1, c, s), rot_y_raw(d0.0, d0.1, c, s))
    } else {
        d0
    };
    if keys.turn_right {
        (rot_x_raw(d1.0, d1.1, c, -s), rot_y_raw(d1.0, d1.1, c, -s))
    } else {
        d1
    }
}

/// After a frame of movement the camera either kept its old position or
/// stands in an open cell, whatever keys were held.
pub proof fn lemma_update_position_safe(world: Grid, cam: Camera, keys: KeyState, ms: int)
    ensures
        ({
            let p = update_position_spec(world, cam, keys, ms);
            p == (cam.position.x.raw as int, cam.position.y.raw as int) || raw_open(
                world,
                p.0,
                p.1,
            )
        }),
{
}

impl Camera {
    /// Position inside the non-negative working range, direction and plane
    /// norms bounded, eye height bounded.
    pub open spec fn wf(&self) -> bool {
        &&& 0 <= self.position.x.raw <= POS_BOUND
        &&& 0 <= self.position.y.raw <= POS_BOUND
        &&& norm_sq(self.direction) <= DIR_NORM_BOUND as int * DIR_NORM_BOUND as int
        &&& norm_sq(self.plane) <= DIR_NORM_BOUND as int * DIR_NORM_BOUND as int
        &&& -POS_BOUND <= self.height.raw <= POS_BOUND
    }

    /// The ray for one screen column: the facing direction plus the plane
    /// scaled by the column's signed offset in [-1, 1]. The fan of these
    /// rays spans the field of view the plane encodes.
    pub fn get_ray(&self, x: usize, screen_width: usize) -> (r: Ray)
        requires
            self.wf(),
            1 <= screen_width <= 32768,
            x < screen_width,
        ensures
            r.intersections@.len() == 0,
            r.direction.x.raw == self.direction.x.raw + fx_mul_raw(
                self.plane.x.raw as int,
                camera_x_raw(x as int, screen_width as int),
            ),
            r.direction.y.raw == self.direction.y.raw + fx_mul_raw(
                self.plane.y.raw as int,
                camera_x_raw(x as int, screen_width as int),
            ),
            -0x400_0000 <= r.direction.x.raw <= 0x400_0000,
            -0x400_0000 <= r.direction.y.raw <= 0x400_0000,
            r.direction == ray_direction_spec(*self, x as int, screen_width as int),
    {
        proof {
            lemma_norm_component(
                self.plane.x.raw as int,
                self.plane.y.raw as int,
                DIR_NORM_BOUND as int,
            );
            lemma_norm_component(
                self.direction.x.raw as int,
                self.direction.y.raw as int,
                DIR_NORM_BOUND as int,
            );
        }
        let num: u64 = 2 * (x as u64) * 65536;
        let sw: u64 = screen_width as u64;
        proof {
            vstd::arithmetic::div_mod::lemma_multiply_divide_le(
                num as int,
                sw as int,
                131072,
            );
            vstd::arithmetic::div_mod::lemma_div_pos_is_pos(num as int, sw as int);
        }
        let q: u64 = num / sw;
        let cx: Fx = Fx { raw: (q as i64) - 65536 };
        proof {
            lemma_abs_mul(self.plane.x.raw as int, cx.raw as int, DIR_NORM_BOUND as int, 65536);
            lemma_abs_mul(self.plane.y.raw as int, cx.raw as int, DIR_NORM_BOUND as int, 65536);
            lemma_tdiv_range(
                self.plane.x.raw as int * cx.raw as int,
                DIR_NORM_BOUND as int * 65536,
                FX_SCALE as int,
            );
            lemma_tdiv_range(
                self.plane.y.raw as int * cx.raw as int,
                DIR_NORM_BOUND as int * 65536,
                FX_SCALE as int,
            );
        }
        let px: Fx = self.plane.x.times(cx);
        let py: Fx = self.plane.y.times(cx);
        Ray {
            direction: Vec2 { x: self.direction.x.plus(px), y: self.direction.y.plus(py) },
            intersections: Vec::new(),
        }
    }

    /// Applies one frame of polled input: four candidate moves, each
    /// committed only when its destination cell is open, then the turns,
    /// which rotate direction and plane together by the same angle and so
    /// preserve the field of view. `rot_cos` and `rot_sin` describe the
    /// per-frame turn angle; as a cosine/sine pair their norm cannot exceed
    /// one.
    pub fn update_position_with_keys(
        &mut self,
        move_speed: Fx,
        rot_cos: Fx,
        rot_sin: Fx,
        keys: &KeyState,
        world: &Grid,
    )
        requires
            old(self).wf(),
            world.wf(),
            0 <= move_speed.raw,
            fx_small(move_speed.raw as int),
            rot_cos.raw as int * rot_cos.raw + rot_sin.raw as int * rot_sin.raw <= FX_SCALE as int
                * FX_SCALE as int,
        ensures
            final(self).wf(),
            (final(self).position.x.raw as int, final(self).position.y.raw as int)
                == update_position_spec(*world, *old(self), *keys, move_speed.raw as int),
            (final(self).direction.x.raw as int, final(self).direction.y.raw as int)
                == update_rotation_spec(
                old(self).direction,
                *keys,
                rot_cos.raw as int,
                rot_sin.raw as int,
            ),
            (final(self).plane.x.raw as int, final(self).plane.y.raw as int)
                == update_rotation_spec(
                old(self).plane,
                *keys,
                rot_cos.raw as int,
                rot_sin.raw as int,
            ),
            final(self).height == old(self).height,
    {
        proof {
            lemma_norm_component(
                self.direction.x.raw as int,
                self.direction.y.raw as int,
                DIR_NORM_BOUND as int,
            );
            lemma_norm_component(
                self.plane.x.raw as int,
                self.plane.y.raw as int,
                DIR_NORM_BOUND as int,
            );
            lemma_norm_component(rot_cos.raw as int, rot_sin.raw as int, FX_SCALE as int);
            lemma_tdiv_range(
                move_speed.raw as int * (FX_SCALE as int),
                0x40_0000_0000 * (FX_SCALE as int),
                98304,
            );
        }
        let sms: Fx = move_speed.over(Fx { raw: 98304 });
        if keys.forward {
            let d: Vec2<Fx> = self.direction.scale(move_speed);
            let (nx, ny) = attempt_move(world, self.position.x, self.position.y, d.x, d.y);
            self.position = Vec2 { x: nx, y: ny };
        }
        if keys.back {
            let d: Vec2<Fx> = self.direction.scale(move_speed);
            let (nx, ny) = attempt_move(
                world,
                self.position.x,
                self.position.y,
                d.x.neg(),
                d.y.neg(),
            );
            self.position = Vec2 { x: nx, y: ny };
        }
        if keys.strafe_left {
            let tx: Fx = self.direction.y.times(sms);
            let ty: Fx = self.direction.x.times(sms);
            let (nx, ny) = attempt_move(world, self.position.x, self.position.y, tx.neg(), ty);
            self.position = Vec2 { x: nx, y: ny };
        }
        if keys.strafe_right {
            let tx: Fx = self.direction.y.times(sms);
            let ty: Fx = self.direction.x.times(sms);
            let (nx, ny) = attempt_move(world, self.position.x, self.position.y, tx, ty.neg());
            self.position = Vec2 { x: nx, y: ny };
        }
        if keys.turn_left {
            proof {
                lemma_rotate_keeps_norm(
                    self.direction.x.raw as int,
                    self.direction.y.raw as int,
                    rot_cos.raw as int,
                    rot_sin.raw as int,
                    DIR_NORM_BOUND as int,
                );
                lemma_rotate_keeps_norm(
                    self.plane.x.raw as int,
                    self.plane.y.raw as int,
                    rot_cos.raw as int,
                    rot_sin.raw as int,
                    DIR_NORM_BOUND as int,
                );
            }
            self.direction.rotate(rot_cos, rot_sin);
            self.plane.rotate(rot_cos, rot_sin);
        }
        if keys.turn_right {
            let ns: Fx = rot_sin.neg();
            proof {
                assert(rot_cos.raw as int * rot_cos.raw + ns.raw as int * ns.raw <= FX_SCALE as int
                    * FX_SCALE as int) by (nonlinear_arith)
                    requires
                        ns.raw as int == -(rot_sin.raw as int),
                        rot_cos.raw as int * rot_cos.raw + rot_sin.raw as int * rot_sin.raw
                            <= FX_SCALE as int * FX_SCALE as int,
                        FX_SCALE == 65536,
                ;
                lemma_norm_component(
                    self.direction.x.raw as int,
                    self.direction.y.raw as int,
                    DIR_NORM_BOUND as int,
                );
                lemma_norm_component(
                    self.plane.x.raw as int,
                    self.plane.y.raw as int,
                    DIR_NORM_BOUND as int,
                );
                lemma_rotate_keeps_norm(
                    self.direction.x.raw as int,
                    self.direction.y.raw as int,
                    rot_cos.raw as int,
                    ns.raw as int,
                    DIR_NORM_BOUND as int,
                );
                lemma_rotate_keeps_norm(
                    self.plane.x.raw as int,
                    self.plane.y.raw as int,
                    rot_cos.raw as int,
                    ns.raw as int,
                    DIR_NORM_BOUND as int,
                );
            }
            self.direction.rotate(rot_cos, ns);
            self.plane.rotate(rot_cos, ns);
        }
    }
}

/// One candidate move: displace, floor to grid coordinates, look the cell
/// up, and commit only when it is open.
fn attempt_move(world: &Grid, px: Fx, py: Fx, dx: Fx, dy: Fx) -> (r: (Fx, Fx))
    requires
        world.wf(),
        0 <= px.raw <= POS_BOUND,
        0 <= py.raw <= POS_BOUND,
        -0x1000_0000_0000_0000 <= dx.raw <= 0x1000_0000_0000_0000,
        -0x1000_0000_0000_0000 <= dy.raw <= 0x1000_0000_0000_0000,
    ensures
        (r.0.raw as int, r.1.raw as int) == try_move_raw(
            *world,
            px.raw as int,
            py.raw as int,
            dx.raw as int,
            dy.raw as int,
        ),
        0 <= r.0.raw <= POS_BOUND,
        0 <= r.1.raw <= POS_BOUND,
{
    let nx: i64 = px.raw + dx.raw;
    let ny: i64 = py.raw + dy.raw;
    if nx >= 0 && nx <= POS_BOUND && ny >= 0 && ny <= POS_BOUND {
        proof {
            vstd::arithmetic::div_mod::lemma_div_pos_is_pos(nx as int, FX_SCALE as int);
            vstd::arithmetic::div_mod::lemma_div_pos_is_pos(ny as int, FX_SCALE as int);
            vstd::arithmetic::div_mod::lemma_div_is_ordered(
                nx as int,
                POS_BOUND as int,
                FX_SCALE as int,
            );
            vstd::arithmetic::div_mod::lemma_div_is_ordered(
                ny as int,
                POS_BOUND as int,
                FX_SCALE as int,
            );
        }
        let gx: usize = (nx / FX_SCALE) as usize;
        let gy: usize = (ny / FX_SCALE) as usize;
        match world.at(&Vec2 { x: gx, y: gy }) {
            Some(c) => match c {
                MapCell::Empty { .. } => (Fx { raw: nx }, Fx { raw: ny }),
                _ => (px, py),
            },
            None => (px, py),
        }
    } else {
        (px, py)
    }
}

} // verus!
