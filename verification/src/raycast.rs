//! The ray traversal engine: for one screen column, walk the grid by DDA
//! stepping and record every wall crossing until an opaque cell stops the
//! ray or it leaves the world.

use vstd::prelude::*;
use vstd::assert_seqs_equal;
use crate::camera::{Camera, Intersection, Ray, camera_x_raw};
use crate::fixed::{
    FX_INF, FX_SCALE, Fx, fx_div_raw, fx_mul_raw, lemma_tdiv_range, tdiv,
};
use crate::grid::{Grid, MapCell};
use crate::texture::Texture;
use crate::util::{Orientation, Side, Step, step_sign};
use crate::vec2::Vec2;

verus! {

/// Magnitude of an integer.
pub open spec fn mag(a: int) -> int {
    if a >= 0 {
        a
    } else {
        -a
    }
}

/// A sum of side distances, capped at the far sentinel.
pub open spec fn add_cap_raw(a: int, b: int) -> int {
    if a + b <= FX_INF {
        a + b
    } else {
        FX_INF as int
    }
}

/// Raw distance the ray travels between two grid lines on one axis:
/// |1 / direction|, or the far sentinel when the ray never crosses that
/// axis.
pub open spec fn delta_dist_raw(d: int) -> int {
    if d == 0 {
        FX_INF as int
    } else {
        tdiv(65536int * 65536int, mag(d))
    }
}

/// Raw distance from the camera to the first grid line crossing on one
/// axis: the fractional position times the per-cell delta, toward the
/// lower or upper cell edge according to the ray's sign.
pub open spec fn side_dist_init_raw(posr: int, d: int) -> int {
    if d == 0 {
        FX_INF as int
    } else if d < 0 {
        fx_mul_raw(posr % 65536, delta_dist_raw(d))
    } else {
        fx_mul_raw(65536 - posr % 65536, delta_dist_raw(d))
    }
}

/// Whether a wall texture index names a transparency-keyed texture; an
/// index outside the asset table counts as opaque, stopping the ray.
pub open spec fn wall_transparent(textures: Seq<Texture>, t: int) -> bool {
    0 <= t < textures.len() && textures[t].has_transparency
}

/// Steps left before the traversal must leave the grid on one axis.
pub open spec fn axis_measure(p: int, bound: int, s: Step) -> int {
    match s {
        Step::Right => if p < bound {
            bound - p
        } else {
            0
        },
        Step::Left => if p >= -1 {
            p + 1
        } else {
            0
        },
    }
}

/// Steps left before the traversal must end.
pub open spec fn dda_measure(world: Grid, mx: int, my: int, sx: Step, sy: Step) -> int {
    axis_measure(mx, world.height as int, sx) + axis_measure(my, world.width as int, sy)
}

/// The intersections the traversal records from a given state: advance on
/// the axis with the smaller accumulated side distance (ties go to y, as
/// the strict `x < y` comparison dictates), then inspect the cell entered.
/// A wall records a hit and stops unless its texture is transparency-keyed;
/// a thin wall records a hit only when the adjusted side distance does not
/// overshoot the other axis (a miss walks on without crossing further);
/// open cells continue; leaving the grid ends the ray.
pub open spec fn dda_from(
    world: Grid,
    textures: Seq<Texture>,
    mx: int,
    my: int,
    sdx: int,
    sdy: int,
    step_x: Step,
    step_y: Step,
    delta_x: int,
    delta_y: int,
) -> Seq<Intersection>
    decreases dda_measure(world, mx, my, step_x, step_y),
{
    if !world.in_bounds(mx, my) {
        Seq::empty()
    } else {
        let go_x = sdx < sdy;
        let nmx = if go_x {
            mx + step_sign(step_x)
        } else {
            mx
        };
        let nmy = if go_x {
            my
        } else {
            my + step_sign(step_y)
        };
        let nsdx = if go_x {
            add_cap_raw(sdx, delta_x)
        } else {
            sdx
        };
        let nsdy = if go_x {
            sdy
        } else {
            add_cap_raw(sdy, delta_y)
        };
        let side = if go_x {
            Side::X
        } else {
            Side::Y
        };
        if !world.in_bounds(nmx, nmy) {
            Seq::empty()
        } else {
            match world.cell(nmx, nmy) {
                MapCell::Empty { .. } => dda_from(
                    world,
                    textures,
                    nmx,
                    nmy,
                    nsdx,
                    nsdy,
                    step_x,
                    step_y,
                    delta_x,
                    delta_y,
                ),
                MapCell::Wall { texture } => {
                    let hit = Intersection {
                        side: side,
                        step: Vec2 { x: step_x, y: step_y },
                        map_coordinates: Vec2 { x: nmx as usize, y: nmy as usize },
                        wall_offset: Vec2 { x: Fx { raw: 0 }, y: Fx { raw: 0 } },
                    };
                    if wall_transparent(textures, texture as int) {
                        seq![hit] + dda_from(
                            world,
                            textures,
                            nmx,
                            nmy,
                            nsdx,
                            nsdy,
                            step_x,
                            step_y,
                            delta_x,
                            delta_y,
                        )
                    } else {
                        seq![hit]
                    }
                },
                MapCell::ThinWall { texture, orientation, offset_into_cell, .. } => {
                    let along_x = orientation is XAxis;
                    let sd_own = if along_x {
                        nsdx
                    } else {
                        nsdy
                    };
                    let sd_other = if along_x {
                        nsdy
                    } else {
                        nsdx
                    };
                    let delta_own = if along_x {
                        delta_x
                    } else {
                        delta_y
                    };
                    let miss = delta_own == FX_INF || sd_own - fx_mul_raw(
                        delta_own,
                        offset_into_cell.raw as int,
                    ) > sd_other;
                    if miss {
                        dda_from(
                            world,
                            textures,
                            nmx,
                            nmy,
                            nsdx,
                            nsdy,
                            step_x,
                            step_y,
                            delta_x,
                            delta_y,
                        )
                    } else {
                        let signed_off = if along_x {
                            if step_x is Left {
                                -offset_into_cell.raw
                            } else {
                                offset_into_cell.raw as int
                            }
                        } else {
                            if step_y is Left {
                                -offset_into_cell.raw
                            } else {
                                offset_into_cell.raw as int
                            }
                        };
                        let hit = Intersection {
                            side: if along_x {
                                Side::X
                            } else {
                                Side::Y
                            },
                            step: Vec2 { x: step_x, y: step_y },
                            map_coordinates: Vec2 { x: nmx as usize, y: nmy as usize },
                            wall_offset: Vec2 {
                                x: if along_x {
                                    Fx { raw: signed_off as i64 }
                                } else {
                                    Fx { raw: 0 }
                                },
                                y: if along_x {
                                    Fx { raw: 0 }
                                } else {
                                    Fx { raw: signed_off as i64 }
                                },
                            },
                        };
                        if wall_transparent(textures, texture as int) {
                            seq![hit] + dda_from(
                                world,
                                textures,
                                nmx,
                                nmy,
                                nsdx,
                                nsdy,
                                step_x,
                                step_y,
                                delta_x,
                                delta_y,
                            )
                        } else {
                            seq![hit]
                        }
                    }
                },
            }
        }
    }
}

/// The intersections the ray for screen column `x` finds, walking from
/// the camera's cell with the column's derived direction.
pub open spec fn column_intersections(
    world: Grid,
    textures: Seq<Texture>,
    camera: Camera,
    x: int,
    width: int,
) -> Seq<Intersection> {
    let dir = crate::camera::ray_direction_spec(camera, x, width);
    dda_from(
        world,
        textures,
        camera.position.x.raw as int / (FX_SCALE as int),
        camera.position.y.raw as int / (FX_SCALE as int),
        side_dist_init_raw(camera.position.x.raw as int, dir.x.raw as int),
        side_dist_init_raw(camera.position.y.raw as int, dir.y.raw as int),
        if dir.x.raw < 0 {
            Step::Left
        } else {
            Step::Right
        },
        if dir.y.raw < 0 {
            Step::Left
        } else {
            Step::Right
        },
        delta_dist_raw(dir.x.raw as int),
        delta_dist_raw(dir.y.raw as int),
    )
}

/// Whether a wall texture index names a transparency-keyed texture.
fn is_transparent(textures: &Vec<Texture>, t: usize) -> (r: bool)
    ensures
        r == wall_transparent(textures@, t as int),
{
    if t < textures.len() {
        textures[t].has_transparency
    } else {
        false
    }
}

/// The per-axis grid-line distance for a direction component.
fn delta_dist(d: Fx) -> (r: Fx)
    ensures
        r.raw == delta_dist_raw(d.raw as int),
        0 <= r.raw,
        r.raw <= 0x1_0000_0000 || r.raw == FX_INF,
{
    if d.raw == 0 {
        Fx { raw: FX_INF }
    } else {
        proof {
            vstd::arithmetic::div_mod::lemma_div_pos_is_pos(
                65536int * 65536int,
                mag(d.raw as int),
            );
            vstd::arithmetic::div_mod::lemma_div_nonincreasing(
                65536int * 65536int,
                mag(d.raw as int),
            );
        }
        let one: Fx = Fx { raw: FX_SCALE };
        one.over(d).abs()
    }
}

/// The initial side distance for one axis.
fn side_dist_init(pos: Fx, d: Fx, delta: Fx) -> (r: Fx)
    requires
        0 <= pos.raw,
        delta.raw == delta_dist_raw(d.raw as int),
        0 <= delta.raw,
        delta.raw <= 0x1_0000_0000 || delta.raw == FX_INF,
    ensures
        r.raw == side_dist_init_raw(pos.raw as int, d.raw as int),
        0 <= r.raw <= FX_INF,
{
    if d.raw == 0 {
        Fx { raw: FX_INF }
    } else {
        let frac: i64 = pos.frac_raw();
        let m: Fx = if d.raw < 0 {
            Fx { raw: frac }
        } else {
            Fx { raw: FX_SCALE - frac }
        };
        proof {
            vstd::arithmetic::div_mod::lemma_div_pos_is_pos(
                65536int * 65536int,
                mag(d.raw as int),
            );
            vstd::arithmetic::div_mod::lemma_div_nonincreasing(
                65536int * 65536int,
                mag(d.raw as int),
            );
            crate::fixed::lemma_abs_mul(
                m.raw as int,
                delta.raw as int,
                65536,
                0x1_0000_0000,
            );
            lemma_tdiv_range(
                m.raw as int * delta.raw as int,
                65536int * 0x1_0000_0000int,
                FX_SCALE as int,
            );
            vstd::arithmetic::div_mod::lemma_div_pos_is_pos(
                m.raw as int * delta.raw as int,
                FX_SCALE as int,
            );
            vstd::arithmetic::mul::lemma_mul_nonnegative(m.raw as int, delta.raw as int);
        }
        m.times(delta)
    }
}

/// Casts the ray for one screen column and walks the grid, returning the
/// ordered intersections from nearest to farthest. The list is empty when
/// the ray leaves the grid without hitting anything; it holds several
/// entries when the ray passes transparency-keyed surfaces before the
/// final opaque stop.
pub fn cast_ray(
    camera: &Camera,
    x: usize,
    screen_width: usize,
    world: &Grid,
    textures: &Vec<Texture>,
) -> (ray: Ray)
    requires
        camera.wf(),
        world.wf(),
        1 <= screen_width <= 32768,
        x < screen_width,
        world.in_bounds(
            camera.position.x.raw as int / (FX_SCALE as int),
            camera.position.y.raw as int / (FX_SCALE as int),
        ),
    ensures
        ray.direction.x.raw == camera.direction.x.raw + fx_mul_raw(
            camera.plane.x.raw as int,
            camera_x_raw(x as int, screen_width as int),
        ),
        ray.direction.y.raw == camera.direction.y.raw + fx_mul_raw(
            camera.plane.y.raw as int,
            camera_x_raw(x as int, screen_width as int),
        ),
        -0x400_0000 <= ray.direction.x.raw <= 0x400_0000,
        -0x400_0000 <= ray.direction.y.raw <= 0x400_0000,
        ray.intersections@ == dda_from(
            *world,
            textures@,
            camera.position.x.raw as int / (FX_SCALE as int),
            camera.position.y.raw as int / (FX_SCALE as int),
            side_dist_init_raw(camera.position.x.raw as int, ray.direction.x.raw as int),
            side_dist_init_raw(camera.position.y.raw as int, ray.direction.y.raw as int),
            if ray.direction.x.raw < 0 {
                Step::Left
            } else {
                Step::Right
            },
            if ray.direction.y.raw < 0 {
                Step::Left
            } else {
                Step::Right
            },
            delta_dist_raw(ray.direction.x.raw as int),
            delta_dist_raw(ray.direction.y.raw as int),
        ),
        ray.direction == crate::camera::ray_direction_spec(
            *camera,
            x as int,
            screen_width as int,
        ),
        ray.intersections@ == column_intersections(
            *world,
            textures@,
            *camera,
            x as int,
            screen_width as int,
        ),
{
    let ray0: Ray = camera.get_ray(x, screen_width);
    let dir: Vec2<Fx> = ray0.direction;
    let step_x: Step = Step::from(dir.x.raw < 0);
    let step_y: Step = Step::from(dir.y.raw < 0);
    let delta_x: Fx = delta_dist(dir.x);
    let delta_y: Fx = delta_dist(dir.y);
    let sdx0: Fx = side_dist_init(camera.position.x, dir.x, delta_x);
    let sdy0: Fx = side_dist_init(camera.position.y, dir.y, delta_y);
    let mut mx: i64 = camera.position.x.floor_units();
    let mut my: i64 = camera.position.y.floor_units();
    let mut sdx: Fx = sdx0;
    let mut sdy: Fx = sdy0;
    let mut ints: Vec<Intersection> = Vec::new();
    let ghost total: Seq<Intersection> = dda_from(
        *world,
        textures@,
        mx as int,
        my as int,
        sdx.raw as int,
        sdy.raw as int,
        step_x,
        step_y,
        delta_x.raw as int,
        delta_y.raw as int,
    );
    loop
        invariant_except_break
            world.wf(),
            world.in_bounds(mx as int, my as int),
            0 <= sdx.raw <= FX_INF,
            0 <= sdy.raw <= FX_INF,
            0 <= delta_x.raw,
            delta_x.raw <= 0x1_0000_0000 || delta_x.raw == FX_INF,
            0 <= delta_y.raw,
            delta_y.raw <= 0x1_0000_0000 || delta_y.raw == FX_INF,
            total == ints@ + dda_from(
                *world,
                textures@,
                mx as int,
                my as int,
                sdx.raw as int,
                sdy.raw as int,
                step_x,
                step_y,
                delta_x.raw as int,
                delta_y.raw as int,
            ),
        ensures
            ints@ == total,
        decreases dda_measure(*world, mx as int, my as int, step_x, step_y),
    {
        let ghost pre: Seq<Intersection> = dda_from(
            *world,
            textures@,
            mx as int,
            my as int,
            sdx.raw as int,
            sdy.raw as int,
            step_x,
            step_y,
            delta_x.raw as int,
            delta_y.raw as int,
        );
        let side: Side;
        if sdx.raw < sdy.raw {
            sdx = sdx.plus_capped(delta_x);
            match step_x {
                Step::Left => mx = mx - 1,
                Step::Right => mx = mx + 1,
            }
            side = Side::X;
        } else {
            sdy = sdy.plus_capped(delta_y);
            match step_y {
                Step::Left => my = my - 1,
                Step::Right => my = my + 1,
            }
            side = Side::Y;
        }
        if mx < 0 || mx >= world.height as i64 || my < 0 || my >= world.width as i64 {
            break ;
        }
        let cell_pos: Vec2<usize> = Vec2 { x: mx as usize, y: my as usize };
        let cell: &MapCell = match world.at(&cell_pos) {
            Some(c) => c,
            None => {
                proof {
                    assert(false);
                }
                break ;
            },
        };
        match cell {
            MapCell::Empty { .. } => {},
            MapCell::Wall { texture } => {
                let hit = Intersection {
                    side: side,
                    step: Vec2 { x: step_x, y: step_y },
                    map_coordinates: cell_pos,
                    wall_offset: Vec2 { x: Fx { raw: 0 }, y: Fx { raw: 0 } },
                };
                let ghost rest: Seq<Intersection> = dda_from(
                    *world,
                    textures@,
                    mx as int,
                    my as int,
                    sdx.raw as int,
                    sdy.raw as int,
                    step_x,
                    step_y,
                    delta_x.raw as int,
                    delta_y.raw as int,
                );
                let ghost before: Seq<Intersection> = ints@;
                let transparent: bool = is_transparent(textures, *texture);
                ints.push(hit);
                proof {
                    if transparent {
                        assert_seqs_equal!(before + (seq![hit] + rest) == ints@ + rest);
                    } else {
                        assert_seqs_equal!(before + seq![hit] == ints@);
                    }
                }
                if !transparent {
                    break ;
                }
            },
            MapCell::ThinWall { texture, orientation, offset_into_cell, .. } => {
                proof {
                    crate::grid::lemma_row_major_bound(
                        mx as int,
                        my as int,
                        world.height as int,
                        world.width as int,
                    );
                    assert(crate::grid::cell_wf(
                        world.cells@[mx as int * world.width as int + my as int],
                    ));
                }
                let along_x: bool = match orientation {
                    Orientation::XAxis => true,
                    Orientation::YAxis => false,
                };
                let sd_own: Fx = if along_x {
                    sdx
                } else {
                    sdy
                };
                let sd_other: Fx = if along_x {
                    sdy
                } else {
                    sdx
                };
                let delta_own: Fx = if along_x {
                    delta_x
                } else {
                    delta_y
                };
                let miss: bool = if delta_own.raw == FX_INF {
                    true
                } else {
                    let t: Fx = delta_own.times(*offset_into_cell);
                    sd_own.raw - t.raw > sd_other.raw
                };
                if !miss {
                    let off: Fx = *offset_into_cell;
                    let signed_off: Fx = if along_x {
                        match step_x {
                            Step::Left => off.neg(),
                            Step::Right => off,
                        }
                    } else {
                        match step_y {
                            Step::Left => off.neg(),
                            Step::Right => off,
                        }
                    };
                    let hit = Intersection {
                        side: if along_x {
                            Side::X
                        } else {
                            Side::Y
                        },
                        step: Vec2 { x: step_x, y: step_y },
                        map_coordinates: cell_pos,
                        wall_offset: Vec2 {
                            x: if along_x {
                                signed_off
                            } else {
                                Fx { raw: 0 }
                            },
                            y: if along_x {
                                Fx { raw: 0 }
                            } else {
                                signed_off
                            },
                        },
                    };
                    let ghost rest: Seq<Intersection> = dda_from(
                        *world,
                        textures@,
                        mx as int,
                        my as int,
                        sdx.raw as int,
                        sdy.raw as int,
                        step_x,
                        step_y,
                        delta_x.raw as int,
                        delta_y.raw as int,
                    );
                    let ghost before: Seq<Intersection> = ints@;
                    let transparent: bool = is_transparent(textures, *texture);
                    ints.push(hit);
                    proof {
                        if transparent {
                            assert_seqs_equal!(before + (seq![hit] + rest) == ints@ + rest);
                        } else {
                            assert_seqs_equal!(before + seq![hit] == ints@);
                        }
                    }
                    if !transparent {
                        break ;
                    }
                }
            },
        }
    }
    Ray { direction: dir, intersections: ints }
}

/// Raw numerator of the perpendicular distance formula: the whole cells
/// travelled to the crossed wall face, corrected by the sub-cell offset.
pub open spec fn perp_numerator_raw(m: int, posr: int, offr: int, s: Step) -> int {
    m * (FX_SCALE as int) - posr + offr + (if s is Left {
        FX_SCALE as int
    } else {
        0
    })
}

/// The perpendicular distance of an intersection, as a function of the
/// camera, the ray direction and the intersection: absent exactly when the
/// crossed axis's direction component is zero.
pub open spec fn perp_dist_spec(camera: Camera, dir: Vec2<Fx>, i: Intersection) -> Option<Fx> {
    match i.side {
        Side::X => if dir.x.raw == 0 {
            None
        } else {
            Some(
                Fx {
                    raw: fx_div_raw(
                        perp_numerator_raw(
                            i.map_coordinates.x as int,
                            camera.position.x.raw as int,
                            i.wall_offset.x.raw as int,
                            i.step.x,
                        ),
                        dir.x.raw as int,
                    ) as i64,
                },
            )
        },
        Side::Y => if dir.y.raw == 0 {
            None
        } else {
            Some(
                Fx {
                    raw: fx_div_raw(
                        perp_numerator_raw(
                            i.map_coordinates.y as int,
                            camera.position.y.raw as int,
                            i.wall_offset.y.raw as int,
                            i.step.y,
                        ),
                        dir.y.raw as int,
                    ) as i64,
                },
            )
        },
    }
}

/// The perpendicular distance from the camera plane to one intersection:
/// the whole-cell travel on the crossed axis divided by the ray's component
/// there, which avoids the fisheye distortion a Euclidean distance would
/// give. Absent when that component is zero (degenerate geometry: the draw
/// for this intersection is skipped).
pub fn perpendicular_distance(camera: &Camera, ray: &Ray, i: &Intersection) -> (r: Option<Fx>)
    requires
        camera.wf(),
        i.map_coordinates.x <= 32768,
        i.map_coordinates.y <= 32768,
        -FX_SCALE <= i.wall_offset.x.raw <= FX_SCALE,
        -FX_SCALE <= i.wall_offset.y.raw <= FX_SCALE,
    ensures
        match r {
            Some(d) => match i.side {
                Side::X => ray.direction.x.raw != 0 && d.raw == fx_div_raw(
                    perp_numerator_raw(
                        i.map_coordinates.x as int,
                        camera.position.x.raw as int,
                        i.wall_offset.x.raw as int,
                        i.step.x,
                    ),
                    ray.direction.x.raw as int,
                ),
                Side::Y => ray.direction.y.raw != 0 && d.raw == fx_div_raw(
                    perp_numerator_raw(
                        i.map_coordinates.y as int,
                        camera.position.y.raw as int,
                        i.wall_offset.y.raw as int,
                        i.step.y,
                    ),
                    ray.direction.y.raw as int,
                ),
            },
            None => match i.side {
                Side::X => ray.direction.x.raw == 0,
                Side::Y => ray.direction.y.raw == 0,
            },
        },
        r == perp_dist_spec(*camera, ray.direction, *i),
{
    match i.side {
        Side::X => {
            if ray.direction.x.raw == 0 {
                return None;
            }
            let extra: i64 = match i.step.x {
                Step::Left => FX_SCALE,
                Step::Right => 0,
            };
            let num: Fx = Fx {
                raw: (i.map_coordinates.x as i64) * FX_SCALE - camera.position.x.raw
                    + i.wall_offset.x.raw + extra,
            };
            Some(num.over(ray.direction.x))
        },
        Side::Y => {
            if ray.direction.y.raw == 0 {
                return None;
            }
            let extra: i64 = match i.step.y {
                Step::Left => FX_SCALE,
                Step::Right => 0,
            };
            let num: Fx = Fx {
                raw: (i.map_coordinates.y as i64) * FX_SCALE - camera.position.y.raw
                    + i.wall_offset.y.raw + extra,
            };
            Some(num.over(ray.direction.y))
        },
    }
}


/// DDA aimed along the x axis (either direction) at a known opaque wall:
/// with only open cells in between, the traversal reports exactly one
/// intersection, at the wall's grid coordinates, crossed on the X side.
pub proof fn lemma_dda_axis_aligned_hit(
    world: Grid,
    textures: Seq<Texture>,
    mx0: int,
    my: int,
    target: int,
    sdx: int,
    delta: int,
    step_x: Step,
    step_y: Step,
    wall_texture: int,
)
    requires
        world.wf(),
        world.in_bounds(mx0, my),
        world.in_bounds(target, my),
        step_x is Left ==> target < mx0,
        step_x is Right ==> mx0 < target,
        world.cell(target, my) == (MapCell::Wall { texture: wall_texture as usize }),
        !wall_transparent(textures, wall_texture),
        0 <= wall_texture <= usize::MAX,
        forall|k: int|
            (if step_x is Left {
                target < k < mx0
            } else {
                mx0 < k < target
            }) ==> (#[trigger] world.cell(k, my)) matches MapCell::Empty { .. },
        0 <= sdx,
        0 < delta <= 0x1_0000_0000,
        sdx + mag(mx0 - target) * delta < FX_INF,
    ensures
        dda_from(world, textures, mx0, my, sdx, FX_INF as int, step_x, step_y, delta, FX_INF as int)
            == seq![
            Intersection {
                side: Side::X,
                step: Vec2 { x: step_x, y: step_y },
                map_coordinates: Vec2 { x: target as usize, y: my as usize },
                wall_offset: Vec2 { x: Fx { raw: 0 }, y: Fx { raw: 0 } },
            },
        ],
    decreases mag(mx0 - target),
{
    vstd::arithmetic::mul::lemma_mul_is_distributive_sub_other_way(delta, mag(mx0 - target), 1);
    vstd::arithmetic::mul::lemma_mul_basics(delta);
    let nmx = mx0 + step_sign(step_x);
    if mag(mx0 - target) > 1 {
        assert(world.cell(nmx, my) matches MapCell::Empty { .. });
        lemma_dda_axis_aligned_hit(
            world,
            textures,
            nmx,
            my,
            target,
            sdx + delta,
            delta,
            step_x,
            step_y,
            wall_texture,
        );
    }
}

/// DDA aimed along the x axis with nothing but open cells ahead: the ray
/// leaves the grid and the traversal reports no intersections.
pub proof fn lemma_dda_axis_aligned_miss(
    world: Grid,
    textures: Seq<Texture>,
    mx0: int,
    my: int,
    sdx: int,
    delta: int,
    step_x: Step,
    step_y: Step,
)
    requires
        world.wf(),
        world.in_bounds(mx0, my),
        forall|k: int|
            (if step_x is Left {
                0 <= k < mx0
            } else {
                mx0 < k < world.height
            }) ==> (#[trigger] world.cell(k, my)) matches MapCell::Empty { .. },
        0 <= sdx,
        0 < delta <= 0x1_0000_0000,
        sdx + (axis_measure(mx0, world.height as int, step_x) + 1) * delta < FX_INF,
    ensures
        dda_from(world, textures, mx0, my, sdx, FX_INF as int, step_x, step_y, delta, FX_INF as int)
            == Seq::<Intersection>::empty(),
    decreases axis_measure(mx0, world.height as int, step_x),
{
    vstd::arithmetic::mul::lemma_mul_is_distributive_add_other_way(
        delta,
        axis_measure(mx0, world.height as int, step_x),
        1,
    );
    vstd::arithmetic::mul::lemma_mul_basics(delta);
    let nmx = mx0 + step_sign(step_x);
    if world.in_bounds(nmx, my) {
        assert(world.cell(nmx, my) matches MapCell::Empty { .. });
        lemma_dda_axis_aligned_miss(
            world,
            textures,
            nmx,
            my,
            sdx + delta,
            delta,
            step_x,
            step_y,
        );
    }
}

/// The same hit law for a ray aimed along the y axis: the crossing is
/// reported on the Y side at the wall's coordinates.
pub proof fn lemma_dda_axis_aligned_hit_y(
    world: Grid,
    textures: Seq<Texture>,
    mx: int,
    my0: int,
    target: int,
    sdy: int,
    delta: int,
    step_x: Step,
    step_y: Step,
    wall_texture: int,
)
    requires
        world.wf(),
        world.in_bounds(mx, my0),
        world.in_bounds(mx, target),
        step_y is Left ==> target < my0,
        step_y is Right ==> my0 < target,
        world.cell(mx, target) == (MapCell::Wall { texture: wall_texture as usize }),
        !wall_transparent(textures, wall_texture),
        0 <= wall_texture <= usize::MAX,
        forall|k: int|
            (if step_y is Left {
                target < k < my0
            } else {
                my0 < k < target
            }) ==> (#[trigger] world.cell(mx, k)) matches MapCell::Empty { .. },
        0 <= sdy,
        0 < delta <= 0x1_0000_0000,
        sdy + mag(my0 - target) * delta < FX_INF,
    ensures
        dda_from(world, textures, mx, my0, FX_INF as int, sdy, step_x, step_y, FX_INF as int, delta)
            == seq![
            Intersection {
                side: Side::Y,
                step: Vec2 { x: step_x, y: step_y },
                map_coordinates: Vec2 { x: mx as usize, y: target as usize },
                wall_offset: Vec2 { x: Fx { raw: 0 }, y: Fx { raw: 0 } },
            },
        ],
    decreases mag(my0 - target),
{
    vstd::arithmetic::mul::lemma_mul_is_distributive_sub_other_way(delta, mag(my0 - target), 1);
    vstd::arithmetic::mul::lemma_mul_basics(delta);
    let nmy = my0 + step_sign(step_y);
    if mag(my0 - target) > 1 {
        assert(world.cell(mx, nmy) matches MapCell::Empty { .. });
        lemma_dda_axis_aligned_hit_y(
            world,
            textures,
            mx,
            nmy,
            target,
            sdy + delta,
            delta,
            step_x,
            step_y,
            wall_texture,
        );
    }
}

/// The same miss law for a ray aimed along the y axis.
pub proof fn lemma_dda_axis_aligned_miss_y(
    world: Grid,
    textures: Seq<Texture>,
    mx: int,
    my0: int,
    sdy: int,
    delta: int,
    step_x: Step,
    step_y: Step,
)
    requires
        world.wf(),
        world.in_bounds(mx, my0),
        forall|k: int|
            (if step_y is Left {
                0 <= k < my0
            } else {
                my0 < k < world.width
            }) ==> (#[trigger] world.cell(mx, k)) matches MapCell::Empty { .. },
        0 <= sdy,
        0 < delta <= 0x1_0000_0000,
        sdy + (axis_measure(my0, world.width as int, step_y) + 1) * delta < FX_INF,
    ensures
        dda_from(world, textures, mx, my0, FX_INF as int, sdy, step_x, step_y, FX_INF as int, delta)
            == Seq::<Intersection>::empty(),
    decreases axis_measure(my0, world.width as int, step_y),
{
    vstd::arithmetic::mul::lemma_mul_is_distributive_add_other_way(
        delta,
        axis_measure(my0, world.width as int, step_y),
        1,
    );
    vstd::arithmetic::mul::lemma_mul_basics(delta);
    let nmy = my0 + step_sign(step_y);
    if world.in_bounds(mx, nmy) {
        assert(world.cell(mx, nmy) matches MapCell::Empty { .. });
        lemma_dda_axis_aligned_miss_y(
            world,
            textures,
            mx,
            nmy,
            sdy + delta,
            delta,
            step_x,
            step_y,
        );
    }
}

/// A thin wall with a fractional offset on the X axis, reached by a ray
/// travelling purely along X in either direction, always passes the
/// sub-cell test: the traversal records one hit tagged with the X side
/// whose offset is the configured fraction times the step sign, and an
/// opaque texture stops the ray there.
pub proof fn lemma_dda_axis_aligned_thin_wall_hit(
    world: Grid,
    textures: Seq<Texture>,
    mx0: int,
    my: int,
    target: int,
    sdx: int,
    delta: int,
    step_x: Step,
    step_y: Step,
    wall_texture: int,
    offset: Fx,
)
    requires
        world.wf(),
        world.in_bounds(mx0, my),
        world.in_bounds(target, my),
        step_x is Left ==> target < mx0,
        step_x is Right ==> mx0 < target,
        world.cell(target, my) == (MapCell::ThinWall {
            texture: wall_texture as usize,
            orientation: Orientation::XAxis,
            offset_into_cell: offset,
            ceiling_texture: 0usize,
            floor_texture: 0usize,
        }),
        !wall_transparent(textures, wall_texture),
        0 <= wall_texture <= usize::MAX,
        0 <= offset.raw <= FX_SCALE,
        forall|k: int|
            (if step_x is Left {
                target < k < mx0
            } else {
                mx0 < k < target
            }) ==> (#[trigger] world.cell(k, my)) matches MapCell::Empty { .. },
        0 <= sdx,
        0 < delta <= 0x1_0000_0000,
        sdx + mag(mx0 - target) * delta < FX_INF,
    ensures
        dda_from(world, textures, mx0, my, sdx, FX_INF as int, step_x, step_y, delta, FX_INF as int)
            == seq![
            Intersection {
                side: Side::X,
                step: Vec2 { x: step_x, y: step_y },
                map_coordinates: Vec2 { x: target as usize, y: my as usize },
                wall_offset: Vec2 {
                    x: Fx { raw: (step_sign(step_x) * offset.raw) as i64 },
                    y: Fx { raw: 0 },
                },
            },
        ],
    decreases mag(mx0 - target),
{
    vstd::arithmetic::mul::lemma_mul_is_distributive_sub_other_way(delta, mag(mx0 - target), 1);
    vstd::arithmetic::mul::lemma_mul_basics(delta);
    let nmx = mx0 + step_sign(step_x);
    if mag(mx0 - target) > 1 {
        assert(world.cell(nmx, my) matches MapCell::Empty { .. });
        lemma_dda_axis_aligned_thin_wall_hit(
            world,
            textures,
            nmx,
            my,
            target,
            sdx + delta,
            delta,
            step_x,
            step_y,
            wall_texture,
            offset,
        );
    } else {
        crate::fixed::lemma_abs_mul(delta, offset.raw as int, 0x1_0000_0000, FX_SCALE as int);
        crate::fixed::lemma_tdiv_range(
            delta * offset.raw,
            0x1_0000_0000int * (FX_SCALE as int),
            FX_SCALE as int,
        );
    }
}

/// A ray travelling purely along Y cannot cross the plane of an X-axis
/// thin wall: on entering such a cell the traversal records nothing and
/// walks on into the next cell.
pub proof fn lemma_thin_wall_parallel_ray_misses(
    world: Grid,
    textures: Seq<Texture>,
    mx: int,
    my: int,
    sdy: int,
    delta_y: int,
    step_x: Step,
    step_y: Step,
)
    requires
        world.wf(),
        world.in_bounds(mx, my),
        world.in_bounds(mx, my + step_sign(step_y)),
        (world.cell(mx, my + step_sign(step_y)) matches MapCell::ThinWall {
            orientation: Orientation::XAxis,
            ..
        }),
        0 <= sdy < FX_INF,
        0 <= delta_y,
    ensures
        dda_from(
            world,
            textures,
            mx,
            my,
            FX_INF as int,
            sdy,
            step_x,
            step_y,
            FX_INF as int,
            delta_y,
        ) == dda_from(
            world,
            textures,
            mx,
            my + step_sign(step_y),
            FX_INF as int,
            add_cap_raw(sdy, delta_y),
            step_x,
            step_y,
            FX_INF as int,
            delta_y,
        ),
{
}

/// For an axis-aligned ray with direction exactly minus one, the
/// perpendicular distance formula yields the exact raw distance from the
/// camera to the near face of the wall cell: whole cells travelled, no
/// fisheye term.
pub proof fn lemma_axis_aligned_perp_distance(target: int, posr: int)
    requires
        0 <= target,
        (target + 1) * (FX_SCALE as int) <= posr,
    ensures
        fx_div_raw(
            perp_numerator_raw(target, posr, 0, Step::Left),
            -(FX_SCALE as int),
        ) == posr - (target + 1) * (FX_SCALE as int),
{
    let sc = FX_SCALE as int;
    let num = perp_numerator_raw(target, posr, 0, Step::Left);
    assert(num == target * sc - posr + sc);
    vstd::arithmetic::mul::lemma_mul_is_distributive_add_other_way(sc, target, 1);
    assert(num == -(posr - (target + 1) * sc));
    let m = posr - (target + 1) * sc;
    assert(0 <= m);
    vstd::arithmetic::mul::lemma_mul_is_commutative(m, sc);
    vstd::arithmetic::div_mod::lemma_div_by_multiple(m, sc);
    assert(tdiv(m * sc, sc) == m);
}

} // verus!
