//! The column/scene compositor: a pixel buffer and a per-pixel depth buffer.
//! Every wall and sprite write is depth-tested (strictly nearer wins); floor
//! and ceiling are the unconditional backmost layer; fog blends every drawn
//! surface toward the ambient tint of the cell the camera stands in.

use vstd::prelude::*;
use vstd::assert_seqs_equal;
use crate::camera::{Camera, Intersection, Ray};
use crate::fixed::{
    FX_INF, FX_SCALE, FX_SMALL, Fx, fx_div_raw, fx_mul_raw, lemma_abs_mul, lemma_tdiv_range, tdiv,
};
use crate::grid::{Grid, MapCell, lemma_row_major_bound};
use crate::texture::{Font, Texture};
use crate::util::{Side, Sprite, sprite_small};
use crate::vec2::{Vec2, v_small};

verus! {

/// The depth-tested write: when the pixel exists and the candidate is
/// strictly nearer than the recorded depth, both buffers take the new
/// value; otherwise nothing changes. Equal distances never overwrite.
pub open spec fn depth_write(pix: Seq<u32>, z: Seq<Fx>, i: int, d: Fx, c: u32) -> (
    Seq<u32>,
    Seq<Fx>,
) {
    if 0 <= i < z.len() && i < pix.len() && d.raw < z[i].raw {
        (pix.update(i, c), z.update(i, d))
    } else {
        (pix, z)
    }
}

/// Of two candidate writes to one pixel at distances d1 < d2, drawn in
/// either order, the nearer write ends up in the pixel and in the depth
/// buffer.
pub proof fn lemma_depth_write_nearest_wins(
    pix: Seq<u32>,
    z: Seq<Fx>,
    i: int,
    d1: Fx,
    c1: u32,
    d2: Fx,
    c2: u32,
)
    requires
        0 <= i < z.len(),
        z.len() == pix.len(),
        d1.raw < d2.raw,
        d2.raw < z[i].raw,
    ensures
        ({
            let (pa, za) = depth_write(pix, z, i, d1, c1);
            let (pab, zab) = depth_write(pa, za, i, d2, c2);
            pab[i] == c1 && zab[i] == d1
        }),
        ({
            let (pb, zb) = depth_write(pix, z, i, d2, c2);
            let (pba, zba) = depth_write(pb, zb, i, d1, c1);
            pba[i] == c1 && zba[i] == d1
        }),
{
}

/// A write at exactly the recorded depth changes neither buffer: the test
/// is strictly less-than.
pub proof fn lemma_depth_write_equal_is_noop(pix: Seq<u32>, z: Seq<Fx>, i: int, c: u32)
    requires
        0 <= i < z.len(),
    ensures
        depth_write(pix, z, i, z[i], c) == (pix, z),
{
}

/// One colour channel blended toward the fog channel by factor `p` out of
/// 65536: fog * p + channel * (1 - p), at fixed-point scale.
pub open spec fn channel_blend(ch: int, fog_ch: int, p: int) -> int {
    tdiv(fog_ch * p + ch * ((FX_SCALE as int) - p), FX_SCALE as int)
}

/// The fog blend factor: distance times density, saturating at one.
pub open spec fn fog_factor_raw(dist: int, density: int) -> int {
    if fx_mul_raw(dist, density) >= FX_SCALE {
        FX_SCALE as int
    } else {
        fx_mul_raw(dist, density)
    }
}

/// A packed colour with its three low channels blended toward the fog tint
/// by factor `p`; the fourth byte is carried through untouched.
pub open spec fn fog_blend_spec(color: u32, fog_color: u32, p: int) -> u32 {
    let b = channel_blend(color as int % 256, fog_color as int % 256, p);
    let g = channel_blend((color as int / 256) % 256, (fog_color as int / 256) % 256, p);
    let r = channel_blend((color as int / 65536) % 256, (fog_color as int / 65536) % 256, p);
    let a = color as int / 16777216;
    (b + 256 * g + 65536 * r + 16777216 * a) as u32
}

/// Each colour channel halved, the fourth byte dropped: the fixed Y-side
/// and floor/ceiling darkening.
pub open spec fn half_color_spec(color: u32) -> u32 {
    ((color as int % 256) / 2 + 256 * (((color as int / 256) % 256) / 2) + 65536 * (((color as int
        / 65536) % 256) / 2)) as u32
}

/// Every 32-bit colour is the sum of its four bytes at their place values.
pub proof fn lemma_u32_bytes(c: u32)
    ensures
        c == c as int % 256 + 256 * ((c as int / 256) % 256) + 65536 * ((c as int / 65536) % 256)
            + 16777216 * (c as int / 16777216),
        0 <= c as int / 16777216 < 256,
{
    let ci = c as int;
    vstd::arithmetic::div_mod::lemma_fundamental_div_mod(ci, 256);
    vstd::arithmetic::div_mod::lemma_fundamental_div_mod(ci / 256, 256);
    vstd::arithmetic::div_mod::lemma_fundamental_div_mod((ci / 256) / 256, 256);
    vstd::arithmetic::div_mod::lemma_div_denominator(ci, 256, 256);
    vstd::arithmetic::div_mod::lemma_div_denominator(ci, 65536, 256);
    assert(256 * 256 == 65536);
    assert(65536 * 256 == 16777216);
    vstd::arithmetic::div_mod::lemma_div_pos_is_pos(ci, 16777216);
    vstd::arithmetic::div_mod::lemma_div_is_ordered(ci, 0xffff_ffff, 16777216);
}

/// Halves each colour channel of a packed colour and drops the top byte:
/// the darkening applied to Y-side walls and to floors and ceilings.
pub fn half_color(color: u32) -> (r: u32)
    ensures
        r == half_color_spec(color),
{
    let b: u32 = (color % 256) / 2;
    let g: u32 = ((color / 256) % 256) / 2;
    let rr: u32 = ((color / 65536) % 256) / 2;
    b + 256 * g + 65536 * rr
}

/// Blends a colour toward the fog tint: factor `min(distance * density, 1)`,
/// each of the three colour channels interpolated linearly, the fourth byte
/// untouched. At factor zero the colour is returned unchanged; at
/// saturation the tint's channels replace the colour's.
pub fn fog_blend(color: u32, fog_color: u32, distance: Fx, density: Fx) -> (r: u32)
    requires
        0 <= distance.raw,
        0 <= density.raw <= 0x8000_0000,
    ensures
        r == fog_blend_spec(
            color,
            fog_color,
            fog_factor_raw(distance.raw as int, density.raw as int),
        ),
{
    let p: i64 = if density.raw == 0 {
        proof {
            vstd::arithmetic::mul::lemma_mul_basics(distance.raw as int);
        }
        0
    } else if distance.raw > FX_SMALL {
        proof {
            vstd::arithmetic::mul::lemma_mul_inequality(
                FX_SMALL as int,
                distance.raw as int,
                density.raw as int,
            );
            vstd::arithmetic::div_mod::lemma_div_is_ordered(
                FX_SMALL as int * 1,
                distance.raw as int * density.raw as int,
                FX_SCALE as int,
            );
        }
        FX_SCALE
    } else {
        let t: Fx = distance.times(density);
        if t.raw >= FX_SCALE {
            FX_SCALE
        } else {
            t.raw
        }
    };
    proof {
        if density.raw > 0 && distance.raw <= FX_SMALL {
            vstd::arithmetic::mul::lemma_mul_nonnegative(distance.raw as int, density.raw as int);
            vstd::arithmetic::div_mod::lemma_div_pos_is_pos(
                distance.raw as int * density.raw as int,
                FX_SCALE as int,
            );
        }
    }
    blend_channels(color, fog_color, p)
}

/// The per-channel interpolation at a known factor in [0, 65536].
fn blend_channels(color: u32, fog_color: u32, p: i64) -> (r: u32)
    requires
        0 <= p <= FX_SCALE,
    ensures
        r == fog_blend_spec(color, fog_color, p as int),
{
    let b: u32 = blend_one(color % 256, fog_color % 256, p);
    let g: u32 = blend_one((color / 256) % 256, (fog_color / 256) % 256, p);
    let rr: u32 = blend_one((color / 65536) % 256, (fog_color / 65536) % 256, p);
    let a: u32 = color / 16777216;
    proof {
        vstd::arithmetic::div_mod::lemma_div_pos_is_pos(color as int, 16777216);
        vstd::arithmetic::div_mod::lemma_div_is_ordered(color as int, 0xffff_ffff, 16777216);
    }
    b + 256 * g + 65536 * rr + 16777216 * a
}

/// One channel blended: (fog * p + ch * (65536 - p)) / 65536, which stays
/// within the byte range.
fn blend_one(ch: u32, fog_ch: u32, p: i64) -> (r: u32)
    requires
        ch < 256,
        fog_ch < 256,
        0 <= p <= FX_SCALE,
    ensures
        r == channel_blend(ch as int, fog_ch as int, p as int),
        r < 256,
{
    proof {
        lemma_abs_mul(fog_ch as int, p as int, 255, FX_SCALE as int);
        lemma_abs_mul(ch as int, FX_SCALE as int - p as int, 255, FX_SCALE as int);
    }
    let num: i64 = (fog_ch as i64) * p + (ch as i64) * (FX_SCALE - p);
    proof {
        assert(num as int <= 255 * (FX_SCALE as int)) by (nonlinear_arith)
            requires
                num as int == fog_ch as int * p + ch as int * (FX_SCALE as int - p as int),
                0 <= fog_ch < 256,
                0 <= ch < 256,
                0 <= p <= FX_SCALE,
                FX_SCALE == 65536,
        ;
        assert(0 <= num as int) by (nonlinear_arith)
            requires
                num as int == fog_ch as int * p + ch as int * (FX_SCALE as int - p as int),
                0 <= fog_ch,
                0 <= ch,
                0 <= p <= FX_SCALE,
                FX_SCALE == 65536,
        ;
        vstd::arithmetic::div_mod::lemma_div_is_ordered(
            num as int,
            255 * (FX_SCALE as int),
            FX_SCALE as int,
        );
        vstd::arithmetic::div_mod::lemma_div_pos_is_pos(num as int, FX_SCALE as int);
        vstd::arithmetic::div_mod::lemma_div_by_multiple(255, FX_SCALE as int);
    }
    (num / FX_SCALE) as u32
}

/// Fog at factor zero leaves a colour exactly unchanged, and at full
/// saturation replaces the three colour channels with the tint's while
/// keeping the fourth byte; a zero distance or a zero density always gives
/// factor zero. Between the ends each channel interpolates linearly, which
/// is the definition the blend meets exactly.
pub proof fn lemma_fog_blend_ends(color: u32, fog_color: u32, dist: int, density: int)
    ensures
        fog_factor_raw(0, density) == 0,
        fog_factor_raw(dist, 0) == 0,
        fog_blend_spec(color, fog_color, 0) == color,
        fog_blend_spec(color, fog_color, FX_SCALE as int) == (fog_color as int % 16777216
            + 16777216 * (color as int / 16777216)) as u32,
{
    let sc = FX_SCALE as int;
    vstd::arithmetic::mul::lemma_mul_basics(density);
    vstd::arithmetic::mul::lemma_mul_basics(dist);
    assert(tdiv(0, sc) == 0);
    lemma_u32_bytes(color);
    lemma_u32_bytes(fog_color);
    let b = color as int % 256;
    let g = (color as int / 256) % 256;
    let r = (color as int / 65536) % 256;
    let fb = fog_color as int % 256;
    let fg = (fog_color as int / 256) % 256;
    let fr = (fog_color as int / 65536) % 256;
    assert(channel_blend(b, fb, 0) == b) by {
        vstd::arithmetic::mul::lemma_mul_basics(fb);
        vstd::arithmetic::div_mod::lemma_div_by_multiple(b, sc);
        vstd::arithmetic::mul::lemma_mul_is_commutative(b, sc);
    }
    assert(channel_blend(g, fg, 0) == g) by {
        vstd::arithmetic::mul::lemma_mul_basics(fg);
        vstd::arithmetic::div_mod::lemma_div_by_multiple(g, sc);
        vstd::arithmetic::mul::lemma_mul_is_commutative(g, sc);
    }
    assert(channel_blend(r, fr, 0) == r) by {
        vstd::arithmetic::mul::lemma_mul_basics(fr);
        vstd::arithmetic::div_mod::lemma_div_by_multiple(r, sc);
        vstd::arithmetic::mul::lemma_mul_is_commutative(r, sc);
    }
    assert(channel_blend(b, fb, sc) == fb) by {
        vstd::arithmetic::mul::lemma_mul_basics(b);
        vstd::arithmetic::div_mod::lemma_div_by_multiple(fb, sc);
        vstd::arithmetic::mul::lemma_mul_is_commutative(fb, sc);
    }
    assert(channel_blend(g, fg, sc) == fg) by {
        vstd::arithmetic::mul::lemma_mul_basics(g);
        vstd::arithmetic::div_mod::lemma_div_by_multiple(fg, sc);
        vstd::arithmetic::mul::lemma_mul_is_commutative(fg, sc);
    }
    assert(channel_blend(r, fr, sc) == fr) by {
        vstd::arithmetic::mul::lemma_mul_basics(r);
        vstd::arithmetic::div_mod::lemma_div_by_multiple(fr, sc);
        vstd::arithmetic::mul::lemma_mul_is_commutative(fr, sc);
    }
    assert(fog_color as int % 16777216 == fb + 256 * fg + 65536 * fr) by {
        vstd::arithmetic::div_mod::lemma_fundamental_div_mod(fog_color as int, 16777216);
        vstd::arithmetic::div_mod::lemma_fundamental_div_mod(fog_color as int, 256);
        vstd::arithmetic::div_mod::lemma_fundamental_div_mod(fog_color as int / 256, 256);
        vstd::arithmetic::div_mod::lemma_div_denominator(fog_color as int, 256, 256);
        vstd::arithmetic::div_mod::lemma_div_denominator(fog_color as int, 65536, 256);
    }
}

/// The fog parameters the compositor inherits from the cell the camera
/// stands in: the fog of an Empty cell under the camera, nothing otherwise.
pub open spec fn camera_fog_cell(world: Grid, camera: Camera) -> Option<(Fx, u32)> {
    let gx = camera.position.x.raw as int / (FX_SCALE as int);
    let gy = camera.position.y.raw as int / (FX_SCALE as int);
    if world.in_bounds(gx, gy) {
        match world.cell(gx, gy) {
            MapCell::Empty { fog, fog_color, .. } => Some((fog, fog_color)),
            _ => None,
        }
    } else {
        None
    }
}

/// A drawn colour after the frame's ambient fog, when the camera stands in
/// an open cell; unchanged otherwise.
pub open spec fn apply_fog(c: u32, fogp: Option<(Fx, u32)>, dist: Fx) -> u32 {
    match fogp {
        Some(f) => fog_blend_spec(c, f.1, fog_factor_raw(dist.raw as int, f.0.raw as int)),
        None => c,
    }
}

/// The wall texture a cell is faced with; an open cell draws nothing.
pub open spec fn wall_texture_index(cell: MapCell) -> Option<int> {
    match cell {
        MapCell::Wall { texture } => Some(texture as int),
        MapCell::ThinWall { texture, .. } => Some(texture as int),
        MapCell::Empty { .. } => None,
    }
}

/// The horizontal texture column for a wall hit: the fractional world
/// coordinate along the wall at the hit point, scaled to the texture
/// width, mirrored when the ray travels positively on the crossed axis.
pub open spec fn wall_tex_x(
    texture: Texture,
    side: Side,
    camera: Camera,
    dist: Fx,
    dir: Vec2<Fx>,
) -> int {
    let dc = match side {
        Side::X => dir.y,
        Side::Y => dir.x,
    };
    let pc = match side {
        Side::X => camera.position.y,
        Side::Y => camera.position.x,
    };
    let frac = (pc.raw + fx_mul_raw(dist.raw as int, dc.raw as int)) % (FX_SCALE as int);
    let t = tdiv(frac * texture.width, FX_SCALE as int);
    let mirrored = match side {
        Side::X => dir.x.raw > 0,
        Side::Y => dir.y.raw < 0,
    };
    if mirrored {
        texture.width - t - 1
    } else {
        t
    }
}

/// The texture row sampled for screen row `r` of a projected wall column:
/// rows step through the texture at texture_height / line_height, negatives
/// clamp to the top, and the power-of-two height wraps the rest.
pub open spec fn wall_tex_y(texture: Texture, r: int, ch: int, hh: int, lh: int) -> int {
    let st = tdiv(texture.height * (FX_SCALE as int), lh);
    let q = tdiv((r - ch - hh + lh / 2) * st, FX_SCALE as int);
    if q < 0 {
        0
    } else {
        q % (texture.height as int)
    }
}

/// The colour one wall row writes: the sampled texel, absent when it falls
/// outside the texture or is transparency-keyed (pure black), darkened by
/// half on Y-side crossings, then fog-blended.
pub open spec fn wall_row_color(
    texture: Texture,
    side: Side,
    fogp: Option<(Fx, u32)>,
    dist: Fx,
    tex_x: int,
    ty: int,
) -> Option<u32> {
    let idx = texture.width * ty + tex_x;
    if 0 <= idx < texture.data@.len() {
        let c = texture.data@[idx];
        if c % 0x100_0000 == 0 {
            None
        } else {
            let shaded = match side {
                Side::Y => half_color_spec(c),
                Side::X => c,
            };
            Some(apply_fog(shaded, fogp, dist))
        }
    } else {
        None
    }
}

/// The whole wall pass for one column as a buffer transform: a non-positive
/// distance paints the error column without touching depth; an open cell,
/// an out-of-range texture, a distance beyond the working range or a
/// zero-height projection change nothing; otherwise each clipped row gets a
/// depth-tested write of its row colour, and nothing else moves.
pub open spec fn wall_pass(
    pix: Seq<u32>,
    z: Seq<Fx>,
    h: int,
    w: int,
    camera: Camera,
    x: int,
    dist: Fx,
    cell: MapCell,
    side: Side,
    dir: Vec2<Fx>,
    world: Grid,
    textures: Seq<Texture>,
) -> (Seq<u32>, Seq<Fx>) {
    if dist.raw <= 0 {
        (
            Seq::new(
                pix.len(),
                |i: int|
                    if i % w == x {
                        0x00ff0000u32
                    } else {
                        pix[i]
                    },
            ),
            z,
        )
    } else {
        match wall_texture_index(cell) {
            None => (pix, z),
            Some(t) => {
                if !(0 <= t < textures.len()) || dist.raw > FX_SMALL {
                    (pix, z)
                } else {
                    let texture = textures[t];
                    let lh = tdiv(h * (FX_SCALE as int), dist.raw as int);
                    if lh == 0 {
                        (pix, z)
                    } else {
                        let ch = tdiv(camera.height.raw as int, dist.raw as int);
                        let hh = h / 2;
                        let ds0 = tdiv(-lh, 2) + hh - 1 + ch;
                        let de0 = lh / 2 + hh + 1 + ch;
                        let ds = if ds0 < 0 {
                            0
                        } else {
                            ds0
                        };
                        let de = if de0 > h {
                            h
                        } else {
                            de0
                        };
                        let tex_x = wall_tex_x(texture, side, camera, dist, dir);
                        let fogp = camera_fog_cell(world, camera);
                        (
                            Seq::new(
                                pix.len(),
                                |i: int|
                                    if i % w == x && ds <= i / w < de {
                                        match wall_row_color(
                                            texture,
                                            side,
                                            fogp,
                                            dist,
                                            tex_x,
                                            wall_tex_y(texture, i / w, ch, hh, lh),
                                        ) {
                                            Some(col) => if dist.raw < z[i].raw {
                                                col
                                            } else {
                                                pix[i]
                                            },
                                            None => pix[i],
                                        }
                                    } else {
                                        pix[i]
                                    },
                            ),
                            Seq::new(
                                z.len(),
                                |i: int|
                                    if i % w == x && ds <= i / w < de {
                                        match wall_row_color(
                                            texture,
                                            side,
                                            fogp,
                                            dist,
                                            tex_x,
                                            wall_tex_y(texture, i / w, ch, hh, lh),
                                        ) {
                                            Some(col) => if dist.raw < z[i].raw {
                                                dist
                                            } else {
                                                z[i]
                                            },
                                            None => z[i],
                                        }
                                    } else {
                                        z[i]
                                    },
                            ),
                        )
                    }
                }
            },
        }
    }
}

/// One screen column rendered over a buffer state: the intersections the
/// column's ray found, folded nearest-first, each one a `wall_pass` behind
/// the same guards the driver applies (in-range coordinates and offsets, a
/// defined perpendicular distance, a cell still present in the grid).
pub open spec fn column_pass(
    pix: Seq<u32>,
    z: Seq<Fx>,
    h: int,
    w: int,
    camera: Camera,
    x: int,
    world: Grid,
    textures: Seq<Texture>,
    dir: Vec2<Fx>,
    inters: Seq<Intersection>,
    k: int,
) -> (Seq<u32>, Seq<Fx>)
    decreases k,
{
    if k <= 0 {
        (pix, z)
    } else {
        let prev = column_pass(pix, z, h, w, camera, x, world, textures, dir, inters, k - 1);
        let inter = inters[k - 1];
        if inter.map_coordinates.x <= 32768 && inter.map_coordinates.y <= 32768 && -(
        FX_SCALE as int) <= inter.wall_offset.x.raw <= FX_SCALE as int && -(FX_SCALE as int)
            <= inter.wall_offset.y.raw <= FX_SCALE as int {
            match crate::raycast::perp_dist_spec(camera, dir, inter) {
                Some(d) => if world.in_bounds(
                    inter.map_coordinates.x as int,
                    inter.map_coordinates.y as int,
                ) {
                    wall_pass(
                        prev.0,
                        prev.1,
                        h,
                        w,
                        camera,
                        x,
                        d,
                        world.cell(inter.map_coordinates.x as int, inter.map_coordinates.y as int),
                        inter.side,
                        dir,
                        world,
                        textures,
                    )
                } else {
                    prev
                },
                None => prev,
            }
        } else {
            prev
        }
    }
}

/// A sprite after the per-frame distance update: every field kept, the
/// camera distance recomputed as the integer square root of the rescaled
/// squared distance.
pub open spec fn upd_sprite(camera: Camera, s: Sprite) -> Sprite {
    Sprite {
        distance_from_camera: Fx {
            raw: crate::vec2::fx_dist_raw(
                camera.position.x.raw - s.position.x.raw,
                camera.position.y.raw - s.position.y.raw,
            ) as i64,
        },
        ..s
    }
}

/// A sprite's screen-space projection: camera-space transform through the
/// inverse direction/plane basis, scaled size, and the clipped rectangle.
/// Absent when the projection is degenerate (zero determinant, the sprite
/// at or behind the camera plane, values outside the fixed-point working
/// range, or an empty rectangle).
pub struct SpriteProj {
    pub dsx: int,
    pub dex: int,
    pub dsy: int,
    pub dey: int,
    pub s_w: int,
    pub s_h: int,
    pub ssx: int,
    pub vo: int,
}

/// Projects one sprite against a camera onto an h-by-w screen.
pub open spec fn sprite_project(
    camera: Camera,
    s: Sprite,
    h: int,
    w: int,
    tex_count: int,
) -> Option<SpriteProj> {
    let relx = s.position.x.raw - camera.position.x.raw;
    let rely = s.position.y.raw - camera.position.y.raw;
    let det = fx_mul_raw(camera.plane.x.raw as int, camera.direction.y.raw as int) - fx_mul_raw(
        camera.direction.x.raw as int,
        camera.plane.y.raw as int,
    );
    if det == 0 || !(s.texture < tex_count) {
        None
    } else {
        let idet = fx_div_raw(FX_SCALE as int, det);
        let t1 = fx_mul_raw(camera.direction.y.raw as int, relx) - fx_mul_raw(
            camera.direction.x.raw as int,
            rely,
        );
        let t2 = fx_mul_raw(camera.plane.x.raw as int, rely) - fx_mul_raw(
            camera.plane.y.raw as int,
            relx,
        );
        if !(-0x40_0000_0000 <= t1 <= 0x40_0000_0000 && -0x40_0000_0000 <= t2 <= 0x40_0000_0000
            && -0x40_0000_0000 <= idet <= 0x40_0000_0000) {
            None
        } else {
            let tx = fx_mul_raw(idet, t1);
            let ty = fx_mul_raw(idet, t2);
            if !(0 < ty <= 0x40_0000_0000 && -0x40_0000_0000 <= tx <= 0x40_0000_0000) {
                None
            } else {
                let vo = tdiv(s.vertical_offset.raw as int, ty) + tdiv(
                    camera.height.raw as int,
                    ty,
                );
                let tsum = ty + tx;
                let q1 = tdiv(tsum, 65536);
                let r1 = crate::fixed::trem(tsum, 65536);
                let ssx = tdiv(w * q1, 2) + tdiv(w * r1, 131072);
                let q = tdiv(h * (FX_SCALE as int), ty);
                let s_h = fx_mul_raw(q, s.scale_factor.y.raw as int);
                let s_w = fx_mul_raw(q, s.scale_factor.x.raw as int);
                if !(1 <= s_h <= 0x8000_0000 && 1 <= s_w <= 0x8000_0000 && -0x8000_0000 <= ssx
                    <= 0x8000_0000 && -0x8000_0000 <= vo <= 0x8000_0000) {
                    None
                } else {
                    let dsx = if tdiv(-s_w, 2) + ssx < 0 {
                        0
                    } else {
                        tdiv(-s_w, 2) + ssx
                    };
                    let dex = if tdiv(s_w, 2) + ssx > w {
                        w
                    } else {
                        tdiv(s_w, 2) + ssx
                    };
                    let dsy = if tdiv(-s_h, 2) + h / 2 + vo < 0 {
                        0
                    } else {
                        tdiv(-s_h, 2) + h / 2 + vo
                    };
                    let dey = if tdiv(s_h, 2) + h / 2 + vo > h {
                        h
                    } else {
                        tdiv(s_h, 2) + h / 2 + vo
                    };
                    if !(dsx < dex && dsy < dey) {
                        None
                    } else {
                        Some(SpriteProj { dsx, dex, dsy, dey, s_w, s_h, ssx, vo })
                    }
                }
            }
        }
    }
}

/// The colour a projected sprite contributes at flat pixel index `i`, or
/// nothing: inside the clipped rectangle, the linearly interpolated texel,
/// skipped when out of the texture or transparency-keyed, fog-blended by
/// the sprite's camera distance.
pub open spec fn sprite_pixel(
    texture: Texture,
    fogp: Option<(Fx, u32)>,
    s: Sprite,
    h: int,
    w: int,
    p: SpriteProj,
    i: int,
) -> Option<u32> {
    let c = i % w;
    let r = i / w;
    if p.dsx <= c < p.dex && p.dsy <= r < p.dey {
        let u = c - (tdiv(-p.s_w, 2) + p.ssx);
        let tex_x = tdiv(tdiv(256 * u * texture.width, p.s_w), 256);
        let dd = (r - p.vo) * 256 - h * 128 + p.s_h * 128;
        let tyq = tdiv(tdiv(dd * texture.height, p.s_h), 256);
        if 0 <= tex_x < texture.width && 0 <= tyq < texture.height && texture.width * tyq + tex_x
            < texture.data@.len() {
            let c0 = texture.data@[texture.width * tyq + tex_x];
            if c0 % 0x100_0000 == 0 {
                None
            } else {
                Some(apply_fog(c0, fogp, s.distance_from_camera))
            }
        } else {
            None
        }
    } else {
        None
    }
}

/// One sprite drawn over a buffer state: a depth-tested write per covered
/// pixel, nothing anywhere else; a degenerate projection draws nothing.
pub open spec fn sprite_pass(
    pix: Seq<u32>,
    z: Seq<Fx>,
    h: int,
    w: int,
    camera: Camera,
    fogp: Option<(Fx, u32)>,
    textures: Seq<Texture>,
    s: Sprite,
) -> (Seq<u32>, Seq<Fx>) {
    match sprite_project(camera, s, h, w, textures.len() as int) {
        None => (pix, z),
        Some(p) => {
            let texture = textures[s.texture as int];
            (
                Seq::new(
                    pix.len(),
                    |i: int|
                        match sprite_pixel(texture, fogp, s, h, w, p, i) {
                            Some(col) => if s.distance_from_camera.raw < z[i].raw {
                                col
                            } else {
                                pix[i]
                            },
                            None => pix[i],
                        },
                ),
                Seq::new(
                    z.len(),
                    |i: int|
                        match sprite_pixel(texture, fogp, s, h, w, p, i) {
                            Some(col) => if s.distance_from_camera.raw < z[i].raw {
                                s.distance_from_camera
                            } else {
                                z[i]
                            },
                            None => z[i],
                        },
                ),
            )
        },
    }
}

/// A whole sprite pass: every sprite's distance recomputed, then each drawn
/// in order over the result of the previous ones.
pub open spec fn sprites_fold(
    pix: Seq<u32>,
    z: Seq<Fx>,
    h: int,
    w: int,
    camera: Camera,
    fogp: Option<(Fx, u32)>,
    textures: Seq<Texture>,
    sprites: Seq<Sprite>,
    k: int,
) -> (Seq<u32>, Seq<Fx>)
    decreases k,
{
    if k <= 0 {
        (pix, z)
    } else {
        let prev = sprites_fold(pix, z, h, w, camera, fogp, textures, sprites, k - 1);
        sprite_pass(prev.0, prev.1, h, w, camera, fogp, textures, upd_sprite(camera, sprites[k - 1]))
    }
}

/// The colour the floor/ceiling pass writes at screen position (y, x), or
/// nothing: the horizon row and rows behind the eye are skipped, the row
/// distance projects a world point whose cell supplies the floor or ceiling
/// texture, the sample is darkened by half, and the ambient fog of the
/// camera's cell is blended in by the sample's distance (saturating when
/// the distance leaves the working range). Out-of-grid or wall-covered
/// samples write nothing.
pub open spec fn fc_pixel(
    world: Grid,
    textures: Seq<Texture>,
    camera: Camera,
    h: int,
    w: int,
    y: int,
    x: int,
) -> Option<u32> {
    let half = h / 2;
    let is_floor = y > half;
    let cp = if is_floor {
        y - half
    } else {
        half - y
    };
    if cp == 0 {
        None
    } else {
        let camz = if is_floor {
            h * 32768 + camera.height.raw
        } else {
            h * 32768 - camera.height.raw
        };
        if camz <= 0 {
            None
        } else {
            let rd = tdiv(camz, cp);
            let rd0x = camera.direction.x.raw - camera.plane.x.raw;
            let rd0y = camera.direction.y.raw - camera.plane.y.raw;
            let rd1x = camera.direction.x.raw + camera.plane.x.raw;
            let rd1y = camera.direction.y.raw + camera.plane.y.raw;
            let fsx = tdiv(fx_mul_raw(rd, rd1x - rd0x), w);
            let fsy = tdiv(fx_mul_raw(rd, rd1y - rd0y), w);
            let f0x = camera.position.x.raw + fx_mul_raw(rd, rd0x);
            let f0y = camera.position.y.raw + fx_mul_raw(rd, rd0y);
            let pcx = f0x + x * fsx;
            let pcy = f0y + x * fsy;
            let ptx = pcx + fsx;
            let pty = pcy + fsy;
            if 0 <= pcx <= 0x8000_0000 && 0 <= pcy <= 0x8000_0000 {
                let gx = pcx / (FX_SCALE as int);
                let gy = pcy / (FX_SCALE as int);
                if world.in_bounds(gx, gy) {
                    let opt_tex = match world.cell(gx, gy) {
                        MapCell::Empty { ceiling_texture, floor_texture, .. } => Some(
                            if is_floor {
                                floor_texture as int
                            } else {
                                ceiling_texture as int
                            },
                        ),
                        MapCell::ThinWall { ceiling_texture, floor_texture, .. } => Some(
                            if is_floor {
                                floor_texture as int
                            } else {
                                ceiling_texture as int
                            },
                        ),
                        MapCell::Wall { .. } => None,
                    };
                    match opt_tex {
                        None => None,
                        Some(t) => if 0 <= t < textures.len() {
                            let texture = textures[t];
                            let dx = ptx - gx * (FX_SCALE as int);
                            let dy = pty - gy * (FX_SCALE as int);
                            let qx = tdiv(texture.width * dx, FX_SCALE as int);
                            let qy = tdiv(texture.height * dy, FX_SCALE as int);
                            let tcx = clamp_mod_spec(qx, texture.width as int);
                            let tcy = clamp_mod_spec(qy, texture.height as int);
                            let idx = texture.width * tcy + tcx;
                            if 0 <= idx < texture.data@.len() {
                                let base = half_color_spec(texture.data@[idx]);
                                match camera_fog_cell(world, camera) {
                                    Some(f) => {
                                        let ddx = ptx - camera.position.x.raw;
                                        let ddy = pty - camera.position.y.raw;
                                        if -0x8000_0000 <= ddx <= 0x8000_0000 && -0x8000_0000
                                            <= ddy <= 0x8000_0000 {
                                            Some(
                                                fog_blend_spec(
                                                    base,
                                                    f.1,
                                                    fog_factor_raw(
                                                        crate::vec2::fx_dist_raw(ddx, ddy),
                                                        f.0.raw as int,
                                                    ),
                                                ),
                                            )
                                        } else {
                                            Some(fog_blend_spec(base, f.1, FX_SCALE as int))
                                        }
                                    },
                                    None => Some(base),
                                }
                            } else {
                                None
                            }
                        } else {
                            None
                        },
                    }
                } else {
                    None
                }
            } else {
                None
            }
        }
    }
}

/// Whether the HUD blit of `s` at origin (x, y) lights screen position
/// (c, r): the position falls in some glyph cell of the string and that
/// glyph's bit (rows stored bottom-up) is set.
pub open spec fn text_pixel_lit(font: Font, s: Seq<u8>, x: int, y: int, c: int, r: int) -> bool {
    let gs = font.glyph_size as int;
    &&& 1 <= gs <= 16384
    &&& x <= c
    &&& y <= r < y + gs
    &&& (c - x) / gs < s.len()
    &&& {
        let ci = (c - x) / gs;
        let gx = (c - x) % gs;
        let gidx = (gs - 1 - (r - y)) * (256 * gs) + gx + gs * (s[ci] as int);
        0 <= gidx < font.glyphs@.len() && font.glyphs@[gidx]
    }
}

/// Nothing outside the string's glyph rectangle is lit.
pub proof fn lemma_text_dark(font: Font, s: Seq<u8>, x: int, y: int, c: int, r: int)
    requires
        c < x || r < y || r >= y + font.glyph_size || (1 <= font.glyph_size && c >= x + s.len() * (
        font.glyph_size as int)),
    ensures
        !text_pixel_lit(font, s, x, y, c, r),
{
    let gs = font.glyph_size as int;
    if 1 <= gs && x <= c && c >= x + s.len() * gs {
        vstd::arithmetic::div_mod::lemma_div_is_ordered(s.len() * gs, c - x, gs);
        vstd::arithmetic::div_mod::lemma_div_by_multiple(s.len() as int, gs);
    }
}

/// The framebuffer: a height-by-width pixel array (row-major, `y * width +
/// x`) and a same-size depth buffer holding the nearest drawn distance per
/// pixel, reset to the far sentinel every frame.
pub struct Framebuffer {
    pub height: usize,
    pub width: usize,
    pub pixels: Vec<u32>,
    pub z_buffer: Vec<Fx>,
}

impl Framebuffer {
    /// Dimensions in range and one pixel plus one depth cell per coordinate.
    pub open spec fn wf(&self) -> bool {
        &&& 1 <= self.width <= 16384
        &&& 1 <= self.height <= 16384
        &&& self.pixels@.len() == self.height * self.width
        &&& self.z_buffer@.len() == self.height * self.width
    }

    /// A fresh buffer: black pixels, depth at the far sentinel.
    pub fn new(height: usize, width: usize) -> (r: Framebuffer)
        requires
            1 <= height <= 16384,
            1 <= width <= 16384,
        ensures
            r.wf(),
            r.height == height,
            r.width == width,
            forall|i: int| 0 <= i < r.pixels@.len() ==> r.pixels@[i] == 0,
            forall|i: int| 0 <= i < r.z_buffer@.len() ==> r.z_buffer@[i].raw == FX_INF,
    {
        proof {
            lemma_abs_mul(height as int, width as int, 16384, 16384);
        }
        let n: usize = height * width;
        Framebuffer {
            height,
            width,
            pixels: alloc_u32(n, 0),
            z_buffer: alloc_fx(n, Fx { raw: FX_INF }),
        }
    }

    /// Blacks out every pixel; the depth buffer is untouched.
    pub fn clear(&mut self)
        requires
            old(self).wf(),
        ensures
            final(self).wf(),
            final(self).height == old(self).height,
            final(self).width == old(self).width,
            final(self).z_buffer@ == old(self).z_buffer@,
            final(self).pixels@.len() == old(self).pixels@.len(),
            forall|i: int| 0 <= i < final(self).pixels@.len() ==> final(self).pixels@[i] == 0,
    {
        let n: usize = self.pixels.len();
        let mut i: usize = 0;
        while i < n
            invariant
                0 <= i <= n,
                self.pixels@.len() == n,
                self.height == old(self).height,
                self.width == old(self).width,
                self.z_buffer@ == old(self).z_buffer@,
                old(self).wf(),
                forall|k: int| 0 <= k < i ==> self.pixels@[k] == 0,
            decreases n - i,
        {
            self.pixels[i] = 0;
            i = i + 1;
        }
    }

    /// Resets every depth cell to the far sentinel; pixels are untouched.
    pub fn clear_z_buffer(&mut self)
        requires
            old(self).wf(),
        ensures
            final(self).wf(),
            final(self).height == old(self).height,
            final(self).width == old(self).width,
            final(self).pixels@ == old(self).pixels@,
            final(self).z_buffer@.len() == old(self).z_buffer@.len(),
            forall|i: int|
                0 <= i < final(self).z_buffer@.len() ==> final(self).z_buffer@[i].raw == FX_INF,
    {
        let n: usize = self.z_buffer.len();
        let mut i: usize = 0;
        while i < n
            invariant
                0 <= i <= n,
                self.z_buffer@.len() == n,
                self.height == old(self).height,
                self.width == old(self).width,
                self.pixels@ == old(self).pixels@,
                old(self).wf(),
                forall|k: int| 0 <= k < i ==> self.z_buffer@[k].raw == FX_INF,
            decreases n - i,
        {
            self.z_buffer[i] = Fx { raw: FX_INF };
            i = i + 1;
        }
    }

    /// Writes one pixel, bounds-checked: out-of-screen coordinates are a
    /// no-op. The depth buffer is untouched.
    pub fn set_pixel(&mut self, x: usize, y: usize, color: u32)
        requires
            old(self).wf(),
        ensures
            final(self).wf(),
            final(self).height == old(self).height,
            final(self).width == old(self).width,
            final(self).z_buffer@ == old(self).z_buffer@,
            x < old(self).width && y < old(self).height ==> final(self).pixels@ == old(self).pixels@.update(y * old(self).width + x, color),
            !(x < old(self).width && y < old(self).height) ==> final(self).pixels@ == old(self).pixels@,
    {
        if x < self.width && y < self.height {
            proof {
                lemma_abs_mul(self.height as int, self.width as int, 16384, 16384);
                lemma_row_major_bound(y as int, x as int, self.height as int, self.width as int);
            }
            let idx: usize = y * self.width + x;
            self.pixels[idx] = color;
        }
    }

    /// The depth-tested write every wall and sprite pixel goes through:
    /// draws only strictly nearer than the recorded depth, and updates both
    /// buffers together.
    pub fn write_with_depth(&mut self, x: usize, y: usize, distance: Fx, color: u32) -> (wrote:
        bool)
        requires
            old(self).wf(),
        ensures
            final(self).wf(),
            final(self).height == old(self).height,
            final(self).width == old(self).width,
            x < old(self).width && y < old(self).height ==> (final(self).pixels@, final(self).z_buffer@) == depth_write(
                old(self).pixels@,
                old(self).z_buffer@,
                y * old(self).width + x,
                distance,
                color,
            ),
            !(x < old(self).width && y < old(self).height) ==> final(self).pixels@ == old(self).pixels@ && final(self).z_buffer@ == old(self).z_buffer@,
            wrote == (x < old(self).width && y < old(self).height && distance.raw < old(self).z_buffer@[y * old(self).width + x].raw),
    {
        if x < self.width && y < self.height {
            proof {
                lemma_abs_mul(self.height as int, self.width as int, 16384, 16384);
                lemma_row_major_bound(y as int, x as int, self.height as int, self.width as int);
            }
            let idx: usize = y * self.width + x;
            if distance.raw < self.z_buffer[idx].raw {
                self.pixels[idx] = color;
                self.z_buffer[idx] = distance;
                true
            } else {
                false
            }
        } else {
            false
        }
    }

    /// Fills rows `start..stop` of one column with a colour, without depth
    /// testing: the error-column signal for degenerate wall distances.
    pub fn draw_vertical_line(&mut self, x: usize, start: usize, stop: usize, color: u32)
        requires
            old(self).wf(),
            x < old(self).width,
            stop <= old(self).height,
        ensures
            final(self).wf(),
            final(self).height == old(self).height,
            final(self).width == old(self).width,
            final(self).z_buffer@ == old(self).z_buffer@,
            final(self).pixels@.len() == old(self).pixels@.len(),
            forall|i: int|
                0 <= i < final(self).pixels@.len() ==> final(self).pixels@[i] == if i % (old(self).width as int) == x && start <= i / (old(self).width as int) < stop {
                    color
                } else {
                    old(self).pixels@[i]
                },
    {
        if start >= stop {
            return ;
        }
        let mut row: usize = start;
        while row < stop
            invariant
                start <= row <= stop,
                stop <= old(self).height,
                x < old(self).width,
                old(self).wf(),
                self.wf(),
                self.height == old(self).height,
                self.width == old(self).width,
                self.z_buffer@ == old(self).z_buffer@,
                self.pixels@.len() == old(self).pixels@.len(),
                forall|i: int|
                    0 <= i < self.pixels@.len() ==> self.pixels@[i] == if i % (old(self).width as int) == x && start <= i / (old(self).width as int) < row {
                        color
                    } else {
                        old(self).pixels@[i]
                    },
            decreases stop - row,
        {
            proof {
                lemma_abs_mul(self.height as int, self.width as int, 16384, 16384);
                lemma_row_major_bound(row as int, x as int, self.height as int, self.width as int);
                lemma_row_major_decompose(row as int, x as int, self.width as int);
            }
            let idx: usize = row * self.width + x;
            self.pixels[idx] = color;
            proof {
                assert forall|i: int| 0 <= i < self.pixels@.len() implies self.pixels@[i] == (if i
                    % (old(self).width as int) == x && start <= i / (old(self).width as int) < row
                    + 1 {
                    color
                } else {
                    old(self).pixels@[i]
                }) by {
                    vstd::arithmetic::div_mod::lemma_fundamental_div_mod(
                        i,
                        old(self).width as int,
                    );
                    vstd::arithmetic::mul::lemma_mul_is_commutative(
                        old(self).width as int,
                        i / (old(self).width as int),
                    );
                }
            }
            row = row + 1;
        }
    }

    /// Projects one wall intersection into screen column `x`: line height
    /// `screen_height / distance`, vertical bounds shifted by the eye
    /// height, perspective-correct vertical texture stepping, Y-side
    /// darkening, fog from the camera's cell, and a depth-tested write per
    /// row. The buffers leave exactly as `wall_pass` describes: an error
    /// column for a non-positive distance, nothing for an open cell, and
    /// otherwise per-row depth-arbitrated writes of the sampled colour,
    /// with every other pixel untouched.
    pub fn draw_wall(
        &mut self,
        camera: &Camera,
        x: usize,
        perp_wall_dist: Fx,
        cell: &MapCell,
        side: &Side,
        ray: &Ray,
        world: &Grid,
        textures: &Vec<Texture>,
    )
        requires
            old(self).wf(),
            camera.wf(),
            world.wf(),
            x < old(self).width,
            v_small(ray.direction),
            forall|j: int| 0 <= j < textures@.len() ==> (#[trigger] textures@[j]).wf(),
        ensures
            final(self).wf(),
            final(self).height == old(self).height,
            final(self).width == old(self).width,
            (final(self).pixels@, final(self).z_buffer@) == wall_pass(
                old(self).pixels@,
                old(self).z_buffer@,
                old(self).height as int,
                old(self).width as int,
                *camera,
                x as int,
                perp_wall_dist,
                *cell,
                *side,
                ray.direction,
                *world,
                textures@,
            ),
    {
        let ghost p0: Seq<u32> = self.pixels@;
        let ghost z0: Seq<Fx> = self.z_buffer@;
        let ghost pass: (Seq<u32>, Seq<Fx>) = wall_pass(
            p0,
            z0,
            self.height as int,
            self.width as int,
            *camera,
            x as int,
            perp_wall_dist,
            *cell,
            *side,
            ray.direction,
            *world,
            textures@,
        );
        if perp_wall_dist.raw <= 0 {
            let h: usize = self.height;
            self.draw_vertical_line(x, 0, h, 0x00ff0000u32);
            proof {
                assert_seqs_equal!(self.pixels@ == pass.0, i => {
                    vstd::arithmetic::div_mod::lemma_div_pos_is_pos(i, old(self).width as int);
                    vstd::arithmetic::mul::lemma_mul_is_commutative(
                        old(self).height as int,
                        old(self).width as int,
                    );
                    vstd::arithmetic::div_mod::lemma_multiply_divide_lt(
                        i,
                        old(self).width as int,
                        old(self).height as int,
                    );
                });
            }
            return ;
        }
        let tex_idx: usize = match cell {
            MapCell::Wall { texture } => *texture,
            MapCell::ThinWall { texture, .. } => *texture,
            MapCell::Empty { .. } => {
                return ;
            },
        };
        if tex_idx >= textures.len() {
            return ;
        }
        if perp_wall_dist.raw > FX_SMALL {
            return ;
        }
        let texture: &Texture = &textures[tex_idx];
        let h_i: i64 = self.height as i64;
        proof {
            vstd::arithmetic::div_mod::lemma_div_pos_is_pos(
                h_i as int * FX_SCALE as int,
                perp_wall_dist.raw as int,
            );
            vstd::arithmetic::div_mod::lemma_div_nonincreasing(
                h_i as int * FX_SCALE as int,
                perp_wall_dist.raw as int,
            );
        }
        let lh: i64 = (h_i * FX_SCALE) / perp_wall_dist.raw;
        if lh == 0 {
            return ;
        }
        proof {
            lemma_tdiv_range(
                camera.height.raw as int,
                crate::camera::POS_BOUND as int,
                perp_wall_dist.raw as int,
            );
            vstd::arithmetic::div_mod::lemma_div_nonincreasing(
                crate::camera::POS_BOUND as int,
                perp_wall_dist.raw as int,
            );
        }
        let ch_div: i64 = camera.height.raw / perp_wall_dist.raw;
        let hh: i64 = (self.height / 2) as i64;
        let ds0: i64 = (-lh) / 2 + hh - 1 + ch_div;
        let de0: i64 = lh / 2 + hh + 1 + ch_div;
        let ds: i64 = if ds0 < 0 {
            0
        } else {
            ds0
        };
        let de: i64 = if de0 > h_i {
            h_i
        } else {
            de0
        };
        let dir_c: Fx = match side {
            Side::X => ray.direction.y,
            Side::Y => ray.direction.x,
        };
        let pos_c: Fx = match side {
            Side::X => camera.position.y,
            Side::Y => camera.position.x,
        };
        let wx: i64 = pos_c.raw + perp_wall_dist.times(dir_c).raw;
        let frac: i64 = crate::fixed::floor_mod(wx, FX_SCALE);
        let texw: i64 = texture.width as i64;
        let texh: i64 = texture.height as i64;
        proof {
            lemma_abs_mul(frac as int, texw as int, 65536, 32768);
            vstd::arithmetic::mul::lemma_mul_nonnegative(frac as int, texw as int);
            vstd::arithmetic::mul::lemma_mul_strict_inequality(frac as int, 65536, texw as int);
            vstd::arithmetic::div_mod::lemma_multiply_divide_lt(
                frac as int * texw as int,
                FX_SCALE as int,
                texw as int,
            );
            vstd::arithmetic::div_mod::lemma_div_pos_is_pos(
                frac as int * texw as int,
                FX_SCALE as int,
            );
            vstd::arithmetic::div_mod::lemma_div_pos_is_pos(
                texh as int * FX_SCALE as int,
                lh as int,
            );
            vstd::arithmetic::div_mod::lemma_div_nonincreasing(
                texh as int * FX_SCALE as int,
                lh as int,
            );
        }
        let mut tex_x: i64 = (frac * texw) / FX_SCALE;
        let mirrored: bool = match side {
            Side::X => ray.direction.x.raw > 0,
            Side::Y => ray.direction.y.raw < 0,
        };
        if mirrored {
            tex_x = texw - tex_x - 1;
        }
        proof {
            assert(tex_x as int == wall_tex_x(
                textures@[tex_idx as int],
                *side,
                *camera,
                perp_wall_dist,
                ray.direction,
            ));
        }
        let st: i64 = (texh * FX_SCALE) / lh;
        let cam_cell: Vec2<usize> = camera.position.as_usize();
        let mut fog: Fx = Fx { raw: 0 };
        let mut fog_color: u32 = 0;
        let mut have_fog: bool = false;
        match world.at(&cam_cell) {
            Some(c) => {
                proof {
                    lemma_row_major_bound(
                        cam_cell.x as int,
                        cam_cell.y as int,
                        world.height as int,
                        world.width as int,
                    );
                    assert(crate::grid::cell_wf(
                        world.cells@[cam_cell.x as int * world.width as int + cam_cell.y as int],
                    ));
                }
                match c {
                    MapCell::Empty { fog: f, fog_color: fc, .. } => {
                        fog = *f;
                        fog_color = *fc;
                        have_fog = true;
                    },
                    _ => {},
                }
            },
            None => {},
        }
        let ghost fogp: Option<(Fx, u32)> = camera_fog_cell(*world, *camera);
        proof {
            assert(fogp == if have_fog {
                Some((fog, fog_color))
            } else {
                None::<(Fx, u32)>
            });
        }
        if ds >= de {
            proof {
                assert_seqs_equal!(self.pixels@ == pass.0, i => {});
                assert_seqs_equal!(self.z_buffer@ == pass.1, i => {});
            }
            return ;
        }
        let ghost texture_g: Texture = textures@[tex_idx as int];
        let mut yy: i64 = ds;
        while yy < de
            invariant
                ds <= yy <= de,
                0 <= ds,
                de <= h_i,
                h_i == self.height,
                self.wf(),
                self.height == old(self).height,
                self.width == old(self).width,
                x < self.width,
                self.pixels@.len() == p0.len(),
                self.z_buffer@.len() == z0.len(),
                p0.len() == self.height * self.width,
                z0.len() == self.height * self.width,
                0 < perp_wall_dist.raw <= FX_SMALL,
                1 <= lh <= 0x1000_0000_0000,
                0 <= hh <= 8192,
                -0x8000_0000 <= ch_div <= 0x8000_0000,
                0 <= st <= 0x8000_0000,
                0 <= tex_x < texw,
                texw == texture.width,
                texh == texture.height,
                texture.wf(),
                texture_g == *texture,
                have_fog ==> 0 <= fog.raw <= 0x8000_0000,
                fogp == if have_fog {
                    Some((fog, fog_color))
                } else {
                    None::<(Fx, u32)>
                },
                lh as int == tdiv(self.height as int * (FX_SCALE as int), perp_wall_dist.raw as int),
                ch_div as int == tdiv(camera.height.raw as int, perp_wall_dist.raw as int),
                hh as int == self.height as int / 2,
                st as int == tdiv(texture.height * (FX_SCALE as int), lh as int),
                tex_x as int == wall_tex_x(
                    texture_g,
                    *side,
                    *camera,
                    perp_wall_dist,
                    ray.direction,
                ),
                forall|i: int|
                    0 <= i < p0.len() ==> {
                        if i % (self.width as int) == x && ds <= i / (self.width as int) < yy {
                            match wall_row_color(
                                texture_g,
                                *side,
                                fogp,
                                perp_wall_dist,
                                tex_x as int,
                                wall_tex_y(
                                    texture_g,
                                    i / (self.width as int),
                                    ch_div as int,
                                    hh as int,
                                    lh as int,
                                ),
                            ) {
                                Some(col) => if perp_wall_dist.raw < z0[i].raw {
                                    self.pixels@[i] == col && self.z_buffer@[i] == perp_wall_dist
                                } else {
                                    self.pixels@[i] == p0[i] && self.z_buffer@[i] == z0[i]
                                },
                                None => self.pixels@[i] == p0[i] && self.z_buffer@[i] == z0[i],
                            }
                        } else {
                            self.pixels@[i] == p0[i] && self.z_buffer@[i] == z0[i]
                        }
                    },
            decreases de - yy,
        {
            let d: i64 = yy - ch_div - hh + lh / 2;
            proof {
                lemma_abs_mul(d as int, st as int, 0x4000_0000_0000, 0x8000_0000);
                lemma_tdiv_range(
                    d as int * st as int,
                    0x4000_0000_0000int * 0x8000_0000int,
                    FX_SCALE as int,
                );
            }
            let tq: i128 = (d as i128) * (st as i128) / 65536i128;
            let ty: i64 = if tq < 0 {
                0
            } else {
                (tq as i64) % texh
            };
            proof {
                assert(ty as int == wall_tex_y(
                    texture_g,
                    yy as int,
                    ch_div as int,
                    hh as int,
                    lh as int,
                ));
                lemma_abs_mul(texw as int, ty as int, 32768, 32768);
                lemma_row_major_bound(yy as int, x as int, self.height as int, self.width as int);
                lemma_row_major_decompose(yy as int, x as int, self.width as int);
            }
            let ghost row_c: Option<u32> = wall_row_color(
                texture_g,
                *side,
                fogp,
                perp_wall_dist,
                tex_x as int,
                ty as int,
            );
            let ghost prev_p: Seq<u32> = self.pixels@;
            let ghost prev_z: Seq<Fx> = self.z_buffer@;
            let ghost idx: int = yy as int * self.width as int + x;
            let t_idx: i64 = texw * ty + tex_x;
            if (t_idx as usize) < texture.data.len() {
                let mut color: u32 = texture.data[t_idx as usize];
                if color % 0x100_0000 != 0 {
                    match side {
                        Side::Y => {
                            color = half_color(color);
                        },
                        Side::X => {},
                    }
                    if have_fog {
                        color = fog_blend(color, fog_color, perp_wall_dist, fog);
                    }
                    proof {
                        assert(row_c == Some(color));
                    }
                    let _wrote: bool = self.write_with_depth(
                        x,
                        yy as usize,
                        perp_wall_dist,
                        color,
                    );
                    proof {
                        assert(prev_p[idx] == p0[idx] && prev_z[idx] == z0[idx]);
                        assert forall|i: int| 0 <= i < p0.len() implies {
                            if i % (self.width as int) == x && ds <= i / (self.width as int) < yy
                                + 1 {
                                match wall_row_color(
                                    texture_g,
                                    *side,
                                    fogp,
                                    perp_wall_dist,
                                    tex_x as int,
                                    wall_tex_y(
                                        texture_g,
                                        i / (self.width as int),
                                        ch_div as int,
                                        hh as int,
                                        lh as int,
                                    ),
                                ) {
                                    Some(col) => if perp_wall_dist.raw < z0[i].raw {
                                        self.pixels@[i] == col && self.z_buffer@[i]
                                            == perp_wall_dist
                                    } else {
                                        self.pixels@[i] == p0[i] && self.z_buffer@[i] == z0[i]
                                    },
                                    None => self.pixels@[i] == p0[i] && self.z_buffer@[i] == z0[i],
                                }
                            } else {
                                self.pixels@[i] == p0[i] && self.z_buffer@[i] == z0[i]
                            }
                        } by {
                            vstd::arithmetic::div_mod::lemma_fundamental_div_mod(
                                i,
                                self.width as int,
                            );
                            vstd::arithmetic::mul::lemma_mul_is_commutative(
                                self.width as int,
                                i / (self.width as int),
                            );
                        }
                    }
                } else {
                    proof {
                        assert(row_c is None);
                    }
                }
            } else {
                proof {
                    assert(texw as int * (ty as int) + tex_x as int >= 0);
                    assert(row_c is None);
                }
            }
            yy = yy + 1;
        }
        proof {
            assert_seqs_equal!(self.pixels@ == pass.0, i => {
                vstd::arithmetic::div_mod::lemma_fundamental_div_mod(i, self.width as int);
            });
            assert_seqs_equal!(self.z_buffer@ == pass.1, i => {
                vstd::arithmetic::div_mod::lemma_fundamental_div_mod(i, self.width as int);
            });
        }
    }

    /// Draws the floor and ceiling: for every screen row and column, the
    /// colour `fc_pixel` prescribes, written without any depth test (the
    /// backmost layer, so this pass must run before walls and sprites); the
    /// depth buffer and every pixel `fc_pixel` skips are untouched.
    pub fn draw_floor_and_ceiling(
        &mut self,
        camera: &Camera,
        world: &Grid,
        textures: &Vec<Texture>,
    )
        requires
            old(self).wf(),
            camera.wf(),
            world.wf(),
            forall|j: int| 0 <= j < textures@.len() ==> (#[trigger] textures@[j]).wf(),
        ensures
            final(self).wf(),
            final(self).height == old(self).height,
            final(self).width == old(self).width,
            final(self).pixels@.len() == old(self).pixels@.len(),
            final(self).z_buffer@ == old(self).z_buffer@,
            forall|i: int|
                0 <= i < old(self).pixels@.len() ==> final(self).pixels@[i] == match fc_pixel(
                    *world,
                    textures@,
                    *camera,
                    old(self).height as int,
                    old(self).width as int,
                    i / (old(self).width as int),
                    i % (old(self).width as int),
                ) {
                    Some(c) => c,
                    None => old(self).pixels@[i],
                },
    {
        let h: usize = self.height;
        let w: usize = self.width;
        let ghost p0: Seq<u32> = self.pixels@;
        let mut y: usize = 0;
        while y < h
            invariant
                0 <= y <= h,
                self.wf(),
                self.height == old(self).height,
                self.width == old(self).width,
                h == self.height,
                w == self.width,
                camera.wf(),
                world.wf(),
                forall|j: int| 0 <= j < textures@.len() ==> (#[trigger] textures@[j]).wf(),
                self.pixels@.len() == p0.len(),
                self.z_buffer@ == old(self).z_buffer@,
                p0.len() == self.height * self.width,
                forall|i: int|
                    0 <= i < p0.len() ==> self.pixels@[i] == if i / (self.width as int) < y {
                        match fc_pixel(
                            *world,
                            textures@,
                            *camera,
                            self.height as int,
                            self.width as int,
                            i / (self.width as int),
                            i % (self.width as int),
                        ) {
                            Some(c) => c,
                            None => p0[i],
                        }
                    } else {
                        p0[i]
                    },
            decreases h - y,
        {
            let mut x: usize = 0;
            while x < w
                invariant
                    0 <= x <= w,
                    0 <= y < h,
                    self.wf(),
                    self.height == old(self).height,
                    self.width == old(self).width,
                    h == self.height,
                    w == self.width,
                    camera.wf(),
                    world.wf(),
                    forall|j: int| 0 <= j < textures@.len() ==> (#[trigger] textures@[j]).wf(),
                    self.pixels@.len() == p0.len(),
                    self.z_buffer@ == old(self).z_buffer@,
                    p0.len() == self.height * self.width,
                    forall|i: int|
                        0 <= i < p0.len() ==> self.pixels@[i] == if i / (self.width as int) < y || (
                        i / (self.width as int) == y && i % (self.width as int) < x) {
                            match fc_pixel(
                                *world,
                                textures@,
                                *camera,
                                self.height as int,
                                self.width as int,
                                i / (self.width as int),
                                i % (self.width as int),
                            ) {
                                Some(c) => c,
                                None => p0[i],
                            }
                        } else {
                            p0[i]
                        },
                decreases w - x,
            {
                proof {
                    lemma_abs_mul(self.height as int, self.width as int, 16384, 16384);
                    lemma_row_major_bound(y as int, x as int, self.height as int, self.width as int);
                    lemma_row_major_decompose(y as int, x as int, self.width as int);
                }
                match Framebuffer::fc_color(world, textures, camera, h, w, y, x) {
                    Some(color) => {
                        let idx: usize = y * w + x;
                        self.pixels[idx] = color;
                    },
                    None => {},
                }
                proof {
                    assert forall|i: int| 0 <= i < p0.len() implies self.pixels@[i] == (if i / (
                    self.width as int) < y || (i / (self.width as int) == y && i % (
                    self.width as int) < x + 1) {
                        match fc_pixel(
                            *world,
                            textures@,
                            *camera,
                            self.height as int,
                            self.width as int,
                            i / (self.width as int),
                            i % (self.width as int),
                        ) {
                            Some(c) => c,
                            None => p0[i],
                        }
                    } else {
                        p0[i]
                    }) by {
                        vstd::arithmetic::div_mod::lemma_fundamental_div_mod(
                            i,
                            self.width as int,
                        );
                        vstd::arithmetic::mul::lemma_mul_is_commutative(
                            self.width as int,
                            i / (self.width as int),
                        );
                    }
                }
                x = x + 1;
            }
            y = y + 1;
        }
        proof {
            assert forall|i: int| #![trigger p0[i]] 0 <= i < p0.len() implies i / (
            self.width as int) < self.height as int by {
                vstd::arithmetic::div_mod::lemma_div_pos_is_pos(i, self.width as int);
                vstd::arithmetic::mul::lemma_mul_is_commutative(
                    self.height as int,
                    self.width as int,
                );
                vstd::arithmetic::div_mod::lemma_multiply_divide_lt(
                    i,
                    self.width as int,
                    self.height as int,
                );
            }
        }
    }

    /// The floor/ceiling colour at one screen position, recomputed from
    /// the camera: the executable mirror of `fc_pixel`.
    fn fc_color(
        world: &Grid,
        textures: &Vec<Texture>,
        camera: &Camera,
        h: usize,
        w: usize,
        y: usize,
        x: usize,
    ) -> (r: Option<u32>)
        requires
            camera.wf(),
            world.wf(),
            1 <= h <= 16384,
            1 <= w <= 16384,
            y < h,
            x < w,
            forall|j: int| 0 <= j < textures@.len() ==> (#[trigger] textures@[j]).wf(),
        ensures
            r == fc_pixel(*world, textures@, *camera, h as int, w as int, y as int, x as int),
    {
        proof {
            crate::vec2::lemma_norm_component(
                camera.direction.x.raw as int,
                camera.direction.y.raw as int,
                crate::camera::DIR_NORM_BOUND as int,
            );
            crate::vec2::lemma_norm_component(
                camera.plane.x.raw as int,
                camera.plane.y.raw as int,
                crate::camera::DIR_NORM_BOUND as int,
            );
        }
        let half: usize = h / 2;
        let is_floor: bool = y > half;
        let cp: i64 = if is_floor {
            (y - half) as i64
        } else {
            (half - y) as i64
        };
        if cp == 0 {
            return None;
        }
        let h_i: i64 = h as i64;
        let w_i: i64 = w as i64;
        let camz: i64 = if is_floor {
            h_i * 32768 + camera.height.raw
        } else {
            h_i * 32768 - camera.height.raw
        };
        if camz <= 0 {
            return None;
        }
        proof {
            lemma_tdiv_range(camz as int, 0x8_0000_0000, cp as int);
            vstd::arithmetic::div_mod::lemma_div_nonincreasing(0x8_0000_0000, cp as int);
        }
        let rd: Fx = Fx { raw: camz / cp };
        let rd0x: i64 = camera.direction.x.raw - camera.plane.x.raw;
        let rd0y: i64 = camera.direction.y.raw - camera.plane.y.raw;
        let rd1x: i64 = camera.direction.x.raw + camera.plane.x.raw;
        let rd1y: i64 = camera.direction.y.raw + camera.plane.y.raw;
        let stx: Fx = rd.times(Fx { raw: rd1x - rd0x });
        let sty: Fx = rd.times(Fx { raw: rd1y - rd0y });
        proof {
            lemma_tdiv_range(stx.raw as int, 0x1000_0000_0000_0000, w_i as int);
            lemma_tdiv_range(sty.raw as int, 0x1000_0000_0000_0000, w_i as int);
            vstd::arithmetic::div_mod::lemma_div_nonincreasing(0x1000_0000_0000_0000, w_i as int);
        }
        let fsx: i64 = stx.raw / w_i;
        let fsy: i64 = sty.raw / w_i;
        let f0x: i64 = camera.position.x.raw + rd.times(Fx { raw: rd0x }).raw;
        let f0y: i64 = camera.position.y.raw + rd.times(Fx { raw: rd0y }).raw;
        proof {
            lemma_abs_mul(x as int, fsx as int, 16384, 0x1000_0000_0000_0000);
            lemma_abs_mul(x as int, fsy as int, 16384, 0x1000_0000_0000_0000);
        }
        let pcx: i128 = (f0x as i128) + (x as i128) * (fsx as i128);
        let pcy: i128 = (f0y as i128) + (x as i128) * (fsy as i128);
        let ptx: i128 = pcx + (fsx as i128);
        let pty: i128 = pcy + (fsy as i128);
        if !(0 <= pcx && pcx <= 0x8000_0000 && 0 <= pcy && pcy <= 0x8000_0000) {
            return None;
        }
        let gx: usize = ((pcx as i64) / FX_SCALE) as usize;
        let gy: usize = ((pcy as i64) / FX_SCALE) as usize;
        proof {
            vstd::arithmetic::div_mod::lemma_div_pos_is_pos(pcx as int, FX_SCALE as int);
            vstd::arithmetic::div_mod::lemma_div_pos_is_pos(pcy as int, FX_SCALE as int);
            vstd::arithmetic::div_mod::lemma_div_is_ordered(pcx as int, 0x8000_0000, FX_SCALE as int);
            vstd::arithmetic::div_mod::lemma_div_is_ordered(pcy as int, 0x8000_0000, FX_SCALE as int);
        }
        let mut tex_idx: usize = 0;
        let mut have_cell: bool = false;
        match world.at(&Vec2 { x: gx, y: gy }) {
            Some(c) => match c {
                MapCell::Empty { ceiling_texture, floor_texture, .. } => {
                    tex_idx = if is_floor {
                        *floor_texture
                    } else {
                        *ceiling_texture
                    };
                    have_cell = true;
                },
                MapCell::ThinWall { ceiling_texture, floor_texture, .. } => {
                    tex_idx = if is_floor {
                        *floor_texture
                    } else {
                        *ceiling_texture
                    };
                    have_cell = true;
                },
                MapCell::Wall { .. } => {},
            },
            None => {},
        }
        if !(have_cell && tex_idx < textures.len()) {
            return None;
        }
        let texture: &Texture = &textures[tex_idx];
        let texw: i64 = texture.width as i64;
        let texh: i64 = texture.height as i64;
        let dx: i128 = ptx - (gx as i128) * 65536;
        let dy: i128 = pty - (gy as i128) * 65536;
        proof {
            lemma_abs_mul(texw as int, dx as int, 32768, 0x4000_0000_0000_0000int);
            lemma_abs_mul(texh as int, dy as int, 32768, 0x4000_0000_0000_0000int);
        }
        let qx: i128 = (texw as i128) * dx / 65536;
        let qy: i128 = (texh as i128) * dy / 65536;
        let tcx: i64 = clamp_mod(qx, texw);
        let tcy: i64 = clamp_mod(qy, texh);
        proof {
            lemma_abs_mul(texw as int, tcy as int, 32768, 32768);
        }
        let t_idx: i128 = (texw as i128) * (tcy as i128) + (tcx as i128);
        if !(0 <= t_idx && (t_idx as usize) < texture.data.len()) {
            return None;
        }
        let mut color: u32 = half_color(texture.data[t_idx as usize]);
        let cam_cell: Vec2<usize> = camera.position.as_usize();
        let mut fog: Fx = Fx { raw: 0 };
        let mut fog_color: u32 = 0;
        let mut have_fog: bool = false;
        match world.at(&cam_cell) {
            Some(c) => {
                proof {
                    lemma_row_major_bound(
                        cam_cell.x as int,
                        cam_cell.y as int,
                        world.height as int,
                        world.width as int,
                    );
                    assert(crate::grid::cell_wf(
                        world.cells@[cam_cell.x as int * world.width as int + cam_cell.y as int],
                    ));
                }
                match c {
                    MapCell::Empty { fog: f, fog_color: fc, .. } => {
                        fog = *f;
                        fog_color = *fc;
                        have_fog = true;
                    },
                    _ => {},
                }
            },
            None => {},
        }
        if have_fog {
            let ddx: i128 = ptx - (camera.position.x.raw as i128);
            let ddy: i128 = pty - (camera.position.y.raw as i128);
            if -0x8000_0000 <= ddx && ddx <= 0x8000_0000 && -0x8000_0000 <= ddy && ddy
                <= 0x8000_0000 {
                let dvec: Vec2<Fx> = Vec2 { x: Fx { raw: ddx as i64 }, y: Fx { raw: ddy as i64 } };
                let dist: Fx = dvec.length();
                color = fog_blend(color, fog_color, dist, fog);
            } else {
                color = blend_channels(color, fog_color, FX_SCALE);
            }
        }
        Some(color)
    }

    /// Recomputes every sprite's camera distance, then draws each sprite in
    /// order over the result of the previous ones, exactly as the
    /// `sprites_fold` of `sprite_pass`es describes: per covered pixel a
    /// depth-tested, fog-blended texel write behind the shared strict
    /// less-than test, so draw order between non-overlapping depths cannot
    /// change the final image; degenerate projections draw nothing.
    pub fn draw_sprites(
        &mut self,
        camera: &Camera,
        sprites: &mut Vec<Sprite>,
        world: &Grid,
        textures: &Vec<Texture>,
    )
        requires
            old(self).wf(),
            camera.wf(),
            world.wf(),
            forall|k: int| 0 <= k < old(sprites)@.len() ==> sprite_small(#[trigger] old(sprites)@[k]),
            forall|j: int| 0 <= j < textures@.len() ==> (#[trigger] textures@[j]).wf(),
        ensures
            final(self).wf(),
            final(self).height == old(self).height,
            final(self).width == old(self).width,
            final(sprites)@.len() == old(sprites)@.len(),
            forall|k: int|
                0 <= k < old(sprites)@.len() ==> final(sprites)@[k] == upd_sprite(
                    *camera,
                    #[trigger] old(sprites)@[k],
                ),
            (final(self).pixels@, final(self).z_buffer@) == sprites_fold(
                old(self).pixels@,
                old(self).z_buffer@,
                old(self).height as int,
                old(self).width as int,
                *camera,
                camera_fog_cell(*world, *camera),
                textures@,
                old(sprites)@,
                old(sprites)@.len() as int,
            ),
    {
        let cam_cell: Vec2<usize> = camera.position.as_usize();
        let mut fog: Fx = Fx { raw: 0 };
        let mut fog_color: u32 = 0;
        let mut have_fog: bool = false;
        match world.at(&cam_cell) {
            Some(c) => {
                proof {
                    lemma_row_major_bound(
                        cam_cell.x as int,
                        cam_cell.y as int,
                        world.height as int,
                        world.width as int,
                    );
                    assert(crate::grid::cell_wf(
                        world.cells@[cam_cell.x as int * world.width as int + cam_cell.y as int],
                    ));
                }
                match c {
                    MapCell::Empty { fog: f, fog_color: fc, .. } => {
                        fog = *f;
                        fog_color = *fc;
                        have_fog = true;
                    },
                    _ => {},
                }
            },
            None => {},
        }
        let ghost fogp: Option<(Fx, u32)> = camera_fog_cell(*world, *camera);
        proof {
            assert(fogp == if have_fog {
                Some((fog, fog_color))
            } else {
                None::<(Fx, u32)>
            });
        }
        let n: usize = sprites.len();
        let mut k: usize = 0;
        while k < n
            invariant
                0 <= k <= n,
                sprites@.len() == n,
                0 <= camera.position.x.raw <= 0x8000_0000,
                0 <= camera.position.y.raw <= 0x8000_0000,
                forall|j: int| 0 <= j < n ==> sprite_small(#[trigger] old(sprites)@[j]),
                forall|j: int| k <= j < n ==> sprites@[j] == old(sprites)@[j],
                forall|j: int|
                    0 <= j < k ==> sprites@[j] == upd_sprite(*camera, #[trigger] old(sprites)@[j]),
            decreases n - k,
        {
            let mut s: Sprite = sprites[k];
            proof {
                assert(sprite_small(old(sprites)@[k as int]));
            }
            let diff: Vec2<Fx> = camera.position.minus(&s.position);
            let dist: Fx = diff.length();
            s.distance_from_camera = dist;
            proof {
                let so = old(sprites)@[k as int];
                assert(diff.x.raw == (camera.position.x.raw - so.position.x.raw) as i64);
                assert(diff.y.raw == (camera.position.y.raw - so.position.y.raw) as i64);
                assert(s == upd_sprite(*camera, so));
            }
            sprites[k] = s;
            k = k + 1;
        }
        let ghost p0: Seq<u32> = self.pixels@;
        let ghost z0: Seq<Fx> = self.z_buffer@;
        let mut k2: usize = 0;
        while k2 < n
            invariant
                0 <= k2 <= n,
                sprites@.len() == n,
                self.wf(),
                self.height == old(self).height,
                self.width == old(self).width,
                camera.wf(),
                have_fog ==> 0 <= fog.raw <= 0x8000_0000,
                fogp == if have_fog {
                    Some((fog, fog_color))
                } else {
                    None::<(Fx, u32)>
                },
                forall|j: int| 0 <= j < textures@.len() ==> (#[trigger] textures@[j]).wf(),
                forall|j: int| 0 <= j < n ==> sprite_small(#[trigger] old(sprites)@[j]),
                forall|j: int|
                    0 <= j < n ==> sprites@[j] == upd_sprite(*camera, #[trigger] old(sprites)@[j]),
                (self.pixels@, self.z_buffer@) == sprites_fold(
                    p0,
                    z0,
                    old(self).height as int,
                    old(self).width as int,
                    *camera,
                    fogp,
                    textures@,
                    old(sprites)@,
                    k2 as int,
                ),
            decreases n - k2,
        {
            let s: Sprite = sprites[k2];
            proof {
                assert(sprite_small(old(sprites)@[k2 as int]));
                assert(s == upd_sprite(*camera, old(sprites)@[k2 as int]));
                crate::vec2::lemma_fx_dist_raw_bounds(
                    camera.position.x.raw - old(sprites)@[k2 as int].position.x.raw,
                    camera.position.y.raw - old(sprites)@[k2 as int].position.y.raw,
                );
            }
            self.draw_one_sprite(camera, have_fog, fog, fog_color, Ghost(fogp), s, textures);
            k2 = k2 + 1;
        }
    }

    /// Draws one sprite: the executable mirror of `sprite_pass`.
    fn draw_one_sprite(
        &mut self,
        camera: &Camera,
        have_fog: bool,
        fog: Fx,
        fog_color: u32,
        fogp: Ghost<Option<(Fx, u32)>>,
        s: Sprite,
        textures: &Vec<Texture>,
    )
        requires
            old(self).wf(),
            camera.wf(),
            sprite_small(s),
            0 <= s.distance_from_camera.raw <= 0x1_0000_0000,
            have_fog ==> 0 <= fog.raw <= 0x8000_0000,
            fogp@ == if have_fog {
                Some((fog, fog_color))
            } else {
                None::<(Fx, u32)>
            },
            forall|j: int| 0 <= j < textures@.len() ==> (#[trigger] textures@[j]).wf(),
        ensures
            final(self).wf(),
            final(self).height == old(self).height,
            final(self).width == old(self).width,
            (final(self).pixels@, final(self).z_buffer@) == sprite_pass(
                old(self).pixels@,
                old(self).z_buffer@,
                old(self).height as int,
                old(self).width as int,
                *camera,
                fogp@,
                textures@,
                s,
            ),
    {
        let ghost ps: Seq<u32> = self.pixels@;
        let ghost zs: Seq<Fx> = self.z_buffer@;
        let ghost pass: (Seq<u32>, Seq<Fx>) = sprite_pass(
            ps,
            zs,
            self.height as int,
            self.width as int,
            *camera,
            fogp@,
            textures@,
            s,
        );
        let h_i: i64 = self.height as i64;
        let w_i: i64 = self.width as i64;
        proof {
            crate::vec2::lemma_norm_component(
                camera.direction.x.raw as int,
                camera.direction.y.raw as int,
                crate::camera::DIR_NORM_BOUND as int,
            );
            crate::vec2::lemma_norm_component(
                camera.plane.x.raw as int,
                camera.plane.y.raw as int,
                crate::camera::DIR_NORM_BOUND as int,
            );
        }
        let relx: i64 = s.position.x.raw - camera.position.x.raw;
        let rely: i64 = s.position.y.raw - camera.position.y.raw;
        let det: Fx = camera.plane.x.times(camera.direction.y).minus(
            camera.direction.x.times(camera.plane.y),
        );
        if det.raw == 0 || s.texture >= textures.len() {
            return ;
        }
        let idet: Fx = Fx { raw: FX_SCALE }.over(det);
        let t1: Fx = camera.direction.y.times(Fx { raw: relx }).minus(
            camera.direction.x.times(Fx { raw: rely }),
        );
        let t2: Fx = camera.plane.x.times(Fx { raw: rely }).minus(
            camera.plane.y.times(Fx { raw: relx }),
        );
        if !(-0x40_0000_0000 <= t1.raw && t1.raw <= 0x40_0000_0000 && -0x40_0000_0000 <= t2.raw
            && t2.raw <= 0x40_0000_0000 && -0x40_0000_0000 <= idet.raw && idet.raw
            <= 0x40_0000_0000) {
            return ;
        }
        let tx: Fx = idet.times(t1);
        let ty: Fx = idet.times(t2);
        if !(ty.raw > 0 && ty.raw <= 0x40_0000_0000 && -0x40_0000_0000 <= tx.raw && tx.raw
            <= 0x40_0000_0000) {
            return ;
        }
        proof {
            lemma_tdiv_range(s.vertical_offset.raw as int, 0x40_0000_0000, ty.raw as int);
            lemma_tdiv_range(camera.height.raw as int, 0x8000_0000, ty.raw as int);
            vstd::arithmetic::div_mod::lemma_div_nonincreasing(0x40_0000_0000, ty.raw as int);
            vstd::arithmetic::div_mod::lemma_div_nonincreasing(0x8000_0000, ty.raw as int);
            vstd::arithmetic::div_mod::lemma_div_pos_is_pos(
                h_i as int * FX_SCALE as int,
                ty.raw as int,
            );
            vstd::arithmetic::div_mod::lemma_div_nonincreasing(
                h_i as int * FX_SCALE as int,
                ty.raw as int,
            );
        }
        let vo: i64 = s.vertical_offset.raw / ty.raw + camera.height.raw / ty.raw;
        let tsum: i64 = ty.raw + tx.raw;
        let q1: i64 = tsum / 65536;
        let r1: i64 = tsum % 65536;
        proof {
            lemma_tdiv_range(tsum as int, 0x80_0000_0000, 65536);
            lemma_abs_mul(w_i as int, q1 as int, 16384, 0x80_0000);
            lemma_abs_mul(w_i as int, r1 as int, 16384, 65536);
            assert(r1 as int == crate::fixed::trem(tsum as int, 65536)) by {
                if tsum >= 0 {
                    vstd::arithmetic::div_mod::lemma_fundamental_div_mod(tsum as int, 65536);
                } else {
                    vstd::arithmetic::div_mod::lemma_fundamental_div_mod(-(tsum as int), 65536);
                    assert((65536int) * (-(tsum as int / 65536)) == -((65536int) * (tsum as int
                        / 65536))) by (nonlinear_arith);
                    assert((65536int) * tdiv(tsum as int, 65536) == -((65536int) * ((-(
                    tsum as int)) / 65536))) by (nonlinear_arith)
                        requires
                            tdiv(tsum as int, 65536) == -((-(tsum as int)) / 65536),
                    ;
                }
            }
        }
        let ssx: i64 = (w_i * q1) / 2 + (w_i * r1) / 131072;
        let q: i64 = (h_i * FX_SCALE) / ty.raw;
        let sh: i64 = Fx { raw: q }.times(s.scale_factor.y).raw;
        let sw: i64 = Fx { raw: q }.times(s.scale_factor.x).raw;
        if !(1 <= sh && sh <= 0x8000_0000 && 1 <= sw && sw <= 0x8000_0000 && -0x8000_0000 <= ssx
            && ssx <= 0x8000_0000 && -0x8000_0000 <= vo && vo <= 0x8000_0000) {
            return ;
        }
        let dsx: i64 = if -sw / 2 + ssx < 0 {
            0
        } else {
            -sw / 2 + ssx
        };
        let dex: i64 = if sw / 2 + ssx > w_i {
            w_i
        } else {
            sw / 2 + ssx
        };
        let dsy: i64 = if -sh / 2 + h_i / 2 + vo < 0 {
            0
        } else {
            -sh / 2 + h_i / 2 + vo
        };
        let dey: i64 = if sh / 2 + h_i / 2 + vo > h_i {
            h_i
        } else {
            sh / 2 + h_i / 2 + vo
        };
        if !(dsx < dex && dsy < dey) {
            return ;
        }
        let ghost proj: SpriteProj = SpriteProj {
            dsx: dsx as int,
            dex: dex as int,
            dsy: dsy as int,
            dey: dey as int,
            s_w: sw as int,
            s_h: sh as int,
            ssx: ssx as int,
            vo: vo as int,
        };
        proof {
            assert(sprite_project(
                *camera,
                s,
                self.height as int,
                self.width as int,
                textures@.len() as int,
            ) == Some(proj));
        }
        let texture: &Texture = &textures[s.texture];
        let texw: i64 = texture.width as i64;
        let texh: i64 = texture.height as i64;
        let mut col: i64 = dsx;
        while col < dex
            invariant
                dsx <= col <= dex,
                0 <= dsx,
                dex <= w_i,
                0 <= dsy,
                dsy < dey,
                dey <= h_i,
                self.wf(),
                self.height == old(self).height,
                self.width == old(self).width,
                h_i == self.height,
                w_i == self.width,
                self.pixels@.len() == ps.len(),
                self.z_buffer@.len() == zs.len(),
                ps.len() == self.height * self.width,
                zs.len() == self.height * self.width,
                1 <= sh <= 0x8000_0000,
                1 <= sw <= 0x8000_0000,
                -0x8000_0000 <= ssx <= 0x8000_0000,
                -0x8000_0000 <= vo <= 0x8000_0000,
                texw == texture.width,
                texh == texture.height,
                texture.wf(),
                *texture == textures@[s.texture as int],
                s.texture < textures@.len(),
                0 <= s.distance_from_camera.raw <= 0x1_0000_0000,
                have_fog ==> 0 <= fog.raw <= 0x8000_0000,
                fogp@ == if have_fog {
                    Some((fog, fog_color))
                } else {
                    None::<(Fx, u32)>
                },
                proj == (SpriteProj {
                    dsx: dsx as int,
                    dex: dex as int,
                    dsy: dsy as int,
                    dey: dey as int,
                    s_w: sw as int,
                    s_h: sh as int,
                    ssx: ssx as int,
                    vo: vo as int,
                }),
                sprite_project(
                    *camera,
                    s,
                    self.height as int,
                    self.width as int,
                    textures@.len() as int,
                ) == Some(proj),
                forall|i: int|
                    0 <= i < ps.len() ==> {
                        if i % (self.width as int) >= dsx && i % (self.width as int) < col && dsy
                            <= i / (self.width as int) < dey {
                            match sprite_pixel(
                                textures@[s.texture as int],
                                fogp@,
                                s,
                                self.height as int,
                                self.width as int,
                                proj,
                                i,
                            ) {
                                Some(cl) => if s.distance_from_camera.raw < zs[i].raw {
                                    self.pixels@[i] == cl && self.z_buffer@[i]
                                        == s.distance_from_camera
                                } else {
                                    self.pixels@[i] == ps[i] && self.z_buffer@[i] == zs[i]
                                },
                                None => self.pixels@[i] == ps[i] && self.z_buffer@[i] == zs[i],
                            }
                        } else {
                            self.pixels@[i] == ps[i] && self.z_buffer@[i] == zs[i]
                        }
                    },
            decreases dex - col,
        {
            let u: i64 = col - (-sw / 2 + ssx);
            proof {
                lemma_abs_mul(256 * (u as int), texw as int, 0x80_0000_0000int, 32768);
                lemma_tdiv_range(
                    256 * (u as int) * (texw as int),
                    0x80_0000_0000int * 32768,
                    sw as int,
                );
                vstd::arithmetic::div_mod::lemma_div_nonincreasing(
                    0x80_0000_0000int * 32768,
                    sw as int,
                );
            }
            let tex_x: i64 = ((256 * u * texw) / sw) / 256;
            let mut row: i64 = dsy;
            while row < dey
                invariant
                    dsy <= row <= dey,
                    dsx <= col < dex,
                    0 <= dsx,
                    dex <= w_i,
                    0 <= dsy,
                    dsy < dey,
                    dey <= h_i,
                    self.wf(),
                    self.height == old(self).height,
                    self.width == old(self).width,
                    h_i == self.height,
                    w_i == self.width,
                    self.pixels@.len() == ps.len(),
                    self.z_buffer@.len() == zs.len(),
                    ps.len() == self.height * self.width,
                    zs.len() == self.height * self.width,
                    1 <= sh <= 0x8000_0000,
                    1 <= sw <= 0x8000_0000,
                    -0x8000_0000 <= ssx <= 0x8000_0000,
                    -0x8000_0000 <= vo <= 0x8000_0000,
                    tex_x as int == tdiv(
                        tdiv(256 * (col - (tdiv(-(sw as int), 2) + ssx)) * texw, sw as int),
                        256,
                    ),
                    -0x1_0000_0000_0000 <= tex_x <= 0x1_0000_0000_0000,
                    texw == texture.width,
                    texh == texture.height,
                    texture.wf(),
                    *texture == textures@[s.texture as int],
                    s.texture < textures@.len(),
                    0 <= s.distance_from_camera.raw <= 0x1_0000_0000,
                    have_fog ==> 0 <= fog.raw <= 0x8000_0000,
                    fogp@ == if have_fog {
                        Some((fog, fog_color))
                    } else {
                        None::<(Fx, u32)>
                    },
                    proj == (SpriteProj {
                        dsx: dsx as int,
                        dex: dex as int,
                        dsy: dsy as int,
                        dey: dey as int,
                        s_w: sw as int,
                        s_h: sh as int,
                        ssx: ssx as int,
                        vo: vo as int,
                    }),
                    sprite_project(
                        *camera,
                        s,
                        self.height as int,
                        self.width as int,
                        textures@.len() as int,
                    ) == Some(proj),
                    forall|i: int|
                        0 <= i < ps.len() ==> {
                            if (i % (self.width as int) >= dsx && i % (self.width as int) < col
                                && dsy <= i / (self.width as int) < dey) || (i % (
                            self.width as int) == col && dsy <= i / (self.width as int) < row) {
                                match sprite_pixel(
                                    textures@[s.texture as int],
                                    fogp@,
                                    s,
                                    self.height as int,
                                    self.width as int,
                                    proj,
                                    i,
                                ) {
                                    Some(cl) => if s.distance_from_camera.raw < zs[i].raw {
                                        self.pixels@[i] == cl && self.z_buffer@[i]
                                            == s.distance_from_camera
                                    } else {
                                        self.pixels@[i] == ps[i] && self.z_buffer@[i] == zs[i]
                                    },
                                    None => self.pixels@[i] == ps[i] && self.z_buffer@[i] == zs[i],
                                }
                            } else {
                                self.pixels@[i] == ps[i] && self.z_buffer@[i] == zs[i]
                            }
                        },
                decreases dey - row,
            {
                let dd: i64 = (row - vo) * 256 - h_i * 128 + sh * 128;
                proof {
                    lemma_abs_mul(dd as int, texh as int, 0x4_0000_0000_0000, 32768);
                    lemma_row_major_bound(
                        row as int,
                        col as int,
                        self.height as int,
                        self.width as int,
                    );
                    lemma_row_major_decompose(row as int, col as int, self.width as int);
                }
                let tyq128: i128 = ((dd as i128) * (texh as i128) / (sh as i128)) / 256;
                let tex_y: i64 = tyq128 as i64;
                let ghost idx: int = row as int * self.width as int + col;
                let ghost px_c: Option<u32> = sprite_pixel(
                    textures@[s.texture as int],
                    fogp@,
                    s,
                    self.height as int,
                    self.width as int,
                    proj,
                    idx,
                );
                let ghost prev_p: Seq<u32> = self.pixels@;
                let ghost prev_z: Seq<Fx> = self.z_buffer@;
                let mut wrote_color: bool = false;
                if 0 <= tex_x && tex_x < texw && 0 <= tex_y && tex_y < texh {
                    proof {
                        lemma_abs_mul(texw as int, tex_y as int, 32768, 32768);
                    }
                    let t_idx: i64 = texw * tex_y + tex_x;
                    if (t_idx as usize) < texture.data.len() {
                        let mut color: u32 = texture.data[t_idx as usize];
                        if color % 0x100_0000 != 0 {
                            if have_fog {
                                color = fog_blend(color, fog_color, s.distance_from_camera, fog);
                            }
                            proof {
                                assert(px_c == Some(color));
                            }
                            let _w: bool = self.write_with_depth(
                                col as usize,
                                row as usize,
                                s.distance_from_camera,
                                color,
                            );
                            wrote_color = true;
                            proof {
                                assert(prev_p[idx] == ps[idx] && prev_z[idx] == zs[idx]);
                            }
                        }
                    }
                }
                proof {
                    if !wrote_color {
                        assert(px_c is None);
                    }
                    assert forall|i: int| 0 <= i < ps.len() implies {
                        if (i % (self.width as int) >= dsx && i % (self.width as int) < col && dsy
                            <= i / (self.width as int) < dey) || (i % (self.width as int) == col
                            && dsy <= i / (self.width as int) < row + 1) {
                            match sprite_pixel(
                                textures@[s.texture as int],
                                fogp@,
                                s,
                                self.height as int,
                                self.width as int,
                                proj,
                                i,
                            ) {
                                Some(cl) => if s.distance_from_camera.raw < zs[i].raw {
                                    self.pixels@[i] == cl && self.z_buffer@[i]
                                        == s.distance_from_camera
                                } else {
                                    self.pixels@[i] == ps[i] && self.z_buffer@[i] == zs[i]
                                },
                                None => self.pixels@[i] == ps[i] && self.z_buffer@[i] == zs[i],
                            }
                        } else {
                            self.pixels@[i] == ps[i] && self.z_buffer@[i] == zs[i]
                        }
                    } by {
                        vstd::arithmetic::div_mod::lemma_fundamental_div_mod(
                            i,
                            self.width as int,
                        );
                        vstd::arithmetic::mul::lemma_mul_is_commutative(
                            self.width as int,
                            i / (self.width as int),
                        );
                    }
                }
                row = row + 1;
            }
            col = col + 1;
        }
        proof {
            assert_seqs_equal!(self.pixels@ == pass.0, i => {
                vstd::arithmetic::div_mod::lemma_fundamental_div_mod(i, self.width as int);
            });
            assert_seqs_equal!(self.z_buffer@ == pass.1, i => {
                vstd::arithmetic::div_mod::lemma_fundamental_div_mod(i, self.width as int);
            });
        }
    }

    /// Blits a string with a fixed-width glyph font at a pixel position,
    /// directly over the scene: exactly the set glyph bits take the text
    /// colour (glyph rows are stored bottom-up), everything else and the
    /// whole depth buffer stay untouched. No depth test: the HUD overlays
    /// the finished scene.
    pub fn write_ascii_string(
        &mut self,
        x: usize,
        y: usize,
        string: &Vec<u8>,
        font: &Font,
        color: u32,
    )
        requires
            old(self).wf(),
        ensures
            final(self).wf(),
            final(self).height == old(self).height,
            final(self).width == old(self).width,
            final(self).z_buffer@ == old(self).z_buffer@,
            final(self).pixels@.len() == old(self).pixels@.len(),
            forall|i: int|
                0 <= i < old(self).pixels@.len() ==> final(self).pixels@[i] == if text_pixel_lit(
                    *font,
                    string@,
                    x as int,
                    y as int,
                    i % (old(self).width as int),
                    i / (old(self).width as int),
                ) {
                    color
                } else {
                    old(self).pixels@[i]
                },
    {
        let gs: usize = font.glyph_size;
        let ghost p0: Seq<u32> = self.pixels@;
        if gs == 0 || gs > 16384 {
            return ;
        }
        let w: usize = self.width;
        let h: usize = self.height;
        let n_str: usize = string.len();
        proof {
            lemma_abs_mul(n_str as int, gs as int, 0xffff_ffff_ffff_ffff, 16384);
        }
        let span: u128 = (x as u128) + (n_str as u128) * (gs as u128);
        let col_end: usize = if span >= (w as u128) {
            w
        } else {
            span as usize
        };
        let row_end: usize = if (y as u128) + (gs as u128) >= (h as u128) {
            h
        } else {
            y + gs
        };
        if x >= col_end || y >= row_end {
            proof {
                assert forall|i: int| #![trigger p0[i]] 0 <= i < p0.len() implies !text_pixel_lit(
                    *font,
                    string@,
                    x as int,
                    y as int,
                    i % (self.width as int),
                    i / (self.width as int),
                ) by {
                    vstd::arithmetic::div_mod::lemma_div_pos_is_pos(i, self.width as int);
                    vstd::arithmetic::mul::lemma_mul_is_commutative(
                        self.height as int,
                        self.width as int,
                    );
                    vstd::arithmetic::div_mod::lemma_multiply_divide_lt(
                        i,
                        self.width as int,
                        self.height as int,
                    );
                    lemma_text_dark(
                        *font,
                        string@,
                        x as int,
                        y as int,
                        i % (self.width as int),
                        i / (self.width as int),
                    );
                }
            }
            return ;
        }
        let mut py: usize = y;
        while py < row_end
            invariant
                y <= py <= row_end,
                x < col_end,
                col_end <= w,
                row_end <= h,
                row_end <= y + gs,
                col_end as int <= x + string@.len() * gs,
                (col_end == w || col_end as int == x + string@.len() * gs),
                (row_end == h || row_end == y + gs),
                1 <= gs <= 16384,
                gs == font.glyph_size,
                self.wf(),
                self.height == old(self).height,
                self.width == old(self).width,
                h == self.height,
                w == self.width,
                self.z_buffer@ == old(self).z_buffer@,
                self.pixels@.len() == p0.len(),
                p0.len() == self.height * self.width,
                forall|i: int|
                    0 <= i < p0.len() ==> self.pixels@[i] == if i / (self.width as int) < py
                        && text_pixel_lit(
                        *font,
                        string@,
                        x as int,
                        y as int,
                        i % (self.width as int),
                        i / (self.width as int),
                    ) {
                        color
                    } else {
                        p0[i]
                    },
            decreases row_end - py,
        {
            let mut px: usize = x;
            while px < col_end
                invariant
                    x <= px <= col_end,
                    y <= py < row_end,
                    x < col_end,
                    col_end <= w,
                    row_end <= h,
                    row_end <= y + gs,
                    col_end as int <= x + string@.len() * gs,
                    (col_end == w || col_end as int == x + string@.len() * gs),
                    (row_end == h || row_end == y + gs),
                    1 <= gs <= 16384,
                    gs == font.glyph_size,
                    self.wf(),
                    self.height == old(self).height,
                    self.width == old(self).width,
                    h == self.height,
                    w == self.width,
                    self.z_buffer@ == old(self).z_buffer@,
                    self.pixels@.len() == p0.len(),
                    p0.len() == self.height * self.width,
                    forall|i: int|
                        0 <= i < p0.len() ==> self.pixels@[i] == if (i / (self.width as int) < py
                            || (i / (self.width as int) == py && i % (self.width as int) < px))
                            && text_pixel_lit(
                            *font,
                            string@,
                            x as int,
                            y as int,
                            i % (self.width as int),
                            i / (self.width as int),
                        ) {
                            color
                        } else {
                            p0[i]
                        },
                decreases col_end - px,
            {
                let ci: usize = (px - x) / gs;
                let gx: usize = (px - x) % gs;
                let gy: usize = py - y;
                proof {
                    vstd::arithmetic::div_mod::lemma_fundamental_div_mod(
                        (px - x) as int,
                        gs as int,
                    );
                    vstd::arithmetic::mul::lemma_mul_is_commutative(gs as int, ci as int);
                    if col_end as int == x + string@.len() * gs {
                        vstd::arithmetic::mul::lemma_mul_is_commutative(
                            gs as int,
                            string@.len() as int,
                        );
                        vstd::arithmetic::div_mod::lemma_multiply_divide_lt(
                            (px - x) as int,
                            gs as int,
                            string@.len() as int,
                        );
                    }
                }
                let lit: bool = if ci < string.len() {
                    let ch: u8 = string[ci];
                    proof {
                        lemma_abs_mul(gs as int, ch as int, 16384, 255);
                        lemma_abs_mul((gs - 1 - gy) as int, 256 * (gs as int), 16384, 4194304);
                    }
                    let g_idx: u128 = ((gs - 1 - gy) as u128) * (256u128 * (gs as u128)) + (
                    gx as u128) + (gs as u128) * (ch as u128);
                    if g_idx < (font.glyphs.len() as u128) {
                        font.glyphs[g_idx as usize]
                    } else {
                        false
                    }
                } else {
                    false
                };
                proof {
                    lemma_abs_mul(self.height as int, self.width as int, 16384, 16384);
                    lemma_row_major_bound(py as int, px as int, self.height as int, self.width as int);
                    lemma_row_major_decompose(py as int, px as int, self.width as int);
                    assert(lit == text_pixel_lit(
                        *font,
                        string@,
                        x as int,
                        y as int,
                        px as int,
                        py as int,
                    ));
                }
                if lit {
                    let idx: usize = py * w + px;
                    self.pixels[idx] = color;
                }
                proof {
                    assert forall|i: int| 0 <= i < p0.len() implies self.pixels@[i] == (if (i / (
                    self.width as int) < py || (i / (self.width as int) == py && i % (
                    self.width as int) < px + 1)) && text_pixel_lit(
                        *font,
                        string@,
                        x as int,
                        y as int,
                        i % (self.width as int),
                        i / (self.width as int),
                    ) {
                        color
                    } else {
                        p0[i]
                    }) by {
                        vstd::arithmetic::div_mod::lemma_fundamental_div_mod(
                            i,
                            self.width as int,
                        );
                        vstd::arithmetic::mul::lemma_mul_is_commutative(
                            self.width as int,
                            i / (self.width as int),
                        );
                    }
                }
                px = px + 1;
            }
            proof {
                assert forall|i: int| 0 <= i < p0.len() implies self.pixels@[i] == (if i / (
                self.width as int) < py + 1 && text_pixel_lit(
                    *font,
                    string@,
                    x as int,
                    y as int,
                    i % (self.width as int),
                    i / (self.width as int),
                ) {
                    color
                } else {
                    p0[i]
                }) by {
                    if i / (self.width as int) == py as int && !(i % (self.width as int)
                        < col_end as int) {
                        lemma_text_dark(
                            *font,
                            string@,
                            x as int,
                            y as int,
                            i % (self.width as int),
                            i / (self.width as int),
                        );
                    }
                }
            }
            py = py + 1;
        }
        proof {
            assert forall|i: int| #![trigger p0[i]] 0 <= i < p0.len() implies self.pixels@[i] == (
            if text_pixel_lit(
                *font,
                string@,
                x as int,
                y as int,
                i % (self.width as int),
                i / (self.width as int),
            ) {
                color
            } else {
                p0[i]
            }) by {
                if !(i / (self.width as int) < row_end as int) {
                    vstd::arithmetic::div_mod::lemma_div_pos_is_pos(i, self.width as int);
                    vstd::arithmetic::mul::lemma_mul_is_commutative(
                        self.height as int,
                        self.width as int,
                    );
                    vstd::arithmetic::div_mod::lemma_multiply_divide_lt(
                        i,
                        self.width as int,
                        self.height as int,
                    );
                    lemma_text_dark(
                        *font,
                        string@,
                        x as int,
                        y as int,
                        i % (self.width as int),
                        i / (self.width as int),
                    );
                }
            }
        }
    }

    /// Renders one screen column: casts the column's ray and draws every
    /// intersection it found, nearest first, each a `wall_pass` behind the
    /// depth test. The buffers leave exactly as the `column_pass` fold over
    /// the traversal's intersections describes.
    pub fn render_column(
        &mut self,
        camera: &Camera,
        x: usize,
        world: &Grid,
        textures: &Vec<Texture>,
    )
        requires
            old(self).wf(),
            camera.wf(),
            world.wf(),
            x < old(self).width,
            world.in_bounds(
                camera.position.x.raw as int / (FX_SCALE as int),
                camera.position.y.raw as int / (FX_SCALE as int),
            ),
            forall|j: int| 0 <= j < textures@.len() ==> (#[trigger] textures@[j]).wf(),
        ensures
            final(self).wf(),
            final(self).height == old(self).height,
            final(self).width == old(self).width,
            ({
                let dir = crate::camera::ray_direction_spec(
                    *camera,
                    x as int,
                    old(self).width as int,
                );
                let inters = crate::raycast::column_intersections(
                    *world,
                    textures@,
                    *camera,
                    x as int,
                    old(self).width as int,
                );
                (final(self).pixels@, final(self).z_buffer@) == column_pass(
                    old(self).pixels@,
                    old(self).z_buffer@,
                    old(self).height as int,
                    old(self).width as int,
                    *camera,
                    x as int,
                    *world,
                    textures@,
                    dir,
                    inters,
                    inters.len() as int,
                )
            }),
    {
        let sw: usize = self.width;
        let ray: Ray = crate::raycast::cast_ray(camera, x, sw, world, textures);
        let n: usize = ray.intersections.len();
        let ghost p0: Seq<u32> = self.pixels@;
        let ghost z0: Seq<Fx> = self.z_buffer@;
        let ghost inters: Seq<Intersection> = ray.intersections@;
        let mut k: usize = 0;
        while k < n
            invariant
                0 <= k <= n,
                n == inters.len(),
                inters == ray.intersections@,
                self.wf(),
                self.height == old(self).height,
                self.width == old(self).width,
                x < self.width,
                camera.wf(),
                world.wf(),
                -0x400_0000 <= ray.direction.x.raw <= 0x400_0000,
                -0x400_0000 <= ray.direction.y.raw <= 0x400_0000,
                forall|j: int| 0 <= j < textures@.len() ==> (#[trigger] textures@[j]).wf(),
                self.pixels@.len() == p0.len(),
                self.z_buffer@.len() == z0.len(),
                (self.pixels@, self.z_buffer@) == column_pass(
                    p0,
                    z0,
                    old(self).height as int,
                    old(self).width as int,
                    *camera,
                    x as int,
                    *world,
                    textures@,
                    ray.direction,
                    inters,
                    k as int,
                ),
            decreases n - k,
        {
            let inter: Intersection = ray.intersections[k];
            if inter.map_coordinates.x <= 32768 && inter.map_coordinates.y <= 32768 && -FX_SCALE
                <= inter.wall_offset.x.raw && inter.wall_offset.x.raw <= FX_SCALE && -FX_SCALE
                <= inter.wall_offset.y.raw && inter.wall_offset.y.raw <= FX_SCALE {
                match crate::raycast::perpendicular_distance(camera, &ray, &inter) {
                    Some(d) => {
                        match world.at(&inter.map_coordinates) {
                            Some(c) => {
                                let cc: MapCell = *c;
                                self.draw_wall(
                                    camera,
                                    x,
                                    d,
                                    &cc,
                                    &inter.side,
                                    &ray,
                                    world,
                                    textures,
                                );
                            },
                            None => {},
                        }
                    },
                    None => {},
                }
            }
            k = k + 1;
        }
        proof {
            assert(inters == crate::raycast::column_intersections(
                *world,
                textures@,
                *camera,
                x as int,
                old(self).width as int,
            ));
        }
    }
}

/// A texture coordinate clamped into range

/// A texture coordinate clamped into range: negatives to zero, the rest
/// wrapped by the texture size.
pub open spec fn clamp_mod_spec(q: int, m: int) -> int {
    if q < 0 {
        0
    } else {
        q % m
    }
}

fn clamp_mod(q: i128, m: i64) -> (r: i64)
    requires
        1 <= m <= 32768,
    ensures
        0 <= r < m,
        r == clamp_mod_spec(q as int, m as int),
{
    if q < 0 {
        0
    } else {
        (q % (m as i128)) as i64
    }
}

/// The row and column a row-major index decomposes into.
pub proof fn lemma_row_major_decompose(r: int, c: int, w: int)
    requires
        0 <= c < w,
        0 <= r,
    ensures
        (r * w + c) / w == r,
        (r * w + c) % w == c,
{
    vstd::arithmetic::div_mod::lemma_fundamental_div_mod_converse(r * w + c, w, r, c);
}

/// Two in-range row-major coordinates with the same index are the same.
pub proof fn lemma_row_major_unique(r1: int, c1: int, r2: int, c2: int, h: int, w: int)
    by (nonlinear_arith)
    requires
        0 <= r1 < h,
        0 <= c1 < w,
        0 <= r2 < h,
        0 <= c2 < w,
        r1 * w + c1 == r2 * w + c2,
    ensures
        r1 == r2 && c1 == c2,
{
}

/// A vector of `n` copies of a colour.
fn alloc_u32(n: usize, v: u32) -> (r: Vec<u32>)
    ensures
        r@.len() == n,
        forall|i: int| 0 <= i < n ==> r@[i] == v,
{
    let mut out: Vec<u32> = Vec::new();
    let mut i: usize = 0;
    while i < n
        invariant
            0 <= i <= n,
            out@.len() == i,
            forall|k: int| 0 <= k < i ==> out@[k] == v,
        decreases n - i,
    {
        out.push(v);
        i = i + 1;
    }
    out
}

/// A vector of `n` copies of a depth value.
fn alloc_fx(n: usize, v: Fx) -> (r: Vec<Fx>)
    ensures
        r@.len() == n,
        forall|i: int| 0 <= i < n ==> r@[i] == v,
{
    let mut out: Vec<Fx> = Vec::new();
    let mut i: usize = 0;
    while i < n
        invariant
            0 <= i <= n,
            out@.len() == i,
            forall|k: int| 0 <= k < i ==> out@[k] == v,
        decreases n - i,
    {
        out.push(v);
        i = i + 1;
    }
    out
}

} // verus!
