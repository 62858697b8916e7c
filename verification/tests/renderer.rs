use raycaster::camera::Camera;
use raycaster::fixed::{isqrt64, Fx, FX_INF, FX_SCALE};
use raycaster::framebuffer::{fog_blend, half_color, Framebuffer};
use raycaster::grid::{Grid, MapCell};
use raycaster::raycast::{cast_ray, perpendicular_distance};
use raycaster::texture::{Font, Texture};
use raycaster::util::{KeyState, Orientation, Side, Sprite, Step};
use raycaster::vec2::Vec2;

fn fx(raw: i64) -> Fx {
    Fx { raw }
}

fn units(v: i64) -> Fx {
    Fx { raw: v * FX_SCALE }
}

fn open_cell() -> MapCell {
    MapCell::Empty { ceiling_texture: 0, floor_texture: 0, fog: fx(0), fog_color: 0 }
}

fn opaque_texture() -> Texture {
    Texture { width: 2, height: 2, has_transparency: false, data: vec![0xff00ff; 4] }
}

/// A width x height grid that is open everywhere except the listed wall cells.
fn grid_with_walls(width: usize, height: usize, walls: &[(usize, usize)]) -> Grid {
    let mut tokens: Vec<String> = Vec::new();
    for x in 0..height {
        for y in 0..width {
            if walls.contains(&(x, y)) {
                tokens.push("1".to_string());
            } else {
                tokens.push("0".to_string());
            }
        }
    }
    let layout = tokens.join(",").into_bytes();
    Grid::new(width, height, &layout, 4, open_cell()).expect("grid builds")
}

fn camera_at(px: i64, py: i64, dx: i64, dy: i64) -> Camera {
    Camera {
        position: Vec2 { x: fx(px), y: fx(py) },
        direction: Vec2 { x: fx(dx), y: fx(dy) },
        plane: Vec2 { x: fx(0), y: fx(43690) },
        height: fx(0),
    }
}

#[test]
fn fixed_point_products_round_toward_zero() {
    assert_eq!(units(3).times(units(2)).raw, 6 * FX_SCALE);
    assert_eq!(fx(-98304).times(units(1)).raw, -98304);
    assert_eq!(fx(3).times(fx(3)).raw, 0);
    assert_eq!(fx(-200000).over(units(3)).raw, -66666);
    assert_eq!(units(1).over(fx(-65536)).raw, -65536);
}

#[test]
fn fixed_point_floor_and_frac() {
    let v = fx(3 * FX_SCALE + 12345);
    assert_eq!(v.floor_units(), 3);
    assert_eq!(v.frac_raw(), 12345);
    assert_eq!(fx(0).floor_units(), 0);
}

#[test]
fn integer_square_root_is_exact() {
    assert_eq!(isqrt64(0), 0);
    assert_eq!(isqrt64(1), 1);
    assert_eq!(isqrt64(15), 3);
    assert_eq!(isqrt64(16), 4);
    assert_eq!(isqrt64(u64::MAX), 4294967295);
}

#[test]
fn vector_length_of_three_four_is_five() {
    let v = Vec2 { x: units(3), y: units(4) };
    assert_eq!(v.length().raw, 5 * FX_SCALE);
}

#[test]
fn rotation_by_quarter_turn_is_exact() {
    // cos 90 = 0, sin 90 = 1: (1, 0) becomes (0, 1)
    let mut v = Vec2 { x: units(1), y: units(0) };
    v.rotate(fx(0), units(1));
    assert_eq!(v.x.raw, 0);
    assert_eq!(v.y.raw, FX_SCALE);
}

// Rotating by an angle and then by its opposite returns the vector to its
// original value within fixed-point rounding tolerance.
#[test]
fn rotation_round_trip_within_tolerance() {
    // cosine/sine of about thirty degrees, with c*c + s*s <= 65536^2
    let c = fx(56755);
    let s = fx(32767);
    let mut v = Vec2 { x: units(1), y: units(0) };
    v.rotate(c, s);
    v.rotate(c, Fx { raw: -s.raw });
    assert!((v.x.raw - FX_SCALE).abs() <= 8);
    assert!(v.y.raw.abs() <= 8);
    // and the norm never grows
    assert!(v.x.raw * v.x.raw + v.y.raw * v.y.raw <= (FX_SCALE as i64) * (FX_SCALE as i64));
}

#[test]
fn step_values_and_construction() {
    assert_eq!(Step::Left.value(), -1);
    assert_eq!(Step::Right.value(), 1);
    assert_eq!(Step::from(true), Step::Left);
    assert_eq!(Step::from(false), Step::Right);
}

// Bounds-checked lookup: outside coordinates give absent, inside give the
// constructed cell.
#[test]
fn grid_lookup_in_and_out_of_bounds() {
    let g = grid_with_walls(4, 3, &[(1, 2)]);
    assert!(matches!(g.at(&Vec2 { x: 1, y: 2 }), Some(MapCell::Wall { texture: 0 })));
    assert!(matches!(g.at(&Vec2 { x: 0, y: 0 }), Some(MapCell::Empty { .. })));
    assert!(g.at(&Vec2 { x: 3, y: 0 }).is_none());
    assert!(g.at(&Vec2 { x: 0, y: 4 }).is_none());
    assert!(g.at(&Vec2 { x: usize::MAX, y: 0 }).is_none());
}

#[test]
fn grid_parse_rejects_bad_layouts() {
    let empty = open_cell();
    // non-numeric token
    assert!(Grid::new(2, 1, &b"0,x".to_vec(), 4, empty).is_none());
    // out-of-range wall texture
    assert!(Grid::new(2, 1, &b"0,9".to_vec(), 4, empty).is_none());
    // trailing comma leaves an empty final token
    assert!(Grid::new(2, 1, &b"0,1,".to_vec(), 4, empty).is_none());
    // token count does not match the declared dimensions
    assert!(Grid::new(3, 1, &b"0,1".to_vec(), 4, empty).is_none());
    // newlines are skipped
    assert!(Grid::new(2, 2, &b"0,1\n,2,0".to_vec(), 4, empty).is_some());
}

#[test]
fn grid_wall_tokens_are_one_based() {
    let g = Grid::new(2, 1, &b"3,0".to_vec(), 4, open_cell()).unwrap();
    assert!(matches!(g.at(&Vec2 { x: 0, y: 0 }), Some(MapCell::Wall { texture: 2 })));
    assert!(matches!(g.at(&Vec2 { x: 0, y: 1 }), Some(MapCell::Empty { .. })));
}

#[test]
fn grid_set_cell_places_thin_walls() {
    let mut g = grid_with_walls(4, 4, &[]);
    let tw = MapCell::ThinWall {
        texture: 1,
        orientation: Orientation::XAxis,
        offset_into_cell: fx(FX_SCALE / 2),
        ceiling_texture: 0,
        floor_texture: 0,
    };
    assert!(g.set_cell(2, 2, tw));
    assert!(matches!(g.at(&Vec2 { x: 2, y: 2 }), Some(MapCell::ThinWall { .. })));
    assert!(!g.set_cell(9, 0, tw));
}

// Movement never commits a position whose cell is not open; a blocked move
// leaves the position unchanged.
#[test]
fn movement_blocked_by_wall_and_allowed_into_open() {
    let g = grid_with_walls(8, 8, &[(1, 4)]);
    // facing -x, a wall directly ahead at (1, 4)
    let mut cam = camera_at(2 * FX_SCALE + FX_SCALE / 2, 4 * FX_SCALE + FX_SCALE / 2, -FX_SCALE, 0);
    let keys = KeyState {
        forward: true,
        back: false,
        strafe_left: false,
        strafe_right: false,
        turn_left: false,
        turn_right: false,
    };
    let before = (cam.position.x.raw, cam.position.y.raw);
    // a full-cell step forward would land inside the wall cell
    cam.update_position_with_keys(units(1), units(1), fx(0), &keys, &g);
    assert_eq!((cam.position.x.raw, cam.position.y.raw), before);
    // a small step forward stays in the open cell and commits
    cam.update_position_with_keys(fx(FX_SCALE / 4), units(1), fx(0), &keys, &g);
    assert_eq!(cam.position.x.raw, before.0 - FX_SCALE / 4);
    assert_eq!(cam.position.y.raw, before.1);
}

#[test]
fn movement_rejects_leaving_the_grid() {
    let g = grid_with_walls(4, 4, &[]);
    let mut cam = camera_at(FX_SCALE / 2, FX_SCALE / 2, -FX_SCALE, 0);
    let keys = KeyState {
        forward: true,
        back: false,
        strafe_left: false,
        strafe_right: false,
        turn_left: false,
        turn_right: false,
    };
    cam.update_position_with_keys(units(1), units(1), fx(0), &keys, &g);
    assert_eq!(cam.position.x.raw, FX_SCALE / 2);
    assert_eq!(cam.position.y.raw, FX_SCALE / 2);
}

#[test]
fn turning_rotates_direction_and_plane_together() {
    let g = grid_with_walls(4, 4, &[]);
    let mut cam = camera_at(2 * FX_SCALE, 2 * FX_SCALE, -FX_SCALE, 0);
    let keys = KeyState {
        forward: false,
        back: false,
        strafe_left: false,
        strafe_right: false,
        turn_left: true,
        turn_right: false,
    };
    // turn left by ninety degrees: cos 0, sin 1
    cam.update_position_with_keys(fx(0), fx(0), units(1), &keys, &g);
    assert_eq!(cam.direction.x.raw, 0);
    assert_eq!(cam.direction.y.raw, -FX_SCALE);
    assert_eq!(cam.plane.x.raw, -43690);
    assert_eq!(cam.plane.y.raw, 0);
}

// DDA: an axis-aligned ray hits a known wall at the expected coordinates
// with the expected perpendicular distance, and a ray with no wall in its
// path leaves the grid with no intersections.
#[test]
fn dda_axis_aligned_hit_and_clean_miss() {
    let textures = vec![opaque_texture()];
    let g = grid_with_walls(24, 24, &[(2, 12)]);
    // camera halfway into cell (3, 12), facing -x: wall plane at x = 3.0
    let cam = camera_at(3 * FX_SCALE + FX_SCALE / 2, 12 * FX_SCALE, -FX_SCALE, 0);
    let ray = cast_ray(&cam, 400, 800, &g, &textures);
    assert_eq!(ray.intersections.len(), 1);
    let hit = &ray.intersections[0];
    assert_eq!(hit.map_coordinates.x, 2);
    assert_eq!(hit.map_coordinates.y, 12);
    assert_eq!(hit.side, Side::X);
    assert_eq!(hit.wall_offset.x.raw, 0);
    let d = perpendicular_distance(&cam, &ray, hit).unwrap();
    assert_eq!(d.raw, FX_SCALE / 2);

    // aim the other way: open all the way to the boundary, no intersections
    let cam2 = camera_at(3 * FX_SCALE + FX_SCALE / 2, 12 * FX_SCALE, FX_SCALE, 0);
    let ray2 = cast_ray(&cam2, 400, 800, &g, &textures);
    assert_eq!(ray2.intersections.len(), 0);
}

// End-to-end scenario: camera at (3.0, 12.0) facing (-1, 0) in a 24x24 grid
// with a wall at (2, 12); the central column reports exactly one
// intersection at (2, 12), side X. Standing exactly on the wall's grid
// line, the perpendicular distance is the fractional camera offset from
// that line: zero.
#[test]
fn end_to_end_central_column() {
    let textures = vec![opaque_texture()];
    let g = grid_with_walls(24, 24, &[(2, 12)]);
    let cam = camera_at(3 * FX_SCALE, 12 * FX_SCALE, -FX_SCALE, 0);
    let ray = cast_ray(&cam, 400, 800, &g, &textures);
    assert_eq!(ray.direction.x.raw, -FX_SCALE);
    assert_eq!(ray.direction.y.raw, 0);
    assert_eq!(ray.intersections.len(), 1);
    let hit = &ray.intersections[0];
    assert_eq!(hit.map_coordinates.x, 2);
    assert_eq!(hit.map_coordinates.y, 12);
    assert_eq!(hit.side, Side::X);
    let d = perpendicular_distance(&cam, &ray, hit).unwrap();
    assert_eq!(d.raw, 0);
}

// A transparency-keyed wall is recorded and traversal continues to the
// opaque wall behind it.
#[test]
fn dda_sees_through_transparent_walls() {
    let textures = vec![
        Texture { width: 2, height: 2, has_transparency: true, data: vec![0; 4] },
        opaque_texture(),
    ];
    let mut g = grid_with_walls(8, 8, &[(1, 4)]);
    assert!(g.set_cell(3, 4, MapCell::Wall { texture: 0 }));
    let cam = camera_at(4 * FX_SCALE + FX_SCALE / 2, 4 * FX_SCALE + FX_SCALE / 2, -FX_SCALE, 0);
    let ray = cast_ray(&cam, 400, 800, &g, &textures);
    assert_eq!(ray.intersections.len(), 2);
    assert_eq!(ray.intersections[0].map_coordinates.x, 3);
    assert_eq!(ray.intersections[1].map_coordinates.x, 1);
}

// Thin wall with offset 0.5 on the X axis, hit by a ray travelling purely
// along X: the hit reports the X side and offset 0.5 times the step sign.
#[test]
fn thin_wall_hit_reports_signed_offset() {
    let textures = vec![opaque_texture()];
    let mut g = grid_with_walls(24, 24, &[]);
    let tw = MapCell::ThinWall {
        texture: 0,
        orientation: Orientation::XAxis,
        offset_into_cell: fx(FX_SCALE / 2),
        ceiling_texture: 0,
        floor_texture: 0,
    };
    assert!(g.set_cell(1, 12, tw));
    let cam = camera_at(3 * FX_SCALE + FX_SCALE / 2, 12 * FX_SCALE, -FX_SCALE, 0);
    let ray = cast_ray(&cam, 400, 800, &g, &textures);
    assert_eq!(ray.intersections.len(), 1);
    let hit = &ray.intersections[0];
    assert_eq!(hit.map_coordinates.x, 1);
    assert_eq!(hit.side, Side::X);
    assert_eq!(hit.wall_offset.x.raw, -FX_SCALE / 2);
    assert_eq!(hit.wall_offset.y.raw, 0);
    let d = perpendicular_distance(&cam, &ray, hit).unwrap();
    assert_eq!(d.raw, 2 * FX_SCALE);
}

// A ray travelling purely along Y cannot cross an X-axis thin wall's plane:
// it misses and continues into the next cell.
#[test]
fn thin_wall_parallel_ray_misses_and_continues() {
    let textures = vec![opaque_texture()];
    let mut g = grid_with_walls(24, 24, &[(1, 12)]);
    let tw = MapCell::ThinWall {
        texture: 0,
        orientation: Orientation::XAxis,
        offset_into_cell: fx(FX_SCALE / 2),
        ceiling_texture: 0,
        floor_texture: 0,
    };
    assert!(g.set_cell(1, 14, tw));
    // facing -y along row x = 1: passes the thin wall cell at (1, 14)
    let cam = Camera {
        position: Vec2 { x: fx(FX_SCALE + FX_SCALE / 2), y: fx(16 * FX_SCALE + FX_SCALE / 2) },
        direction: Vec2 { x: fx(0), y: fx(-FX_SCALE) },
        plane: Vec2 { x: fx(43690), y: fx(0) },
        height: fx(0),
    };
    let ray = cast_ray(&cam, 400, 800, &g, &textures);
    assert_eq!(ray.intersections.len(), 1);
    assert_eq!(ray.intersections[0].map_coordinates.x, 1);
    assert_eq!(ray.intersections[0].map_coordinates.y, 12);
    assert_eq!(ray.intersections[0].side, Side::Y);
}

// Depth compositing: of two writes at d1 < d2 in either order, the nearer
// wins both buffers; a write at the recorded depth changes nothing.
#[test]
fn depth_buffer_nearest_write_wins() {
    let d1 = units(1);
    let d2 = units(2);
    // near then far
    let mut fb = Framebuffer::new(4, 4);
    assert!(fb.write_with_depth(1, 1, d1, 0xaa));
    assert!(!fb.write_with_depth(1, 1, d2, 0xbb));
    assert_eq!(fb.pixels[1 * 4 + 1], 0xaa);
    assert_eq!(fb.z_buffer[1 * 4 + 1].raw, d1.raw);
    // far then near
    let mut fb2 = Framebuffer::new(4, 4);
    assert!(fb2.write_with_depth(1, 1, d2, 0xbb));
    assert!(fb2.write_with_depth(1, 1, d1, 0xaa));
    assert_eq!(fb2.pixels[1 * 4 + 1], 0xaa);
    assert_eq!(fb2.z_buffer[1 * 4 + 1].raw, d1.raw);
    // equal distance must not overwrite
    assert!(!fb2.write_with_depth(1, 1, d1, 0xcc));
    assert_eq!(fb2.pixels[1 * 4 + 1], 0xaa);
}

// Fog at distance zero or density zero returns the colour unchanged; at
// saturation it returns the tint exactly (alpha untouched); between, each
// channel interpolates linearly.
#[test]
fn fog_blend_endpoints_and_midpoint() {
    let color = 0x40102030u32;
    let tint = 0x00c8c8c8u32;
    assert_eq!(fog_blend(color, tint, fx(0), units(1)), color);
    assert_eq!(fog_blend(color, tint, units(5), fx(0)), color);
    // saturated: distance * density >= 1
    assert_eq!(fog_blend(color, tint, units(2), units(1)), 0x40c8c8c8);
    // halfway: each channel is the average of colour and tint
    let mid = fog_blend(0x00006464, 0x000000c8, fx(FX_SCALE / 2), units(1));
    assert_eq!(mid, 0x00003296);
}

#[test]
fn half_color_halves_each_channel() {
    assert_eq!(half_color(0xff2040fe), 0x0010207f);
}

#[test]
fn framebuffer_clear_and_depth_reset() {
    let mut fb = Framebuffer::new(2, 3);
    assert!(fb.write_with_depth(0, 0, units(1), 7));
    fb.clear();
    assert!(fb.pixels.iter().all(|p| *p == 0));
    fb.clear_z_buffer();
    assert!(fb.z_buffer.iter().all(|z| z.raw == FX_INF));
}

#[test]
fn set_pixel_is_bounds_checked() {
    let mut fb = Framebuffer::new(2, 2);
    fb.set_pixel(1, 1, 9);
    assert_eq!(fb.pixels[1 * 2 + 1], 9);
    fb.set_pixel(2, 0, 9);
    fb.set_pixel(0, 2, 9);
    assert_eq!(fb.pixels.iter().filter(|p| **p == 9).count(), 1);
}

#[test]
fn draw_vertical_line_fills_one_column() {
    let mut fb = Framebuffer::new(4, 3);
    fb.draw_vertical_line(1, 1, 3, 5);
    for r in 0..4 {
        for c in 0..3 {
            let expect = if c == 1 && (1..3).contains(&r) { 5 } else { 0 };
            assert_eq!(fb.pixels[r * 3 + c], expect);
        }
    }
}

#[test]
fn texture_loads_from_bitmap_bytes() {
    // 2x2 texture, data offset 0x1a, 12 body bytes, bottom-up
    let mut b = vec![0u8; 0x1a + 12];
    b[0x0a] = 0x1a;
    b[0x12] = 2;
    b[0x16] = 2;
    // first stored pixel blue-ish, rest distinct
    let body: [u8; 12] = [1, 2, 3, 0, 0, 0, 7, 8, 9, 10, 11, 12];
    b[0x1a..].copy_from_slice(&body);
    let t = Texture::load_from_bmp(&b).expect("loads");
    assert_eq!(t.width, 2);
    assert_eq!(t.height, 2);
    assert!(t.has_transparency);
    // pixels are reversed on load: last 3 bytes become data[0]
    assert_eq!(t.data[0], 0x0c0b0a);
    assert_eq!(t.data[3], 0x030201);
    assert_eq!(t.data[2], 0);
}

#[test]
fn texture_loader_rejects_malformed_input() {
    assert!(Texture::load_from_bmp(&vec![0u8; 10]).is_none());
    // non power-of-two width
    let mut b = vec![0u8; 0x1a + 18];
    b[0x0a] = 0x1a;
    b[0x12] = 3;
    b[0x16] = 2;
    assert!(Texture::load_from_bmp(&b).is_none());
    // body length mismatch
    let mut b2 = vec![0u8; 0x1a + 11];
    b2[0x0a] = 0x1a;
    b2[0x12] = 2;
    b2[0x16] = 2;
    assert!(Texture::load_from_bmp(&b2).is_none());
}

#[test]
fn font_loads_one_sample_per_pixel_group() {
    let mut b = vec![0u8; 0x0e + 9];
    b[0x0a] = 0x0e;
    b[0x0e] = 0xff;
    b[0x0e + 3] = 0x7f;
    b[0x0e + 6] = 0xff;
    let f = Font::load_from_bmp(&b, 8).expect("loads");
    assert_eq!(f.charset_length, 256);
    assert_eq!(f.glyph_size, 8);
    assert_eq!(f.glyphs, vec![true, false, true]);
    assert!(Font::load_from_bmp(&vec![0u8; 4], 8).is_none());
}

#[test]
fn render_column_writes_only_its_column() {
    let textures = vec![opaque_texture()];
    let g = grid_with_walls(24, 24, &[(2, 12)]);
    let cam = camera_at(3 * FX_SCALE + FX_SCALE / 2, 12 * FX_SCALE + FX_SCALE / 2, -FX_SCALE, 0);
    let mut fb = Framebuffer::new(60, 80);
    fb.render_column(&cam, 40, &g, &textures);
    let mut touched_other = false;
    let mut touched_own = false;
    for r in 0..60 {
        for c in 0..80 {
            if fb.z_buffer[r * 80 + c].raw != FX_INF {
                if c == 40 {
                    touched_own = true;
                } else {
                    touched_other = true;
                }
            }
        }
    }
    assert!(touched_own);
    assert!(!touched_other);
}

#[test]
fn floor_and_ceiling_leave_depth_untouched() {
    let textures = vec![opaque_texture()];
    let g = grid_with_walls(8, 8, &[]);
    let cam = camera_at(4 * FX_SCALE, 4 * FX_SCALE, -FX_SCALE, 0);
    let mut fb = Framebuffer::new(16, 16);
    fb.draw_floor_and_ceiling(&cam, &g, &textures);
    assert!(fb.z_buffer.iter().all(|z| z.raw == FX_INF));
}

#[test]
fn sprites_update_distance_and_respect_depth() {
    let textures = vec![opaque_texture()];
    let g = grid_with_walls(8, 8, &[]);
    let cam = camera_at(4 * FX_SCALE, 4 * FX_SCALE, -FX_SCALE, 0);
    let mut fb = Framebuffer::new(16, 16);
    let mut sprites = vec![Sprite {
        position: Vec2 { x: units(1), y: units(4) },
        texture: 0,
        vertical_offset: fx(0),
        scale_factor: Vec2 { x: units(1), y: units(1) },
        distance_from_camera: fx(0),
    }];
    fb.draw_sprites(&cam, &mut sprites, &g, &textures);
    assert_eq!(sprites[0].distance_from_camera.raw, 3 * FX_SCALE);
}

#[test]
fn ascii_text_paints_only_the_text_color() {
    let mut b = vec![0u8; 0x0e + 3 * 256 * 8 * 8];
    b[0x0a] = 0x0e;
    for i in (0x0e..b.len()).step_by(3) {
        b[i] = 0xff;
    }
    let f = Font::load_from_bmp(&b, 8).expect("loads");
    let mut fb = Framebuffer::new(16, 16);
    fb.write_ascii_string(0, 0, &b"a".to_vec(), &f, 0x123456);
    assert!(fb.pixels.iter().all(|p| *p == 0 || *p == 0x123456));
    assert!(fb.pixels.iter().any(|p| *p == 0x123456));
}

fn flat_texture(color: u32) -> Texture {
    Texture { width: 2, height: 2, has_transparency: false, data: vec![color; 4] }
}

fn test_ray(dx: i64, dy: i64) -> raycaster::camera::Ray {
    raycaster::camera::Ray { direction: Vec2 { x: fx(dx), y: fx(dy) }, intersections: vec![] }
}

// Two wall draws to the same column at distances d1 < d2, in either order:
// the nearer wall's colour and distance end up in the buffers.
#[test]
fn wall_draws_nearest_of_two_walls() {
    let textures = vec![flat_texture(0xaa), flat_texture(0xbb)];
    let g = grid_with_walls(8, 8, &[]);
    let cam = camera_at(4 * FX_SCALE + FX_SCALE / 2, 4 * FX_SCALE + FX_SCALE / 2, -FX_SCALE, 0);
    let ray = test_ray(-FX_SCALE, 0);
    let near = MapCell::Wall { texture: 0 };
    let far = MapCell::Wall { texture: 1 };
    let probe = 5 * 16 + 4;

    let mut fb = Framebuffer::new(16, 16);
    fb.draw_wall(&cam, 4, units(1), &near, &Side::X, &ray, &g, &textures);
    fb.draw_wall(&cam, 4, units(2), &far, &Side::X, &ray, &g, &textures);
    assert_eq!(fb.pixels[probe], 0xaa);
    assert_eq!(fb.z_buffer[probe].raw, FX_SCALE);

    let mut fb2 = Framebuffer::new(16, 16);
    fb2.draw_wall(&cam, 4, units(2), &far, &Side::X, &ray, &g, &textures);
    fb2.draw_wall(&cam, 4, units(1), &near, &Side::X, &ray, &g, &textures);
    assert_eq!(fb2.pixels[probe], 0xaa);
    assert_eq!(fb2.z_buffer[probe].raw, FX_SCALE);

    // a third draw at exactly the recorded depth must not overwrite
    fb2.draw_wall(&cam, 4, units(1), &far, &Side::X, &ray, &g, &textures);
    assert_eq!(fb2.pixels[probe], 0xaa);
}

// An open cell draws nothing, and a fully transparency-keyed texture leaves
// both buffers untouched row by row.
#[test]
fn wall_empty_and_transparent_draw_nothing() {
    let g = grid_with_walls(8, 8, &[]);
    let cam = camera_at(4 * FX_SCALE + FX_SCALE / 2, 4 * FX_SCALE + FX_SCALE / 2, -FX_SCALE, 0);
    let ray = test_ray(-FX_SCALE, 0);
    let textures =
        vec![Texture { width: 2, height: 2, has_transparency: true, data: vec![0xff000000; 4] }];
    let mut fb = Framebuffer::new(16, 16);
    fb.draw_wall(&cam, 4, units(1), &open_cell(), &Side::X, &ray, &g, &textures);
    assert!(fb.pixels.iter().all(|p| *p == 0));
    assert!(fb.z_buffer.iter().all(|z| z.raw == FX_INF));
    // every texel of texture 0 is black below the alpha byte: all skipped
    fb.draw_wall(&cam, 4, units(1), &MapCell::Wall { texture: 0 }, &Side::X, &ray, &g, &textures);
    assert!(fb.pixels.iter().all(|p| *p == 0));
    assert!(fb.z_buffer.iter().all(|z| z.raw == FX_INF));
}

// Y-side walls are darkened by exactly half per channel; X-side walls keep
// the sampled colour (the camera's cell here has fog density zero, the
// identity blend).
#[test]
fn wall_y_side_darkened_x_side_not() {
    let textures = vec![flat_texture(0x00204060)];
    let g = grid_with_walls(8, 8, &[]);
    let cam = camera_at(4 * FX_SCALE + FX_SCALE / 2, 4 * FX_SCALE + FX_SCALE / 2, -FX_SCALE, 0);
    let wall = MapCell::Wall { texture: 0 };
    let probe = 5 * 16 + 4;

    let mut fbx = Framebuffer::new(16, 16);
    fbx.draw_wall(&cam, 4, units(1), &wall, &Side::X, &test_ray(-FX_SCALE, 0), &g, &textures);
    assert_eq!(fbx.pixels[probe], 0x00204060);

    let mut fby = Framebuffer::new(16, 16);
    fby.draw_wall(&cam, 4, units(1), &wall, &Side::Y, &test_ray(0, -FX_SCALE), &g, &textures);
    assert_eq!(fby.pixels[probe], 0x00102030);
}

// A non-positive distance paints the error column, without touching depth.
#[test]
fn wall_error_column_for_degenerate_distance() {
    let textures = vec![flat_texture(0xaa)];
    let g = grid_with_walls(8, 8, &[]);
    let cam = camera_at(4 * FX_SCALE, 4 * FX_SCALE, -FX_SCALE, 0);
    let mut fb = Framebuffer::new(8, 8);
    fb.draw_wall(
        &cam,
        3,
        fx(-1),
        &MapCell::Wall { texture: 0 },
        &Side::X,
        &test_ray(-FX_SCALE, 0),
        &g,
        &textures,
    );
    for r in 0..8 {
        for c in 0..8 {
            let expect = if c == 3 { 0x00ff0000 } else { 0 };
            assert_eq!(fb.pixels[r * 8 + c], expect);
        }
    }
    assert!(fb.z_buffer.iter().all(|z| z.raw == FX_INF));
}

// Fog from the camera's cell applies to wall writes: at saturating density
// the written colour is the tint exactly.
#[test]
fn wall_fog_saturates_to_tint() {
    let textures = vec![flat_texture(0x00204060)];
    let mut g = grid_with_walls(8, 8, &[]);
    let foggy = MapCell::Empty { ceiling_texture: 0, floor_texture: 0, fog: units(1), fog_color: 0x00c8c8c8 };
    assert!(g.set_cell(4, 4, foggy));
    let cam = camera_at(4 * FX_SCALE + FX_SCALE / 2, 4 * FX_SCALE + FX_SCALE / 2, -FX_SCALE, 0);
    let mut fb = Framebuffer::new(16, 16);
    fb.draw_wall(
        &cam,
        4,
        units(2),
        &MapCell::Wall { texture: 0 },
        &Side::X,
        &test_ray(-FX_SCALE, 0),
        &g,
        &textures,
    );
    let probe = 5 * 16 + 4;
    assert_eq!(fb.pixels[probe], 0x00c8c8c8);
}

// draw_vertical_line treats an empty range as a no-op.
#[test]
fn vertical_line_empty_range_is_noop() {
    let mut fb = Framebuffer::new(4, 4);
    fb.draw_vertical_line(1, 3, 1, 9);
    assert!(fb.pixels.iter().all(|p| *p == 0));
}

// A sprite pixel at exactly the recorded depth never overwrites.
#[test]
fn sprite_at_equal_depth_does_not_overwrite() {
    let textures = vec![flat_texture(0x00ffffff)];
    let g = grid_with_walls(8, 8, &[]);
    let cam = camera_at(4 * FX_SCALE, 4 * FX_SCALE, -FX_SCALE, 0);
    let mut fb = Framebuffer::new(16, 16);
    // prefill the whole depth buffer at the sprite's exact distance
    for r in 0..16usize {
        for c in 0..16usize {
            assert!(fb.write_with_depth(c, r, units(3), 0x77));
        }
    }
    let mut sprites = vec![Sprite {
        position: Vec2 { x: units(1), y: units(4) },
        texture: 0,
        vertical_offset: fx(0),
        scale_factor: Vec2 { x: units(1), y: units(1) },
        distance_from_camera: fx(0),
    }];
    fb.draw_sprites(&cam, &mut sprites, &g, &textures);
    assert_eq!(sprites[0].distance_from_camera.raw, 3 * FX_SCALE);
    assert!(fb.pixels.iter().all(|p| *p == 0x77));
    assert!(fb.z_buffer.iter().all(|z| z.raw == 3 * FX_SCALE));
}
