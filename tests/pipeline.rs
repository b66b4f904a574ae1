use rasterizer::arith::{floor_div, isqrt};
use rasterizer::color::{Color, INTENSITY_ONE};
use rasterizer::fragment::Fragment;
use rasterizer::framebuffer::{FrameBuffer, FAR};
use rasterizer::render::{assemble_triangles, draw_fragment, render, render_with};
use rasterizer::shaders::{fragment_shader, shade_fragment, Shading, STRIPE_WIDTH};
use rasterizer::triangle::{barycentric_coordinates, calculate_bounding_box, edge_function, triangle};
use rasterizer::vertex::{Normal, ScreenPoint, Vec3i, Vertex, UNIT};

fn screen_vertex(x: i16, y: i16, z: i32, model_x: i32) -> Vertex {
    Vertex::new(
        Vec3i::new(model_x, 0, 0),
        Normal::new(0, 0, -1),
        (0, 0),
        Color::new(255, 255, 255),
    )
    .with_screen_position(ScreenPoint::new(x, y, z))
}

fn black() -> Color {
    Color::new(0, 0, 0)
}

fn white() -> Color {
    Color::new(255, 255, 255)
}

#[test]
fn color_to_hex_packs_channels() {
    assert_eq!(Color::new(0x12, 0x34, 0x56).to_hex(), 0x123456);
    assert_eq!(Color::new(255, 255, 255).to_hex(), 0xFFFFFF);
    assert_eq!(Color::new(0, 0, 0).to_hex(), 0);
}

#[test]
fn color_scale_clamps_each_channel() {
    let c = Color::new(200, 100, 0);
    assert_eq!(c.scale(INTENSITY_ONE), c);
    assert_eq!(c.scale(128), Color::new(100, 50, 0));
    assert_eq!(c.scale(512), Color::new(255, 200, 0));
    assert_eq!(c.scale(-256), black());
    assert_eq!(c.scale(0), black());
}

#[test]
fn new_framebuffer_is_white_and_far() {
    let mut fb = FrameBuffer::new(3, 2);
    assert_eq!(fb.buffer.len(), 6);
    assert!(fb.buffer.iter().all(|c| *c == white()));
    assert!(fb.zbuffer.iter().all(|d| *d == FAR));
    assert_eq!(fb.get_color(2, 1), white());
    assert_eq!(fb.cast_buffer(), vec![0xFFFFFF; 6]);
}

#[test]
fn point_keeps_nearest_depth() {
    let mut fb = FrameBuffer::new(4, 4);
    fb.set_current_color(Color::new(1, 2, 3));
    fb.point(1, 2, 50);
    assert_eq!(fb.zbuffer[2 * 4 + 1], 50);
    assert_eq!(fb.get_color(1, 2), Color::new(1, 2, 3));
    fb.set_current_color(Color::new(9, 9, 9));
    fb.point(1, 2, 80);
    assert_eq!(fb.zbuffer[9], 50);
    assert_eq!(fb.get_color(1, 2), Color::new(1, 2, 3));
    fb.point(1, 2, 50);
    assert_eq!(fb.get_color(1, 2), Color::new(1, 2, 3));
    fb.point(1, 2, 20);
    assert_eq!(fb.zbuffer[9], 20);
    assert_eq!(fb.get_color(1, 2), Color::new(9, 9, 9));
}

#[test]
fn depths_never_increase_over_repeated_points() {
    let mut fb = FrameBuffer::new(2, 2);
    let mut last = FAR;
    for d in [900i64, 700, 700, 300, 100] {
        fb.point(0, 1, d);
        assert!(fb.zbuffer[2] <= last);
        assert_eq!(fb.zbuffer[2], d);
        last = fb.zbuffer[2];
    }
}

#[test]
fn point_out_of_bounds_changes_nothing() {
    let mut fb = FrameBuffer::new(3, 3);
    fb.set_current_color(black());
    let colors = fb.buffer.clone();
    let depths = fb.zbuffer.clone();
    fb.point(3, 0, 1);
    fb.point(0, 3, 1);
    fb.point(100, 100, -5);
    assert_eq!(fb.buffer, colors);
    assert_eq!(fb.zbuffer, depths);
}

#[test]
fn clear_restores_fresh_planes() {
    let mut fb = FrameBuffer::new(3, 2);
    fb.set_current_color(black());
    fb.point(0, 0, 5);
    fb.point(2, 1, 7);
    fb.clear();
    let fresh = FrameBuffer::new(3, 2);
    assert_eq!(fb.buffer, fresh.buffer);
    assert_eq!(fb.zbuffer, fresh.zbuffer);

    fb.set_background_color(Color::new(0, 51, 51));
    fb.point(1, 1, 3);
    fb.clear();
    assert!(fb.buffer.iter().all(|c| *c == Color::new(0, 51, 51)));
    assert!(fb.zbuffer.iter().all(|d| *d == FAR));
}

#[test]
fn edge_function_and_bounding_box() {
    let a = ScreenPoint::new(0, 0, 0);
    let b = ScreenPoint::new(0, 2, 0);
    let c = ScreenPoint::new(2, 0, 0);
    assert_eq!(edge_function(&a, &b, &c), 4);
    assert_eq!(edge_function(&a, &c, &b), -4);
    assert_eq!(calculate_bounding_box(&ScreenPoint::new(3, -1, 0), &b, &ScreenPoint::new(-2, 5, 0)), (-2, -1, 3, 5));
}

#[test]
fn barycentric_weights_sum_to_area() {
    let a = ScreenPoint::new(0, 0, 0);
    let b = ScreenPoint::new(4, 0, 0);
    let c = ScreenPoint::new(0, 4, 0);
    let area = edge_function(&a, &b, &c);
    assert_eq!(area, -16);
    let p = ScreenPoint::new(1, 1, 0);
    assert_eq!(barycentric_coordinates(&a, &b, &c, &p, area), (8, 4, 4));
    for (x, y) in [(1i16, 2i16), (3, 0), (7, -2)] {
        let (u, v, w) = barycentric_coordinates(&a, &b, &c, &ScreenPoint::new(x, y, 0), area);
        assert_eq!(u + v + w, 16);
    }
}

#[test]
fn triangle_interpolates_depth_and_position() {
    let v1 = screen_vertex(0, 0, 0, 0);
    let v2 = screen_vertex(4, 0, 400, 4 * UNIT);
    let v3 = screen_vertex(0, 4, 0, 0);
    let frags = triangle(&v1, &v2, &v3);
    let f = frags.iter().find(|f| f.x == 1 && f.y == 1).unwrap();
    assert_eq!(f.depth, 100);
    assert_eq!(f.vertex_position, Vec3i::new(UNIT, 0, 0));
    assert_eq!(f.intensity, INTENSITY_ONE);
}

#[test]
fn triangle_fill_rule_on_right_triangle() {
    let v1 = screen_vertex(0, 0, 500, 0);
    let v2 = screen_vertex(0, 2, 500, 0);
    let v3 = screen_vertex(2, 0, 500, 0);
    let frags = triangle(&v1, &v2, &v3);
    let pixels: Vec<(i32, i32)> = frags.iter().map(|f| (f.x, f.y)).collect();
    assert_eq!(pixels, vec![(0, 0), (1, 0), (0, 1)]);
    let reversed = triangle(&v1, &v3, &v2);
    let pixels_rev: Vec<(i32, i32)> = reversed.iter().map(|f| (f.x, f.y)).collect();
    assert_eq!(pixels_rev, pixels);
}

#[test]
fn degenerate_triangle_emits_nothing() {
    let v = screen_vertex(3, 3, 10, 0);
    assert!(triangle(&v, &v, &v).is_empty());
    let collinear = triangle(&screen_vertex(0, 0, 0, 0), &screen_vertex(2, 2, 0, 0), &screen_vertex(4, 4, 0, 0));
    assert!(collinear.is_empty());
}

#[test]
fn unit_right_triangle_paints_three_white_pixels() {
    let mut fb = FrameBuffer::new(4, 4);
    fb.set_background_color(black());
    fb.clear();
    let v1 = screen_vertex(0, 0, 500, 0);
    let v2 = screen_vertex(0, 2, 500, 0);
    let v3 = screen_vertex(2, 0, 500, 0);
    for f in triangle(&v1, &v2, &v3) {
        assert_eq!(f.intensity, INTENSITY_ONE);
        fb.set_current_color(white().scale(f.intensity));
        fb.point(f.x as usize, f.y as usize, f.depth);
    }
    for y in 0..4usize {
        for x in 0..4usize {
            let expected = if [(0, 0), (0, 1), (1, 0)].contains(&(x, y)) { white() } else { black() };
            assert_eq!(fb.get_color(x, y), expected, "pixel ({}, {})", x, y);
        }
    }
}

#[test]
fn nearer_triangle_wins_in_either_order() {
    let far_red = [screen_vertex(0, 0, 1000, 0), screen_vertex(0, 4, 1000, 0), screen_vertex(4, 0, 1000, 0)];
    let near_blue = [
        screen_vertex(0, 0, 500, STRIPE_WIDTH),
        screen_vertex(0, 4, 500, STRIPE_WIDTH),
        screen_vertex(4, 0, 500, STRIPE_WIDTH),
    ];
    let blue = Color::new(0, 0, 255);
    let mut first: Vec<Vertex> = far_red.to_vec();
    first.extend_from_slice(&near_blue);
    let mut second: Vec<Vertex> = near_blue.to_vec();
    second.extend_from_slice(&far_red);
    for verts in [first, second] {
        let mut fb = FrameBuffer::new(4, 4);
        render(&mut fb, &verts);
        assert_eq!(fb.get_color(1, 1), blue);
        assert_eq!(fb.zbuffer[4 + 1], 500);
    }
}

#[test]
fn stripes_alternate_along_x() {
    let frag = |x: i32, intensity: i32| Fragment::new(0, 0, intensity, 0, Vec3i::new(x, 0, 0));
    let red = Color::new(255, 0, 0);
    let blue = Color::new(0, 0, 255);
    assert_eq!(fragment_shader(&frag(0, INTENSITY_ONE)), red);
    assert_eq!(fragment_shader(&frag(511, INTENSITY_ONE)), red);
    assert_eq!(fragment_shader(&frag(512, INTENSITY_ONE)), blue);
    assert_eq!(fragment_shader(&frag(1024, INTENSITY_ONE)), red);
    assert_eq!(fragment_shader(&frag(-511, INTENSITY_ONE)), red);
    assert_eq!(fragment_shader(&frag(-512, INTENSITY_ONE)), blue);
    assert_eq!(fragment_shader(&frag(0, 128)), Color::new(127, 0, 0));
    assert_eq!(fragment_shader(&frag(512, -10)), black());
}

#[test]
fn assemble_drops_trailing_vertices() {
    let verts: Vec<Vertex> = (0..8).map(|i| screen_vertex(i as i16, 0, 0, 0)).collect();
    let tris = assemble_triangles(&verts);
    assert_eq!(tris.len(), 2);
    assert_eq!(tris[1].0.transformed_position.x, 3);
    assert_eq!(tris[1].2.transformed_position.x, 5);
    assert!(assemble_triangles(&verts[..2].to_vec()).is_empty());
}

#[test]
fn draw_fragment_skips_outside_pixels() {
    let mut fb = FrameBuffer::new(2, 2);
    let before = fb.buffer.clone();
    draw_fragment(&mut fb, &Fragment::new(-1, 0, INTENSITY_ONE, 0, Vec3i::new(0, 0, 0)), &Shading::Stripes);
    draw_fragment(&mut fb, &Fragment::new(0, 2, INTENSITY_ONE, 0, Vec3i::new(0, 0, 0)), &Shading::Stripes);
    assert_eq!(fb.buffer, before);
    draw_fragment(&mut fb, &Fragment::new(1, 0, INTENSITY_ONE, 7, Vec3i::new(0, 0, 0)), &Shading::Stripes);
    assert_eq!(fb.get_color(1, 0), Color::new(255, 0, 0));
    assert_eq!(fb.zbuffer[1], 7);
}

#[test]
fn line_walks_bresenham_pixels() {
    let a = screen_vertex(0, 0, 0, 0);
    let b = screen_vertex(3, 1, 0, 0);
    let pixels: Vec<(i32, i32)> = rasterizer::lines::line(&a, &b).iter().map(|f| (f.x, f.y)).collect();
    assert_eq!(pixels, vec![(0, 0), (1, 0), (2, 1), (3, 1)]);
    let back: Vec<(i32, i32)> = rasterizer::lines::line(&b, &a).iter().map(|f| (f.x, f.y)).collect();
    assert_eq!(back.first(), Some(&(3, 1)));
    assert_eq!(back.last(), Some(&(0, 0)));
    assert_eq!(rasterizer::lines::line(&a, &a).len(), 1);
}

#[test]
fn integer_helpers() {
    assert_eq!(isqrt(0), 0);
    assert_eq!(isqrt(15), 3);
    assert_eq!(isqrt(16), 4);
    assert_eq!(floor_div(7, 2), 3);
    assert_eq!(floor_div(-7, 2), -4);
    assert_eq!(floor_div(-8, 2), -4);
}

#[test]
fn shared_diagonal_is_drawn_once() {
    let a = screen_vertex(0, 0, 0, 0);
    let b = screen_vertex(4, 4, 0, 0);
    let c = screen_vertex(4, 0, 0, 0);
    let d = screen_vertex(0, 4, 0, 0);
    let first: Vec<(i32, i32)> = triangle(&a, &b, &c).iter().map(|f| (f.x, f.y)).collect();
    let second: Vec<(i32, i32)> = triangle(&b, &a, &d).iter().map(|f| (f.x, f.y)).collect();
    assert!(first.iter().all(|p| !second.contains(p)));
    for k in 0..4 {
        let on_both = first.contains(&(k, k)) as usize + second.contains(&(k, k)) as usize;
        assert_eq!(on_both, 1, "diagonal pixel ({}, {})", k, k);
    }
    assert_eq!(first.len() + second.len(), 16);
}

#[test]
fn flat_white_frame_paints_unit_right_triangle() {
    let mut fb = FrameBuffer::new(4, 4);
    fb.set_background_color(black());
    fb.clear();
    let verts = vec![screen_vertex(0, 0, 500, 0), screen_vertex(0, 2, 500, 0), screen_vertex(2, 0, 500, 0)];
    render_with(&mut fb, &verts, &Shading::Flat(white()));
    let mut painted = Vec::new();
    for y in 0..4usize {
        for x in 0..4usize {
            let c = fb.get_color(x, y);
            if c == white() {
                painted.push((x, y));
            } else {
                assert_eq!(c, black());
            }
        }
    }
    assert_eq!(painted, vec![(0, 0), (1, 0), (0, 1)]);
    assert_eq!(fb.zbuffer[0], 500);
}

#[test]
fn shading_policies() {
    let f = Fragment::new(0, 0, 128, 0, Vec3i::new(STRIPE_WIDTH, 0, 0));
    assert_eq!(shade_fragment(&Shading::Stripes, &f), Color::new(0, 0, 127));
    assert_eq!(shade_fragment(&Shading::Flat(Color::new(100, 100, 100)), &f), Color::new(50, 50, 50));
}
