use nalgebra as ng;
use rasterizer::geometry::{Point, Rgb};
use rasterizer::rasterizer::{Buffers, IndexBufferId, Primitive, Rasterizer, VertexBufferId};
use rasterizer::triangle::Triangle;

const RED: Rgb = Rgb { r: 255, g: 0, b: 0 };
const BLACK: Rgb = Rgb { r: 0, g: 0, b: 0 };

fn lit(r: &Rasterizer<[i32; 3]>) -> Vec<usize> {
    let mut out = Vec::new();
    for (i, c) in r.frame_buffer().iter().enumerate() {
        if *c != BLACK {
            out.push(i);
        }
    }
    out
}

fn index_of(w: usize, h: usize, x: usize, y: usize) -> usize {
    (h - y) * w + x
}

#[test]
fn new_buffers_are_cleared() {
    let r: Rasterizer<[i32; 3]> = Rasterizer::new(4, 3);
    assert_eq!(r.width(), 4);
    assert_eq!(r.height(), 3);
    assert_eq!(r.frame_buffer().len(), 12);
    assert!(r.frame_buffer().iter().all(|c| *c == BLACK));
    assert_eq!(r.depth_buffer().len(), 12);
    assert!(r.depth_buffer().iter().all(|d| f64::from_bits(*d) == 0.0));
}

#[test]
fn load_vertices_then_lookup_returns_input() {
    let mut r: Rasterizer<[i32; 3]> = Rasterizer::new(4, 4);
    let verts = vec![[2, 0, -2], [0, 2, -2], [-2, 0, -2]];
    let id = r.load_vertices(verts.clone());
    assert_eq!(r.vertex_buffer(&id), Some(&verts));
    assert_eq!(r.vertex_buffer(&VertexBufferId(id.0 + 1)), None);
}

#[test]
fn load_indices_then_lookup_returns_input() {
    let mut r: Rasterizer<[i32; 3]> = Rasterizer::new(4, 4);
    let ind = vec![(0, 1, 2), (2, 1, 0), (7, 8, 9)];
    let id = r.load_indices(&ind);
    assert_eq!(r.index_buffer(&id), Some(&ind));
    assert_eq!(r.index_buffer(&IndexBufferId(id.0 + 1)), None);
}

#[test]
fn handles_share_one_increasing_counter() {
    let mut r: Rasterizer<[i32; 3]> = Rasterizer::new(4, 4);
    assert_eq!(r.next_handle_value(), 0);
    let a = r.load_vertices(vec![[1, 1, 1]]);
    let b = r.load_indices(&vec![(0, 0, 0)]);
    let c = r.load_vertices(vec![[2, 2, 2]]);
    let d = r.load_indices(&vec![(0, 0, 0)]);
    assert_eq!((a.0, b.0, c.0, d.0), (0, 1, 2, 3));
    assert_eq!(r.next_handle_value(), 4);
    // a vertex handle does not name an index buffer
    assert_eq!(r.index_buffer(&IndexBufferId(a.0)), None);
    assert_eq!(r.vertex_buffer(&c), Some(&vec![[2, 2, 2]]));
}

#[test]
fn set_pixel_flips_rows() {
    let mut r: Rasterizer<[i32; 3]> = Rasterizer::new(4, 3);
    r.set_pixel(Point::new(2, 1), RED);
    assert_eq!(lit(&r), vec![index_of(4, 3, 2, 1)]);
    assert_eq!(index_of(4, 3, 2, 1), 10);
    r.set_pixel(Point::new(3, 2), Rgb::new(1, 2, 3));
    assert_eq!(r.frame_buffer()[7], Rgb::new(1, 2, 3));
}

#[test]
fn set_pixel_out_of_bounds_changes_nothing() {
    let mut r: Rasterizer<[i32; 3]> = Rasterizer::new(4, 3);
    r.set_pixel(Point::new(4, 1), RED);
    r.set_pixel(Point::new(1, 3), RED);
    r.set_pixel(Point::new(40, 30), RED);
    r.set_pixel(Point::new(-1, 1), RED);
    r.set_pixel(Point::new(1, -1), RED);
    assert!(lit(&r).is_empty());
}

#[test]
fn set_pixel_row_zero_falls_outside_buffer() {
    let mut r: Rasterizer<[i32; 3]> = Rasterizer::new(4, 3);
    r.set_pixel(Point::new(0, 0), RED);
    r.set_pixel(Point::new(3, 0), RED);
    assert!(lit(&r).is_empty());
}

#[test]
fn clear_color_leaves_depth() {
    let mut r: Rasterizer<[i32; 3]> = Rasterizer::new(3, 3);
    r.set_pixel(Point::new(1, 1), RED);
    r.clear(Buffers::color());
    assert!(lit(&r).is_empty());
    assert_eq!(r.frame_buffer().len(), 9);
    assert_eq!(r.depth_buffer(), &vec![0u64; 9]);
}

#[test]
fn clear_depth_leaves_color() {
    let mut r: Rasterizer<[i32; 3]> = Rasterizer::new(3, 3);
    r.set_pixel(Point::new(1, 1), RED);
    r.clear(Buffers::depth());
    assert_eq!(lit(&r), vec![index_of(3, 3, 1, 1)]);
    assert_eq!(r.depth_buffer(), &vec![0u64; 9]);
}

#[test]
fn clear_both() {
    let mut r: Rasterizer<[i32; 3]> = Rasterizer::new(3, 3);
    r.set_pixel(Point::new(2, 2), RED);
    r.clear(Buffers::color().union(Buffers::depth()));
    assert!(lit(&r).is_empty());
    r.set_pixel(Point::new(2, 2), RED);
    r.clear(Buffers::empty());
    assert_eq!(lit(&r).len(), 1);
}

#[test]
fn buffers_set_operations() {
    let both = Buffers::color().union(Buffers::depth());
    assert_eq!(both, Buffers::all());
    assert!(both.contains(Buffers::color()));
    assert!(both.contains(Buffers::depth()));
    assert!(!Buffers::color().contains(Buffers::depth()));
    assert!(Buffers::depth().contains(Buffers::empty()));
    assert_eq!(both.bits(), 3);
    assert_eq!(Buffers::from_bits_truncate(0b110), Buffers::depth());
    assert_eq!(Buffers::from_bits_truncate(1), Buffers::color());
}

fn pixels_of_line(a: Point, b: Point) -> Vec<usize> {
    let mut r: Rasterizer<[i32; 3]> = Rasterizer::new(16, 16);
    r.draw_line(a, b);
    lit(&r)
}

#[test]
fn draw_line_shallow_exact_pixels() {
    let mut r: Rasterizer<[i32; 3]> = Rasterizer::new(8, 8);
    r.draw_line(Point::new(0, 1), Point::new(4, 3));
    let mut expected: Vec<usize> = [(0, 1), (1, 2), (2, 2), (3, 3), (4, 3)]
        .iter()
        .map(|&(x, y)| index_of(8, 8, x, y))
        .collect();
    expected.sort();
    assert_eq!(lit(&r), expected);
    assert!(r.frame_buffer().iter().all(|c| *c == BLACK || *c == RED));
}

#[test]
fn draw_line_steep_exact_pixels() {
    let mut r: Rasterizer<[i32; 3]> = Rasterizer::new(8, 8);
    r.draw_line(Point::new(1, 1), Point::new(2, 5));
    let mut expected: Vec<usize> = [(1, 1), (1, 2), (1, 3), (2, 4), (2, 5)]
        .iter()
        .map(|&(x, y)| index_of(8, 8, x, y))
        .collect();
    expected.sort();
    assert_eq!(lit(&r), expected);
}

#[test]
fn draw_line_descending_and_single_point() {
    let mut r: Rasterizer<[i32; 3]> = Rasterizer::new(8, 8);
    r.draw_line(Point::new(0, 5), Point::new(3, 2));
    let mut expected: Vec<usize> = [(0, 5), (1, 4), (2, 3), (3, 2)]
        .iter()
        .map(|&(x, y)| index_of(8, 8, x, y))
        .collect();
    expected.sort();
    assert_eq!(lit(&r), expected);
    assert_eq!(pixels_of_line(Point::new(3, 3), Point::new(3, 3)), vec![index_of(16, 16, 3, 3)]);
}

#[test]
fn draw_line_is_symmetric() {
    let pairs = [
        (Point::new(1, 1), Point::new(9, 4)),
        (Point::new(9, 2), Point::new(1, 7)),
        (Point::new(2, 14), Point::new(5, 1)),
        (Point::new(3, 3), Point::new(3, 12)),
        (Point::new(12, 6), Point::new(2, 6)),
        (Point::new(0, 1), Point::new(4, 3)),
        (Point::new(-5, -3), Point::new(20, 9)),
    ];
    for (a, b) in pairs.iter() {
        assert_eq!(pixels_of_line(*a, *b), pixels_of_line(*b, *a));
    }
}

#[test]
fn draw_line_clips_off_screen_part() {
    let mut r: Rasterizer<[i32; 3]> = Rasterizer::new(4, 4);
    r.draw_line(Point::new(-3, 2), Point::new(6, 2));
    let mut expected: Vec<usize> = (0..4).map(|x| index_of(4, 4, x, 2)).collect();
    expected.sort();
    assert_eq!(lit(&r), expected);
}

#[test]
fn rasterize_wireframe_draws_three_edges() {
    let mut t = Triangle::default();
    t.set_vertex(0, Point::new(1, 1));
    t.set_vertex(1, Point::new(5, 1));
    t.set_vertex(2, Point::new(1, 5));
    t.set_color(1, Rgb::new(0, 255, 0));
    assert_eq!((t.a(), t.b(), t.c()), (Point::new(1, 1), Point::new(5, 1), Point::new(1, 5)));
    assert_eq!(t.color[1], Rgb::new(0, 255, 0));
    let mut r: Rasterizer<[i32; 3]> = Rasterizer::new(8, 8);
    r.rasterize_wireframe(&t);
    // 5 + 5 + 5 pixels per edge, corners shared
    assert_eq!(lit(&r).len(), 12);
    for &(x, y) in [(1, 1), (5, 1), (1, 5), (3, 3), (3, 1), (1, 3)].iter() {
        assert_eq!(r.frame_buffer()[index_of(8, 8, x, y)], RED);
    }
}

#[test]
fn draw_indexed_triangles() {
    let mut r: Rasterizer<[i32; 3]> = Rasterizer::new(8, 8);
    let vid = r.load_vertices(vec![[0, 0, 0], [0, 0, 0], [0, 0, 0], [0, 0, 0]]);
    let iid = r.load_indices(&vec![(0, 1, 2), (1, 3, 2)]);
    let screen = vec![Point::new(1, 1), Point::new(5, 1), Point::new(1, 5), Point::new(5, 5)];
    r.draw(&vid, &iid, Primitive::Triangle, &screen);
    // two triangles sharing the diagonal: the outer square plus the diagonal
    assert_eq!(lit(&r).len(), 16 + 3);
    assert_eq!(r.frame_buffer()[index_of(8, 8, 5, 5)], RED);
    assert_eq!(r.frame_buffer()[index_of(8, 8, 3, 3)], RED);
    assert_eq!(r.frame_buffer()[index_of(8, 8, 2, 2)], BLACK);
}

#[test]
fn as_raw_data_packs_rgb() {
    let mut r: Rasterizer<[i32; 3]> = Rasterizer::new(2, 2);
    r.set_pixel(Point::new(1, 1), Rgb::new(10, 20, 30));
    let raw = r.as_raw_data();
    assert_eq!(raw.len(), 12);
    // pixel (1, 1) of a 2 by 2 screen is stored third: (2 - 1) * 2 + 1
    assert_eq!(&raw[9..12], &[10, 20, 30]);
    assert!(raw[0..9].iter().all(|b| *b == 0));
}

fn projection(eye_fov: f64, aspect: f64, z_near: f64, z_far: f64) -> ng::Matrix4<f64> {
    let pi = std::f64::consts::PI;
    let m1 = ng::Matrix4::new(
        z_near, 0.0, 0.0, 0.0, 0.0, z_near, 0.0, 0.0, 0.0, 0.0, 1.0, 0.0, 0.0, 0.0, -1.0, 0.0,
    );
    let delta_x = z_near * (eye_fov * pi / 2.0 / 180.0).tan();
    let delta_y = delta_x * aspect;
    let delta_z = (z_near - z_far) / 2.0;
    let center_z = (z_near + delta_z) / 2.0;
    let m2 = ng::Matrix4::new(
        1.0 / delta_x, 0.0, 0.0, 0.0, 0.0, 1.0 / delta_y, 0.0, 0.0, 0.0, 0.0, 1.0 / delta_z,
        0.0, 0.0, 0.0, center_z / delta_z, 1.0,
    )
    .transpose();
    m2 * m1
}

#[test]
fn end_to_end_single_triangle() {
    let (w, h) = (700u32, 700u32);
    let verts = vec![
        ng::Vector3::new(2.0, 0.0, -2.0),
        ng::Vector3::new(0.0, 2.0, -2.0),
        ng::Vector3::new(-2.0, 0.0, -2.0),
    ];
    let view = ng::Matrix4::new(
        1.0, 0.0, 0.0, 0.0, 0.0, 1.0, 0.0, 0.0, 0.0, 0.0, 1.0, -5.0, 0.0, 0.0, 0.0, 1.0,
    );
    let mvp = projection(45.0, 1.0, 0.1, 50.0) * view * ng::Matrix4::<f64>::identity();
    let screen: Vec<Point> = verts
        .iter()
        .map(|v| {
            let c = mvp * ng::Vector4::new(v.x, v.y, v.z, 1.0);
            let n = c / c.w;
            let sx = 0.5 * w as f64 * (n.x + 1.0);
            let sy = 0.5 * h as f64 * (n.y + 1.0);
            Point::new(sx as i32, sy as i32)
        })
        .collect();
    assert_eq!(screen, vec![Point::new(591, 350), Point::new(350, 591), Point::new(108, 350)]);

    let mut r: Rasterizer<ng::Vector3<f64>> = Rasterizer::new(w, h);
    let vid = r.load_vertices(verts);
    let iid = r.load_indices(&vec![(0, 1, 2)]);
    r.clear(Buffers::all());
    r.draw(&vid, &iid, Primitive::Triangle, &screen);
    let fb = r.frame_buffer();
    let red: Vec<usize> = (0..fb.len()).filter(|&i| fb[i] == RED).collect();
    assert!(fb.iter().all(|c| *c == RED || *c == BLACK));
    // 484 + 243 + 242 pixels on the three edges, three corners shared
    assert_eq!(red.len(), 966);
    for &(x, y) in [(591, 350), (350, 591), (108, 350), (300, 350), (229, 471), (470, 471)].iter() {
        assert_eq!(fb[index_of(700, 700, x, y)], RED);
    }
    assert_eq!(fb[index_of(700, 700, 350, 400)], BLACK);
}
