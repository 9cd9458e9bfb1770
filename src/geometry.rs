use vstd::prelude::*;
use vstd::arithmetic::div_mod::lemma_fundamental_div_mod_converse;
use vstd::arithmetic::mul::lemma_mul_inequality;

verus! {

/// A pixel position in screen space, in whole pixels.
#[derive(Clone, Copy, Debug, PartialEq, Eq, Structural)]
pub struct Point {
    pub x: i32,
    pub y: i32,
}

impl Point {
    pub fn new(x: i32, y: i32) -> (r: Point)
        ensures
            r.x == x,
            r.y == y,
    {
        Point { x, y }
    }
}

/// A 24-bit colour, one byte per channel.
#[derive(Clone, Copy, Debug, PartialEq, Eq, Structural)]
pub struct Rgb {
    pub r: u8,
    pub g: u8,
    pub b: u8,
}

impl Rgb {
    pub fn new(r: u8, g: u8, b: u8) -> (c: Rgb)
        ensures
            c == (Rgb { r, g, b }),
    {
        Rgb { r, g, b }
    }
}

pub open spec fn black() -> Rgb {
    Rgb { r: 0, g: 0, b: 0 }
}

pub open spec fn red() -> Rgb {
    Rgb { r: 255, g: 0, b: 0 }
}

pub open spec fn green() -> Rgb {
    Rgb { r: 0, g: 255, b: 0 }
}

pub open spec fn blue() -> Rgb {
    Rgb { r: 0, g: 0, b: 255 }
}

pub open spec fn abs(v: int) -> int {
    if v < 0 {
        -v
    } else {
        v
    }
}

/// Both deltas strictly positive or both strictly negative: the minor
/// coordinate grows with the major one.
pub open spec fn same_direction(dx: int, dy: int) -> bool {
    (dx < 0 && dy < 0) || (dx > 0 && dy > 0)
}

/// How far the minor coordinate has moved after `k` steps along X, when
/// `|dy| <= |dx|`: the nearest row, with a tie going up.
pub open spec fn x_major_offset(k: int, dx1: int, dy1: int) -> int {
    if dx1 == 0 {
        0
    } else {
        (2 * k * dy1 + dx1) / (2 * dx1)
    }
}

/// How far the minor coordinate has moved after `k` steps along Y, when
/// `|dy| > |dx|`: the nearest column, with a tie going down.
pub open spec fn y_major_offset(k: int, dx1: int, dy1: int) -> int {
    if dy1 == 0 {
        0
    } else {
        (2 * k * dx1 + dy1 - 1) / (2 * dy1)
    }
}

/// The pixels of the segment from `a` to `b`, both ends included, in the
/// order in which they are drawn: one pixel per unit step along the dominant
/// axis, starting from the endpoint with the lower coordinate on that axis.
pub open spec fn line_pixels(a: Point, b: Point) -> Seq<Point> {
    let dx = b.x - a.x;
    let dy = b.y - a.y;
    let dx1 = abs(dx);
    let dy1 = abs(dy);
    let up = same_direction(dx, dy);
    if dy1 <= dx1 {
        let s = if dx >= 0 {
            a
        } else {
            b
        };
        Seq::new(
            (dx1 + 1) as nat,
            |k: int|
                {
                    let off = x_major_offset(k, dx1, dy1);
                    Point { x: (s.x + k) as i32, y: (if up { s.y + off } else { s.y - off }) as i32 }
                },
        )
    } else {
        let s = if dy >= 0 {
            a
        } else {
            b
        };
        Seq::new(
            (dy1 + 1) as nat,
            |k: int|
                {
                    let off = y_major_offset(k, dx1, dy1);
                    Point { x: (if up { s.x + off } else { s.x - off }) as i32, y: (s.y + k) as i32 }
                },
        )
    }
}

/// Where pixel `p` is stored in a `w` by `h` frame buffer: rows are stored
/// bottom-up, so screen row `y` is storage row `h - y`.
pub open spec fn pixel_index(w: int, h: int, p: Point) -> int {
    (h - p.y) * w + p.x
}

/// Whether writing pixel `p` reaches the buffer: it lies on the screen and
/// its storage index lies inside the buffer (screen row 0 maps one row past
/// the end and is dropped).
pub open spec fn lands(w: int, h: int, p: Point) -> bool {
    0 <= p.x < w && 0 <= p.y < h && 0 <= pixel_index(w, h, p) < w * h
}

/// The buffer after writing colour `c` at pixel `p`; a pixel that does not
/// land leaves it as it was.
pub open spec fn plot(w: int, h: int, fb: Seq<Rgb>, p: Point, c: Rgb) -> Seq<Rgb> {
    if lands(w, h, p) {
        fb.update(pixel_index(w, h, p), c)
    } else {
        fb
    }
}

/// Writing a pixel at column `w` or beyond, or at row `h` or beyond, leaves
/// the buffer untouched.
pub proof fn lemma_offscreen_plot(w: int, h: int, fb: Seq<Rgb>, p: Point, c: Rgb)
    requires
        p.x >= w || p.y >= h,
    ensures
        plot(w, h, fb, p, c) == fb,
{
}

/// The buffer after writing colour `c` at each of `pts`, in order.
pub open spec fn paint(w: int, h: int, fb: Seq<Rgb>, pts: Seq<Point>, c: Rgb) -> Seq<Rgb>
    decreases pts.len(),
{
    if pts.len() == 0 {
        fb
    } else {
        plot(w, h, paint(w, h, fb, pts.drop_last(), c), pts.last(), c)
    }
}

/// Painting a concatenation is painting its two parts one after the other.
pub proof fn lemma_paint_append(
    w: int,
    h: int,
    fb: Seq<Rgb>,
    a: Seq<Point>,
    b: Seq<Point>,
    c: Rgb,
)
    ensures
        paint(w, h, fb, a + b, c) == paint(w, h, paint(w, h, fb, a, c), b, c),
    decreases b.len(),
{
    if b.len() == 0 {
        assert(a + b =~= a);
    } else {
        assert((a + b).drop_last() =~= a + b.drop_last());
        lemma_paint_append(w, h, fb, a, b.drop_last(), c);
    }
}

/// Painting one more pixel of `pts` is plotting it on what was painted.
pub proof fn lemma_paint_next(w: int, h: int, fb: Seq<Rgb>, pts: Seq<Point>, n: int, c: Rgb)
    requires
        0 <= n < pts.len(),
    ensures
        paint(w, h, fb, pts.take(n + 1), c) == plot(w, h, paint(w, h, fb, pts.take(n), c), pts[n], c),
{
    assert(pts.take(n + 1).drop_last() =~= pts.take(n));
    assert(pts.take(n + 1).last() == pts[n]);
}

/// Painting keeps the length of the buffer.
pub proof fn lemma_paint_len(w: int, h: int, fb: Seq<Rgb>, pts: Seq<Point>, c: Rgb)
    requires
        fb.len() == w * h,
    ensures
        paint(w, h, fb, pts, c).len() == fb.len(),
    decreases pts.len(),
{
    if pts.len() > 0 {
        lemma_paint_len(w, h, fb, pts.drop_last(), c);
    }
}

/// After painting, a buffer element holds `c` exactly when some painted
/// pixel lands on it; every other element is left as it was.
pub proof fn lemma_paint_lit(w: int, h: int, fb: Seq<Rgb>, pts: Seq<Point>, c: Rgb, i: int)
    requires
        fb.len() == w * h,
        0 <= i < fb.len(),
    ensures
        paint(w, h, fb, pts, c)[i] == if exists|k: int|
            0 <= k < pts.len() && lands(w, h, #[trigger] pts[k]) && pixel_index(w, h, pts[k])
                == i {
            c
        } else {
            fb[i]
        },
    decreases pts.len(),
{
    if pts.len() > 0 {
        let rest = pts.drop_last();
        lemma_paint_lit(w, h, fb, rest, c, i);
        lemma_paint_len(w, h, fb, rest, c);
        let hit = exists|k: int|
            0 <= k < pts.len() && lands(w, h, #[trigger] pts[k]) && pixel_index(w, h, pts[k]) == i;
        let hit_rest = exists|k: int|
            0 <= k < rest.len() && lands(w, h, #[trigger] rest[k]) && pixel_index(w, h, rest[k])
                == i;
        if hit_rest {
            let k = choose|k: int|
                0 <= k < rest.len() && lands(w, h, #[trigger] rest[k]) && pixel_index(w, h, rest[k])
                    == i;
            assert(pts[k] == rest[k]);
        }
        if hit && !hit_rest {
            let k = choose|k: int|
                0 <= k < pts.len() && lands(w, h, #[trigger] pts[k]) && pixel_index(w, h, pts[k])
                    == i;
            if k < rest.len() {
                assert(rest[k] == pts[k]);
            }
        }
        if !hit {
            if lands(w, h, pts.last()) && pixel_index(w, h, pts.last()) == i {
                assert(pts[pts.len() - 1] == pts.last());
            }
            assert forall|k: int| 0 <= k < rest.len() implies !(lands(w, h, #[trigger] rest[k])
                && pixel_index(w, h, rest[k]) == i) by {
                assert(rest[k] == pts[k]);
            }
        }
    }
}

/// `n / d` is the `q` with `d * q <= n < d * q + d`.
proof fn lemma_floor_unique(n: int, d: int, q: int)
    requires
        d > 0,
        d * q <= n < d * q + d,
    ensures
        n / d == q,
{
    assert(q * d == d * q) by (nonlinear_arith);
    lemma_fundamental_div_mod_converse(n, d, q, n - d * q);
}

/// The first pixel of a line sits at offset 0 on the minor axis.
pub proof fn lemma_step_start(d: int, e: int, c: int, k: int)
    requires
        d > 0,
        0 <= c <= 1,
        k == 0,
    ensures
        2 * d * 0 <= 2 * k * e + d - c < 2 * d * 0 + 2 * d,
        (2 * k * e + d - c) / (2 * d) == 0,
        2 * (k + 1) * e - d - 2 * d * 0 == 2 * e - d,
{
    assert(2 * k * e == 0) by (nonlinear_arith)
        requires
            k == 0,
    ;
    assert(2 * (k + 1) * e == 2 * e) by (nonlinear_arith)
        requires
            k == 0,
    ;
    lemma_floor_unique(d - c, 2 * d, 0);
}

/// One step of the incremental line algorithm along its major axis, of
/// length `d`, with the minor axis of length `e <= d`. After `k` steps the
/// minor offset is `q`, the floor of `(2 k e + d - c) / 2 d`, and the decision
/// term is `err`; the minor offset moves on exactly when `err >= c`, which
/// keeps it equal to that floor.
pub proof fn lemma_step(k: int, d: int, e: int, c: int, q: int, err: int)
    requires
        0 <= c <= 1,
        0 <= e <= d,
        0 <= k < d,
        0 <= q,
        2 * d * q <= 2 * k * e + d - c < 2 * d * q + 2 * d,
        err == 2 * (k + 1) * e - d - 2 * d * q,
    ensures
        2 * e - 2 * d - 1 <= err < 2 * e + 1,
        ({
            let q2 = if err >= c {
                q + 1
            } else {
                q
            };
            let err2 = if err >= c {
                err + 2 * e - 2 * d
            } else {
                err + 2 * e
            };
            &&& 2 * d * q2 <= 2 * (k + 1) * e + d - c < 2 * d * q2 + 2 * d
            &&& err2 == 2 * (k + 2) * e - d - 2 * d * q2
            &&& (2 * (k + 1) * e + d - c) / (2 * d) == q2
            &&& 0 <= q2 <= e
        }),
{
    assert(2 * (k + 1) * e == 2 * k * e + 2 * e) by (nonlinear_arith);
    assert(2 * (k + 2) * e == 2 * (k + 1) * e + 2 * e) by (nonlinear_arith);
    assert(2 * d * (q + 1) == 2 * d * q + 2 * d) by (nonlinear_arith);
    let q2 = if err >= c {
        q + 1
    } else {
        q
    };
    lemma_floor_unique(2 * (k + 1) * e + d - c, 2 * d, q2);
    assert(2 * (k + 1) * e <= 2 * d * e) by {
        lemma_mul_inequality(k + 1, d, 2 * e);
        assert((k + 1) * (2 * e) == 2 * (k + 1) * e) by (nonlinear_arith);
        assert(d * (2 * e) == 2 * d * e) by (nonlinear_arith);
    }
    if q2 > e {
        lemma_mul_inequality(e + 1, q2, 2 * d);
        assert((e + 1) * (2 * d) == 2 * d * e + 2 * d) by (nonlinear_arith);
        assert(q2 * (2 * d) == 2 * d * q2) by (nonlinear_arith);
    }
}

/// Drawing on a cleared buffer lights exactly the elements that some drawn
/// pixel lands on; all others stay black.
pub proof fn lemma_paint_on_black(w: int, h: int, pts: Seq<Point>, c: Rgb)
    requires
        0 <= w,
        0 <= h,
    ensures
        ({
            let fb = Seq::new((w * h) as nat, |i: int| black());
            let out = paint(w, h, fb, pts, c);
            &&& out.len() == w * h
            &&& forall|i: int|
                0 <= i < w * h ==> #[trigger] out[i] == if exists|k: int|
                    0 <= k < pts.len() && lands(w, h, #[trigger] pts[k]) && pixel_index(w, h, pts[k])
                        == i {
                    c
                } else {
                    black()
                }
        }),
{
    let fb = Seq::new((w * h) as nat, |i: int| black());
    assert(w * h >= 0) by (nonlinear_arith)
        requires
            0 <= w,
            0 <= h,
    ;
    lemma_paint_len(w, h, fb, pts, c);
    assert forall|i: int| 0 <= i < w * h implies #[trigger] paint(w, h, fb, pts, c)[i] == if exists|k: int|
        0 <= k < pts.len() && lands(w, h, #[trigger] pts[k]) && pixel_index(w, h, pts[k]) == i {
        c
    } else {
        black()
    } by {
        lemma_paint_lit(w, h, fb, pts, c, i);
    }
}

/// A line drawn from `a` to `b` and one drawn from `b` to `a` light the same
/// pixels, in the same order.
pub proof fn lemma_line_symmetric(a: Point, b: Point)
    ensures
        line_pixels(a, b) == line_pixels(b, a),
{
    let l1 = line_pixels(a, b);
    let l2 = line_pixels(b, a);
    if a.x == b.x && a.y == b.y {
        assert(a == b);
    }
    assert(l1 =~= l2);
}

/// Drawing a line from `a` to `b` or from `b` to `a` leaves the same frame
/// buffer behind.
pub proof fn lemma_line_paint_symmetric(w: int, h: int, fb: Seq<Rgb>, a: Point, b: Point, c: Rgb)
    ensures
        paint(w, h, fb, line_pixels(a, b), c) == paint(w, h, fb, line_pixels(b, a), c),
{
    lemma_line_symmetric(a, b);
}

} // verus!
