use std::collections::HashMap;
use vstd::prelude::*;

use crate::geometry::{
    abs, black, line_pixels, paint, pixel_index, plot, red, same_direction,
    x_major_offset, y_major_offset, lemma_paint_append, lemma_paint_next, lemma_step, lemma_step_start, Point, Rgb,
};
use crate::triangle::Triangle;

verus! {

broadcast use vstd::std_specs::hash::group_hash_axioms;

/// A set of the buffers that `clear` resets.
#[derive(Clone, Copy, Debug, PartialEq, Eq, Structural)]
pub struct Buffers {
    pub color: bool,
    pub depth: bool,
}

impl Buffers {
    /// The colour (frame) buffer alone.
    pub fn color() -> (r: Buffers)
        ensures
            r.color && !r.depth,
    {
        Buffers { color: true, depth: false }
    }

    /// The depth buffer alone.
    pub fn depth() -> (r: Buffers)
        ensures
            !r.color && r.depth,
    {
        Buffers { color: false, depth: true }
    }

    /// Both buffers.
    pub fn all() -> (r: Buffers)
        ensures
            r.color && r.depth,
    {
        Buffers { color: true, depth: true }
    }

    pub fn empty() -> (r: Buffers)
        ensures
            !r.color && !r.depth,
    {
        Buffers { color: false, depth: false }
    }

    pub fn union(self, other: Buffers) -> (r: Buffers)
        ensures
            r.color == (self.color || other.color),
            r.depth == (self.depth || other.depth),
    {
        Buffers { color: self.color || other.color, depth: self.depth || other.depth }
    }

    /// Whether every buffer of `other` is in `self`.
    pub fn contains(&self, other: Buffers) -> (r: bool)
        ensures
            r == ((other.color ==> self.color) && (other.depth ==> self.depth)),
    {
        (!other.color || self.color) && (!other.depth || self.depth)
    }

    /// The set whose bit 0 stands for the colour buffer and bit 1 for the
    /// depth buffer; other bits are ignored.
    pub fn from_bits_truncate(bits: u8) -> (r: Buffers)
        ensures
            r.color == (bits & 1 != 0),
            r.depth == (bits & 2 != 0),
    {
        Buffers { color: bits & 1 != 0, depth: bits & 2 != 0 }
    }

    pub fn bits(&self) -> (r: u8)
        ensures
            r == (if self.color { 1u8 } else { 0u8 }) + (if self.depth { 2u8 } else { 0u8 }),
    {
        let c: u8 = if self.color { 1 } else { 0 };
        let d: u8 = if self.depth { 2 } else { 0 };
        c + d
    }
}

/// The kind of primitive that an index buffer describes.
#[derive(Clone, Copy, Debug, PartialEq, Eq, Structural)]
pub enum Primitive {
    Line,
    Triangle,
}

/// The handle of a loaded vertex buffer.
#[derive(Clone, Copy, Debug, PartialEq, Eq, Structural)]
pub struct VertexBufferId(pub u32);

/// The handle of a loaded index buffer.
#[derive(Clone, Copy, Debug, PartialEq, Eq, Structural)]
pub struct IndexBufferId(pub u32);

/// One triangle of an index buffer: three offsets into a vertex buffer.
pub type Face = (u32, u32, u32);

/// The three edges of a wireframe triangle, in drawing order: c to a, c to
/// b, b to a.
pub open spec fn wireframe_pixels(a: Point, b: Point, c: Point) -> Seq<Point> {
    line_pixels(c, a) + line_pixels(c, b) + line_pixels(b, a)
}

/// Whether every face of `faces` names vertices among the first `n`.
pub open spec fn faces_in_range(faces: Seq<Face>, n: nat) -> bool {
    forall|t: int|
        0 <= t < faces.len() ==> (#[trigger] faces[t]).0 < n && faces[t].1 < n && faces[t].2 < n
}

/// The pixels drawn for `faces`, one wireframe triangle after another, where
/// `screen[i]` is where vertex `i` is seen on the screen.
pub open spec fn mesh_pixels(screen: Seq<Point>, faces: Seq<Face>) -> Seq<Point>
    decreases faces.len(),
{
    if faces.len() == 0 {
        Seq::empty()
    } else {
        let f = faces.last();
        mesh_pixels(screen, faces.drop_last()) + wireframe_pixels(
            screen[f.0 as int],
            screen[f.1 as int],
            screen[f.2 as int],
        )
    }
}

/// Holds the loaded geometry and the frame and depth buffers of a `width` by
/// `height` screen. `V` is the type of one vertex position.
pub struct Rasterizer<V> {
    vertices: HashMap<u32, Vec<V>>,
    indices: HashMap<u32, Vec<Face>>,
    frame_buffer: Vec<Rgb>,
    depth_buffer: Vec<u64>,
    width: u32,
    height: u32,
    next_id: u32,
}

impl<V> Rasterizer<V> {
    pub closed spec fn spec_width(&self) -> int {
        self.width as int
    }

    pub closed spec fn spec_height(&self) -> int {
        self.height as int
    }

    /// The loaded vertex buffers, by handle.
    pub closed spec fn vertex_buffers(&self) -> Map<u32, Seq<V>> {
        self.vertices@.map_values(|v: Vec<V>| v@)
    }

    /// The loaded index buffers, by handle.
    pub closed spec fn index_buffers(&self) -> Map<u32, Seq<Face>> {
        self.indices@.map_values(|v: Vec<Face>| v@)
    }

    /// The colour of each pixel, in storage order.
    pub closed spec fn frame(&self) -> Seq<Rgb> {
        self.frame_buffer@
    }

    /// The depth buffer, each value held as the bit pattern of an IEEE-754
    /// double (0 is +0.0).
    pub closed spec fn depth(&self) -> Seq<u64> {
        self.depth_buffer@
    }

    /// The handle that the next load hands out.
    pub closed spec fn next_handle(&self) -> u32 {
        self.next_id
    }

    pub closed spec fn wf(&self) -> bool {
        &&& self.width as int * self.height as int <= u32::MAX
        &&& self.frame_buffer@.len() == self.width as int * self.height as int
        &&& self.depth_buffer@.len() == self.width as int * self.height as int
        &&& forall|k: u32| #[trigger] self.vertices@.contains_key(k) ==> k < self.next_id
        &&& forall|k: u32| #[trigger] self.indices@.contains_key(k) ==> k < self.next_id
    }

    /// Everything but the frame buffer is as in `other`.
    pub open spec fn same_but_frame(&self, other: &Self) -> bool {
        &&& self.spec_width() == other.spec_width()
        &&& self.spec_height() == other.spec_height()
        &&& self.vertex_buffers() == other.vertex_buffers()
        &&& self.index_buffers() == other.index_buffers()
        &&& self.depth() == other.depth()
        &&& self.next_handle() == other.next_handle()
    }

    /// `after` is `before` with one more handle handed out.
    pub open spec fn load_step(before: &Self, after: &Self, id: u32) -> bool {
        &&& id == before.next_handle()
        &&& after.next_handle() == before.next_handle() + 1
        &&& !before.vertex_buffers().contains_key(id)
        &&& !before.index_buffers().contains_key(id)
    }

    /// A rasterizer for a `width` by `height` screen, with both buffers
    /// cleared and nothing loaded.
    pub fn new(width: u32, height: u32) -> (r: Self)
        requires
            width as int * height as int <= u32::MAX,
        ensures
            r.wf(),
            r.spec_width() == width,
            r.spec_height() == height,
            r.frame() == Seq::new((width * height) as nat, |i: int| black()),
            r.depth() == Seq::new((width * height) as nat, |i: int| 0u64),
            r.vertex_buffers() == Map::<u32, Seq<V>>::empty(),
            r.index_buffers() == Map::<u32, Seq<Face>>::empty(),
            r.next_handle() == 0,
    {
        let n = (width * height) as usize;
        let r = Rasterizer {
            vertices: HashMap::new(),
            indices: HashMap::new(),
            frame_buffer: filled_frame(n),
            depth_buffer: filled_depth(n),
            width,
            height,
            next_id: 0,
        };
        assert(r.vertex_buffers() =~= Map::<u32, Seq<V>>::empty());
        assert(r.index_buffers() =~= Map::<u32, Seq<Face>>::empty());
        r
    }

    pub fn width(&self) -> (r: u32)
        ensures
            r == self.spec_width(),
    {
        self.width
    }

    pub fn height(&self) -> (r: u32)
        ensures
            r == self.spec_height(),
    {
        self.height
    }

    /// The handle that the next `load_vertices` or `load_indices` returns.
    pub fn next_handle_value(&self) -> (r: u32)
        ensures
            r == self.next_handle(),
    {
        self.next_id
    }

    fn get_next_id(&mut self) -> (id: u32)
        requires
            old(self).next_id < u32::MAX,
        ensures
            id == old(self).next_id,
            final(self).next_id == old(self).next_id + 1,
            final(self).vertices == old(self).vertices,
            final(self).indices == old(self).indices,
            final(self).frame_buffer == old(self).frame_buffer,
            final(self).depth_buffer == old(self).depth_buffer,
            final(self).width == old(self).width,
            final(self).height == old(self).height,
    {
        let id = self.next_id;
        self.next_id = self.next_id + 1;
        id
    }

    /// Stores `vertex` under a fresh handle and returns that handle.
    pub fn load_vertices(&mut self, vertex: Vec<V>) -> (id: VertexBufferId)
        requires
            old(self).wf(),
            old(self).next_handle() < u32::MAX,
        ensures
            final(self).wf(),
            Self::load_step(&*old(self), &*final(self), id.0),
            final(self).vertex_buffers() == old(self).vertex_buffers().insert(id.0, vertex@),
            final(self).index_buffers() == old(self).index_buffers(),
            final(self).frame() == old(self).frame(),
            final(self).depth() == old(self).depth(),
            final(self).spec_width() == old(self).spec_width(),
            final(self).spec_height() == old(self).spec_height(),
    {
        let ghost before = *self;
        let id = self.get_next_id();
        assert(!self.vertices@.contains_key(id));
        self.vertices.insert(id, vertex);
        assert(self.vertex_buffers() =~= before.vertex_buffers().insert(id, vertex@));
        VertexBufferId(id)
    }

    /// Stores a copy of `index` under a fresh handle and returns that handle.
    /// Offsets are not checked against any vertex buffer here.
    pub fn load_indices(&mut self, index: &Vec<Face>) -> (id: IndexBufferId)
        requires
            old(self).wf(),
            old(self).next_handle() < u32::MAX,
        ensures
            final(self).wf(),
            Self::load_step(&*old(self), &*final(self), id.0),
            final(self).index_buffers() == old(self).index_buffers().insert(id.0, index@),
            final(self).vertex_buffers() == old(self).vertex_buffers(),
            final(self).frame() == old(self).frame(),
            final(self).depth() == old(self).depth(),
            final(self).spec_width() == old(self).spec_width(),
            final(self).spec_height() == old(self).spec_height(),
    {
        let ghost before = *self;
        let mut copy: Vec<Face> = Vec::new();
        let mut i: usize = 0;
        while i < index.len()
            invariant
                i <= index@.len(),
                copy@ == index@.subrange(0, i as int),
            decreases index@.len() - i,
        {
            copy.push(index[i]);
            i = i + 1;
        }
        assert(copy@ =~= index@);
        let id = self.get_next_id();
        self.indices.insert(id, copy);
        assert(self.index_buffers() =~= before.index_buffers().insert(id, index@));
        IndexBufferId(id)
    }

    /// The vertex buffer loaded under `id`, if any.
    pub fn vertex_buffer(&self, id: &VertexBufferId) -> (r: Option<&Vec<V>>)
        ensures
            match r {
                Some(v) => self.vertex_buffers().contains_key(id.0) && v@ == self.vertex_buffers()[id.0],
                None => !self.vertex_buffers().contains_key(id.0),
            },
    {
        self.vertices.get(&id.0)
    }

    /// The index buffer loaded under `id`, if any.
    pub fn index_buffer(&self, id: &IndexBufferId) -> (r: Option<&Vec<Face>>)
        ensures
            match r {
                Some(v) => self.index_buffers().contains_key(id.0) && v@ == self.index_buffers()[id.0],
                None => !self.index_buffers().contains_key(id.0),
            },
    {
        self.indices.get(&id.0)
    }

    /// The colour of each pixel, in storage order.
    pub fn frame_buffer(&self) -> (r: &Vec<Rgb>)
        ensures
            r@ == self.frame(),
    {
        &self.frame_buffer
    }

    /// The depth buffer, each value the bit pattern of a double.
    pub fn depth_buffer(&self) -> (r: &Vec<u64>)
        ensures
            r@ == self.depth(),
    {
        &self.depth_buffer
    }

    /// The storage index of on-screen pixel `p`; `None` where it falls
    /// outside the buffer (screen row 0).
    fn get_index(&self, p: Point) -> (r: Option<usize>)
        requires
            self.wf(),
            0 <= p.x < self.width,
            0 <= p.y < self.height,
        ensures
            match r {
                Some(i) => i == pixel_index(self.width as int, self.height as int, p) && i
                    < self.frame_buffer@.len(),
                None => pixel_index(self.width as int, self.height as int, p)
                    >= self.frame_buffer@.len(),
            },
    {
        let w = self.width as u64;
        let rows = (self.height - p.y as u32) as u64;
        assert(rows * w <= self.width as int * self.height as int) by (nonlinear_arith)
            requires
                rows <= self.height,
                w == self.width,
        ;
        let index = rows * w + p.x as u64;
        if index < self.frame_buffer.len() as u64 {
            Some(index as usize)
        } else {
            None
        }
    }

    /// Writes `color` at `point`. A point off the screen, or one whose
    /// storage index falls outside the buffer, changes nothing.
    pub fn set_pixel(&mut self, point: Point, color: Rgb)
        requires
            old(self).wf(),
        ensures
            final(self).wf(),
            final(self).same_but_frame(&*old(self)),
            final(self).frame() == plot(
                old(self).spec_width(),
                old(self).spec_height(),
                old(self).frame(),
                point,
                color,
            ),
    {
        if point.x < 0 || point.y < 0 {
            return;
        }
        if point.x as u32 >= self.width || point.y as u32 >= self.height {
            return;
        }
        assert(0 <= pixel_index(self.width as int, self.height as int, point)) by (nonlinear_arith)
            requires
                0 <= point.y < self.height,
                0 <= point.x,
                self.width >= 0,
        ;
        match self.get_index(point) {
            Some(index) => {
                self.frame_buffer.set(index, color);
            },
            None => {},
        }
    }

    /// Draws the segment from `begin` to `end` in red, one pixel per unit
    /// step along the dominant axis (Bresenham's algorithm).
    pub fn draw_line(&mut self, begin: Point, end: Point)
        requires
            old(self).wf(),
        ensures
            final(self).wf(),
            final(self).same_but_frame(&*old(self)),
            final(self).frame() == paint(
                old(self).spec_width(),
                old(self).spec_height(),
                old(self).frame(),
                line_pixels(begin, end),
                red(),
            ),
    {
        let ghost before = *self;
        let ghost w = self.spec_width();
        let ghost h = self.spec_height();
        let ghost fb0 = self.frame();
        let ghost line = line_pixels(begin, end);
        let color = Rgb { r: 255, g: 0, b: 0 };
        let x1 = begin.x as i64;
        let y1 = begin.y as i64;
        let x2 = end.x as i64;
        let y2 = end.y as i64;
        let dx = x2 - x1;
        let dy = y2 - y1;
        let dx1 = if dx < 0 { -dx } else { dx };
        let dy1 = if dy < 0 { -dy } else { dy };
        let same = (dx < 0 && dy < 0) || (dx > 0 && dy > 0);
        assert(dx1 == abs(dx as int) && dy1 == abs(dy as int));
        assert(same == same_direction(dx as int, dy as int));
        if dy1 <= dx1 {
            let (x0, y0, xe, ye) = if dx >= 0 {
                (x1, y1, x2, y2)
            } else {
                (x2, y2, x1, y1)
            };
            assert(xe == x0 + dx1);
            assert(dy1 == 0 || (same ==> ye == y0 + dy1) && (!same ==> ye == y0 - dy1));
            let mut x = x0;
            let mut y = y0;
            let mut px: i64 = 2 * dy1 - dx1;
            let ghost mut q: int = 0;
            proof {
                if dx1 > 0 {
                    lemma_step_start(dx1 as int, dy1 as int, 0, x - x0);
                }
                assert(line.len() == dx1 + 1);
                assert(x_major_offset(0, dx1 as int, dy1 as int) == 0);
                assert(line[0].x == x0);
                assert(line[0].y == y0);
                assert(line[0] == Point { x: x0 as i32, y: y0 as i32 });
            }
            self.set_pixel(Point { x: x0 as i32, y: y0 as i32 }, color);
            proof {
                lemma_paint_next(w, h, fb0, line, 0, red());
                assert(line.take(0) =~= Seq::<Point>::empty());
            }
            while x < xe
                invariant
                    self.wf(),
                    self.same_but_frame(&before),
                    w == self.spec_width(),
                    h == self.spec_height(),
                    line == line_pixels(begin, end),
                    color == red(),
                    line.len() == dx1 + 1,
                    0 <= dy1 <= dx1,
                    dx1 <= 0x1_0000_0000,
                    xe == x0 + dx1,
                    x0 <= x <= xe,
                    x0 == (if dx >= 0 { begin.x } else { end.x }),
                    y0 == (if dx >= 0 { begin.y } else { end.y }),
                    i32::MIN <= xe <= i32::MAX,
                    i32::MIN <= y0 <= i32::MAX,
                    dy1 == 0 || (same ==> ye == y0 + dy1) && (!same ==> ye == y0 - dy1),
                    i32::MIN <= ye <= i32::MAX,
                    same == same_direction(dx as int, dy as int),
                    dx == end.x - begin.x,
                    dy == end.y - begin.y,
                    dx1 == abs(dx as int),
                    dy1 == abs(dy as int),
                    0 <= q <= dy1,
                    y == (if same { y0 + q } else { y0 - q }),
                    dx1 > 0 ==> 2 * dx1 * q <= 2 * (x - x0) * dy1 + dx1 - 0 < 2 * dx1 * q + 2 * dx1,
                    px == 2 * ((x - x0) + 1) * dy1 - dx1 - 2 * dx1 * q,
                    q == x_major_offset(x - x0, dx1 as int, dy1 as int),
                    self.frame() == paint(w, h, fb0, line.take(x - x0 + 1), red()),
                decreases xe - x,
            {
                let ghost k = x - x0;
                proof {
                    lemma_step(k, dx1 as int, dy1 as int, 0, q, px as int);
                }
                x = x + 1;
                if px < 0 {
                    px = px + 2 * dy1;
                } else {
                    if same {
                        y = y + 1;
                    } else {
                        y = y - 1;
                    }
                    px = px + 2 * (dy1 - dx1);
                    proof {
                        q = q + 1;
                    }
                }
                proof {
                    assert(line[k + 1] == Point { x: x as i32, y: y as i32 });
                }
                self.set_pixel(Point { x: x as i32, y: y as i32 }, color);
                proof {
                    lemma_paint_next(w, h, fb0, line, k + 1, red());
                }
            }
            proof {
                assert(line.take(dx1 + 1) =~= line);
            }
        } else {
            let (x0, y0, xe, ye) = if dy >= 0 {
                (x1, y1, x2, y2)
            } else {
                (x2, y2, x1, y1)
            };
            assert(ye == y0 + dy1);
            assert(dx1 == 0 || (same ==> xe == x0 + dx1) && (!same ==> xe == x0 - dx1));
            let mut x = x0;
            let mut y = y0;
            let mut py: i64 = 2 * dx1 - dy1;
            let ghost mut q: int = 0;
            proof {
                lemma_step_start(dy1 as int, dx1 as int, 1, y - y0);
                assert(line[0] == Point { x: x0 as i32, y: y0 as i32 });
            }
            self.set_pixel(Point { x: x0 as i32, y: y0 as i32 }, color);
            proof {
                lemma_paint_next(w, h, fb0, line, 0, red());
                assert(line.take(0) =~= Seq::<Point>::empty());
            }
            while y < ye
                invariant
                    self.wf(),
                    self.same_but_frame(&before),
                    w == self.spec_width(),
                    h == self.spec_height(),
                    line == line_pixels(begin, end),
                    color == red(),
                    line.len() == dy1 + 1,
                    0 <= dx1 < dy1,
                    dy1 <= 0x1_0000_0000,
                    ye == y0 + dy1,
                    y0 <= y <= ye,
                    x0 == (if dy >= 0 { begin.x } else { end.x }),
                    y0 == (if dy >= 0 { begin.y } else { end.y }),
                    i32::MIN <= ye <= i32::MAX,
                    i32::MIN <= x0 <= i32::MAX,
                    dx1 == 0 || (same ==> xe == x0 + dx1) && (!same ==> xe == x0 - dx1),
                    i32::MIN <= xe <= i32::MAX,
                    same == same_direction(dx as int, dy as int),
                    dx == end.x - begin.x,
                    dy == end.y - begin.y,
                    dx1 == abs(dx as int),
                    dy1 == abs(dy as int),
                    0 <= q <= dx1,
                    x == (if same { x0 + q } else { x0 - q }),
                    2 * dy1 * q <= 2 * (y - y0) * dx1 + dy1 - 1 < 2 * dy1 * q + 2 * dy1,
                    py == 2 * ((y - y0) + 1) * dx1 - dy1 - 2 * dy1 * q,
                    q == y_major_offset(y - y0, dx1 as int, dy1 as int),
                    self.frame() == paint(w, h, fb0, line.take(y - y0 + 1), red()),
                decreases ye - y,
            {
                let ghost k = y - y0;
                proof {
                    lemma_step(k, dy1 as int, dx1 as int, 1, q, py as int);
                }
                y = y + 1;
                if py <= 0 {
                    py = py + 2 * dx1;
                } else {
                    if same {
                        x = x + 1;
                    } else {
                        x = x - 1;
                    }
                    py = py + 2 * (dx1 - dy1);
                    proof {
                        q = q + 1;
                    }
                }
                proof {
                    assert(line[k + 1] == Point { x: x as i32, y: y as i32 });
                }
                self.set_pixel(Point { x: x as i32, y: y as i32 }, color);
                proof {
                    lemma_paint_next(w, h, fb0, line, k + 1, red());
                }
            }
            proof {
                assert(line.take(dy1 + 1) =~= line);
            }
        }
    }

    /// Draws the three edges of `t` in red: c to a, c to b, then b to a.
    pub fn rasterize_wireframe(&mut self, t: &Triangle)
        requires
            old(self).wf(),
        ensures
            final(self).wf(),
            final(self).same_but_frame(&*old(self)),
            final(self).frame() == paint(
                old(self).spec_width(),
                old(self).spec_height(),
                old(self).frame(),
                wireframe_pixels(t.vertices@[0], t.vertices@[1], t.vertices@[2]),
                red(),
            ),
    {
        let ghost w = self.spec_width();
        let ghost h = self.spec_height();
        let ghost fb0 = self.frame();
        let ghost l1 = line_pixels(t.vertices@[2], t.vertices@[0]);
        let ghost l2 = line_pixels(t.vertices@[2], t.vertices@[1]);
        let ghost l3 = line_pixels(t.vertices@[1], t.vertices@[0]);
        self.draw_line(t.c(), t.a());
        self.draw_line(t.c(), t.b());
        self.draw_line(t.b(), t.a());
        proof {
            lemma_paint_append(w, h, fb0, l1, l2, red());
            lemma_paint_append(w, h, fb0, l1 + l2, l3, red());
        }
    }

    /// Draws each face of the index buffer `ind_buf` as a wireframe triangle,
    /// where `screen[i]` is where vertex `i` of `vert_buf` lands on the
    /// screen. Each triangle carries red, green and blue vertex colours; its
    /// edges are drawn in red.
    fn draw_triangle(&mut self, vert_buf: &VertexBufferId, ind_buf: &IndexBufferId, screen: &Vec<Point>)
        requires
            old(self).wf(),
            old(self).vertex_buffers().contains_key(vert_buf.0),
            old(self).index_buffers().contains_key(ind_buf.0),
            screen@.len() == old(self).vertex_buffers()[vert_buf.0].len(),
            faces_in_range(old(self).index_buffers()[ind_buf.0], screen@.len()),
        ensures
            final(self).wf(),
            final(self).same_but_frame(&*old(self)),
            final(self).frame() == paint(
                old(self).spec_width(),
                old(self).spec_height(),
                old(self).frame(),
                mesh_pixels(screen@, old(self).index_buffers()[ind_buf.0]),
                red(),
            ),
    {
        let ghost before = *self;
        let ghost w = self.spec_width();
        let ghost h = self.spec_height();
        let ghost fb0 = self.frame();
        let ghost faces = self.index_buffers()[ind_buf.0];
        let count = self.indices.get(&ind_buf.0).unwrap().len();
        let mut t: usize = 0;
        while t < count
            invariant
                self.wf(),
                self.same_but_frame(&before),
                w == self.spec_width(),
                h == self.spec_height(),
                self.index_buffers().contains_key(ind_buf.0),
                faces == self.index_buffers()[ind_buf.0],
                count == faces.len(),
                faces_in_range(faces, screen@.len()),
                t <= count,
                self.frame() == paint(w, h, fb0, mesh_pixels(screen@, faces.take(t as int)), red()),
            decreases count - t,
        {
            let face = self.indices.get(&ind_buf.0).unwrap()[t];
            assert(face == faces[t as int]);
            let mut triangle = Triangle::default();
            triangle.set_vertex(0, screen[face.0 as usize]);
            triangle.set_vertex(1, screen[face.1 as usize]);
            triangle.set_vertex(2, screen[face.2 as usize]);
            triangle.set_color(0, Rgb { r: 255, g: 0, b: 0 });
            triangle.set_color(1, Rgb { r: 0, g: 255, b: 0 });
            triangle.set_color(2, Rgb { r: 0, g: 0, b: 255 });
            let ghost mid = self.frame();
            self.rasterize_wireframe(&triangle);
            proof {
                let done = faces.take(t as int);
                let wire = wireframe_pixels(
                    screen@[face.0 as int],
                    screen@[face.1 as int],
                    screen@[face.2 as int],
                );
                assert(faces.take(t + 1).drop_last() =~= done);
                assert(faces.take(t + 1).last() == face);
                assert(mesh_pixels(screen@, faces.take(t + 1)) == mesh_pixels(screen@, done) + wire);
                lemma_paint_append(w, h, fb0, mesh_pixels(screen@, done), wire, red());
            }
            t = t + 1;
        }
        proof {
            assert(faces.take(count as int) =~= faces);
        }
    }

    /// Draws the index buffer `ind_buf` over the vertex buffer `vert_buf` as
    /// `primitive`; `screen[i]` is where vertex `i` lands on the screen. Only
    /// triangles are drawn: a line list is not a primitive this rasterizer
    /// implements.
    pub fn draw(
        &mut self,
        vert_buf: &VertexBufferId,
        ind_buf: &IndexBufferId,
        primitive: Primitive,
        screen: &Vec<Point>,
    )
        requires
            old(self).wf(),
            primitive == Primitive::Triangle,
            old(self).vertex_buffers().contains_key(vert_buf.0),
            old(self).index_buffers().contains_key(ind_buf.0),
            screen@.len() == old(self).vertex_buffers()[vert_buf.0].len(),
            faces_in_range(old(self).index_buffers()[ind_buf.0], screen@.len()),
        ensures
            final(self).wf(),
            final(self).same_but_frame(&*old(self)),
            final(self).frame() == paint(
                old(self).spec_width(),
                old(self).spec_height(),
                old(self).frame(),
                mesh_pixels(screen@, old(self).index_buffers()[ind_buf.0]),
                red(),
            ),
    {
        match primitive {
            Primitive::Triangle => self.draw_triangle(vert_buf, ind_buf, screen),
            Primitive::Line => {},
        }
    }

    /// Resets the buffers named in `buffers`: the frame buffer to black, the
    /// depth buffer to zero. The other buffer is left as it was.
    pub fn clear(&mut self, buffers: Buffers)
        requires
            old(self).wf(),
        ensures
            final(self).wf(),
            final(self).spec_width() == old(self).spec_width(),
            final(self).spec_height() == old(self).spec_height(),
            final(self).vertex_buffers() == old(self).vertex_buffers(),
            final(self).index_buffers() == old(self).index_buffers(),
            final(self).next_handle() == old(self).next_handle(),
            final(self).frame() == if buffers.color {
                Seq::new(old(self).frame().len(), |i: int| black())
            } else {
                old(self).frame()
            },
            final(self).depth() == if buffers.depth {
                Seq::new(old(self).depth().len(), |i: int| 0u64)
            } else {
                old(self).depth()
            },
    {
        let n = (self.width * self.height) as usize;
        if buffers.contains(Buffers::color()) {
            self.frame_buffer = filled_frame(n);
        }
        if buffers.contains(Buffers::depth()) {
            self.depth_buffer = filled_depth(n);
        }
    }

    /// The frame buffer as bytes: red, green and blue of each pixel in
    /// storage order.
    pub fn as_raw_data(&self) -> (r: Vec<u8>)
        requires
            self.wf(),
            3 * self.frame().len() <= usize::MAX,
        ensures
            r@.len() == 3 * self.frame().len(),
            forall|i: int|
                0 <= i < self.frame().len() ==> {
                    &&& #[trigger] r@[3 * i] == self.frame()[i].r
                    &&& r@[3 * i + 1] == self.frame()[i].g
                    &&& r@[3 * i + 2] == self.frame()[i].b
                },
    {
        let mut out: Vec<u8> = Vec::new();
        let mut i: usize = 0;
        while i < self.frame_buffer.len()
            invariant
                self.wf(),
                3 * self.frame_buffer@.len() <= usize::MAX,
                i <= self.frame_buffer@.len(),
                out@.len() == 3 * i,
                forall|j: int|
                    0 <= j < i ==> {
                        &&& #[trigger] out@[3 * j] == self.frame_buffer@[j].r
                        &&& out@[3 * j + 1] == self.frame_buffer@[j].g
                        &&& out@[3 * j + 2] == self.frame_buffer@[j].b
                    },
            decreases self.frame_buffer@.len() - i,
        {
            let ghost prev = out@;
            let c = self.frame_buffer[i];
            out.push(c.r);
            out.push(c.g);
            out.push(c.b);
            assert forall|j: int| 0 <= j < i + 1 implies {
                &&& #[trigger] out@[3 * j] == self.frame_buffer@[j].r
                &&& out@[3 * j + 1] == self.frame_buffer@[j].g
                &&& out@[3 * j + 2] == self.frame_buffer@[j].b
            } by {
                if j < i {
                    assert(out@[3 * j] == prev[3 * j]);
                    assert(out@[3 * j + 1] == prev[3 * j + 1]);
                    assert(out@[3 * j + 2] == prev[3 * j + 2]);
                }
            }
            i = i + 1;
        }
        out
    }
}

/// A vertex buffer just loaded is found under its handle, equal element for
/// element to what was loaded, and every buffer loaded before it is still
/// found unchanged.
pub proof fn lemma_vertices_found<V>(
    before: Rasterizer<V>,
    after: Rasterizer<V>,
    id: VertexBufferId,
    vertex: Seq<V>,
)
    requires
        Rasterizer::load_step(&before, &after, id.0),
        after.vertex_buffers() == before.vertex_buffers().insert(id.0, vertex),
    ensures
        after.vertex_buffers().contains_key(id.0),
        after.vertex_buffers()[id.0] == vertex,
        forall|k: u32|
            #[trigger] before.vertex_buffers().contains_key(k) ==> k != id.0
                && after.vertex_buffers().contains_key(k) && after.vertex_buffers()[k]
                == before.vertex_buffers()[k],
{
}

/// An index buffer just loaded is found under its handle, equal element for
/// element to what was loaded, and every buffer loaded before it is still
/// found unchanged.
pub proof fn lemma_indices_found<V>(
    before: Rasterizer<V>,
    after: Rasterizer<V>,
    id: IndexBufferId,
    index: Seq<Face>,
)
    requires
        Rasterizer::load_step(&before, &after, id.0),
        after.index_buffers() == before.index_buffers().insert(id.0, index),
    ensures
        after.index_buffers().contains_key(id.0),
        after.index_buffers()[id.0] == index,
        forall|k: u32|
            #[trigger] before.index_buffers().contains_key(k) ==> k != id.0
                && after.index_buffers().contains_key(k) && after.index_buffers()[k]
                == before.index_buffers()[k],
{
}

proof fn lemma_handles_count<V>(states: Seq<Rasterizer<V>>, ids: Seq<u32>, i: int)
    requires
        states.len() == ids.len() + 1,
        forall|j: int|
            0 <= j < ids.len() ==> Rasterizer::load_step(
                &#[trigger] states[j],
                &states[j + 1],
                ids[j],
            ),
        0 <= i < states.len(),
    ensures
        states[i].next_handle() == states[0].next_handle() + i,
    decreases i,
{
    if i > 0 {
        lemma_handles_count(states, ids, i - 1);
        assert(Rasterizer::load_step(&states[i - 1], &states[i], ids[i - 1]));
    }
}

/// The handles returned by consecutive loads, of vertex or index buffers in
/// any mix, are strictly increasing, hence all distinct.
pub proof fn lemma_handles_increase<V>(states: Seq<Rasterizer<V>>, ids: Seq<u32>)
    requires
        states.len() == ids.len() + 1,
        forall|j: int|
            0 <= j < ids.len() ==> Rasterizer::load_step(
                &#[trigger] states[j],
                &states[j + 1],
                ids[j],
            ),
    ensures
        forall|i: int, j: int| 0 <= i < j < ids.len() ==> ids[i] < ids[j],
{
    assert forall|i: int, j: int| 0 <= i < j < ids.len() implies ids[i] < ids[j] by {
        lemma_handles_count(states, ids, i);
        lemma_handles_count(states, ids, j);
        assert(Rasterizer::load_step(&states[i], &states[i + 1], ids[i]));
        assert(Rasterizer::load_step(&states[j], &states[j + 1], ids[j]));
    }
}

/// `n` black pixels.
fn filled_frame(n: usize) -> (r: Vec<Rgb>)
    ensures
        r@ == Seq::new(n as nat, |i: int| black()),
{
    let mut v: Vec<Rgb> = Vec::new();
    let mut i: usize = 0;
    while i < n
        invariant
            i <= n,
            v@ == Seq::new(i as nat, |j: int| black()),
        decreases n - i,
    {
        v.push(Rgb { r: 0, g: 0, b: 0 });
        i = i + 1;
        assert(v@ =~= Seq::new(i as nat, |j: int| black()));
    }
    v
}

/// `n` depth values of +0.0.
fn filled_depth(n: usize) -> (r: Vec<u64>)
    ensures
        r@ == Seq::new(n as nat, |i: int| 0u64),
{
    let mut v: Vec<u64> = Vec::new();
    let mut i: usize = 0;
    while i < n
        invariant
            i <= n,
            v@ == Seq::new(i as nat, |j: int| 0u64),
        decreases n - i,
    {
        v.push(0);
        i = i + 1;
        assert(v@ =~= Seq::new(i as nat, |j: int| 0u64));
    }
    v
}

} // verus!
