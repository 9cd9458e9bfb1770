use vstd::prelude::*;

use crate::geometry::{Point, Rgb};

verus! {

/// A triangle in screen space: three vertex positions and a colour for each.
#[derive(Clone, Copy, Debug)]
pub struct Triangle {
    pub vertices: [Point; 3],
    pub color: [Rgb; 3],
}

impl Default for Triangle {
    fn default() -> (t: Triangle)
        ensures
            forall|i: int| 0 <= i < 3 ==> t.vertices@[i] == (Point { x: 0, y: 0 }),
            forall|i: int| 0 <= i < 3 ==> t.color@[i] == (Rgb { r: 0, g: 0, b: 0 }),
    {
        let p = Point { x: 0, y: 0 };
        let c = Rgb { r: 0, g: 0, b: 0 };
        Triangle { vertices: [p, p, p], color: [c, c, c] }
    }
}

impl Triangle {
    pub fn a(&self) -> (r: Point)
        ensures
            r == self.vertices@[0],
    {
        self.vertices[0]
    }

    pub fn b(&self) -> (r: Point)
        ensures
            r == self.vertices@[1],
    {
        self.vertices[1]
    }

    pub fn c(&self) -> (r: Point)
        ensures
            r == self.vertices@[2],
    {
        self.vertices[2]
    }

    /// Replaces vertex `index` (0, 1 or 2).
    pub fn set_vertex(&mut self, index: usize, vertex: Point)
        requires
            index < 3,
        ensures
            final(self).vertices@ == old(self).vertices@.update(index as int, vertex),
            final(self).color == old(self).color,
    {
        let v = self.vertices;
        self.vertices = if index == 0 {
            [vertex, v[1], v[2]]
        } else if index == 1 {
            [v[0], vertex, v[2]]
        } else {
            [v[0], v[1], vertex]
        };
        assert(self.vertices@ =~= v@.update(index as int, vertex));
    }

    /// Replaces the colour of vertex `index` (0, 1 or 2).
    pub fn set_color(&mut self, index: usize, color: Rgb)
        requires
            index < 3,
        ensures
            final(self).color@ == old(self).color@.update(index as int, color),
            final(self).vertices == old(self).vertices,
    {
        let c = self.color;
        self.color = if index == 0 {
            [color, c[1], c[2]]
        } else if index == 1 {
            [c[0], color, c[2]]
        } else {
            [c[0], c[1], color]
        };
        assert(self.color@ =~= c@.update(index as int, color));
    }
}

} // verus!
