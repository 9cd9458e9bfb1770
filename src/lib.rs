use vstd::prelude::*;

pub mod geometry;
pub mod rasterizer;
pub mod triangle;

verus! {

} // verus!
