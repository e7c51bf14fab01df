use vstd::prelude::*;

verus! {

/// A pixel rectangle of a source image.
#[derive(Clone, Copy, PartialEq, Eq, Structural, Debug, Default)]
pub struct SrcRect {
    pub x: u32,
    pub y: u32,
    pub w: u32,
    pub h: u32,
}

/// Which axes to mirror an image along.
#[derive(Clone, Copy, PartialEq, Eq, Structural, Debug, Default)]
pub struct Flip {
    pub x: bool,
    pub y: bool,
}

impl Flip {
    /// No mirroring.
    pub fn none() -> (f: Flip)
        ensures
            f == (Flip { x: false, y: false }),
    {
        Flip { x: false, y: false }
    }

    /// Mirror left to right only.
    pub fn horizontal() -> (f: Flip)
        ensures
            f == (Flip { x: true, y: false }),
    {
        Flip { x: true, y: false }
    }

    /// Mirror top to bottom only.
    pub fn vertical() -> (f: Flip)
        ensures
            f == (Flip { x: false, y: true }),
    {
        Flip { x: false, y: true }
    }

    /// Mirror along both axes.
    pub fn both() -> (f: Flip)
        ensures
            f == (Flip { x: true, y: true }),
    {
        Flip { x: true, y: true }
    }

    /// The mirroring for the given flags.
    pub fn new(x: bool, y: bool) -> (f: Flip)
        ensures
            f == (Flip { x, y }),
    {
        Flip { x, y }
    }
}

/// How to draw an image: the whole of it, a part of it, or a part of it
/// mirrored.
#[derive(Clone, Copy, PartialEq, Eq, Structural, Debug)]
pub enum ImageDraw {
    /// The full image at its own size.
    Whole,
    /// The part `src`, at its own size.
    Region { src: SrcRect },
    /// The part `src`, at its own size, mirrored as `flip` says.
    Mirrored { src: SrcRect, flip: Flip },
}

/// What a primitive in an indirect draw is made of.
#[derive(Clone, Copy, PartialEq, Eq, Structural, Debug)]
pub enum PrimitiveKind {
    Point,
    Triangle,
}

impl PrimitiveKind {
    /// Vertices per primitive.
    pub fn num_vertices(&self) -> (n: u32)
        ensures
            n == (match self {
                PrimitiveKind::Point => 1u32,
                PrimitiveKind::Triangle => 3u32,
            }),
    {
        match self {
            PrimitiveKind::Point => 1,
            PrimitiveKind::Triangle => 3,
        }
    }
}

/// Arguments of one indirect draw.
#[derive(Clone, Copy, PartialEq, Eq, Structural, Debug)]
pub struct DrawIndirectArgs {
    pub primitive: PrimitiveKind,
    pub vertex_count: u32,
    pub instance_count: u32,
    pub first_vertex: u32,
    pub first_instance: u32,
}

} // verus!
