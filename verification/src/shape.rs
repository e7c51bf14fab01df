use vstd::prelude::*;

verus! {

/// `pattern` with `base` added to every entry.
pub open spec fn offset_indices(pattern: Seq<u32>, base: u32) -> Seq<u32> {
    pattern.map_values(|i: u32| (base + i) as u32)
}

/// Whether adding `base` to every entry of `pattern` stays in 32 bits.
pub open spec fn offsets_fit(pattern: Seq<u32>, base: u32) -> bool {
    forall|i: int| 0 <= i < pattern.len() ==> base + #[trigger] pattern[i] <= u32::MAX
}

/// Indexed geometry for one frame: a vertex list and an index list into it.
#[derive(Clone, Debug)]
pub struct Shape<V: Copy> {
    vertices: Vec<V>,
    indices: Vec<u32>,
}

impl<V: Copy> Shape<V> {
    /// The vertices, in push order.
    pub closed spec fn spec_vertices(&self) -> Seq<V> {
        self.vertices@
    }

    /// The indices, in push order.
    pub closed spec fn spec_indices(&self) -> Seq<u32> {
        self.indices@
    }

    /// An empty shape.
    pub fn new() -> (s: Shape<V>)
        ensures
            s.spec_vertices() == Seq::<V>::empty(),
            s.spec_indices() == Seq::<u32>::empty(),
    {
        Shape { vertices: Vec::new(), indices: Vec::new() }
    }

    /// Whether there is nothing to draw: no indices.
    pub fn is_empty(&self) -> (b: bool)
        ensures
            b == (self.spec_indices().len() == 0),
    {
        self.indices.is_empty()
    }

    /// Number of indices.
    pub fn len(&self) -> (n: usize)
        ensures
            n == self.spec_indices().len(),
    {
        self.indices.len()
    }

    /// The vertices.
    pub fn vertices(&self) -> (v: &[V])
        ensures
            v@ == self.spec_vertices(),
    {
        self.vertices.as_slice()
    }

    /// The indices.
    pub fn indices(&self) -> (v: &[u32])
        ensures
            v@ == self.spec_indices(),
    {
        self.indices.as_slice()
    }

    /// Append `vertices`, and `pattern` with every entry offset by the
    /// number of vertices there were before (taken as a 32-bit count), so
    /// that `pattern` indexes into the vertices just added.
    pub fn push(&mut self, vertices: &[V], pattern: &[u32])
        requires
            offsets_fit(pattern@, old(self).spec_vertices().len() as u32),
        ensures
            final(self).spec_vertices() == old(self).spec_vertices() + vertices@,
            final(self).spec_indices() == old(self).spec_indices() + offset_indices(
                pattern@,
                old(self).spec_vertices().len() as u32,
            ),
    {
        let base = self.vertices.len() as u32;
        let ghost old_vertices = self.vertices@;
        let ghost old_indices = self.indices@;
        let mut i: usize = 0;
        while i < vertices.len()
            invariant
                i <= vertices@.len(),
                self.vertices@ == old_vertices + vertices@.take(i as int),
                self.indices@ == old_indices,
                base == old_vertices.len() as u32,
            decreases vertices@.len() - i,
        {
            self.vertices.push(vertices[i]);
            assert(vertices@.take(i + 1) == vertices@.take(i as int).push(vertices@[i as int]));
            i = i + 1;
        }
        assert(vertices@.take(vertices@.len() as int) =~= vertices@);
        assert(offset_indices(pattern@.take(0), base) =~= Seq::<u32>::empty());
        assert(self.indices@ =~= old_indices + offset_indices(pattern@.take(0), base));
        let mut j: usize = 0;
        while j < pattern.len()
            invariant
                j <= pattern@.len(),
                offsets_fit(pattern@, base),
                self.indices@ == old_indices + offset_indices(pattern@.take(j as int), base),
                self.vertices@ == old_vertices + vertices@,
            decreases pattern@.len() - j,
        {
            let p = pattern[j];
            assert(base + pattern@[j as int] <= u32::MAX);
            self.indices.push(base + p);
            assert(offset_indices(pattern@.take(j + 1), base) =~= offset_indices(pattern@.take(j as int), base).push(
                (base + p) as u32,
            ));
            j = j + 1;
        }
        assert(pattern@.take(pattern@.len() as int) =~= pattern@);
    }

    /// Drop all vertices and indices.
    pub fn clear(&mut self)
        ensures
            final(self).spec_vertices() == Seq::<V>::empty(),
            final(self).spec_indices() == Seq::<u32>::empty(),
    {
        self.vertices.clear();
        self.indices.clear();
    }
}

impl<V: Copy> Default for Shape<V> {
    fn default() -> (s: Shape<V>)
        ensures
            s.spec_vertices() == Seq::<V>::empty(),
            s.spec_indices() == Seq::<u32>::empty(),
    {
        Shape::new()
    }
}

/// Whether every index of `indices` refers to one of `n` vertices.
pub open spec fn indices_in_range(indices: Seq<u32>, n: int) -> bool {
    forall|i: int| 0 <= i < indices.len() ==> #[trigger] indices[i] < n
}

/// When every pattern entry indexes into the vertices pushed with it, and
/// the shape's indices were in range before, they are in range after the
/// push.
pub proof fn lemma_push_keeps_indices_in_range<V>(
    old_vertices: Seq<V>,
    old_indices: Seq<u32>,
    vertices: Seq<V>,
    pattern: Seq<u32>,
)
    requires
        indices_in_range(old_indices, old_vertices.len() as int),
        indices_in_range(pattern, vertices.len() as int),
        old_vertices.len() <= u32::MAX,
        offsets_fit(pattern, old_vertices.len() as u32),
    ensures
        indices_in_range(
            old_indices + offset_indices(pattern, old_vertices.len() as u32),
            (old_vertices + vertices).len() as int,
        ),
{
    let all = old_indices + offset_indices(pattern, old_vertices.len() as u32);
    assert forall|i: int| 0 <= i < all.len() implies #[trigger] all[i] < (old_vertices + vertices).len() by {
        if i >= old_indices.len() {
            let k = i - old_indices.len();
            assert(all[i] == (old_vertices.len() as u32 + pattern[k]) as u32);
        }
    }
}

/// Two triangles covering a quad whose corners are pushed clockwise from
/// the top-left: `0-1-2` and `0-2-3`.
pub fn quad_pattern() -> (p: [u32; 6])
    ensures
        p@ == seq![0u32, 1, 2, 0, 2, 3],
{
    [0, 1, 2, 0, 2, 3]
}

/// One triangle: `0-1-2`.
pub fn triangle_pattern() -> (p: [u32; 3])
    ensures
        p@ == seq![0u32, 1, 2],
{
    [0, 1, 2]
}

/// One line segment: `0-1`.
pub fn line_pattern() -> (p: [u32; 2])
    ensures
        p@ == seq![0u32, 1],
{
    [0, 1]
}

/// The outline of a quad as four line segments: top, right, bottom, left.
pub fn rect_outline_pattern() -> (p: [u32; 8])
    ensures
        p@ == seq![0u32, 1, 1, 2, 2, 3, 3, 0],
{
    [0, 1, 1, 2, 2, 3, 3, 0]
}

/// Two triangles covering a glyph quad whose corners are pushed as
/// top-left, top-right, bottom-left, bottom-right: `0-2-1` and `1-2-3`.
pub fn glyph_quad_pattern() -> (p: [u32; 6])
    ensures
        p@ == seq![0u32, 2, 1, 1, 2, 3],
{
    [0, 2, 1, 1, 2, 3]
}

} // verus!
