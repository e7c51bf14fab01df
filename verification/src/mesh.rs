use vstd::prelude::*;

use crate::shape::{indices_in_range, offset_indices};

verus! {

/// Index list of the unit rectangle mesh (corners pushed as (0,0), (1,0),
/// (0,1), (1,1)): two triangles `0-2-1` and `1-2-3`.
pub fn rectangle_indices() -> (v: Vec<u32>)
    ensures
        v@ == seq![0u32, 2, 1, 1, 2, 3],
        indices_in_range(v@, 4),
        v@.len() % 3 == 0,
{
    let v = vec![0, 2, 1, 1, 2, 3];
    assert(v@ == seq![0u32, 2, 1, 1, 2, 3]);
    v
}

/// Index list of a quad whose corners are pushed counter-clockwise from
/// (0,0): two triangles `0-1-2` and `2-3-0`.
pub fn unit_rect_indices() -> (v: Vec<u32>)
    ensures
        v@ == seq![0u32, 1, 2, 2, 3, 0],
        indices_in_range(v@, 4),
        v@.len() % 3 == 0,
{
    let v = vec![0, 1, 2, 2, 3, 0];
    assert(v@ == seq![0u32, 1, 2, 2, 3, 0]);
    v
}

/// The cube mesh's index list: eight shared corners (front face 0-3 at
/// z = +1/2, back face 4-7 at z = -1/2), two triangles per face.
pub fn cube_indices() -> (v: Vec<u32>)
    ensures
        v@ == seq![
            0u32, 1, 2, 2, 3, 0,
            1, 5, 6, 6, 2, 1,
            5, 4, 7, 7, 6, 5,
            4, 0, 3, 3, 7, 4,
            3, 2, 6, 6, 7, 3,
            4, 5, 1, 1, 0, 4,
        ],
        indices_in_range(v@, 8),
        v@.len() == 36,
{
    let v = vec![
        0, 1, 2, 2, 3, 0,
        1, 5, 6, 6, 2, 1,
        5, 4, 7, 7, 6, 5,
        4, 0, 3, 3, 7, 4,
        3, 2, 6, 6, 7, 3,
        4, 5, 1, 1, 0, 4,
    ];
    assert(v@ == seq![
        0u32, 1, 2, 2, 3, 0,
        1, 5, 6, 6, 2, 1,
        5, 4, 7, 7, 6, 5,
        4, 0, 3, 3, 7, 4,
        3, 2, 6, 6, 7, 3,
        4, 5, 1, 1, 0, 4,
    ]);
    v
}

/// Index `k` of the per-face cube list: face `k / 6`, corner pattern
/// `0-1-2 0-2-3` of that face's four vertices.
pub open spec fn face_cube_index(k: int) -> u32 {
    let base = 4 * (k / 6);
    let off = seq![0int, 1, 2, 0, 2, 3][k % 6];
    (base + off) as u32
}

/// Index list of a cube with four vertices per face (24 in all, face `f`
/// owning vertices `4f .. 4f + 3`): two triangles per face.
pub fn cube_face_indices() -> (v: Vec<u32>)
    ensures
        v@.len() == 36,
        forall|k: int| 0 <= k < 36 ==> #[trigger] v@[k] == face_cube_index(k),
        indices_in_range(v@, 24),
{
    let mut indices: Vec<u32> = Vec::with_capacity(36);
    let mut face: u32 = 0;
    while face < 6
        invariant
            face <= 6,
            indices@.len() == 6 * face,
            forall|k: int| 0 <= k < 6 * face ==> #[trigger] indices@[k] == face_cube_index(k),
        decreases 6 - face,
    {
        let base = face * 4;
        let ghost before = indices@;
        indices.push(base);
        indices.push(base + 1);
        indices.push(base + 2);
        indices.push(base);
        indices.push(base + 2);
        indices.push(base + 3);
        assert forall|k: int| 0 <= k < 6 * (face + 1) implies #[trigger] indices@[k] == face_cube_index(k) by {
            if k >= 6 * face {
                assert(k / 6 == face as int);
                assert(k % 6 == k - 6 * face);
            } else {
                assert(indices@[k] == before[k]);
            }
        }
        face = face + 1;
    }
    proof {
        assert forall|k: int| 0 <= k < indices@.len() implies #[trigger] indices@[k] < 24 by {
            assert(indices@[k] == face_cube_index(k));
            assert(0 <= k / 6 < 6);
        }
    }
    indices
}

/// One primitive of a mesh file: its vertices and, when it has them, its
/// indices (local to its own vertices).
#[derive(Clone, Debug)]
pub struct Primitive<V> {
    pub vertices: Vec<V>,
    pub indices: Option<Vec<u32>>,
}

/// The indices of a primitive, or none.
pub open spec fn primitive_indices<V>(p: Primitive<V>) -> Seq<u32> {
    match p.indices {
        Some(ix) => ix@,
        None => Seq::empty(),
    }
}

/// Merging primitives in order into one vertex list and one index list:
/// each primitive's indices are offset by the number of vertices before it
/// (a 32-bit running count). Also gives that running count.
pub open spec fn merged<V>(prims: Seq<Primitive<V>>) -> (Seq<V>, Seq<u32>, u32)
    decreases prims.len(),
{
    if prims.len() == 0 {
        (Seq::empty(), Seq::empty(), 0)
    } else {
        let (vs, ix, off) = merged(prims.drop_last());
        let p = prims.last();
        (vs + p.vertices@, ix + offset_indices(primitive_indices(p), off), (off + (p.vertices@.len() as u32)) as u32)
    }
}

/// Whether merging stays in 32 bits: every offset index and every running
/// vertex count fits.
pub open spec fn merge_fits<V>(prims: Seq<Primitive<V>>) -> bool
    decreases prims.len(),
{
    if prims.len() == 0 {
        true
    } else {
        let (_, _, off) = merged(prims.drop_last());
        let p = prims.last();
        &&& merge_fits(prims.drop_last())
        &&& forall|i: int| 0 <= i < primitive_indices(p).len() ==> off + #[trigger] primitive_indices(p)[i] <= u32::MAX
        &&& off + (p.vertices@.len() as u32) <= u32::MAX
    }
}

/// The type identifier of the standard library.
#[verifier::external_type_specification]
#[verifier::external_body]
pub struct ExTypeId(std::any::TypeId);

/// Identifies a kind of mesh by its Rust type.
#[derive(Clone, Copy, PartialEq, Eq, Hash, Debug)]
pub struct MeshId(std::any::TypeId);

/// `std::any::TypeId::of`: the identifier of a type. Nothing is claimed of
/// the value, which the compiler assigns.
pub assume_specification<T: ?Sized + 'static>[ std::any::TypeId::of::<T> ]() -> std::any::TypeId;

impl MeshId {
    /// The identifier of mesh type `M`.
    pub fn of<M: ?Sized + 'static>() -> MeshId {
        MeshId(std::any::TypeId::of::<M>())
    }
}

/// Loading of whole meshes from their primitives.
pub struct MeshManager;

impl MeshManager {
    /// Merge the primitives of a mesh, in order, into one vertex list and
    /// one index list; see [`merged`].
    pub fn merge_primitives<V: Copy>(prims: &[Primitive<V>]) -> (r: (Vec<V>, Vec<u32>))
        requires
            merge_fits(prims@),
        ensures
            r.0@ == merged(prims@).0,
            r.1@ == merged(prims@).1,
    {
        let mut all_vertices: Vec<V> = Vec::new();
        let mut all_indices: Vec<u32> = Vec::new();
        let mut vertex_offset: u32 = 0;
        let mut k: usize = 0;
        while k < prims.len()
            invariant
                k <= prims@.len(),
                merge_fits(prims@.take(k as int)) || k == 0,
                merge_fits(prims@),
                merged(prims@.take(k as int)) == (all_vertices@, all_indices@, vertex_offset),
            decreases prims@.len() - k,
        {
            proof {
                lemma_merge_fits_prefix(prims@, k as int + 1);
                assert(prims@.take(k + 1).drop_last() =~= prims@.take(k as int));
                assert(prims@.take(k + 1).last() == prims@[k as int]);
            }
            let p = &prims[k];
            match &p.indices {
                Some(ix) => {
                    let ghost before = all_indices@;
                    let mut j: usize = 0;
                    while j < ix.len()
                        invariant
                            j <= ix@.len(),
                            forall|i: int| 0 <= i < ix@.len() ==> vertex_offset + #[trigger] ix@[i] <= u32::MAX,
                            all_indices@ == before + offset_indices(ix@.take(j as int), vertex_offset),
                        decreases ix@.len() - j,
                    {
                        assert(vertex_offset + ix@[j as int] <= u32::MAX);
                        all_indices.push(ix[j] + vertex_offset);
                        assert(offset_indices(ix@.take(j + 1), vertex_offset) =~= offset_indices(ix@.take(j as int), vertex_offset).push(
                            (vertex_offset + ix@[j as int]) as u32,
                        ));
                        j = j + 1;
                    }
                    assert(ix@.take(ix@.len() as int) =~= ix@);
                },
                None => {
                    assert(offset_indices(Seq::<u32>::empty(), vertex_offset) =~= Seq::<u32>::empty());
                    assert(all_indices@ =~= all_indices@ + offset_indices(Seq::<u32>::empty(), vertex_offset));
                },
            }
            let ghost vbefore = all_vertices@;
            let mut i: usize = 0;
            while i < p.vertices.len()
                invariant
                    i <= p.vertices@.len(),
                    all_vertices@ == vbefore + p.vertices@.take(i as int),
                decreases p.vertices@.len() - i,
            {
                all_vertices.push(p.vertices[i]);
                assert(p.vertices@.take(i + 1) == p.vertices@.take(i as int).push(p.vertices@[i as int]));
                i = i + 1;
            }
            assert(p.vertices@.take(p.vertices@.len() as int) =~= p.vertices@);
            vertex_offset = vertex_offset + p.vertices.len() as u32;
            k = k + 1;
        }
        assert(prims@.take(prims@.len() as int) =~= prims@);
        (all_vertices, all_indices)
    }
}

impl MeshManager {
    /// Whether merging `prims` stays in 32 bits; see [`merge_fits`].
    pub fn merge_fits<V: Copy>(prims: &[Primitive<V>]) -> (b: bool)
        ensures
            b == merge_fits(prims@),
    {
        let mut offset: u32 = 0;
        let mut k: usize = 0;
        while k < prims.len()
            invariant
                k <= prims@.len(),
                merge_fits(prims@.take(k as int)),
                merged(prims@.take(k as int)).2 == offset,
            decreases prims@.len() - k,
        {
            let ghost pre = prims@.take(k as int);
            let ghost next = prims@.take(k as int + 1);
            proof {
                assert(next.drop_last() =~= pre);
                assert(next.last() == prims@[k as int]);
            }
            let p = &prims[k];
            let ix_fit = match &p.indices {
                Some(ix) => {
                    let mut j: usize = 0;
                    let mut ok = true;
                    while j < ix.len()
                        invariant
                            j <= ix@.len(),
                            ok == (forall|i: int| 0 <= i < j ==> offset + #[trigger] ix@[i] <= u32::MAX),
                        decreases ix@.len() - j,
                    {
                        if ix[j] > u32::MAX - offset {
                            ok = false;
                        }
                        j = j + 1;
                    }
                    ok
                },
                None => true,
            };
            let n = p.vertices.len() as u32;
            if !ix_fit || n > u32::MAX - offset {
                proof {
                    if merge_fits(prims@) {
                        lemma_merge_fits_prefix(prims@, k as int + 1);
                        assert(primitive_indices(next.last()) == primitive_indices(*p));
                    }
                }
                return false;
            }
            proof {
                assert(merge_fits(next));
            }
            offset = offset + n;
            k = k + 1;
        }
        assert(prims@.take(prims@.len() as int) =~= prims@);
        true
    }

    /// Merge the primitives as [`Self::merge_primitives`] does when that
    /// stays in 32 bits; `None` when it does not.
    pub fn try_merge_primitives<V: Copy>(prims: &[Primitive<V>]) -> (r: Option<(Vec<V>, Vec<u32>)>)
        ensures
            r is None <==> !merge_fits(prims@),
            r matches Some(m) ==> m.0@ == merged(prims@).0 && m.1@ == merged(prims@).1,
    {
        if MeshManager::merge_fits(prims) {
            Some(MeshManager::merge_primitives(prims))
        } else {
            None
        }
    }
}

/// Merging that fits in 32 bits for all primitives fits for every prefix.
pub proof fn lemma_merge_fits_prefix<V>(prims: Seq<Primitive<V>>, n: int)
    requires
        merge_fits(prims),
        0 <= n <= prims.len(),
    ensures
        merge_fits(prims.take(n)),
    decreases prims.len() - n,
{
    if n < prims.len() {
        assert(prims.drop_last().take(n) =~= prims.take(n));
        lemma_merge_fits_prefix(prims.drop_last(), n);
    } else {
        assert(prims.take(n) =~= prims);
    }
}

} // verus!
