use vstd::prelude::*;

verus! {

/// An element command of one UI draw list: draw `count` indices starting at
/// index `idx_offset` of the list, with vertex indices relative to vertex
/// `vtx_offset` of the list.
#[derive(Clone, Copy, PartialEq, Eq, Structural, Debug)]
pub struct ListCmd {
    pub count: u32,
    pub vtx_offset: u32,
    pub idx_offset: u32,
}

/// One UI draw list: its vertices, its 16-bit indices into them, and its
/// element commands in order.
#[derive(Clone, Debug)]
pub struct DrawList<V> {
    pub vertices: Vec<V>,
    pub indices: Vec<u16>,
    pub cmds: Vec<ListCmd>,
}

/// A frame's UI geometry as one packet: all vertices, all indices (as 32-bit
/// values, each still relative to its own list's first vertex), and the
/// commands over them.
#[derive(Clone, Debug)]
pub struct UiPacket<V> {
    pub vertices: Vec<V>,
    pub indices: Vec<u32>,
    pub cmds: Vec<PacketCmd>,
}

/// A command of the merged packet, with offsets into the packet's shared
/// vertex and index lists.
#[derive(Clone, Copy, PartialEq, Eq, Structural, Debug)]
pub struct PacketCmd {
    pub vtx_offset: i32,
    pub idx_offset: u32,
    pub count: u32,
}

/// Vertices and indices of the lists before list `k`.
pub open spec fn bases<V>(lists: Seq<DrawList<V>>, k: int) -> (int, int)
    decreases k,
{
    if k <= 0 {
        (0, 0)
    } else {
        let (v, i) = bases(lists, k - 1);
        (v + lists[k - 1].vertices@.len(), i + lists[k - 1].indices@.len())
    }
}

/// The commands of `cmds` moved from their list to the packet, whose list
/// starts at vertex `vb` and index `ib`.
pub open spec fn shifted(cmds: Seq<ListCmd>, vb: int, ib: int) -> Seq<PacketCmd> {
    cmds.map_values(|c: ListCmd| PacketCmd {
        vtx_offset: (vb + c.vtx_offset) as i32,
        idx_offset: (ib + c.idx_offset) as u32,
        count: c.count,
    })
}

/// The commands of the first `k` lists, moved to the packet, in order.
pub open spec fn packet_cmds<V>(lists: Seq<DrawList<V>>, k: int) -> Seq<PacketCmd>
    decreases k,
{
    if k <= 0 {
        Seq::empty()
    } else {
        let (vb, ib) = bases(lists, k - 1);
        packet_cmds(lists, k - 1) + shifted(lists[k - 1].cmds@, vb, ib)
    }
}

/// Whether the packet's offsets stay in range: the vertex count below
/// `i32::MAX`, the index count in 32 bits, and every moved offset too.
pub open spec fn packet_fits<V>(lists: Seq<DrawList<V>>) -> bool {
    &&& bases(lists, lists.len() as int).0 <= i32::MAX
    &&& bases(lists, lists.len() as int).1 <= u32::MAX
    &&& forall|k: int, j: int|
        0 <= k < lists.len() && 0 <= j < lists[k].cmds@.len() ==> bases(lists, k).0 + (
        #[trigger] lists[k].cmds@[j]).vtx_offset <= i32::MAX && bases(lists, k).1
            + lists[k].cmds@[j].idx_offset <= u32::MAX
}

proof fn lemma_bases_grow<V>(lists: Seq<DrawList<V>>, k: int, m: int)
    requires
        0 <= k <= m <= lists.len(),
    ensures
        bases(lists, k).0 <= bases(lists, m).0,
        bases(lists, k).1 <= bases(lists, m).1,
        bases(lists, k).0 >= 0,
        bases(lists, k).1 >= 0,
    decreases m,
{
    if k < m {
        lemma_bases_grow(lists, k, m - 1);
    } else if k > 0 {
        lemma_bases_grow(lists, k - 1, k - 1);
    }
}

/// Merge the commands of a frame's UI draw lists, in order, into commands
/// over one shared vertex list and one shared index list: each command's
/// offsets move by the vertices and indices of the lists before its own.
/// A frame whose lists hold no vertex at all has nothing to draw and gives
/// no command.
pub fn merge_ui_commands<V>(lists: &[DrawList<V>]) -> (cmds: Vec<PacketCmd>)
    requires
        packet_fits(lists@),
    ensures
        cmds@ == (if bases(lists@, lists@.len() as int).0 == 0 {
            Seq::<PacketCmd>::empty()
        } else {
            packet_cmds(lists@, lists@.len() as int)
        }),
{
    let mut cmds: Vec<PacketCmd> = Vec::new();
    let mut vtx_base: i32 = 0;
    let mut idx_base: u32 = 0;
    let mut k: usize = 0;
    while k < lists.len()
        invariant
            k <= lists@.len(),
            packet_fits(lists@),
            vtx_base == bases(lists@, k as int).0,
            idx_base == bases(lists@, k as int).1,
            cmds@ == packet_cmds(lists@, k as int),
        decreases lists@.len() - k,
    {
        proof {
            lemma_bases_grow(lists@, k as int + 1, lists@.len() as int);
            lemma_bases_grow(lists@, k as int, k as int);
        }
        let list = &lists[k];
        let ghost before = cmds@;
        let mut j: usize = 0;
        while j < list.cmds.len()
            invariant
                k < lists@.len(),
                list == lists@[k as int],
                j <= list.cmds@.len(),
                packet_fits(lists@),
                vtx_base == bases(lists@, k as int).0,
                idx_base == bases(lists@, k as int).1,
                vtx_base >= 0,
                cmds@ == before + shifted(list.cmds@.take(j as int), vtx_base as int, idx_base as int),
            decreases list.cmds@.len() - j,
        {
            let c = list.cmds[j];
            assert(bases(lists@, k as int).0 + lists@[k as int].cmds@[j as int].vtx_offset <= i32::MAX);
            let v = vtx_base + c.vtx_offset as i32;
            let i = idx_base + c.idx_offset;
            cmds.push(PacketCmd { vtx_offset: v, idx_offset: i, count: c.count });
            proof {
                assert(list.cmds@.take(j as int + 1) == list.cmds@.take(j as int).push(c));
                assert(shifted(list.cmds@.take(j as int + 1), vtx_base as int, idx_base as int)
                    == shifted(list.cmds@.take(j as int), vtx_base as int, idx_base as int).push(
                    PacketCmd { vtx_offset: v, idx_offset: i, count: c.count },
                ));
            }
            j = j + 1;
        }
        proof {
            assert(list.cmds@.take(list.cmds@.len() as int) == list.cmds@);
        }
        vtx_base = vtx_base + list.vertices.len() as i32;
        idx_base = idx_base + list.indices.len() as u32;
        k = k + 1;
    }
    if vtx_base == 0 {
        return Vec::new();
    }
    cmds
}

/// The vertices of the first `k` lists, in order.
pub open spec fn packet_vertices<V>(lists: Seq<DrawList<V>>, k: int) -> Seq<V>
    decreases k,
{
    if k <= 0 {
        Seq::empty()
    } else {
        packet_vertices(lists, k - 1) + lists[k - 1].vertices@
    }
}

/// The indices of the first `k` lists, in order, widened to 32 bits.
pub open spec fn packet_indices<V>(lists: Seq<DrawList<V>>, k: int) -> Seq<u32>
    decreases k,
{
    if k <= 0 {
        Seq::empty()
    } else {
        packet_indices(lists, k - 1) + lists[k - 1].indices@.map_values(|i: u16| i as u32)
    }
}

proof fn lemma_packet_vertices_len<V>(lists: Seq<DrawList<V>>, k: int)
    requires
        0 <= k,
    ensures
        packet_vertices(lists, k).len() == bases(lists, k).0,
    decreases k,
{
    if k > 0 {
        lemma_packet_vertices_len(lists, k - 1);
    }
}

/// Gather a frame's UI draw lists into one packet: the vertices and indices
/// of all lists in order, and their commands merged as
/// [`merge_ui_commands`] does. A frame whose lists hold no vertex at all
/// gives an empty packet.
pub fn record_ui_packet<V: Copy>(lists: &[DrawList<V>]) -> (p: UiPacket<V>)
    requires
        packet_fits(lists@),
    ensures
        bases(lists@, lists@.len() as int).0 == 0 ==> p.vertices@ == Seq::<V>::empty() && p.indices@
            == Seq::<u32>::empty() && p.cmds@ == Seq::<PacketCmd>::empty(),
        bases(lists@, lists@.len() as int).0 != 0 ==> p.vertices@ == packet_vertices(
            lists@,
            lists@.len() as int,
        ) && p.indices@ == packet_indices(lists@, lists@.len() as int) && p.cmds@ == packet_cmds(
            lists@,
            lists@.len() as int,
        ),
{
    let mut vertices: Vec<V> = Vec::new();
    let mut indices: Vec<u32> = Vec::new();
    let mut k: usize = 0;
    while k < lists.len()
        invariant
            k <= lists@.len(),
            vertices@ == packet_vertices(lists@, k as int),
            indices@ == packet_indices(lists@, k as int),
        decreases lists@.len() - k,
    {
        let list = &lists[k];
        let ghost vb = vertices@;
        let ghost ib = indices@;
        let mut i: usize = 0;
        while i < list.vertices.len()
            invariant
                list == lists@[k as int],
                i <= list.vertices@.len(),
                vertices@ == vb + list.vertices@.take(i as int),
            decreases list.vertices@.len() - i,
        {
            vertices.push(list.vertices[i]);
            assert(list.vertices@.take(i as int + 1) == list.vertices@.take(i as int).push(list.vertices@[i as int]));
            i = i + 1;
        }
        assert(list.vertices@.take(list.vertices@.len() as int) == list.vertices@);
        let mut j: usize = 0;
        while j < list.indices.len()
            invariant
                list == lists@[k as int],
                j <= list.indices@.len(),
                indices@ == ib + list.indices@.take(j as int).map_values(|x: u16| x as u32),
            decreases list.indices@.len() - j,
        {
            indices.push(list.indices[j] as u32);
            assert(list.indices@.take(j as int + 1).map_values(|x: u16| x as u32)
                == list.indices@.take(j as int).map_values(|x: u16| x as u32).push(list.indices@[j as int] as u32));
            j = j + 1;
        }
        assert(list.indices@.take(list.indices@.len() as int) == list.indices@);
        k = k + 1;
    }
    proof {
        lemma_packet_vertices_len(lists@, lists@.len() as int);
    }
    if vertices.len() == 0 {
        return UiPacket { vertices: Vec::new(), indices: Vec::new(), cmds: Vec::new() };
    }
    let cmds = merge_ui_commands(lists);
    UiPacket { vertices, indices, cmds }
}

} // verus!
