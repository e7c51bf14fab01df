use renderer::handle::Handle;
use renderer::retained::{draw_runs, plan_draws, DrawRun};
use renderer::text_batches::{TextBatch, TextBatches};
use renderer::ui_packet::{merge_ui_commands, record_ui_packet, DrawList, ListCmd, PacketCmd};

fn run(material: u64, geometry: u64, start: usize, end: usize) -> DrawRun {
    DrawRun { material, geometry, start, end }
}

#[test]
fn handle_key_puts_index_above_generation() {
    assert_eq!(Handle::new(1, 2).key(), (1u64 << 32) | 2);
    assert_eq!(Handle::new(0, 7).key(), 7);
    assert_eq!(Handle::dummy().key(), 0xffff_ffff_0000_0000);
    assert!(Handle::new(1, 0).key() > Handle::new(0, u32::MAX).key());
}

#[test]
fn draws_are_sorted_and_grouped() {
    let items = vec![(2, 1, 0), (1, 5, 1), (2, 1, 2), (1, 5, 3), (1, 6, 4)];
    let (sorted, runs) = plan_draws(items);
    assert_eq!(sorted, vec![(1, 5, 1), (1, 5, 3), (1, 6, 4), (2, 1, 0), (2, 1, 2)]);
    assert_eq!(runs, vec![run(1, 5, 0, 2), run(1, 6, 2, 3), run(2, 1, 3, 5)]);
}

#[test]
fn no_draws_no_runs() {
    let (sorted, runs) = plan_draws(Vec::new());
    assert!(sorted.is_empty());
    assert!(runs.is_empty());
}

#[test]
fn runs_follow_the_list_as_given() {
    let items = vec![(1, 1, 0), (2, 2, 1), (2, 2, 2), (1, 1, 3)];
    assert_eq!(draw_runs(&items), vec![run(1, 1, 0, 1), run(2, 2, 1, 3), run(1, 1, 3, 4)]);
    // Same material, other geometry: a separate call.
    assert_eq!(draw_runs(&vec![(1, 1, 0), (1, 2, 1)]), vec![run(1, 1, 0, 1), run(1, 2, 1, 2)]);
}

#[test]
fn each_pair_is_drawn_once_after_sorting() {
    let mut items = Vec::new();
    for i in 0..40usize {
        items.push(((i % 3) as u64, (i % 5) as u64, i));
    }
    let (_, runs) = plan_draws(items);
    assert_eq!(runs.len(), 15);
    for a in 0..runs.len() {
        for b in (a + 1)..runs.len() {
            assert!((runs[a].material, runs[a].geometry) < (runs[b].material, runs[b].geometry));
        }
    }
    assert_eq!(runs.iter().map(|r| r.end - r.start).sum::<usize>(), 40);
}

fn font(i: u32) -> Handle {
    Handle::new(i, 0)
}

#[test]
fn texts_are_batched_by_font() {
    let mut reg = TextBatches::new();
    let a = Handle::new(0, 1);
    let b = Handle::new(1, 1);
    let c = Handle::new(2, 1);
    assert!(reg.add_text(a, font(7)));
    assert!(!reg.add_text(b, font(7)));
    assert!(reg.add_text(c, font(9)));
    let batch = reg.batch(7).unwrap();
    assert_eq!(batch.handles, vec![a, b]);
    assert!(batch.needs_rebuild);
    assert_eq!(reg.batch(9).unwrap().handles, vec![c]);
    assert_eq!(reg.batches().len(), 2);
    assert_eq!(TextBatches::font_key(font(9)), 9);
    assert!(reg.contains_text(b));
    assert!(!reg.contains_text(Handle::new(1, 2)));
}

#[test]
fn removing_the_last_text_drops_the_batch() {
    let mut reg = TextBatches::new();
    let a = Handle::new(0, 1);
    let b = Handle::new(1, 1);
    reg.add_text(a, font(3));
    reg.add_text(b, font(3));
    reg.finish_rebuild(3, 12);
    assert_eq!(reg.remove_text(a), None);
    let batch = reg.batch(3).unwrap();
    assert_eq!(batch.handles, vec![b]);
    assert!(batch.needs_rebuild);
    assert_eq!(reg.remove_text(b), Some(3));
    assert!(reg.batch(3).is_none());
    // Removing again finds nothing.
    assert_eq!(reg.remove_text(b), None);
}

#[test]
fn remove_undoes_add() {
    let mut reg = TextBatches::new();
    let a = Handle::new(0, 1);
    reg.add_text(a, font(1));
    let before: Vec<Handle> = reg.batch(1).unwrap().handles.clone();
    let b = Handle::new(5, 2);
    reg.add_text(b, font(1));
    reg.remove_text(b);
    assert_eq!(reg.batch(1).unwrap().handles, before);
    let c = Handle::new(6, 2);
    reg.add_text(c, font(2));
    reg.remove_text(c);
    assert!(reg.batch(2).is_none());
    assert_eq!(reg.batches().len(), 1);
}

#[test]
fn stale_handle_of_same_slot_is_another_text() {
    let mut reg = TextBatches::new();
    let old = Handle::new(4, 1);
    let new = Handle::new(4, 2);
    reg.add_text(old, font(1));
    assert_eq!(reg.remove_text(new), None);
    assert!(!reg.mark_changed(new));
    assert_eq!(reg.batch(1).unwrap().handles, vec![old]);
}

#[test]
fn marking_and_rebuilding() {
    let mut reg = TextBatches::new();
    let a = Handle::new(0, 1);
    reg.add_text(a, font(1));
    assert!(reg.finish_rebuild(1, 5));
    let batch = reg.batch(1).unwrap();
    assert!(!batch.needs_rebuild);
    assert_eq!(batch.total_glyphs, 5);
    assert!(reg.mark_changed(a));
    assert!(reg.batch(1).unwrap().needs_rebuild);
    assert!(!reg.finish_rebuild(2, 1));
    assert!(!reg.mark_changed(Handle::new(9, 9)));
}

#[test]
fn new_batch_is_empty() {
    let b = TextBatch::new();
    assert!(b.handles.is_empty());
    assert!(!b.needs_rebuild);
    assert_eq!(b.total_glyphs, 0);
}

#[test]
fn ui_commands_move_by_earlier_lists() {
    let lists = vec![
        DrawList { vertices: vec![(); 4], indices: vec![0u16; 6], cmds: vec![ListCmd { count: 6, vtx_offset: 0, idx_offset: 0 }] },
        DrawList { vertices: vec![(); 0], indices: vec![0u16; 0], cmds: vec![] },
        DrawList {
            vertices: vec![(); 3],
            indices: vec![0u16; 3],
            cmds: vec![ListCmd { count: 3, vtx_offset: 0, idx_offset: 0 }, ListCmd { count: 0, vtx_offset: 1, idx_offset: 2 }],
        },
    ];
    assert_eq!(
        merge_ui_commands(&lists),
        vec![
            PacketCmd { vtx_offset: 0, idx_offset: 0, count: 6 },
            PacketCmd { vtx_offset: 4, idx_offset: 6, count: 3 },
            PacketCmd { vtx_offset: 5, idx_offset: 8, count: 0 },
        ]
    );
    assert!(merge_ui_commands::<()>(&[]).is_empty());
    // Lists without any vertex give nothing to draw.
    let empty = vec![DrawList { vertices: vec![(); 0], indices: vec![0u16; 3], cmds: vec![ListCmd { count: 3, vtx_offset: 0, idx_offset: 0 }] }];
    assert!(merge_ui_commands(&empty).is_empty());
}

#[test]
fn ui_packet_gathers_lists() {
    let lists = vec![
        DrawList { vertices: vec!['a', 'b', 'c'], indices: vec![0, 1, 2], cmds: vec![ListCmd { count: 3, vtx_offset: 0, idx_offset: 0 }] },
        DrawList { vertices: vec!['d', 'e', 'f'], indices: vec![2, 1, 0], cmds: vec![ListCmd { count: 3, vtx_offset: 0, idx_offset: 0 }] },
    ];
    let p = record_ui_packet(&lists);
    assert_eq!(p.vertices, vec!['a', 'b', 'c', 'd', 'e', 'f']);
    assert_eq!(p.indices, vec![0, 1, 2, 2, 1, 0]);
    assert_eq!(
        p.cmds,
        vec![PacketCmd { vtx_offset: 0, idx_offset: 0, count: 3 }, PacketCmd { vtx_offset: 3, idx_offset: 3, count: 3 }]
    );
    let empty: Vec<DrawList<char>> = vec![DrawList { vertices: vec![], indices: vec![0, 0, 0], cmds: vec![ListCmd { count: 3, vtx_offset: 0, idx_offset: 0 }] }];
    let p = record_ui_packet(&empty);
    assert!(p.vertices.is_empty() && p.indices.is_empty() && p.cmds.is_empty());
}
