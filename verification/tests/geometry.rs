use renderer::capacity::{doubled_capacity, ensure_capacity, grown_capacity, next_power_of_two, RingBuffer};
use renderer::dirty::{plan_text_rebuild, DirtyFlags, DirtyTracked, ALL_TEXT, COLOR, CONTENT, FONT_LABEL, TRANSFORM};
use renderer::draw::{DrawIndirectArgs, Flip, PrimitiveKind, SrcRect};
use renderer::instanced_shaders;
use renderer::layer::{Layer, LayerId, PerLayer};
use renderer::mesh::{MeshId, cube_face_indices, cube_indices, rectangle_indices, unit_rect_indices, MeshManager, Primitive};
use renderer::shaders::Shaders;
use renderer::shape::{glyph_quad_pattern, line_pattern, quad_pattern, rect_outline_pattern, triangle_pattern, Shape};

#[test]
fn shape_offsets_each_push() {
    let mut s: Shape<u8> = Shape::new();
    assert!(s.is_empty());
    s.push(&[10, 11, 12, 13], &quad_pattern());
    s.push(&[20, 21, 22], &triangle_pattern());
    assert_eq!(s.vertices(), &[10, 11, 12, 13, 20, 21, 22]);
    assert_eq!(s.indices(), &[0, 1, 2, 0, 2, 3, 4, 5, 6]);
    assert_eq!(s.len(), 9);
    s.clear();
    assert!(s.is_empty());
    assert!(s.vertices().is_empty());
    assert_eq!(Shape::<u8>::default().len(), 0);
}

#[test]
fn patterns() {
    assert_eq!(line_pattern(), [0, 1]);
    assert_eq!(rect_outline_pattern(), [0, 1, 1, 2, 2, 3, 3, 0]);
    assert_eq!(glyph_quad_pattern(), [0, 2, 1, 1, 2, 3]);
}

#[test]
fn mesh_index_lists() {
    assert_eq!(rectangle_indices(), vec![0, 2, 1, 1, 2, 3]);
    assert_eq!(unit_rect_indices(), vec![0, 1, 2, 2, 3, 0]);
    let cube = cube_indices();
    assert_eq!(cube.len(), 36);
    assert!(cube.iter().all(|&i| i < 8));
    let faces = cube_face_indices();
    assert_eq!(&faces[..12], &[0, 1, 2, 0, 2, 3, 4, 5, 6, 4, 6, 7]);
    assert_eq!(&faces[30..], &[20, 21, 22, 20, 22, 23]);
}

#[test]
fn primitives_merge_with_offsets() {
    let prims = vec![
        Primitive { vertices: vec!['a', 'b', 'c'], indices: Some(vec![0, 1, 2]) },
        Primitive { vertices: vec!['d', 'e'], indices: None },
        Primitive { vertices: vec!['f', 'g', 'h'], indices: Some(vec![0, 2, 1]) },
    ];
    assert!(MeshManager::merge_fits(&prims));
    assert_eq!(MeshManager::try_merge_primitives(&prims), Some(MeshManager::merge_primitives(&prims)));
    let big = vec![
        Primitive { vertices: vec![0u8; 4], indices: None },
        Primitive { vertices: vec![0u8; 1], indices: Some(vec![u32::MAX - 3]) },
    ];
    assert!(!MeshManager::merge_fits(&big));
    assert_eq!(MeshManager::try_merge_primitives(&big), None);
    let (v, i) = MeshManager::merge_primitives(&prims);
    assert_eq!(v, vec!['a', 'b', 'c', 'd', 'e', 'f', 'g', 'h']);
    assert_eq!(i, vec![0, 1, 2, 5, 7, 6]);
}

#[test]
fn capacities() {
    assert_eq!(doubled_capacity(4, 9), 16);
    assert_eq!(doubled_capacity(4, 4), 4);
    assert_eq!(grown_capacity(8, 5), 8);
    assert_eq!(grown_capacity(8, 9), 16);
    assert_eq!(grown_capacity(8, 20), 20);
    assert_eq!(next_power_of_two(0), 1);
    assert_eq!(next_power_of_two(5), 8);
    assert_eq!(next_power_of_two(8), 8);
    assert_eq!(ensure_capacity(8, 5), (false, 8));
    assert_eq!(ensure_capacity(8, 9), (true, 16));
    assert_eq!(ensure_capacity(0, 3), (true, 4));
}

#[test]
fn ring_buffer_wraps() {
    let mut r: RingBuffer<3> = RingBuffer::new();
    assert_eq!((r.current_buffer(), r.count()), (0, 0));
    for _ in 0..4 {
        r.advance();
    }
    assert_eq!((r.current_buffer(), r.count()), (1, 3));
}

#[test]
fn dirty_tracked_marks_on_mutable_access() {
    let mut d = DirtyTracked::new(5);
    assert!(!d.dirty);
    assert_eq!(*d.get(), 5);
    assert!(!d.dirty);
    *d.get_mut() = 6;
    assert!(d.dirty);
    assert_eq!(d.value, 6);
    assert!(!DirtyTracked::from(1u8).dirty);
}

#[test]
fn dirty_flags() {
    let mut f = DirtyFlags::new();
    assert!(!f.is_dirty());
    f.mark(CONTENT);
    assert!(f.changed(CONTENT) && !f.changed(COLOR));
    f.mark_all();
    assert_eq!(f.bits, ALL_TEXT);
    f.reset_one(TRANSFORM);
    assert!(!f.changed(TRANSFORM) && f.changed(FONT_LABEL));
    f.clear_all();
    assert!(!f.is_dirty());
}

#[test]
fn text_rebuild_plans() {
    let mut f = DirtyFlags { bits: CONTENT };
    assert_eq!(plan_text_rebuild(&mut f), (true, true));
    assert_eq!(f.bits, 0);
    let mut f = DirtyFlags { bits: FONT_LABEL | COLOR };
    assert_eq!(plan_text_rebuild(&mut f), (false, true));
    assert_eq!(f.bits, FONT_LABEL);
    let mut f = DirtyFlags { bits: FONT_LABEL };
    assert_eq!(plan_text_rebuild(&mut f), (false, false));
    assert_eq!(f.bits, FONT_LABEL);
    let mut f = DirtyFlags { bits: ALL_TEXT };
    assert_eq!(plan_text_rebuild(&mut f), (true, true));
    assert_eq!(f.bits, FONT_LABEL);
}

#[test]
fn layers_in_drawing_order() {
    assert_eq!(Layer::all(), [Layer::World, Layer::Ui, Layer::Debug]);
    assert_eq!(Layer::Ui.index(), 1);
    assert_eq!(Layer::from_index(2), Some(Layer::Debug));
    assert_eq!(Layer::from_index(3), None);
    assert!(Layer::World.draws_before(Layer::Debug));
    assert!(!Layer::Debug.draws_before(Layer::Ui));
    assert_eq!(LayerId::of(Layer::Debug), LayerId(2));
    assert_eq!(Layer::default(), Layer::World);
    let mut per = PerLayer { layers: [0u32, 0, 0] };
    *per.get_mut(Layer::Ui) += 5;
    assert_eq!(*per.get(Layer::Ui), 5);
    assert_eq!(per.layers, [0, 5, 0]);
}

#[test]
fn draw_values() {
    assert_eq!(PrimitiveKind::Triangle.num_vertices(), 3);
    assert_eq!(PrimitiveKind::Point.num_vertices(), 1);
    assert_eq!(Flip::both(), Flip::new(true, true));
    assert_eq!(Flip::none(), Flip::default());
    assert_eq!(Flip::horizontal(), Flip { x: true, y: false });
    assert_eq!(Flip::vertical(), Flip { x: false, y: true });
    let args = DrawIndirectArgs { primitive: PrimitiveKind::Point, vertex_count: 2, instance_count: 1, first_vertex: 0, first_instance: 0 };
    assert_eq!(args.vertex_count, 2);
    assert_eq!(SrcRect::default(), SrcRect { x: 0, y: 0, w: 0, h: 0 });
}

#[test]
fn shader_sources() {
    assert!(Shaders::basic().contains("fn vs_main"));
    assert!(Shaders::rect().contains("instance_size"));
    assert!(instanced_shaders::Shaders::basic().contains("rotation_matrix"));
}

#[test]
fn mesh_ids_follow_types() {
    assert_eq!(MeshId::of::<u8>(), MeshId::of::<u8>());
    assert_ne!(MeshId::of::<u8>(), MeshId::of::<u16>());
}
