use voxel_engine::input::InputState;
use voxel_engine::mesh_instancer::MeshInstancer;
use voxel_engine::renderer::{Renderer, RenderInstance};
use voxel_engine::text::{CharacterMetric, Font};
use voxel_engine::world::{cube_indices, BlockType, World};

fn index_bytes() -> Vec<u8> {
    cube_indices()
        .iter()
        .flat_map(|i| i.to_le_bytes())
        .collect()
}

#[test]
fn identical_geometry_batches_into_one_object() {
    let mut r = Renderer::new();
    let tex = r.register_texture(16, 16);
    let vd: Vec<u8> = vec![1, 2, 3, 4];
    let id = index_bytes();
    r.queue_draw(&vd, &id, 36, 0, -5, 0, tex);
    r.queue_draw(&vd, &id, 36, 1, -5, 0, tex);
    assert_eq!(r.objects.len(), 1);
    assert_eq!(r.objects[0].instances.len(), 2);
    assert_eq!(r.objects[0].indices_length, 36);
    assert_eq!(r.objects[0].instances[0].pos_x, 0);
    assert_eq!(r.objects[0].instances[1].pos_x, 1);
}

#[test]
fn distinct_geometry_makes_two_objects() {
    let mut r = Renderer::new();
    let tex = r.register_texture(16, 16);
    let id = index_bytes();
    r.queue_draw(&vec![1, 2, 3], &id, 36, 0, 0, 0, tex);
    r.queue_draw(&vec![9, 9, 9], &id, 36, 0, 0, 0, tex);
    assert_eq!(r.objects.len(), 2);
    assert_eq!(r.objects[0].instances.len(), 1);
    assert_eq!(r.objects[1].instances.len(), 1);
}

#[test]
fn instance_records_carry_the_atlas_rect() {
    let mut r = Renderer::new();
    let tex_a = r.register_texture(16, 16);
    let tex_b = r.register_texture(32, 8);
    let vd: Vec<u8> = vec![5];
    let id: Vec<u8> = vec![6];
    r.queue_draw(&vd, &id, 6, 2, 3, 4, tex_b);
    let rect = r.texture_atlas.get_rect(&tex_b).unwrap().0;
    let inst: RenderInstance = r.objects[0].instances[0];
    assert_eq!((inst.pos_x, inst.pos_y, inst.pos_z), (2, 3, 4));
    assert_eq!((inst.tex_offset_x, inst.tex_offset_y), (rect.x, rect.y));
    assert_eq!((inst.tex_size_w, inst.tex_size_h), (32, 8));
    let rect_a = r.texture_atlas.get_rect(&tex_a).unwrap().0;
    assert_eq!((rect_a.w, rect_a.h), (16, 16));
}

#[test]
fn clear_instances_keeps_objects() {
    let mut r = Renderer::new();
    let tex = r.register_texture(16, 16);
    let vd: Vec<u8> = vec![1, 2];
    let id: Vec<u8> = vec![3];
    r.queue_draw(&vd, &id, 3, 0, 0, 0, tex);
    r.queue_draw(&vd, &id, 3, 1, 0, 0, tex);
    r.clear_instances();
    assert_eq!(r.objects.len(), 1);
    assert_eq!(r.objects[0].instances.len(), 0);
    assert_eq!(r.objects[0].vertex_data, vd);
    // the next frame batches against the kept object
    r.queue_draw(&vd, &id, 3, 2, 0, 0, tex);
    assert_eq!(r.objects.len(), 1);
    assert_eq!(r.objects[0].instances.len(), 1);
}

#[test]
fn draw_batches_all_visible_blocks() {
    let mut world = World::new(3, 3, 3, vec![Some(BlockType::Dirt); 27]);
    let mut r = Renderer::new();
    let tex = r.register_texture(16, 16);
    world.setup_textures(vec![(BlockType::Dirt, tex)]);
    let vd: Vec<u8> = vec![10, 20, 30];
    let id = index_bytes();
    world.draw(&mut r, &vd, &id, 36);
    // 26 visible blocks, one shared cube geometry, one object
    assert_eq!(r.objects.len(), 1);
    assert_eq!(r.objects[0].instances.len(), 26);
    // the first queued block sits at grid (0, 0, 0): world position (0, -5, 0)
    let first = r.objects[0].instances[0];
    assert_eq!((first.pos_x, first.pos_y, first.pos_z), (0, -5, 0));
    // a second frame over the same world batches into the same object
    world.draw(&mut r, &vd, &id, 36);
    assert_eq!(r.objects.len(), 1);
    assert_eq!(r.objects[0].instances.len(), 52);
}

#[test]
fn mesh_instancer_collects_instances() {
    let mut m = MeshInstancer::new(4);
    assert_eq!(m.object_handle, 4);
    assert_eq!(m.instances.len(), 0);
    let inst = RenderInstance {
        pos_x: 1,
        pos_y: 2,
        pos_z: 3,
        tex_offset_x: 0,
        tex_offset_y: 0,
        tex_size_w: 8,
        tex_size_h: 8,
    };
    m.add_instance(inst);
    assert_eq!(m.instances.len(), 1);
    assert_eq!(m.instances[0], inst);
}

#[test]
fn movement_axes_from_keys() {
    let mut input = InputState::new();
    assert_eq!(input.movement_axes(), (0, 0, 0));
    input.w = true;
    input.d = true;
    assert_eq!(input.movement_axes(), (1, 0, 1));
    input.s = true;
    input.a = true;
    input.q = true;
    assert_eq!(input.movement_axes(), (0, 1, 0));
    input.e = true;
    assert_eq!(input.movement_axes(), (0, 0, 0));
}

#[test]
fn font_finds_glyph_rects_after_packing() {
    let mut font = Font::new();
    let metric = CharacterMetric { size_x: 10, size_y: 12, bearing_x: 1, bearing_y: 2, advance: 640 };
    let wide = CharacterMetric { size_x: 20, size_y: 8, bearing_x: 0, bearing_y: 1, advance: 1280 };
    font.register_glyph('a', 10, 12, metric);
    font.register_glyph('b', 20, 8, wide);
    font.atlas.pack();
    let ra = font.get_char_rect('a');
    let rb = font.get_char_rect('b');
    assert_eq!((ra.w, ra.h), (10, 12));
    assert_eq!((rb.w, rb.h), (20, 8));
    assert_eq!(font.metrics[0].1, metric);
}
