use voxel_engine::world::{cube_indices, Block, BlockType, World, WorldError};

fn solid_cells(n: usize) -> Vec<Option<BlockType>> {
    vec![Some(BlockType::Dirt); n]
}

#[test]
fn flat_index_test() {
    let world = World::new(3, 3, 3, solid_cells(27)); // a solid cube
    let mut counter = 0;
    for z in 0..3 {
        for y in 0..3 {
            for x in 0..3 {
                assert!(
                    world.flatten_coords(x, y, z) == counter,
                    "{x}, {y}, {z} yielded {} instead of {counter}",
                    world.flatten_coords(x, y, z)
                );
                counter += 1;
            }
        }
    }
}

#[test]
fn interior_blocks_are_invisible() {
    let world = World::new(3, 3, 3, solid_cells(27)); // a solid cube

    // in a 3x3x3 world we would expect that the middle block is invisible and the rest are visible
    for (idx, block) in world.blocks.iter().enumerate() {
        if idx == 13 {
            assert!(
                block.unwrap().visible == false,
                "{idx}th block should've been visible"
            );
        } else {
            assert!(
                block.unwrap().visible == true,
                "{idx}th block should've been invisible"
            );
        }
    }
}

#[test]
fn interior_blocks_are_invisible_bigger() {
    let world = World::new(4, 4, 4, solid_cells(64)); // a solid cube

    for (idx, block) in world.blocks.iter().enumerate() {
        if vec![21, 22, 25, 26, 37, 38, 41, 42]
            .iter()
            .any(|x| *x == idx)
        {
            assert!(
                !block.unwrap().visible,
                "{idx}th block should've been visible"
            );
        } else {
            assert!(
                block.unwrap().visible,
                "{idx}th block should've been invisible"
            );
        }
    }
}

#[test]
fn flat_index_covers_non_cubic_grid() {
    // x varies fastest, then y, then z; every index in range is hit once
    let world = World::new(3, 4, 5, vec![None; 60]);
    assert_eq!(world.flatten_coords(1, 0, 0), 1);
    assert_eq!(world.flatten_coords(0, 1, 0), 3);
    assert_eq!(world.flatten_coords(0, 0, 1), 12);
    let mut counter = 0;
    for z in 0..5 {
        for y in 0..4 {
            for x in 0..3 {
                assert_eq!(world.flatten_coords(x, y, z), counter);
                counter += 1;
            }
        }
    }
    assert_eq!(counter, 60);
}

#[test]
fn get_block_out_of_bounds_is_not_found() {
    let world = World::new(2, 2, 2, solid_cells(8));
    assert_eq!(world.get_block(2, 0, 0), Err(WorldError::NotFound));
    assert_eq!(world.get_block(0, 5, 0), Err(WorldError::NotFound));
    assert_eq!(world.get_block(0, 0, 2), Err(WorldError::NotFound));
}

#[test]
fn get_block_empty_cell_is_not_found() {
    let mut cells = solid_cells(8);
    cells[3] = None; // (1, 1, 0)
    let world = World::new(2, 2, 2, cells);
    assert_eq!(world.get_block(1, 1, 0), Err(WorldError::NotFound));
    let b = world.get_block(0, 0, 0).unwrap();
    assert_eq!(b.block_type, BlockType::Dirt);
    assert!(b.visible);
}

#[test]
fn blocks_carry_their_coordinates_and_kind() {
    let mut cells: Vec<Option<BlockType>> = vec![None; 8];
    cells[0] = Some(BlockType::Stone);
    cells[7] = Some(BlockType::Water);
    let world = World::new(2, 2, 2, cells);
    let a = world.get_block(0, 0, 0).unwrap();
    assert_eq!((a.x, a.y, a.z), (0, 0, 0));
    assert_eq!(a.block_type, BlockType::Stone);
    let b = world.get_block(1, 1, 1).unwrap();
    assert_eq!((b.x, b.y, b.z), (1, 1, 1));
    assert_eq!(b.block_type, BlockType::Water);
}

#[test]
fn visible_blocks_of_solid_grid() {
    let world = World::new(3, 3, 3, solid_cells(27));
    let vis = world.visible_blocks();
    assert_eq!(vis.len(), 26);
    // the hidden centre cell never appears
    assert!(vis
        .iter()
        .all(|b: &Block| !(b.x == 1 && b.y == 1 && b.z == 1)));
}

#[test]
fn an_exposed_face_keeps_the_centre_visible() {
    // remove one neighbour of the centre: the centre stays visible
    let mut cells = solid_cells(27);
    cells[14] = None; // (2, 1, 1), the +x neighbour of the centre
    let world = World::new(3, 3, 3, cells);
    assert!(world.get_block(1, 1, 1).unwrap().visible);
}

#[test]
fn get_texture_returns_registered_handle() {
    let mut world = World::new(1, 1, 1, vec![Some(BlockType::Sand)]);
    world.setup_textures(vec![(BlockType::Sand, 7), (BlockType::Dirt, 2)]);
    assert_eq!(world.get_texture(BlockType::Sand), 7);
    assert_eq!(world.get_texture(BlockType::Dirt), 2);
}

#[test]
fn cube_indices_values() {
    assert_eq!(
        cube_indices(),
        vec![
            0, 3, 1, 0, 2, 3, // front face
            2, 5, 3, 2, 4, 5, 4, 7, 5, 4, 6, 7, 6, 9, 7, 6, 8, 9, 10, 4, 2, 10, 11, 4, 3, 13, 12,
            3, 5, 13,
        ]
    );
    assert_eq!(cube_indices().len(), 36);
}
