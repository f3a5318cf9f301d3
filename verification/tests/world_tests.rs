use mcrs::block::{Block, BlockFace, BlockType};
use mcrs::chunk::{Chunk, RemoveBlockError, SetBlockError};
use mcrs::coord::{chunk_coord_global, chunk_coord_local, BoundsError, ChunkCoord};
use mcrs::manager::{block_to_chunk, ChunkManager, ChunkManagerConfig};
use mcrs::player::{player_left_click, player_right_click};
use mcrs::point::{ChunkIndex, ChunkOrigin, LocalPoint, WorldPoint};
use mcrs::raycasting::{Ray, RayResult};
use mcrs::terrain::{SCATTER_DRAWS, SOLID_FILL_HEIGHT};
use mcrs::texture::{Texture, TextureManager, TextureManagerBuilder};

#[test]
fn world_points_round_trip_through_local_points() {
    let origin = ChunkOrigin::new(-32, 48);
    for (x, y, z) in [(-32, 48, -128), (-17, 63, 127), (-20, 50, 0)] {
        let p = WorldPoint::new(x, y, z);
        let l = chunk_coord_global(x, y, z).to_local(origin).unwrap();
        assert_eq!(ChunkCoord::Local(l).to_world(origin), p);
    }
    assert_eq!(
        chunk_coord_global(-20, 50, 0).to_local(origin),
        Ok(LocalPoint::new(12, 2, 128))
    );
    assert_eq!(
        chunk_coord_local(12, 2, 128).to_world(origin),
        WorldPoint::new(-20, 50, 0)
    );
}

#[test]
fn coordinates_outside_a_chunk_have_no_local_point() {
    let origin = ChunkOrigin::new(0, 0);
    assert_eq!(chunk_coord_global(16, 0, 0).to_local(origin), Err(BoundsError));
    assert_eq!(chunk_coord_global(0, -1, 0).to_local(origin), Err(BoundsError));
    assert_eq!(chunk_coord_global(0, 0, 128).to_local(origin), Err(BoundsError));
    assert_eq!(chunk_coord_global(0, 0, -129).to_local(origin), Err(BoundsError));
    assert_eq!(chunk_coord_local(16, 0, 0).to_local(origin), Err(BoundsError));
    assert_eq!(chunk_coord_local(0, 0, 256).to_local(origin), Err(BoundsError));
    assert_eq!(
        chunk_coord_local(15, 15, 255).to_local(origin),
        Ok(LocalPoint::new(15, 15, 255))
    );
}

#[test]
fn faces_step_to_their_neighbours() {
    let p = WorldPoint::new(3, -4, 5);
    assert_eq!(BlockFace::XPos.adjacent_loc_from(p), WorldPoint::new(4, -4, 5));
    assert_eq!(BlockFace::XNeg.adjacent_loc_from(p), WorldPoint::new(2, -4, 5));
    assert_eq!(BlockFace::YPos.adjacent_loc_from(p), WorldPoint::new(3, -3, 5));
    assert_eq!(BlockFace::YNeg.adjacent_loc_from(p), WorldPoint::new(3, -5, 5));
    assert_eq!(BlockFace::ZPos.adjacent_loc_from(p), WorldPoint::new(3, -4, 6));
    assert_eq!(BlockFace::ZNeg.adjacent_loc_from(p), WorldPoint::new(3, -4, 4));
    let order = BlockFace::iter();
    for (i, face) in order.iter().enumerate() {
        assert_eq!(face.index(), i);
    }
}

#[test]
fn new_blocks_hide_every_face() {
    let mut b = Block::new(BlockType::Stone);
    assert_eq!(b.block_type.tex_label(), "stone");
    assert_eq!(BlockType::Dirt.tex_label(), "dirt");
    for face in BlockFace::iter() {
        assert!(!b.visible(face));
    }
    b.set_visible(BlockFace::YNeg, true);
    for face in BlockFace::iter() {
        assert_eq!(b.visible(face), face == BlockFace::YNeg);
    }
}

fn block_at(chunk: &Chunk, x: i32, y: i32, z: i32) -> Block {
    chunk.get(chunk_coord_global(x, y, z)).unwrap().unwrap()
}

#[test]
fn isolated_block_shows_all_faces_and_neighbours_hide_the_shared_ones() {
    let mut chunk = Chunk::gen_empty_chunk(ChunkOrigin::new(0, 0));
    chunk
        .set_block(WorldPoint::new(5, 5, 5), Block::new(BlockType::Dirt))
        .unwrap();
    for face in BlockFace::iter() {
        assert!(block_at(&chunk, 5, 5, 5).visible(face));
    }
    chunk
        .set_block(WorldPoint::new(6, 5, 5), Block::new(BlockType::Stone))
        .unwrap();
    for face in BlockFace::iter() {
        assert_eq!(block_at(&chunk, 5, 5, 5).visible(face), face != BlockFace::XPos);
        assert_eq!(block_at(&chunk, 6, 5, 5).visible(face), face != BlockFace::XNeg);
    }
    let removed = chunk.remove_block(WorldPoint::new(6, 5, 5)).unwrap();
    assert_eq!(removed.block_type, BlockType::Stone);
    for face in BlockFace::iter() {
        assert!(block_at(&chunk, 5, 5, 5).visible(face));
    }
}

#[test]
fn block_at_the_side_of_a_chunk_shows_its_outer_face() {
    let mut chunk = Chunk::gen_empty_chunk(ChunkOrigin::new(0, 0));
    chunk
        .set_block(WorldPoint::new(0, 15, -128), Block::new(BlockType::Dirt))
        .unwrap();
    for face in BlockFace::iter() {
        assert!(block_at(&chunk, 0, 15, -128).visible(face));
    }
}

#[test]
fn exposure_asks_the_manager_across_the_side_of_a_chunk() {
    let mut manager = ChunkManager::new(ChunkManagerConfig::default());
    let mut home = Chunk::gen_empty_chunk(ChunkOrigin::new(32, 16));
    home.set_block(WorldPoint::new(32, 19, 0), Block::new(BlockType::Stone))
        .unwrap();
    assert!(manager.insert_chunk(home));
    assert!(manager.block_at(WorldPoint::new(32, 19, 0)));

    let mut other = Chunk::gen_empty_chunk(ChunkOrigin::new(16, 16));
    other
        .set_block(WorldPoint::new(31, 19, 0), Block::new(BlockType::Dirt))
        .unwrap();
    assert!(block_at(&other, 31, 19, 0).visible(BlockFace::XPos));
    other.update_exposure_block(chunk_coord_global(31, 19, 0), Some(&manager));
    assert!(!block_at(&other, 31, 19, 0).visible(BlockFace::XPos));
    assert!(block_at(&other, 31, 19, 0).visible(BlockFace::XNeg));
    other.update_exposure_chunk(None);
    assert!(block_at(&other, 31, 19, 0).visible(BlockFace::XPos));
    other.update_exposure_around(chunk_coord_global(30, 19, 0), Some(&manager));
    assert!(!block_at(&other, 31, 19, 0).visible(BlockFace::XPos));
    other.update_exposure_chunk(Some(&manager));
    assert!(!block_at(&other, 31, 19, 0).visible(BlockFace::XPos));
}

#[test]
fn mutate_block_writes_what_the_transform_returns() {
    let mut chunk = Chunk::gen_empty_chunk(ChunkOrigin::new(0, 0));
    chunk.mutate_block(WorldPoint::new(1, 1, 1), |_| Some(Block::new(BlockType::Dirt)));
    assert_eq!(block_at(&chunk, 1, 1, 1).block_type, BlockType::Dirt);
    chunk.mutate_block(WorldPoint::new(1, 1, 1), |_| None);
    assert!(matches!(chunk.get(chunk_coord_global(1, 1, 1)), Ok(None)));
    chunk.mutate_block(WorldPoint::new(99, 1, 1), |_| Some(Block::new(BlockType::Dirt)));
    assert!(chunk.gen_instances().is_empty());
}

#[test]
fn empty_chunk_has_no_instances() {
    let chunk = Chunk::gen_empty_chunk(ChunkOrigin::new(0, 0));
    assert!(chunk.gen_instances().is_empty());
}

#[test]
fn enclosed_block_has_no_instances() {
    let mut chunk = Chunk::gen_empty_chunk(ChunkOrigin::new(16, 16));
    let centre = WorldPoint::new(20, 20, 0);
    chunk.set_block(centre, Block::new(BlockType::Stone)).unwrap();
    assert_eq!(chunk.gen_instances().len(), 6);
    for face in BlockFace::iter() {
        chunk
            .set_block(face.adjacent_loc_from(centre), Block::new(BlockType::Dirt))
            .unwrap();
    }
    let instances = chunk.gen_instances();
    assert_eq!(instances.len(), 30);
    for instance in &instances {
        assert_ne!(instance.position, centre);
        assert_eq!(instance.label, "dirt");
    }
}

#[test]
fn instances_come_column_by_column_and_face_by_face() {
    let mut chunk = Chunk::gen_empty_chunk(ChunkOrigin::new(0, 0));
    chunk
        .set_block(WorldPoint::new(1, 0, 0), Block::new(BlockType::Dirt))
        .unwrap();
    chunk
        .set_block(WorldPoint::new(0, 2, 0), Block::new(BlockType::Stone))
        .unwrap();
    chunk
        .set_block(WorldPoint::new(0, 2, -1), Block::new(BlockType::Stone))
        .unwrap();
    let instances = chunk.gen_instances();
    let seen: Vec<(WorldPoint, BlockFace)> =
        instances.iter().map(|i| (i.position, i.face)).collect();
    let low = WorldPoint::new(0, 2, -1);
    let high = WorldPoint::new(0, 2, 0);
    let far = WorldPoint::new(1, 0, 0);
    assert_eq!(
        seen,
        vec![
            (low, BlockFace::XPos),
            (low, BlockFace::XNeg),
            (low, BlockFace::YPos),
            (low, BlockFace::YNeg),
            (low, BlockFace::ZNeg),
            (high, BlockFace::XPos),
            (high, BlockFace::XNeg),
            (high, BlockFace::YPos),
            (high, BlockFace::YNeg),
            (high, BlockFace::ZPos),
            (far, BlockFace::XPos),
            (far, BlockFace::XNeg),
            (far, BlockFace::YPos),
            (far, BlockFace::YNeg),
            (far, BlockFace::ZPos),
            (far, BlockFace::ZNeg),
        ]
    );
    assert_eq!(instances[0].label, "stone");
    assert_eq!(instances[10].label, "dirt");
}

#[test]
fn ray_stops_at_the_side_of_the_chunk() {
    let mut chunk = Chunk::gen_empty_chunk(ChunkOrigin::new(0, 0));
    chunk
        .set_block(WorldPoint::new(3, 0, 0), Block::new(BlockType::Dirt))
        .unwrap();
    let through = Ray {
        steps: vec![
            WorldPoint::new(1, 0, 0),
            WorldPoint::new(2, 0, 0),
            WorldPoint::new(3, 0, 0),
        ],
    };
    assert_eq!(
        chunk.cast_ray(&through),
        RayResult::Block { loc: WorldPoint::new(3, 0, 0), step: 2 }
    );
    let leaves = Ray {
        steps: vec![
            WorldPoint::new(1, 0, 0),
            WorldPoint::new(1, -1, 0),
            WorldPoint::new(3, 0, 0),
        ],
    };
    assert_eq!(chunk.cast_ray(&leaves), RayResult::Miss);
    assert_eq!(chunk.cast_ray(&Ray { steps: vec![] }), RayResult::Miss);
}

#[test]
fn scattered_chunk_follows_its_draws() {
    let mut draws = vec![false; SCATTER_DRAWS];
    // column (2, 3): all three layers; column (4, 5): the second draw only
    for layer in 0..3 {
        draws[(2 * 16 + 3) * 3 + layer] = true;
    }
    draws[(4 * 16 + 5) * 3 + 1] = true;
    // column (6, 7): first and third draw
    draws[(6 * 16 + 7) * 3] = true;
    draws[(6 * 16 + 7) * 3 + 2] = true;
    let chunk = Chunk::gen_scattered_chunk(ChunkOrigin::new(0, 0), &draws);
    let top = SOLID_FILL_HEIGHT;
    let kind = |x: usize, y: usize, z: usize| {
        chunk
            .get(chunk_coord_local(x, y, z))
            .unwrap()
            .map(|b| b.block_type)
    };
    assert_eq!(kind(0, 0, 0), Some(BlockType::Stone));
    assert_eq!(kind(0, 0, top - 1), Some(BlockType::Stone));
    assert_eq!(kind(0, 0, top), None);
    assert_eq!(kind(2, 3, top), Some(BlockType::Dirt));
    assert_eq!(kind(2, 3, top + 1), Some(BlockType::Dirt));
    assert_eq!(kind(2, 3, top + 2), Some(BlockType::Dirt));
    assert_eq!(kind(2, 3, top + 3), None);
    assert_eq!(kind(4, 5, top), None);
    assert_eq!(kind(4, 5, top + 1), None);
    assert_eq!(kind(6, 7, top), Some(BlockType::Dirt));
    assert_eq!(kind(6, 7, top + 1), None);
    assert_eq!(kind(6, 7, top + 2), None);

    let buried = chunk.get(chunk_coord_local(8, 8, 50)).unwrap().unwrap();
    for face in BlockFace::iter() {
        assert!(!buried.visible(face));
    }
    let surface = chunk.get(chunk_coord_local(8, 8, top - 1)).unwrap().unwrap();
    for face in BlockFace::iter() {
        assert_eq!(surface.visible(face), face == BlockFace::ZPos);
    }
    let side = chunk.get(chunk_coord_local(0, 8, 50)).unwrap().unwrap();
    for face in BlockFace::iter() {
        assert_eq!(side.visible(face), face == BlockFace::XNeg);
    }
    let bottom = chunk.get(chunk_coord_local(8, 8, 0)).unwrap().unwrap();
    for face in BlockFace::iter() {
        assert_eq!(bottom.visible(face), face == BlockFace::ZNeg);
    }
}

#[test]
fn default_chunk_is_solid_below_and_rests_above() {
    let chunk = Chunk::gen_default_chunk(ChunkOrigin::new(32, -16));
    assert_eq!(chunk.origin(), ChunkOrigin::new(32, -16));
    for x in 0..16 {
        for y in 0..16 {
            for z in 0..256 {
                let cell = chunk.get(chunk_coord_local(x, y, z)).unwrap();
                if z < SOLID_FILL_HEIGHT {
                    assert_eq!(cell.unwrap().block_type, BlockType::Stone);
                } else if z >= SOLID_FILL_HEIGHT + 3 {
                    assert!(cell.is_none());
                } else if let Some(b) = cell {
                    assert_eq!(b.block_type, BlockType::Dirt);
                    assert!(chunk.block_at(chunk_coord_local(x, y, z - 1)));
                }
            }
        }
    }
}

#[test]
fn block_to_chunk_rounds_down() {
    assert_eq!(block_to_chunk(WorldPoint::new(0, 15, 7)), ChunkIndex::new(0, 0));
    assert_eq!(block_to_chunk(WorldPoint::new(16, 31, 7)), ChunkIndex::new(1, 1));
    assert_eq!(block_to_chunk(WorldPoint::new(-1, -16, 7)), ChunkIndex::new(-1, -1));
    assert_eq!(block_to_chunk(WorldPoint::new(-17, 32, 7)), ChunkIndex::new(-2, 2));
    assert_eq!(
        block_to_chunk(WorldPoint::new(i32::MIN, i32::MAX, 7)),
        ChunkIndex::new(-134217728, 134217727)
    );
    assert_eq!(
        block_to_chunk(WorldPoint::new(-17, 32, 7)).origin(),
        ChunkOrigin::new(-32, 32)
    );
    assert_eq!(
        block_to_chunk(WorldPoint::new(i32::MIN, i32::MAX, 7)).origin(),
        ChunkOrigin::new(i32::MIN, i32::MAX - 15)
    );
}

#[test]
fn manager_finds_the_chunk_that_owns_a_block() {
    let mut manager = ChunkManager::default();
    assert!(manager.insert_chunk(Chunk::gen_empty_chunk(ChunkOrigin::new(0, 0))));
    assert!(manager.insert_chunk(Chunk::gen_empty_chunk(ChunkOrigin::new(-16, 32))));
    let p = WorldPoint::new(-1, 47, -128);
    assert_eq!(manager.set_block(p, Block::new(BlockType::Dirt)), Ok(()));
    assert!(manager.block_at(p));
    assert!(manager
        .chunk(ChunkOrigin::new(-16, 32))
        .unwrap()
        .block_at(ChunkCoord::World(p)));
    assert!(!manager.block_at(WorldPoint::new(15, 15, -128)));
    assert_eq!(
        manager.set_block(WorldPoint::new(-17, 47, 0), Block::new(BlockType::Dirt)),
        Err(SetBlockError::OutOfBounds)
    );
    assert_eq!(
        manager.set_block(WorldPoint::new(-1, 47, 128), Block::new(BlockType::Dirt)),
        Err(SetBlockError::OutOfBounds)
    );
    assert_eq!(manager.remove_block(p).unwrap().block_type, BlockType::Dirt);
    assert!(!manager.block_at(p));
}

#[test]
fn manager_edits_go_to_the_chunk_of_the_block() {
    let mut manager = ChunkManager::default();
    assert_eq!(
        manager.config(),
        ChunkManagerConfig { gen_dist: 2, render_dist: 2 }
    );
    let p = WorldPoint::new(3, 4, 5);
    assert_eq!(
        manager.set_block(p, Block::new(BlockType::Dirt)),
        Err(SetBlockError::OutOfBounds)
    );
    assert_eq!(manager.remove_block(p).err(), Some(RemoveBlockError::OutOfBounds));
    assert!(!manager.block_at(p));

    assert!(manager.insert_chunk(Chunk::gen_empty_chunk(ChunkOrigin::new(0, 0))));
    assert!(!manager.insert_chunk(Chunk::gen_empty_chunk(ChunkOrigin::new(0, 0))));
    assert!(manager.contains_chunk(ChunkOrigin::new(0, 0)));
    assert!(!manager.contains_chunk(ChunkOrigin::new(16, 0)));

    assert_eq!(manager.set_block(p, Block::new(BlockType::Dirt)), Ok(()));
    assert!(manager.block_at(p));
    assert_eq!(
        manager.set_block(p, Block::new(BlockType::Stone)),
        Err(SetBlockError::Occupied)
    );
    assert!(manager.chunk(ChunkOrigin::new(0, 0)).unwrap().block_at(ChunkCoord::World(p)));

    manager.mutate_block(p, |_| Some(Block::new(BlockType::Stone)));
    let changed = manager
        .chunk(ChunkOrigin::new(0, 0))
        .unwrap()
        .get(ChunkCoord::World(p))
        .unwrap()
        .unwrap();
    assert_eq!(changed.block_type, BlockType::Stone);

    assert_eq!(manager.remove_block(p).unwrap().block_type, BlockType::Stone);
    assert_eq!(manager.remove_block(p).err(), Some(RemoveBlockError::Empty));
    assert!(!manager.block_at(p));

    let evicted = manager.remove_chunk(ChunkOrigin::new(0, 0));
    assert!(evicted.is_some());
    assert!(manager.remove_chunk(ChunkOrigin::new(0, 0)).is_none());
    assert!(!manager.contains_chunk(ChunkOrigin::new(0, 0)));
}

#[test]
fn update_generates_near_chunks_and_shows_those_in_view() {
    let mut manager = ChunkManager::new(ChunkManagerConfig { gen_dist: 2, render_dist: 1 });
    let mut marked = Chunk::gen_empty_chunk(ChunkOrigin::new(16, 16));
    marked
        .set_block(WorldPoint::new(17, 17, 100), Block::new(BlockType::Dirt))
        .unwrap();
    assert!(manager.insert_chunk(marked));

    let observer = WorldPoint::new(8, 8, 0);
    manager.update(observer, &vec![]);
    for x in [-16, 0, 16] {
        for y in [-16, 0, 16] {
            assert!(manager.contains_chunk(ChunkOrigin::new(x, y)));
        }
    }
    assert!(!manager.contains_chunk(ChunkOrigin::new(32, 0)));
    assert!(!manager.contains_chunk(ChunkOrigin::new(-32, 0)));
    // the chunk that was live before is kept as it was
    let kept = manager.chunk(ChunkOrigin::new(16, 16)).unwrap();
    assert!(kept.block_at(chunk_coord_global(17, 17, 100)));
    assert!(!kept.block_at(chunk_coord_global(17, 17, -128)));

    // only the chunk under the observer is within the render distance
    let shown = manager.gen_instances();
    assert!(!shown.is_empty());
    for instance in &shown {
        assert!((0..16).contains(&instance.position.x));
        assert!((0..16).contains(&instance.position.y));
    }
    let home = manager.chunk(ChunkOrigin::new(0, 0)).unwrap().gen_instances();
    assert_eq!(shown.len(), home.len());

    // an observer beside the chunks sees only those with a corner in view
    let mut wide = ChunkManager::new(ChunkManagerConfig { gen_dist: 2, render_dist: 2 });
    assert!(wide.insert_chunk(Chunk::gen_empty_chunk(ChunkOrigin::new(0, 0))));
    assert!(wide.insert_chunk(marked_chunk(ChunkOrigin::new(16, 0))));
    assert!(wide.insert_chunk(marked_chunk(ChunkOrigin::new(-16, 0))));
    wide.update(WorldPoint::new(8, 8, 0), &vec![ChunkOrigin::new(16, 0), ChunkOrigin::new(64, 0)]);
    let seen = wide.gen_instances();
    assert_eq!(seen.len(), 6);
    for instance in &seen {
        assert_eq!(instance.position, WorldPoint::new(16, 0, 0));
    }
}

fn marked_chunk(origin: ChunkOrigin) -> Chunk {
    let mut chunk = Chunk::gen_empty_chunk(origin);
    chunk
        .set_block(WorldPoint::new(origin.x, origin.y, 0), Block::new(BlockType::Stone))
        .unwrap();
    chunk
}

#[test]
fn manager_casts_rays_in_the_chunk_of_their_start() {
    let mut manager = ChunkManager::default();
    let ray = Ray {
        steps: vec![
            WorldPoint::new(1, 1, 1),
            WorldPoint::new(2, 1, 1),
            WorldPoint::new(3, 1, 1),
        ],
    };
    assert_eq!(manager.cast_ray(&ray), RayResult::Miss);
    assert!(manager.insert_chunk(Chunk::gen_empty_chunk(ChunkOrigin::new(0, 0))));
    assert_eq!(manager.cast_ray(&ray), RayResult::Miss);
    manager
        .set_block(WorldPoint::new(3, 1, 1), Block::new(BlockType::Dirt))
        .unwrap();
    assert_eq!(
        manager.cast_ray(&ray),
        RayResult::Block { loc: WorldPoint::new(3, 1, 1), step: 2 }
    );
    assert_eq!(manager.cast_ray(&Ray { steps: vec![] }), RayResult::Miss);

    player_right_click();
    assert!(manager.block_at(WorldPoint::new(3, 1, 1)));
    player_left_click(&ray, &mut manager);
    assert!(!manager.block_at(WorldPoint::new(3, 1, 1)));
    player_left_click(&ray, &mut manager);
    assert_eq!(manager.cast_ray(&ray), RayResult::Miss);
}

#[test]
fn textures_get_the_index_of_their_first_arrival() {
    let mut builder = TextureManagerBuilder::new(None, None);
    builder.add_texture("dirt", Texture::new("dirt", vec![1, 2, 3, 4], 1, 1));
    builder.add_texture("stone", Texture::new("stone", vec![5, 6, 7, 8], 1, 1));
    builder.add_texture("dirt", Texture::new("dirt", vec![9, 9, 9, 9], 1, 1));
    let manager = TextureManager::from(builder);
    assert_eq!(manager.width(), 1);
    assert_eq!(manager.height(), 1);
    assert_eq!(manager.len(), 2);
    assert_eq!(manager.lookup_idx("dirt"), Some(0));
    assert_eq!(manager.lookup_idx("stone"), Some(1));
    assert_eq!(manager.lookup_idx("grass"), None);
    assert_eq!(manager.texture(0).raw, vec![9, 9, 9, 9]);
    assert_eq!(manager.texture(1).label, "stone");
    assert_eq!(TextureManager::default().lookup_idx("dirt"), None);
}
