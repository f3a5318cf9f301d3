use cgmath::{InnerSpace, Point3, Vector3};
use mcrs::block::{Block, BlockFace, BlockType};
use mcrs::chunk::{Chunk, RemoveBlockError, SetBlockError};
use mcrs::coord::{ChunkCoord, BOTTOM_DEPTH, CHUNK_HEIGHT, CHUNK_WIDTH};
use mcrs::point::{ChunkOrigin, WorldPoint};
use mcrs::raycasting::{get_colliding_face, Ray, RayResult};

/// The voxels of the sample points of a ray that starts at `pos`, runs along
/// `dir` and takes `n_tests` equal steps over `max_dist`.
fn sample_ray(pos: Point3<f32>, dir: Vector3<f32>, max_dist: f32, n_tests: usize) -> Ray {
    let iter_ray = dir.normalize() * (max_dist / n_tests as f32);
    let mut test_pos = pos;
    let mut steps = Vec::new();
    for _ in 0..n_tests {
        steps.push(WorldPoint::new(
            test_pos.x.floor() as i32,
            test_pos.y.floor() as i32,
            test_pos.z.floor() as i32,
        ));
        test_pos += iter_ray;
    }
    Ray { steps }
}

fn camera_ray() -> Ray {
    sample_ray(Point3::new(1.0, 1.5, 1.5), Vector3::new(1.0, 0.0, 0.0), 5.0, 100)
}

#[test]
fn test_chunk_raycasting() {
    let chunk_origin = ChunkOrigin::new(0, 0);
    let mut chunk = Chunk::gen_empty_chunk(chunk_origin);

    assert_eq!(chunk.cast_ray(&camera_ray()), RayResult::Miss);

    let block = Block::new(BlockType::Dirt);
    let block_pos = WorldPoint::new(2, 1, 1);
    let _ = chunk.set_block(block_pos, block);
    if let RayResult::Block { loc, .. } = chunk.cast_ray(&camera_ray()) {
        assert_eq!(loc, block_pos);
    } else {
        assert!(false);
    }

    let _ = chunk.remove_block(block_pos);
    let block_pos = WorldPoint::new(1, 2, 1);
    let _ = chunk.set_block(block_pos, block);
    assert_eq!(chunk.cast_ray(&camera_ray()), RayResult::Miss);
}

#[test]
fn test_chunk_insert_remove() {
    let mut chunk = Chunk::gen_empty_chunk(ChunkOrigin::new(0, 0));

    for x in 0..CHUNK_WIDTH {
        for y in 0..CHUNK_WIDTH {
            for z in 0..CHUNK_HEIGHT {
                if let Ok(_) = chunk.remove_block(WorldPoint::new(x as i32, y as i32, z as i32)) {
                    assert!(false);
                }
            }
        }
    }

    let pos = WorldPoint::new(1, 2, 3);
    if let Err(_) = chunk.set_block(pos, Block::new(BlockType::Dirt)) {
        assert!(false, "set block failed");
    }

    if let Err(_) = chunk.remove_block(pos) {
        assert!(false, "remove block failed");
    }
}

#[test]
fn test_vec_cast() {
    assert_eq!(
        Vector3::new(1.0, 2.0, 3.0).cast::<usize>().unwrap(),
        Vector3::new(1, 2, 3)
    );

    assert_eq!(
        Vector3::new(1.0, -2.0, 3.0).cast::<i32>().unwrap(),
        Vector3::new(1, -2, 3)
    );

    assert_eq!(
        Vector3::new(1.1, 2.9, 3.5).cast::<usize>().unwrap(),
        Vector3::new(1, 2, 3)
    );

    assert_eq!(
        Vector3::new(-1.5, -2.1, -3.9).cast::<i32>().unwrap(),
        Vector3::new(-1, -2, -3)
    );
}

#[test]
fn test_chunk_coords() {
    let c1 = Chunk::gen_empty_chunk(ChunkOrigin::new(0, 0));
    let c2 = Chunk::gen_empty_chunk(ChunkOrigin::new(0, 16));

    let cc1 = ChunkCoord::from(WorldPoint::new(0, 0, BOTTOM_DEPTH + 1));

    match c1.get(cc1) {
        Ok(block_loc) => match block_loc {
            Some(_) => assert!(false),
            None => {}
        },
        Err(_) => assert!(false),
    }

    match c2.get(cc1) {
        Ok(_) => assert!(false),
        Err(_) => {}
    }
}

#[test]
fn test_block_visibility_updates() {
    let mut chunk = Chunk::gen_empty_chunk(ChunkOrigin::new(0, 0));

    let block_pos1 = WorldPoint::new(0, 0, 0);
    if let Err(_) = chunk.set_block(block_pos1, Block::new(BlockType::Dirt)) {
        assert!(false, "failed to place a block");
    }

    let block1 = chunk
        .get_ref(ChunkCoord::from(block_pos1))
        .unwrap()
        .unwrap();

    for face in BlockFace::iter() {
        assert!(block1.visible(face));
    }

    let block_pos2 = WorldPoint::new(1, 0, 0);
    if let Err(_) = chunk.set_block(block_pos2, Block::new(BlockType::Dirt)) {
        assert!(false, "failed to place a block");
    }

    let block1 = chunk
        .get_ref(ChunkCoord::from(block_pos1))
        .unwrap()
        .unwrap();
    let block2 = chunk
        .get_ref(ChunkCoord::from(block_pos2))
        .unwrap()
        .unwrap();

    assert_eq!(block1.visible(BlockFace::XPos), false);
    assert_eq!(block2.visible(BlockFace::XNeg), false);
}

#[test]
fn set_block_rejects_occupied_and_outside() {
    let mut chunk = Chunk::gen_empty_chunk(ChunkOrigin::new(16, -16));
    let pos = WorldPoint::new(17, -1, 5);
    assert_eq!(chunk.set_block(pos, Block::new(BlockType::Stone)), Ok(()));
    assert_eq!(
        chunk.set_block(pos, Block::new(BlockType::Dirt)),
        Err(SetBlockError::Occupied)
    );
    let kept = chunk.get(ChunkCoord::World(pos)).unwrap().unwrap();
    assert_eq!(kept.block_type, BlockType::Stone);
    assert_eq!(
        chunk.set_block(WorldPoint::new(32, -1, 5), Block::new(BlockType::Dirt)),
        Err(SetBlockError::OutOfBounds)
    );
    assert_eq!(
        chunk.set_block(WorldPoint::new(17, -1, 128), Block::new(BlockType::Dirt)),
        Err(SetBlockError::OutOfBounds)
    );
}

#[test]
fn remove_block_reports_empty_and_outside() {
    let mut chunk = Chunk::gen_empty_chunk(ChunkOrigin::new(0, 0));
    assert_eq!(
        chunk.remove_block(WorldPoint::new(3, 3, 3)).err(),
        Some(RemoveBlockError::Empty)
    );
    assert_eq!(
        chunk.remove_block(WorldPoint::new(-1, 3, 3)).err(),
        Some(RemoveBlockError::OutOfBounds)
    );
    assert_eq!(
        chunk.remove_block(WorldPoint::new(3, 3, -129)).err(),
        Some(RemoveBlockError::OutOfBounds)
    );
}

/// The face that a ray from `pos` along `dir` struck on the block at
/// `block_loc`, its collision point being `collision_pos`.
fn colliding_face(
    pos: Point3<f32>,
    dir: Vector3<f32>,
    collision_pos: Point3<f32>,
    block_loc: WorldPoint,
) -> Option<BlockFace> {
    let b = Point3::new(block_loc.x as f32, block_loc.y as f32, block_loc.z as f32);
    let inside = collision_pos.x >= b.x
        && collision_pos.x <= b.x + 1.0
        && collision_pos.y >= b.y
        && collision_pos.y <= b.y + 1.0
        && collision_pos.z >= b.z
        && collision_pos.z <= b.z + 1.0;
    let x = if dir.x.signum() > 0.0 {
        (true, (b.x - pos.x) / dir.x)
    } else {
        (false, (b.x + 1.0 - pos.x) / dir.x)
    };
    let y = if dir.y.signum() > 0.0 {
        (true, (b.y - pos.y) - dir.y)
    } else {
        (false, (b.y + 1.0 - pos.y) / dir.y)
    };
    let z = if dir.z.signum() > 0.0 {
        (true, (b.z - pos.z) - dir.z)
    } else {
        (false, (b.z + 1.0 - pos.z) / dir.z)
    };
    let dists = [x.1, y.1, z.1];
    let axis = dists
        .iter()
        .enumerate()
        .max_by(|(_, a), (_, b)| a.total_cmp(b))
        .map(|(index, _)| index)
        .unwrap();
    get_colliding_face(inside, axis, [x.0, y.0, z.0][axis])
}

#[test]
fn test_get_colliding_face() {
    let pos = Point3::new(0.0, 0.0, 0.0);
    let dir = Vector3::new(1.0, 0.0, 0.0);

    assert_eq!(
        colliding_face(pos, dir, Point3::new(1.01, 0.5, 0.5), WorldPoint::new(1, 0, 0)),
        Some(BlockFace::XNeg),
    );
    assert_eq!(
        colliding_face(pos, dir, Point3::new(1.99, 0.5, 0.5), WorldPoint::new(1, 0, 0)),
        Some(BlockFace::XNeg),
    );
}

#[test]
fn colliding_face_looks_against_the_ray() {
    assert_eq!(get_colliding_face(true, 0, true), Some(BlockFace::XNeg));
    assert_eq!(get_colliding_face(true, 0, false), Some(BlockFace::XPos));
    assert_eq!(get_colliding_face(true, 1, true), Some(BlockFace::YNeg));
    assert_eq!(get_colliding_face(true, 1, false), Some(BlockFace::YPos));
    assert_eq!(get_colliding_face(true, 2, true), Some(BlockFace::ZNeg));
    assert_eq!(get_colliding_face(true, 2, false), Some(BlockFace::ZPos));
    assert_eq!(get_colliding_face(false, 2, false), None);
}
