use cgmath::{InnerSpace, Rad, Vector2};
use mcrs::point::{ChunkOrigin, WorldPoint};
use mcrs::streaming::{gen_chunk_origins_near_player, in_camera_view, lowest_multiple_above};
use std::collections::HashSet;

/// Whether one of the four corners of the chunk at `origin` lies within the
/// field of view `fov` of an observer at `(x, y)` who looks along `yaw`.
fn corner_in_view(x: f32, y: f32, yaw: Rad<f32>, fov: Rad<f32>, origin: ChunkOrigin) -> bool {
    let corners = vec![
        Vector2::new(origin.x, origin.y),
        Vector2::new(origin.x, origin.y + 16),
        Vector2::new(origin.x + 16, origin.y),
        Vector2::new(origin.x + 16, origin.y + 16),
    ];
    let camera_pos = Vector2::new(x, y);
    let forward = Vector2::new(yaw.0.cos(), yaw.0.sin());
    for c in corners {
        let c = c.cast::<f32>().unwrap();
        let view = c - camera_pos;
        let angle = view.angle(forward);
        if angle.0.abs() < fov.0 {
            return true;
        }
    }
    false
}

fn camera_sees(origin: ChunkOrigin) -> bool {
    let fov: Rad<f32> = cgmath::Deg(45.0).into();
    let observer = WorldPoint::new(0, 0, 0);
    in_camera_view(
        observer,
        origin,
        corner_in_view(0.0, 0.0, Rad(0.0), fov, origin),
    )
}

#[test]
fn test_in_camera_view() {
    assert_eq!(camera_sees(ChunkOrigin::new(0, 0)), true);
    assert_eq!(camera_sees(ChunkOrigin::new(-50, 50)), false);
    assert_eq!(camera_sees(ChunkOrigin::new(-50, -50)), false);
}

#[test]
fn test_lowest_multiple_above() {
    let cases = vec![
        (1, 0, 0),
        (3, 7, 9),
        (2, 8, 8),
        (8, 2, 8),
        (-3, -5, -6),
        (3, -5, -3),
        (-3, 5, 3),
    ];

    for (x, n, res) in cases {
        assert_eq!(lowest_multiple_above(x, n), res)
    }
}

#[test]
fn lowest_multiple_above_on_the_chunk_grid() {
    assert_eq!(lowest_multiple_above(16, 8), 16);
    assert_eq!(lowest_multiple_above(16, 16), 16);
    assert_eq!(lowest_multiple_above(16, -24), -16);
    assert_eq!(lowest_multiple_above(16, -16), -16);
    assert_eq!(lowest_multiple_above(16, 0), 0);
    assert_eq!(lowest_multiple_above(16, -1), 0);
    assert_eq!(lowest_multiple_above(16, 1), 16);
}

fn origin_set(list: Vec<ChunkOrigin>) -> HashSet<ChunkOrigin> {
    let n = list.len();
    let set: HashSet<ChunkOrigin> = list.into_iter().collect();
    assert_eq!(set.len(), n);
    set
}

#[test]
fn test_gen_origins_near_player() {
    let cases = vec![
        (
            WorldPoint::new(8, 8, 0),
            1,
            HashSet::from_iter(vec![ChunkOrigin::new(0, 0)]),
        ),
        (
            WorldPoint::new(8, 8, 0),
            2,
            HashSet::from_iter(vec![
                ChunkOrigin::new(0, 0),
                ChunkOrigin::new(-16, 0),
                ChunkOrigin::new(16, 0),
                ChunkOrigin::new(0, -16),
                ChunkOrigin::new(0, 16),
                ChunkOrigin::new(-16, -16),
                ChunkOrigin::new(-16, 16),
                ChunkOrigin::new(16, -16),
                ChunkOrigin::new(16, 16),
            ]),
        ),
    ];

    for (player_pos, dist, res) in cases {
        assert_eq!(origin_set(gen_chunk_origins_near_player(player_pos, dist)), res);
    }
}

#[test]
fn origins_near_player_at_distance_zero_are_none() {
    assert!(gen_chunk_origins_near_player(WorldPoint::new(8, 8, 0), 0).is_empty());
}

#[test]
fn origins_near_player_at_the_edge_of_the_world() {
    let far = gen_chunk_origins_near_player(WorldPoint::new(i32::MAX, i32::MIN, 0), 1);
    let set = origin_set(far);
    assert!(set.contains(&ChunkOrigin::new(i32::MAX - 15, i32::MIN)));
    for o in set {
        assert_eq!(o.x % 16, 0);
        assert_eq!(o.y % 16, 0);
    }
}

#[test]
fn observer_on_the_far_side_of_a_chunk_stands_over_it() {
    assert!(in_camera_view(WorldPoint::new(16, 16, 0), ChunkOrigin::new(0, 0), false));
    assert!(!in_camera_view(WorldPoint::new(17, 16, 0), ChunkOrigin::new(0, 0), false));
    assert!(in_camera_view(WorldPoint::new(17, 16, 0), ChunkOrigin::new(0, 0), true));
}
