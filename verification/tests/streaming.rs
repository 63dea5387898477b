use stork_flight::world::tiles::{spawn_tiles, tile_pixel_origin, Tile, TileType};
use stork_flight::world::World;

fn orders(live: &[Tile]) -> Vec<i64> {
    live.iter().map(|t| t.order).collect()
}

#[test]
fn tile_pixel_origin_is_index_times_tile_width() {
    assert_eq!(tile_pixel_origin(0), 0);
    assert_eq!(tile_pixel_origin(3), 3_000_000_000);
    assert_eq!(tile_pixel_origin(-2), -2_000_000_000);
}

#[test]
fn streaming_works_at_the_camera_limit() {
    let mut world = World::with_seed(3);
    let mut live: Vec<Tile> = Vec::new();
    let actions = spawn_tiles(&mut world, &mut live, 900_000_000_000_000_000);
    assert_eq!(actions.spawned.len(), live.len());
    assert!(live.len() >= 4);
    for t in &live {
        assert!(t.order >= 899_999_998 - 1);
    }
    let again = spawn_tiles(&mut world, &mut live, 900_000_000_000_000_000);
    assert!(again.spawned.is_empty());
    assert!(again.despawned.is_empty());
}

#[test]
fn first_pass_spawns_the_whole_window() {
    let mut world = World::with_seed(42);
    let mut live: Vec<Tile> = Vec::new();
    let actions = spawn_tiles(&mut world, &mut live, 0);
    assert_eq!(actions.spawned, vec![-2, -1, 0, 1, 2]);
    assert!(actions.despawned.is_empty());
    assert_eq!(orders(&live), vec![-2, -1, 0, 1, 2]);
    let types: Vec<TileType> = live.iter().map(|t| t.tile_type).collect();
    assert_eq!(
        types,
        vec![
            TileType::Village,
            TileType::Village,
            TileType::Countryside,
            TileType::Village,
            TileType::Village,
        ]
    );
    // A Village tile owns exactly one obstacle, a Countryside tile none.
    assert_eq!(live[0].collidables.len(), 1);
    assert_eq!(live[2].collidables.len(), 0);
}

#[test]
fn second_pass_with_unmoved_camera_is_a_no_op() {
    let mut world = World::with_seed(42);
    let mut live: Vec<Tile> = Vec::new();
    spawn_tiles(&mut world, &mut live, 0);
    let before: Vec<(i64, TileType, usize)> =
        live.iter().map(|t| (t.order, t.tile_type, t.collidables.len())).collect();

    let again = spawn_tiles(&mut world, &mut live, 0);
    assert!(again.spawned.is_empty());
    assert!(again.despawned.is_empty());
    let after: Vec<(i64, TileType, usize)> =
        live.iter().map(|t| (t.order, t.tile_type, t.collidables.len())).collect();
    assert_eq!(before, after);
}

#[test]
fn advancing_the_window_evicts_exactly_the_tiles_behind_it() {
    let mut world = World::with_seed(0);
    let mut live: Vec<Tile> = Vec::new();
    // Window [0, 4].
    spawn_tiles(&mut world, &mut live, 2_000_000_000);
    assert_eq!(orders(&live), vec![0, 1, 2, 3, 4]);
    let survivors_before: Vec<(i64, TileType, Vec<i64>)> = live
        .iter()
        .filter(|t| t.order >= 2)
        .map(|t| (t.order, t.tile_type, t.collidables.iter().map(|c| c.x).collect()))
        .collect();

    // Camera moves right: window becomes [2, 6].
    let actions = spawn_tiles(&mut world, &mut live, 4_000_000_000);
    assert_eq!(actions.despawned, vec![0, 1]);
    assert_eq!(actions.spawned, vec![5, 6]);
    assert_eq!(orders(&live), vec![2, 3, 4, 5, 6]);

    // Tiles 2, 3, 4 were left untouched.
    let survivors_after: Vec<(i64, TileType, Vec<i64>)> = live
        .iter()
        .take(3)
        .map(|t| (t.order, t.tile_type, t.collidables.iter().map(|c| c.x).collect()))
        .collect();
    assert_eq!(survivors_before, survivors_after);
}

#[test]
fn eviction_is_one_directional() {
    let mut world = World::with_seed(9);
    let mut live: Vec<Tile> = Vec::new();
    spawn_tiles(&mut world, &mut live, 4_000_000_000);
    assert_eq!(orders(&live), vec![2, 3, 4, 5, 6]);

    // The camera reverses: tiles to the right of the new window stay.
    let actions = spawn_tiles(&mut world, &mut live, 0);
    assert!(actions.despawned.is_empty());
    assert_eq!(actions.spawned, vec![-2, -1, 0, 1]);
    assert_eq!(orders(&live), vec![2, 3, 4, 5, 6, -2, -1, 0, 1]);

    // A re-requested tile gets the same terrain as before it was ever
    // destroyed: the memo and the formula agree.
    let mut fresh = World::with_seed(1234);
    for t in &live {
        assert_eq!(fresh.get_tile(t.order), t.tile_type);
    }
}
