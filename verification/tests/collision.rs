use stork_flight::world::collidables::{stork_hit_collidable, Collidable, CollidableType};
use stork_flight::world::tiles::{stork_hit_tiles, Tile, TileType};

fn small_at(x: i64, y: i64) -> Collidable {
    Collidable { collidable_type: CollidableType::House1, x, y }
}

#[test]
fn overlapping_boxes_signal_a_hit() {
    // Flyer 64x32 at (100, 100) px, small obstacle 156x62 at (110, 110) px:
    // overlap on both axes.
    let obstacles = vec![small_at(110_000_000, 110_000_000)];
    assert!(stork_hit_collidable(100_000_000, 100_000_000, &obstacles));
}

#[test]
fn touching_edges_do_not_signal() {
    // Half-width sum is 32 + 78 = 110 px: at exactly that distance the
    // strict comparison sees no overlap.
    let obstacles = vec![small_at(210_000_000, 100_000_000)];
    assert!(!stork_hit_collidable(100_000_000, 100_000_000, &obstacles));
    // One millionth of a pixel closer, it hits.
    let obstacles = vec![small_at(209_999_999, 100_000_000)];
    assert!(stork_hit_collidable(100_000_000, 100_000_000, &obstacles));
}

#[test]
fn vertical_separation_prevents_a_hit() {
    // Half-height sum is 16 + 31 = 47 px.
    let obstacles = vec![small_at(100_000_000, 147_000_000)];
    assert!(!stork_hit_collidable(100_000_000, 100_000_000, &obstacles));
    let obstacles = vec![small_at(100_000_000, 146_999_999)];
    assert!(stork_hit_collidable(100_000_000, 100_000_000, &obstacles));
}

#[test]
fn any_obstacle_in_the_list_can_trigger() {
    let obstacles = vec![
        small_at(2_000_000_000, 0),
        small_at(110_000_000, 110_000_000),
        small_at(-2_000_000_000, 0),
    ];
    assert!(stork_hit_collidable(100_000_000, 100_000_000, &obstacles));
    assert!(!stork_hit_collidable(1_000_000_000, 100_000_000, &obstacles));
}

#[test]
fn world_level_monitor_scans_every_tile() {
    let live = vec![
        Tile { tile_type: TileType::Countryside, order: 0, collidables: Vec::new() },
        Tile {
            tile_type: TileType::Village,
            order: 1,
            collidables: vec![small_at(110_000_000, 110_000_000)],
        },
    ];
    assert!(stork_hit_tiles(100_000_000, 100_000_000, &live));
    assert!(!stork_hit_tiles(500_000_000, 100_000_000, &live));
    assert!(!stork_hit_tiles(100_000_000, 100_000_000, &Vec::new()));
}
