use stork_flight::world::collidables::{
    collidable_size, spawn_collidables, Collidable, CollidableType,
};
use stork_flight::world::tiles::TileType;

fn placed(t: CollidableType, x: i64, y: i64) -> Collidable {
    Collidable { collidable_type: t, x, y }
}

#[test]
fn footprints_match_the_fixed_table() {
    assert_eq!(collidable_size(CollidableType::House1), (156_000_000, 62_000_000));
    assert_eq!(collidable_size(CollidableType::House2), (120_000_000, 144_000_000));
    assert_eq!(collidable_size(CollidableType::House3), (152_000_000, 310_000_000));
}

#[test]
fn countryside_has_no_obstacles() {
    assert!(spawn_collidables(TileType::Countryside, 0).is_empty());
    assert!(spawn_collidables(TileType::Countryside, 12_345).is_empty());
}

#[test]
fn village_places_one_small_house_by_index_mod_three() {
    assert_eq!(
        spawn_collidables(TileType::Village, 0),
        vec![placed(CollidableType::House1, -300_000_000, 31_000_000)]
    );
    assert_eq!(
        spawn_collidables(TileType::Village, 1),
        vec![placed(CollidableType::House1, 850_000_000, 31_000_000)]
    );
    assert_eq!(
        spawn_collidables(TileType::Village, 2),
        vec![placed(CollidableType::House1, 2_200_000_000, 31_000_000)]
    );
    // Negative indices use the nonnegative remainder.
    assert_eq!(
        spawn_collidables(TileType::Village, -1),
        vec![placed(CollidableType::House1, -800_000_000, 31_000_000)]
    );
}

#[test]
fn city_minor_places_a_small_and_a_medium_on_distinct_offsets() {
    assert_eq!(
        spawn_collidables(TileType::CityMinor, 8),
        vec![
            placed(CollidableType::House1, 8_200_000_000, 31_000_000),
            placed(CollidableType::House2, 8_350_000_000, 72_000_000),
        ]
    );
    assert_eq!(
        spawn_collidables(TileType::CityMinor, 3),
        vec![
            placed(CollidableType::House1, 2_850_000_000, 31_000_000),
            placed(CollidableType::House2, 2_700_000_000, 72_000_000),
        ]
    );
}

#[test]
fn city_major_mixes_mediums_then_smalls_from_a_shrinking_pool() {
    // index 5: medium count 5 % 3 + 1 = 3, drawn at pool positions
    // 5 % 5, 5 % 4, 5 % 3.
    assert_eq!(
        spawn_collidables(TileType::CityMajor, 5),
        vec![
            placed(CollidableType::House2, 4_600_000_000, 72_000_000),
            placed(CollidableType::House2, 5_000_000_000, 72_000_000),
            placed(CollidableType::House2, 5_350_000_000, 72_000_000),
        ]
    );
    // index 0: one medium, then two smalls.
    assert_eq!(
        spawn_collidables(TileType::CityMajor, 0),
        vec![
            placed(CollidableType::House2, -400_000_000, 72_000_000),
            placed(CollidableType::House1, -150_000_000, 31_000_000),
            placed(CollidableType::House1, 0, 31_000_000),
        ]
    );
}

#[test]
fn city_metropolis_places_one_large_then_three_mediums() {
    assert_eq!(
        spawn_collidables(TileType::CityMetropolis, 7),
        vec![
            placed(CollidableType::House3, 7_000_000_000, 155_000_000),
            placed(CollidableType::House2, 7_400_000_000, 72_000_000),
            placed(CollidableType::House2, 6_850_000_000, 72_000_000),
            placed(CollidableType::House2, 7_200_000_000, 72_000_000),
        ]
    );
    assert_eq!(
        spawn_collidables(TileType::CityMetropolis, 0),
        vec![
            placed(CollidableType::House3, -350_000_000, 155_000_000),
            placed(CollidableType::House2, -150_000_000, 72_000_000),
            placed(CollidableType::House2, 0, 72_000_000),
            placed(CollidableType::House2, 200_000_000, 72_000_000),
        ]
    );
}

#[test]
fn layout_is_a_pure_function_of_terrain_and_index() {
    for n in [-7, 0, 3, 5, 11, 1_000] {
        for t in [
            TileType::Countryside,
            TileType::Village,
            TileType::CityMinor,
            TileType::CityMajor,
            TileType::CityMetropolis,
        ] {
            assert_eq!(spawn_collidables(t, n), spawn_collidables(t, n));
        }
    }
}
