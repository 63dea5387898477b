use stork_flight::world::{categorize_sum, fluctuation_sum, World};
use stork_flight::world::tiles::TileType;
use stork_flight::CoreError;

#[test]
fn bucket_boundaries_belong_to_the_lower_category() {
    assert_eq!(categorize_sum(0), Ok(TileType::Countryside));
    assert_eq!(categorize_sum(1_000_000), Ok(TileType::Countryside));
    assert_eq!(categorize_sum(1_000_001), Ok(TileType::Village));
    assert_eq!(categorize_sum(2_000_000), Ok(TileType::Village));
    assert_eq!(categorize_sum(2_000_001), Ok(TileType::CityMinor));
    assert_eq!(categorize_sum(3_000_000), Ok(TileType::CityMinor));
    assert_eq!(categorize_sum(3_000_001), Ok(TileType::CityMajor));
    assert_eq!(categorize_sum(4_000_000), Ok(TileType::CityMajor));
    assert_eq!(categorize_sum(4_000_001), Ok(TileType::CityMetropolis));
    assert_eq!(categorize_sum(5_000_000), Ok(TileType::CityMetropolis));
}

#[test]
fn out_of_range_sums_are_fatal() {
    assert_eq!(categorize_sum(-1), Err(CoreError::InvalidState));
    assert_eq!(categorize_sum(5_000_001), Err(CoreError::InvalidState));
    assert_eq!(categorize_sum(i64::MIN), Err(CoreError::InvalidState));
    assert_eq!(categorize_sum(i64::MAX), Err(CoreError::InvalidState));
}

#[test]
fn fluctuation_sum_stays_in_range_over_a_large_sample() {
    for n in -10_000..=10_000 {
        let s = fluctuation_sum(n);
        assert!(0 <= s && s <= 5_000_000, "sum out of range at {}: {}", n, s);
    }
}

#[test]
fn fluctuation_sum_exact_values() {
    assert_eq!(fluctuation_sum(0), 0);
    assert_eq!(fluctuation_sum(1), 1_090_249);
    assert_eq!(fluctuation_sum(-1), 1_090_249);
    assert_eq!(fluctuation_sum(8), 2_244_038);
}

#[test]
fn terrain_is_deterministic_across_calls_and_worlds() {
    let mut w = World::with_seed(7);
    let first = w.get_tile(1);
    let second = w.get_tile(1);
    assert_eq!(first, TileType::Village);
    assert_eq!(first, second);

    // A different seed — and a fresh memo — gives the same category.
    let mut other = World::with_seed(99_999);
    assert_eq!(other.get_tile(1), first);

    // Randomly seeded worlds agree too: the formula does not consume the
    // seed.
    let mut d1 = World::default();
    let mut d2 = World::default();
    assert_eq!(d1.get_tile(8), TileType::CityMinor);
    assert_eq!(d1.get_tile(8), d2.get_tile(8));
}

#[test]
fn terrain_handles_negative_indices() {
    let mut w = World::with_seed(0);
    assert_eq!(w.get_tile(-1), TileType::Village);
    assert_eq!(w.get_tile(-3), TileType::Countryside);
    assert_eq!(w.get_tile(-4), TileType::Village);
}

#[test]
fn terrain_works_at_the_index_limits() {
    let mut w = World::with_seed(5);
    let at_max = w.get_tile(1_000_000_000);
    let at_min = w.get_tile(-1_000_000_000);
    assert_eq!(w.get_tile(1_000_000_000), at_max);
    assert_eq!(w.get_tile(-1_000_000_000), at_min);
    let s = fluctuation_sum(1_000_000_000);
    assert!(0 <= s && s <= 5_000_000);
    let s = fluctuation_sum(-1_000_000_000);
    assert!(0 <= s && s <= 5_000_000);
}

#[test]
fn terrain_sample_window() {
    let mut w = World::with_seed(1);
    let expected = [
        (-2, TileType::Village),
        (-1, TileType::Village),
        (0, TileType::Countryside),
        (1, TileType::Village),
        (2, TileType::Village),
        (3, TileType::Countryside),
        (4, TileType::Village),
        (5, TileType::Village),
        (6, TileType::Countryside),
        (7, TileType::Village),
        (8, TileType::CityMinor),
    ];
    for (n, t) in expected {
        assert_eq!(w.get_tile(n), t, "tile {}", n);
    }
}
