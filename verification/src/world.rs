//! World generation state: the seed, the memo of computed terrain
//! categories, and the deterministic tile-index-to-terrain function.

use vstd::prelude::*;

pub mod collidables;
pub mod tiles;

verus! {

use std::collections::HashMap;
use crate::{CoreError, FX_ONE};
use crate::fixmath::{sin_fx, spec_sin_fx};
use crate::world::tiles::TileType;

broadcast use vstd::std_specs::hash::group_hash_axioms;

/// Top of the fluctuation-sum range: 5.0 in fixed point.
pub const FLUCTUATION_MAX_FX: i64 = 5_000_000;

/// Largest tile index (in magnitude) the generator accepts; a machine
/// limit that keeps every pixel coordinate inside 64-bit fixed point.
pub const MAX_TILE_INDEX: i64 = 1_000_000_000;

/// Fixed-point square: `s * s` scaled back down by `FX_ONE`.
pub open spec fn spec_sq_fx(s: int) -> int {
    (s * s) / (FX_ONE as int)
}

/// The three sinusoidal fluctuation terms of a tile index, combined:
/// `1.5 * sin(n)^2 + 1.0 * sin(0.42 n)^4 + 2.5 * sin(0.13 n)^8`,
/// evaluated in fixed point.
#[verifier::opaque]
pub open spec fn spec_fluctuation_sum(n: int) -> int {
    let micro_sq = spec_sq_fx(spec_sin_fx(n * (FX_ONE as int)));
    let minor_sq = spec_sq_fx(spec_sin_fx(n * 420_000));
    let minor4 = spec_sq_fx(minor_sq);
    let major_sq = spec_sq_fx(spec_sin_fx(n * 130_000));
    let major4 = spec_sq_fx(major_sq);
    let major8 = spec_sq_fx(major4);
    (3 * micro_sq) / 2 + minor4 + (5 * major8) / 2
}

/// The bucket of a fluctuation sum: five contiguous ranges, each closed at
/// its upper bound, and nothing outside `[0, 5]`.
pub open spec fn spec_category(sum: int) -> Option<TileType> {
    if sum < 0 {
        None
    } else if sum <= FX_ONE {
        Some(TileType::Countryside)
    } else if sum <= 2 * FX_ONE {
        Some(TileType::Village)
    } else if sum <= 3 * FX_ONE {
        Some(TileType::CityMinor)
    } else if sum <= 4 * FX_ONE {
        Some(TileType::CityMajor)
    } else if sum <= 5 * FX_ONE {
        Some(TileType::CityMetropolis)
    } else {
        None
    }
}

/// The terrain category of a tile index: bucket of the fluctuation sum.
/// Total because the sum provably stays in `[0, 5]`
/// ([`lemma_fluctuation_sum_bounded`]).
pub open spec fn spec_terrain(n: int) -> TileType {
    match spec_category(spec_fluctuation_sum(n)) {
        Some(t) => t,
        None => TileType::Countryside,
    }
}

/// A fixed-point square of a value in `[-1, 1]` lies in `[0, 1]`.
pub proof fn lemma_sq_fx_bounds(s: int)
    requires
        -(FX_ONE as int) <= s <= FX_ONE as int,
    ensures
        0 <= spec_sq_fx(s) <= FX_ONE as int,
{
    assert(0 <= s * s <= 1_000_000_000_000) by (nonlinear_arith)
        requires
            -1_000_000 <= s <= 1_000_000,
    ;
    vstd::arithmetic::div_mod::lemma_div_pos_is_pos(s * s, FX_ONE as int);
    vstd::arithmetic::div_mod::lemma_div_is_ordered(s * s, 1_000_000_000_000, FX_ONE as int);
}

/// Boundedness of the generator: for every tile index the fluctuation sum
/// lies in `[0, 5]`, so the bucketing never falls outside its five ranges.
pub proof fn lemma_fluctuation_sum_bounded(n: int)
    ensures
        0 <= spec_fluctuation_sum(n) <= 5 * FX_ONE,
{
    reveal(spec_fluctuation_sum);
    crate::fixmath::lemma_sin_fx_bounds(n * (FX_ONE as int));
    crate::fixmath::lemma_sin_fx_bounds(n * 420_000);
    crate::fixmath::lemma_sin_fx_bounds(n * 130_000);
    let micro_sq = spec_sq_fx(spec_sin_fx(n * (FX_ONE as int)));
    let minor_sq = spec_sq_fx(spec_sin_fx(n * 420_000));
    let minor4 = spec_sq_fx(minor_sq);
    let major_sq = spec_sq_fx(spec_sin_fx(n * 130_000));
    let major4 = spec_sq_fx(major_sq);
    let major8 = spec_sq_fx(major4);
    lemma_sq_fx_bounds(spec_sin_fx(n * (FX_ONE as int)));
    lemma_sq_fx_bounds(spec_sin_fx(n * 420_000));
    lemma_sq_fx_bounds(minor_sq);
    lemma_sq_fx_bounds(spec_sin_fx(n * 130_000));
    lemma_sq_fx_bounds(major_sq);
    lemma_sq_fx_bounds(major4);
    assert(0 <= (3 * micro_sq) / 2 <= 1_500_000) by {
        vstd::arithmetic::div_mod::lemma_div_pos_is_pos(3 * micro_sq, 2);
        vstd::arithmetic::div_mod::lemma_div_is_ordered(3 * micro_sq, 3_000_000, 2);
    };
    assert(0 <= (5 * major8) / 2 <= 2_500_000) by {
        vstd::arithmetic::div_mod::lemma_div_pos_is_pos(5 * major8, 2);
        vstd::arithmetic::div_mod::lemma_div_is_ordered(5 * major8, 5_000_000, 2);
    };
}

/// Every in-range fluctuation sum falls in exactly one bucket, and each
/// whole-number boundary belongs to the bucket below it.
pub proof fn lemma_buckets_cover(sum: int)
    requires
        0 <= sum <= 5 * FX_ONE,
    ensures
        spec_category(sum) is Some,
        sum == FX_ONE ==> spec_category(sum) == Some(TileType::Countryside),
        sum == 2 * FX_ONE ==> spec_category(sum) == Some(TileType::Village),
        sum == 3 * FX_ONE ==> spec_category(sum) == Some(TileType::CityMinor),
        sum == 4 * FX_ONE ==> spec_category(sum) == Some(TileType::CityMajor),
        sum == 5 * FX_ONE ==> spec_category(sum) == Some(TileType::CityMetropolis),
{
}

/// Fixed-point square, matching [`spec_sq_fx`].
fn sq_fx(s: i64) -> (r: i64)
    requires
        -FX_ONE <= s <= FX_ONE,
    ensures
        r == spec_sq_fx(s as int),
        0 <= r <= FX_ONE,
{
    proof {
        assert(0 <= (s as int) * (s as int) <= 1_000_000_000_000) by (nonlinear_arith)
            requires
                -1_000_000 <= s <= 1_000_000,
        ;
        lemma_sq_fx_bounds(s as int);
    }
    (s * s) / FX_ONE
}

/// The fluctuation sum of a tile index, in fixed point; always in
/// `[0, 5]`.
pub fn fluctuation_sum(tile_nr: i64) -> (r: i64)
    requires
        -MAX_TILE_INDEX <= tile_nr <= MAX_TILE_INDEX,
    ensures
        r == spec_fluctuation_sum(tile_nr as int),
        0 <= r <= FLUCTUATION_MAX_FX,
{
    proof {
        reveal(spec_fluctuation_sum);
        lemma_fluctuation_sum_bounded(tile_nr as int);
    }
    let micro_sq = sq_fx(sin_fx(tile_nr * FX_ONE));
    let minor_sq = sq_fx(sin_fx(tile_nr * 420_000));
    let minor4 = sq_fx(minor_sq);
    let major_sq = sq_fx(sin_fx(tile_nr * 130_000));
    let major4 = sq_fx(major_sq);
    let major8 = sq_fx(major4);
    (3 * micro_sq) / 2 + minor4 + (5 * major8) / 2
}

/// Buckets a fluctuation sum into a terrain category. A sum outside
/// `[0, 5]` is a broken generation model and is reported as
/// [`CoreError::InvalidState`], never silently defaulted.
pub fn categorize_sum(sum: i64) -> (r: Result<TileType, CoreError>)
    ensures
        (match r {
            Ok(t) => spec_category(sum as int) == Some(t),
            Err(e) => spec_category(sum as int) is None && e == CoreError::InvalidState,
        }),
{
    if sum >= 0 && sum <= FX_ONE {
        Ok(TileType::Countryside)
    } else if sum > FX_ONE && sum <= 2 * FX_ONE {
        Ok(TileType::Village)
    } else if sum > 2 * FX_ONE && sum <= 3 * FX_ONE {
        Ok(TileType::CityMinor)
    } else if sum > 3 * FX_ONE && sum <= 4 * FX_ONE {
        Ok(TileType::CityMajor)
    } else if sum > 4 * FX_ONE && sum <= 5 * FX_ONE {
        Ok(TileType::CityMetropolis)
    } else {
        Err(CoreError::InvalidState)
    }
}

/// World generation state: the session seed and the memo of terrain
/// categories computed so far. The seed is kept for the session's lifetime;
/// the fluctuation formula does not consume it, so two worlds with
/// different seeds generate the same terrain.
pub struct World {
    seed: u64,
    tiles: HashMap<i64, TileType>,
}

impl World {
    /// The memo of computed categories.
    pub closed spec fn memo(&self) -> Map<i64, TileType> {
        self.tiles@
    }

    /// The seed chosen at construction.
    pub closed spec fn seed_value(&self) -> u64 {
        self.seed
    }

    /// Every memoized category equals the pure generator's value.
    pub closed spec fn wf(&self) -> bool {
        forall|k: i64|
            self.tiles@.dom().contains(k) ==> self.tiles@[k] == spec_terrain(k as int)
    }

    /// A world with a caller-chosen seed and an empty memo.
    pub fn with_seed(seed: u64) -> (r: World)
        ensures
            r.wf(),
            r.memo() == Map::<i64, TileType>::empty(),
            r.seed_value() == seed,
    {
        World { seed, tiles: HashMap::new() }
    }

    /// The terrain category of a tile, memoized: the first query computes
    /// the fluctuation sum and buckets it, later queries return the cached
    /// category. Either way the result is the pure function
    /// [`spec_terrain`] of the index alone — deterministic across calls,
    /// memo resets and worlds.
    pub fn get_tile(&mut self, tile_nr: i64) -> (t: TileType)
        requires
            old(self).wf(),
            -MAX_TILE_INDEX <= tile_nr <= MAX_TILE_INDEX,
        ensures
            final(self).wf(),
            t == spec_terrain(tile_nr as int),
            final(self).seed_value() == old(self).seed_value(),
            final(self).memo() == old(self).memo().insert(tile_nr, t),
    {
        if let Some(cached) = self.tiles.get(&tile_nr) {
            let t = *cached;
            proof {
                assert(old(self).memo().insert(tile_nr, t) =~= old(self).memo());
            }
            return t;
        }
        let sum = fluctuation_sum(tile_nr);
        let t = match categorize_sum(sum) {
            Ok(t) => t,
            Err(_) => {
                proof {
                    lemma_fluctuation_sum_bounded(tile_nr as int);
                    lemma_buckets_cover(sum as int);
                    assert(false);
                }
                TileType::Countryside
            },
        };
        self.tiles.insert(tile_nr, t);
        t
    }
}

/// A memoized category never disagrees with the generator: whatever a
/// well-formed world has cached for an index is exactly the pure
/// function's value, so destroying and re-requesting a tile cannot change
/// its terrain.
pub proof fn lemma_memo_matches_generator(w: &World, k: i64)
    requires
        w.wf(),
        w.memo().dom().contains(k),
    ensures
        w.memo()[k] == spec_terrain(k as int),
{
}

/// Relies on rand::random: draws a value from the thread-local generator.
/// Nothing is assumed about which value comes back.
pub assume_specification<T>[ rand::random::<T> ]() -> (r: T)
    where
        rand::distributions::Standard: rand::distributions::Distribution<T>,
;

impl Default for World {
    /// A world with a randomly drawn seed and an empty memo.
    fn default() -> (r: World)
        ensures
            r.wf(),
            r.memo() == Map::<i64, TileType>::empty(),
    {
        World { seed: rand::random::<u64>(), tiles: HashMap::new() }
    }
}

} // verus!
