//! Obstacles ("collidables"): their kinds, footprints, deterministic
//! placement per tile, and the axis-aligned collision test against the
//! flyer.

use vstd::prelude::*;

verus! {

use crate::world::tiles::{TileType, TILE_PIXEL_WIDTH_FX};

/// The closed set of obstacle kinds. `House1` is the small footprint,
/// `House2` the medium one, `House3` the large one.
#[derive(Clone, Copy, PartialEq, Eq, Structural, Debug)]
pub enum CollidableType {
    House1,
    House2,
    House3,
}

/// An obstacle standing in the world: its kind and the fixed-point pixel
/// position of its center.
#[derive(Clone, Copy, PartialEq, Eq, Structural, Debug)]
pub struct Collidable {
    pub collidable_type: CollidableType,
    pub x: i64,
    pub y: i64,
}

/// Flyer bounding-box width in fixed-point pixels.
pub const STORK_WIDTH_FX: i64 = 64_000_000;

/// Flyer bounding-box height in fixed-point pixels.
pub const STORK_HEIGHT_FX: i64 = 32_000_000;

/// Footprint (width, height) of an obstacle kind in fixed-point pixels.
pub open spec fn spec_size_of(t: CollidableType) -> (int, int) {
    match t {
        CollidableType::House1 => (156_000_000int, 62_000_000int),
        CollidableType::House2 => (120_000_000int, 144_000_000int),
        CollidableType::House3 => (152_000_000int, 310_000_000int),
    }
}

/// Footprint (width, height) of an obstacle kind in fixed-point pixels.
pub fn collidable_size(t: CollidableType) -> (r: (i64, i64))
    ensures
        (r.0 as int, r.1 as int) == spec_size_of(t),
        0 < r.0 <= 200_000_000,
        0 < r.1 <= 400_000_000,
{
    match t {
        CollidableType::House1 => (156_000_000, 62_000_000),
        CollidableType::House2 => (120_000_000, 144_000_000),
        CollidableType::House3 => (152_000_000, 310_000_000),
    }
}

/// The obstacle of kind `t` placed on tile `n` at horizontal offset `off`
/// from the tile origin, resting on the ground line (its vertical center is
/// half its height).
pub open spec fn spec_placed(t: CollidableType, n: int, off: int) -> Collidable {
    Collidable {
        collidable_type: t,
        x: (n * (TILE_PIXEL_WIDTH_FX as int) + off) as i64,
        y: (spec_size_of(t).1 / 2) as i64,
    }
}

/// The three Village offsets, selected by `tile index mod 3`.
pub open spec fn spec_village_offset(pick: int) -> int {
    if pick == 0 {
        -300_000_000int
    } else if pick == 1 {
        -150_000_000int
    } else {
        200_000_000int
    }
}

/// The four CityMinor offsets, selected through the 12-way table.
pub open spec fn spec_minor_offset(option: int) -> int {
    if option == 0 {
        -300_000_000int
    } else if option == 1 {
        -150_000_000int
    } else if option == 2 {
        200_000_000int
    } else {
        350_000_000int
    }
}

/// The 12-way CityMinor table: distinct offset indices for the small and
/// the medium obstacle, keyed by `tile index mod 12`.
pub open spec fn spec_minor_options(c: int) -> (int, int) {
    if c == 0 {
        (0int, 1int)
    } else if c == 1 {
        (0int, 2int)
    } else if c == 2 {
        (0int, 3int)
    } else if c == 3 {
        (1int, 0int)
    } else if c == 4 {
        (1int, 2int)
    } else if c == 5 {
        (1int, 3int)
    } else if c == 6 {
        (2int, 0int)
    } else if c == 7 {
        (2int, 1int)
    } else if c == 8 {
        (2int, 3int)
    } else if c == 9 {
        (3int, 0int)
    } else if c == 10 {
        (3int, 1int)
    } else {
        (3int, 2int)
    }
}

/// The five-offset pool used by CityMajor tiles.
pub open spec fn spec_major_pool() -> Seq<int> {
    seq![-400_000_000int, -150_000_000int, 0int, 200_000_000int, 350_000_000int]
}

/// The five-offset pool used by CityMetropolis tiles.
pub open spec fn spec_metro_pool() -> Seq<int> {
    seq![-350_000_000int, -150_000_000int, 0int, 200_000_000int, 400_000_000int]
}

/// `k` offsets drawn from `pool` by repeated removal: each draw takes the
/// element at `n mod (current pool size)`, so later draws see a shrinking
/// pool. Deterministic in `n`, but not a uniform shuffle.
pub open spec fn spec_pool_picks(pool: Seq<int>, n: int, k: nat) -> Seq<int>
    decreases k,
{
    if k == 0 || pool.len() == 0 {
        Seq::empty()
    } else {
        let i = n % (pool.len() as int);
        seq![pool[i]] + spec_pool_picks(pool.remove(i), n, (k - 1) as nat)
    }
}

/// The pool left over after the draws of [`spec_pool_picks`].
pub open spec fn spec_pool_rest(pool: Seq<int>, n: int, k: nat) -> Seq<int>
    decreases k,
{
    if k == 0 || pool.len() == 0 {
        pool
    } else {
        let i = n % (pool.len() as int);
        spec_pool_rest(pool.remove(i), n, (k - 1) as nat)
    }
}

/// Offsets mapped to placed obstacles of one kind on tile `n`.
pub open spec fn spec_placed_all(t: CollidableType, n: int, offs: Seq<int>) -> Seq<Collidable> {
    offs.map_values(|off: int| spec_placed(t, n, off))
}

/// The deterministic obstacle layout of a tile: a pure function of the
/// terrain category and the tile index.
#[verifier::opaque]
pub open spec fn spec_collidables(t: TileType, n: int) -> Seq<Collidable> {
    match t {
        TileType::Countryside => Seq::empty(),
        TileType::Village => seq![
            spec_placed(CollidableType::House1, n, spec_village_offset(n % 3)),
        ],
        TileType::CityMinor => {
            let opts = spec_minor_options(n % 12);
            seq![
                spec_placed(CollidableType::House1, n, spec_minor_offset(opts.0)),
                spec_placed(CollidableType::House2, n, spec_minor_offset(opts.1)),
            ]
        },
        TileType::CityMajor => {
            let picks = spec_pool_picks(spec_major_pool(), n, 3);
            let medium = (n % 3) + 1;
            spec_placed_all(CollidableType::House2, n, picks.take(medium)) + spec_placed_all(
                CollidableType::House1,
                n,
                picks.skip(medium),
            )
        },
        TileType::CityMetropolis => {
            let picks = spec_pool_picks(spec_metro_pool(), n, 4);
            spec_placed_all(CollidableType::House3, n, picks.take(1)) + spec_placed_all(
                CollidableType::House2,
                n,
                picks.skip(1),
            )
        },
    }
}

/// Places one obstacle on a tile.
fn place_collidable(t: CollidableType, tile_nr: i64, off: i64) -> (r: Collidable)
    requires
        -1_000_000_000 <= tile_nr <= 1_000_000_000,
        -500_000_000 <= off <= 500_000_000,
    ensures
        r == spec_placed(t, tile_nr as int, off as int),
{
    proof {
        assert(-1_000_000_000_000_000_000 <= (tile_nr as int) * (TILE_PIXEL_WIDTH_FX as int)
            <= 1_000_000_000_000_000_000) by (nonlinear_arith)
            requires
                -1_000_000_000 <= tile_nr <= 1_000_000_000,
        ;
    }
    let (_, h) = collidable_size(t);
    Collidable { collidable_type: t, x: tile_nr * TILE_PIXEL_WIDTH_FX + off, y: h / 2 }
}

/// Draws `k` offsets from `pool` by repeated removal at index
/// `tile_nr mod (current size)`.
fn pool_picks(pool: &mut Vec<i64>, tile_nr: i64, k: usize) -> (picked: Vec<i64>)
    requires
        k <= old(pool).len(),
        old(pool).len() <= 16,
    ensures
        picked@.map_values(|v: i64| v as int) == spec_pool_picks(
            old(pool)@.map_values(|v: i64| v as int),
            tile_nr as int,
            k as nat,
        ),
        final(pool)@.map_values(|v: i64| v as int) == spec_pool_rest(
            old(pool)@.map_values(|v: i64| v as int),
            tile_nr as int,
            k as nat,
        ),
        picked.len() == k,
        final(pool).len() == old(pool).len() - k,
        forall|j: int|
            0 <= j < picked.len() ==> old(pool)@.contains(#[trigger] picked@[j]),
{
    let ghost pool0 = old(pool)@.map_values(|v: i64| v as int);
    let mut picked: Vec<i64> = Vec::new();
    let mut drawn: usize = 0;
    while drawn < k
        invariant
            drawn <= k,
            k <= old(pool).len(),
            old(pool).len() <= 16,
            pool.len() == old(pool).len() - drawn,
            picked.len() == drawn,
            spec_pool_picks(pool0, tile_nr as int, k as nat) == picked@.map_values(
                |v: i64| v as int,
            ) + spec_pool_picks(
                pool@.map_values(|v: i64| v as int),
                tile_nr as int,
                (k - drawn) as nat,
            ),
            spec_pool_rest(pool0, tile_nr as int, k as nat) == spec_pool_rest(
                pool@.map_values(|v: i64| v as int),
                tile_nr as int,
                (k - drawn) as nat,
            ),
            forall|j: int|
                0 <= j < picked.len() ==> old(pool)@.contains(#[trigger] picked@[j]),
            forall|j: int| 0 <= j < pool.len() ==> old(pool)@.contains(#[trigger] pool@[j]),
        decreases k - drawn,
    {
        let len = pool.len();
        let idx_i64 = crate::fixmath::rem_euclid_i64(tile_nr, len as i64);
        let idx = idx_i64 as usize;
        let ghost before = pool@.map_values(|v: i64| v as int);
        let ghost picked_before = picked@.map_values(|v: i64| v as int);
        let ghost rem = (k - drawn) as nat;
        let v = pool.remove(idx);
        picked.push(v);
        drawn = drawn + 1;
        proof {
            let after = pool@.map_values(|v: i64| v as int);
            assert(after =~= before.remove(idx as int));
            assert(before.len() == len);
            assert(before[idx as int] == v as int);
            assert(idx as int == (tile_nr as int) % (before.len() as int));
            assert(rem > 0);
            assert(spec_pool_picks(before, tile_nr as int, rem) == seq![v as int]
                + spec_pool_picks(after, tile_nr as int, (rem - 1) as nat));
            assert(spec_pool_rest(before, tile_nr as int, rem) == spec_pool_rest(
                after,
                tile_nr as int,
                (rem - 1) as nat,
            ));
            assert(picked@.map_values(|v: i64| v as int) =~= picked_before + seq![v as int]);
            assert((picked_before + seq![v as int]) + spec_pool_picks(
                after,
                tile_nr as int,
                (rem - 1) as nat,
            ) =~= picked_before + (seq![v as int] + spec_pool_picks(
                after,
                tile_nr as int,
                (rem - 1) as nat,
            )));
        }
    }
    picked
}

/// The deterministic obstacle layout of a tile, matching
/// [`spec_collidables`]: none on Countryside, one small on Village, a
/// small-medium pair on CityMinor, three on CityMajor, four on
/// CityMetropolis.
pub fn spawn_collidables(tile_type: TileType, tile_nr: i64) -> (r: Vec<Collidable>)
    requires
        -1_000_000_000 <= tile_nr <= 1_000_000_000,
    ensures
        r@ == spec_collidables(tile_type, tile_nr as int),
{
    proof {
        reveal(spec_collidables);
    }
    let n = tile_nr;
    let mut out: Vec<Collidable> = Vec::new();
    match tile_type {
        TileType::Countryside => {
            proof {
                assert(out@ =~= spec_collidables(tile_type, n as int));
            }
        },
        TileType::Village => {
            let pick = crate::fixmath::rem_euclid_i64(n, 3);
            let off: i64 = if pick == 0 {
                -300_000_000
            } else if pick == 1 {
                -150_000_000
            } else {
                200_000_000
            };
            out.push(place_collidable(CollidableType::House1, n, off));
            proof {
                assert(out@ =~= spec_collidables(tile_type, n as int));
            }
        },
        TileType::CityMinor => {
            let c = crate::fixmath::rem_euclid_i64(n, 12);
            let (o1, o2): (i64, i64) = if c == 0 {
                (0, 1)
            } else if c == 1 {
                (0, 2)
            } else if c == 2 {
                (0, 3)
            } else if c == 3 {
                (1, 0)
            } else if c == 4 {
                (1, 2)
            } else if c == 5 {
                (1, 3)
            } else if c == 6 {
                (2, 0)
            } else if c == 7 {
                (2, 1)
            } else if c == 8 {
                (2, 3)
            } else if c == 9 {
                (3, 0)
            } else if c == 10 {
                (3, 1)
            } else {
                (3, 2)
            };
            let off1 = minor_offset(o1);
            let off2 = minor_offset(o2);
            out.push(place_collidable(CollidableType::House1, n, off1));
            out.push(place_collidable(CollidableType::House2, n, off2));
            proof {
                assert(out@ =~= spec_collidables(tile_type, n as int));
            }
        },
        TileType::CityMajor => {
            let mut pool: Vec<i64> = Vec::new();
            pool.push(-400_000_000);
            pool.push(-150_000_000);
            pool.push(0);
            pool.push(200_000_000);
            pool.push(350_000_000);
            proof {
                assert(pool@.map_values(|v: i64| v as int) =~= spec_major_pool());
            }
            let medium = crate::fixmath::rem_euclid_i64(n, 3) + 1;
            let picks = pool_picks(&mut pool, n, 3);
            let ghost picks_spec = spec_pool_picks(spec_major_pool(), n as int, 3);
            let mut j: usize = 0;
            while j < medium as usize
                invariant
                    medium == (n as int) % 3 + 1,
                    j <= medium as usize,
                    picks.len() == 3,
                    picks@.map_values(|v: i64| v as int) == picks_spec,
                    forall|q: int|
                        0 <= q < picks.len() ==> -500_000_000 <= #[trigger] picks@[q]
                            <= 500_000_000,
                    -1_000_000_000 <= n <= 1_000_000_000,
                    out@ == spec_placed_all(
                        CollidableType::House2,
                        n as int,
                        picks_spec.take(j as int),
                    ),
                decreases medium as usize - j,
            {
                out.push(place_collidable(CollidableType::House2, n, picks[j]));
                j = j + 1;
                proof {
                    assert(spec_placed_all(
                        CollidableType::House2,
                        n as int,
                        picks_spec.take(j as int),
                    ) =~= spec_placed_all(
                        CollidableType::House2,
                        n as int,
                        picks_spec.take(j - 1),
                    ).push(spec_placed(CollidableType::House2, n as int, picks_spec[j - 1])));
                }
            }
            let ghost out_mid = out@;
            while j < 3
                invariant
                    medium == (n as int) % 3 + 1,
                    1 <= medium <= 3,
                    medium as usize <= j <= 3,
                    picks.len() == 3,
                    picks@.map_values(|v: i64| v as int) == picks_spec,
                    forall|q: int|
                        0 <= q < picks.len() ==> -500_000_000 <= #[trigger] picks@[q]
                            <= 500_000_000,
                    -1_000_000_000 <= n <= 1_000_000_000,
                    out_mid == spec_placed_all(
                        CollidableType::House2,
                        n as int,
                        picks_spec.take(medium as int),
                    ),
                    out@ == out_mid + spec_placed_all(
                        CollidableType::House1,
                        n as int,
                        picks_spec.subrange(medium as int, j as int),
                    ),
                decreases 3 - j,
            {
                out.push(place_collidable(CollidableType::House1, n, picks[j]));
                j = j + 1;
                proof {
                    assert(out_mid + spec_placed_all(
                        CollidableType::House1,
                        n as int,
                        picks_spec.subrange(medium as int, j as int),
                    ) =~= (out_mid + spec_placed_all(
                        CollidableType::House1,
                        n as int,
                        picks_spec.subrange(medium as int, j - 1),
                    )).push(spec_placed(CollidableType::House1, n as int, picks_spec[j - 1])));
                }
            }
            proof {
                assert(picks_spec.subrange(medium as int, 3) =~= picks_spec.skip(medium as int));
                assert(out@ =~= spec_collidables(tile_type, n as int));
            }
        },
        TileType::CityMetropolis => {
            let mut pool: Vec<i64> = Vec::new();
            pool.push(-350_000_000);
            pool.push(-150_000_000);
            pool.push(0);
            pool.push(200_000_000);
            pool.push(400_000_000);
            proof {
                assert(pool@.map_values(|v: i64| v as int) =~= spec_metro_pool());
            }
            let picks = pool_picks(&mut pool, n, 4);
            let ghost picks_spec = spec_pool_picks(spec_metro_pool(), n as int, 4);
            out.push(place_collidable(CollidableType::House3, n, picks[0]));
            proof {
                assert(out@ =~= spec_placed_all(
                    CollidableType::House3,
                    n as int,
                    picks_spec.take(1),
                ));
            }
            let mut j: usize = 1;
            while j < 4
                invariant
                    1 <= j <= 4,
                    picks.len() == 4,
                    picks@.map_values(|v: i64| v as int) == picks_spec,
                    forall|q: int|
                        0 <= q < picks.len() ==> -500_000_000 <= #[trigger] picks@[q]
                            <= 500_000_000,
                    -1_000_000_000 <= n <= 1_000_000_000,
                    out@ == spec_placed_all(CollidableType::House3, n as int, picks_spec.take(1))
                        + spec_placed_all(
                        CollidableType::House2,
                        n as int,
                        picks_spec.subrange(1, j as int),
                    ),
                decreases 4 - j,
            {
                out.push(place_collidable(CollidableType::House2, n, picks[j]));
                j = j + 1;
                proof {
                    assert(spec_placed_all(CollidableType::House3, n as int, picks_spec.take(1))
                        + spec_placed_all(
                        CollidableType::House2,
                        n as int,
                        picks_spec.subrange(1, j as int),
                    ) =~= (spec_placed_all(CollidableType::House3, n as int, picks_spec.take(1))
                        + spec_placed_all(
                        CollidableType::House2,
                        n as int,
                        picks_spec.subrange(1, j - 1),
                    )).push(spec_placed(CollidableType::House2, n as int, picks_spec[j - 1])));
                }
            }
            proof {
                assert(picks_spec.subrange(1, 4) =~= picks_spec.skip(1));
                assert(out@ =~= spec_collidables(tile_type, n as int));
            }
        },
    }
    out
}

/// The CityMinor offset table as executable code.
fn minor_offset(option: i64) -> (r: i64)
    requires
        0 <= option <= 3,
    ensures
        r as int == spec_minor_offset(option as int),
        -500_000_000 <= r <= 500_000_000,
{
    if option == 0 {
        -300_000_000
    } else if option == 1 {
        -150_000_000
    } else if option == 2 {
        200_000_000
    } else {
        350_000_000
    }
}

/// The flyer box centered at `(sx, sy)` overlaps the obstacle `c` on both
/// axes, with strict inequalities on every edge.
pub open spec fn spec_hit(sx: int, sy: int, c: Collidable) -> bool {
    let s = spec_size_of(c.collidable_type);
    &&& sx - (STORK_WIDTH_FX as int) / 2 < c.x + s.0 / 2
    &&& c.x - s.0 / 2 < sx + (STORK_WIDTH_FX as int) / 2
    &&& sy - (STORK_HEIGHT_FX as int) / 2 < c.y + s.1 / 2
    &&& c.y - s.1 / 2 < sy + (STORK_HEIGHT_FX as int) / 2
}

/// Axis-aligned collision monitor: reports whether the flyer box centered
/// at `(stork_x, stork_y)` overlaps any obstacle in the list. The scan
/// stops at the first overlap; which obstacle triggered it does not matter,
/// the signal is a single terminal boolean.
pub fn stork_hit_collidable(stork_x: i64, stork_y: i64, collidables: &Vec<Collidable>) -> (hit:
    bool)
    ensures
        hit == exists|i: int|
            0 <= i < collidables.len() && spec_hit(stork_x as int, stork_y as int, collidables@[i]),
{
    let sx = stork_x as i128;
    let sy = stork_y as i128;
    let mut i: usize = 0;
    while i < collidables.len()
        invariant
            i <= collidables.len(),
            sx == stork_x as i128,
            sy == stork_y as i128,
            forall|q: int|
                0 <= q < i ==> !spec_hit(stork_x as int, stork_y as int, collidables@[q]),
        decreases collidables.len() - i,
    {
        let c = collidables[i];
        let (w, h) = collidable_size(c.collidable_type);
        let cx = c.x as i128;
        let cy = c.y as i128;
        let hw = (w / 2) as i128;
        let hh = (h / 2) as i128;
        let hsw = (STORK_WIDTH_FX / 2) as i128;
        let hsh = (STORK_HEIGHT_FX / 2) as i128;
        let left_ok: bool = sx - hsw < cx + hw;
        let right_ok: bool = cx - hw < sx + hsw;
        let low_ok: bool = sy - hsh < cy + hh;
        let high_ok: bool = cy - hh < sy + hsh;
        let hit_x = left_ok && right_ok;
        let hit_y = low_ok && high_ok;
        if hit_x && hit_y {
            proof {
                assert(spec_hit(stork_x as int, stork_y as int, collidables@[i as int]));
            }
            return true;
        }
        i = i + 1;
    }
    false
}

} // verus!
