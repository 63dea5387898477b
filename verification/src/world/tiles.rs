//! Tiles: fixed-width slices of the world, each with a terrain category and
//! the obstacles standing on it, streamed in and out of existence as the
//! camera moves.
//!
//! The streaming pass derives the window of tile indices the camera can
//! see, destroys every tile that fell behind its left edge, and spawns
//! every index of the window that is not present. Tiles to the right of
//! the window are left alone: eviction is one-directional, matching a
//! world that scrolls rightward.

use vstd::prelude::*;

verus! {

use crate::world::collidables::{spawn_collidables, spec_collidables, Collidable};
use crate::world::{spec_terrain, World, MAX_TILE_INDEX};
use crate::fixmath::{ceil_div_i64, floor_div_i64};

/// Terrain category of a tile, ordered from sparsest to densest.
#[derive(Clone, Copy, PartialEq, Eq, Structural, Debug)]
pub enum TileType {
    Countryside,
    Village,
    CityMinor,
    CityMajor,
    CityMetropolis,
}

/// Width of a tile in meters.
pub const TILE_SIZE: i64 = 10;

/// Half of the horizontal extent, in fixed-point pixels, within which tiles
/// must exist around the camera.
pub const MAX_WINDOW_WIDTH_FX: i64 = 2_000_000_000;

/// Width of a tile in fixed-point pixels:
/// `TILE_SIZE * PIXELS_PER_METER * FX_ONE`.
pub const TILE_PIXEL_WIDTH_FX: i64 = 1_000_000_000;

/// Largest camera position (in magnitude, fixed-point pixels) the
/// streaming pass accepts; keeps every derived tile index within
/// [`MAX_TILE_INDEX`].
pub const CAMERA_LIMIT_FX: i64 = 900_000_000_000_000_000;

/// A live tile: its terrain category, its index in the world, and the
/// obstacles it owns. The obstacles live and die with the tile.
#[derive(Clone, Debug)]
pub struct Tile {
    pub tile_type: TileType,
    pub order: i64,
    pub collidables: Vec<Collidable>,
}

/// What one streaming pass did: the indices of the tiles it created and of
/// the tiles it destroyed, in the order it touched them.
pub struct StreamActions {
    pub spawned: Vec<i64>,
    pub despawned: Vec<i64>,
}

/// The one pixel mapping used everywhere — window computation, eviction
/// and obstacle placement: a tile's pixel width is its width in meters
/// scaled by `PIXELS_PER_METER`, in fixed point.
pub proof fn lemma_tile_width_consistent()
    ensures
        TILE_PIXEL_WIDTH_FX as int == (TILE_SIZE as int) * (crate::PIXELS_PER_METER as int) * (
        crate::FX_ONE as int),
{
}

/// The leftmost tile index the camera at `camera_x` can require.
pub open spec fn spec_left_tile(camera_x: int) -> int {
    (camera_x - MAX_WINDOW_WIDTH_FX) / (TILE_PIXEL_WIDTH_FX as int)
}

/// The rightmost tile index the camera at `camera_x` can require
/// (a ceiling division).
pub open spec fn spec_right_tile(camera_x: int) -> int {
    (camera_x + MAX_WINDOW_WIDTH_FX + TILE_PIXEL_WIDTH_FX - 1) / (TILE_PIXEL_WIDTH_FX as int)
}

/// A tile record is exactly what the generator and the planner produce for
/// its index.
pub open spec fn spec_tile_wf(t: Tile) -> bool {
    &&& -MAX_TILE_INDEX <= t.order <= MAX_TILE_INDEX
    &&& t.tile_type == spec_terrain(t.order as int)
    &&& t.collidables@ == spec_collidables(spec_terrain(t.order as int), t.order as int)
}

/// Some tile in `s` has index `i`.
pub open spec fn spec_has_order(s: Seq<Tile>, i: int) -> bool {
    exists|j: int| 0 <= j < s.len() && s[j].order as int == i
}

/// Every record is well formed and no index occurs twice.
pub open spec fn spec_live_wf(s: Seq<Tile>) -> bool {
    &&& forall|j: int| 0 <= j < s.len() ==> spec_tile_wf(#[trigger] s[j])
    &&& forall|j1: int, j2: int|
        0 <= j1 < s.len() && 0 <= j2 < s.len() && j1 != j2 ==> #[trigger] s[j1].order
            != #[trigger] s[j2].order
}

/// The indices in `[l, l + count)` that have no tile in `s`, in increasing
/// order.
pub open spec fn spec_missing_count(s: Seq<Tile>, l: int, count: nat) -> Seq<int>
    decreases count,
{
    if count == 0 {
        Seq::empty()
    } else {
        let prev = spec_missing_count(s, l, (count - 1) as nat);
        let i = l + count - 1;
        if spec_has_order(s, i) {
            prev
        } else {
            prev + seq![i]
        }
    }
}

/// The indices in `[l, r]` that have no tile in `s`, in increasing order.
pub open spec fn spec_missing(s: Seq<Tile>, l: int, r: int) -> Seq<int> {
    if r < l {
        Seq::empty()
    } else {
        spec_missing_count(s, l, (r + 1 - l) as nat)
    }
}

/// Keeps a tile during eviction: its index has not fallen behind the left
/// edge.
pub open spec fn spec_keep(l: int) -> spec_fn(Tile) -> bool {
    |t: Tile| t.order as int >= l
}

/// Drops a tile during eviction.
pub open spec fn spec_drop(l: int) -> spec_fn(Tile) -> bool {
    |t: Tile| (t.order as int) < l
}

/// The window `[l, r]` is settled in `s`: nothing lies behind the left
/// edge and every index of the window is present.
pub open spec fn spec_window_settled(s: Seq<Tile>, l: int, r: int) -> bool {
    &&& forall|j: int| 0 <= j < s.len() ==> (#[trigger] s[j].order as int) >= l
    &&& forall|i: int| l <= i <= r ==> spec_has_order(s, i)
}

/// Every element of a filtered sequence is an element of the original.
proof fn lemma_filter_is_subset(s: Seq<Tile>, pred: spec_fn(Tile) -> bool)
    ensures
        forall|i: int|
            0 <= i < s.filter(pred).len() ==> s.contains(#[trigger] s.filter(pred)[i]),
    decreases s.len(),
{
    reveal(Seq::filter);
    if s.len() > 0 {
        lemma_filter_is_subset(s.drop_last(), pred);
        let f = s.filter(pred);
        let fd = s.drop_last().filter(pred);
        assert forall|i: int| 0 <= i < f.len() implies s.contains(f[i]) by {
            if i < fd.len() {
                assert(f[i] == fd[i]);
                assert(s.drop_last().contains(fd[i]));
                let j = choose|j: int|
                    0 <= j < s.drop_last().len() && s.drop_last()[j] == fd[i];
                assert(s[j] == f[i]);
            } else {
                assert(pred(s.last()));
                assert(f[i] == s.last());
                assert(s[s.len() - 1] == f[i]);
            }
        }
    }
}

/// Filtering a well-formed list of live tiles leaves it well formed: every
/// record stays intact and no duplicate index can appear.
proof fn lemma_live_wf_filter(s: Seq<Tile>, pred: spec_fn(Tile) -> bool)
    requires
        spec_live_wf(s),
    ensures
        spec_live_wf(s.filter(pred)),
{
    lemma_filter_is_subset(s, pred);
    let f = s.filter(pred);
    assert forall|j: int| 0 <= j < f.len() implies spec_tile_wf(#[trigger] f[j]) by {
        assert(s.contains(f[j]));
        let w = choose|w: int| 0 <= w < s.len() && s[w] == f[j];
        assert(spec_tile_wf(s[w]));
    }
    assert forall|j1: int, j2: int|
        0 <= j1 < f.len() && 0 <= j2 < f.len() && j1 != j2 implies #[trigger] f[j1].order
        != #[trigger] f[j2].order by {
        lemma_filter_distinct_orders(s, pred, j1, j2);
    }
}

/// Two distinct positions of a filtered well-formed list carry distinct
/// indices.
proof fn lemma_filter_distinct_orders(
    s: Seq<Tile>,
    pred: spec_fn(Tile) -> bool,
    j1: int,
    j2: int,
)
    requires
        spec_live_wf(s),
        0 <= j1 < s.filter(pred).len(),
        0 <= j2 < s.filter(pred).len(),
        j1 != j2,
    ensures
        s.filter(pred)[j1].order != s.filter(pred)[j2].order,
    decreases s.len(),
{
    reveal(Seq::filter);
    if s.len() > 0 {
        let f = s.filter(pred);
        let fd = s.drop_last().filter(pred);
        assert(spec_live_wf(s.drop_last())) by {
            assert(forall|q: int|
                0 <= q < s.drop_last().len() ==> #[trigger] s.drop_last()[q] == s[q]);
        }
        if j1 < fd.len() && j2 < fd.len() {
            lemma_filter_distinct_orders(s.drop_last(), pred, j1, j2);
            assert(f[j1] == fd[j1] && f[j2] == fd[j2]);
        } else {
            let (inside, last_pos) = if j1 < fd.len() {
                (j1, j2)
            } else {
                (j2, j1)
            };
            assert(last_pos == fd.len() && pred(s.last()) && f[last_pos] == s.last());
            lemma_filter_is_subset(s.drop_last(), pred);
            assert(s.drop_last().contains(fd[inside]));
            let w = choose|w: int|
                0 <= w < s.drop_last().len() && s.drop_last()[w] == fd[inside];
            assert(s[w] == f[inside]);
            assert(s[w].order != s[s.len() - 1].order);
        }
    }
}

/// One streaming pass, the heart of the world manager: derives the visible
/// window from the camera position, destroys every tile that fell behind
/// the window's left edge (and with it its obstacles), and spawns a tile —
/// terrain category from the generator, obstacles from the planner — for
/// every window index that has none. Tiles to the right of the window are
/// never touched. A second pass with an unmoved camera finds the window
/// settled and does nothing ([`lemma_streaming_idempotent`]).
#[verifier::rlimit(100)]
pub fn spawn_tiles(world: &mut World, live: &mut Vec<Tile>, camera_x: i64) -> (actions:
    StreamActions)
    requires
        old(world).wf(),
        spec_live_wf(old(live)@),
        -CAMERA_LIMIT_FX <= camera_x <= CAMERA_LIMIT_FX,
    ensures
        final(world).wf(),
        final(world).seed_value() == old(world).seed_value(),
        spec_live_wf(final(live)@),
        ({
            let l = spec_left_tile(camera_x as int);
            let r = spec_right_tile(camera_x as int);
            let kept = old(live)@.filter(spec_keep(l));
            let missing = spec_missing(kept, l, r);
            &&& final(live)@.len() == kept.len() + missing.len()
            &&& final(live)@.subrange(0, kept.len() as int) == kept
            &&& forall|j: int|
                0 <= j < missing.len() ==> (#[trigger] final(live)@[kept.len() + j]).order as int
                    == missing[j] && spec_tile_wf(final(live)@[kept.len() + j])
            &&& actions.spawned@.map_values(|v: i64| v as int) == missing
            &&& actions.despawned@.map_values(|v: i64| v as int) == old(live)@.filter(
                spec_drop(l),
            ).map_values(|t: Tile| t.order as int)
            &&& spec_window_settled(final(live)@, l, r)
        }),
{
    let left = floor_div_i64(camera_x - MAX_WINDOW_WIDTH_FX, TILE_PIXEL_WIDTH_FX);
    let right = ceil_div_i64(camera_x + MAX_WINDOW_WIDTH_FX, TILE_PIXEL_WIDTH_FX);
    proof {
        vstd::arithmetic::div_mod::lemma_div_is_ordered(
            -902_000_000_000_000_000,
            camera_x as int - MAX_WINDOW_WIDTH_FX,
            TILE_PIXEL_WIDTH_FX as int,
        );
        vstd::arithmetic::div_mod::lemma_div_is_ordered(
            camera_x as int - MAX_WINDOW_WIDTH_FX,
            camera_x as int + MAX_WINDOW_WIDTH_FX + TILE_PIXEL_WIDTH_FX - 1,
            TILE_PIXEL_WIDTH_FX as int,
        );
        vstd::arithmetic::div_mod::lemma_div_is_ordered(
            camera_x as int + MAX_WINDOW_WIDTH_FX + TILE_PIXEL_WIDTH_FX - 1,
            902_000_000_000_000_000,
            TILE_PIXEL_WIDTH_FX as int,
        );
        assert(-902_000_000 <= left as int <= right as int <= 902_000_000);
    }
    let despawned = evict_tiles(live, left);
    let spawned = fill_window(world, live, left, right);
    StreamActions { spawned, despawned }
}

/// Eviction pass: removes, in place, every tile whose index lies behind
/// `left`, and reports their indices in the order encountered.
#[verifier::rlimit(100)]
fn evict_tiles(live: &mut Vec<Tile>, left: i64) -> (despawned: Vec<i64>)
    requires
        spec_live_wf(old(live)@),
    ensures
        final(live)@ == old(live)@.filter(spec_keep(left as int)),
        despawned@.map_values(|v: i64| v as int) == old(live)@.filter(
            spec_drop(left as int),
        ).map_values(|t: Tile| t.order as int),
        spec_live_wf(final(live)@),
        forall|q: int|
            0 <= q < final(live)@.len() ==> (#[trigger] final(live)@[q].order as int)
                >= left as int,
{
    let ghost old0 = live@;
    let ghost l = left as int;
    let mut despawned: Vec<i64> = Vec::new();
    let mut i: usize = 0;
    while i < live.len()
        invariant
            l == left as int,
            i <= live.len(),
            i + despawned.len() <= old0.len(),
            live@ == old0.subrange(0, (i + despawned.len()) as int).filter(spec_keep(l))
                + old0.subrange((i + despawned.len()) as int, old0.len() as int),
            i as int == old0.subrange(0, (i + despawned.len()) as int).filter(spec_keep(l)).len(),
            despawned@.map_values(|v: i64| v as int) == old0.subrange(
                0,
                (i + despawned.len()) as int,
            ).filter(spec_drop(l)).map_values(|t: Tile| t.order as int),
        decreases live.len() - i,
    {
        proof {
            reveal(Seq::filter);
        }
        let ghost j = (i + despawned.len()) as int;
        proof {
            assert(live@[i as int] == old0[j]);
            assert(old0.subrange(0, j + 1) =~= old0.subrange(0, j).push(old0[j]));
            assert(old0.subrange(0, j + 1).drop_last() =~= old0.subrange(0, j));
        }
        if live[i].order < left {
            let ghost desp_before = despawned@;
            let t = live.remove(i);
            despawned.push(t.order);
            proof {
                assert(old0.subrange(0, j + 1).filter(spec_keep(l)) =~= old0.subrange(0, j).filter(
                    spec_keep(l),
                ));
                assert(old0.subrange(0, j + 1).filter(spec_drop(l)) =~= old0.subrange(0, j).filter(
                    spec_drop(l),
                ).push(old0[j]));
                desp_before.lemma_push_map_commute(|v: i64| v as int, t.order);
                old0.subrange(0, j).filter(spec_drop(l)).lemma_push_map_commute(
                    |t: Tile| t.order as int,
                    old0[j],
                );
                assert(live@ =~= old0.subrange(0, j + 1).filter(spec_keep(l)) + old0.subrange(
                    j + 1,
                    old0.len() as int,
                ));
                assert(despawned@.map_values(|v: i64| v as int) =~= old0.subrange(0, j + 1).filter(
                    spec_drop(l),
                ).map_values(|t: Tile| t.order as int));
            }
        } else {
            i = i + 1;
            proof {
                assert(old0.subrange(0, j + 1).filter(spec_keep(l)) =~= old0.subrange(0, j).filter(
                    spec_keep(l),
                ).push(old0[j]));
                assert(old0.subrange(0, j + 1).filter(spec_drop(l)) =~= old0.subrange(0, j).filter(
                    spec_drop(l),
                ));
                assert(live@ =~= old0.subrange(0, j + 1).filter(spec_keep(l)) + old0.subrange(
                    j + 1,
                    old0.len() as int,
                ));
            }
        }
    }
    proof {
        assert(old0.subrange(0, old0.len() as int) =~= old0);
        assert(live@ =~= old0.filter(spec_keep(l)));
        assert(despawned@.map_values(|v: i64| v as int) =~= old0.filter(spec_drop(l)).map_values(
            |t: Tile| t.order as int,
        ));
        lemma_live_wf_filter(old0, spec_keep(l));
        assert forall|q: int| 0 <= q < live@.len() implies (#[trigger] live@[q].order as int)
            >= l by {
            assert(old0.filter(spec_keep(l))[q] == live@[q]);
            old0.lemma_filter_pred(spec_keep(l), q);
            assert(spec_keep(l)(live@[q]));
        }
    }
    despawned
}

/// Fill pass: walks the window `[left, right]` in order and spawns a tile
/// for every index that has none, asking the generator for the terrain and
/// the planner for the obstacles. Already-present tiles are skipped, so a
/// settled window spawns nothing.
#[verifier::rlimit(100)]
fn fill_window(world: &mut World, live: &mut Vec<Tile>, left: i64, right: i64) -> (spawned: Vec<
    i64,
>)
    requires
        old(world).wf(),
        spec_live_wf(old(live)@),
        forall|q: int|
            0 <= q < old(live)@.len() ==> (#[trigger] old(live)@[q].order as int) >= left as int,
        -902_000_000 <= left <= right <= 902_000_000,
    ensures
        final(world).wf(),
        final(world).seed_value() == old(world).seed_value(),
        spec_live_wf(final(live)@),
        final(live)@.len() == old(live)@.len() + spawned.len(),
        final(live)@.subrange(0, old(live)@.len() as int) == old(live)@,
        spawned@.map_values(|v: i64| v as int) == spec_missing(
            old(live)@,
            left as int,
            right as int,
        ),
        forall|j: int|
            0 <= j < spawned.len() ==> (#[trigger] final(live)@[old(live)@.len() + j]).order as int
                == spawned@.map_values(|v: i64| v as int)[j] && spec_tile_wf(
                final(live)@[old(live)@.len() + j],
            ),
        spec_window_settled(final(live)@, left as int, right as int),
{
    let ghost base = live@;
    let ghost kl = base.len() as int;
    let ghost l = left as int;
    let ghost r = right as int;
    let mut spawned: Vec<i64> = Vec::new();
    let mut idx = left;
    while idx <= right
        invariant
            world.wf(),
            world.seed_value() == old(world).seed_value(),
            left <= idx <= right + 1,
            -902_000_000 <= left <= right <= 902_000_000,
            l == left as int,
            r == right as int,
            kl == base.len() as int,
            base == old(live)@,
            spec_live_wf(base),
            forall|q: int| 0 <= q < base.len() ==> (#[trigger] base[q].order as int) >= l,
            live@.len() == base.len() + spawned.len(),
            live@.subrange(0, kl) == base,
            spawned@.map_values(|v: i64| v as int) == spec_missing_count(
                base,
                l,
                (idx - left) as nat,
            ),
            forall|j: int|
                kl <= j < live@.len() ==> spec_tile_wf(#[trigger] live@[j]) && l <= (
                live@[j].order as int) < idx as int,
            forall|j: int|
                0 <= j < spawned.len() ==> (#[trigger] live@[kl + j]).order as int
                    == spawned@.map_values(|v: i64| v as int)[j],
            spec_live_wf(live@),
            forall|q: int| l <= q < idx as int ==> spec_has_order(live@, q),
        decreases right + 1 - idx,
    {
        let ghost live_before = live@;
        let ghost c = (idx - left) as nat;
        let present = contains_order(live, idx);
        proof {
            // A tile of index `idx` can only sit in the base prefix: every
            // appended tile has a smaller index.
            if spec_has_order(live@, idx as int) {
                let w = choose|w: int| 0 <= w < live@.len() && live@[w].order as int == idx as int;
                assert(w < kl);
                assert(base[w] == live@[w]);
                assert(spec_has_order(base, idx as int));
            }
            if spec_has_order(base, idx as int) {
                let w = choose|w: int| 0 <= w < base.len() && base[w].order as int == idx as int;
                assert(live@[w] == base[w]);
                assert(spec_has_order(live@, idx as int));
            }
            assert(spec_has_order(live@, idx as int) == spec_has_order(base, idx as int));
        }
        if !present {
            let t_type = world.get_tile(idx);
            let cols = spawn_collidables(t_type, idx);
            let tile = Tile { tile_type: t_type, order: idx, collidables: cols };
            live.push(tile);
            spawned.push(idx);
            proof {
                assert(live@.subrange(0, kl) =~= live_before.subrange(0, kl));
                assert(spawned@.map_values(|v: i64| v as int) =~= spec_missing_count(
                    base,
                    l,
                    (c + 1) as nat,
                ));
                assert(spec_tile_wf(live@[live@.len() - 1]));
                assert(forall|q: int|
                    0 <= q < live_before.len() ==> #[trigger] live@[q] == live_before[q]);
                assert forall|q: int| l <= q < idx as int + 1 implies spec_has_order(live@, q) by {
                    if q < idx as int {
                        assert(spec_has_order(live_before, q));
                        let w = choose|w: int|
                            0 <= w < live_before.len() && live_before[w].order as int == q;
                        assert(live@[w].order as int == q);
                    } else {
                        assert(live@[live@.len() - 1].order as int == q);
                    }
                }
            }
        } else {
            proof {
                assert(spawned@.map_values(|v: i64| v as int) =~= spec_missing_count(
                    base,
                    l,
                    (c + 1) as nat,
                ));
            }
        }
        idx = idx + 1;
    }
    proof {
        assert((idx - left) as nat == (r + 1 - l) as nat);
        assert(spec_missing(base, l, r) == spec_missing_count(base, l, (r + 1 - l) as nat));
        assert forall|j: int| 0 <= j < spawned.len() implies (#[trigger] live@[kl + j]).order as int
            == spawned@.map_values(|v: i64| v as int)[j] && spec_tile_wf(live@[kl + j]) by {
            assert(kl <= kl + j < live@.len());
        }
        assert forall|j: int| 0 <= j < live@.len() implies (#[trigger] live@[j].order as int)
            >= l by {
            if j < kl {
                assert(live@.subrange(0, kl)[j] == live@[j]);
                assert(base[j].order as int >= l);
            }
        }
    }
    spawned
}

/// In a list whose indices all lie at or beyond `l`, eviction at `l` keeps
/// everything and drops nothing.
proof fn lemma_filter_keep_all(s: Seq<Tile>, l: int)
    requires
        forall|j: int| 0 <= j < s.len() ==> (#[trigger] s[j].order as int) >= l,
    ensures
        s.filter(spec_keep(l)) == s,
        s.filter(spec_drop(l)) == Seq::<Tile>::empty(),
    decreases s.len(),
{
    reveal(Seq::filter);
    if s.len() > 0 {
        assert(forall|j: int|
            0 <= j < s.drop_last().len() ==> #[trigger] s.drop_last()[j] == s[j]);
        lemma_filter_keep_all(s.drop_last(), l);
        assert(spec_keep(l)(s.last()));
        assert(s.filter(spec_keep(l)) =~= s.drop_last().push(s.last()));
        assert(s.drop_last().push(s.last()) =~= s);
    }
}

/// In a list where every index of `[l, l + c)` is present, nothing in that
/// range is missing.
proof fn lemma_missing_none(s: Seq<Tile>, l: int, c: nat)
    requires
        forall|i: int| l <= i < l + c ==> spec_has_order(s, i),
    ensures
        spec_missing_count(s, l, c) == Seq::<int>::empty(),
    decreases c,
{
    if c > 0 {
        lemma_missing_none(s, l, (c - 1) as nat);
        assert(spec_has_order(s, l + c - 1));
    }
}

/// Streaming idempotence: in a list where the window `[l, r]` is settled —
/// as it is right after one streaming pass — eviction drops nothing and
/// keeps every tile unchanged, and no index of the window is missing. A
/// second pass with an unmoved camera therefore despawns nothing, spawns
/// nothing, and leaves the list exactly as it found it.
pub proof fn lemma_streaming_idempotent(s: Seq<Tile>, l: int, r: int)
    requires
        spec_window_settled(s, l, r),
    ensures
        s.filter(spec_drop(l)) == Seq::<Tile>::empty(),
        s.filter(spec_keep(l)) == s,
        spec_missing(s, l, r) == Seq::<int>::empty(),
{
    lemma_filter_keep_all(s, l);
    if l <= r {
        lemma_missing_none(s, l, (r + 1 - l) as nat);
    }
}

/// The fixed-point pixel x-coordinate of a tile's origin:
/// `index * TILE_SIZE * PIXELS_PER_METER`, the one mapping used by
/// generation, eviction and obstacle placement alike.
pub fn tile_pixel_origin(tile_nr: i64) -> (x: i64)
    requires
        -MAX_TILE_INDEX <= tile_nr <= MAX_TILE_INDEX,
    ensures
        x as int == (tile_nr as int) * (TILE_PIXEL_WIDTH_FX as int),
{
    proof {
        assert(-1_000_000_000_000_000_000 <= (tile_nr as int) * (TILE_PIXEL_WIDTH_FX as int)
            <= 1_000_000_000_000_000_000) by (nonlinear_arith)
            requires
                -1_000_000_000 <= tile_nr <= 1_000_000_000,
        ;
    }
    tile_nr * TILE_PIXEL_WIDTH_FX
}

/// Collision monitor over the whole live world: reports whether the flyer
/// box overlaps any obstacle of any live tile. The scan stops at the first
/// overlap — a single terminal signal, so the order does not matter.
pub fn stork_hit_tiles(stork_x: i64, stork_y: i64, live: &Vec<Tile>) -> (hit: bool)
    ensures
        hit == exists|i: int, j: int|
            0 <= i < live.len() && 0 <= j < live@[i].collidables@.len()
                && crate::world::collidables::spec_hit(
                stork_x as int,
                stork_y as int,
                live@[i].collidables@[j],
            ),
{
    let mut i: usize = 0;
    while i < live.len()
        invariant
            i <= live.len(),
            forall|q: int, j: int|
                0 <= q < i && 0 <= j < live@[q].collidables@.len()
                    ==> !crate::world::collidables::spec_hit(
                    stork_x as int,
                    stork_y as int,
                    #[trigger] live@[q].collidables@[j],
                ),
        decreases live.len() - i,
    {
        if crate::world::collidables::stork_hit_collidable(stork_x, stork_y, &live[i].collidables)
        {
            return true;
        }
        i = i + 1;
    }
    false
}

/// Whether `live` holds a tile of index `idx`.
fn contains_order(live: &Vec<Tile>, idx: i64) -> (r: bool)
    ensures
        r == spec_has_order(live@, idx as int),
{
    let mut i: usize = 0;
    while i < live.len()
        invariant
            i <= live.len(),
            forall|q: int| 0 <= q < i ==> (#[trigger] live@[q].order as int) != idx as int,
        decreases live.len() - i,
    {
        if live[i].order == idx {
            return true;
        }
        i = i + 1;
    }
    false
}

} // verus!
