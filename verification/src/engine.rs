//! The propagation engine and its scheduler.
//!
//! One tick advances each token at most one cell toward its segment's
//! direction. The tick is specified as a pure pipeline over the network's
//! cell array:
//!
//! 1. `seeds` — the occupied cells with no token, in ascending cell order;
//! 2. `upstream_of` — for a target cell, the occupied cells feeding it,
//!    in ascending cell order;
//! 3. `collect_from` — for each seed in order, the first upstream source
//!    that holds a token and has not already given one up this tick wins;
//!    the pair becomes a planned transfer and the source is retired;
//! 4. `apply_swaps` — the planned transfers are applied in order, each
//!    swapping the two payloads and recomputing both render hints.
//!
//! Collecting all transfers against the pre-tick state before applying any
//! gives single-hop-per-tick semantics: no segment is read after being
//! written within one tick, and a segment takes part in at most one
//! transfer, which also bounds the work on cyclic chains.

use vstd::prelude::*;

use crate::grid::{Direction, GRID_CELLS, MAP_HEIGHT, MAP_WIDTH};
use crate::network::{cell_token, token_count_seq, ConveyorNetwork, ResourceMover};
use crate::render::{Foreground, Renderable};

verus! {

/// Milliseconds between two engine runs.
pub const TICK_INTERVAL_MS: u64 = 500;

/// Whether a cell holds a segment carrying a token.
pub open spec fn has_token(cell: Option<ResourceMover>) -> bool {
    cell is Some && cell.unwrap().payload is Some
}

/// Whether a cell holds a segment with room for a token.
pub open spec fn is_empty_slot(cell: Option<ResourceMover>) -> bool {
    cell is Some && cell.unwrap().payload is None
}

/// Downstream target of cell `i` feeding toward `d`, as a cell index;
/// `None` when the target lies off the grid.
pub open spec fn target_index(i: int, d: Direction) -> Option<int> {
    let x = i % (MAP_WIDTH as int);
    let y = i / (MAP_WIDTH as int);
    match d {
        Direction::Up => if y > 0 {
            Some(i - MAP_WIDTH)
        } else {
            None
        },
        Direction::Down => if y < MAP_HEIGHT - 1 {
            Some(i + MAP_WIDTH)
        } else {
            None
        },
        Direction::Left => if x > 0 {
            Some(i - 1)
        } else {
            None
        },
        Direction::Right => if x < MAP_WIDTH - 1 {
            Some(i + 1)
        } else {
            None
        },
    }
}

/// Ascending list of the cell indices below `n` that satisfy `p`.
pub open spec fn indices_matching(p: spec_fn(int) -> bool, n: int) -> Seq<usize>
    decreases n,
{
    if n <= 0 {
        Seq::empty()
    } else if p(n - 1) {
        indices_matching(p, n - 1).push((n - 1) as usize)
    } else {
        indices_matching(p, n - 1)
    }
}

/// Whether the segment at cell `j` feeds into cell `t`.
pub open spec fn feeds(s: Seq<Option<ResourceMover>>, j: int, t: int) -> bool {
    s[j] is Some && target_index(j, s[j].unwrap().direction) == Some(t)
}

/// The predicate behind `upstream_of`, named so the same function value can
/// be shared between the specification and the traversal's invariants.
pub open spec fn feeds_pred(s: Seq<Option<ResourceMover>>, t: int) -> spec_fn(int) -> bool {
    |j: int| feeds(s, j, t)
}

/// The predicate behind `seeds`.
pub open spec fn empty_slot_pred(s: Seq<Option<ResourceMover>>) -> spec_fn(int) -> bool {
    |j: int| is_empty_slot(s[j])
}

/// The upstream index entry for target cell `t`: every source feeding `t`,
/// in ascending cell order. Out-of-bounds targets are filtered before the
/// index is built, so an entry never points off the grid.
pub open spec fn upstream_of(s: Seq<Option<ResourceMover>>, t: int) -> Seq<usize> {
    indices_matching(feeds_pred(s, t), GRID_CELLS as int)
}

/// The pending work-set: every occupied cell whose segment has no token,
/// in ascending cell order.
pub open spec fn seeds(s: Seq<Option<ResourceMover>>) -> Seq<usize> {
    indices_matching(empty_slot_pred(s), GRID_CELLS as int)
}

/// The first source in `sources` that holds a token and has not been
/// retired, if any.
pub open spec fn winner_in(
    s: Seq<Option<ResourceMover>>,
    sources: Seq<usize>,
    used: Set<usize>,
) -> Option<usize>
    decreases sources.len(),
{
    if sources.len() == 0 {
        None
    } else if has_token(s[sources[0] as int]) && !used.contains(sources[0]) {
        Some(sources[0])
    } else {
        winner_in(s, sources.drop_first(), used)
    }
}

/// Plan one transfer per seed, in seed order; a winning source is retired
/// so it gives up its token at most once per tick. Each planned pair is
/// `(source, target)`.
pub open spec fn collect_from(
    s: Seq<Option<ResourceMover>>,
    sds: Seq<usize>,
    used: Set<usize>,
) -> Seq<(usize, usize)>
    decreases sds.len(),
{
    if sds.len() == 0 {
        Seq::empty()
    } else {
        let e = sds[0];
        match winner_in(s, upstream_of(s, e as int), used) {
            Some(w) => seq![(w, e)] + collect_from(s, sds.drop_first(), used.insert(w)),
            None => collect_from(s, sds.drop_first(), used),
        }
    }
}

/// All transfers one tick performs, decided against the pre-tick state.
pub open spec fn planned_swaps(s: Seq<Option<ResourceMover>>) -> Seq<(usize, usize)> {
    collect_from(s, seeds(s), Set::empty())
}

/// Segments after swapping the payloads of cells `w` and `e`.
pub open spec fn swap_segments(s: Seq<Option<ResourceMover>>, w: int, e: int) -> Seq<
    Option<ResourceMover>,
> {
    let sw = s[w].unwrap();
    let se = s[e].unwrap();
    s.update(w, Some(ResourceMover { direction: sw.direction, payload: se.payload })).update(
        e,
        Some(ResourceMover { direction: se.direction, payload: sw.payload }),
    )
}

/// Render hints after the swap of cells `w` and `e`: both hints are
/// recomputed from the segments' post-swap (direction, token) pairs.
pub open spec fn swap_hints(
    s: Seq<Option<ResourceMover>>,
    h: Seq<Option<Renderable>>,
    w: int,
    e: int,
) -> Seq<Option<Renderable>> {
    let sw = s[w].unwrap();
    let se = s[e].unwrap();
    let nw = ResourceMover { direction: sw.direction, payload: se.payload };
    let ne = ResourceMover { direction: se.direction, payload: sw.payload };
    h.update(w, Some(h[w].unwrap().merged(Foreground::of_mover(nw)))).update(
        e,
        Some(h[e].unwrap().merged(Foreground::of_mover(ne))),
    )
}

/// Segments after applying the planned transfers in order.
pub open spec fn apply_swaps(s: Seq<Option<ResourceMover>>, sws: Seq<(usize, usize)>) -> Seq<
    Option<ResourceMover>,
>
    decreases sws.len(),
{
    if sws.len() == 0 {
        s
    } else {
        apply_swaps(swap_segments(s, sws[0].0 as int, sws[0].1 as int), sws.drop_first())
    }
}

/// Render hints after applying the planned transfers in order.
pub open spec fn apply_swaps_hints(
    s: Seq<Option<ResourceMover>>,
    h: Seq<Option<Renderable>>,
    sws: Seq<(usize, usize)>,
) -> Seq<Option<Renderable>>
    decreases sws.len(),
{
    if sws.len() == 0 {
        h
    } else {
        apply_swaps_hints(
            swap_segments(s, sws[0].0 as int, sws[0].1 as int),
            swap_hints(s, h, sws[0].0 as int, sws[0].1 as int),
            sws.drop_first(),
        )
    }
}

/// The network's segments after one tick.
pub open spec fn tick_segments(s: Seq<Option<ResourceMover>>) -> Seq<Option<ResourceMover>> {
    apply_swaps(s, planned_swaps(s))
}

/// The network's render hints after one tick.
pub open spec fn tick_hints(s: Seq<Option<ResourceMover>>, h: Seq<Option<Renderable>>) -> Seq<
    Option<Renderable>,
> {
    apply_swaps_hints(s, h, planned_swaps(s))
}

/// `indices_matching(p, n)` lists exactly the indices below `n` satisfying
/// `p`, in strictly ascending order.
pub proof fn lemma_indices_matching_props(p: spec_fn(int) -> bool, n: int)
    requires
        0 <= n <= GRID_CELLS,
    ensures
        forall|k: int|
            0 <= k < indices_matching(p, n).len() ==> (#[trigger] indices_matching(p, n)[k] as int)
                < n && p(indices_matching(p, n)[k] as int),
        forall|j: int| 0 <= j < n && p(j) ==> #[trigger] indices_matching(p, n).contains(j as usize),
        forall|k1: int, k2: int|
            0 <= k1 < k2 < indices_matching(p, n).len() ==> (#[trigger] indices_matching(p, n)[k1])
                < (#[trigger] indices_matching(p, n)[k2]),
    decreases n,
{
    if n > 0 {
        lemma_indices_matching_props(p, n - 1);
        let pre = indices_matching(p, n - 1);
        let r = indices_matching(p, n);
        if p(n - 1) {
            assert(r == pre.push((n - 1) as usize));
            assert forall|j: int| 0 <= j < n && p(j) implies #[trigger] r.contains(j as usize) by {
                if j < n - 1 {
                    assert(pre.contains(j as usize));
                    let k = choose|k: int| 0 <= k < pre.len() && pre[k] == j as usize;
                    assert(r[k] == j as usize);
                } else {
                    assert(r[pre.len() as int] == j as usize);
                }
            }
        } else {
            assert forall|j: int| 0 <= j < n && p(j) implies #[trigger] r.contains(j as usize) by {
                assert(pre.contains(j as usize));
                let k = choose|k: int| 0 <= k < pre.len() && pre[k] == j as usize;
                assert(r[k] == j as usize);
            }
        }
    }
}

/// When nothing below `n` satisfies `p`, the list is empty.
pub proof fn lemma_indices_matching_none(p: spec_fn(int) -> bool, n: int)
    requires
        0 <= n <= GRID_CELLS,
        forall|j: int| 0 <= j < n ==> !(#[trigger] p(j)),
    ensures
        indices_matching(p, n).len() == 0,
{
    lemma_indices_matching_props(p, n);
    let r = indices_matching(p, n);
    if r.len() > 0 {
        assert(p(r[0] as int));
    }
}

/// When `j0` is the only index below `n` satisfying `p`, the list is
/// exactly `[j0]`.
pub proof fn lemma_indices_matching_single(p: spec_fn(int) -> bool, n: int, j0: int)
    requires
        0 <= n <= GRID_CELLS,
        0 <= j0 < n,
        p(j0),
        forall|j: int| 0 <= j < n && #[trigger] p(j) ==> j == j0,
    ensures
        indices_matching(p, n) =~= seq![j0 as usize],
{
    lemma_indices_matching_props(p, n);
    let r = indices_matching(p, n);
    assert(r.contains(j0 as usize));
    let k0 = choose|k: int| 0 <= k < r.len() && r[k] == j0 as usize;
    assert forall|k: int| 0 <= k < r.len() implies r[k] == j0 as usize by {
        assert(p(r[k] as int));
    }
    if r.len() >= 2 {
        assert(r[0] < r[1]);
        assert(false);
    }
}

/// When `j0 < j1` are the only indices below `n` satisfying `p`, the list
/// is exactly `[j0, j1]`.
pub proof fn lemma_indices_matching_pair(p: spec_fn(int) -> bool, n: int, j0: int, j1: int)
    requires
        0 <= n <= GRID_CELLS,
        0 <= j0 < j1 < n,
        p(j0),
        p(j1),
        forall|j: int| 0 <= j < n && #[trigger] p(j) ==> (j == j0 || j == j1),
    ensures
        indices_matching(p, n) =~= seq![j0 as usize, j1 as usize],
{
    lemma_indices_matching_props(p, n);
    let r = indices_matching(p, n);
    assert(r.contains(j0 as usize));
    assert(r.contains(j1 as usize));
    let k0 = choose|k: int| 0 <= k < r.len() && r[k] == j0 as usize;
    let k1 = choose|k: int| 0 <= k < r.len() && r[k] == j1 as usize;
    assert forall|k: int| 0 <= k < r.len() implies (r[k] == j0 as usize || r[k] == j1 as usize) by {
        assert(p(r[k] as int));
    }
    if r.len() >= 3 {
        assert(r[0] < r[1] && r[1] < r[2]);
        assert(false);
    }
    assert(k0 != k1);
    assert(r.len() == 2);
    assert(r[0] < r[1]);
}

/// A winner holds a token, has not been retired, and comes from the source
/// list.
pub proof fn lemma_winner_props(
    s: Seq<Option<ResourceMover>>,
    sources: Seq<usize>,
    used: Set<usize>,
)
    ensures
        winner_in(s, sources, used) is Some ==> {
            let w = winner_in(s, sources, used).unwrap();
            &&& sources.contains(w)
            &&& has_token(s[w as int])
            &&& !used.contains(w)
        },
    decreases sources.len(),
{
    if sources.len() > 0 {
        lemma_winner_props(s, sources.drop_first(), used);
        if !(has_token(s[sources[0] as int]) && !used.contains(sources[0]))
            && winner_in(s, sources.drop_first(), used) is Some {
            let w = winner_in(s, sources.drop_first(), used).unwrap();
            let k = choose|k: int|
                0 <= k < sources.drop_first().len() && sources.drop_first()[k] == w;
            assert(sources[k + 1] == w);
        }
    }
}

/// No source with a token means no winner, whatever was retired.
pub proof fn lemma_winner_none(
    s: Seq<Option<ResourceMover>>,
    sources: Seq<usize>,
    used: Set<usize>,
)
    requires
        forall|k: int| 0 <= k < sources.len() ==> !has_token(s[#[trigger] sources[k] as int]),
    ensures
        winner_in(s, sources, used) is None,
    decreases sources.len(),
{
    if sources.len() > 0 {
        assert(!has_token(s[sources[0] as int]));
        assert forall|k: int|
            0 <= k < sources.drop_first().len() implies !has_token(
            s[#[trigger] sources.drop_first()[k] as int],
        ) by {
            assert(sources.drop_first()[k] == sources[k + 1]);
        }
        lemma_winner_none(s, sources.drop_first(), used);
    }
}

/// Each seed plans at most one transfer.
pub proof fn lemma_collect_len(s: Seq<Option<ResourceMover>>, sds: Seq<usize>, used: Set<usize>)
    ensures
        collect_from(s, sds, used).len() <= sds.len(),
    decreases sds.len(),
{
    if sds.len() > 0 {
        let e = sds[0];
        match winner_in(s, upstream_of(s, e as int), used) {
            Some(w) => lemma_collect_len(s, sds.drop_first(), used.insert(w)),
            None => lemma_collect_len(s, sds.drop_first(), used),
        }
    }
}

/// Seeds whose upstream sources are all empty plan no transfer at all.
pub proof fn lemma_collect_none(s: Seq<Option<ResourceMover>>, sds: Seq<usize>, used: Set<usize>)
    requires
        forall|m: int, k: int|
            0 <= m < sds.len() && 0 <= k < upstream_of(s, #[trigger] sds[m] as int).len()
                ==> !has_token(s[#[trigger] upstream_of(s, sds[m] as int)[k] as int]),
    ensures
        collect_from(s, sds, used) == Seq::<(usize, usize)>::empty(),
    decreases sds.len(),
{
    if sds.len() > 0 {
        let e = sds[0];
        lemma_winner_none(s, upstream_of(s, e as int), used);
        assert forall|m: int, k: int|
            0 <= m < sds.drop_first().len() && 0 <= k < upstream_of(
                s,
                #[trigger] sds.drop_first()[m] as int,
            ).len() implies !has_token(
            s[#[trigger] upstream_of(s, sds.drop_first()[m] as int)[k] as int],
        ) by {
            assert(sds.drop_first()[m] == sds[m + 1]);
        }
        lemma_collect_none(s, sds.drop_first(), used);
    }
}

/// Validity of a planned transfer list against the pre-tick state: both
/// cells lie on the grid and differ, the source holds a token and the
/// target has room.
pub open spec fn swaps_ok(s: Seq<Option<ResourceMover>>, sws: Seq<(usize, usize)>) -> bool {
    forall|k: int|
        0 <= k < sws.len() ==> {
            let sw = #[trigger] sws[k];
            &&& sw.0 < GRID_CELLS
            &&& sw.1 < GRID_CELLS
            &&& sw.0 != sw.1
            &&& has_token(s[sw.0 as int])
            &&& is_empty_slot(s[sw.1 as int])
        }
}

/// What `collect_from` plans is valid, provided every seed is an in-bounds
/// empty slot.
pub proof fn lemma_collect_ok(s: Seq<Option<ResourceMover>>, sds: Seq<usize>, used: Set<usize>)
    requires
        s.len() == GRID_CELLS,
        forall|m: int|
            0 <= m < sds.len() ==> (#[trigger] sds[m]) < GRID_CELLS && is_empty_slot(
                s[sds[m] as int],
            ),
    ensures
        swaps_ok(s, collect_from(s, sds, used)),
    decreases sds.len(),
{
    if sds.len() > 0 {
        let e = sds[0];
        assert forall|m: int|
            0 <= m < sds.drop_first().len() implies (#[trigger] sds.drop_first()[m]) < GRID_CELLS
            && is_empty_slot(s[sds.drop_first()[m] as int]) by {
            assert(sds.drop_first()[m] == sds[m + 1]);
        }
        match winner_in(s, upstream_of(s, e as int), used) {
            Some(w) => {
                lemma_winner_props(s, upstream_of(s, e as int), used);
                lemma_indices_matching_props(feeds_pred(s, e as int), GRID_CELLS as int);
                let up = upstream_of(s, e as int);
                let k = choose|k: int| 0 <= k < up.len() && up[k] == w;
                assert((up[k] as int) < GRID_CELLS);
                lemma_collect_ok(s, sds.drop_first(), used.insert(w));
                let rest = collect_from(s, sds.drop_first(), used.insert(w));
                let whole = collect_from(s, sds, used);
                assert(whole == seq![(w, e)] + rest);
                assert forall|m: int| 0 <= m < whole.len() implies {
                    let sw = #[trigger] whole[m];
                    &&& sw.0 < GRID_CELLS
                    &&& sw.1 < GRID_CELLS
                    &&& sw.0 != sw.1
                    &&& has_token(s[sw.0 as int])
                    &&& is_empty_slot(s[sw.1 as int])
                } by {
                    if m > 0 {
                        assert(whole[m] == rest[m - 1]);
                    }
                }
            },
            None => {
                lemma_collect_ok(s, sds.drop_first(), used);
            },
        }
    }
}

/// Every transfer `collect_from` plans pulls along the upstream relation:
/// the source feeds the target it hands its token to.
pub proof fn lemma_collect_feeds(s: Seq<Option<ResourceMover>>, sds: Seq<usize>, used: Set<usize>)
    ensures
        forall|k: int|
            0 <= k < collect_from(s, sds, used).len() ==> feeds(
                s,
                (#[trigger] collect_from(s, sds, used)[k]).0 as int,
                collect_from(s, sds, used)[k].1 as int,
            ),
    decreases sds.len(),
{
    if sds.len() > 0 {
        let e = sds[0];
        match winner_in(s, upstream_of(s, e as int), used) {
            Some(w) => {
                lemma_winner_props(s, upstream_of(s, e as int), used);
                lemma_indices_matching_props(feeds_pred(s, e as int), GRID_CELLS as int);
                let up = upstream_of(s, e as int);
                let kw = choose|k: int| 0 <= k < up.len() && up[k] == w;
                assert(feeds_pred(s, e as int)(up[kw] as int));
                lemma_collect_feeds(s, sds.drop_first(), used.insert(w));
                let rest = collect_from(s, sds.drop_first(), used.insert(w));
                let whole = collect_from(s, sds, used);
                assert(whole == seq![(w, e)] + rest);
                assert(whole[0] == (w, e));
                assert forall|k: int| 0 <= k < whole.len() implies feeds(
                    s,
                    (#[trigger] whole[k]).0 as int,
                    whole[k].1 as int,
                ) by {
                    if k > 0 {
                        assert(whole[k] == rest[k - 1]);
                    }
                }
            },
            None => {
                lemma_collect_feeds(s, sds.drop_first(), used);
                let rest = collect_from(s, sds.drop_first(), used);
                let whole = collect_from(s, sds, used);
                assert(whole == rest);
                assert forall|k: int| 0 <= k < whole.len() implies feeds(
                    s,
                    (#[trigger] whole[k]).0 as int,
                    whole[k].1 as int,
                ) by {
                    assert(whole[k] == rest[k]);
                }
            },
        }
    }
}

/// Each token advances at most one cell, toward its own segment's
/// direction: every planned transfer hands a token to the cell its source
/// feeds.
pub proof fn lemma_transfers_follow_direction(s: Seq<Option<ResourceMover>>)
    requires
        s.len() == GRID_CELLS,
    ensures
        forall|k: int|
            0 <= k < planned_swaps(s).len() ==> feeds(
                s,
                (#[trigger] planned_swaps(s)[k]).0 as int,
                planned_swaps(s)[k].1 as int,
            ),
{
    lemma_collect_feeds(s, seeds(s), Set::empty());
}

/// Sources planned by `collect_from` avoid the retired set and each other,
/// and its targets follow the seed order strictly.
pub proof fn lemma_collect_one_shot(s: Seq<Option<ResourceMover>>, sds: Seq<usize>, used: Set<
    usize,
>)
    requires
        forall|m1: int, m2: int| 0 <= m1 < m2 < sds.len() ==> sds[m1] < sds[m2],
    ensures
        forall|k: int|
            0 <= k < collect_from(s, sds, used).len() ==> !used.contains(
                (#[trigger] collect_from(s, sds, used)[k]).0,
            ),
        forall|k1: int, k2: int|
            0 <= k1 < k2 < collect_from(s, sds, used).len() ==> (#[trigger] collect_from(
                s,
                sds,
                used,
            )[k1]).0 != (#[trigger] collect_from(s, sds, used)[k2]).0,
        forall|k1: int, k2: int|
            0 <= k1 < k2 < collect_from(s, sds, used).len() ==> (#[trigger] collect_from(
                s,
                sds,
                used,
            )[k1]).1 < (#[trigger] collect_from(s, sds, used)[k2]).1,
        forall|k: int|
            0 <= k < collect_from(s, sds, used).len() ==> sds.contains(
                (#[trigger] collect_from(s, sds, used)[k]).1,
            ),
    decreases sds.len(),
{
    if sds.len() > 0 {
        let e = sds[0];
        let tail = sds.drop_first();
        assert forall|m1: int, m2: int| 0 <= m1 < m2 < tail.len() implies tail[m1]
            < tail[m2] by {
            assert(tail[m1] == sds[m1 + 1] && tail[m2] == sds[m2 + 1]);
        }
        let whole = collect_from(s, sds, used);
        match winner_in(s, upstream_of(s, e as int), used) {
            Some(w) => {
                lemma_winner_props(s, upstream_of(s, e as int), used);
                lemma_collect_one_shot(s, tail, used.insert(w));
                let rest = collect_from(s, tail, used.insert(w));
                assert(whole == seq![(w, e)] + rest);
                assert(whole[0] == (w, e));
                assert forall|k: int| 0 <= k < rest.len() implies (#[trigger] rest[k]).1 > e
                    && sds.contains(rest[k].1) by {
                    assert(tail.contains(rest[k].1));
                    let m = choose|m: int| 0 <= m < tail.len() && tail[m] == rest[k].1;
                    assert(sds[m + 1] == rest[k].1);
                    assert(sds[0] < sds[m + 1]);
                }
                assert forall|k: int| 0 <= k < whole.len() implies !used.contains(
                    (#[trigger] whole[k]).0,
                ) by {
                    if k > 0 {
                        assert(whole[k] == rest[k - 1]);
                        assert(!used.insert(w).contains(rest[k - 1].0));
                    }
                }
                assert forall|k1: int, k2: int| 0 <= k1 < k2 < whole.len() implies (
                #[trigger] whole[k1]).0 != (#[trigger] whole[k2]).0 && whole[k1].1
                    < whole[k2].1 by {
                    assert(whole[k2] == rest[k2 - 1]);
                    if k1 == 0 {
                        assert(!used.insert(w).contains(rest[k2 - 1].0));
                        assert(rest[k2 - 1].1 > e);
                    } else {
                        assert(whole[k1] == rest[k1 - 1]);
                    }
                }
                assert forall|k: int| 0 <= k < whole.len() implies sds.contains(
                    (#[trigger] whole[k]).1,
                ) by {
                    if k == 0 {
                        assert(sds[0] == e);
                    } else {
                        assert(whole[k] == rest[k - 1]);
                    }
                }
            },
            None => {
                lemma_collect_one_shot(s, tail, used);
                let rest = collect_from(s, tail, used);
                assert(whole == rest);
                assert forall|k: int| 0 <= k < whole.len() implies !used.contains(
                    (#[trigger] whole[k]).0,
                ) by {
                    assert(whole[k] == rest[k]);
                }
                assert forall|k1: int, k2: int| 0 <= k1 < k2 < whole.len() implies (
                #[trigger] whole[k1]).0 != (#[trigger] whole[k2]).0 && whole[k1].1
                    < whole[k2].1 by {
                    assert(whole[k1] == rest[k1] && whole[k2] == rest[k2]);
                }
                assert forall|k: int| 0 <= k < whole.len() implies sds.contains(
                    (#[trigger] whole[k]).1,
                ) by {
                    assert(whole[k] == rest[k]);
                    assert(tail.contains(rest[k].1));
                    let m = choose|m: int| 0 <= m < tail.len() && tail[m] == rest[k].1;
                    assert(sds[m + 1] == rest[k].1);
                }
            },
        }
    }
}

/// The single-visit rule: a segment takes part in at most one transfer per
/// tick. Planned sources are pairwise distinct, planned targets are
/// pairwise distinct, and — since a source still holds its token while a
/// target has room — no cell is both a source and a target.
pub proof fn lemma_no_double_transfer(s: Seq<Option<ResourceMover>>)
    requires
        s.len() == GRID_CELLS,
    ensures
        forall|k1: int, k2: int|
            0 <= k1 < k2 < planned_swaps(s).len() ==> (#[trigger] planned_swaps(s)[k1]).0 != (
            #[trigger] planned_swaps(s)[k2]).0 && planned_swaps(s)[k1].1 != planned_swaps(s)[k2].1,
        forall|k1: int, k2: int|
            0 <= k1 < planned_swaps(s).len() && 0 <= k2 < planned_swaps(s).len() ==> (
            #[trigger] planned_swaps(s)[k1]).0 != (#[trigger] planned_swaps(s)[k2]).1,
{
    lemma_indices_matching_props(empty_slot_pred(s), GRID_CELLS as int);
    lemma_collect_one_shot(s, seeds(s), Set::empty());
    lemma_planned_swaps_ok(s);
    assert forall|k1: int, k2: int|
        0 <= k1 < planned_swaps(s).len() && 0 <= k2 < planned_swaps(s).len() implies (
    #[trigger] planned_swaps(s)[k1]).0 != (#[trigger] planned_swaps(s)[k2]).1 by {
        assert(has_token(s[planned_swaps(s)[k1].0 as int]));
        assert(is_empty_slot(s[planned_swaps(s)[k2].1 as int]));
    }
}

/// Replacing one cell changes the token count by that cell's contribution.
pub proof fn lemma_token_count_update(
    s: Seq<Option<ResourceMover>>,
    i: int,
    v: Option<ResourceMover>,
)
    requires
        0 <= i < s.len(),
    ensures
        token_count_seq(s.update(i, v)) + cell_token(s[i]) == token_count_seq(s) + cell_token(v),
    decreases s.len(),
{
    let t = s.update(i, v);
    if i == s.len() - 1 {
        assert(t.drop_last() =~= s.drop_last());
        assert(t.last() == v);
    } else {
        assert(t.drop_last() =~= s.drop_last().update(i, v));
        assert(t.last() == s.last());
        lemma_token_count_update(s.drop_last(), i, v);
    }
}

/// Swapping the payloads of two distinct occupied cells conserves the token
/// count.
pub proof fn lemma_swap_conserves(s: Seq<Option<ResourceMover>>, w: int, e: int)
    requires
        0 <= w < s.len(),
        0 <= e < s.len(),
        w != e,
        s[w] is Some,
        s[e] is Some,
    ensures
        token_count_seq(swap_segments(s, w, e)) == token_count_seq(s),
{
    let sw = s[w].unwrap();
    let se = s[e].unwrap();
    let a = Some(ResourceMover { direction: sw.direction, payload: se.payload });
    let b = Some(ResourceMover { direction: se.direction, payload: sw.payload });
    let s1 = s.update(w, a);
    lemma_token_count_update(s, w, a);
    lemma_token_count_update(s1, e, b);
    assert(s1[e] == s[e]);
}

/// A weaker validity of a transfer list, enough for conservation: distinct
/// in-bounds cells, both occupied.
pub open spec fn swaps_in_range(s: Seq<Option<ResourceMover>>, sws: Seq<(usize, usize)>) -> bool {
    forall|k: int|
        0 <= k < sws.len() ==> {
            let sw = #[trigger] sws[k];
            &&& sw.0 < GRID_CELLS
            &&& sw.1 < GRID_CELLS
            &&& sw.0 != sw.1
            &&& s[sw.0 as int] is Some
            &&& s[sw.1 as int] is Some
        }
}

/// Whether no transfer in the list reads or writes cell `i`.
pub open spec fn untouched_by(sws: Seq<(usize, usize)>, i: int) -> bool {
    forall|k: int|
        0 <= k < sws.len() ==> ((#[trigger] sws[k]).0 as int != i && sws[k].1 as int != i)
}

/// Applying transfers keeps the array's length, never vacates a cell, and
/// leaves every cell no transfer names unchanged.
pub proof fn lemma_apply_swaps_frame(s: Seq<Option<ResourceMover>>, sws: Seq<(usize, usize)>)
    requires
        s.len() == GRID_CELLS,
        forall|k: int|
            0 <= k < sws.len() ==> (#[trigger] sws[k]).0 < GRID_CELLS && sws[k].1 < GRID_CELLS,
    ensures
        apply_swaps(s, sws).len() == s.len(),
        forall|i: int|
            0 <= i < s.len() && s[i] is Some ==> #[trigger] apply_swaps(s, sws)[i] is Some,
        forall|i: int|
            0 <= i < s.len() && untouched_by(sws, i) ==> #[trigger] apply_swaps(s, sws)[i] == s[i],
    decreases sws.len(),
{
    if sws.len() > 0 {
        let s1 = swap_segments(s, sws[0].0 as int, sws[0].1 as int);
        assert forall|k: int|
            0 <= k < sws.drop_first().len() implies (#[trigger] sws.drop_first()[k]).0 < GRID_CELLS
            && sws.drop_first()[k].1 < GRID_CELLS by {
            assert(sws.drop_first()[k] == sws[k + 1]);
        }
        lemma_apply_swaps_frame(s1, sws.drop_first());
        assert forall|i: int|
            0 <= i < s.len() && untouched_by(sws, i) implies #[trigger] apply_swaps(s, sws)[i]
            == s[i] by {
            assert(sws[0].0 as int != i && sws[0].1 as int != i);
            assert(s1[i] == s[i]);
            assert forall|k: int|
                0 <= k < sws.drop_first().len() implies ((#[trigger] sws.drop_first()[k]).0 as int
                != i && sws.drop_first()[k].1 as int != i) by {
                assert(sws.drop_first()[k] == sws[k + 1]);
            }
            assert(untouched_by(sws.drop_first(), i));
        }
    }
}

/// A target with no filled upstream source remains empty this tick: no
/// transfer names it, so its cell is untouched. This is not an error; it
/// simply waits.
pub proof fn lemma_starved_target_stays_empty(s: Seq<Option<ResourceMover>>, t: int)
    requires
        s.len() == GRID_CELLS,
        0 <= t < GRID_CELLS,
        is_empty_slot(s[t]),
        forall|k: int|
            0 <= k < upstream_of(s, t).len() ==> !has_token(
                s[#[trigger] upstream_of(s, t)[k] as int],
            ),
    ensures
        tick_segments(s)[t] == s[t],
{
    let plan = planned_swaps(s);
    lemma_planned_swaps_ok(s);
    lemma_transfers_follow_direction(s);
    lemma_indices_matching_props(feeds_pred(s, t), GRID_CELLS as int);
    assert forall|k: int|
        0 <= k < plan.len() implies ((#[trigger] plan[k]).0 as int != t && plan[k].1 as int
        != t) by {
        assert(has_token(s[plan[k].0 as int]));
        if plan[k].1 as int == t {
            assert(feeds(s, plan[k].0 as int, t));
            assert(feeds_pred(s, t)(plan[k].0 as int));
            assert(upstream_of(s, t).contains(((plan[k].0 as int) as usize)));
            assert(upstream_of(s, t).contains(plan[k].0));
            let kk = choose|kk: int|
                0 <= kk < upstream_of(s, t).len() && upstream_of(s, t)[kk] == plan[k].0;
            assert(!has_token(s[upstream_of(s, t)[kk] as int]));
            assert(false);
        }
    }
    assert(untouched_by(plan, t));
    lemma_apply_swaps_frame(s, plan);
}

/// Applying a valid transfer list conserves the token count.
pub proof fn lemma_apply_swaps_conserve(s: Seq<Option<ResourceMover>>, sws: Seq<(usize, usize)>)
    requires
        s.len() == GRID_CELLS,
        swaps_in_range(s, sws),
    ensures
        token_count_seq(apply_swaps(s, sws)) == token_count_seq(s),
    decreases sws.len(),
{
    if sws.len() > 0 {
        lemma_swap_conserves(s, sws[0].0 as int, sws[0].1 as int);
        let s1 = swap_segments(s, sws[0].0 as int, sws[0].1 as int);
        assert forall|k: int| 0 <= k < sws.drop_first().len() implies {
            let sw = #[trigger] sws.drop_first()[k];
            &&& sw.0 < GRID_CELLS
            &&& sw.1 < GRID_CELLS
            &&& sw.0 != sw.1
            &&& s1[sw.0 as int] is Some
            &&& s1[sw.1 as int] is Some
        } by {
            assert(sws.drop_first()[k] == sws[k + 1]);
        }
        lemma_apply_swaps_conserve(s1, sws.drop_first());
    }
}

/// Appending one transfer to a plan applies it last.
pub proof fn lemma_apply_swaps_snoc(
    s: Seq<Option<ResourceMover>>,
    h: Seq<Option<Renderable>>,
    sws: Seq<(usize, usize)>,
    sw: (usize, usize),
)
    ensures
        apply_swaps(s, sws.push(sw)) == swap_segments(
            apply_swaps(s, sws),
            sw.0 as int,
            sw.1 as int,
        ),
        apply_swaps_hints(s, h, sws.push(sw)) == swap_hints(
            apply_swaps(s, sws),
            apply_swaps_hints(s, h, sws),
            sw.0 as int,
            sw.1 as int,
        ),
    decreases sws.len(),
{
    let s1 = swap_segments(s, sw.0 as int, sw.1 as int);
    if sws.len() == 0 {
        assert(sws.push(sw)[0] == sw);
        assert(sws.push(sw).drop_first() =~= Seq::<(usize, usize)>::empty());
        assert(apply_swaps(s, sws.push(sw)) == apply_swaps(s1, sws.push(sw).drop_first()));
        assert(apply_swaps(s1, sws.push(sw).drop_first()) == s1);
        assert(apply_swaps(s, sws) == s);
        let h1 = swap_hints(s, h, sw.0 as int, sw.1 as int);
        assert(apply_swaps_hints(s, h, sws.push(sw)) == apply_swaps_hints(
            s1,
            h1,
            sws.push(sw).drop_first(),
        ));
        assert(apply_swaps_hints(s1, h1, sws.push(sw).drop_first()) == h1);
        assert(apply_swaps_hints(s, h, sws) == h);
    } else {
        assert(sws.push(sw)[0] == sws[0]);
        assert(sws.push(sw).drop_first() =~= sws.drop_first().push(sw));
        lemma_apply_swaps_snoc(
            swap_segments(s, sws[0].0 as int, sws[0].1 as int),
            swap_hints(s, h, sws[0].0 as int, sws[0].1 as int),
            sws.drop_first(),
            sw,
        );
    }
}

/// What a tick plans is valid against the pre-tick state.
pub proof fn lemma_planned_swaps_ok(s: Seq<Option<ResourceMover>>)
    requires
        s.len() == GRID_CELLS,
    ensures
        swaps_ok(s, planned_swaps(s)),
        swaps_in_range(s, planned_swaps(s)),
        planned_swaps(s).len() <= seeds(s).len(),
{
    lemma_indices_matching_props(empty_slot_pred(s), GRID_CELLS as int);
    let sds = seeds(s);
    assert forall|m: int|
        0 <= m < sds.len() implies (#[trigger] sds[m]) < GRID_CELLS && is_empty_slot(
        s[sds[m] as int],
    ) by {
        assert(empty_slot_pred(s)(sds[m] as int));
    }
    lemma_collect_ok(s, sds, Set::empty());
    lemma_collect_len(s, sds, Set::empty());
}

/// Conservation: one tick neither creates nor destroys tokens.
pub proof fn lemma_tick_conserves_tokens(s: Seq<Option<ResourceMover>>)
    requires
        s.len() == GRID_CELLS,
    ensures
        token_count_seq(tick_segments(s)) == token_count_seq(s),
        tick_segments(s).len() == s.len(),
{
    lemma_planned_swaps_ok(s);
    lemma_apply_swaps_conserve(s, planned_swaps(s));
    lemma_apply_swaps_frame(s, planned_swaps(s));
}

/// The network's segments after `n` consecutive ticks.
pub open spec fn tick_iterated(s: Seq<Option<ResourceMover>>, n: nat) -> Seq<Option<ResourceMover>>
    decreases n,
{
    if n == 0 {
        s
    } else {
        tick_iterated(tick_segments(s), (n - 1) as nat)
    }
}

/// Conservation over any number of ticks: a network seeded with exactly K
/// tokens still holds exactly K after every propagation run.
pub proof fn lemma_ticks_conserve_tokens(s: Seq<Option<ResourceMover>>, n: nat)
    requires
        s.len() == GRID_CELLS,
    ensures
        token_count_seq(tick_iterated(s, n)) == token_count_seq(s),
        tick_iterated(s, n).len() == s.len(),
    decreases n,
{
    if n > 0 {
        lemma_tick_conserves_tokens(s);
        lemma_ticks_conserve_tokens(tick_segments(s), (n - 1) as nat);
    }
}

/// Cycle safety: a network where every segment already holds a token plans
/// no transfer at all, so a fully loaded loop is unchanged by a tick and
/// the tick's work is bounded by the (empty) work-set.
pub proof fn lemma_loaded_network_unchanged(s: Seq<Option<ResourceMover>>)
    requires
        s.len() == GRID_CELLS,
        forall|i: int| 0 <= i < s.len() && (#[trigger] s[i]) is Some ==> s[i].unwrap().payload
            is Some,
    ensures
        planned_swaps(s).len() == 0,
        tick_segments(s) == s,
{
    assert forall|j: int| 0 <= j < GRID_CELLS implies !(#[trigger] empty_slot_pred(s)(j)) by {
        assert(empty_slot_pred(s)(j) == is_empty_slot(s[j]));
    }
    lemma_indices_matching_none(empty_slot_pred(s), GRID_CELLS as int);
    assert(seeds(s).len() == 0);
    assert(planned_swaps(s) == Seq::<(usize, usize)>::empty());
}

/// A segment never feeds its own cell.
pub proof fn lemma_target_index_ne(i: int, d: Direction)
    ensures
        target_index(i, d) != Some(i),
{
}

/// Merge determinism: when two sources both feed one empty target and
/// nothing else is on the grid, the source with the lower cell index —
/// the first in the upstream index's fixed order — always wins; the
/// losing source's token is untouched that tick.
pub proof fn lemma_merge_determinism(s: Seq<Option<ResourceMover>>, a: int, b: int, t: int)
    requires
        s.len() == GRID_CELLS,
        0 <= a < b < GRID_CELLS,
        0 <= t < GRID_CELLS,
        t != a,
        t != b,
        forall|j: int|
            0 <= j < GRID_CELLS ==> ((#[trigger] s[j]) is Some <==> (j == a || j == b || j == t)),
        feeds(s, a, t),
        feeds(s, b, t),
        has_token(s[a]),
        has_token(s[b]),
        is_empty_slot(s[t]),
    ensures
        planned_swaps(s) == seq![(a as usize, t as usize)],
        tick_segments(s) == swap_segments(s, a, t),
        has_token(tick_segments(s)[t]),
        tick_segments(s)[t].unwrap().payload == s[a].unwrap().payload,
        is_empty_slot(tick_segments(s)[a]),
        tick_segments(s)[b] == s[b],
        forall|j: int|
            0 <= j < GRID_CELLS && j != a && j != t ==> #[trigger] tick_segments(s)[j] == s[j],
{
    // The work-set is exactly the target cell.
    assert(empty_slot_pred(s)(t) == is_empty_slot(s[t]));
    assert forall|j: int| 0 <= j < GRID_CELLS && #[trigger] empty_slot_pred(s)(j) implies j
        == t by {
        assert(is_empty_slot(s[j]));
    }
    lemma_indices_matching_single(empty_slot_pred(s), GRID_CELLS as int, t);
    let sds = seeds(s);
    assert(sds =~= seq![t as usize]);

    // The upstream index entry for the target is exactly [a, b].
    assert(feeds_pred(s, t)(a) && feeds_pred(s, t)(b));
    assert forall|j: int| 0 <= j < GRID_CELLS && #[trigger] feeds_pred(s, t)(j) implies (j == a || j
        == b) by {
        assert(feeds(s, j, t));
        if j == t {
            lemma_target_index_ne(t, s[t].unwrap().direction);
        }
    }
    lemma_indices_matching_pair(feeds_pred(s, t), GRID_CELLS as int, a, b);
    let up = upstream_of(s, t);
    assert(up =~= seq![a as usize, b as usize]);

    // The first source in the fixed order wins.
    assert(up[0] == a as usize);
    assert(winner_in(s, up, Set::<usize>::empty()) == Some(a as usize));

    // One transfer is planned, and nothing more.
    assert(sds[0] == t as usize);
    assert(sds.drop_first() =~= Seq::<usize>::empty());
    assert(collect_from(s, sds.drop_first(), Set::<usize>::empty().insert(a as usize))
        == Seq::<(usize, usize)>::empty());
    let plan = planned_swaps(s);
    assert(plan =~= seq![(a as usize, t as usize)]);

    // Applying it is one payload swap.
    assert(plan.drop_first() =~= Seq::<(usize, usize)>::empty());
    assert(plan[0] == (a as usize, t as usize));
    let sw1 = swap_segments(s, a, t);
    assert(apply_swaps(s, plan) == apply_swaps(sw1, plan.drop_first()));
    assert(apply_swaps(sw1, plan.drop_first()) == sw1);
    assert(tick_segments(s) == swap_segments(s, a, t));
}

/// The cell index of the coordinate `(x, y)`, for stating grid shapes.
pub open spec fn cell_at(x: int, y: int) -> int {
    y * (MAP_WIDTH as int) + x
}

/// Whether `j` is one of the cells of a vertical chain at column `x` from
/// row `y0` to row `y0 + n`.
pub open spec fn chain_cell(x: int, y0: int, n: int, j: int) -> bool {
    exists|k: int| 0 <= k <= n && j == #[trigger] cell_at(x, y0 + k)
}

/// The downstream target of a down-feeding segment at `(x, y)` is the cell
/// below it, when that cell is on the grid.
pub proof fn lemma_down_target(x: int, y: int)
    requires
        0 <= x < MAP_WIDTH,
        0 <= y < MAP_HEIGHT,
    ensures
        y < MAP_HEIGHT - 1 ==> target_index(cell_at(x, y), Direction::Down) == Some(
            cell_at(x, y + 1),
        ),
        y == MAP_HEIGHT - 1 ==> target_index(cell_at(x, y), Direction::Down) is None,
{
    let i = cell_at(x, y);
    assert(i % (MAP_WIDTH as int) == x && i / (MAP_WIDTH as int) == y) by (nonlinear_arith)
        requires
            0 <= x < 80 && 0 <= y < 50 && i == y * 80 + x,
    ;
}

/// Single-hop bound: on a straight down-feeding chain whose head holds the
/// only token and whose other cells are empty, one tick moves the token
/// exactly one cell — from the head to the second cell — and touches
/// nothing else.
pub proof fn lemma_chain_single_hop(s: Seq<Option<ResourceMover>>, x: int, y0: int, n: int)
    requires
        s.len() == GRID_CELLS,
        0 <= x < MAP_WIDTH,
        0 <= y0,
        1 <= n,
        y0 + n < MAP_HEIGHT,
        forall|j: int|
            0 <= j < GRID_CELLS ==> ((#[trigger] s[j]) is Some <==> chain_cell(x, y0, n, j)),
        forall|k: int|
            0 <= k <= n ==> (#[trigger] s[cell_at(x, y0 + k)]).unwrap().direction
                == Direction::Down,
        has_token(s[cell_at(x, y0)]),
        forall|k: int| 1 <= k <= n ==> is_empty_slot(#[trigger] s[cell_at(x, y0 + k)]),
    ensures
        planned_swaps(s) == seq![(cell_at(x, y0) as usize, cell_at(x, y0 + 1) as usize)],
        tick_segments(s) == swap_segments(s, cell_at(x, y0), cell_at(x, y0 + 1)),
        is_empty_slot(tick_segments(s)[cell_at(x, y0)]),
        has_token(tick_segments(s)[cell_at(x, y0 + 1)]),
        tick_segments(s)[cell_at(x, y0 + 1)].unwrap().payload == s[cell_at(
            x,
            y0,
        )].unwrap().payload,
        forall|j: int|
            0 <= j < GRID_CELLS && j != cell_at(x, y0) && j != cell_at(x, y0 + 1)
                ==> #[trigger] tick_segments(s)[j] == s[j],
{
    let head = cell_at(x, y0);
    let second = cell_at(x, y0 + 1);

    // Chain cells lie on the grid, ascend strictly with the row, and the
    // chain relation is injective in the row offset.
    assert forall|k: int| 0 <= k <= n implies 0 <= #[trigger] cell_at(x, y0 + k)
        < GRID_CELLS by {
        assert(cell_at(x, y0 + k) == (y0 + k) * 80 + x);
    }

    // The work-set is exactly the chain cells below the head, so its first
    // entry is the second cell.
    assert forall|j: int| 0 <= j < GRID_CELLS && #[trigger] empty_slot_pred(s)(j) implies (
    chain_cell(x, y0, n, j) && second <= j) by {
        assert(is_empty_slot(s[j]));
        assert(s[j] is Some);
        let k = choose|k: int| 0 <= k <= n && j == #[trigger] cell_at(x, y0 + k);
        if k == 0 {
            assert(has_token(s[head]));
            assert(false);
        }
        assert(cell_at(x, y0 + k) >= cell_at(x, y0 + 1));
    }
    lemma_indices_matching_props(empty_slot_pred(s), GRID_CELLS as int);
    let sds = seeds(s);
    assert(chain_cell(x, y0, n, second)) by {
        assert(second == cell_at(x, y0 + 1));
    }
    assert(is_empty_slot(s[second]));
    assert(empty_slot_pred(s)(second));
    assert(sds.contains(second as usize));
    let m0 = choose|m: int| 0 <= m < sds.len() && sds[m] == second as usize;
    assert forall|m: int| 0 <= m < sds.len() implies second <= #[trigger] sds[m] as int by {
        assert(empty_slot_pred(s)(sds[m] as int));
    }
    assert(sds[0] == second as usize) by {
        if m0 > 0 {
            assert(sds[0] < sds[m0]);
        }
    }

    // The upstream index entry of chain cell k (k >= 1) is exactly the
    // chain cell above it.
    assert forall|k: int| 1 <= k <= n implies upstream_of(s, #[trigger] cell_at(x, y0 + k)) =~= seq![
        cell_at(x, y0 + (k - 1)) as usize,
    ] by {
        let e = cell_at(x, y0 + k);
        let above = cell_at(x, y0 + (k - 1));
        assert(feeds_pred(s, e)(above)) by {
            assert(s[above] is Some) by {
                assert(chain_cell(x, y0, n, above));
            }
            lemma_down_target(x, y0 + (k - 1));
            assert(s[above].unwrap().direction == Direction::Down);
        }
        assert forall|j: int| 0 <= j < GRID_CELLS && #[trigger] feeds_pred(s, e)(j) implies j
            == above by {
            assert(feeds(s, j, e));
            assert(s[j] is Some);
            let kj = choose|kk: int| 0 <= kk <= n && j == #[trigger] cell_at(x, y0 + kk);
            lemma_down_target(x, y0 + kj);
            assert(s[j].unwrap().direction == Direction::Down);
            if y0 + kj < MAP_HEIGHT - 1 {
                assert(cell_at(x, y0 + kj + 1) == e);
                assert(kj == k - 1);
            } else {
                assert(target_index(j, Direction::Down) is None);
                assert(false);
            }
        }
        lemma_indices_matching_single(feeds_pred(s, e), GRID_CELLS as int, above);
    }

    // The first seed pulls from the head; every later seed's only source
    // is an empty chain cell, so nothing else is planned.
    assert(upstream_of(s, second) =~= seq![head as usize]) by {
        assert(second == cell_at(x, y0 + 1));
        assert(cell_at(x, y0 + (1 - 1)) == head);
    }
    let up = upstream_of(s, second);
    assert(up[0] == head as usize);
    assert(winner_in(s, up, Set::<usize>::empty()) == Some(head as usize));
    assert(collect_from(s, sds, Set::<usize>::empty()) == seq![(head as usize, second as usize)]
        + collect_from(s, sds.drop_first(), Set::<usize>::empty().insert(head as usize)));

    let rest = sds.drop_first();
    assert forall|m: int, kk: int|
        0 <= m < rest.len() && 0 <= kk < upstream_of(s, #[trigger] rest[m] as int).len()
            implies !has_token(s[#[trigger] upstream_of(s, rest[m] as int)[kk] as int]) by {
        assert(rest[m] == sds[m + 1]);
        let e = rest[m] as int;
        assert(empty_slot_pred(s)(e));
        assert(chain_cell(x, y0, n, e) && second <= e);
        let ke = choose|k: int| 0 <= k <= n && e == #[trigger] cell_at(x, y0 + k);
        assert(ke >= 1);
        assert(sds[0] < sds[m + 1]);
        assert(second < e);
        assert(ke >= 2) by {
            if ke == 1 {
                assert(e == second);
            }
        }
        assert(upstream_of(s, e) =~= seq![cell_at(x, y0 + (ke - 1)) as usize]);
        assert(kk == 0);
        assert(is_empty_slot(s[cell_at(x, y0 + (ke - 1))]));
    }
    lemma_collect_none(s, rest, Set::<usize>::empty().insert(head as usize));
    let plan = planned_swaps(s);
    assert(plan =~= seq![(head as usize, second as usize)]);

    // Applying the plan is one payload swap.
    assert(plan.drop_first() =~= Seq::<(usize, usize)>::empty());
    assert(plan[0] == (head as usize, second as usize));
    let sw1 = swap_segments(s, head, second);
    assert(apply_swaps(s, plan) == apply_swaps(sw1, plan.drop_first()));
    assert(apply_swaps(sw1, plan.drop_first()) == sw1);
    assert(tick_segments(s) == swap_segments(s, head, second));
    assert(is_empty_slot(s[second]));
}

/// The set of retired sources a boolean array stands for.
pub open spec fn used_set(u: Seq<bool>) -> Set<usize> {
    Set::new(|j: usize| j < u.len() && u[j as int])
}

/// Downstream target of cell `i` feeding toward `d`; `None` when the
/// target lies off the grid.
fn target_cell(i: usize, d: Direction) -> (t: Option<usize>)
    requires
        i < GRID_CELLS,
    ensures
        match t {
            Some(ti) => target_index(i as int, d) == Some(ti as int) && ti < GRID_CELLS,
            None => target_index(i as int, d) is None,
        },
{
    proof {
        vstd::arithmetic::div_mod::lemma_fundamental_div_mod(i as int, MAP_WIDTH as int);
        vstd::arithmetic::div_mod::lemma_mod_bound(i as int, MAP_WIDTH as int);
    }
    let x = i % (MAP_WIDTH as usize);
    let y = i / (MAP_WIDTH as usize);
    match d {
        Direction::Up => if y > 0 {
            Some(i - (MAP_WIDTH as usize))
        } else {
            None
        },
        Direction::Down => if y < (MAP_HEIGHT as usize) - 1 {
            Some(i + (MAP_WIDTH as usize))
        } else {
            None
        },
        Direction::Left => if x > 0 {
            Some(i - 1)
        } else {
            None
        },
        Direction::Right => if x < (MAP_WIDTH as usize) - 1 {
            Some(i + 1)
        } else {
            None
        },
    }
}

/// The tick scheduler and propagation system: a fixed-interval gate around
/// the engine. Invocations before the due time do nothing; a run that goes
/// through schedules the next one a fixed interval after `now`, with no
/// drift correction and no catch-up for skipped intervals.
#[derive(Debug)]
pub struct MoveResources {
    next_update: u64,
}

impl Default for MoveResources {
    /// A scheduler whose first run is due immediately.
    fn default() -> (r: Self)
        ensures
            r.next_due() == 0,
    {
        Self { next_update: 0 }
    }
}

impl MoveResources {
    /// The earliest `now` at which the next invocation will run the engine.
    pub closed spec fn next_due(self) -> u64 {
        self.next_update
    }

    /// A scheduler constructed at time `now`, due immediately.
    pub fn new(now: u64) -> (r: Self)
        ensures
            r.next_due() == now,
    {
        Self { next_update: now }
    }

    /// Read the due time, for collaborators that display or test it.
    pub fn due_at(&self) -> (t: u64)
        ensures
            t == self.next_due(),
    {
        self.next_update
    }

    /// One gated invocation of the propagation engine at wall-clock time
    /// `now` (in milliseconds).
    ///
    /// Before the due time this is a no-op: the network and the due time
    /// are left exactly as they were. Otherwise the engine runs once —
    /// the network's segments and render hints become the tick of their
    /// old values — and the next run is due a fixed interval after `now`.
    pub fn run(&mut self, now: u64, net: &mut ConveyorNetwork)
        requires
            old(net).wf(),
            now <= u64::MAX - TICK_INTERVAL_MS,
        ensures
            final(net).wf(),
            now < old(self).next_due() ==> *final(self) == *old(self) && *final(net) == *old(net),
            now >= old(self).next_due() ==> final(self).next_due() == now + TICK_INTERVAL_MS
                && final(net).segments() == tick_segments(old(net).segments())
                && final(net).render_hints() == tick_hints(
                old(net).segments(),
                old(net).render_hints(),
            ),
    {
        if now < self.next_update {
            return ;
        }
        self.next_update = now + TICK_INTERVAL_MS;

        let ghost s0 = net.segments();
        let ghost h0 = net.render_hints();

        // Build the upstream index and the pending work-set against the
        // pre-tick state.
        let mut upstream: Vec<Vec<usize>> = Vec::new();
        while upstream.len() < GRID_CELLS
            invariant
                upstream@.len() <= GRID_CELLS,
                forall|t: int| 0 <= t < upstream@.len() ==> (#[trigger] upstream@[t])@.len() == 0,
            decreases GRID_CELLS - upstream@.len(),
        {
            upstream.push(Vec::new());
        }

        let mut seed_list: Vec<usize> = Vec::new();
        let mut i: usize = 0;
        while i < GRID_CELLS
            invariant
                net.wf(),
                net.segments() == s0,
                net.render_hints() == h0,
                i <= GRID_CELLS,
                upstream@.len() == GRID_CELLS,
                forall|t: int|
                    0 <= t < GRID_CELLS ==> (#[trigger] upstream@[t])@ == indices_matching(
                        feeds_pred(s0, t),
                        i as int,
                    ),
                seed_list@ == indices_matching(empty_slot_pred(s0), i as int),
            decreases GRID_CELLS - i,
        {
            let cell = net.cell(i);
            let ghost up_prev = upstream@;
            let ghost seeds_prev = seed_list@;
            match cell {
                None => {},
                Some(m) => {
                    if m.payload.is_none() {
                        seed_list.push(i);
                    }
                    match target_cell(i, m.direction) {
                        Some(t) => {
                            upstream[t].push(i);
                        },
                        None => {},
                    }
                },
            }
            proof {
                assert forall|t: int|
                    0 <= t < GRID_CELLS implies (#[trigger] upstream@[t])@ == indices_matching(
                    feeds_pred(s0, t),
                    i + 1,
                ) by {
                    assert(feeds_pred(s0, t)(i as int) == feeds(s0, i as int, t));
                    assert(up_prev[t]@ == indices_matching(feeds_pred(s0, t), i as int));
                    if feeds(s0, i as int, t) {
                        assert(upstream@[t]@ == up_prev[t]@.push(i));
                    } else {
                        assert(upstream@[t]@ == up_prev[t]@);
                    }
                }
                assert(empty_slot_pred(s0)(i as int) == is_empty_slot(s0[i as int]));
                if is_empty_slot(s0[i as int]) {
                    assert(seed_list@ == seeds_prev.push(i));
                } else {
                    assert(seed_list@ == seeds_prev);
                }
            }
            i = i + 1;
        }

        // Plan the transfers: for each pending slot in order, the first
        // upstream source with a token that has not yet been retired.
        let mut used: Vec<bool> = Vec::new();
        while used.len() < GRID_CELLS
            invariant
                used@.len() <= GRID_CELLS,
                forall|j: int| 0 <= j < used@.len() ==> !used@[j],
            decreases GRID_CELLS - used@.len(),
        {
            used.push(false);
        }
        proof {
            assert(used_set(used@) =~= Set::<usize>::empty());
        }

        let mut swaps: Vec<(usize, usize)> = Vec::new();
        let mut k: usize = 0;
        proof {
            assert(seeds(s0).skip(0) =~= seeds(s0));
            assert(used_set(used@) =~= Set::<usize>::empty());
            assert(Seq::<(usize, usize)>::empty() + collect_from(s0, seeds(s0), used_set(used@))
                =~= collect_from(s0, seeds(s0), used_set(used@)));
        }
        while k < seed_list.len()
            invariant
                net.wf(),
                net.segments() == s0,
                net.render_hints() == h0,
                s0.len() == GRID_CELLS,
                upstream@.len() == GRID_CELLS,
                forall|t: int|
                    0 <= t < GRID_CELLS ==> (#[trigger] upstream@[t])@ == upstream_of(s0, t),
                seed_list@ == seeds(s0),
                used@.len() == GRID_CELLS,
                k <= seed_list@.len(),
                planned_swaps(s0) == swaps@ + collect_from(
                    s0,
                    seeds(s0).skip(k as int),
                    used_set(used@),
                ),
            decreases seed_list@.len() - k,
        {
            let e = seed_list[k];
            proof {
                lemma_indices_matching_props(empty_slot_pred(s0), GRID_CELLS as int);
                assert(empty_slot_pred(s0)(e as int));
            }
            let row = &upstream[e];
            let ghost us = used_set(used@);
            let mut m: usize = 0;
            let mut won: Option<usize> = None;
            proof {
                assert(row@.skip(0) =~= row@);
            }
            while m < row.len() && won.is_none()
                invariant
                    net.wf(),
                    net.segments() == s0,
                    s0.len() == GRID_CELLS,
                    used@.len() == GRID_CELLS,
                    row@ == upstream_of(s0, e as int),
                    m <= row@.len(),
                    us == used_set(used@),
                    won is None ==> winner_in(s0, row@.skip(m as int), us) == winner_in(
                        s0,
                        row@,
                        us,
                    ),
                    won is Some ==> winner_in(s0, row@, us) == won && won.unwrap() < GRID_CELLS,
                decreases row@.len() - m,
            {
                let j = row[m];
                proof {
                    lemma_indices_matching_props(feeds_pred(s0, e as int), GRID_CELLS as int);
                    assert(row@.skip(m as int)[0] == j);
                    assert(row@.skip(m as int).drop_first() =~= row@.skip(m as int + 1));
                }
                let has = match net.cell(j) {
                    Some(mv) => mv.payload.is_some(),
                    None => false,
                };
                if has && !used[j] {
                    won = Some(j);
                    proof {
                        assert(!us.contains(j));
                        assert(winner_in(s0, row@.skip(m as int), us) == Some(j));
                    }
                } else {
                    proof {
                        assert(us.contains(j) == used@[j as int]);
                        assert(winner_in(s0, row@.skip(m as int), us) == winner_in(
                            s0,
                            row@.skip(m as int + 1),
                            us,
                        ));
                    }
                }
                m = m + 1;
            }
            proof {
                if won is None {
                    assert(row@.skip(row@.len() as int) =~= Seq::<usize>::empty());
                    assert(winner_in(s0, row@, us) is None);
                }
                assert(seeds(s0).skip(k as int)[0] == e);
                assert(seeds(s0).skip(k as int).drop_first() =~= seeds(s0).skip(k as int + 1));
            }
            let ghost swaps_prev = swaps@;
            match won {
                Some(w) => {
                    swaps.push((w, e));
                    used.set(w, true);
                    proof {
                        assert(used_set(used@) =~= us.insert(w));
                        assert(collect_from(s0, seeds(s0).skip(k as int), us) == seq![(w, e)]
                            + collect_from(s0, seeds(s0).skip(k as int + 1), us.insert(w)));
                        assert(swaps@ =~= swaps_prev + seq![(w, e)]);
                        assert((swaps_prev + seq![(w, e)]) + collect_from(
                            s0,
                            seeds(s0).skip(k as int + 1),
                            us.insert(w),
                        ) =~= swaps_prev + (seq![(w, e)] + collect_from(
                            s0,
                            seeds(s0).skip(k as int + 1),
                            us.insert(w),
                        )));
                    }
                },
                None => {
                    proof {
                        assert(collect_from(s0, seeds(s0).skip(k as int), us) == collect_from(
                            s0,
                            seeds(s0).skip(k as int + 1),
                            us,
                        ));
                    }
                },
            }
            k = k + 1;
        }

        // Apply the planned transfers in order; every decision above read
        // only the pre-tick state, so each segment moves at most one hop.
        let ghost plan = planned_swaps(s0);
        proof {
            assert(seeds(s0).skip(seed_list@.len() as int) =~= Seq::<usize>::empty());
            assert(swaps@ + collect_from(s0, Seq::<usize>::empty(), used_set(used@)) =~= swaps@);
            assert(plan == swaps@);
            lemma_planned_swaps_ok(s0);
            assert(plan.take(0) =~= Seq::<(usize, usize)>::empty());
        }
        let mut a: usize = 0;
        while a < swaps.len()
            invariant
                swaps@ == plan,
                swaps_ok(s0, plan),
                s0.len() == GRID_CELLS,
                h0.len() == GRID_CELLS,
                net.wf(),
                a <= plan.len(),
                net.segments() == apply_swaps(s0, plan.take(a as int)),
                net.render_hints() == apply_swaps_hints(s0, h0, plan.take(a as int)),
            decreases plan.len() - a,
        {
            let pair = swaps[a];
            let w = pair.0;
            let e = pair.1;
            proof {
                assert(plan[a as int] == (w, e));
                assert forall|q: int|
                    0 <= q < plan.take(a as int).len() implies (#[trigger] plan.take(
                    a as int,
                )[q]).0 < GRID_CELLS && plan.take(a as int)[q].1 < GRID_CELLS by {
                    assert(plan.take(a as int)[q] == plan[q]);
                }
                lemma_apply_swaps_frame(s0, plan.take(a as int));
                assert(s0[w as int] is Some && s0[e as int] is Some);
            }
            net.transfer(w, e);
            proof {
                lemma_apply_swaps_snoc(s0, h0, plan.take(a as int), (w, e));
                assert(plan.take(a as int).push((w, e)) =~= plan.take(a as int + 1));
            }
            a = a + 1;
        }
        proof {
            assert(plan.take(plan.len() as int) =~= plan);
        }
    }
}

} // verus!
