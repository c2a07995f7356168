//! Facts about the engine that relate several operations or hold for every
//! grid, proved over the model that the operations' contracts use.
use vstd::prelude::*;

use crate::life::{
    changed_indices, flat, lemma_flat_in_grid, lemma_flat_split, live_neighbors, next_gen,
    wrap_dec, wrap_inc,
};
use crate::universe::{filled, ticked, UniverseView};

verus! {

/// A tick is deterministic: two universes of the same size holding the same
/// cells tick to the same cells, the same change list and the same count.
pub proof fn lemma_tick_deterministic(
    pre1: UniverseView,
    post1: UniverseView,
    pre2: UniverseView,
    post2: UniverseView,
)
    requires
        ticked(pre1, post1),
        ticked(pre2, post2),
        pre1.width == pre2.width,
        pre1.height == pre2.height,
        pre1.cells == pre2.cells,
    ensures
        post1 == post2,
{
}

/// The eight toroidal neighbours of a cell of a `w` by `h` grid lie inside
/// the grid.
pub proof fn lemma_neighbors_in_grid(w: int, h: int, r: int, c: int)
    requires
        0 <= r < h,
        0 <= c < w,
    ensures
        0 <= flat(w, wrap_dec(r, h), wrap_dec(c, w)) < w * h,
        0 <= flat(w, wrap_dec(r, h), c) < w * h,
        0 <= flat(w, wrap_dec(r, h), wrap_inc(c, w)) < w * h,
        0 <= flat(w, r, wrap_dec(c, w)) < w * h,
        0 <= flat(w, r, wrap_inc(c, w)) < w * h,
        0 <= flat(w, wrap_inc(r, h), wrap_dec(c, w)) < w * h,
        0 <= flat(w, wrap_inc(r, h), c) < w * h,
        0 <= flat(w, wrap_inc(r, h), wrap_inc(c, w)) < w * h,
{
    let n = wrap_dec(r, h);
    let s = wrap_inc(r, h);
    let west = wrap_dec(c, w);
    let east = wrap_inc(c, w);
    lemma_flat_in_grid(w, h, n, west);
    lemma_flat_in_grid(w, h, n, c);
    lemma_flat_in_grid(w, h, n, east);
    lemma_flat_in_grid(w, h, r, west);
    lemma_flat_in_grid(w, h, r, east);
    lemma_flat_in_grid(w, h, s, west);
    lemma_flat_in_grid(w, h, s, c);
    lemma_flat_in_grid(w, h, s, east);
}

/// Edges wrap round: the corner cells `(0, 0)` and `(h - 1, w - 1)` are
/// neighbours. A live cell in either corner adds to the live-neighbour
/// count of the other: the count is strictly larger with it alive than
/// with it dead, whatever the rest of the grid holds.
pub proof fn lemma_corner_wraparound(cells: Seq<bool>, w: int, h: int)
    requires
        w >= 1,
        h >= 1,
        cells.len() == w * h,
    ensures
        ({
            let far = flat(w, h - 1, w - 1);
            live_neighbors(cells.update(far, true), w, h, 0, 0) > live_neighbors(
                cells.update(far, false),
                w,
                h,
                0,
                0,
            )
        }),
        ({
            let origin = flat(w, 0, 0);
            live_neighbors(cells.update(origin, true), w, h, h - 1, w - 1) > live_neighbors(
                cells.update(origin, false),
                w,
                h,
                h - 1,
                w - 1,
            )
        }),
{
    lemma_neighbors_in_grid(w, h, 0, 0);
    lemma_neighbors_in_grid(w, h, h - 1, w - 1);
}

/// Every entry of the change list below `n` is an index below `n`.
proof fn lemma_changed_below(before: Seq<bool>, after: Seq<bool>, n: nat)
    requires
        n <= u32::MAX + 1,
    ensures
        forall|k: int|
            0 <= k < changed_indices(before, after, n).len() ==> (#[trigger] changed_indices(
                before,
                after,
                n,
            )[k]) < n,
    decreases n,
{
    if n > 0 {
        let rest = changed_indices(before, after, (n - 1) as nat);
        lemma_changed_below(before, after, (n - 1) as nat);
        assert forall|k: int| 0 <= k < changed_indices(before, after, n).len() implies (
        #[trigger] changed_indices(before, after, n)[k]) < n by {
            if k < rest.len() {
                assert(changed_indices(before, after, n)[k] == rest[k]);
            }
        }
    }
}

/// The change list is exact: it holds each index below `n` at which
/// `before` and `after` differ, once, and nothing else, so its length is
/// the number of cells that differ.
pub proof fn lemma_changed_exact(before: Seq<bool>, after: Seq<bool>, n: nat)
    requires
        n <= before.len(),
        n <= after.len(),
        n <= u32::MAX + 1,
    ensures
        changed_indices(before, after, n).no_duplicates(),
        changed_indices(before, after, n).to_set() == Set::new(
            |i: u32| i < n && before[i as int] != after[i as int],
        ),
        changed_indices(before, after, n).len() == Set::new(
            |i: u32| i < n && before[i as int] != after[i as int],
        ).len(),
    decreases n,
{
    let s = changed_indices(before, after, n);
    let target = Set::new(|i: u32| i < n && before[i as int] != after[i as int]);
    if n == 0 {
        assert(s.to_set() =~= target);
    } else {
        let m = (n - 1) as nat;
        let rest = changed_indices(before, after, m);
        lemma_changed_exact(before, after, m);
        lemma_changed_below(before, after, m);
        let prev = Set::new(|i: u32| i < m && before[i as int] != after[i as int]);
        if before[m as int] != after[m as int] {
            assert(!rest.contains(m as u32));
            assert(s.no_duplicates()) by {
                assert forall|a: int, b: int|
                    0 <= a < s.len() && 0 <= b < s.len() && a != b implies s[a] != s[b] by {
                    if a < rest.len() && b < rest.len() {
                    } else if a < rest.len() {
                        assert(s[a] == rest[a]);
                    } else {
                        assert(s[b] == rest[b]);
                    }
                }
            }
            assert(s.to_set() =~= rest.to_set().insert(m as u32)) by {
                vstd::seq_lib::lemma_seq_contains_after_push(rest, m as u32, m as u32);
                assert forall|x: u32| s.contains(x) <==> rest.contains(x) || x == m as u32 by {
                    vstd::seq_lib::lemma_seq_contains_after_push(rest, m as u32, x);
                }
            }
            assert(s.to_set() =~= target);
        } else {
            assert(s.to_set() =~= target);
        }
    }
    s.unique_seq_to_set();
}

/// After a tick the change list names exactly the cells whose state
/// differs between the two generations, and the change count is their
/// number.
pub proof fn lemma_tick_diff_exact(pre: UniverseView, post: UniverseView)
    requires
        pre.valid(),
        ticked(pre, post),
    ensures
        post.diff.to_set() == Set::new(
            |i: u32| i < post.cells.len() && pre.cells[i as int] != post.cells[i as int],
        ),
        post.num_changed == Set::new(
            |i: u32| i < post.cells.len() && pre.cells[i as int] != post.cells[i as int],
        ).len(),
{
    lemma_changed_exact(pre.cells, post.cells, pre.cells.len());
}

/// Comparing a grid with itself reports nothing.
proof fn lemma_changed_same(cells: Seq<bool>, n: nat)
    ensures
        changed_indices(cells, cells, n) == Seq::<u32>::empty(),
    decreases n,
{
    if n > 0 {
        lemma_changed_same(cells, (n - 1) as nat);
    }
}

/// An all-dead grid stays all dead.
pub proof fn lemma_dead_grid_stays_dead(w: int, h: int)
    requires
        w >= 0,
        h >= 0,
    ensures
        next_gen(Seq::new((w * h) as nat, |i: int| false), w, h) == Seq::new(
            (w * h) as nat,
            |i: int| false,
        ),
{
    let dead = Seq::new((w * h) as nat, |i: int| false);
    assert(w * h >= 0) by (nonlinear_arith)
        requires
            w >= 0,
            h >= 0,
    ;
    assert forall|i: int| 0 <= i < w * h implies #[trigger] next_gen(dead, w, h)[i] == false by {
        lemma_flat_split(w, h, i);
        lemma_neighbors_in_grid(w, h, i / w, i % w);
    }
    assert(next_gen(dead, w, h) =~= dead);
}

/// Clearing and then ticking reports no change: the cleared grid is still
/// life, its change list empty and its count zero.
pub proof fn lemma_clear_then_tick_quiet(
    pre: UniverseView,
    cleared: UniverseView,
    post: UniverseView,
)
    requires
        pre.valid(),
        filled(cleared, pre.width, pre.height, Seq::new(pre.cells.len(), |i: int| false)),
        ticked(cleared, post),
    ensures
        post.cells == cleared.cells,
        post.diff == Seq::<u32>::empty(),
        post.num_changed == 0,
{
    lemma_dead_grid_stays_dead(pre.width as int, pre.height as int);
    lemma_changed_same(cleared.cells, cleared.cells.len());
}

/// A resize is seen at once: the new width and height, and one cell for
/// each of their product.
pub proof fn lemma_resize_dimensions(post: UniverseView, width: nat, height: nat, fill: Seq<bool>)
    requires
        fill.len() == width * height,
        filled(post, width, height, fill),
    ensures
        post.width == width,
        post.height == height,
        post.cells.len() == width * height,
{
}

} // verus!
