//! The mathematical model of a grid: cells in row-major order, the toroidal
//! neighbourhood, the B3/S23 rule, and the list of cells that differ between
//! two generations.
use vstd::prelude::*;

verus! {

/// The row above `r` on a torus of `h` rows.
pub open spec fn wrap_dec(r: int, h: int) -> int {
    if r == 0 { h - 1 } else { r - 1 }
}

/// The row below `r` on a torus of `h` rows.
pub open spec fn wrap_inc(r: int, h: int) -> int {
    if r == h - 1 { 0 } else { r + 1 }
}

/// The flat, row-major index of cell `(r, c)` in a grid `w` cells wide.
#[verifier::opaque]
pub open spec fn flat(w: int, r: int, c: int) -> int {
    r * w + c
}

/// 1 if cell `(r, c)` is alive, else 0.
pub open spec fn alive_at(cells: Seq<bool>, w: int, r: int, c: int) -> int {
    if cells[flat(w, r, c)] { 1 } else { 0 }
}

/// The number of live cells among the eight toroidal neighbours of `(r, c)`.
pub open spec fn live_neighbors(cells: Seq<bool>, w: int, h: int, r: int, c: int) -> int {
    let n = wrap_dec(r, h);
    let s = wrap_inc(r, h);
    let west = wrap_dec(c, w);
    let east = wrap_inc(c, w);
    alive_at(cells, w, n, west) + alive_at(cells, w, n, c) + alive_at(cells, w, n, east)
        + alive_at(cells, w, r, west) + alive_at(cells, w, r, east)
        + alive_at(cells, w, s, west) + alive_at(cells, w, s, c) + alive_at(cells, w, s, east)
}

/// The B3/S23 rule: a live cell survives with two or three live neighbours,
/// a dead one is born with exactly three.
pub open spec fn next_state(alive: bool, n: int) -> bool {
    if alive { n == 2 || n == 3 } else { n == 3 }
}

/// The generation that follows `cells` on a `w` by `h` torus.
pub open spec fn next_gen(cells: Seq<bool>, w: int, h: int) -> Seq<bool> {
    Seq::new(
        cells.len(),
        |i: int| next_state(cells[i], live_neighbors(cells, w, h, i / w, i % w)),
    )
}

/// The indices below `n` at which `before` and `after` differ, in increasing
/// order.
pub open spec fn changed_indices(before: Seq<bool>, after: Seq<bool>, n: nat) -> Seq<u32>
    decreases n,
{
    if n == 0 {
        Seq::empty()
    } else {
        let rest = changed_indices(before, after, (n - 1) as nat);
        if before[n - 1] != after[n - 1] {
            rest.push((n - 1) as u32)
        } else {
            rest
        }
    }
}

/// The list that reports every one of `n` cells: `0, 1, ..., n - 1`.
pub open spec fn all_indices(n: nat) -> Seq<u32> {
    Seq::new(n, |i: int| i as u32)
}

/// The glyph of a cell: a filled square if alive, a hollow one if dead.
pub open spec fn glyph(alive: bool) -> char {
    if alive { '\u{25FC}' } else { '\u{25FB}' }
}

/// The text of the first `n` cells of a grid `w` cells wide: one glyph per
/// cell, each row opened by a newline.
pub open spec fn render(cells: Seq<bool>, w: int, n: nat) -> Seq<char>
    decreases n,
{
    if n == 0 {
        Seq::empty()
    } else {
        let prev = render(cells, w, (n - 1) as nat);
        let opened = if (n - 1) % w == 0 { prev.push('\n') } else { prev };
        opened.push(glyph(cells[n - 1]))
    }
}

/// Both non-negative or both non-positive: `a * b >= 0` on integers.
pub open spec fn same_sign(a: int, b: int) -> bool {
    (a >= 0 && b >= 0) || (a <= 0 && b <= 0)
}

/// The row that entry `k` of a `d` by `d` template centred on row `row` is
/// stamped on; entries run row-major over offsets `-(d / 2) ..= d / 2`.
pub open spec fn stamp_row(row: int, d: int, k: int) -> int {
    row + k / d - d / 2
}

/// The column that entry `k` of a `d` by `d` template centred on column
/// `col` is stamped on.
pub open spec fn stamp_col(col: int, d: int, k: int) -> int {
    col + k % d - d / 2
}

/// Every entry of a `d` by `d` stamp at `(row, col)` that passes the sign
/// guard lands inside a `w` by `h` grid.
pub open spec fn stamp_fits(w: int, h: int, row: int, col: int, d: int) -> bool {
    forall|k: int|
        0 <= k < d * d && #[trigger] same_sign(stamp_row(row, d, k), stamp_col(col, d, k)) ==> 0
            <= stamp_row(row, d, k) < h && 0 <= stamp_col(col, d, k) < w
}

/// The cells and change list after the first `k` entries of template `tpl`
/// (side `d`) are stamped at `(row, col)`, one cell write per entry that
/// passes the sign guard, each appending its index to the change list.
pub open spec fn stamp(
    cells: Seq<bool>,
    diff: Seq<u32>,
    w: int,
    row: int,
    col: int,
    d: int,
    tpl: Seq<u8>,
    k: nat,
) -> (Seq<bool>, Seq<u32>)
    decreases k,
{
    if k == 0 {
        (cells, diff)
    } else {
        let prev = stamp(cells, diff, w, row, col, d, tpl, (k - 1) as nat);
        let r = stamp_row(row, d, k - 1);
        let c = stamp_col(col, d, k - 1);
        if same_sign(r, c) {
            let i = flat(w, r, c);
            (prev.0.update(i, tpl[k - 1] == 1), prev.1.push(i as u32))
        } else {
            prev
        }
    }
}

/// The glider, five by five, `1` for alive.
pub open spec fn glider_template() -> Seq<u8> {
    seq![
        0, 0, 0, 0, 0,
        0, 0, 1, 0, 0,
        1, 0, 1, 0, 0,
        0, 1, 1, 0, 0,
        0, 0, 0, 0, 0,
    ]
}

/// The pulsar, fifteen by fifteen, `1` for alive.
pub open spec fn pulsar_template() -> Seq<u8> {
    seq![
        0, 0, 0, 0, 0, 0, 0, 0, 0, 0, 0, 0, 0, 0, 0,
        0, 0, 0, 1, 1, 1, 0, 0, 0, 1, 1, 1, 0, 0, 0,
        0, 0, 0, 0, 0, 0, 0, 0, 0, 0, 0, 0, 0, 0, 0,
        0, 1, 0, 0, 0, 0, 1, 0, 1, 0, 0, 0, 0, 1, 0,
        0, 1, 0, 0, 0, 0, 1, 0, 1, 0, 0, 0, 0, 1, 0,
        0, 1, 0, 0, 0, 0, 1, 0, 1, 0, 0, 0, 0, 1, 0,
        0, 0, 0, 1, 1, 1, 0, 0, 0, 1, 1, 1, 0, 0, 0,
        0, 0, 0, 0, 0, 0, 0, 0, 0, 0, 0, 0, 0, 0, 0,
        0, 0, 0, 1, 1, 1, 0, 0, 0, 1, 1, 1, 0, 0, 0,
        0, 0, 0, 0, 0, 0, 0, 0, 0, 0, 0, 0, 0, 0, 0,
        0, 1, 0, 0, 0, 0, 1, 0, 1, 0, 0, 0, 0, 1, 0,
        0, 1, 0, 0, 0, 0, 1, 0, 1, 0, 0, 0, 0, 1, 0,
        0, 1, 0, 0, 0, 0, 1, 0, 1, 0, 0, 0, 0, 1, 0,
        0, 0, 0, 1, 1, 1, 0, 0, 0, 1, 1, 1, 0, 0, 0,
        0, 0, 0, 0, 0, 0, 0, 0, 0, 0, 0, 0, 0, 0, 0,
    ]
}

/// Entry `m` of a stamp centred on `(row, col)` is written: its target row
/// and column pass the sign guard.
pub open spec fn stamp_writes(row: int, col: int, d: int, m: int) -> bool {
    same_sign(stamp_row(row, d, m), stamp_col(col, d, m))
}

/// The flat index that entry `m` of a stamp is written to.
pub open spec fn stamp_target(w: int, row: int, col: int, d: int, m: int) -> int {
    flat(w, stamp_row(row, d, m), stamp_col(col, d, m))
}

/// Two cells of a grid `w` wide with the same flat index are the same cell.
pub proof fn lemma_flat_injective(w: int, r1: int, c1: int, r2: int, c2: int)
    requires
        0 <= c1 < w,
        0 <= c2 < w,
        flat(w, r1, c1) == flat(w, r2, c2),
    ensures
        r1 == r2,
        c1 == c2,
{
    reveal(flat);
    vstd::arithmetic::mul::lemma_mul_is_commutative(r1, w);
    vstd::arithmetic::mul::lemma_mul_is_commutative(r2, w);
    vstd::arithmetic::div_mod::lemma_fundamental_div_mod_converse(r1 * w + c1, w, r1, c1);
    vstd::arithmetic::div_mod::lemma_fundamental_div_mod_converse(r2 * w + c2, w, r2, c2);
}

/// Two different entries of a `d` by `d` stamp that are both written land
/// on different cells.
pub proof fn lemma_stamp_targets_distinct(
    w: int,
    h: int,
    row: int,
    col: int,
    d: int,
    m1: int,
    m2: int,
)
    requires
        d >= 1,
        stamp_fits(w, h, row, col, d),
        0 <= m1 < d * d,
        0 <= m2 < d * d,
        m1 != m2,
        stamp_writes(row, col, d, m1),
        stamp_writes(row, col, d, m2),
    ensures
        stamp_target(w, row, col, d, m1) != stamp_target(w, row, col, d, m2),
{
    assert(same_sign(stamp_row(row, d, m1), stamp_col(col, d, m1)));
    assert(same_sign(stamp_row(row, d, m2), stamp_col(col, d, m2)));
    if stamp_target(w, row, col, d, m1) == stamp_target(w, row, col, d, m2) {
        lemma_flat_injective(
            w,
            stamp_row(row, d, m1),
            stamp_col(col, d, m1),
            stamp_row(row, d, m2),
            stamp_col(col, d, m2),
        );
        vstd::arithmetic::div_mod::lemma_fundamental_div_mod(m1, d);
        vstd::arithmetic::div_mod::lemma_fundamental_div_mod(m2, d);
    }
}

/// What a stamp does to each cell, stated directly: after the first `k`
/// entries, the target of every written entry holds that entry's template
/// value, and every cell that no written entry targets keeps its state.
pub proof fn lemma_stamp_cells(
    cells: Seq<bool>,
    diff: Seq<u32>,
    w: int,
    h: int,
    row: int,
    col: int,
    d: int,
    tpl: Seq<u8>,
    k: nat,
)
    requires
        w >= 1,
        h >= 1,
        cells.len() == w * h,
        d >= 1,
        k <= d * d,
        stamp_fits(w, h, row, col, d),
    ensures
        stamp(cells, diff, w, row, col, d, tpl, k).0.len() == cells.len(),
        forall|m: int|
            0 <= m < k && #[trigger] stamp_writes(row, col, d, m) ==> stamp(
                cells,
                diff,
                w,
                row,
                col,
                d,
                tpl,
                k,
            ).0[stamp_target(w, row, col, d, m)] == (tpl[m] == 1),
        forall|p: int|
            0 <= p < cells.len() && (forall|m: int|
                0 <= m < k && #[trigger] stamp_writes(row, col, d, m) ==> stamp_target(
                    w,
                    row,
                    col,
                    d,
                    m,
                ) != p) ==> #[trigger] stamp(cells, diff, w, row, col, d, tpl, k).0[p] == cells[p],
    decreases k,
{
    if k > 0 {
        let j = k - 1;
        lemma_stamp_cells(cells, diff, w, h, row, col, d, tpl, (k - 1) as nat);
        let prev = stamp(cells, diff, w, row, col, d, tpl, (k - 1) as nat).0;
        let cur = stamp(cells, diff, w, row, col, d, tpl, k).0;
        if stamp_writes(row, col, d, j) {
            assert(same_sign(stamp_row(row, d, j), stamp_col(col, d, j)));
            lemma_flat_in_grid(w, h, stamp_row(row, d, j), stamp_col(col, d, j));
            assert forall|m: int|
                0 <= m < k && #[trigger] stamp_writes(row, col, d, m) implies cur[stamp_target(
                w,
                row,
                col,
                d,
                m,
            )] == (tpl[m] == 1) by {
                if m < j {
                    assert(same_sign(stamp_row(row, d, m), stamp_col(col, d, m)));
                    lemma_flat_in_grid(w, h, stamp_row(row, d, m), stamp_col(col, d, m));
                    lemma_stamp_targets_distinct(w, h, row, col, d, m, j);
                    assert(prev[stamp_target(w, row, col, d, m)] == (tpl[m] == 1));
                }
            }
            assert forall|p: int|
                0 <= p < cells.len() && (forall|m: int|
                    0 <= m < k && #[trigger] stamp_writes(row, col, d, m) ==> stamp_target(
                        w,
                        row,
                        col,
                        d,
                        m,
                    ) != p) implies #[trigger] cur[p] == cells[p] by {
                assert(stamp_target(w, row, col, d, j) != p);
            }
        }
    }
}

/// The list of changed indices below `n` has at most `n` entries.
pub proof fn lemma_changed_len(before: Seq<bool>, after: Seq<bool>, n: nat)
    ensures
        changed_indices(before, after, n).len() <= n,
    decreases n,
{
    if n > 0 {
        lemma_changed_len(before, after, (n - 1) as nat);
    }
}

/// Cell `(r, c)` of a `w` by `h` grid has its flat index inside the grid.
pub proof fn lemma_flat_in_grid(w: int, h: int, r: int, c: int)
    requires
        0 <= r < h,
        0 <= c < w,
    ensures
        0 <= flat(w, r, c) < w * h,
{
    reveal(flat);
    assert(0 <= r * w + c < w * h) by (nonlinear_arith)
        requires
            0 <= r < h,
            0 <= c < w,
    ;
}

/// The flat index `i` of a `w`-wide grid is cell `(i / w, i % w)`.
pub proof fn lemma_flat_split(w: int, h: int, i: int)
    requires
        0 < w,
        0 <= i < w * h,
    ensures
        0 <= i / w < h,
        0 <= i % w < w,
        flat(w, i / w, i % w) == i,
{
    reveal(flat);
    vstd::arithmetic::div_mod::lemma_fundamental_div_mod(i, w);
    vstd::arithmetic::div_mod::lemma_div_pos_is_pos(i, w);
    vstd::arithmetic::div_mod::lemma_mod_pos_bound(i, w);
    let q = i / w;
    let m = i % w;
    vstd::arithmetic::mul::lemma_mul_is_commutative(q, w);
    assert(q < h) by (nonlinear_arith)
        requires
            i == w * q + m,
            0 <= m < w,
            i < w * h,
            0 < w,
    ;
}

} // verus!
