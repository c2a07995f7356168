//! The grid engine: two bit sets of cells (the current generation and the
//! buffer the next one is written to), the grid's size, and the list of
//! cells that changed in the last batch.
use fixedbitset::FixedBitSet;
use vstd::prelude::*;

use crate::bitset::{
    bits_of, block_bit, blocks_of, clear_bits, get_bit, new_bits, push_char, set_bit,
};
use crate::life::{
    alive_at, all_indices, changed_indices, flat, glider_template, lemma_changed_len,
    lemma_flat_in_grid, live_neighbors, next_gen, pulsar_template, render, same_sign, stamp,
    stamp_col, stamp_fits, stamp_row, wrap_dec, wrap_inc,
};

verus! {

/// The abstract state of a universe.
pub struct UniverseView {
    pub width: nat,
    pub height: nat,
    /// The cells in row-major order, `true` for alive.
    pub cells: Seq<bool>,
    /// The flat indices reported as changed by the last batch of edits.
    pub diff: Seq<u32>,
    /// How many entries of `diff` are valid; always its whole length.
    pub num_changed: nat,
}

impl UniverseView {
    /// What holds of every universe: both dimensions positive, one cell per
    /// position with the cell count within `u32`, the change counter equal
    /// to the change list's length, and every listed index a cell of the
    /// grid.
    pub open spec fn valid(&self) -> bool {
        &&& self.width >= 1
        &&& self.height >= 1
        &&& self.width * self.height <= u32::MAX
        &&& self.cells.len() == self.width * self.height
        &&& self.num_changed == self.diff.len()
        &&& forall|k: int| 0 <= k < self.diff.len() ==> #[trigger] self.diff[k] < self.cells.len()
    }
}

/// `post` is `pre` advanced by one generation, with exactly the cells that
/// flipped reported, in row-major order.
pub open spec fn ticked(pre: UniverseView, post: UniverseView) -> bool {
    &&& post.width == pre.width
    &&& post.height == pre.height
    &&& post.cells == next_gen(pre.cells, pre.width as int, pre.height as int)
    &&& post.diff == changed_indices(pre.cells, post.cells, pre.cells.len())
    &&& post.num_changed == post.diff.len()
}

/// `post` is a `width` by `height` grid filled from `fill`, and reports every
/// cell as changed.
pub open spec fn filled(post: UniverseView, width: nat, height: nat, fill: Seq<bool>) -> bool {
    &&& post.width == width
    &&& post.height == height
    &&& post.cells == fill
    &&& post.diff == all_indices(fill.len())
    &&& post.num_changed == fill.len()
}

/// A Game of Life universe on a torus.
pub struct Universe {
    width: u32,
    height: u32,
    cells: FixedBitSet,
    prev_cells: FixedBitSet,
    diff_cells: Vec<u32>,
    num_changed: usize,
}

impl View for Universe {
    type V = UniverseView;

    closed spec fn view(&self) -> UniverseView {
        UniverseView {
            width: self.width as nat,
            height: self.height as nat,
            cells: bits_of(self.cells),
            diff: self.diff_cells@,
            num_changed: self.num_changed as nat,
        }
    }
}

/// The list `0, 1, ..., n - 1`.
fn index_list(n: u32) -> (r: Vec<u32>)
    ensures
        r@ == all_indices(n as nat),
{
    let mut r: Vec<u32> = Vec::new();
    let mut i: u32 = 0;
    while i < n
        invariant
            i <= n,
            r@ == all_indices(i as nat),
        decreases n - i,
    {
        r.push(i);
        i += 1;
        assert(r@ =~= all_indices(i as nat));
    }
    r
}

/// A bit set whose bits are `fill`.
fn bits_from(fill: &[bool]) -> (r: FixedBitSet)
    ensures
        bits_of(r) == fill@,
{
    let size = fill.len();
    let mut cells = new_bits(size);
    let mut i: usize = 0;
    while i < size
        invariant
            size == fill@.len(),
            i <= size,
            bits_of(cells).len() == size,
            forall|k: int| 0 <= k < i ==> bits_of(cells)[k] == fill@[k],
        decreases size - i,
    {
        set_bit(&mut cells, i, fill[i]);
        i += 1;
    }
    assert(bits_of(cells) =~= fill@);
    cells
}

impl Universe {
    /// The universe's internal invariant: the view is valid, and both
    /// buffers hold one bit per cell.
    pub closed spec fn wf(&self) -> bool {
        &&& self@.valid()
        &&& self.buffers_sized()
        &&& self.diff_cells@.len() == self.num_changed
    }

    /// Both dimensions positive, the cell count within `u32`, and both
    /// buffers one bit per cell.
    spec fn buffers_sized(&self) -> bool {
        &&& self.width >= 1
        &&& self.height >= 1
        &&& self.width as int * self.height as int <= u32::MAX
        &&& bits_of(self.cells).len() == self.width as int * self.height as int
        &&& bits_of(self.prev_cells).len() == self.width as int * self.height as int
    }

    /// A `width` by `height` universe whose cells are `fill` in row-major
    /// order (a random fill for a random start). Every cell is reported as
    /// changed, so that a first render draws the whole grid.
    pub fn new(width: u32, height: u32, fill: &[bool]) -> (r: Universe)
        requires
            width >= 1,
            height >= 1,
            width as int * height as int <= u32::MAX,
            fill@.len() == width as int * height as int,
        ensures
            r.wf(),
            r@.valid(),
            filled(r@, width as nat, height as nat, fill@),
    {
        let size = width * height;
        let cells = bits_from(fill);
        let prev_cells = new_bits(size as usize);
        Universe {
            width,
            height,
            cells,
            prev_cells,
            diff_cells: index_list(size),
            num_changed: size as usize,
        }
    }

    /// The flat index of cell `(row, column)`.
    fn get_index(&self, row: u32, column: u32) -> (r: usize)
        requires
            self.buffers_sized(),
            row < self.height,
            column < self.width,
        ensures
            r == flat(self.width as int, row as int, column as int),
            r < self.width as int * self.height as int,
    {
        proof {
            reveal(flat);
            lemma_flat_in_grid(self.width as int, self.height as int, row as int, column as int);
        }
        (row * self.width + column) as usize
    }

    /// The number of live cells among the eight neighbours of
    /// `(row, column)`, the edges wrapping round.
    #[verifier::spinoff_prover]
    #[verifier::rlimit(30)]
    fn live_neighbor_count(&self, row: u32, column: u32) -> (r: u8)
        requires
            self.buffers_sized(),
            row < self.height,
            column < self.width,
        ensures
            r == live_neighbors(
                bits_of(self.cells),
                self.width as int,
                self.height as int,
                row as int,
                column as int,
            ),
    {
        let mut count: u8 = 0;

        let north = if row == 0 {
            self.height - 1
        } else {
            row - 1
        };

        let south = if row == self.height - 1 {
            0
        } else {
            row + 1
        };

        let west = if column == 0 {
            self.width - 1
        } else {
            column - 1
        };

        let east = if column == self.width - 1 {
            0
        } else {
            column + 1
        };

        let ghost cells = bits_of(self.cells);
        let ghost wd = self.width as int;
        assert(north == wrap_dec(row as int, self.height as int));
        assert(south == wrap_inc(row as int, self.height as int));
        assert(west == wrap_dec(column as int, wd));
        assert(east == wrap_inc(column as int, wd));
        let ghost mut sum: int = 0;

        let nw = self.get_index(north, west);
        count += get_bit(&self.cells, nw) as u8;
        proof {
            sum = sum + alive_at(cells, wd, north as int, west as int);
        }
        assert(count == sum);

        let n = self.get_index(north, column);
        count += get_bit(&self.cells, n) as u8;
        proof {
            sum = sum + alive_at(cells, wd, north as int, column as int);
        }
        assert(count == sum);

        let ne = self.get_index(north, east);
        count += get_bit(&self.cells, ne) as u8;
        proof {
            sum = sum + alive_at(cells, wd, north as int, east as int);
        }
        assert(count == sum);

        let w = self.get_index(row, west);
        count += get_bit(&self.cells, w) as u8;
        proof {
            sum = sum + alive_at(cells, wd, row as int, west as int);
        }
        assert(count == sum);

        let e = self.get_index(row, east);
        count += get_bit(&self.cells, e) as u8;
        proof {
            sum = sum + alive_at(cells, wd, row as int, east as int);
        }
        assert(count == sum);

        let sw = self.get_index(south, west);
        count += get_bit(&self.cells, sw) as u8;
        proof {
            sum = sum + alive_at(cells, wd, south as int, west as int);
        }
        assert(count == sum);

        let s = self.get_index(south, column);
        count += get_bit(&self.cells, s) as u8;
        proof {
            sum = sum + alive_at(cells, wd, south as int, column as int);
        }
        assert(count == sum);

        let se = self.get_index(south, east);
        count += get_bit(&self.cells, se) as u8;
        proof {
            sum = sum + alive_at(cells, wd, south as int, east as int);
        }
        assert(count == sum);
        assert(sum == live_neighbors(cells, wd, self.height as int, row as int, column as int));
        count
    }

    /// Advances the universe by one generation under the B3/S23 rule, every
    /// cell reading the generation before, and replaces the change list with
    /// the cells that flipped, in row-major order.
    pub fn tick(&mut self)
        requires
            old(self).wf(),
        ensures
            final(self).wf(),
            final(self)@.valid(),
            ticked(old(self)@, final(self)@),
    {
        let ghost before = bits_of(self.cells);
        let ghost w = self.width as int;
        let ghost h = self.height as int;
        let ghost after = next_gen(before, w, h);

        self.num_changed = 0;
        self.diff_cells.truncate(0);

        let mut row: u32 = 0;
        while row < self.height
            invariant
                self.wf(),
                self.width == w,
                self.height == h,
                bits_of(self.cells) == before,
                after == next_gen(before, w, h),
                row <= h,
                forall|k: int| 0 <= k < row * w ==> bits_of(self.prev_cells)[k] == after[k],
                self.diff_cells@ == changed_indices(before, after, (row * w) as nat),
            decreases h - row,
        {
            let mut col: u32 = 0;
            while col < self.width
                invariant
                    self.wf(),
                    self.width == w,
                    self.height == h,
                    bits_of(self.cells) == before,
                    after == next_gen(before, w, h),
                    row < h,
                    col <= w,
                    forall|k: int|
                        0 <= k < row * w + col ==> bits_of(self.prev_cells)[k] == after[k],
                    self.diff_cells@ == changed_indices(before, after, (row * w + col) as nat),
                decreases w - col,
            {
                let idx = self.get_index(row, col);
                let cell = get_bit(&self.cells, idx);
                let live_neighbors = self.live_neighbor_count(row, col);

                let next_cell = match (cell, live_neighbors) {
                    // A live cell with fewer than two live neighbours dies.
                    (true, x) if x < 2 => false,
                    // A live cell with two or three live neighbours lives on.
                    (true, 2) | (true, 3) => true,
                    // A live cell with more than three live neighbours dies.
                    (true, x) if x > 3 => false,
                    // A dead cell with exactly three live neighbours is born.
                    (false, 3) => true,
                    // Every other cell keeps its state.
                    (otherwise, _) => otherwise,
                };

                proof {
                    reveal(flat);
                    vstd::arithmetic::div_mod::lemma_fundamental_div_mod_converse(
                        idx as int,
                        w,
                        row as int,
                        col as int,
                    );
                    assert(after[idx as int] == next_cell);
                    lemma_changed_len(before, after, idx as nat);
                }

                set_bit(&mut self.prev_cells, idx, next_cell);

                if cell != next_cell {
                    self.num_changed += 1;
                    self.diff_cells.push(idx as u32);
                }
                col += 1;
            }
            proof {
                assert(row * w + w == (row + 1) * w) by (nonlinear_arith);
            }
            row += 1;
        }

        self.diff_cells.truncate(self.num_changed);
        std::mem::swap(&mut self.cells, &mut self.prev_cells);
        proof {
            assert(row * w == w * h) by (nonlinear_arith)
                requires
                    row == h,
            ;
            assert(bits_of(self.cells) =~= after);
            assert(self.diff_cells@ == changed_indices(before, after, before.len()));
            assert(self.num_changed == self.diff_cells@.len());
        }
    }

    pub fn width(&self) -> (r: u32)
        ensures
            r == self@.width,
    {
        self.width
    }

    pub fn height(&self) -> (r: u32)
        ensures
            r == self@.height,
    {
        self.height
    }

    /// Changes the width, reallocates both buffers, and refills the grid
    /// from `fill` as `reset` does; the old pattern is discarded.
    pub fn set_width(&mut self, width: u32, fill: &[bool])
        requires
            old(self).wf(),
            width >= 1,
            width as int * old(self)@.height as int <= u32::MAX,
            fill@.len() == width as int * old(self)@.height as int,
        ensures
            final(self).wf(),
            final(self)@.valid(),
            filled(final(self)@, width as nat, old(self)@.height, fill@),
    {
        self.width = width;

        let size = (width * self.height) as usize;
        self.cells = new_bits(size);
        self.prev_cells = new_bits(size);

        self.refill(fill);
    }

    /// Changes the height, reallocates both buffers, and refills the grid
    /// from `fill` as `reset` does; the old pattern is discarded.
    pub fn set_height(&mut self, height: u32, fill: &[bool])
        requires
            old(self).wf(),
            height >= 1,
            old(self)@.width as int * height as int <= u32::MAX,
            fill@.len() == old(self)@.width as int * height as int,
        ensures
            final(self).wf(),
            final(self)@.valid(),
            filled(final(self)@, old(self)@.width, height as nat, fill@),
    {
        self.height = height;

        let size = (self.width * height) as usize;
        self.cells = new_bits(size);
        self.prev_cells = new_bits(size);

        self.refill(fill);
    }

    /// Changes both dimensions, reallocates both buffers, and refills the
    /// grid from `fill` as `reset` does; the old pattern is discarded.
    pub fn resize(&mut self, width: u32, height: u32, fill: &[bool])
        requires
            old(self).wf(),
            width >= 1,
            height >= 1,
            width as int * height as int <= u32::MAX,
            fill@.len() == width as int * height as int,
        ensures
            final(self).wf(),
            final(self)@.valid(),
            filled(final(self)@, width as nat, height as nat, fill@),
    {
        self.width = width;
        self.height = height;

        let size = (self.width * self.height) as usize;
        self.cells = new_bits(size);
        self.prev_cells = new_bits(size);

        self.refill(fill);
    }

    /// Refills every cell from `fill` (a random fill for a random restart)
    /// and reports every cell as changed.
    pub fn reset(&mut self, fill: &[bool])
        requires
            old(self).wf(),
            fill@.len() == old(self)@.width as int * old(self)@.height as int,
        ensures
            final(self).wf(),
            final(self)@.valid(),
            filled(final(self)@, old(self)@.width, old(self)@.height, fill@),
    {
        self.refill(fill);
    }

    /// Fills the cells from `fill` and reports every cell as changed; the
    /// change list may hold anything before.
    fn refill(&mut self, fill: &[bool])
        requires
            old(self).buffers_sized(),
            fill@.len() == old(self)@.width as int * old(self)@.height as int,
        ensures
            final(self).wf(),
            filled(final(self)@, old(self)@.width, old(self)@.height, fill@),
    {
        let size = (self.width * self.height) as usize;
        let mut i: usize = 0;
        while i < size
            invariant
                self.buffers_sized(),
                self.width == old(self)@.width,
                self.height == old(self)@.height,
                size == fill@.len(),
                bits_of(self.cells).len() == size,
                i <= size,
                forall|k: int| 0 <= k < i ==> bits_of(self.cells)[k] == fill@[k],
            decreases size - i,
        {
            set_bit(&mut self.cells, i, fill[i]);
            i += 1;
        }

        self.num_changed = size;
        self.diff_cells = index_list(size as u32);
        assert(bits_of(self.cells) =~= fill@);
    }

    /// Kills every cell and reports every cell as changed, whatever its
    /// state was.
    pub fn clear(&mut self)
        requires
            old(self).wf(),
        ensures
            final(self).wf(),
            final(self)@.valid(),
            filled(
                final(self)@,
                old(self)@.width,
                old(self)@.height,
                Seq::new(old(self)@.cells.len(), |i: int| false),
            ),
    {
        clear_bits(&mut self.cells);
        let size = (self.width * self.height) as usize;
        self.num_changed = size;
        self.diff_cells = index_list(size as u32);
    }

    /// The cell bitmap as 32-bit blocks, as many as the cells need: cell `i`
    /// (row-major) is bit `i % 32` of block `i / 32`.
    pub fn cells(&self) -> (r: &[u32])
        ensures
            r@.len() == (self@.cells.len() + 31) / 32,
            forall|i: int|
                #![trigger self@.cells[i]]
                0 <= i < self@.cells.len() ==> block_bit(r@, i) == self@.cells[i],
    {
        let r = blocks_of(&self.cells);
        assert forall|i: int| 0 <= i < self@.cells.len() implies block_bit(r@, i)
            == self@.cells[i] by {
            assert(bits_of(self.cells)[i] == self@.cells[i]);
        }
        r
    }

    /// How many entries of the change list are valid.
    pub fn num_changed(&self) -> (r: usize)
        ensures
            r == self@.num_changed,
    {
        self.num_changed
    }

    /// The change list: flat indices of the cells changed by the last batch.
    pub fn diff_cells(&self) -> (r: &[u32])
        ensures
            r@ == self@.diff,
    {
        self.diff_cells.as_slice()
    }

    /// Flips cell `(row, column)`; the change list becomes that one cell.
    pub fn toggle_cell(&mut self, row: u32, column: u32)
        requires
            old(self).wf(),
            row < old(self)@.height,
            column < old(self)@.width,
        ensures
            final(self).wf(),
            final(self)@.valid(),
            final(self)@.width == old(self)@.width,
            final(self)@.height == old(self)@.height,
            ({
                let i = flat(old(self)@.width as int, row as int, column as int);
                &&& final(self)@.cells == old(self)@.cells.update(i, !old(self)@.cells[i])
                &&& final(self)@.diff == seq![i as u32]
                &&& final(self)@.num_changed == 1
            }),
    {
        self.num_changed = 0;
        self.diff_cells.truncate(0);

        let idx = self.get_index(row, column);
        if get_bit(&self.cells, idx) {
            set_bit(&mut self.cells, idx, false);
        } else {
            set_bit(&mut self.cells, idx, true);
        }

        self.num_changed = 1;
        self.diff_cells.push(idx as u32);
        assert(self.diff_cells@ =~= seq![idx as u32]);
    }

    /// Sets cell `(row, column)` to `value` and appends its index to the
    /// change list, keeping what the list held: edits of one batch add up.
    pub fn set_cell(&mut self, row: u32, column: u32, value: bool)
        requires
            old(self).wf(),
            row < old(self)@.height,
            column < old(self)@.width,
        ensures
            final(self).wf(),
            final(self)@.valid(),
            final(self)@.width == old(self)@.width,
            final(self)@.height == old(self)@.height,
            ({
                let i = flat(old(self)@.width as int, row as int, column as int);
                &&& final(self)@.cells == old(self)@.cells.update(i, value)
                &&& final(self)@.diff == old(self)@.diff.push(i as u32)
                &&& final(self)@.num_changed == old(self)@.num_changed + 1
            }),
    {
        let idx = self.get_index(row, column);
        set_bit(&mut self.cells, idx, value);
        self.diff_cells.push(idx as u32);
        self.num_changed = self.diff_cells.len();
    }

    /// Stamps the `dimension` by `dimension` template (`1` for alive)
    /// centred on `(row, column)` with `set_cell`, row-major, skipping each
    /// entry whose target row and column have opposite signs.
    fn insert_square_template(&mut self, row: u32, column: u32, dimension: i32, template: Vec<u8>)
        requires
            old(self).wf(),
            1 <= dimension <= 46340,
            dimension % 2 == 1,
            template@.len() == dimension * dimension,
            stamp_fits(
                old(self)@.width as int,
                old(self)@.height as int,
                row as int,
                column as int,
                dimension as int,
            ),
        ensures
            final(self).wf(),
            final(self)@.valid(),
            final(self)@.width == old(self)@.width,
            final(self)@.height == old(self)@.height,
            final(self)@.num_changed == final(self)@.diff.len(),
            (final(self)@.cells, final(self)@.diff) == stamp(
                old(self)@.cells,
                old(self)@.diff,
                old(self)@.width as int,
                row as int,
                column as int,
                dimension as int,
                template@,
                (dimension * dimension) as nat,
            ),
    {
        let ghost d = dimension as int;
        let ghost c0 = old(self)@.cells;
        let ghost df0 = old(self)@.diff;
        let ghost w = old(self)@.width as int;
        let ghost h = old(self)@.height as int;
        let half = dimension / 2;
        assert(0 <= half <= 23170);
        assert(d / 2 == half);
        assert(d == 2 * half + 1);
        let mut template_iterator: usize = 0;
        let mut i: i32 = -half;
        assert(i + half == 0);
        assert((i + half) * d == 0);
        while i < half + 1
            invariant
                self.wf(),
                self@.width == w,
                self@.height == h,
                d == dimension,
                d == 2 * half + 1,
                d / 2 == half,
                1 <= d <= 46340,
                template@.len() == d * d,
                stamp_fits(w, self@.height as int, row as int, column as int, d),
                -half <= i <= half + 1,
                template_iterator == (i + half) * d,
                (self@.cells, self@.diff) == stamp(
                    c0,
                    df0,
                    w,
                    row as int,
                    column as int,
                    d,
                    template@,
                    template_iterator as nat,
                ),
            decreases half + 1 - i,
        {
            let mut j: i32 = -half;
            while j < half + 1
                invariant
                    self.wf(),
                    self@.width == w,
                    self@.height == h,
                    d == dimension,
                    d == 2 * half + 1,
                    d / 2 == half,
                    1 <= d <= 46340,
                    template@.len() == d * d,
                    stamp_fits(w, self@.height as int, row as int, column as int, d),
                    -half <= i < half + 1,
                    -half <= j <= half + 1,
                    template_iterator == (i + half) * d + (j + half),
                    (self@.cells, self@.diff) == stamp(
                        c0,
                        df0,
                        w,
                        row as int,
                        column as int,
                        d,
                        template@,
                        template_iterator as nat,
                    ),
                decreases half + 1 - j,
            {
                let ghost k = template_iterator as int;
                proof {
                    vstd::arithmetic::div_mod::lemma_fundamental_div_mod_converse(
                        k,
                        d,
                        (i + half) as int,
                        (j + half) as int,
                    );
                    assert(k < d * d) by (nonlinear_arith)
                        requires
                            k == (i + half) * d + (j + half),
                            0 <= i + half < d,
                            0 <= j + half < d,
                    ;
                    assert(d * d <= 46340 * 46340) by (nonlinear_arith)
                        requires
                            1 <= d <= 46340,
                    ;
                }
                let val = if template[template_iterator] == 1 {
                    true
                } else {
                    false
                };
                let row_shift: i64 = row as i64 + i as i64;
                let col_shift: i64 = column as i64 + j as i64;
                assert(row_shift == stamp_row(row as int, d, k));
                assert(col_shift == stamp_col(column as int, d, k));
                if (row_shift >= 0 && col_shift >= 0) || (row_shift <= 0 && col_shift <= 0) {
                    assert(same_sign(stamp_row(row as int, d, k), stamp_col(column as int, d, k)));
                    assert(0 <= row_shift < self@.height);
                    assert(0 <= col_shift < self@.width);
                    self.set_cell(row_shift as u32, col_shift as u32, val);
                }
                template_iterator += 1;
                j += 1;
            }
            proof {
                assert((i + half) * d + d == (i + 1 + half) * d) by (nonlinear_arith);
            }
            i += 1;
        }
        proof {
            assert((half + 1 + half) * d == d * d) by (nonlinear_arith)
                requires
                    d == 2 * half + 1,
            ;
        }
    }

    /// Stamps a glider centred on `(row, column)`, as `insert_square_template`
    /// does.
    pub fn insert_glider(&mut self, row: u32, column: u32)
        requires
            old(self).wf(),
            stamp_fits(old(self)@.width as int, old(self)@.height as int, row as int, column as int, 5),
        ensures
            final(self).wf(),
            final(self)@.valid(),
            final(self)@.width == old(self)@.width,
            final(self)@.height == old(self)@.height,
            final(self)@.num_changed == final(self)@.diff.len(),
            (final(self)@.cells, final(self)@.diff) == stamp(
                old(self)@.cells,
                old(self)@.diff,
                old(self)@.width as int,
                row as int,
                column as int,
                5,
                glider_template(),
                25,
            ),
    {
        let glider: Vec<u8> = vec![
            0, 0, 0, 0, 0,
            0, 0, 1, 0, 0,
            1, 0, 1, 0, 0,
            0, 1, 1, 0, 0,
            0, 0, 0, 0, 0,
        ];
        assert(glider@ =~= glider_template());
        self.insert_square_template(row, column, 5, glider);
    }

    /// Stamps a pulsar centred on `(row, column)`, as `insert_square_template`
    /// does.
    pub fn insert_pulsar(&mut self, row: u32, column: u32)
        requires
            old(self).wf(),
            stamp_fits(old(self)@.width as int, old(self)@.height as int, row as int, column as int, 15),
        ensures
            final(self).wf(),
            final(self)@.valid(),
            final(self)@.width == old(self)@.width,
            final(self)@.height == old(self)@.height,
            final(self)@.num_changed == final(self)@.diff.len(),
            (final(self)@.cells, final(self)@.diff) == stamp(
                old(self)@.cells,
                old(self)@.diff,
                old(self)@.width as int,
                row as int,
                column as int,
                15,
                pulsar_template(),
                225,
            ),
    {
        let pulsar: Vec<u8> = vec![
            0, 0, 0, 0, 0, 0, 0, 0, 0, 0, 0, 0, 0, 0, 0,
            0, 0, 0, 1, 1, 1, 0, 0, 0, 1, 1, 1, 0, 0, 0,
            0, 0, 0, 0, 0, 0, 0, 0, 0, 0, 0, 0, 0, 0, 0,
            0, 1, 0, 0, 0, 0, 1, 0, 1, 0, 0, 0, 0, 1, 0,
            0, 1, 0, 0, 0, 0, 1, 0, 1, 0, 0, 0, 0, 1, 0,
            0, 1, 0, 0, 0, 0, 1, 0, 1, 0, 0, 0, 0, 1, 0,
            0, 0, 0, 1, 1, 1, 0, 0, 0, 1, 1, 1, 0, 0, 0,
            0, 0, 0, 0, 0, 0, 0, 0, 0, 0, 0, 0, 0, 0, 0,
            0, 0, 0, 1, 1, 1, 0, 0, 0, 1, 1, 1, 0, 0, 0,
            0, 0, 0, 0, 0, 0, 0, 0, 0, 0, 0, 0, 0, 0, 0,
            0, 1, 0, 0, 0, 0, 1, 0, 1, 0, 0, 0, 0, 1, 0,
            0, 1, 0, 0, 0, 0, 1, 0, 1, 0, 0, 0, 0, 1, 0,
            0, 1, 0, 0, 0, 0, 1, 0, 1, 0, 0, 0, 0, 1, 0,
            0, 0, 0, 1, 1, 1, 0, 0, 0, 1, 1, 1, 0, 0, 0,
            0, 0, 0, 0, 0, 0, 0, 0, 0, 0, 0, 0, 0, 0, 0,
        ];
        assert(pulsar@ =~= pulsar_template());
        self.insert_square_template(row, column, 15, pulsar);
    }

    /// The grid as text: one line per row, each opened by a newline, one
    /// glyph per cell, filled for alive and hollow for dead.
    pub fn to_string(&self) -> (r: String)
        requires
            self.wf(),
        ensures
            r@ == render(self@.cells, self@.width as int, self@.cells.len()),
    {
        let mut out = String::new();
        let size = (self.width * self.height) as usize;
        let mut i: usize = 0;
        while i < size
            invariant
                self.wf(),
                size == self@.cells.len(),
                i <= size,
                out@ == render(self@.cells, self@.width as int, i as nat),
            decreases size - i,
        {
            assert(self.width > 0) by (nonlinear_arith)
                requires
                    i < size,
                    size == self.width as int * self.height as int,
            ;
            let cell = get_bit(&self.cells, i);
            let symbol = if cell {
                '\u{25FC}'
            } else {
                '\u{25FB}'
            };
            if i % self.width as usize == 0 {
                push_char(&mut out, '\n');
            }
            push_char(&mut out, symbol);
            i += 1;
        }
        out
    }

    /// Whether a `dimension` by `dimension` template centred on
    /// `(row, column)` can be stamped: every entry that passes the sign
    /// guard lands inside the grid.
    pub fn fits_template(&self, row: u32, column: u32, dimension: i32) -> (r: bool)
        requires
            1 <= dimension <= 46340,
            dimension % 2 == 1,
        ensures
            r == stamp_fits(
                self@.width as int,
                self@.height as int,
                row as int,
                column as int,
                dimension as int,
            ),
    {
        let ghost d = dimension as int;
        let ghost w = self@.width as int;
        let ghost h = self@.height as int;
        let half = dimension / 2;
        assert(0 <= half <= 23170);
        assert(d / 2 == half);
        let mut k: usize = 0;
        let mut i: i32 = -half;
        assert(i + half == 0);
        assert((i + half) * d == 0);
        while i < half + 1
            invariant
                d == dimension,
                h == self@.height,
                w == self@.width,
                d == 2 * half + 1,
                d / 2 == half,
                1 <= d <= 46340,
                -half <= i <= half + 1,
                k == (i + half) * d,
                forall|m: int|
                    0 <= m < k && #[trigger] same_sign(
                        stamp_row(row as int, d, m),
                        stamp_col(column as int, d, m),
                    ) ==> 0 <= stamp_row(row as int, d, m) < h && 0 <= stamp_col(
                        column as int,
                        d,
                        m,
                    ) < w,
            decreases half + 1 - i,
        {
            let mut j: i32 = -half;
            while j < half + 1
                invariant
                    d == dimension,
                    h == self@.height,
                    w == self@.width,
                    d == 2 * half + 1,
                    d / 2 == half,
                    1 <= d <= 46340,
                    -half <= i < half + 1,
                    -half <= j <= half + 1,
                    k == (i + half) * d + (j + half),
                    forall|m: int|
                        0 <= m < k && #[trigger] same_sign(
                            stamp_row(row as int, d, m),
                            stamp_col(column as int, d, m),
                        ) ==> 0 <= stamp_row(row as int, d, m) < h && 0 <= stamp_col(
                            column as int,
                            d,
                            m,
                        ) < w,
                decreases half + 1 - j,
            {
                proof {
                    vstd::arithmetic::div_mod::lemma_fundamental_div_mod_converse(
                        k as int,
                        d,
                        (i + half) as int,
                        (j + half) as int,
                    );
                    assert(k < d * d) by (nonlinear_arith)
                        requires
                            k == (i + half) * d + (j + half),
                            0 <= i + half < d,
                            0 <= j + half < d,
                    ;
                    assert(d * d <= 46340 * 46340) by (nonlinear_arith)
                        requires
                            1 <= d <= 46340,
                    ;
                }
                let row_shift: i64 = row as i64 + i as i64;
                let col_shift: i64 = column as i64 + j as i64;
                assert(row_shift == stamp_row(row as int, d, k as int));
                assert(col_shift == stamp_col(column as int, d, k as int));
                if (row_shift >= 0 && col_shift >= 0) || (row_shift <= 0 && col_shift <= 0) {
                    if !(0 <= row_shift && row_shift < self.height as i64 && 0 <= col_shift
                        && col_shift < self.width as i64) {
                        assert(same_sign(
                            stamp_row(row as int, d, k as int),
                            stamp_col(column as int, d, k as int),
                        ));
                        return false;
                    }
                }
                assert(same_sign(
                    stamp_row(row as int, d, k as int),
                    stamp_col(column as int, d, k as int),
                ) ==> 0 <= stamp_row(row as int, d, k as int) < h && 0 <= stamp_col(
                    column as int,
                    d,
                    k as int,
                ) < w);
                k += 1;
                j += 1;
            }
            proof {
                assert((i + half) * d + d == (i + 1 + half) * d) by (nonlinear_arith);
            }
            i += 1;
        }
        proof {
            assert((half + 1 + half) * d == d * d) by (nonlinear_arith)
                requires
                    d == 2 * half + 1,
            ;
        }
        true
    }
}

} // verus!
