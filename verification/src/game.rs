//! A toroidal Game of Life engine.
//!
//! The grid is a fixed-size torus: every coordinate access wraps modulo the
//! grid's height and width, so there is no edge case. The engine owns two
//! same-sized buffers; a generation advance reads the current buffer, writes
//! the scratch buffer, and swaps their roles.

use vstd::prelude::*;

verus! {

/// The state of one cell. When counted as a neighbor, `Alive` contributes 1
/// and `Dead` contributes 0.
#[derive(Clone, Copy, Debug, PartialEq, Eq, Structural)]
pub enum CellState {
    Dead,
    Alive,
}

/// 1 for a live cell, 0 for a dead one: the weight a cell contributes to a
/// neighbor count.
pub open spec fn alive_weight(s: CellState) -> nat {
    match s {
        CellState::Alive => 1,
        CellState::Dead => 0,
    }
}

/// The cell of the row-major sequence `g` (of row length `w`) at row `r`,
/// column `c`.
pub open spec fn cell_at(g: Seq<CellState>, w: int, r: int, c: int) -> CellState {
    g[r * w + c]
}

/// One step up (or left) on an axis of length `m`, wrapping from 0 to `m - 1`.
pub open spec fn dec_wrap(x: int, m: int) -> int {
    if x == 0 {
        m - 1
    } else {
        x - 1
    }
}

/// One step down (or right) on an axis of length `m`, wrapping from `m - 1`
/// to 0.
pub open spec fn inc_wrap(x: int, m: int) -> int {
    if x == m - 1 {
        0
    } else {
        x + 1
    }
}

/// The eight wrapped neighbor coordinates of `(r, c)` on an `h` by `w` torus,
/// as a sequence: multiplicities count, so on a very small grid the same cell
/// may appear more than once.
pub open spec fn neighbor_coords(h: int, w: int, r: int, c: int) -> Seq<(int, int)> {
    seq![
        (dec_wrap(r, h), dec_wrap(c, w)),
        (dec_wrap(r, h), c),
        (dec_wrap(r, h), inc_wrap(c, w)),
        (r, dec_wrap(c, w)),
        (r, inc_wrap(c, w)),
        (inc_wrap(r, h), dec_wrap(c, w)),
        (inc_wrap(r, h), c),
        (inc_wrap(r, h), inc_wrap(c, w)),
    ]
}

/// The number of live cells among a sequence of coordinates, multiplicities
/// included.
pub open spec fn count_alive_at(g: Seq<CellState>, w: int, coords: Seq<(int, int)>) -> nat
    decreases coords.len(),
{
    if coords.len() == 0 {
        0
    } else {
        alive_weight(cell_at(g, w, coords[0].0, coords[0].1)) + count_alive_at(
            g,
            w,
            coords.drop_first(),
        )
    }
}

/// The number of live cells among the eight wrapped neighbors of `(r, c)`.
pub open spec fn neighbor_count(g: Seq<CellState>, h: int, w: int, r: int, c: int) -> nat {
    count_alive_at(g, w, neighbor_coords(h, w, r, c))
}

/// The standard birth/survival rule: a live cell survives with 2 or 3 live
/// neighbors and otherwise dies; a dead cell is born with exactly 3 and
/// otherwise stays dead.
pub open spec fn next_state(s: CellState, n: nat) -> CellState {
    match s {
        CellState::Alive => if n == 2 || n == 3 {
            CellState::Alive
        } else {
            CellState::Dead
        },
        CellState::Dead => if n == 3 {
            CellState::Alive
        } else {
            CellState::Dead
        },
    }
}

/// One generation of the whole grid: every cell's next state is computed from
/// the same snapshot `g`.
pub open spec fn step(g: Seq<CellState>, h: int, w: int) -> Seq<CellState> {
    Seq::new((h * w) as nat, |i: int| next_state(g[i], neighbor_count(g, h, w, i / w, i % w)))
}

/// The glyph a cell is rendered as: a filled square for `Alive`, a space for
/// `Dead`.
pub open spec fn glyph(s: CellState) -> char {
    match s {
        CellState::Alive => '\u{25fc}',
        CellState::Dead => ' ',
    }
}

/// One rendered row: the glyphs of row `r` left to right, closed by a
/// carriage return and a line feed.
pub open spec fn row_text(g: Seq<CellState>, w: int, r: int) -> Seq<char> {
    Seq::new(w as nat, |c: int| glyph(cell_at(g, w, r, c))) + seq!['\r', '\n']
}

/// The rendered rows `0 .. upto`, concatenated top to bottom.
pub open spec fn rows_text(g: Seq<CellState>, w: int, upto: int) -> Seq<char>
    decreases upto,
{
    if upto <= 0 {
        Seq::empty()
    } else {
        rows_text(g, w, upto - 1) + row_text(g, w, upto - 1)
    }
}

/// The textual snapshot of a whole `h` by `w` grid.
pub open spec fn grid_text(g: Seq<CellState>, h: int, w: int) -> Seq<char> {
    rows_text(g, w, h)
}

/// The toroidal automaton engine: fixed dimensions, a current buffer and a
/// same-sized scratch buffer, both row-major.
pub struct Grid {
    height: usize,
    width: usize,
    cells: Vec<CellState>,
    cache: Vec<CellState>,
}

impl View for Grid {
    type V = Seq<CellState>;

    /// The current buffer, row-major: the grid's observable state.
    closed spec fn view(&self) -> Seq<CellState> {
        self.cells@
    }
}

impl Grid {
    /// Number of rows.
    pub closed spec fn spec_height(&self) -> int {
        self.height as int
    }

    /// Number of columns.
    pub closed spec fn spec_width(&self) -> int {
        self.width as int
    }

    /// The scratch buffer has the same size as the current one.
    pub closed spec fn scratch_sized(&self) -> bool {
        self.cache@.len() == self.height * self.width
    }

    /// The grid's invariant: positive dimensions, both buffers of exactly
    /// `height * width` cells.
    pub open spec fn wf(&self) -> bool {
        &&& 1 <= self.spec_height()
        &&& 1 <= self.spec_width()
        &&& self.spec_height() * self.spec_width() <= usize::MAX
        &&& self@.len() == self.spec_height() * self.spec_width()
        &&& self.scratch_sized()
    }
}

/// Row-major indexing: on an `h` by `w` grid the flat offset of a valid
/// `(r, c)` lies within the buffer, and row and column can be read back from
/// it by division and remainder.
pub proof fn lemma_flat_index(h: int, w: int, r: int, c: int)
    requires
        1 <= h,
        1 <= w,
        0 <= r < h,
        0 <= c < w,
    ensures
        0 <= r * w + c < h * w,
        (r * w + c) / w == r,
        (r * w + c) % w == c,
{
    assert(0 <= r * w + c < h * w) by (nonlinear_arith)
        requires
            1 <= h,
            1 <= w,
            0 <= r < h,
            0 <= c < w,
    ;
    vstd::arithmetic::div_mod::lemma_fundamental_div_mod_converse(r * w + c, w, r, c);
}

/// A buffer of `n` cells, all `Dead`.
fn dead_buffer(n: usize) -> (v: Vec<CellState>)
    ensures
        v@.len() == n,
        forall|i: int| 0 <= i < n ==> v@[i] == CellState::Dead,
{
    let mut v: Vec<CellState> = Vec::new();
    let mut k: usize = 0;
    while k < n
        invariant
            k <= n,
            v@.len() == k,
            forall|i: int| 0 <= i < k ==> v@[i] == CellState::Dead,
        decreases n - k,
    {
        v.push(CellState::Dead);
        k = k + 1;
    }
    v
}

/// 1 for `Alive`, 0 for `Dead`, as an executable value.
fn cell_weight(s: CellState) -> (n: usize)
    ensures
        n == alive_weight(s),
{
    match s {
        CellState::Alive => 1,
        CellState::Dead => 0,
    }
}

impl Grid {
    /// Makes an `height` by `width` grid with every cell `Dead`. Both
    /// dimensions must be positive: a zero axis would make wrapped indexing
    /// meaningless.
    pub fn new(height: usize, width: usize) -> (g: Grid)
        requires
            1 <= height,
            1 <= width,
            height * width <= usize::MAX,
        ensures
            g.wf(),
            g.spec_height() == height,
            g.spec_width() == width,
            forall|i: int| 0 <= i < g@.len() ==> g@[i] == CellState::Dead,
    {
        let n = height * width;
        let cells = dead_buffer(n);
        let cache = dead_buffer(n);
        Grid { height, width, cells, cache }
    }

    /// The flat row-major offset of `(row, col)`: `row * width + col`. The
    /// coordinate must already be in range; this is not where wrapping
    /// happens.
    pub fn cell_index(&self, row: usize, col: usize) -> (i: usize)
        requires
            self.wf(),
            row < self.spec_height(),
            col < self.spec_width(),
        ensures
            i == row * self.spec_width() + col,
            i < self@.len(),
    {
        proof {
            lemma_flat_index(self.spec_height(), self.spec_width(), row as int, col as int);
        }
        row * self.width + col
    }

    /// The cell at `(row, col)` of the current buffer.
    pub fn get(&self, row: usize, col: usize) -> (s: CellState)
        requires
            self.wf(),
            row < self.spec_height(),
            col < self.spec_width(),
        ensures
            s == cell_at(self@, self.spec_width(), row as int, col as int),
    {
        let i = self.cell_index(row, col);
        self.cells[i]
    }

    /// Marks the cell at `(row, col)` `Alive` in the current buffer. The
    /// coordinate must be in range: out-of-range seeding is a caller error,
    /// not wrapped.
    pub fn set_alive(&mut self, row: usize, col: usize)
        requires
            old(self).wf(),
            row < old(self).spec_height(),
            col < old(self).spec_width(),
        ensures
            final(self).wf(),
            final(self).spec_height() == old(self).spec_height(),
            final(self).spec_width() == old(self).spec_width(),
            final(self)@ == old(self)@.update(
                row * old(self).spec_width() + col,
                CellState::Alive,
            ),
    {
        let i = self.cell_index(row, col);
        self.cells.set(i, CellState::Alive);
    }

    /// The number of live cells, in `[0, 8]`, among the eight wrapped
    /// neighbors of `(row, col)`: each row offset wraps modulo the height and
    /// each column offset modulo the width, so a boundary cell has as many
    /// neighbor slots as an interior one.
    #[verifier::rlimit(100)]
    pub fn count_neighbors(&self, row: usize, col: usize) -> (n: usize)
        requires
            self.wf(),
            row < self.spec_height(),
            col < self.spec_width(),
        ensures
            n == neighbor_count(self@, self.spec_height(), self.spec_width(), row as int, col as int),
            n <= 8,
    {
        let up = if row == 0 {
            self.height - 1
        } else {
            row - 1
        };
        let down = if row + 1 == self.height {
            0
        } else {
            row + 1
        };
        let left = if col == 0 {
            self.width - 1
        } else {
            col - 1
        };
        let right = if col + 1 == self.width {
            0
        } else {
            col + 1
        };
        proof {
            assert(up as int == dec_wrap(row as int, self.spec_height()));
            assert(down as int == inc_wrap(row as int, self.spec_height()));
            assert(left as int == dec_wrap(col as int, self.spec_width()));
            assert(right as int == inc_wrap(col as int, self.spec_width()));
        }
        let w0 = cell_weight(self.get(up, left));
        let w1 = cell_weight(self.get(up, col));
        let w2 = cell_weight(self.get(up, right));
        let w3 = cell_weight(self.get(row, left));
        let w4 = cell_weight(self.get(row, right));
        let w5 = cell_weight(self.get(down, left));
        let w6 = cell_weight(self.get(down, col));
        let w7 = cell_weight(self.get(down, right));
        let n = w0 + w1 + w2 + w3 + w4 + w5 + w6 + w7;
        proof {
            let g = self@;
            let h = self.spec_height();
            let w = self.spec_width();
            let r = row as int;
            let c = col as int;
            lemma_neighbor_count_expanded(g, h, w, r, c);
            assert(w0 == alive_weight(cell_at(g, w, dec_wrap(r, h), dec_wrap(c, w))));
            assert(w1 == alive_weight(cell_at(g, w, dec_wrap(r, h), c)));
            assert(w2 == alive_weight(cell_at(g, w, dec_wrap(r, h), inc_wrap(c, w))));
            assert(w3 == alive_weight(cell_at(g, w, r, dec_wrap(c, w))));
            assert(w4 == alive_weight(cell_at(g, w, r, inc_wrap(c, w))));
            assert(w5 == alive_weight(cell_at(g, w, inc_wrap(r, h), dec_wrap(c, w))));
            assert(w6 == alive_weight(cell_at(g, w, inc_wrap(r, h), c)));
            assert(w7 == alive_weight(cell_at(g, w, inc_wrap(r, h), inc_wrap(c, w))));
            assert(n == neighbor_count(g, h, w, r, c));
        }
        n
    }

    /// Advances the grid by exactly one generation: every cell's next state
    /// is computed from the same snapshot of the current buffer, written into
    /// the scratch buffer, and the two buffers then swap roles.
    pub fn iterate(&mut self)
        requires
            old(self).wf(),
        ensures
            final(self).wf(),
            final(self).spec_height() == old(self).spec_height(),
            final(self).spec_width() == old(self).spec_width(),
            final(self)@ == step(old(self)@, old(self).spec_height(), old(self).spec_width()),
    {
        let ghost g0 = self@;
        let ghost h = self.spec_height();
        let ghost w = self.spec_width();
        let mut row: usize = 0;
        while row < self.height
            invariant
                self.wf(),
                self.spec_height() == h,
                self.spec_width() == w,
                self@ == g0,
                row <= h,
                forall|i: int| 0 <= i < row * w ==> self.cache@[i] == step(g0, h, w)[i],
            decreases h - row,
        {
            let mut col: usize = 0;
            while col < self.width
                invariant
                    self.wf(),
                    self.spec_height() == h,
                    self.spec_width() == w,
                    self@ == g0,
                    row < h,
                    col <= w,
                    forall|i: int| 0 <= i < row * w + col ==> self.cache@[i] == step(g0, h, w)[i],
                decreases w - col,
            {
                let idx = self.cell_index(row, col);
                let n = self.count_neighbors(row, col);
                let cur = self.cells[idx];
                let next = match cur {
                    CellState::Alive => if n == 2 || n == 3 {
                        CellState::Alive
                    } else {
                        CellState::Dead
                    },
                    CellState::Dead => if n == 3 {
                        CellState::Alive
                    } else {
                        CellState::Dead
                    },
                };
                self.cache.set(idx, next);
                proof {
                    lemma_step_cell(g0, h, w, row as int, col as int);
                    assert(self.cache@[idx as int] == step(g0, h, w)[idx as int]);
                }
                col = col + 1;
            }
            proof {
                assert(row * w + w == (row + 1) * w) by (nonlinear_arith);
            }
            row = row + 1;
        }
        proof {
            assert(self.cache@ =~= step(g0, h, w)) by {
                assert(step(g0, h, w).len() == h * w);
            }
        }
        core::mem::swap(&mut self.cells, &mut self.cache);
    }

    /// The textual snapshot: one line per row, a glyph per cell, each row
    /// closed by a carriage return and a line feed. A pure projection of the
    /// current buffer; the returned text is a value copy, not a live view.
    pub fn render(&self) -> (out: String)
        requires
            self.wf(),
        ensures
            out@ == grid_text(self@, self.spec_height(), self.spec_width()),
    {
        let ghost g = self@;
        let ghost w = self.spec_width();
        let mut out = String::new();
        let mut row: usize = 0;
        while row < self.height
            invariant
                self.wf(),
                self@ == g,
                self.spec_width() == w,
                row <= self.spec_height(),
                out@ == rows_text(g, w, row as int),
            decreases self.spec_height() - row,
        {
            let mut col: usize = 0;
            while col < self.width
                invariant
                    self.wf(),
                    self@ == g,
                    self.spec_width() == w,
                    row < self.spec_height(),
                    col <= w,
                    out@ == rows_text(g, w, row as int) + Seq::new(
                        col as nat,
                        |c: int| glyph(cell_at(g, w, row as int, c)),
                    ),
                decreases w - col,
            {
                match self.get(row, col) {
                    CellState::Alive => out.append("\u{25fc}"),
                    CellState::Dead => out.append(" "),
                }
                proof {
                    reveal_strlit("\u{25fc}");
                    reveal_strlit(" ");
                    assert(Seq::new(
                        (col + 1) as nat,
                        |c: int| glyph(cell_at(g, w, row as int, c)),
                    ) =~= Seq::new(col as nat, |c: int| glyph(cell_at(g, w, row as int, c)))
                        + seq![glyph(cell_at(g, w, row as int, col as int))]);
                }
                col = col + 1;
            }
            out.append("\r\n");
            proof {
                reveal_strlit("\r\n");
                assert(out@ =~= rows_text(g, w, row as int) + row_text(g, w, row as int));
                assert(out@ =~= rows_text(g, w, row as int + 1));
            }
            row = row + 1;
        }
        out
    }
}

/// One cell of `step`: the next state of `(r, c)` stands at the flat offset
/// `r * w + c` of the stepped sequence.
pub proof fn lemma_step_cell(g: Seq<CellState>, h: int, w: int, r: int, c: int)
    requires
        1 <= h,
        1 <= w,
        0 <= r < h,
        0 <= c < w,
    ensures
        step(g, h, w).len() == h * w,
        step(g, h, w)[r * w + c] == next_state(g[r * w + c], neighbor_count(g, h, w, r, c)),
{
    lemma_flat_index(h, w, r, c);
    assert(h * w >= 1) by (nonlinear_arith)
        requires
            1 <= h,
            1 <= w,
    ;
}

/// `count_alive_at` over any eight coordinates, written out as the sum of the
/// eight weights.
pub proof fn lemma_count_alive_at_eight(g: Seq<CellState>, w: int, coords: Seq<(int, int)>)
    requires
        coords.len() == 8,
    ensures
        count_alive_at(g, w, coords) == alive_weight(cell_at(g, w, coords[0].0, coords[0].1))
            + alive_weight(cell_at(g, w, coords[1].0, coords[1].1)) + alive_weight(
            cell_at(g, w, coords[2].0, coords[2].1),
        ) + alive_weight(cell_at(g, w, coords[3].0, coords[3].1)) + alive_weight(
            cell_at(g, w, coords[4].0, coords[4].1),
        ) + alive_weight(cell_at(g, w, coords[5].0, coords[5].1)) + alive_weight(
            cell_at(g, w, coords[6].0, coords[6].1),
        ) + alive_weight(cell_at(g, w, coords[7].0, coords[7].1)),
{
    let s1 = coords.drop_first();
    let s2 = s1.drop_first();
    let s3 = s2.drop_first();
    let s4 = s3.drop_first();
    let s5 = s4.drop_first();
    let s6 = s5.drop_first();
    let s7 = s6.drop_first();
    let s8 = s7.drop_first();
    assert(s8.len() == 0);
    assert(count_alive_at(g, w, s8) == 0);
    assert(s7[0] == coords[7]);
    assert(s6[0] == coords[6]);
    assert(s5[0] == coords[5]);
    assert(s4[0] == coords[4]);
    assert(s3[0] == coords[3]);
    assert(s2[0] == coords[2]);
    assert(s1[0] == coords[1]);
    assert(count_alive_at(g, w, s7) == alive_weight(cell_at(g, w, coords[7].0, coords[7].1))
        + count_alive_at(g, w, s8));
    assert(count_alive_at(g, w, s6) == alive_weight(cell_at(g, w, coords[6].0, coords[6].1))
        + count_alive_at(g, w, s7));
    assert(count_alive_at(g, w, s5) == alive_weight(cell_at(g, w, coords[5].0, coords[5].1))
        + count_alive_at(g, w, s6));
    assert(count_alive_at(g, w, s4) == alive_weight(cell_at(g, w, coords[4].0, coords[4].1))
        + count_alive_at(g, w, s5));
    assert(count_alive_at(g, w, s3) == alive_weight(cell_at(g, w, coords[3].0, coords[3].1))
        + count_alive_at(g, w, s4));
    assert(count_alive_at(g, w, s2) == alive_weight(cell_at(g, w, coords[2].0, coords[2].1))
        + count_alive_at(g, w, s3));
    assert(count_alive_at(g, w, s1) == alive_weight(cell_at(g, w, coords[1].0, coords[1].1))
        + count_alive_at(g, w, s2));
    assert(count_alive_at(g, w, coords) == alive_weight(cell_at(g, w, coords[0].0, coords[0].1))
        + count_alive_at(g, w, s1));
}

/// The neighbor count of `(r, c)`, written out as the sum of the weights of
/// the eight wrapped neighbor cells.
pub proof fn lemma_neighbor_count_expanded(g: Seq<CellState>, h: int, w: int, r: int, c: int)
    ensures
        neighbor_count(g, h, w, r, c) == alive_weight(
            cell_at(g, w, dec_wrap(r, h), dec_wrap(c, w)),
        ) + alive_weight(cell_at(g, w, dec_wrap(r, h), c)) + alive_weight(
            cell_at(g, w, dec_wrap(r, h), inc_wrap(c, w)),
        ) + alive_weight(cell_at(g, w, r, dec_wrap(c, w))) + alive_weight(
            cell_at(g, w, r, inc_wrap(c, w)),
        ) + alive_weight(cell_at(g, w, inc_wrap(r, h), dec_wrap(c, w))) + alive_weight(
            cell_at(g, w, inc_wrap(r, h), c),
        ) + alive_weight(cell_at(g, w, inc_wrap(r, h), inc_wrap(c, w))),
{
    let coords = neighbor_coords(h, w, r, c);
    lemma_count_alive_at_eight(g, w, coords);
    assert(coords[0] == (dec_wrap(r, h), dec_wrap(c, w)));
    assert(coords[1] == (dec_wrap(r, h), c));
    assert(coords[2] == (dec_wrap(r, h), inc_wrap(c, w)));
    assert(coords[3] == (r, dec_wrap(c, w)));
    assert(coords[4] == (r, inc_wrap(c, w)));
    assert(coords[5] == (inc_wrap(r, h), dec_wrap(c, w)));
    assert(coords[6] == (inc_wrap(r, h), c));
    assert(coords[7] == (inc_wrap(r, h), inc_wrap(c, w)));
}

/// Wrapping one step along an axis of length `m` keeps a valid coordinate
/// valid.
pub proof fn lemma_wrap_in_range(x: int, m: int)
    requires
        1 <= m,
        0 <= x < m,
    ensures
        0 <= dec_wrap(x, m) < m,
        0 <= inc_wrap(x, m) < m,
{
}

/// Reading row and column back from a flat offset: any `k` in `[0, h * w)`
/// is `(k / w) * w + (k % w)` with `k / w` a valid row and `k % w` a valid
/// column.
pub proof fn lemma_unflatten(h: int, w: int, k: int)
    requires
        1 <= h,
        1 <= w,
        0 <= k < h * w,
    ensures
        0 <= k / w < h,
        0 <= k % w < w,
        k == (k / w) * w + (k % w),
{
    vstd::arithmetic::div_mod::lemma_fundamental_div_mod(k, w);
    vstd::arithmetic::div_mod::lemma_mod_bound(k, w);
    vstd::arithmetic::div_mod::lemma_div_pos_is_pos(k, w);
    vstd::arithmetic::mul::lemma_mul_is_commutative(w, k / w);
    assert(k / w < h) by (nonlinear_arith)
        requires
            1 <= w,
            0 <= k < h * w,
            k == w * (k / w) + (k % w),
            0 <= k % w < w,
    ;
}

/// Topology: every cell, at a boundary or in the interior, has exactly eight
/// wrapped neighbor slots, each of them a valid coordinate of the torus.
/// On a very small grid two slots may name the same cell; the count keeps
/// both, so the cardinality is the same for every cell.
pub proof fn lemma_neighbor_topology(h: int, w: int, r: int, c: int)
    requires
        1 <= h,
        1 <= w,
        0 <= r < h,
        0 <= c < w,
    ensures
        neighbor_coords(h, w, r, c).len() == 8,
        forall|k: int|
            0 <= k < 8 ==> 0 <= #[trigger] neighbor_coords(h, w, r, c)[k].0 < h && 0 <= neighbor_coords(
                h,
                w,
                r,
                c,
            )[k].1 < w,
{
    lemma_wrap_in_range(r, h);
    lemma_wrap_in_range(c, w);
    assert forall|k: int| 0 <= k < 8 implies 0 <= #[trigger] neighbor_coords(h, w, r, c)[k].0 < h
        && 0 <= neighbor_coords(h, w, r, c)[k].1 < w by {
        let coords = neighbor_coords(h, w, r, c);
        assert(coords[0] == (dec_wrap(r, h), dec_wrap(c, w)));
        assert(coords[1] == (dec_wrap(r, h), c));
        assert(coords[2] == (dec_wrap(r, h), inc_wrap(c, w)));
        assert(coords[3] == (r, dec_wrap(c, w)));
        assert(coords[4] == (r, inc_wrap(c, w)));
        assert(coords[5] == (inc_wrap(r, h), dec_wrap(c, w)));
        assert(coords[6] == (inc_wrap(r, h), c));
        assert(coords[7] == (inc_wrap(r, h), inc_wrap(c, w)));
    }
}

/// Whether every cell of the sequence is `Dead`.
pub open spec fn all_dead(g: Seq<CellState>) -> bool {
    forall|i: int| 0 <= i < g.len() ==> g[i] == CellState::Dead
}

/// `n` generations from `g`.
pub open spec fn step_n(g: Seq<CellState>, h: int, w: int, n: nat) -> Seq<CellState>
    decreases n,
{
    if n == 0 {
        g
    } else {
        step(step_n(g, h, w, (n - 1) as nat), h, w)
    }
}

/// On a fully dead grid every neighbor count is zero, so one generation
/// leaves every cell dead.
pub proof fn lemma_dead_step(g: Seq<CellState>, h: int, w: int)
    requires
        1 <= h,
        1 <= w,
        g.len() == h * w,
        all_dead(g),
    ensures
        step(g, h, w).len() == h * w,
        all_dead(step(g, h, w)),
{
    assert forall|k: int| 0 <= k < h * w implies step(g, h, w)[k] == CellState::Dead by {
        lemma_unflatten(h, w, k);
        let r = k / w;
        let c = k % w;
        lemma_neighbor_count_expanded(g, h, w, r, c);
        lemma_wrap_in_range(r, h);
        lemma_wrap_in_range(c, w);
        lemma_flat_index(h, w, dec_wrap(r, h), dec_wrap(c, w));
        lemma_flat_index(h, w, dec_wrap(r, h), c);
        lemma_flat_index(h, w, dec_wrap(r, h), inc_wrap(c, w));
        lemma_flat_index(h, w, r, dec_wrap(c, w));
        lemma_flat_index(h, w, r, inc_wrap(c, w));
        lemma_flat_index(h, w, inc_wrap(r, h), dec_wrap(c, w));
        lemma_flat_index(h, w, inc_wrap(r, h), c);
        lemma_flat_index(h, w, inc_wrap(r, h), inc_wrap(c, w));
        assert(neighbor_count(g, h, w, r, c) == 0);
        assert(step(g, h, w)[k] == next_state(g[k], 0));
    }
}

/// Conservation: a fully dead grid stays fully dead after any number of
/// generations.
pub proof fn lemma_dead_grid_stays_dead(g: Seq<CellState>, h: int, w: int, n: nat)
    requires
        1 <= h,
        1 <= w,
        g.len() == h * w,
        all_dead(g),
    ensures
        step_n(g, h, w, n).len() == h * w,
        all_dead(step_n(g, h, w, n)),
    decreases n,
{
    if n > 0 {
        lemma_dead_grid_stays_dead(g, h, w, (n - 1) as nat);
        lemma_dead_step(step_n(g, h, w, (n - 1) as nat), h, w);
    }
}

/// Whether `(i, j)` lies in the 2 by 2 block whose top-left cell is `(r, c)`.
pub open spec fn in_block(i: int, j: int, r: int, c: int) -> bool {
    (i == r || i == r + 1) && (j == c || j == c + 1)
}

/// Whether `g` holds exactly a 2 by 2 block of live cells with top-left
/// corner `(r, c)`, every other cell dead.
pub open spec fn is_block_grid(g: Seq<CellState>, h: int, w: int, r: int, c: int) -> bool {
    forall|i: int, j: int|
        0 <= i < h && 0 <= j < w ==> #[trigger] cell_at(g, w, i, j) == (if in_block(i, j, r, c) {
            CellState::Alive
        } else {
            CellState::Dead
        })
}

/// Still-life invariance: a 2 by 2 block of live cells, placed with a margin
/// of at least one row and column to every grid edge, is unchanged by a
/// generation. Each live cell of the block sees exactly three live neighbors
/// and survives; no dead cell sees three, so none is born.
#[verifier::rlimit(100)]
pub proof fn lemma_block_still_life(g: Seq<CellState>, h: int, w: int, r: int, c: int)
    requires
        1 <= r,
        r + 2 < h,
        1 <= c,
        c + 2 < w,
        g.len() == h * w,
        is_block_grid(g, h, w, r, c),
    ensures
        step(g, h, w) == g,
{
    assert forall|k: int| 0 <= k < h * w implies step(g, h, w)[k] == g[k] by {
        lemma_unflatten(h, w, k);
        let i = k / w;
        let j = k % w;
        lemma_neighbor_count_expanded(g, h, w, i, j);
        lemma_wrap_in_range(i, h);
        lemma_wrap_in_range(j, w);
        lemma_flat_index(h, w, i, j);
        assert(g[k] == cell_at(g, w, i, j));
        let iu = dec_wrap(i, h);
        let id = inc_wrap(i, h);
        let jl = dec_wrap(j, w);
        let jr = inc_wrap(j, w);
        assert(cell_at(g, w, iu, jl) == (if in_block(iu, jl, r, c) {
            CellState::Alive
        } else {
            CellState::Dead
        }));
        assert(cell_at(g, w, iu, j) == (if in_block(iu, j, r, c) {
            CellState::Alive
        } else {
            CellState::Dead
        }));
        assert(cell_at(g, w, iu, jr) == (if in_block(iu, jr, r, c) {
            CellState::Alive
        } else {
            CellState::Dead
        }));
        assert(cell_at(g, w, i, jl) == (if in_block(i, jl, r, c) {
            CellState::Alive
        } else {
            CellState::Dead
        }));
        assert(cell_at(g, w, i, jr) == (if in_block(i, jr, r, c) {
            CellState::Alive
        } else {
            CellState::Dead
        }));
        assert(cell_at(g, w, id, jl) == (if in_block(id, jl, r, c) {
            CellState::Alive
        } else {
            CellState::Dead
        }));
        assert(cell_at(g, w, id, j) == (if in_block(id, j, r, c) {
            CellState::Alive
        } else {
            CellState::Dead
        }));
        assert(cell_at(g, w, id, jr) == (if in_block(id, jr, r, c) {
            CellState::Alive
        } else {
            CellState::Dead
        }));
        if in_block(i, j, r, c) {
            assert(neighbor_count(g, h, w, i, j) == 3);
        } else {
            assert(neighbor_count(g, h, w, i, j) != 3);
        }
        assert(step(g, h, w)[k] == next_state(g[k], neighbor_count(g, h, w, i, j)));
    }
    assert(step(g, h, w) =~= g);
}

} // verus!
