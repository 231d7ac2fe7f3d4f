//! The board engine: a fixed 4x4 grid of tile exponents.
//!
//! The grid is a row-major sequence of 16 cells, `index = x + y * 4`. A cell
//! holds `0` when empty, otherwise a tile exponent `e >= 1` (displayed value
//! `2^e`). The engine computes slide results as pure values, detects whether
//! any move is left, and places random tiles; it holds no timing state.

use vstd::prelude::*;

use crate::rng::RandomSource;
use crate::slide::MAX_EXPONENT;
use crate::slide::SlideMovement;
use crate::slide::lemma_full_distinct_line_unchanged;
use crate::slide::lemma_full_line_with_pair_changes;
use crate::slide::lemma_slid_line_bounds;
use crate::slide::lemma_unchanged_line_zeros_are_suffix;
use crate::slide::line_changed;
use crate::slide::line_merge_dests;
use crate::slide::line_movements;
use crate::slide::line_score;
use crate::slide::pow2;
use crate::slide::slid_line;
use crate::slide::slide_line_with_movements;

verus! {

/// Largest score one slide can gain: at most eight merges, each worth at
/// most `2^(MAX_EXPONENT + 1)`.
pub const MAX_MOVE_SCORE: u64 = 34359738368;

/// Largest score one line can gain in a slide.
pub const MAX_LINE_SCORE: u64 = 8589934592;

/// A slide direction. It determines, per row or column, the traversal order
/// used to compact and merge tiles toward one edge.
#[derive(Clone, Copy, PartialEq, Eq, Structural, Debug)]
pub enum Direction {
    Up,
    Down,
    Left,
    Right,
}

/// Row-major grid index of column `x`, row `y`.
pub open spec fn cell_index(x: int, y: int) -> int {
    x + y * 4
}

/// Grid index of the `j`-th cell of line `i` when sliding toward `d`:
/// the destination edge comes first.
pub open spec fn line_cell(d: Direction, i: int, j: int) -> int {
    match d {
        Direction::Left => cell_index(j, i),
        Direction::Right => cell_index(3 - j, i),
        Direction::Up => cell_index(i, 3 - j),
        Direction::Down => cell_index(i, j),
    }
}

/// Which line grid cell `k` belongs to under direction `d`.
pub open spec fn line_i_of(d: Direction, k: int) -> int {
    match d {
        Direction::Left => k / 4,
        Direction::Right => k / 4,
        Direction::Up => k % 4,
        Direction::Down => k % 4,
    }
}

/// Position of grid cell `k` within its line under direction `d`.
pub open spec fn line_j_of(d: Direction, k: int) -> int {
    match d {
        Direction::Left => k % 4,
        Direction::Right => 3 - k % 4,
        Direction::Up => 3 - k / 4,
        Direction::Down => k / 4,
    }
}

/// The four grid indices of line `i` under direction `d`, traversal order.
pub open spec fn idxs_of(d: Direction, i: int) -> Seq<usize> {
    Seq::new(4, |j: int| line_cell(d, i, j) as usize)
}

/// The four cell values of line `i` under direction `d`, traversal order.
pub open spec fn line_of(g: Seq<u8>, d: Direction, i: int) -> Seq<u8> {
    Seq::new(4, |j: int| g[line_cell(d, i, j)])
}

pub proof fn lemma_line_cell_bijection(d: Direction, k: int)
    requires
        0 <= k < 16,
    ensures
        0 <= line_i_of(d, k) < 4,
        0 <= line_j_of(d, k) < 4,
        line_cell(d, line_i_of(d, k), line_j_of(d, k)) == k,
{
}

pub proof fn lemma_line_cell_inverse(d: Direction, i: int, j: int)
    requires
        0 <= i < 4,
        0 <= j < 4,
    ensures
        0 <= line_cell(d, i, j) < 16,
        line_i_of(d, line_cell(d, i, j)) == i,
        line_j_of(d, line_cell(d, i, j)) == j,
{
}

/// Every cell holds at most `m`.
pub open spec fn grid_bounded(g: Seq<u8>, m: u8) -> bool {
    forall|k: int| 0 <= k < 16 ==> g[k] <= m
}

/// A grid the slide algorithm accepts: 16 cells, each empty or holding an
/// exponent small enough that merging and scoring cannot overflow.
pub open spec fn wf_grid(g: Seq<u8>) -> bool {
    g.len() == 16 && grid_bounded(g, MAX_EXPONENT)
}

/// Some cell is empty.
pub open spec fn has_empty(g: Seq<u8>) -> bool {
    exists|k: int| 0 <= k < 16 && g[k] == 0
}

/// The cell at (x, y) equals its right or its bottom neighbour.
pub open spec fn adjacent_pair_equal(g: Seq<u8>, x: int, y: int) -> bool {
    (x + 1 < 4 && g[cell_index(x + 1, y)] == g[cell_index(x, y)]) || (y + 1 < 4 && g[cell_index(
        x,
        y + 1,
    )] == g[cell_index(x, y)])
}

/// Some horizontally or vertically adjacent pair holds equal values.
pub open spec fn has_adjacent_equal(g: Seq<u8>) -> bool {
    exists|x: int, y: int| 0 <= x < 4 && 0 <= y < 4 && #[trigger] adjacent_pair_equal(g, x, y)
}

/// A move exists: an empty cell, or a mergeable adjacent pair.
pub open spec fn can_move_spec(g: Seq<u8>) -> bool {
    has_empty(g) || has_adjacent_equal(g)
}

/// Number of occupied cells.
pub open spec fn count_tiles(g: Seq<u8>) -> nat
    decreases g.len(),
{
    if g.len() == 0 {
        0
    } else {
        count_tiles(g.drop_last()) + if g.last() != 0 {
            1nat
        } else {
            0nat
        }
    }
}

/// The grid after sliding toward `d`: each line compacted and merged.
pub open spec fn slide_grid(g: Seq<u8>, d: Direction) -> Seq<u8> {
    Seq::new(16, |k: int| slid_line(line_of(g, d, line_i_of(d, k)))[line_j_of(d, k)])
}

/// Whether the slide changes anything: the disjunction over the four lines.
pub open spec fn slide_changed(g: Seq<u8>, d: Direction) -> bool {
    exists|i: int| 0 <= i < 4 && line_changed(line_of(g, d, i))
}

/// Score gained by the first `n` lines of the slide.
pub open spec fn lines_score(g: Seq<u8>, d: Direction, n: int) -> nat
    decreases n,
{
    if n <= 0 {
        0
    } else {
        lines_score(g, d, n - 1) + if line_changed(line_of(g, d, n - 1)) {
            line_score(line_of(g, d, n - 1))
        } else {
            0
        }
    }
}

/// Score gained by the whole slide.
pub open spec fn slide_score(g: Seq<u8>, d: Direction) -> nat {
    lines_score(g, d, 4)
}

/// Movement records of the first `n` lines, in line order.
pub open spec fn lines_movements(g: Seq<u8>, d: Direction, n: int) -> Seq<SlideMovement>
    decreases n,
{
    if n <= 0 {
        Seq::empty()
    } else {
        lines_movements(g, d, n - 1) + line_movements(line_of(g, d, n - 1), idxs_of(d, n - 1))
    }
}

/// Movement records of the whole slide: one per occupied cell, immobile
/// tiles included with `from == to`.
pub open spec fn slide_movements(g: Seq<u8>, d: Direction) -> Seq<SlideMovement> {
    lines_movements(g, d, 4)
}

/// Merge destinations of the first `n` lines; only changed lines contribute.
pub open spec fn lines_merge_dests(g: Seq<u8>, d: Direction, n: int) -> Seq<usize>
    decreases n,
{
    if n <= 0 {
        Seq::empty()
    } else {
        lines_merge_dests(g, d, n - 1) + if line_changed(line_of(g, d, n - 1)) {
            line_merge_dests(line_of(g, d, n - 1), idxs_of(d, n - 1))
        } else {
            Seq::empty()
        }
    }
}

/// Merge destinations of the whole slide.
pub open spec fn slide_merge_dests(g: Seq<u8>, d: Direction) -> Seq<usize> {
    lines_merge_dests(g, d, 4)
}

impl Direction {
    /// Grid indices of row or column `i`, ordered so the destination edge of
    /// the slide comes first.
    pub fn line_indices(&self, i: usize) -> (idxs: Vec<usize>)
        requires
            i < 4,
        ensures
            idxs@ == idxs_of(*self, i as int),
            idxs@.len() == 4,
            forall|j: int| 0 <= j < 4 ==> idxs@[j] < 16,
    {
        let mut idxs: Vec<usize> = Vec::new();
        let mut j: usize = 0;
        while j < 4
            invariant
                i < 4,
                j <= 4,
                idxs@.len() == j,
                forall|jj: int| 0 <= jj < j ==> idxs@[jj] == idxs_of(*self, i as int)[jj],
                forall|jj: int| 0 <= jj < j ==> idxs@[jj] < 16,
            decreases 4 - j,
        {
            let idx = match self {
                Direction::Left => j + i * 4,
                Direction::Right => (3 - j) + i * 4,
                Direction::Up => i + (3 - j) * 4,
                Direction::Down => i + j * 4,
            };
            idxs.push(idx);
            j = j + 1;
        }
        proof {
            assert(idxs@ =~= idxs_of(*self, i as int));
        }
        idxs
    }
}

/// The pure output of evaluating one candidate move against a grid.
/// Computing it never mutates the live grid.
pub struct SlideResult {
    /// Whether any line's contents differ position-wise after the slide.
    pub changed: bool,
    /// One movement record per occupied source cell, including both tiles of
    /// a merged pair (which share a destination) and immobile tiles (whose
    /// `from` equals `to`).
    pub movements: Vec<SlideMovement>,
    /// Grid indices where a merge landed.
    pub merge_destinations: Vec<usize>,
    /// The grid after the slide.
    pub new_board: Board,
    /// Score gained by this move.
    pub score_gained: u64,
}

/// The 4x4 grid of tile exponents.
pub struct Board {
    cells: Vec<u8>,
}

impl View for Board {
    type V = Seq<u8>;

    closed spec fn view(&self) -> Seq<u8> {
        self.cells@
    }
}

impl Board {
    /// A grid the engine accepts: see [`wf_grid`].
    pub open spec fn wf(&self) -> bool {
        wf_grid(self@)
    }

    /// The empty grid.
    pub fn empty() -> (b: Board)
        ensures
            b@.len() == 16,
            forall|k: int| 0 <= k < 16 ==> b@[k] == 0,
    {
        let mut cells: Vec<u8> = Vec::new();
        let mut n: usize = 0;
        while n < 16
            invariant
                n <= 16,
                cells@.len() == n,
                forall|k: int| 0 <= k < n ==> cells@[k] == 0,
            decreases 16 - n,
        {
            cells.push(0);
            n = n + 1;
        }
        Board { cells }
    }

    /// A grid with the given 16 cell values.
    pub fn from_cells(cells: Vec<u8>) -> (b: Board)
        requires
            cells@.len() == 16,
            forall|k: int| 0 <= k < 16 ==> cells@[k] <= MAX_EXPONENT,
        ensures
            b@ == cells@,
            b.wf(),
    {
        Board { cells }
    }

    /// The value of one cell: 0 when empty, else the tile exponent.
    pub fn cell(&self, index: usize) -> (v: u8)
        requires
            index < 16,
            self@.len() == 16,
        ensures
            v == self@[index as int],
    {
        self.cells[index]
    }

    /// Whether some cell holds exactly the exponent `e`.
    pub fn contains_exponent(&self, e: u8) -> (b: bool)
        requires
            self@.len() == 16,
        ensures
            b == exists|k: int| 0 <= k < 16 && self@[k] == e,
    {
        let mut k: usize = 0;
        while k < 16
            invariant
                self@.len() == 16,
                k <= 16,
                forall|kk: int| 0 <= kk < k ==> self@[kk] != e,
            decreases 16 - k,
        {
            if self.cells[k] == e {
                return true;
            }
            k = k + 1;
        }
        false
    }

    /// Whether every exponent is small enough for [`Board::compute_slide`].
    pub fn exponents_within_limit(&self) -> (b: bool)
        requires
            self@.len() == 16,
        ensures
            b == grid_bounded(self@, MAX_EXPONENT),
    {
        let mut k: usize = 0;
        while k < 16
            invariant
                self@.len() == 16,
                k <= 16,
                forall|kk: int| 0 <= kk < k ==> self@[kk] <= MAX_EXPONENT,
            decreases 16 - k,
        {
            if self.cells[k] > MAX_EXPONENT {
                return false;
            }
            k = k + 1;
        }
        true
    }

    /// An empty grid on which a random tile was placed twice. The first
    /// placement leaves an empty cell behind, so both always succeed.
    pub fn with_two_tiles(rng: &mut RandomSource) -> (b: Board)
        ensures
            b@.len() == 16,
            count_tiles(b@) == 2,
            forall|k: int| 0 <= k < 16 ==> b@[k] <= 2,
            b.wf(),
    {
        let mut board = Board::empty();
        proof {
            lemma_count_tiles_all_empty(board@);
            assert(board@[0] == 0);
        }
        let ghost g0 = board@;
        let first = board.place_random_tile(rng);
        let ghost g1 = board@;
        proof {
            let idx = first.unwrap() as int;
            if g1 == g0.update(idx, 1u8) {
                lemma_count_tiles_update(g0, idx, 1u8);
            } else {
                lemma_count_tiles_update(g0, idx, 2u8);
            }
            assert(count_tiles(g1) == 1);
            if !has_empty(g1) {
                lemma_count_tiles_all_occupied(g1);
            }
        }
        let second = board.place_random_tile(rng);
        proof {
            let idx = second.unwrap() as int;
            if board@ == g1.update(idx, 1u8) {
                lemma_count_tiles_update(g1, idx, 1u8);
            } else {
                lemma_count_tiles_update(g1, idx, 2u8);
            }
        }
        board
    }

    /// Place a tile in a uniformly chosen empty cell, exponent 1 with
    /// probability 9/10 and 2 with probability 1/10, by reservoir sampling:
    /// one pass, no list of empty cells. Returns the chosen index, or `None`
    /// (grid untouched) when no cell is empty. The chosen cell is never an
    /// occupied one.
    pub fn place_random_tile(&mut self, rng: &mut RandomSource) -> (r: Option<usize>)
        requires
            old(self)@.len() == 16,
        ensures
            final(self)@.len() == 16,
            r is Some <==> has_empty(old(self)@),
            match r {
                Some(chosen) => chosen < 16 && old(self)@[chosen as int] == 0 && (final(self)@
                    == old(self)@.update(chosen as int, 1u8) || final(self)@ == old(self)@.update(
                    chosen as int,
                    2u8,
                )),
                None => final(self)@ == old(self)@,
            },
    {
        let mut selected: Option<usize> = None;
        let mut empty_count: usize = 0;
        let mut index: usize = 0;
        while index < 16
            invariant
                self@ == old(self)@,
                self@.len() == 16,
                index <= 16,
                empty_count <= index,
                (selected is None) ==> empty_count == 0,
                (selected is Some) <==> exists|k: int| 0 <= k < index && self@[k] == 0,
                match selected {
                    Some(s) => s < index && self@[s as int] == 0,
                    None => true,
                },
            decreases 16 - index,
        {
            if self.cells[index] == 0 {
                empty_count = empty_count + 1;
                if rng.below(empty_count) == 0 {
                    selected = Some(index);
                }
            }
            index = index + 1;
        }

        if let Some(chosen) = selected {
            let value: u8 = if rng.below(10) == 0 {
                2
            } else {
                1
            };
            self.cells[chosen] = value;
        }
        selected
    }

    /// Whether any move is possible: true as soon as an empty cell exists,
    /// otherwise true iff some cell equals its right or bottom neighbour.
    /// This is the sole terminal-state detector.
    pub fn can_move(&self) -> (r: bool)
        requires
            self@.len() == 16,
        ensures
            r == can_move_spec(self@),
    {
        let mut k: usize = 0;
        while k < 16
            invariant
                self@.len() == 16,
                k <= 16,
                forall|kk: int| 0 <= kk < k ==> self@[kk] != 0,
            decreases 16 - k,
        {
            if self.cells[k] == 0 {
                return true;
            }
            k = k + 1;
        }

        let mut x: usize = 0;
        while x < 4
            invariant
                self@.len() == 16,
                x <= 4,
                forall|kk: int| 0 <= kk < 16 ==> self@[kk] != 0,
                forall|xx: int, yy: int|
                    0 <= xx < x && 0 <= yy < 4 ==> !(#[trigger] adjacent_pair_equal(self@, xx, yy)),
            decreases 4 - x,
        {
            let mut y: usize = 0;
            while y < 4
                invariant
                    self@.len() == 16,
                    x < 4,
                    y <= 4,
                    forall|kk: int| 0 <= kk < 16 ==> self@[kk] != 0,
                    forall|xx: int, yy: int|
                        0 <= xx < x && 0 <= yy < 4 ==> !(#[trigger] adjacent_pair_equal(
                            self@,
                            xx,
                            yy,
                        )),
                    forall|yy: int|
                        0 <= yy < y ==> !(#[trigger] adjacent_pair_equal(self@, x as int, yy)),
                decreases 4 - y,
            {
                let i = x + y * 4;
                let current = self.cells[i];
                if x + 1 < 4 && self.cells[i + 1] == current {
                    proof {
                        assert(adjacent_pair_equal(self@, x as int, y as int));
                    }
                    return true;
                }
                if y + 1 < 4 && self.cells[i + 4] == current {
                    proof {
                        assert(adjacent_pair_equal(self@, x as int, y as int));
                    }
                    return true;
                }
                proof {
                    assert(!adjacent_pair_equal(self@, x as int, y as int));
                }
                y = y + 1;
            }
            x = x + 1;
        }
        false
    }

    /// Evaluate sliding toward `direction` without touching the live grid:
    /// each of the four lines is compacted and merged independently, the
    /// per-line outcomes are assembled into the resulting grid, movement
    /// records, merge destinations, whether anything changed, and the score
    /// gained.
    pub fn compute_slide(&self, direction: Direction) -> (r: SlideResult)
        requires
            self.wf(),
        ensures
            r.changed == slide_changed(self@, direction),
            r.new_board@ == slide_grid(self@, direction),
            r.score_gained == slide_score(self@, direction),
            r.movements@ == slide_movements(self@, direction),
            r.merge_destinations@ == slide_merge_dests(self@, direction),
            r.new_board@.len() == 16,
            grid_bounded(r.new_board@, (MAX_EXPONENT + 1) as u8),
            r.score_gained <= MAX_MOVE_SCORE,
    {
        let ghost g = self@;

        let mut new_cells: Vec<u8> = Vec::new();
        let mut n: usize = 0;
        while n < 16
            invariant
                self@.len() == 16,
                n <= 16,
                new_cells@.len() == n,
                forall|k: int| 0 <= k < n ==> new_cells@[k] == self@[k],
            decreases 16 - n,
        {
            new_cells.push(self.cells[n]);
            n = n + 1;
        }

        let mut all_movements: Vec<SlideMovement> = Vec::new();
        let mut all_merge_dests: Vec<usize> = Vec::new();
        let mut total_score: u64 = 0;
        let mut changed = false;
        let mut i: usize = 0;

        while i < 4
            invariant
                self.wf(),
                g == self@,
                i <= 4,
                new_cells@.len() == 16,
                forall|k: int|
                    0 <= k < 16 ==> #[trigger] new_cells@[k] == (if line_i_of(direction, k)
                        < i {
                        slide_grid(g, direction)[k]
                    } else {
                        g[k]
                    }),
                changed == exists|l: int| 0 <= l < i && line_changed(line_of(g, direction, l)),
                total_score == lines_score(g, direction, i as int),
                total_score <= (i as u64) * MAX_LINE_SCORE,
                all_movements@ == lines_movements(g, direction, i as int),
                all_merge_dests@ == lines_merge_dests(g, direction, i as int),
            decreases 4 - i,
        {
            let idxs = direction.line_indices(i);

            let mut line: Vec<u8> = Vec::new();
            let mut j: usize = 0;
            while j < 4
                invariant
                    self.wf(),
                    g == self@,
                    i < 4,
                    j <= 4,
                    idxs@ == idxs_of(direction, i as int),
                    idxs@.len() == 4,
                    forall|jj: int| 0 <= jj < 4 ==> idxs@[jj] < 16,
                    line@.len() == j,
                    forall|jj: int| 0 <= jj < j ==> line@[jj] == g[idxs@[jj] as int],
                decreases 4 - j,
            {
                let idx = idxs[j];
                line.push(self.cells[idx]);
                j = j + 1;
            }
            proof {
                assert forall|jj: int| 0 <= jj < 4 implies line@[jj] == line_of(
                    g,
                    direction,
                    i as int,
                )[jj] by {
                    lemma_line_cell_inverse(direction, i as int, jj);
                }
                assert(line@ =~= line_of(g, direction, i as int));
                assert forall|jj: int| 0 <= jj < 4 implies line@[jj] <= MAX_EXPONENT by {
                    lemma_line_cell_inverse(direction, i as int, jj);
                }
            }

            let (c, new_line, s, mut movements, mut merge_dests) = slide_line_with_movements(
                &line,
                &idxs,
            );

            all_movements.append(&mut movements);
            proof {
                crate::slide::lemma_pow2_31();
                assert(all_movements@ =~= lines_movements(g, direction, i as int + 1));
            }

            if c {
                changed = true;
                total_score = total_score + s;
                all_merge_dests.append(&mut merge_dests);
                proof {
                    assert(all_merge_dests@ =~= lines_merge_dests(g, direction, i as int + 1));
                }

                let mut j: usize = 0;
                while j < 4
                    invariant
                        i < 4,
                        j <= 4,
                        g.len() == 16,
                        idxs@ == idxs_of(direction, i as int),
                        idxs@.len() == 4,
                        forall|jj: int| 0 <= jj < 4 ==> idxs@[jj] < 16,
                        new_line@ == slid_line(line_of(g, direction, i as int)),
                        new_line@.len() == 4,
                        new_cells@.len() == 16,
                        forall|k: int|
                            0 <= k < 16 ==> #[trigger] new_cells@[k] == (if line_i_of(direction, k)
                                < i || (line_i_of(direction, k) == i && line_j_of(direction, k)
                                < j) {
                                slide_grid(g, direction)[k]
                            } else {
                                g[k]
                            }),
                    decreases 4 - j,
                {
                    let idx = idxs[j];
                    let v = new_line[j];
                    new_cells[idx] = v;
                    proof {
                        lemma_line_cell_inverse(direction, i as int, j as int);
                        assert forall|k: int| 0 <= k < 16 implies #[trigger] new_cells@[k] == (
                        if line_i_of(direction, k) < i || (line_i_of(direction, k) == i && line_j_of(
                            direction,
                            k,
                        ) < j + 1) {
                            slide_grid(g, direction)[k]
                        } else {
                            g[k]
                        }) by {
                            lemma_line_cell_bijection(direction, k);
                        }
                    }
                    j = j + 1;
                }
            } else {
                proof {
                    assert(!line_changed(line_of(g, direction, i as int)));
                    assert forall|k: int|
                        0 <= k < 16 && line_i_of(direction, k) == i implies slide_grid(
                        g,
                        direction,
                    )[k] == g[k] by {
                        lemma_line_cell_bijection(direction, k);
                        assert(slid_line(line_of(g, direction, i as int)) == line_of(
                            g,
                            direction,
                            i as int,
                        ));
                        assert(slide_grid(g, direction)[k] == line_of(g, direction, i as int)[
                            line_j_of(direction, k)]);
                    }
                    assert(all_merge_dests@ + Seq::<usize>::empty() =~= all_merge_dests@);
                }
            }
            i = i + 1;
        }

        proof {
            assert forall|k: int| 0 <= k < 16 implies line_i_of(direction, k) < 4 by {
                lemma_line_cell_bijection(direction, k);
            }
            assert(new_cells@ =~= slide_grid(g, direction));
            assert forall|k: int| 0 <= k < 16 implies slide_grid(g, direction)[k] <= MAX_EXPONENT
                + 1 by {
                lemma_line_cell_bijection(direction, k);
                let li = line_i_of(direction, k);
                assert forall|jj: int| 0 <= jj < 4 implies line_of(g, direction, li)[jj]
                    <= MAX_EXPONENT by {
                    lemma_line_cell_inverse(direction, li, jj);
                }
                lemma_slid_line_bounds(line_of(g, direction, li), MAX_EXPONENT);
            }
        }

        SlideResult {
            changed,
            movements: all_movements,
            merge_destinations: all_merge_dests,
            new_board: Board { cells: new_cells },
            score_gained: total_score,
        }
    }
}

/// An all-empty grid holds no tiles.
pub proof fn lemma_count_tiles_all_empty(g: Seq<u8>)
    requires
        forall|k: int| 0 <= k < g.len() ==> g[k] == 0,
    ensures
        count_tiles(g) == 0,
    decreases g.len(),
{
    if g.len() > 0 {
        lemma_count_tiles_all_empty(g.drop_last());
    }
}

/// A grid with no empty cell holds as many tiles as cells.
pub proof fn lemma_count_tiles_all_occupied(g: Seq<u8>)
    requires
        forall|k: int| 0 <= k < g.len() ==> g[k] != 0,
    ensures
        count_tiles(g) == g.len(),
    decreases g.len(),
{
    if g.len() > 0 {
        lemma_count_tiles_all_occupied(g.drop_last());
    }
}

/// Filling one empty cell adds exactly one tile.
pub proof fn lemma_count_tiles_update(g: Seq<u8>, i: int, v: u8)
    requires
        0 <= i < g.len(),
        g[i] == 0,
        v != 0,
    ensures
        count_tiles(g.update(i, v)) == count_tiles(g) + 1,
    decreases g.len(),
{
    let u = g.update(i, v);
    if i == g.len() - 1 {
        assert(u.drop_last() =~= g.drop_last());
    } else {
        assert(u.drop_last() =~= g.drop_last().update(i, v));
        lemma_count_tiles_update(g.drop_last(), i, v);
    }
}

/// A slide that reports no change leaves the grid exactly as it was, so
/// repeating the same move yields the same unchanged result; and the score
/// gained by any slide is never negative.
pub proof fn lemma_unchanged_slide_is_stable(g: Seq<u8>, d: Direction)
    requires
        g.len() == 16,
    ensures
        !slide_changed(g, d) ==> slide_grid(g, d) == g,
        !slide_changed(g, d) ==> slide_grid(slide_grid(g, d), d) == slide_grid(g, d)
            && !slide_changed(slide_grid(g, d), d) && slide_score(slide_grid(g, d), d)
            == slide_score(g, d),
        slide_score(g, d) >= 0,
{
    if !slide_changed(g, d) {
        assert forall|k: int| 0 <= k < 16 implies slide_grid(g, d)[k] == g[k] by {
            lemma_line_cell_bijection(d, k);
            let li = line_i_of(d, k);
            assert(!line_changed(line_of(g, d, li)));
            assert(slid_line(line_of(g, d, li)) == line_of(g, d, li));
        }
        assert(slide_grid(g, d) =~= g);
    }
}

/// A move is available whenever an empty cell exists; on a full grid, a move
/// is available iff some cell equals its right or bottom neighbour.
pub proof fn lemma_can_move_characterisation(g: Seq<u8>)
    ensures
        has_empty(g) ==> can_move_spec(g),
        !has_empty(g) ==> (can_move_spec(g) <==> has_adjacent_equal(g)),
{
}

/// Declaring the game over is sound: once no move is available, no slide in
/// any direction changes the board (every line is fully occupied with all
/// neighbours distinct), and the grid the slide produces is the grid itself.
pub proof fn lemma_no_move_left_slides_nothing(g: Seq<u8>, d: Direction)
    requires
        g.len() == 16,
        !can_move_spec(g),
    ensures
        !slide_changed(g, d),
        slide_grid(g, d) == g,
{
    assert forall|i: int| 0 <= i < 4 implies !line_changed(line_of(g, d, i)) by {
        let line = line_of(g, d, i);
        assert forall|k: int| 0 <= k < 4 implies line[k] != 0 by {
            lemma_line_cell_inverse(d, i, k);
            if line[k] == 0 {
                assert(g[line_cell(d, i, k)] == 0);
                assert(has_empty(g));
            }
        }
        assert forall|j: int| 0 <= j < 3 implies #[trigger] line[j] != line[j + 1] by {
            lemma_line_cell_inverse(d, i, j);
            lemma_line_cell_inverse(d, i, j + 1);
            if line[j] == line[j + 1] {
                match d {
                    Direction::Left => {
                        assert(adjacent_pair_equal(g, j, i));
                    },
                    Direction::Right => {
                        assert(adjacent_pair_equal(g, 2 - j, i));
                    },
                    Direction::Up => {
                        assert(adjacent_pair_equal(g, i, 2 - j));
                    },
                    Direction::Down => {
                        assert(adjacent_pair_equal(g, i, j));
                    },
                }
                assert(has_adjacent_equal(g));
            }
        }
        lemma_full_distinct_line_unchanged(line);
    }
    lemma_unchanged_slide_is_stable(g, d);
}

/// On a fully occupied grid with a mergeable pair, the slide aligned with
/// that pair changes the board.
pub proof fn lemma_full_grid_pair_allows_merge(g: Seq<u8>)
    requires
        g.len() == 16,
        !has_empty(g),
        has_adjacent_equal(g),
    ensures
        exists|d: Direction| slide_changed(g, d),
{
    let (x, y) = choose|x: int, y: int|
        0 <= x < 4 && 0 <= y < 4 && #[trigger] adjacent_pair_equal(g, x, y);
    if x + 1 < 4 && g[cell_index(x + 1, y)] == g[cell_index(x, y)] {
        let line = line_of(g, Direction::Left, y);
        assert forall|k: int| 0 <= k < 4 implies line[k] != 0 by {
            lemma_line_cell_inverse(Direction::Left, y, k);
            if line[k] == 0 {
                assert(g[line_cell(Direction::Left, y, k)] == 0);
                assert(has_empty(g));
            }
        }
        assert(line[x] == g[cell_index(x, y)]);
        assert(line[x + 1] == g[cell_index(x + 1, y)]);
        lemma_full_line_with_pair_changes(line);
        assert(slide_changed(g, Direction::Left));
    } else {
        let line = line_of(g, Direction::Down, x);
        assert forall|k: int| 0 <= k < 4 implies line[k] != 0 by {
            lemma_line_cell_inverse(Direction::Down, x, k);
            if line[k] == 0 {
                assert(g[line_cell(Direction::Down, x, k)] == 0);
                assert(has_empty(g));
            }
        }
        assert(line[y] == g[cell_index(x, y)]);
        assert(line[y + 1] == g[cell_index(x, y + 1)]);
        lemma_full_line_with_pair_changes(line);
        assert(slide_changed(g, Direction::Down));
    }
}

/// On a grid that holds both a tile and an empty cell, some slide changes
/// the board. Were every direction a no-op, every row and every column would
/// have to be entirely occupied or entirely empty (tiles pack against both
/// opposite edges), which cannot hold a tile and a hole at once.
pub proof fn lemma_empty_with_tile_allows_move(g: Seq<u8>)
    requires
        g.len() == 16,
        grid_bounded(g, 254),
        has_empty(g),
        exists|k: int| 0 <= k < 16 && g[k] != 0,
    ensures
        exists|d: Direction| slide_changed(g, d),
{
    if slide_changed(g, Direction::Left) || slide_changed(g, Direction::Right) || slide_changed(
        g,
        Direction::Up,
    ) || slide_changed(g, Direction::Down) {
    } else {
        let kt = choose|k: int| 0 <= k < 16 && g[k] != 0;
        let ke = choose|k: int| 0 <= k < 16 && g[k] == 0;
        let xt = kt % 4;
        let yt = kt / 4;
        let xe = ke % 4;
        let ye = ke / 4;
        assert(cell_index(xt, yt) == kt);
        assert(cell_index(xe, ye) == ke);

        // the tile's row is fully occupied
        assert forall|x: int| 0 <= x < 4 implies g[cell_index(x, yt)] != 0 by {
            if g[cell_index(x, yt)] == 0 {
                assert(x != xt);
                let ll = line_of(g, Direction::Left, yt);
                let lr = line_of(g, Direction::Right, yt);
                assert(!line_changed(ll));
                assert(!line_changed(lr));
                assert forall|k: int| 0 <= k < 4 implies ll[k] <= 254 && lr[k] <= 254 by {
                    lemma_line_cell_inverse(Direction::Left, yt, k);
                    lemma_line_cell_inverse(Direction::Right, yt, k);
                }
                if x < xt {
                    assert(ll[x] == g[cell_index(x, yt)]);
                    assert(ll[xt] == g[cell_index(xt, yt)]);
                    lemma_unchanged_line_zeros_are_suffix(ll, x, xt);
                } else {
                    assert(lr[3 - x] == g[cell_index(x, yt)]);
                    assert(lr[3 - xt] == g[cell_index(xt, yt)]);
                    lemma_unchanged_line_zeros_are_suffix(lr, 3 - x, 3 - xt);
                }
            }
        }

        // so the empty cell's column holds a tile, yet also the empty cell
        assert(g[cell_index(xe, yt)] != 0);
        assert(ye != yt);
        let ld = line_of(g, Direction::Down, xe);
        let lu = line_of(g, Direction::Up, xe);
        assert(!line_changed(ld));
        assert(!line_changed(lu));
        assert forall|k: int| 0 <= k < 4 implies ld[k] <= 254 && lu[k] <= 254 by {
            lemma_line_cell_inverse(Direction::Down, xe, k);
            lemma_line_cell_inverse(Direction::Up, xe, k);
        }
        if ye < yt {
            assert(ld[ye] == g[cell_index(xe, ye)]);
            assert(ld[yt] == g[cell_index(xe, yt)]);
            lemma_unchanged_line_zeros_are_suffix(ld, ye, yt);
        } else {
            assert(lu[3 - ye] == g[cell_index(xe, ye)]);
            assert(lu[3 - yt] == g[cell_index(xe, yt)]);
            lemma_unchanged_line_zeros_are_suffix(lu, 3 - ye, 3 - yt);
        }
        assert(false);
    }
}

/// The terminal detector is exact: on any grid holding at least one tile,
/// a move is available iff some slide in some direction changes the board.
/// (A grid with no tiles is excluded: there is room, so `can_move` holds,
/// yet no slide has anything to move.)
pub proof fn lemma_can_move_equiv_some_slide_changes(g: Seq<u8>)
    requires
        g.len() == 16,
        grid_bounded(g, 254),
        exists|k: int| 0 <= k < 16 && g[k] != 0,
    ensures
        can_move_spec(g) <==> exists|d: Direction| slide_changed(g, d),
{
    if can_move_spec(g) {
        if has_empty(g) {
            lemma_empty_with_tile_allows_move(g);
        } else {
            lemma_full_grid_pair_allows_merge(g);
        }
    }
    if exists|d: Direction| slide_changed(g, d) {
        let d = choose|d: Direction| slide_changed(g, d);
        if !can_move_spec(g) {
            lemma_no_move_left_slides_nothing(g, d);
        }
    }
}

} // verus!
