//! Sliding and merging of a single grid line.
//!
//! A line is the four cells of one row or column, ordered so that the
//! destination edge of the slide comes first. A cell holds `0` when empty,
//! otherwise a tile exponent `e >= 1` whose displayed value is `2^e`.
//! Sliding compacts the occupied cells toward the front and merges each
//! adjacent equal pair exactly once, left to right; a merged tile never
//! merges again within the same move.

use vstd::prelude::*;

verus! {

/// Largest tile exponent a grid may hold before a slide.
///
/// A merge raises an exponent by one and scores `2^(e + 1)`, so this bound
/// keeps every exponent and every per-move score well inside `u8` and `u64`.
/// Ordinary play tops out at exponent 17, far below it.
pub const MAX_EXPONENT: u8 = 30;

/// Where one source tile ends up after a slide: a (from, to) pair of grid
/// indices, used only for presentation interpolation. Both tiles of a merged
/// pair record the same destination.
#[derive(Clone, Copy, PartialEq, Eq, Structural, Debug)]
pub struct SlideMovement {
    pub from: usize,
    pub to: usize,
}

/// `2^e`.
pub open spec fn pow2(e: nat) -> nat
    decreases e,
{
    if e == 0 {
        1
    } else {
        2 * pow2((e - 1) as nat)
    }
}

pub proof fn lemma_pow2_increases(a: nat, b: nat)
    requires
        a <= b,
    ensures
        pow2(a) <= pow2(b),
    decreases b,
{
    if a < b {
        lemma_pow2_increases(a, (b - 1) as nat);
    }
}

/// `2^31`, stated once so exec code can bound tile values and scores.
pub proof fn lemma_pow2_31()
    ensures
        pow2(31) == 0x80000000,
{
    reveal_with_fuel(pow2, 32);
}

/// Displayed value of a tile exponent: `2^exp`.
pub fn exp_to_value(exp: u8) -> (v: u64)
    requires
        exp <= MAX_EXPONENT + 1,
    ensures
        v == pow2(exp as nat),
{
    let mut v: u64 = 1;
    let mut k: u8 = 0;
    while k < exp
        invariant
            k <= exp,
            exp <= MAX_EXPONENT + 1,
            v == pow2(k as nat),
        decreases exp - k,
    {
        proof {
            lemma_pow2_increases(k as nat, MAX_EXPONENT as nat);
            lemma_pow2_31();
        }
        v = v * 2;
        k = k + 1;
    }
    v
}

/// The occupied cells of `line` from position `j` on, in order, each as
/// (exponent, position within the line).
pub open spec fn tiles_from(line: Seq<u8>, j: int) -> Seq<(u8, usize)>
    decreases line.len() - j,
{
    if j < 0 || j >= line.len() {
        Seq::empty()
    } else if line[j] == 0 {
        tiles_from(line, j + 1)
    } else {
        seq![(line[j], j as usize)] + tiles_from(line, j + 1)
    }
}

/// The occupied cells of `line`, in order, each as (exponent, position).
pub open spec fn line_tiles(line: Seq<u8>) -> Seq<(u8, usize)> {
    tiles_from(line, 0)
}

/// The exponents left after one compact-and-merge pass over the occupied
/// tiles: an adjacent equal pair becomes one tile of exponent + 1 and the
/// scan then moves past both, so a merged tile never merges again.
pub open spec fn packed_values(tiles: Seq<(u8, usize)>) -> Seq<u8>
    decreases tiles.len(),
{
    if tiles.len() == 0 {
        Seq::empty()
    } else if tiles.len() >= 2 && tiles[0].0 == tiles[1].0 {
        seq![(tiles[0].0 + 1) as u8] + packed_values(tiles.skip(2))
    } else {
        seq![tiles[0].0] + packed_values(tiles.skip(1))
    }
}

/// Score of the pass: each merge of two exponent-`e` tiles contributes
/// `2^(e + 1)`.
pub open spec fn pack_score(tiles: Seq<(u8, usize)>) -> nat
    decreases tiles.len(),
{
    if tiles.len() == 0 {
        0
    } else if tiles.len() >= 2 && tiles[0].0 == tiles[1].0 {
        pow2((tiles[0].0 + 1) as nat) + pack_score(tiles.skip(2))
    } else {
        pack_score(tiles.skip(1))
    }
}

/// One movement record per source tile, in scan order. `idxs` maps line
/// positions to grid indices; `w` is the next destination slot. Both tiles
/// of a merged pair map to the same destination.
pub open spec fn pack_moves(tiles: Seq<(u8, usize)>, idxs: Seq<usize>, w: int) -> Seq<SlideMovement>
    decreases tiles.len(),
{
    if tiles.len() == 0 {
        Seq::empty()
    } else if tiles.len() >= 2 && tiles[0].0 == tiles[1].0 {
        seq![
            SlideMovement { from: idxs[tiles[0].1 as int], to: idxs[w] },
            SlideMovement { from: idxs[tiles[1].1 as int], to: idxs[w] },
        ] + pack_moves(tiles.skip(2), idxs, w + 1)
    } else {
        seq![SlideMovement { from: idxs[tiles[0].1 as int], to: idxs[w] }] + pack_moves(
            tiles.skip(1),
            idxs,
            w + 1,
        )
    }
}

/// The grid indices where a merge lands, in scan order.
pub open spec fn pack_merges(tiles: Seq<(u8, usize)>, idxs: Seq<usize>, w: int) -> Seq<usize>
    decreases tiles.len(),
{
    if tiles.len() == 0 {
        Seq::empty()
    } else if tiles.len() >= 2 && tiles[0].0 == tiles[1].0 {
        seq![idxs[w]] + pack_merges(tiles.skip(2), idxs, w + 1)
    } else {
        pack_merges(tiles.skip(1), idxs, w + 1)
    }
}

/// The whole line after the slide: merged values at the front, empty cells
/// behind them.
pub open spec fn slid_line(line: Seq<u8>) -> Seq<u8> {
    let vals = packed_values(line_tiles(line));
    Seq::new(line.len(), |k: int| if k < vals.len() { vals[k] } else { 0 })
}

/// A line changed iff its contents differ position-wise after the slide;
/// a tile moving into an empty cell counts even without a merge.
pub open spec fn line_changed(line: Seq<u8>) -> bool {
    slid_line(line) != line
}

/// Score gained by sliding this line.
pub open spec fn line_score(line: Seq<u8>) -> nat {
    pack_score(line_tiles(line))
}

/// Movement records for every occupied cell of the line, immobile ones
/// included (those have `from == to`).
pub open spec fn line_movements(line: Seq<u8>, idxs: Seq<usize>) -> Seq<SlideMovement> {
    pack_moves(line_tiles(line), idxs, 0)
}

/// Grid indices of the merge destinations of this line.
pub open spec fn line_merge_dests(line: Seq<u8>, idxs: Seq<usize>) -> Seq<usize> {
    pack_merges(line_tiles(line), idxs, 0)
}

/// Merging never lengthens the pass and leaves at least one tile of any
/// non-empty input.
pub proof fn lemma_packed_values_len(tiles: Seq<(u8, usize)>)
    ensures
        packed_values(tiles).len() <= tiles.len(),
        tiles.len() > 0 ==> packed_values(tiles).len() >= 1,
    decreases tiles.len(),
{
    if tiles.len() >= 2 && tiles[0].0 == tiles[1].0 {
        lemma_packed_values_len(tiles.skip(2));
    } else if tiles.len() > 0 {
        lemma_packed_values_len(tiles.skip(1));
    }
}

/// Every merge contributes at most `2^(m + 1)` and consumes two tiles.
pub proof fn lemma_pack_score_bound(tiles: Seq<(u8, usize)>, m: u8)
    requires
        forall|k: int| 0 <= k < tiles.len() ==> (#[trigger] tiles[k]).0 <= m,
    ensures
        pack_score(tiles) <= tiles.len() * pow2((m + 1) as nat),
    decreases tiles.len(),
{
    let p = pow2((m + 1) as nat);
    let l = tiles.len() as int;
    if tiles.len() >= 2 && tiles[0].0 == tiles[1].0 {
        lemma_pack_score_bound(tiles.skip(2), m);
        lemma_pow2_increases((tiles[0].0 + 1) as nat, (m + 1) as nat);
        assert((l - 2) * p + p <= l * p) by (nonlinear_arith)
            requires
                l >= 2,
                p >= 0,
        ;
    } else if tiles.len() > 0 {
        lemma_pack_score_bound(tiles.skip(1), m);
        assert((l - 1) * p <= l * p) by (nonlinear_arith)
            requires
                l >= 1,
                p >= 0,
        ;
    }
}

/// The occupied cells of a bounded line carry exponents in `1 ..= m`.
pub proof fn lemma_tiles_from_bounds(line: Seq<u8>, j: int, m: u8)
    requires
        forall|k: int| 0 <= k < line.len() ==> line[k] <= m,
    ensures
        forall|k: int|
            0 <= k < tiles_from(line, j).len() ==> 1 <= (#[trigger] tiles_from(line, j)[k]).0 <= m,
    decreases line.len() - j,
{
    if 0 <= j < line.len() {
        lemma_tiles_from_bounds(line, j + 1, m);
        let t = tiles_from(line, j);
        let rest = tiles_from(line, j + 1);
        if line[j] == 0 {
            assert(t == rest);
        } else {
            assert(t == seq![(line[j], j as usize)] + rest);
            assert forall|k: int| 0 <= k < t.len() implies 1 <= (#[trigger] t[k]).0 <= m by {
                if k == 0 {
                    assert(t[k].0 == line[j]);
                } else {
                    assert(t[k] == rest[k - 1]);
                }
            }
        }
    }
}

/// One pass of merging raises an exponent by at most one.
pub proof fn lemma_packed_values_bounds(tiles: Seq<(u8, usize)>, m: u8)
    requires
        m < 255,
        forall|k: int| 0 <= k < tiles.len() ==> 1 <= (#[trigger] tiles[k]).0 <= m,
    ensures
        forall|k: int|
            0 <= k < packed_values(tiles).len() ==> 1 <= (#[trigger] packed_values(tiles)[k]) <= m
                + 1,
    decreases tiles.len(),
{
    let p = packed_values(tiles);
    if tiles.len() >= 2 && tiles[0].0 == tiles[1].0 {
        lemma_packed_values_bounds(tiles.skip(2), m);
        let rest = packed_values(tiles.skip(2));
        assert forall|k: int| 0 <= k < p.len() implies 1 <= (#[trigger] p[k]) <= m + 1 by {
            if k == 0 {
                assert(p[k] == (tiles[0].0 + 1) as u8);
            } else {
                assert(p[k] == rest[k - 1]);
            }
        }
    } else if tiles.len() > 0 {
        lemma_packed_values_bounds(tiles.skip(1), m);
        let rest = packed_values(tiles.skip(1));
        assert forall|k: int| 0 <= k < p.len() implies 1 <= (#[trigger] p[k]) <= m + 1 by {
            if k == 0 {
                assert(p[k] == tiles[0].0);
            } else {
                assert(p[k] == rest[k - 1]);
            }
        }
    }
}

/// After a slide, every cell of a line holds 0 or an exponent at most one
/// above the line's previous maximum.
pub proof fn lemma_slid_line_bounds(line: Seq<u8>, m: u8)
    requires
        m < 255,
        forall|k: int| 0 <= k < line.len() ==> line[k] <= m,
    ensures
        forall|k: int| 0 <= k < slid_line(line).len() ==> (#[trigger] slid_line(line)[k]) <= m + 1,
{
    lemma_tiles_from_bounds(line, 0, m);
    lemma_packed_values_bounds(line_tiles(line), m);
}

/// The occupied cells of a fully occupied line are the four cells in order.
pub proof fn lemma_line_tiles_full(line: Seq<u8>)
    requires
        line.len() == 4,
        forall|k: int| 0 <= k < 4 ==> line[k] != 0,
    ensures
        line_tiles(line) == seq![
            (line[0], 0usize),
            (line[1], 1usize),
            (line[2], 2usize),
            (line[3], 3usize),
        ],
{
    assert(tiles_from(line, 0) =~= seq![
        (line[0], 0usize),
        (line[1], 1usize),
        (line[2], 2usize),
        (line[3], 3usize),
    ]) by {
        reveal_with_fuel(tiles_from, 6);
    }
}

/// A fully occupied line whose neighbours all differ does not change.
pub proof fn lemma_full_distinct_line_unchanged(line: Seq<u8>)
    requires
        line.len() == 4,
        forall|k: int| 0 <= k < 4 ==> line[k] != 0,
        line[0] != line[1],
        line[1] != line[2],
        line[2] != line[3],
    ensures
        !line_changed(line),
{
    lemma_line_tiles_full(line);
    let t = line_tiles(line);
    assert(t.skip(1) =~= seq![(line[1], 1usize), (line[2], 2usize), (line[3], 3usize)]);
    assert(t.skip(1).skip(1) =~= seq![(line[2], 2usize), (line[3], 3usize)]);
    assert(t.skip(1).skip(1).skip(1) =~= seq![(line[3], 3usize)]);
    assert(t.skip(1).skip(1).skip(1).skip(1) =~= Seq::<(u8, usize)>::empty());
    assert(packed_values(t) =~= seq![line[0], line[1], line[2], line[3]]) by {
        reveal_with_fuel(packed_values, 6);
    }
    assert(slid_line(line) =~= line);
}

/// A fully occupied line with some equal neighbours does change: the scan
/// reaches the first equal pair and merges it, leaving the last cell empty.
pub proof fn lemma_full_line_with_pair_changes(line: Seq<u8>)
    requires
        line.len() == 4,
        forall|k: int| 0 <= k < 4 ==> line[k] != 0,
        line[0] == line[1] || line[1] == line[2] || line[2] == line[3],
    ensures
        line_changed(line),
{
    lemma_line_tiles_full(line);
    let t = line_tiles(line);
    assert(t.skip(1) =~= seq![(line[1], 1usize), (line[2], 2usize), (line[3], 3usize)]);
    assert(t.skip(2) =~= seq![(line[2], 2usize), (line[3], 3usize)]);
    assert(t.skip(1).skip(1) =~= t.skip(2));
    assert(t.skip(1).skip(2) =~= seq![(line[3], 3usize)]);
    assert(t.skip(2).skip(2) =~= Seq::<(u8, usize)>::empty());
    assert(t.skip(2).skip(1) =~= seq![(line[3], 3usize)]);
    assert(t.skip(1).skip(1).skip(2) =~= Seq::<(u8, usize)>::empty());
    assert(t.skip(1).skip(1).skip(1) =~= seq![(line[3], 3usize)]);
    assert(t.skip(1).skip(1).skip(1).skip(1) =~= Seq::<(u8, usize)>::empty());
    // each case merges one pair, so at most three values remain
    assert(packed_values(t).len() <= 3) by {
        reveal_with_fuel(packed_values, 6);
    }
    assert(slid_line(line)[3] == 0);
    assert(line[3] != 0);
}

/// In an unchanged line, empty cells only follow occupied ones: once a cell
/// is empty, every later cell is empty too.
pub proof fn lemma_unchanged_line_zeros_are_suffix(line: Seq<u8>, j1: int, j2: int)
    requires
        line.len() == 4,
        forall|k: int| 0 <= k < 4 ==> line[k] <= 254,
        !line_changed(line),
        0 <= j1 < j2 < 4,
        line[j1] == 0,
    ensures
        line[j2] == 0,
{
    lemma_tiles_from_bounds(line, 0, 254);
    lemma_packed_values_bounds(line_tiles(line), 254);
    let vals = packed_values(line_tiles(line));
    assert(slid_line(line) == line);
    assert(slid_line(line)[j1] == 0);
    assert(j1 >= vals.len());
    assert(slid_line(line)[j2] == 0);
}

/// A line of four equal tiles merges into exactly two tiles of the next
/// exponent, never one tile two steps up: a merged tile cannot merge again
/// within the same move. Each of the two merges scores `2^(e + 1)`.
pub proof fn lemma_no_chain_merge(e: u8)
    requires
        1 <= e <= MAX_EXPONENT,
    ensures
        slid_line(seq![e, e, e, e]) == seq![(e + 1) as u8, (e + 1) as u8, 0, 0],
        line_score(seq![e, e, e, e]) == 2 * pow2((e + 1) as nat),
        line_changed(seq![e, e, e, e]),
{
    let line = seq![e, e, e, e];
    assert(tiles_from(line, 0) =~= seq![(e, 0usize), (e, 1usize), (e, 2usize), (e, 3usize)]) by {
        reveal_with_fuel(tiles_from, 6);
    }
    let t = line_tiles(line);
    assert(t.skip(2) =~= seq![(e, 2usize), (e, 3usize)]);
    assert(t.skip(2).skip(2) =~= Seq::<(u8, usize)>::empty());
    assert(packed_values(t) =~= seq![(e + 1) as u8, (e + 1) as u8]) by {
        reveal_with_fuel(packed_values, 4);
    }
    assert(pack_score(t) == 2 * pow2((e + 1) as nat)) by {
        reveal_with_fuel(pack_score, 4);
    }
    assert(slid_line(line) =~= seq![(e + 1) as u8, (e + 1) as u8, 0, 0]);
    assert(slid_line(line)[2] != line[2]);
}

/// Of three equal tiles, only the first pair merges.
pub proof fn lemma_three_equal_tiles(e: u8)
    requires
        1 <= e <= MAX_EXPONENT,
    ensures
        slid_line(seq![e, e, e, 0]) == seq![(e + 1) as u8, e, 0, 0],
        line_score(seq![e, e, e, 0]) == pow2((e + 1) as nat),
        line_changed(seq![e, e, e, 0]),
{
    let line = seq![e, e, e, 0];
    assert(tiles_from(line, 0) =~= seq![(e, 0usize), (e, 1usize), (e, 2usize)]) by {
        reveal_with_fuel(tiles_from, 6);
    }
    let t = line_tiles(line);
    assert(t.skip(2) =~= seq![(e, 2usize)]);
    assert(t.skip(2).skip(1) =~= Seq::<(u8, usize)>::empty());
    assert(packed_values(t) =~= seq![(e + 1) as u8, e]) by {
        reveal_with_fuel(packed_values, 4);
    }
    assert(pack_score(t) == pow2((e + 1) as nat)) by {
        reveal_with_fuel(pack_score, 4);
    }
    assert(slid_line(line) =~= seq![(e + 1) as u8, e, 0, 0]);
    assert(slid_line(line)[0] != line[0]);
}

/// Two equal tiles merge across an empty gap.
pub proof fn lemma_gap_merge(e: u8)
    requires
        1 <= e <= MAX_EXPONENT,
    ensures
        slid_line(seq![e, 0, e, 0]) == seq![(e + 1) as u8, 0, 0, 0],
        line_score(seq![e, 0, e, 0]) == pow2((e + 1) as nat),
        line_changed(seq![e, 0, e, 0]),
{
    let line = seq![e, 0, e, 0];
    assert(tiles_from(line, 0) =~= seq![(e, 0usize), (e, 2usize)]) by {
        reveal_with_fuel(tiles_from, 6);
    }
    let t = line_tiles(line);
    assert(t.skip(2) =~= Seq::<(u8, usize)>::empty());
    assert(packed_values(t) =~= seq![(e + 1) as u8]) by {
        reveal_with_fuel(packed_values, 3);
    }
    assert(pack_score(t) == pow2((e + 1) as nat)) by {
        reveal_with_fuel(pack_score, 3);
    }
    assert(slid_line(line) =~= seq![(e + 1) as u8, 0, 0, 0]);
    assert(slid_line(line)[0] != line[0]);
}

/// A lone tile slides to the front without merging: the line changes but
/// scores nothing.
pub proof fn lemma_move_without_merge(e: u8)
    requires
        1 <= e <= MAX_EXPONENT,
    ensures
        slid_line(seq![0, e, 0, 0]) == seq![e, 0, 0, 0],
        line_score(seq![0, e, 0, 0]) == 0,
        line_changed(seq![0, e, 0, 0]),
{
    let line = seq![0, e, 0, 0];
    assert(tiles_from(line, 0) =~= seq![(e, 1usize)]) by {
        reveal_with_fuel(tiles_from, 6);
    }
    let t = line_tiles(line);
    assert(t.skip(1) =~= Seq::<(u8, usize)>::empty());
    assert(packed_values(t) =~= seq![e]) by {
        reveal_with_fuel(packed_values, 3);
    }
    assert(pack_score(t) == 0) by {
        reveal_with_fuel(pack_score, 3);
    }
    assert(slid_line(line) =~= seq![e, 0, 0, 0]);
    assert(slid_line(line)[1] != line[1]);
}

/// An already-packed line of unequal tiles does not change.
pub proof fn lemma_packed_line_unchanged(e: u8, f: u8)
    requires
        1 <= e <= MAX_EXPONENT,
        1 <= f <= MAX_EXPONENT,
        e != f,
    ensures
        slid_line(seq![e, f, 0, 0]) == seq![e, f, 0, 0],
        line_score(seq![e, f, 0, 0]) == 0,
        !line_changed(seq![e, f, 0, 0]),
{
    let line = seq![e, f, 0, 0];
    assert(tiles_from(line, 0) =~= seq![(e, 0usize), (f, 1usize)]) by {
        reveal_with_fuel(tiles_from, 6);
    }
    let t = line_tiles(line);
    assert(t.skip(1) =~= seq![(f, 1usize)]);
    assert(t.skip(1).skip(1) =~= Seq::<(u8, usize)>::empty());
    assert(packed_values(t) =~= seq![e, f]) by {
        reveal_with_fuel(packed_values, 4);
    }
    assert(pack_score(t) == 0) by {
        reveal_with_fuel(pack_score, 4);
    }
    assert(slid_line(line) =~= line);
}

/// Slide one line. `line` holds the four cell values in traversal order and
/// `indices` the grid index of each of those cells. Returns whether the line
/// changed, the resulting four cells, the score gained, one movement record
/// per occupied cell, and the merge destinations.
pub fn slide_line_with_movements(line: &Vec<u8>, indices: &Vec<usize>) -> (r: (
    bool,
    Vec<u8>,
    u64,
    Vec<SlideMovement>,
    Vec<usize>,
))
    requires
        line@.len() == 4,
        indices@.len() == 4,
        forall|j: int| 0 <= j < 4 ==> line@[j] <= MAX_EXPONENT,
    ensures
        r.0 == line_changed(line@),
        r.1@ == slid_line(line@),
        r.2 == line_score(line@),
        r.3@ == line_movements(line@, indices@),
        r.4@ == line_merge_dests(line@, indices@),
        r.2 <= 4 * pow2((MAX_EXPONENT + 1) as nat),
{
    let ghost tl = line_tiles(line@);

    // Pass 1: collect the occupied cells, each with its position in the line.
    let mut tiles: Vec<(u8, usize)> = Vec::new();
    let mut j: usize = 0;
    while j < 4
        invariant
            j <= 4,
            line@.len() == 4,
            forall|k: int| 0 <= k < 4 ==> line@[k] <= MAX_EXPONENT,
            tl == line_tiles(line@),
            tl == tiles@ + tiles_from(line@, j as int),
            tiles@.len() <= j,
            forall|k: int|
                0 <= k < tiles@.len() ==> 1 <= (#[trigger] tiles@[k]).0 <= MAX_EXPONENT
                    && tiles@[k].1 < 4,
        decreases 4 - j,
    {
        if line[j] != 0 {
            tiles.push((line[j], j));
        }
        proof {
            assert(tiles@ + tiles_from(line@, j + 1) =~= tl);
        }
        j = j + 1;
    }
    proof {
        assert(tiles_from(line@, 4) =~= Seq::<(u8, usize)>::empty());
        assert(tiles@ =~= tl);
        lemma_packed_values_len(tl);
        lemma_pack_score_bound(tl, MAX_EXPONENT);
        let p = pow2((MAX_EXPONENT + 1) as nat);
        assert(tl.len() * p <= 4 * p) by (nonlinear_arith)
            requires
                tl.len() <= 4,
                p >= 0,
        ;
    }

    // Pass 2: scan the tiles, merging each adjacent equal pair once.
    let mut result: Vec<u8> = Vec::new();
    result.push(0);
    result.push(0);
    result.push(0);
    result.push(0);
    let mut score: u64 = 0;
    let mut movements: Vec<SlideMovement> = Vec::new();
    let mut merge_dests: Vec<usize> = Vec::new();
    let mut write: usize = 0;
    let mut i: usize = 0;

    proof {
        assert(tl.skip(0) =~= tl);
        assert(result@.take(0) + packed_values(tl) =~= packed_values(tl));
        assert(Seq::<SlideMovement>::empty() + pack_moves(tl, indices@, 0) =~= pack_moves(
            tl,
            indices@,
            0,
        ));
        assert(Seq::<usize>::empty() + pack_merges(tl, indices@, 0) =~= pack_merges(
            tl,
            indices@,
            0,
        ));
    }

    while i < tiles.len()
        invariant
            tiles@ == tl,
            tl.len() <= 4,
            indices@.len() == 4,
            forall|k: int|
                0 <= k < tl.len() ==> 1 <= (#[trigger] tl[k]).0 <= MAX_EXPONENT && tl[k].1 < 4,
            i <= tl.len(),
            result@.len() == 4,
            packed_values(tl) == result@.take(write as int) + packed_values(tl.skip(i as int)),
            forall|k: int| write <= k < 4 ==> result@[k] == 0,
            write <= i,
            pack_score(tl) == score + pack_score(tl.skip(i as int)),
            pack_score(tl) <= 4 * pow2((MAX_EXPONENT + 1) as nat),
            pack_moves(tl, indices@, 0) == movements@ + pack_moves(
                tl.skip(i as int),
                indices@,
                write as int,
            ),
            pack_merges(tl, indices@, 0) == merge_dests@ + pack_merges(
                tl.skip(i as int),
                indices@,
                write as int,
            ),
        decreases tl.len() - i,
    {
        let ghost rest = tl.skip(i as int);
        proof {
            lemma_packed_values_len(tl);
            lemma_packed_values_len(rest);
            assert(rest[0] == tl[i as int]);
            // write stays a valid slot: at least one packed value is still owed.
            assert(write + packed_values(rest).len() == packed_values(tl).len());
            assert(write < 4);
        }
        let (val, pos) = tiles[i];
        let dest = indices[write];

        if i + 1 < tiles.len() && val == tiles[i + 1].0 {
            proof {
                assert(rest[1] == tl[i + 1]);
            }
            let merged = val + 1;
            let contribution = exp_to_value(merged);
            proof {
                lemma_pow2_increases((merged) as nat, (MAX_EXPONENT + 1) as nat);
                lemma_pow2_31();
            }
            result[write] = merged;
            score = score + contribution;
            let second_pos = tiles[i + 1].1;
            movements.push(SlideMovement { from: indices[pos], to: dest });
            movements.push(SlideMovement { from: indices[second_pos], to: dest });
            merge_dests.push(dest);
            proof {
                assert(rest.skip(2) =~= tl.skip(i + 2));
                assert(result@.take(write + 1) =~= result@.take(write as int).push(merged));
                assert(packed_values(tl) =~= result@.take(write + 1) + packed_values(
                    tl.skip(i + 2),
                ));
                assert(pack_moves(tl, indices@, 0) =~= movements@ + pack_moves(
                    tl.skip(i + 2),
                    indices@,
                    write + 1,
                ));
                assert(pack_merges(tl, indices@, 0) =~= merge_dests@ + pack_merges(
                    tl.skip(i + 2),
                    indices@,
                    write + 1,
                ));
            }
            i = i + 2;
        } else {
            result[write] = val;
            movements.push(SlideMovement { from: indices[pos], to: dest });
            proof {
                assert(rest.skip(1) =~= tl.skip(i + 1));
                assert(result@.take(write + 1) =~= result@.take(write as int).push(val));
                assert(packed_values(tl) =~= result@.take(write + 1) + packed_values(
                    tl.skip(i + 1),
                ));
                assert(pack_moves(tl, indices@, 0) =~= movements@ + pack_moves(
                    tl.skip(i + 1),
                    indices@,
                    write + 1,
                ));
                assert(pack_merges(tl, indices@, 0) =~= merge_dests@ + pack_merges(
                    tl.skip(i + 1),
                    indices@,
                    write + 1,
                ));
            }
            i = i + 1;
        }
        write = write + 1;
    }

    proof {
        assert(tl.skip(i as int) =~= Seq::<(u8, usize)>::empty());
        assert(packed_values(tl) =~= result@.take(write as int));
        assert(result@ =~= slid_line(line@));
        assert(movements@ =~= line_movements(line@, indices@));
        assert(merge_dests@ =~= line_merge_dests(line@, indices@));
    }

    // The line changed iff some cell now differs.
    let mut changed = false;
    let mut c: usize = 0;
    while c < 4
        invariant
            c <= 4,
            line@.len() == 4,
            result@.len() == 4,
            changed == exists|k: int| 0 <= k < c && result@[k] != line@[k],
        decreases 4 - c,
    {
        if result[c] != line[c] {
            changed = true;
        }
        c = c + 1;
    }
    proof {
        if !changed {
            assert(result@ =~= line@);
        }
    }

    (changed, result, score, movements, merge_dests)
}

} // verus!
