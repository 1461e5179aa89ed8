//! Grid cells, shot marks, and the flat indexing of a rows x cols board.

use vstd::prelude::*;

verus! {

/// What a board position holds once the fleet is placed: nothing, or a ship
/// identified by its index into the fleet list.
#[derive(Clone, Copy, PartialEq, Eq, Structural, Debug)]
pub enum Cell {
    Empty,
    Ship(usize),
}

/// What is known about a position from the shots fired so far.
#[derive(Clone, Copy, PartialEq, Eq, Structural, Debug)]
pub enum Shot {
    Untargeted,
    Miss,
    Hit,
}

/// Flat index of the position (r, c) on a board with `cols` columns.
pub open spec fn pos_idx(r: int, c: int, cols: int) -> int {
    r * cols + c
}

/// The flat index of an in-bounds position lies below rows * cols.
pub proof fn lemma_pos_idx_bound(r: int, c: int, rows: int, cols: int)
    requires
        0 <= r < rows,
        0 <= c < cols,
    ensures
        0 <= pos_idx(r, c, cols) < rows * cols,
{
    assert(0 <= r * cols + c < rows * cols) by (nonlinear_arith)
        requires
            0 <= r < rows,
            0 <= c < cols,
    ;
}

/// How many entries of `s` equal `v`.
pub open spec fn count_shot(s: Seq<Shot>, v: Shot) -> int
    decreases s.len(),
{
    if s.len() == 0 {
        0
    } else {
        count_shot(s.drop_last(), v) + if s.last() == v {
            1int
        } else {
            0int
        }
    }
}

/// A sequence none of whose entries equals `v` counts zero of them.
pub proof fn lemma_count_shot_zero(s: Seq<Shot>, v: Shot)
    requires
        forall|k: int| 0 <= k < s.len() ==> s[k] != v,
    ensures
        count_shot(s, v) == 0,
    decreases s.len(),
{
    if s.len() > 0 {
        lemma_count_shot_zero(s.drop_last(), v);
    }
}

/// Replacing the entry at `i` adjusts the count by the difference of the two
/// indicator values.
pub proof fn lemma_count_shot_update(s: Seq<Shot>, i: int, x: Shot, v: Shot)
    requires
        0 <= i < s.len(),
    ensures
        count_shot(s.update(i, x), v) == count_shot(s, v) + (if x == v {
            1int
        } else {
            0int
        }) - (if s[i] == v {
            1int
        } else {
            0int
        }),
    decreases s.len(),
{
    let su = s.update(i, x);
    if i == s.len() - 1 {
        assert(su.drop_last() =~= s.drop_last());
        assert(su.last() == x);
    } else {
        assert(su.drop_last() =~= s.drop_last().update(i, x));
        lemma_count_shot_update(s.drop_last(), i, x, v);
        assert(su.last() == s.last());
    }
}

/// One forward step for a loop that counts over a prefix.
pub proof fn lemma_count_shot_take_step(s: Seq<Shot>, i: int, v: Shot)
    requires
        0 <= i < s.len(),
    ensures
        count_shot(s.take(i + 1), v) == count_shot(s.take(i), v) + (if s[i] == v {
            1int
        } else {
            0int
        }),
{
    assert(s.take(i + 1).drop_last() =~= s.take(i));
    assert(s.take(i + 1).last() == s[i]);
}

/// Hits and misses together never outnumber the positions.
pub proof fn lemma_count_hit_miss_le_len(s: Seq<Shot>)
    ensures
        count_shot(s, Shot::Hit) + count_shot(s, Shot::Miss) <= s.len(),
    decreases s.len(),
{
    if s.len() > 0 {
        lemma_count_hit_miss_le_len(s.drop_last());
    }
}

} // verus!
