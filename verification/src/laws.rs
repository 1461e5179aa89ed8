//! Properties that hold of every well-formed game, stated and proved once
//! over the engine's invariant.

use vstd::prelude::*;

use crate::fleet::count_unsunk;
use crate::fleet::lemma_ship_hits_full;
use crate::fleet::pidx;
use crate::fleet::ship_hits;
use crate::fleet::total_ship_hits;
use crate::game::BattleshipGame;
use crate::grid::Cell;
use crate::grid::Shot;
use crate::grid::count_shot;
use crate::grid::lemma_count_hit_miss_le_len;

verus! {

/// Placement soundness: in a well-formed game every ship coordinate lies
/// within the grid, no coordinate is held by two ships or held twice by one,
/// and the fleet occupies nine coordinates in all.
pub proof fn lemma_placement_sound(g: BattleshipGame)
    requires
        g.wf(),
    ensures
        forall|i: int, k: int|
            0 <= i < g.ships@.len() && 0 <= k < (#[trigger] g.ships@[i]).positions@.len() ==> ((
            #[trigger] g.ships@[i].positions@[k]).0 < g.rows && g.ships@[i].positions@[k].1
                < g.cols),
        forall|i1: int, k1: int, i2: int, k2: int|
            0 <= i1 < g.ships@.len() && 0 <= k1 < (#[trigger] g.ships@[i1]).positions@.len() && 0
                <= i2 < g.ships@.len() && 0 <= k2 < (#[trigger] g.ships@[i2]).positions@.len() && (
            i1 != i2 || k1 != k2) ==> (#[trigger] g.ships@[i1].positions@[k1]) != (
            #[trigger] g.ships@[i2].positions@[k2]),
        g.ships@.len() == 3,
        g.ships@[0].positions@.len() + g.ships@[1].positions@.len() + g.ships@[2].positions@.len()
            == 9,
{
    let cc = g.cols as int;
    assert forall|i1: int, k1: int, i2: int, k2: int|
        0 <= i1 < g.ships@.len() && 0 <= k1 < (#[trigger] g.ships@[i1]).positions@.len() && 0 <= i2
            < g.ships@.len() && 0 <= k2 < (#[trigger] g.ships@[i2]).positions@.len() && (i1 != i2
            || k1 != k2) implies (#[trigger] g.ships@[i1].positions@[k1]) != (
    #[trigger] g.ships@[i2].positions@[k2]) by {
        if g.ships@[i1].positions@[k1] == g.ships@[i2].positions@[k2] {
            let q = pidx(g.ships@[i1].positions@[k1], cc);
            assert(pidx(g.ships@[i2].positions@[k2], cc) == q);
            if i1 != i2 {
                assert(g.board@[q] == Cell::Ship(i1 as usize));
                assert(g.board@[q] == Cell::Ship(i2 as usize));
            } else {
                if k1 < k2 {
                    assert(pidx(g.ships@[i1].positions@[k1], cc) != pidx(
                        g.ships@[i1].positions@[k2],
                        cc,
                    ));
                } else {
                    assert(pidx(g.ships@[i1].positions@[k2], cc) != pidx(
                        g.ships@[i1].positions@[k1],
                        cc,
                    ));
                }
            }
        }
    }
}

/// Win condition: the game is over exactly when no unsunk ship remains.
pub proof fn lemma_win_condition(g: BattleshipGame)
    requires
        g.wf(),
    ensures
        g.game_over <==> count_unsunk(g.ships@) == 0,
{
}

/// A ship is sunk exactly when the hits on its coordinates number its
/// length.
pub proof fn lemma_sunk_iff_fully_hit(g: BattleshipGame, i: int)
    requires
        g.wf(),
        0 <= i < g.ships@.len(),
    ensures
        g.ships@[i].sunk <==> ship_hits(g.ships@[i].positions@, g.shots@, g.cols as int)
            == g.ships@[i].length,
{
    lemma_ship_hits_full(g.ships@[i].positions@, g.shots@, g.cols as int);
}

/// Stats consistency: hits and misses together never exceed the number of
/// grid cells, and the grid's hit total equals the sum over the fleet of
/// each ship's hit count.
pub proof fn lemma_stats_consistency(g: BattleshipGame)
    requires
        g.wf(),
    ensures
        count_shot(g.shots@, Shot::Hit) + count_shot(g.shots@, Shot::Miss) <= g.rows * g.cols,
        count_shot(g.shots@, Shot::Hit) == total_ship_hits(g.ships@, g.shots@, g.cols as int),
{
    lemma_count_hit_miss_le_len(g.shots@);
}

} // verus!
