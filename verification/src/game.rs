//! The game engine: state, shot resolution, stats reporting, and the laws
//! that hold of every well-formed game.

use vstd::prelude::*;

use crate::fleet::Ship;
use crate::fleet::all_hit;
use crate::fleet::count_unsunk;
use crate::fleet::fleet_name;
use crate::fleet::fleet_size;
use crate::fleet::lemma_count_unsunk_all;
use crate::fleet::lemma_count_unsunk_le_len;
use crate::fleet::lemma_count_unsunk_take_step;
use crate::fleet::lemma_count_unsunk_update;
use crate::fleet::lemma_total_ship_hits_same_positions;
use crate::fleet::lemma_total_ship_hits_update_hit;
use crate::fleet::lemma_total_ship_hits_zero;
use crate::fleet::lemma_total_ship_hits_zero_change;
use crate::fleet::pidx;
use crate::fleet::total_ship_hits;
use crate::grid::Cell;
use crate::grid::Shot;
use crate::grid::count_shot;
use crate::grid::lemma_count_shot_take_step;
use crate::grid::lemma_count_shot_update;
use crate::grid::lemma_count_shot_zero;
use crate::grid::lemma_pos_idx_bound;
use crate::grid::pos_idx;
use crate::place::cell_index;
use crate::place::fleet_placed;
use crate::place::place_fleet;
use crate::text::hit_message;
use crate::text::hit_text;
use crate::text::miss_message;
use crate::text::miss_text;
use crate::text::started_message;
use crate::text::started_text;
use crate::text::sunk_message;
use crate::text::sunk_text;
use crate::text::victory_message;
use crate::text::victory_text;

verus! {

/// The board could not accommodate the fleet within the retry ceiling.
#[derive(Clone, Copy, PartialEq, Eq, Structural, Debug)]
pub struct PlacementError;

/// A read-only projection of the current game state.
#[derive(Clone, Copy, PartialEq, Eq, Structural, Debug)]
pub struct GameStats {
    pub turns: usize,
    pub hits: usize,
    pub misses: usize,
    pub ships_left: usize,
    pub total_ships: usize,
}

/// One game of Battleship: the placed fleet, the shots fired so far, and the
/// lifecycle flags.
pub struct BattleshipGame {
    pub board: Vec<Cell>,
    pub shots: Vec<Shot>,
    pub ships: Vec<Ship>,
    pub game_over: bool,
    pub message: String,
    pub play_again: bool,
    pub rows: usize,
    pub cols: usize,
    pub turns: usize,
}

impl BattleshipGame {
    /// The invariant every game holds between engine calls: a well-formed
    /// placement, a shot grid of matching size whose hits all lie on ships,
    /// sunk flags that mirror the shot grid, and a game-over flag that
    /// mirrors the fleet.
    pub open spec fn wf(self) -> bool {
        &&& 1 <= self.rows
        &&& 1 <= self.cols
        &&& self.rows * self.cols <= usize::MAX
        &&& fleet_placed(self.board@, self.ships@, self.rows as int, self.cols as int)
        &&& self.shots@.len() == self.rows * self.cols
        &&& forall|q: int|
            0 <= q < self.shots@.len() ==> ((#[trigger] self.shots@[q]) == Shot::Hit
                ==> self.board@[q] != Cell::Empty)
        &&& forall|i: int|
            0 <= i < self.ships@.len() ==> ((#[trigger] self.ships@[i]).sunk <==> all_hit(
                self.ships@[i].positions@,
                self.shots@,
                self.cols as int,
            ))
        &&& (self.game_over <==> count_unsunk(self.ships@) == 0)
        &&& self.play_again == self.game_over
        &&& count_shot(self.shots@, Shot::Hit) == total_ship_hits(
            self.ships@,
            self.shots@,
            self.cols as int,
        )
    }

    /// The flat index a shot at (row, col) targets.
    pub open spec fn target(self, row: int, col: int) -> int {
        pos_idx(row, col, self.cols as int)
    }

    /// A shot that changes nothing beyond the turn counter: the game is
    /// already over, or the cell was already targeted.
    pub open spec fn noop_shot(self, row: int, col: int) -> bool {
        self.game_over || self.shots@[self.target(row, col)] != Shot::Untargeted
    }

    /// Starts a fresh game on a rows x cols board with the fixed fleet
    /// manifest placed at random. Fails only if a ship found no free line
    /// within the retry ceiling.
    pub fn new(rows: usize, cols: usize) -> (r: Result<BattleshipGame, PlacementError>)
        requires
            1 <= rows,
            1 <= cols,
            rows * cols <= usize::MAX,
        ensures
            r matches Ok(g) ==> {
                &&& g.wf()
                &&& g.rows == rows
                &&& g.cols == cols
                &&& g.turns == 0
                &&& !g.game_over
                &&& !g.play_again
                &&& g.message@ == started_text()
                &&& forall|q: int| 0 <= q < g.shots@.len() ==> g.shots@[q] == Shot::Untargeted
                &&& count_shot(g.shots@, Shot::Hit) == 0
                &&& count_shot(g.shots@, Shot::Miss) == 0
                &&& count_unsunk(g.ships@) == fleet_size()
                &&& g.ships@.len() == fleet_size()
            },
            rows < 2 && cols < 2 ==> r is Err,
    {
        match place_fleet(rows, cols) {
            Some((board, ships)) => {
                let total = rows * cols;
                let shots = fresh_shots(total);
                let g = BattleshipGame {
                    board,
                    shots,
                    ships,
                    game_over: false,
                    message: started_message(),
                    play_again: false,
                    rows,
                    cols,
                    turns: 0,
                };
                proof {
                    lemma_count_shot_zero(g.shots@, Shot::Hit);
                    lemma_count_shot_zero(g.shots@, Shot::Miss);
                    lemma_count_unsunk_all(g.ships@);
                    assert forall|i: int, k: int|
                        0 <= i < g.ships@.len() && 0 <= k < (
                        #[trigger] g.ships@[i]).positions@.len() implies g.shots@[pidx(
                        #[trigger] g.ships@[i].positions@[k],
                        cols as int,
                    )] != Shot::Hit by {
                        lemma_pos_idx_bound(
                            g.ships@[i].positions@[k].0 as int,
                            g.ships@[i].positions@[k].1 as int,
                            rows as int,
                            cols as int,
                        );
                    }
                    lemma_total_ship_hits_zero(g.ships@, g.shots@, cols as int);
                    assert forall|i: int| 0 <= i < g.ships@.len() implies !all_hit(
                        (#[trigger] g.ships@[i]).positions@,
                        g.shots@,
                        cols as int,
                    ) by {
                        assert(g.ships@[i].positions@.len() > 0);
                        assert(g.shots@[pidx(g.ships@[i].positions@[0], cols as int)] != Shot::Hit);
                    }
                }
                Ok(g)
            },
            None => Err(PlacementError),
        }
    }

    /// Re-initializes this game in place: a fresh board, fleet, shot grid
    /// and counters, exactly as `new` builds them. On failure the old game
    /// is left untouched.
    pub fn start_game(&mut self, rows: usize, cols: usize) -> (r: Result<(), PlacementError>)
        requires
            1 <= rows,
            1 <= cols,
            rows * cols <= usize::MAX,
        ensures
            r is Ok ==> {
                &&& final(self).wf()
                &&& final(self).rows == rows
                &&& final(self).cols == cols
                &&& final(self).turns == 0
                &&& !final(self).game_over
                &&& !final(self).play_again
                &&& final(self).message@ == started_text()
                &&& forall|q: int|
                    0 <= q < final(self).shots@.len() ==> final(self).shots@[q] == Shot::Untargeted
                &&& count_unsunk(final(self).ships@) == fleet_size()
                &&& final(self).ships@.len() == fleet_size()
            },
            r is Err ==> *final(self) == *old(self),
            rows < 2 && cols < 2 ==> r is Err,
    {
        match Self::new(rows, cols) {
            Ok(g) => {
                *self = g;
                Ok(())
            },
            Err(e) => Err(e),
        }
    }

    /// Resolves a shot at (row, col). Every call counts a turn. A shot at an
    /// already-targeted cell, or after the game is over, changes nothing
    /// else. A fresh shot marks the cell as a miss or a hit, may sink the
    /// hit ship, and ends the game when the last ship goes down; the status
    /// message reports the outcome in 1-based coordinates.
    pub fn shoot(&mut self, row: usize, col: usize)
        requires
            old(self).wf(),
            row < old(self).rows,
            col < old(self).cols,
            old(self).turns < usize::MAX,
        ensures
            final(self).wf(),
            final(self).rows == old(self).rows,
            final(self).cols == old(self).cols,
            final(self).board@ == old(self).board@,
            final(self).turns == old(self).turns + 1,
            final(self).ships@.len() == old(self).ships@.len(),
            forall|i: int|
                0 <= i < old(self).ships@.len() ==> {
                    &&& (#[trigger] final(self).ships@[i]).positions@
                        == old(self).ships@[i].positions@
                    &&& final(self).ships@[i].name@ == old(self).ships@[i].name@
                    &&& final(self).ships@[i].length == old(self).ships@[i].length
                },
            forall|i: int|
                0 <= i < old(self).ships@.len() && (#[trigger] old(self).ships@[i]).sunk
                    ==> final(self).ships@[i].sunk,
            old(self).game_over ==> final(self).game_over,
            old(self).noop_shot(row as int, col as int) ==> {
                &&& final(self).shots@ == old(self).shots@
                &&& final(self).ships@ == old(self).ships@
                &&& final(self).game_over == old(self).game_over
                &&& final(self).play_again == old(self).play_again
                &&& final(self).message@ == old(self).message@
            },
            !old(self).noop_shot(row as int, col as int) ==> ({
                let p = old(self).target(row as int, col as int);
                match old(self).board@[p] {
                    Cell::Empty => {
                        &&& final(self).shots@ == old(self).shots@.update(p, Shot::Miss)
                        &&& final(self).ships@ == old(self).ships@
                        &&& !final(self).game_over
                        &&& !final(self).play_again
                        &&& final(self).message@ == miss_text(row as int + 1, col as int + 1)
                    },
                    Cell::Ship(si) => {
                        &&& final(self).shots@ == old(self).shots@.update(p, Shot::Hit)
                        &&& forall|j: int|
                            0 <= j < old(self).ships@.len() && j != si ==> final(self).ships@[j]
                                == old(self).ships@[j]
                        &&& final(self).ships@[si as int].sunk == all_hit(
                            old(self).ships@[si as int].positions@,
                            final(self).shots@,
                            old(self).cols as int,
                        )
                        &&& final(self).game_over == (count_unsunk(final(self).ships@) == 0)
                        &&& final(self).message@ == (if final(self).game_over {
                            victory_text()
                        } else if final(self).ships@[si as int].sunk {
                            sunk_text(fleet_name(si as int))
                        } else {
                            hit_text(row as int + 1, col as int + 1)
                        })
                    },
                }
            }),
    {
        self.turns = self.turns + 1;
        let p = cell_index(row, col, self.rows, self.cols);
        if self.game_over {
            return;
        }
        match self.shots[p] {
            Shot::Untargeted => {},
            _ => {
                return;
            },
        }
        let ghost pre = *self;
        let ghost cc = self.cols as int;
        proof {
            // every fleet coordinate has an in-range flat index
            assert forall|i: int, k: int|
                0 <= i < pre.ships@.len() && 0 <= k < (#[trigger] pre.ships@[i]).positions@.len()
                implies 0 <= pidx(#[trigger] pre.ships@[i].positions@[k], cc) < pre.shots@.len() by {
                lemma_pos_idx_bound(
                    pre.ships@[i].positions@[k].0 as int,
                    pre.ships@[i].positions@[k].1 as int,
                    pre.rows as int,
                    pre.cols as int,
                );
            }
        }
        match self.board[p] {
            Cell::Empty => {
                self.shots.set(p, Shot::Miss);
                self.message = miss_message(row + 1, col + 1);
                proof {
                    lemma_count_shot_update(pre.shots@, p as int, Shot::Miss, Shot::Hit);
                    assert forall|i: int, k: int|
                        0 <= i < pre.ships@.len() && 0 <= k < (
                        #[trigger] pre.ships@[i]).positions@.len() implies pidx(
                        #[trigger] pre.ships@[i].positions@[k],
                        cc,
                    ) != p as int by {
                        if pidx(pre.ships@[i].positions@[k], cc) == p as int {
                            assert(pre.board@[p as int] == Cell::Ship(i as usize));
                        }
                    }
                    lemma_total_ship_hits_zero_change(
                        pre.ships@,
                        pre.shots@,
                        self.shots@,
                        cc,
                        p as int,
                    );
                    assert forall|i: int| 0 <= i < self.ships@.len() implies ((
                    #[trigger] self.ships@[i]).sunk <==> all_hit(
                        self.ships@[i].positions@,
                        self.shots@,
                        cc,
                    )) by {
                        assert(forall|k: int|
                            0 <= k < self.ships@[i].positions@.len()
                                ==> self.shots@[pidx(#[trigger] self.ships@[i].positions@[k], cc)]
                                == pre.shots@[pidx(self.ships@[i].positions@[k], cc)]);
                    }
                }
            },
            Cell::Ship(si) => {
                proof {
                    // the coverage clause puts si in range and gives a
                    // position of ship si at this cell
                    assert(pre.board@[p as int] matches Cell::Ship(j) && j == si);
                    assert(0 <= si < pre.ships@.len());
                }
                let ghost k0 = choose|k: int|
                    0 <= k < pre.ships@[si as int].positions@.len() && pidx(
                        #[trigger] pre.ships@[si as int].positions@[k],
                        cc,
                    ) == p as int;
                self.shots.set(p, Shot::Hit);
                proof {
                    lemma_count_shot_update(pre.shots@, p as int, Shot::Hit, Shot::Hit);
                    assert forall|i: int, k: int|
                        0 <= i < pre.ships@.len() && i != si && 0 <= k < (
                        #[trigger] pre.ships@[i]).positions@.len() implies pidx(
                        #[trigger] pre.ships@[i].positions@[k],
                        cc,
                    ) != pidx(pre.ships@[si as int].positions@[k0], cc) by {
                        if pidx(pre.ships@[i].positions@[k], cc) == p as int {
                            assert(pre.board@[p as int] == Cell::Ship(i as usize));
                        }
                    }
                    lemma_total_ship_hits_update_hit(pre.ships@, pre.shots@, cc, si as int, k0);
                    assert(self.shots@ == pre.shots@.update(p as int, Shot::Hit));
                    assert(count_shot(self.shots@, Shot::Hit) == total_ship_hits(
                        pre.ships@,
                        self.shots@,
                        cc,
                    ));
                }
                let all = ship_all_hit(&self.shots, self.rows, self.cols, &self.ships[si].positions);
                if all {
                    let nm = self.ships[si].name;
                    let ln = self.ships[si].length;
                    let npos = copy_positions(&self.ships[si].positions);
                    let ghost mid_ships = self.ships@;
                    self.ships.set(si, Ship { name: nm, length: ln, positions: npos, sunk: true });
                    self.message = sunk_message(nm);
                    proof {
                        assert(self.ships@ == mid_ships.update(
                            si as int,
                            self.ships@[si as int],
                        ));
                        lemma_total_ship_hits_same_positions(mid_ships, self.ships@, self.shots@, cc);
                        assert(!pre.ships@[si as int].sunk) by {
                            if pre.ships@[si as int].sunk {
                                assert(pre.shots@[pidx(pre.ships@[si as int].positions@[k0], cc)]
                                    == Shot::Hit);
                            }
                        }
                        lemma_count_unsunk_update(mid_ships, si as int, self.ships@[si as int]);
                        // the replaced ship keeps its coordinates, so every
                        // marked cell is still accounted for
                        assert forall|q: int|
                            0 <= q < self.board@.len() implies ((#[trigger] self.board@[q])
                            matches Cell::Ship(i) ==> 0 <= i < self.ships@.len() && exists|k: int|
                            0 <= k < self.ships@[i as int].positions@.len() && pidx(
                                #[trigger] self.ships@[i as int].positions@[k],
                                cc,
                            ) == q) by {
                            match self.board@[q] {
                                Cell::Ship(i) => {
                                    let k = choose|k: int|
                                        0 <= k < pre.ships@[i as int].positions@.len() && pidx(
                                            #[trigger] pre.ships@[i as int].positions@[k],
                                            cc,
                                        ) == q;
                                    assert(self.ships@[i as int].positions@
                                        == pre.ships@[i as int].positions@);
                                    assert(pidx(self.ships@[i as int].positions@[k], cc) == q);
                                },
                                Cell::Empty => {},
                            }
                        }
                    }
                } else {
                    self.message = hit_message(row + 1, col + 1);
                    proof {
                        assert(!pre.ships@[si as int].sunk) by {
                            if pre.ships@[si as int].sunk {
                                assert(pre.shots@[pidx(pre.ships@[si as int].positions@[k0], cc)]
                                    == Shot::Hit);
                            }
                        }
                    }
                }
                proof {
                    // sunk flags of the other ships keep mirroring the grid:
                    // their cells are untouched
                    assert forall|i: int|
                        0 <= i < self.ships@.len() && i != si implies ((
                    #[trigger] self.ships@[i]).sunk <==> all_hit(
                        self.ships@[i].positions@,
                        self.shots@,
                        cc,
                    )) by {
                        assert(self.ships@[i] == pre.ships@[i]);
                        assert forall|k: int|
                            0 <= k < pre.ships@[i].positions@.len()
                            implies self.shots@[pidx(#[trigger] pre.ships@[i].positions@[k], cc)]
                            == pre.shots@[pidx(pre.ships@[i].positions@[k], cc)] by {
                            if pidx(pre.ships@[i].positions@[k], cc) == p as int {
                                assert(pre.board@[p as int] == Cell::Ship(i as usize));
                            }
                        }
                    }
                }
            },
        }
        let left = count_unsunk_ships(&self.ships);
        if left == 0 {
            self.game_over = true;
            self.message = victory_message();
            self.play_again = true;
        }
        proof {
            lemma_count_unsunk_le_len(self.ships@);
        }
    }

    /// The current stats: the turn counter, the hit and miss totals over the
    /// whole shot grid, and how many ships remain afloat.
    pub fn game_stats(&self) -> (r: GameStats)
        ensures
            r.turns == self.turns,
            r.hits == count_shot(self.shots@, Shot::Hit),
            r.misses == count_shot(self.shots@, Shot::Miss),
            r.ships_left == count_unsunk(self.ships@),
            r.total_ships == self.ships@.len(),
    {
        let mut hits: usize = 0;
        let mut misses: usize = 0;
        let mut q: usize = 0;
        while q < self.shots.len()
            invariant
                q <= self.shots@.len(),
                hits == count_shot(self.shots@.take(q as int), Shot::Hit),
                misses == count_shot(self.shots@.take(q as int), Shot::Miss),
                hits <= q,
                misses <= q,
            decreases self.shots@.len() - q,
        {
            proof {
                lemma_count_shot_take_step(self.shots@, q as int, Shot::Hit);
                lemma_count_shot_take_step(self.shots@, q as int, Shot::Miss);
            }
            match self.shots[q] {
                Shot::Hit => {
                    hits = hits + 1;
                },
                Shot::Miss => {
                    misses = misses + 1;
                },
                Shot::Untargeted => {},
            }
            q = q + 1;
        }
        proof {
            assert(self.shots@.take(self.shots@.len() as int) =~= self.shots@);
        }
        GameStats {
            turns: self.turns,
            hits,
            misses,
            ships_left: count_unsunk_ships(&self.ships),
            total_ships: self.ships.len(),
        }
    }
}

/// A vector of `n` untargeted shot marks.
fn fresh_shots(n: usize) -> (v: Vec<Shot>)
    ensures
        v@.len() == n,
        forall|q: int| 0 <= q < n ==> v@[q] == Shot::Untargeted,
{
    let mut v: Vec<Shot> = Vec::new();
    let mut i: usize = 0;
    while i < n
        invariant
            i <= n,
            v@.len() == i,
            forall|q: int| 0 <= q < i ==> v@[q] == Shot::Untargeted,
        decreases n - i,
    {
        v.push(Shot::Untargeted);
        i = i + 1;
    }
    v
}

/// Whether every one of the ship's in-bounds coordinates carries a hit.
fn ship_all_hit(shots: &Vec<Shot>, rows: usize, cols: usize, pos: &Vec<(usize, usize)>) -> (b: bool)
    requires
        shots@.len() == rows * cols,
        rows * cols <= usize::MAX,
        forall|k: int|
            0 <= k < pos@.len() ==> ((#[trigger] pos@[k]).0 < rows && pos@[k].1 < cols),
    ensures
        b == all_hit(pos@, shots@, cols as int),
{
    let mut k: usize = 0;
    while k < pos.len()
        invariant
            k <= pos@.len(),
            shots@.len() == rows * cols,
            rows * cols <= usize::MAX,
            forall|k2: int|
                0 <= k2 < pos@.len() ==> ((#[trigger] pos@[k2]).0 < rows && pos@[k2].1 < cols),
            forall|k2: int|
                0 <= k2 < k ==> shots@[pidx(#[trigger] pos@[k2], cols as int)] == Shot::Hit,
        decreases pos@.len() - k,
    {
        let (r, c) = pos[k];
        let q = cell_index(r, c, rows, cols);
        match shots[q] {
            Shot::Hit => {},
            _ => {
                return false;
            },
        }
        k = k + 1;
    }
    true
}

/// A copy of a ship's coordinate list.
fn copy_positions(pos: &Vec<(usize, usize)>) -> (r: Vec<(usize, usize)>)
    ensures
        r@ == pos@,
{
    let mut out: Vec<(usize, usize)> = Vec::new();
    let mut k: usize = 0;
    while k < pos.len()
        invariant
            k <= pos@.len(),
            out@.len() == k,
            forall|k2: int| 0 <= k2 < k ==> out@[k2] == pos@[k2],
        decreases pos@.len() - k,
    {
        let (r, c) = pos[k];
        out.push((r, c));
        k = k + 1;
    }
    proof {
        assert(out@ =~= pos@);
    }
    out
}

/// How many ships of the fleet are not yet sunk.
fn count_unsunk_ships(ships: &Vec<Ship>) -> (n: usize)
    ensures
        n == count_unsunk(ships@),
{
    let mut n: usize = 0;
    let mut i: usize = 0;
    while i < ships.len()
        invariant
            i <= ships@.len(),
            n == count_unsunk(ships@.take(i as int)),
            n <= i,
        decreases ships@.len() - i,
    {
        proof {
            lemma_count_unsunk_take_step(ships@, i as int);
        }
        if !ships[i].sunk {
            n = n + 1;
        }
        i = i + 1;
    }
    proof {
        assert(ships@.take(ships@.len() as int) =~= ships@);
    }
    n
}

} // verus!
