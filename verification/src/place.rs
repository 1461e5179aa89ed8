//! Random fleet placement: rejection sampling of candidate lines, with a
//! retry ceiling so an unsatisfiable board surfaces a failure instead of
//! looping forever.

use vstd::prelude::*;

use crate::fleet::Ship;
use crate::fleet::fleet_size;
use crate::fleet::manifest_entry;
use crate::fleet::pidx;
use crate::fleet::ship_wf;
use crate::grid::Cell;
use crate::grid::lemma_pos_idx_bound;
use crate::grid::pos_idx;
use crate::rng::random_below;

verus! {

/// How many random candidates are tried for one ship before placement is
/// reported as failed.
pub const MAX_ATTEMPTS: usize = 1000;

/// The k-th coordinate of a ship anchored at (row, col) in the given
/// orientation.
pub open spec fn cand_pos(row: int, col: int, horizontal: bool, k: int) -> (int, int) {
    if horizontal {
        (row, col + k)
    } else {
        (row + k, col)
    }
}

/// Whether a ship of the given length, anchored at (row, col), lies entirely
/// within the board.
pub open spec fn cand_fits(
    rows: int,
    cols: int,
    row: int,
    col: int,
    horizontal: bool,
    length: int,
) -> bool {
    if horizontal {
        col + length <= cols
    } else {
        row + length <= rows
    }
}

/// The exec counterpart of `pos_idx`, with its bound.
pub fn cell_index(r: usize, c: usize, rows: usize, cols: usize) -> (p: usize)
    requires
        r < rows,
        c < cols,
        rows * cols <= usize::MAX,
    ensures
        p == pos_idx(r as int, c as int, cols as int),
        p < rows * cols,
{
    proof {
        lemma_pos_idx_bound(r as int, c as int, rows as int, cols as int);
    }
    r * cols + c
}

/// A vector of `n` empty cells.
pub fn empty_cells(n: usize) -> (v: Vec<Cell>)
    ensures
        v@.len() == n,
        forall|q: int| 0 <= q < n ==> v@[q] == Cell::Empty,
{
    let mut v: Vec<Cell> = Vec::new();
    let mut i: usize = 0;
    while i < n
        invariant
            i <= n,
            v@.len() == i,
            forall|q: int| 0 <= q < i ==> v@[q] == Cell::Empty,
        decreases n - i,
    {
        v.push(Cell::Empty);
        i = i + 1;
    }
    v
}

/// The coordinates a ship of the given length would occupy from the given
/// anchor and orientation, or None where it would leave the board.
pub fn candidate_positions(
    rows: usize,
    cols: usize,
    length: usize,
    horizontal: bool,
    row: usize,
    col: usize,
) -> (r: Option<Vec<(usize, usize)>>)
    requires
        row < rows,
        col < cols,
        1 <= length,
    ensures
        r is Some <==> cand_fits(rows as int, cols as int, row as int, col as int, horizontal, length as int),
        r matches Some(pos) ==> {
            &&& pos@.len() == length
            &&& forall|k: int|
                0 <= k < length ==> (((#[trigger] pos@[k]).0 as int, pos@[k].1 as int) == cand_pos(
                    row as int,
                    col as int,
                    horizontal,
                    k,
                ))
            &&& forall|k: int|
                0 <= k < length ==> ((#[trigger] pos@[k]).0 < rows && pos@[k].1 < cols)
            &&& forall|k1: int, k2: int|
                0 <= k1 < k2 < length ==> pidx(#[trigger] pos@[k1], cols as int) != pidx(
                    #[trigger] pos@[k2],
                    cols as int,
                )
        },
{
    if horizontal {
        if cols - col < length {
            return None;
        }
    } else {
        if rows - row < length {
            return None;
        }
    }
    let mut pos: Vec<(usize, usize)> = Vec::new();
    let mut k: usize = 0;
    while k < length
        invariant
            k <= length,
            row < rows,
            col < cols,
            cand_fits(rows as int, cols as int, row as int, col as int, horizontal, length as int),
            pos@.len() == k,
            forall|k2: int|
                0 <= k2 < k ==> (((#[trigger] pos@[k2]).0 as int, pos@[k2].1 as int) == cand_pos(
                    row as int,
                    col as int,
                    horizontal,
                    k2,
                )),
        decreases length - k,
    {
        if horizontal {
            pos.push((row, col + k));
        } else {
            pos.push((row + k, col));
        }
        k = k + 1;
    }
    proof {
        assert forall|k1: int, k2: int| 0 <= k1 < k2 < length implies pidx(
            #[trigger] pos@[k1],
            cols as int,
        ) != pidx(#[trigger] pos@[k2], cols as int) by {
            if horizontal {
                assert(pidx(pos@[k1], cols as int) == row * cols + col + k1);
                assert(pidx(pos@[k2], cols as int) == row * cols + col + k2);
            } else {
                assert(pidx(pos@[k1], cols as int) == (row + k1) * cols + col);
                assert(pidx(pos@[k2], cols as int) == (row + k2) * cols + col);
                assert((row + k1) * cols != (row + k2) * cols) by (nonlinear_arith)
                    requires
                        0 <= k1 < k2,
                        0 <= row,
                        1 <= cols,
                ;
            }
        }
    }
    Some(pos)
}

/// Whether every one of the given in-bounds coordinates is still empty.
pub fn cells_free(board: &Vec<Cell>, rows: usize, cols: usize, pos: &Vec<(usize, usize)>) -> (b:
    bool)
    requires
        board@.len() == rows * cols,
        rows * cols <= usize::MAX,
        forall|k: int|
            0 <= k < pos@.len() ==> ((#[trigger] pos@[k]).0 < rows && pos@[k].1 < cols),
    ensures
        b <==> (forall|k: int|
            0 <= k < pos@.len() ==> board@[pidx(#[trigger] pos@[k], cols as int)] == Cell::Empty),
{
    let mut k: usize = 0;
    while k < pos.len()
        invariant
            k <= pos@.len(),
            board@.len() == rows * cols,
            rows * cols <= usize::MAX,
            forall|k2: int|
                0 <= k2 < pos@.len() ==> ((#[trigger] pos@[k2]).0 < rows && pos@[k2].1 < cols),
            forall|k2: int|
                0 <= k2 < k ==> board@[pidx(#[trigger] pos@[k2], cols as int)] == Cell::Empty,
        decreases pos@.len() - k,
    {
        let (r, c) = pos[k];
        let p = cell_index(r, c, rows, cols);
        match board[p] {
            Cell::Empty => {},
            Cell::Ship(_) => {
                return false;
            },
        }
        k = k + 1;
    }
    true
}

/// Marks every one of the given in-bounds coordinates as occupied by the
/// ship with the given index, and changes nothing else.
pub fn mark_ship(
    board: &mut Vec<Cell>,
    rows: usize,
    cols: usize,
    pos: &Vec<(usize, usize)>,
    ship_idx: usize,
)
    requires
        old(board)@.len() == rows * cols,
        rows * cols <= usize::MAX,
        forall|k: int|
            0 <= k < pos@.len() ==> ((#[trigger] pos@[k]).0 < rows && pos@[k].1 < cols),
    ensures
        final(board)@.len() == rows * cols,
        forall|k: int|
            0 <= k < pos@.len() ==> final(board)@[pidx(#[trigger] pos@[k], cols as int)]
                == Cell::Ship(ship_idx),
        forall|q: int|
            0 <= q < rows * cols && (forall|k: int|
                0 <= k < pos@.len() ==> pidx(#[trigger] pos@[k], cols as int) != q)
                ==> final(board)@[q] == old(board)@[q],
{
    proof {
        assert forall|k2: int| 0 <= k2 < pos@.len() implies 0 <= pidx(
            #[trigger] pos@[k2],
            cols as int,
        ) < rows * cols by {
            lemma_pos_idx_bound(pos@[k2].0 as int, pos@[k2].1 as int, rows as int, cols as int);
        }
    }
    let mut k: usize = 0;
    while k < pos.len()
        invariant
            k <= pos@.len(),
            board@.len() == rows * cols,
            rows * cols <= usize::MAX,
            forall|k2: int|
                0 <= k2 < pos@.len() ==> ((#[trigger] pos@[k2]).0 < rows && pos@[k2].1 < cols),
            forall|k2: int|
                0 <= k2 < pos@.len() ==> 0 <= pidx(#[trigger] pos@[k2], cols as int) < rows * cols,
            forall|k2: int|
                0 <= k2 < k ==> board@[pidx(#[trigger] pos@[k2], cols as int)] == Cell::Ship(
                    ship_idx,
                ),
            forall|q: int|
                0 <= q < rows * cols && (forall|k2: int|
                    0 <= k2 < k ==> pidx(#[trigger] pos@[k2], cols as int) != q) ==> board@[q]
                    == old(board)@[q],
        decreases pos@.len() - k,
    {
        let (r, c) = pos[k];
        let p = cell_index(r, c, rows, cols);
        board.set(p, Cell::Ship(ship_idx));
        k = k + 1;
    }
}

/// The fleet laid out so far: each placed ship well formed, each of its
/// coordinates marked with its index on the board, and every marked cell
/// accounted for by exactly that ship.
pub open spec fn placed_prefix(board: Seq<Cell>, ships: Seq<Ship>, rows: int, cols: int) -> bool {
    &&& board.len() == rows * cols
    &&& ships.len() <= fleet_size()
    &&& forall|i: int| 0 <= i < ships.len() ==> ship_wf(#[trigger] ships[i], i, rows, cols)
    &&& forall|i: int, k: int|
        0 <= i < ships.len() && 0 <= k < (#[trigger] ships[i]).positions@.len() ==> board[pidx(
            #[trigger] ships[i].positions@[k],
            cols,
        )] == Cell::Ship(i as usize)
    &&& forall|q: int|
        0 <= q < board.len() ==> ((#[trigger] board[q]) matches Cell::Ship(i) ==> 0 <= i
            < ships.len() && exists|k: int|
            0 <= k < ships[i as int].positions@.len() && pidx(
                #[trigger] ships[i as int].positions@[k],
                cols,
            ) == q)
}

/// A complete, well-formed placement of the whole manifest.
pub open spec fn fleet_placed(board: Seq<Cell>, ships: Seq<Ship>, rows: int, cols: int) -> bool {
    &&& placed_prefix(board, ships, rows, cols)
    &&& ships.len() == fleet_size()
}

/// Tries random candidates for the ship with the given index until one fits
/// on free cells, up to the retry ceiling; on success the board and the
/// fleet list are extended by that ship.
fn place_one(board: &mut Vec<Cell>, ships: &mut Vec<Ship>, rows: usize, cols: usize, idx: usize) -> (ok:
    bool)
    requires
        1 <= rows,
        1 <= cols,
        rows * cols <= usize::MAX,
        idx < fleet_size(),
        old(ships)@.len() == idx,
        placed_prefix(old(board)@, old(ships)@, rows as int, cols as int),
        forall|i: int| 0 <= i < idx ==> !(#[trigger] old(ships)@[i]).sunk,
    ensures
        ok ==> {
            &&& final(ships)@.len() == idx + 1
            &&& placed_prefix(final(board)@, final(ships)@, rows as int, cols as int)
            &&& forall|i: int| 0 <= i < idx + 1 ==> !(#[trigger] final(ships)@[i]).sunk
        },
        !ok ==> final(ships)@.len() == idx,
        crate::fleet::fleet_len(idx as int) > rows && crate::fleet::fleet_len(idx as int) > cols
            ==> !ok,
{
    let (name, length) = manifest_entry(idx);
    let mut attempts: usize = 0;
    while attempts < MAX_ATTEMPTS
        invariant
            1 <= rows,
            1 <= cols,
            rows * cols <= usize::MAX,
            idx < fleet_size(),
            1 <= length,
            length == crate::fleet::fleet_len(idx as int),
            name@ == crate::fleet::fleet_name(idx as int),
            ships@.len() == idx,
            placed_prefix(board@, ships@, rows as int, cols as int),
            forall|i: int| 0 <= i < idx ==> !(#[trigger] ships@[i]).sunk,
        decreases MAX_ATTEMPTS - attempts,
    {
        let horizontal = random_below(2) == 0;
        let row = random_below(rows);
        let col = random_below(cols);
        if let Some(pos) = candidate_positions(rows, cols, length, horizontal, row, col) {
            if cells_free(board, rows, cols, &pos) {
                let ghost old_board = board@;
                let ghost old_ships = ships@;
                mark_ship(board, rows, cols, &pos, idx);
                let ghost posg = pos@;
                ships.push(Ship { name, length, positions: pos, sunk: false });
                proof {
                    assert forall|k: int| 0 <= k < posg.len() implies 0 <= pidx(
                        #[trigger] posg[k],
                        cols as int,
                    ) < rows * cols by {
                        lemma_pos_idx_bound(
                            posg[k].0 as int,
                            posg[k].1 as int,
                            rows as int,
                            cols as int,
                        );
                    }
                    // the older ships' cells were not empty, so they are untouched
                    assert forall|i: int, k: int|
                        0 <= i < ships@.len() && 0 <= k < (#[trigger] ships@[i]).positions@.len()
                        implies board@[pidx(#[trigger] ships@[i].positions@[k], cols as int)]
                        == Cell::Ship(i as usize) by {
                        if i < idx {
                            let q = pidx(old_ships[i].positions@[k], cols as int);
                            lemma_pos_idx_bound(
                                old_ships[i].positions@[k].0 as int,
                                old_ships[i].positions@[k].1 as int,
                                rows as int,
                                cols as int,
                            );
                            assert(old_board[q] == Cell::Ship(i as usize));
                            assert forall|k2: int| 0 <= k2 < posg.len() implies pidx(
                                #[trigger] posg[k2],
                                cols as int,
                            ) != q by {
                                if pidx(posg[k2], cols as int) == q {
                                    assert(old_board[q] == Cell::Empty);
                                }
                            }
                            assert(board@[q] == old_board[q]);
                        } else {
                            assert(ships@[i].positions@ == posg);
                        }
                    }
                    // every marked cell is accounted for
                    assert(ships@.len() == idx + 1);
                    assert(ships@[idx as int].positions@ == posg);
                    assert forall|q: int| 0 <= q < board@.len() implies ((#[trigger] board@[q])
                        matches Cell::Ship(i) ==> 0 <= i < ships@.len() && exists|k: int|
                        0 <= k < ships@[i as int].positions@.len() && pidx(
                            #[trigger] ships@[i as int].positions@[k],
                            cols as int,
                        ) == q) by {
                        match board@[q] {
                            Cell::Ship(i) => {
                                if exists|k: int|
                                    0 <= k < posg.len() && pidx(#[trigger] posg[k], cols as int)
                                        == q {
                                    let k = choose|k: int|
                                        0 <= k < posg.len() && pidx(
                                            #[trigger] posg[k],
                                            cols as int,
                                        ) == q;
                                    assert(board@[pidx(posg[k], cols as int)] == Cell::Ship(idx));
                                    assert(board@[q] == Cell::Ship(idx));
                                    assert(i == idx);
                                    assert(pidx(ships@[idx as int].positions@[k], cols as int)
                                        == q);
                                } else {
                                    assert(forall|k: int|
                                        0 <= k < posg.len() ==> pidx(#[trigger] posg[k], cols as int)
                                            != q);
                                    assert(board@[q] == old_board[q]);
                                    assert(old_board[q] == Cell::Ship(i));
                                    assert(0 <= i < old_ships.len());
                                    let k = choose|k: int|
                                        0 <= k < old_ships[i as int].positions@.len() && pidx(
                                            #[trigger] old_ships[i as int].positions@[k],
                                            cols as int,
                                        ) == q;
                                    assert(ships@[i as int] == old_ships[i as int]);
                                    assert(pidx(ships@[i as int].positions@[k], cols as int) == q);
                                }
                            },
                            Cell::Empty => {},
                        }
                    }
                }
                return true;
            }
        }
        attempts = attempts + 1;
    }
    false
}

/// Places the whole manifest on a fresh board by rejection sampling. None
/// means a ship found no free line within the retry ceiling.
pub fn place_fleet(rows: usize, cols: usize) -> (r: Option<(Vec<Cell>, Vec<Ship>)>)
    requires
        1 <= rows,
        1 <= cols,
        rows * cols <= usize::MAX,
    ensures
        r matches Some(bs) ==> {
            &&& fleet_placed(bs.0@, bs.1@, rows as int, cols as int)
            &&& forall|i: int| 0 <= i < bs.1@.len() ==> !(#[trigger] bs.1@[i]).sunk
        },
        rows < 2 && cols < 2 ==> r is None,
{
    let total = rows * cols;
    let mut board = empty_cells(total);
    let mut ships: Vec<Ship> = Vec::new();
    let mut idx: usize = 0;
    while idx < 3
        invariant
            1 <= rows,
            1 <= cols,
            rows * cols <= usize::MAX,
            idx <= 3,
            ships@.len() == idx,
            placed_prefix(board@, ships@, rows as int, cols as int),
            forall|i: int| 0 <= i < idx ==> !(#[trigger] ships@[i]).sunk,
            rows < 2 && cols < 2 ==> idx == 0,
        decreases 3 - idx,
    {
        if !place_one(&mut board, &mut ships, rows, cols, idx) {
            return None;
        }
        idx = idx + 1;
    }
    Some((board, ships))
}

} // verus!
