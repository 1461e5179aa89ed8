//! The fleet: the fixed ship manifest, per-ship hit counting, and the counts
//! over the whole fleet that shot resolution and the stats report rely on.

use vstd::prelude::*;

use crate::grid::Shot;
use crate::grid::pos_idx;

verus! {

/// One ship of the fleet: its display name, its length, the board positions
/// it occupies (as (row, col) pairs), and whether it has been sunk.
pub struct Ship {
    pub name: &'static str,
    pub length: usize,
    pub positions: Vec<(usize, usize)>,
    pub sunk: bool,
}

/// The number of ships in the fixed fleet manifest.
pub open spec fn fleet_size() -> int {
    3
}

/// The length of the i-th ship of the fixed manifest.
pub open spec fn fleet_len(i: int) -> int {
    if i == 0 {
        2
    } else if i == 1 {
        3
    } else {
        4
    }
}

/// The display name of the i-th ship of the fixed manifest.
pub open spec fn fleet_name(i: int) -> Seq<char> {
    if i == 0 {
        "Destroyer"@
    } else if i == 1 {
        "Cruiser"@
    } else {
        "Battleship"@
    }
}

/// The i-th entry of the fixed fleet manifest: name and length.
pub fn manifest_entry(i: usize) -> (r: (&'static str, usize))
    requires
        i < fleet_size(),
    ensures
        r.0@ == fleet_name(i as int),
        r.1 == fleet_len(i as int),
{
    if i == 0 {
        ("Destroyer", 2)
    } else if i == 1 {
        ("Cruiser", 3)
    } else {
        ("Battleship", 4)
    }
}

/// The flat index of a (row, col) pair on a board with `cols` columns.
pub open spec fn pidx(p: (usize, usize), cols: int) -> int {
    pos_idx(p.0 as int, p.1 as int, cols)
}

/// The i-th ship of a well-formed fleet: manifest name and length, as many
/// positions as its length, all in bounds, no position held twice.
pub open spec fn ship_wf(s: Ship, i: int, rows: int, cols: int) -> bool {
    &&& s.length == fleet_len(i)
    &&& s.name@ == fleet_name(i)
    &&& s.positions@.len() == fleet_len(i)
    &&& forall|k: int|
        0 <= k < s.positions@.len() ==> ((#[trigger] s.positions@[k]).0 < rows
            && s.positions@[k].1 < cols)
    &&& forall|k1: int, k2: int|
        0 <= k1 < k2 < s.positions@.len() ==> pidx(#[trigger] s.positions@[k1], cols) != pidx(
            #[trigger] s.positions@[k2],
            cols,
        )
}

/// How many of the given positions carry a hit in `shots`.
pub open spec fn ship_hits(pos: Seq<(usize, usize)>, shots: Seq<Shot>, cols: int) -> int
    decreases pos.len(),
{
    if pos.len() == 0 {
        0
    } else {
        ship_hits(pos.drop_last(), shots, cols) + if shots[pidx(pos.last(), cols)] == Shot::Hit {
            1int
        } else {
            0int
        }
    }
}

/// Every one of the given positions carries a hit in `shots`.
pub open spec fn all_hit(pos: Seq<(usize, usize)>, shots: Seq<Shot>, cols: int) -> bool {
    forall|k: int| 0 <= k < pos.len() ==> shots[pidx(pos[k], cols)] == Shot::Hit
}

pub proof fn lemma_ship_hits_le_len(pos: Seq<(usize, usize)>, shots: Seq<Shot>, cols: int)
    ensures
        0 <= ship_hits(pos, shots, cols) <= pos.len(),
    decreases pos.len(),
{
    if pos.len() > 0 {
        lemma_ship_hits_le_len(pos.drop_last(), shots, cols);
    }
}

/// The hit count reaches the number of positions exactly when every position
/// is hit.
pub proof fn lemma_ship_hits_full(pos: Seq<(usize, usize)>, shots: Seq<Shot>, cols: int)
    ensures
        ship_hits(pos, shots, cols) == pos.len() <==> all_hit(pos, shots, cols),
    decreases pos.len(),
{
    if pos.len() > 0 {
        lemma_ship_hits_full(pos.drop_last(), shots, cols);
        lemma_ship_hits_le_len(pos.drop_last(), shots, cols);
        if ship_hits(pos, shots, cols) == pos.len() {
            assert(forall|k: int| 0 <= k < pos.len() - 1 ==> pos.drop_last()[k] == pos[k]);
        } else if all_hit(pos, shots, cols) {
            assert(forall|k: int| 0 <= k < pos.len() - 1 ==> pos.drop_last()[k] == pos[k]);
            assert(shots[pidx(pos.last(), cols)] == Shot::Hit);
        }
    }
}

/// The hit count of a set of positions depends only on the shot marks at
/// those positions.
pub proof fn lemma_ship_hits_frame(
    pos: Seq<(usize, usize)>,
    shots1: Seq<Shot>,
    shots2: Seq<Shot>,
    cols: int,
)
    requires
        forall|k: int| 0 <= k < pos.len() ==> shots2[pidx(#[trigger] pos[k], cols)] == shots1[pidx(
            pos[k],
            cols,
        )],
    ensures
        ship_hits(pos, shots1, cols) == ship_hits(pos, shots2, cols),
    decreases pos.len(),
{
    if pos.len() > 0 {
        assert(forall|k: int| 0 <= k < pos.len() - 1 ==> pos.drop_last()[k] == pos[k]);
        lemma_ship_hits_frame(pos.drop_last(), shots1, shots2, cols);
        assert(shots2[pidx(pos.last(), cols)] == shots1[pidx(pos.last(), cols)]);
    }
}

/// Marking a hit at one position of the ship, at a flat index the ship holds
/// exactly once and that was not a hit before, raises its hit count by one.
pub proof fn lemma_ship_hits_update_hit(
    pos: Seq<(usize, usize)>,
    shots: Seq<Shot>,
    cols: int,
    k0: int,
)
    requires
        0 <= k0 < pos.len(),
        forall|k1: int, k2: int|
            0 <= k1 < k2 < pos.len() ==> pidx(#[trigger] pos[k1], cols) != pidx(
                #[trigger] pos[k2],
                cols,
            ),
        forall|k: int|
            0 <= k < pos.len() ==> 0 <= pidx(#[trigger] pos[k], cols) < shots.len(),
        shots[pidx(pos[k0], cols)] != Shot::Hit,
    ensures
        ship_hits(pos, shots.update(pidx(pos[k0], cols), Shot::Hit), cols) == ship_hits(
            pos,
            shots,
            cols,
        ) + 1,
    decreases pos.len(),
{
    let j = pidx(pos[k0], cols);
    let shots2 = shots.update(j, Shot::Hit);
    assert(forall|k: int| 0 <= k < pos.len() - 1 ==> pos.drop_last()[k] == pos[k]);
    if k0 == pos.len() - 1 {
        assert(forall|k: int|
            0 <= k < pos.len() - 1 ==> shots2[pidx(#[trigger] pos.drop_last()[k], cols)]
                == shots[pidx(pos.drop_last()[k], cols)]);
        lemma_ship_hits_frame(pos.drop_last(), shots, shots2, cols);
        assert(shots2[pidx(pos.last(), cols)] == Shot::Hit);
    } else {
        lemma_ship_hits_update_hit(pos.drop_last(), shots, cols, k0);
        assert(pidx(pos.last(), cols) != j);
        assert(shots2[pidx(pos.last(), cols)] == shots[pidx(pos.last(), cols)]);
    }
}

/// How many ships of the fleet are not yet sunk.
pub open spec fn count_unsunk(ships: Seq<Ship>) -> int
    decreases ships.len(),
{
    if ships.len() == 0 {
        0
    } else {
        count_unsunk(ships.drop_last()) + if ships.last().sunk {
            0int
        } else {
            1int
        }
    }
}

pub proof fn lemma_count_unsunk_le_len(ships: Seq<Ship>)
    ensures
        0 <= count_unsunk(ships) <= ships.len(),
    decreases ships.len(),
{
    if ships.len() > 0 {
        lemma_count_unsunk_le_len(ships.drop_last());
    }
}

/// In a fleet none of whose ships is sunk, every ship counts.
pub proof fn lemma_count_unsunk_all(ships: Seq<Ship>)
    requires
        forall|i: int| 0 <= i < ships.len() ==> !(#[trigger] ships[i]).sunk,
    ensures
        count_unsunk(ships) == ships.len(),
    decreases ships.len(),
{
    if ships.len() > 0 {
        assert(forall|i: int| 0 <= i < ships.len() - 1 ==> ships.drop_last()[i] == ships[i]);
        lemma_count_unsunk_all(ships.drop_last());
    }
}

/// Replacing the i-th ship adjusts the unsunk count by the difference of the
/// two indicator values.
pub proof fn lemma_count_unsunk_update(ships: Seq<Ship>, i: int, s2: Ship)
    requires
        0 <= i < ships.len(),
    ensures
        count_unsunk(ships.update(i, s2)) == count_unsunk(ships) + (if s2.sunk {
            0int
        } else {
            1int
        }) - (if ships[i].sunk {
            0int
        } else {
            1int
        }),
    decreases ships.len(),
{
    let su = ships.update(i, s2);
    if i == ships.len() - 1 {
        assert(su.drop_last() =~= ships.drop_last());
        assert(su.last() == s2);
    } else {
        assert(su.drop_last() =~= ships.drop_last().update(i, s2));
        lemma_count_unsunk_update(ships.drop_last(), i, s2);
        assert(su.last() == ships.last());
    }
}

/// One forward step for a loop that counts unsunk ships over a prefix.
pub proof fn lemma_count_unsunk_take_step(ships: Seq<Ship>, i: int)
    requires
        0 <= i < ships.len(),
    ensures
        count_unsunk(ships.take(i + 1)) == count_unsunk(ships.take(i)) + (if ships[i].sunk {
            0int
        } else {
            1int
        }),
{
    assert(ships.take(i + 1).drop_last() =~= ships.take(i));
    assert(ships.take(i + 1).last() == ships[i]);
}

/// The fleet's hit count: the sum over its ships of their hit counts.
pub open spec fn total_ship_hits(ships: Seq<Ship>, shots: Seq<Shot>, cols: int) -> int
    decreases ships.len(),
{
    if ships.len() == 0 {
        0
    } else {
        total_ship_hits(ships.drop_last(), shots, cols) + ship_hits(
            ships.last().positions@,
            shots,
            cols,
        )
    }
}

/// A fleet whose positions carry no hit has a zero hit count.
pub proof fn lemma_total_ship_hits_zero(ships: Seq<Ship>, shots: Seq<Shot>, cols: int)
    requires
        forall|i: int, k: int|
            0 <= i < ships.len() && 0 <= k < (#[trigger] ships[i]).positions@.len()
                ==> shots[pidx(#[trigger] ships[i].positions@[k], cols)] != Shot::Hit,
    ensures
        total_ship_hits(ships, shots, cols) == 0,
    decreases ships.len(),
{
    if ships.len() > 0 {
        assert(forall|i: int| 0 <= i < ships.len() - 1 ==> ships.drop_last()[i] == ships[i]);
        lemma_total_ship_hits_zero(ships.drop_last(), shots, cols);
        let pos = ships.last().positions@;
        assert(ships[ships.len() - 1] == ships.last());
        assert(forall|k: int| 0 <= k < pos.len() ==> shots[pidx(#[trigger] pos[k], cols)]
            != Shot::Hit);
        lemma_ship_hits_zero(pos, shots, cols);
    }
}

/// A set of positions none of which carries a hit counts zero hits.
pub proof fn lemma_ship_hits_zero(pos: Seq<(usize, usize)>, shots: Seq<Shot>, cols: int)
    requires
        forall|k: int| 0 <= k < pos.len() ==> shots[pidx(#[trigger] pos[k], cols)] != Shot::Hit,
    ensures
        ship_hits(pos, shots, cols) == 0,
    decreases pos.len(),
{
    if pos.len() > 0 {
        assert(forall|k: int| 0 <= k < pos.len() - 1 ==> pos.drop_last()[k] == pos[k]);
        lemma_ship_hits_zero(pos.drop_last(), shots, cols);
    }
}

/// The fleet's hit count depends only on the ships' positions, not on their
/// names, lengths or sunk flags.
pub proof fn lemma_total_ship_hits_same_positions(
    ships1: Seq<Ship>,
    ships2: Seq<Ship>,
    shots: Seq<Shot>,
    cols: int,
)
    requires
        ships1.len() == ships2.len(),
        forall|i: int|
            0 <= i < ships1.len() ==> (#[trigger] ships1[i]).positions@ == (
            #[trigger] ships2[i]).positions@,
    ensures
        total_ship_hits(ships1, shots, cols) == total_ship_hits(ships2, shots, cols),
    decreases ships1.len(),
{
    if ships1.len() > 0 {
        assert(forall|i: int| 0 <= i < ships1.len() - 1 ==> ships1.drop_last()[i] == ships1[i]);
        assert(forall|i: int| 0 <= i < ships2.len() - 1 ==> ships2.drop_last()[i] == ships2[i]);
        lemma_total_ship_hits_same_positions(ships1.drop_last(), ships2.drop_last(), shots, cols);
        assert(ships1[ships1.len() - 1] == ships1.last());
        assert(ships2[ships2.len() - 1] == ships2.last());
    }
}

/// Marking a hit at a flat index held exactly once, by exactly one ship, and
/// not a hit before, raises the fleet's hit count by one.
pub proof fn lemma_total_ship_hits_update_hit(
    ships: Seq<Ship>,
    shots: Seq<Shot>,
    cols: int,
    i0: int,
    k0: int,
)
    requires
        0 <= i0 < ships.len(),
        0 <= k0 < ships[i0].positions@.len(),
        forall|i: int, k1: int, k2: int|
            0 <= i < ships.len() && 0 <= k1 < k2 < (#[trigger] ships[i]).positions@.len()
                ==> pidx(#[trigger] ships[i].positions@[k1], cols) != pidx(
                #[trigger] ships[i].positions@[k2],
                cols,
            ),
        forall|i: int, k: int|
            0 <= i < ships.len() && i != i0 && 0 <= k < (#[trigger] ships[i]).positions@.len()
                ==> pidx(#[trigger] ships[i].positions@[k], cols) != pidx(
                ships[i0].positions@[k0],
                cols,
            ),
        forall|i: int, k: int|
            0 <= i < ships.len() && 0 <= k < (#[trigger] ships[i]).positions@.len() ==> 0 <= pidx(
                #[trigger] ships[i].positions@[k],
                cols,
            ) < shots.len(),
        shots[pidx(ships[i0].positions@[k0], cols)] != Shot::Hit,
    ensures
        total_ship_hits(ships, shots.update(pidx(ships[i0].positions@[k0], cols), Shot::Hit), cols)
            == total_ship_hits(ships, shots, cols) + 1,
    decreases ships.len(),
{
    let j = pidx(ships[i0].positions@[k0], cols);
    let shots2 = shots.update(j, Shot::Hit);
    assert(ships.len() > 0);
    assert(forall|i: int| 0 <= i < ships.len() - 1 ==> ships.drop_last()[i] == ships[i]);
    assert(ships[ships.len() - 1] == ships.last());
    let lastpos = ships.last().positions@;
    if i0 == ships.len() - 1 {
        lemma_total_ship_hits_zero_change(ships.drop_last(), shots, shots2, cols, j);
        lemma_ship_hits_update_hit(lastpos, shots, cols, k0);
    } else {
        lemma_total_ship_hits_update_hit(ships.drop_last(), shots, cols, i0, k0);
        assert(forall|k: int| 0 <= k < lastpos.len() ==> pidx(#[trigger] lastpos[k], cols) != j);
        assert(forall|k: int|
            0 <= k < lastpos.len() ==> shots2[pidx(#[trigger] lastpos[k], cols)] == shots[pidx(
                lastpos[k],
                cols,
            )]);
        lemma_ship_hits_frame(lastpos, shots, shots2, cols);
    }
}

/// A fleet none of whose positions maps to the changed flat index keeps its
/// hit count when the shot grid changes there alone.
pub proof fn lemma_total_ship_hits_zero_change(
    ships: Seq<Ship>,
    shots1: Seq<Shot>,
    shots2: Seq<Shot>,
    cols: int,
    j: int,
)
    requires
        forall|q: int| 0 <= q < shots1.len() && q != j ==> shots2[q] == shots1[q],
        shots2.len() == shots1.len(),
        forall|i: int, k: int|
            0 <= i < ships.len() && 0 <= k < (#[trigger] ships[i]).positions@.len() ==> {
                let q = pidx(#[trigger] ships[i].positions@[k], cols);
                0 <= q < shots1.len() && q != j
            },
    ensures
        total_ship_hits(ships, shots1, cols) == total_ship_hits(ships, shots2, cols),
    decreases ships.len(),
{
    if ships.len() > 0 {
        assert(forall|i: int| 0 <= i < ships.len() - 1 ==> ships.drop_last()[i] == ships[i]);
        lemma_total_ship_hits_zero_change(ships.drop_last(), shots1, shots2, cols, j);
        assert(ships[ships.len() - 1] == ships.last());
        let lastpos = ships.last().positions@;
        assert(forall|k: int|
            0 <= k < lastpos.len() ==> shots2[pidx(#[trigger] lastpos[k], cols)] == shots1[pidx(
                lastpos[k],
                cols,
            )]);
        lemma_ship_hits_frame(lastpos, shots1, shots2, cols);
    }
}

} // verus!
