use battleship::BattleshipGame;
use battleship::Cell;
use battleship::GameStats;
use battleship::Shot;

fn new_game(rows: usize, cols: usize) -> BattleshipGame {
    BattleshipGame::new(rows, cols).expect("the board holds the fleet")
}

fn all_ship_cells(g: &BattleshipGame) -> Vec<(usize, usize)> {
    let mut cells = Vec::new();
    for ship in &g.ships {
        for &(r, c) in &ship.positions {
            cells.push((r, c));
        }
    }
    cells
}

fn find_empty_cell(g: &BattleshipGame) -> (usize, usize) {
    for r in 0..g.rows {
        for c in 0..g.cols {
            if g.board[r * g.cols + c] == Cell::Empty {
                return (r, c);
            }
        }
    }
    panic!("a board larger than the fleet has an empty cell");
}

#[test]
fn placement_in_bounds_disjoint_and_nine_cells() {
    let g = new_game(8, 8);
    let cells = all_ship_cells(&g);
    assert_eq!(cells.len(), 9);
    for &(r, c) in &cells {
        assert!(r < 8 && c < 8);
    }
    for a in 0..cells.len() {
        for b in 0..cells.len() {
            if a != b {
                assert_ne!(cells[a], cells[b]);
            }
        }
    }
    // each ship's cells carry its index on the board
    for (i, ship) in g.ships.iter().enumerate() {
        for &(r, c) in &ship.positions {
            assert_eq!(g.board[r * g.cols + c], Cell::Ship(i));
        }
    }
}

#[test]
fn placement_follows_the_manifest() {
    let g = new_game(8, 8);
    assert_eq!(g.ships.len(), 3);
    assert_eq!(g.ships[0].name, "Destroyer");
    assert_eq!(g.ships[0].length, 2);
    assert_eq!(g.ships[1].name, "Cruiser");
    assert_eq!(g.ships[1].length, 3);
    assert_eq!(g.ships[2].name, "Battleship");
    assert_eq!(g.ships[2].length, 4);
    for ship in &g.ships {
        assert_eq!(ship.positions.len(), ship.length);
        assert!(!ship.sunk);
    }
}

#[test]
fn placement_ships_are_straight_lines() {
    let g = new_game(8, 8);
    for ship in &g.ships {
        let p = &ship.positions;
        let horizontal = p[0].0 == p[1].0;
        for k in 1..p.len() {
            if horizontal {
                assert_eq!(p[k].0, p[0].0);
                assert_eq!(p[k].1, p[0].1 + k);
            } else {
                assert_eq!(p[k].0, p[0].0 + k);
                assert_eq!(p[k].1, p[0].1);
            }
        }
    }
}

#[test]
fn initial_stats_on_8x8() {
    let g = new_game(8, 8);
    let stats = g.game_stats();
    let expected = GameStats { turns: 0, hits: 0, misses: 0, ships_left: 3, total_ships: 3 };
    assert_eq!(stats, expected);
    assert!(!g.game_over);
    assert!(!g.play_again);
    assert_eq!(g.message, "Game started!");
    for mark in &g.shots {
        assert_eq!(*mark, Shot::Untargeted);
    }
}

#[test]
fn shooting_a_targeted_cell_only_counts_a_turn() {
    let mut g = new_game(8, 8);
    g.shoot(3, 4);
    let shots_before = g.shots.clone();
    let message_before = g.message.clone();
    let stats_before = g.game_stats();
    g.shoot(3, 4);
    let stats_after = g.game_stats();
    assert_eq!(stats_after.turns, stats_before.turns + 1);
    assert_eq!(stats_after.hits, stats_before.hits);
    assert_eq!(stats_after.misses, stats_before.misses);
    assert_eq!(stats_after.ships_left, stats_before.ships_left);
    assert_eq!(g.shots, shots_before);
    assert_eq!(g.message, message_before);
}

#[test]
fn turn_counter_counts_every_call() {
    let mut g = new_game(8, 8);
    for _ in 0..5 {
        g.shoot(0, 0);
    }
    assert_eq!(g.game_stats().turns, 5);
}

#[test]
fn shooting_after_game_over_changes_nothing_but_turns() {
    let mut g = new_game(8, 8);
    for (r, c) in all_ship_cells(&g) {
        g.shoot(r, c);
    }
    assert!(g.game_over);
    let message_before = g.message.clone();
    let stats_before = g.game_stats();
    let (er, ec) = find_empty_cell(&g);
    g.shoot(er, ec);
    let stats_after = g.game_stats();
    assert_eq!(stats_after.turns, stats_before.turns + 1);
    assert_eq!(stats_after.hits, stats_before.hits);
    assert_eq!(stats_after.misses, stats_before.misses);
    assert_eq!(g.message, message_before);
    assert!(g.game_over);
}

#[test]
fn sunk_and_game_over_are_monotonic() {
    let mut g = new_game(5, 5);
    let mut sunk_seen = vec![false; g.ships.len()];
    let mut over_seen = false;
    for r in 0..5 {
        for c in 0..5 {
            g.shoot(r, c);
            for i in 0..g.ships.len() {
                if sunk_seen[i] {
                    assert!(g.ships[i].sunk);
                }
                sunk_seen[i] = g.ships[i].sunk;
            }
            if over_seen {
                assert!(g.game_over);
            }
            over_seen = g.game_over;
        }
    }
    assert!(g.game_over);
}

#[test]
fn game_over_iff_no_ships_left() {
    let mut g = new_game(6, 6);
    for r in 0..6 {
        for c in 0..6 {
            g.shoot(r, c);
            let stats = g.game_stats();
            assert_eq!(g.game_over, stats.ships_left == 0);
            assert_eq!(g.play_again, g.game_over);
        }
    }
}

#[test]
fn stats_stay_consistent_throughout_a_game() {
    let mut g = new_game(6, 6);
    for r in 0..6 {
        for c in 0..6 {
            g.shoot(r, c);
            let stats = g.game_stats();
            assert!(stats.hits + stats.misses <= 36);
            let mut fleet_hits = 0;
            for ship in &g.ships {
                for &(pr, pc) in &ship.positions {
                    if g.shots[pr * g.cols + pc] == Shot::Hit {
                        fleet_hits += 1;
                    }
                }
            }
            assert_eq!(stats.hits, fleet_hits);
        }
    }
}

#[test]
fn start_game_resets_everything() {
    let mut g = new_game(8, 8);
    g.shoot(0, 0);
    g.shoot(1, 1);
    let r = g.start_game(10, 6);
    assert!(r.is_ok());
    assert_eq!(g.rows, 10);
    assert_eq!(g.cols, 6);
    let stats = g.game_stats();
    assert_eq!(stats.turns, 0);
    assert_eq!(stats.hits, 0);
    assert_eq!(stats.misses, 0);
    assert_eq!(stats.ships_left, 3);
    assert_eq!(stats.total_ships, 3);
    assert_eq!(g.message, "Game started!");
    assert!(!g.game_over);
    assert!(!g.play_again);
}

#[test]
fn placement_fails_on_a_board_too_small_for_the_fleet() {
    assert!(BattleshipGame::new(1, 1).is_err());
}

#[test]
fn failed_restart_leaves_the_game_untouched() {
    let mut g = new_game(8, 8);
    g.shoot(2, 2);
    let shots_before = g.shots.clone();
    let message_before = g.message.clone();
    let turns_before = g.turns;
    let r = g.start_game(1, 1);
    assert!(r.is_err());
    assert_eq!(g.rows, 8);
    assert_eq!(g.cols, 8);
    assert_eq!(g.turns, turns_before);
    assert_eq!(g.shots, shots_before);
    assert_eq!(g.message, message_before);
}
