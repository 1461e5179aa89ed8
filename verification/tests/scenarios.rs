use battleship::BattleshipGame;
use battleship::Cell;
use battleship::Shot;

fn new_game(rows: usize, cols: usize) -> BattleshipGame {
    BattleshipGame::new(rows, cols).expect("the board holds the fleet")
}

#[test]
fn sinking_the_destroyer() {
    let mut g = new_game(8, 8);
    let targets = g.ships[0].positions.clone();
    assert_eq!(targets.len(), 2);
    for &(r, c) in &targets {
        g.shoot(r, c);
    }
    assert!(g.ships[0].sunk);
    assert_eq!(g.message, "You sunk the Destroyer!");
    let stats = g.game_stats();
    assert_eq!(stats.hits, 2);
    assert_eq!(stats.ships_left, 2);
    assert!(!g.game_over);
}

#[test]
fn sinking_the_whole_fleet_wins() {
    let mut g = new_game(8, 8);
    let mut targets = Vec::new();
    for ship in &g.ships {
        for &(r, c) in &ship.positions {
            targets.push((r, c));
        }
    }
    for &(r, c) in &targets {
        g.shoot(r, c);
    }
    assert!(g.game_over);
    assert!(g.play_again);
    assert_eq!(g.message, "Congratulations! You sunk all the ships!");
    let stats = g.game_stats();
    assert_eq!(stats.hits, 9);
    assert_eq!(stats.misses, 0);
    assert_eq!(stats.ships_left, 0);
    assert_eq!(stats.total_ships, 3);
    assert_eq!(stats.turns, 9);
}

#[test]
fn a_miss_marks_only_its_cell() {
    let mut g = new_game(8, 8);
    let mut empty = None;
    'outer: for r in 0..8 {
        for c in 0..8 {
            if g.board[r * 8 + c] == Cell::Empty {
                empty = Some((r, c));
                break 'outer;
            }
        }
    }
    let (r, c) = empty.expect("an 8x8 board has empty cells");
    let sunk_before: Vec<bool> = g.ships.iter().map(|s| s.sunk).collect();
    g.shoot(r, c);
    assert_eq!(g.shots[r * 8 + c], Shot::Miss);
    for q in 0..64 {
        if q != r * 8 + c {
            assert_eq!(g.shots[q], Shot::Untargeted);
        }
    }
    let stats = g.game_stats();
    assert_eq!(stats.misses, 1);
    assert_eq!(stats.hits, 0);
    let sunk_after: Vec<bool> = g.ships.iter().map(|s| s.sunk).collect();
    assert_eq!(sunk_before, sunk_after);
    assert_eq!(g.message, format!("Miss at ({}, {})!", r + 1, c + 1));
}

#[test]
fn a_hit_that_does_not_sink_reports_the_coordinates() {
    let mut g = new_game(8, 8);
    // the cruiser has three cells; one hit cannot sink it
    let (r, c) = g.ships[1].positions[0];
    g.shoot(r, c);
    assert_eq!(g.shots[r * 8 + c], Shot::Hit);
    assert!(!g.ships[1].sunk);
    assert_eq!(g.message, format!("Hit at ({}, {})!", r + 1, c + 1));
    let stats = g.game_stats();
    assert_eq!(stats.hits, 1);
    assert_eq!(stats.misses, 0);
    assert_eq!(stats.ships_left, 3);
}

#[test]
fn messages_render_two_digit_coordinates() {
    let mut g = new_game(20, 20);
    let mut target = None;
    'outer: for r in 9..20 {
        for c in 9..20 {
            if g.board[r * 20 + c] == Cell::Empty {
                target = Some((r, c));
                break 'outer;
            }
        }
    }
    let (r, c) = target.expect("the fleet cannot fill an 11x11 corner");
    g.shoot(r, c);
    assert_eq!(g.message, format!("Miss at ({}, {})!", r + 1, c + 1));
}

#[test]
fn the_last_sunk_ship_reports_victory_not_the_ship() {
    let mut g = new_game(8, 8);
    // sink ships in manifest order; the last shot ends the game
    for i in 0..3 {
        let targets = g.ships[i].positions.clone();
        for &(r, c) in &targets {
            g.shoot(r, c);
        }
        if i < 2 {
            assert_eq!(g.message, format!("You sunk the {}!", g.ships[i].name));
        }
    }
    assert_eq!(g.message, "Congratulations! You sunk all the ships!");
}
