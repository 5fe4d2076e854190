//! Tests of the engine's stated properties on concrete boards, and of the
//! bit helpers and example games.

use epistemic_maze::{
    clock, diagonal, get_bit, move_bit, set_bit, snake, snake_bits, swap_bits, toggle_bit,
    Anywhere, Board, Cell, Diagonal, DirectWin, RevealingStep,
};

#[test]
fn rejected_move_is_identity() {
    // The destination bit is forced to one with no regard for the origin, so
    // the move is illegal; the board must be bit-for-bit unchanged.
    let mut map = Board::new(epistemic_maze::ForceNeighborTrue);
    let before_cells = map.cells;
    let before_pos = map.player_pos;
    assert!(!map.mov([1, 1]));
    assert_eq!(map.cells, before_cells);
    assert_eq!(map.player_pos, before_pos);
}

#[test]
fn origin_is_immovable() {
    let mut map = Board::new(Anywhere);
    assert!(!map.mov([0, 0]));
    let mut map = Board::new(DirectWin);
    assert!(!map.mov([0, 0]));
}

#[test]
fn information_is_conserved_by_moves() {
    let mut map = Board::new(Diagonal);
    assert_eq!(map.information(), 0);
    assert!(map.mov([1, 1]));
    assert_eq!(map.information(), 0);
    assert!(map.mov([2, 2]));
    assert_eq!(map.information(), 0);

    let mut map = Board::new(RevealingStep);
    map.cells[1][1] = Cell::Val(false);
    let before = map.information();
    assert!(map.mov([1, 1]));
    assert_eq!(map.information(), before);
}

#[test]
fn reveal_after_seeded_move() {
    // Moving there directly never works: the destination bit ignores the
    // origin bit.
    let mut map = Board::new(RevealingStep);
    assert!(!map.mov([1, 0]));

    // Spending a seeded observable on the real move reveals the forced bit.
    let mut map = Board::new(RevealingStep);
    map.cells[1][1] = Cell::Val(false);
    assert!(map.mov([1, 1]));
    assert_eq!(map.cells[0][1], Cell::Val(true));

    // And the forced cell still never admits a move, again and again.
    assert!(!map.mov([1, 0]));
    assert!(!map.mov([1, 0]));
}

#[test]
fn loss_blocks_all_moves() {
    let mut map = Board::new(Anywhere);
    map.cells[0][0] = Cell::Unknown;
    assert!(map.has_lost());
    // The same move succeeds on a live board.
    assert!(!map.mov([2, 3]));
    assert!(map.has_lost());
    assert!(!map.has_won());
}

#[test]
fn followers_trail_grows() {
    let mut map = Board::new(Diagonal);
    assert_eq!(map.followers(), 0);
    assert!(map.mov([1, 1]));
    assert_eq!(map.followers(), 1);
    assert!(map.mov([2, 2]));
    assert_eq!(map.followers(), 2);
    assert_eq!(map.cells[0][0], Cell::Follower);
    assert_eq!(map.cells[1][1], Cell::Follower);
    assert_eq!(map.cells[2][2], Cell::Player);
}

#[test]
fn bit_helpers_exact_values() {
    let mut s: u16 = 0;
    set_bit([1, 0], true, &mut s);
    assert_eq!(s, 0b10);
    assert!(get_bit([1, 0], s));
    assert!(!get_bit([0, 0], s));
    move_bit([1, 0], [3, 3], &mut s);
    assert_eq!(s, 0b1000_0000_0000_0010);
    toggle_bit([1, 0], &mut s);
    assert_eq!(s, 0b1000_0000_0000_0000);
    swap_bits([3, 3], [0, 0], &mut s);
    assert_eq!(s, 1);

    let mut t: u16 = 0b1;
    snake_bits(&[[0, 0], [1, 0], [2, 0]], &mut t);
    assert_eq!(t, 0b11);

    let mut u: u16 = 0;
    snake_bits(&[], &mut u);
    assert_eq!(u, 0);
}

#[test]
fn diagonal_game_plays_to_the_goal() {
    let game = diagonal();
    assert_eq!(game.name, "Diagonal");
    let mut board = game.create_board();
    assert!(board.mov([1, 1]));
    assert!(board.mov([2, 2]));
    assert!(board.mov([3, 3]));
    assert!(board.has_won());
}

#[test]
fn snake_game_plays_to_the_goal() {
    let game = snake();
    assert_eq!(game.name, "Snake");
    let mut board = game.create_board();
    let path: [[usize; 2]; 12] = [
        [1, 0],
        [2, 0],
        [3, 0],
        [3, 1],
        [2, 1],
        [1, 1],
        [0, 1],
        [0, 2],
        [1, 2],
        [2, 2],
        [3, 2],
        [3, 3],
    ];
    for pos in path {
        assert!(board.mov(pos));
    }
    assert!(board.has_won());
}

#[test]
fn clock_game_seeds_observables() {
    let game = clock();
    assert_eq!(game.name, "Clock");
    let board = game.create_board();
    assert_eq!(board.cells[0][0], Cell::Player);
    assert_eq!(board.cells[3][0], Cell::Val(false));
    assert_eq!(board.cells[3][1], Cell::Val(false));
    assert_eq!(board.cells[3][2], Cell::Val(false));
    assert_eq!(board.information(), 3);
}

#[test]
fn clock_ticks_on_first_move() {
    let game = clock();
    let mut board = game.create_board();
    assert!(board.mov([1, 0]));
    // The three seeded cells act as a counter: the first tick flips the
    // lowest one to true and keeps the rest.
    assert_eq!(board.cells[3][0], Cell::Val(true));
    assert_eq!(board.cells[3][1], Cell::Val(false));
    assert_eq!(board.cells[3][2], Cell::Val(false));
    assert_eq!(board.information(), 3);
}
