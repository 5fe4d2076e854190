//! Scenario tests for the move-validation engine, one game per test.

use epistemic_maze::{
    Anywhere, Board, Cell, Diagonal, DirectWin, FakeChoice, FakeChoice2, ForceGoalFalse,
    ForceNeighborTrue,
};

#[test]
fn test_direct_win() {
    let mut map = Board::new(DirectWin);
    assert!(!map.has_won());
    assert!(!map.has_lost());

    assert!(map.mov([3, 3]));
    assert!(map.has_won());
}

#[test]
fn test_set_1_0_to_1() {
    let mut map = Board::new(ForceNeighborTrue);
    assert_eq!(map.cells[0][1], Cell::Unknown);

    assert!(!map.mov([1, 1]));
    // A rejected move commits nothing, so nothing is revealed.
    assert_eq!(map.cells[0][1], Cell::Unknown);
}

#[test]
fn test_diagonal() {
    let mut map = Board::new(Diagonal);
    assert!(map.mov([1, 1]));
    assert!(map.mov([2, 2]));
    assert!(map.mov([3, 3]));
    assert!(map.has_won());
}

#[test]
fn test_anywhere() {
    let mut map = Board::new(Anywhere);
    assert!(map.mov([2, 3]));
    // You have to try reach the goal immediately.
    assert!(!map.mov([3, 3]));
    assert!(!map.has_won());
}

#[test]
fn test_fake_choice() {
    let mut map = Board::new(FakeChoice);
    assert!(map.mov([3, 0]));
    assert!(map.mov([3, 3]));

    let mut map = Board::new(FakeChoice);
    assert!(map.mov([0, 3]));
    assert!(!map.mov([3, 3]));
}

#[test]
fn test_fake_choice2() {
    let mut map = Board::new(FakeChoice2);
    assert!(map.mov([3, 0]));
    assert!(!map.mov([3, 3]));

    let mut map = Board::new(FakeChoice2);
    assert!(map.mov([0, 3]));
    assert!(!map.mov([3, 3]));
}

#[test]
fn test_set_goal_to_zero() {
    let mut map = Board::new(ForceGoalFalse);
    assert!(!map.mov([3, 3]));
    // A rejected move commits nothing: the player survives in place.
    assert!(!map.has_lost());
}
