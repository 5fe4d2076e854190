//! Some example games.

use vstd::prelude::*;

use crate::board::{grid_of, initial_grid, Board, Cell};
use crate::bits::bit_index;
use crate::law::{Clock, Diagonal, Law, Snake};

verus! {

/// Represents a game.
pub struct Game<L: Law> {
    /// The name of the game.
    pub name: String,
    /// Laws of nature.
    pub f: L,
    /// Observables to pre-seed on a fresh board, as position and value.
    pub config: Vec<([usize; 2], bool)>,
}

/// A grid with the configured observables written over it, in order.
pub open spec fn seeded(k: Seq<Cell>, seeds: Seq<([usize; 2], bool)>) -> Seq<Cell>
    decreases seeds.len(),
{
    if seeds.len() == 0 {
        k
    } else {
        seeded(k, seeds.drop_last()).update(
            bit_index(seeds.last().0) as int,
            Cell::Val(seeds.last().1),
        )
    }
}

impl<L: Law + Copy> Game<L> {
    /// Creates a fresh board for this game, pre-seeding the configured
    /// observables before play starts.
    pub fn create_board(&self) -> (r: Board<L>)
        requires
            forall|i: int|
                0 <= i < self.config@.len() ==> (#[trigger] self.config@[i]).0[0] < 4
                    && self.config@[i].0[1] < 4,
        ensures
            r.wf(),
            r.f == self.f,
            r.player_pos[0] == 0,
            r.player_pos[1] == 0,
            r.grid() == seeded(initial_grid(), self.config@),
    {
        let mut board = Board::new(self.f);
        let mut i: usize = 0;
        proof {
            assert(self.config@.take(0) =~= Seq::<([usize; 2], bool)>::empty());
        }
        while i < self.config.len()
            invariant
                i <= self.config@.len(),
                forall|n: int|
                    0 <= n < self.config@.len() ==> (#[trigger] self.config@[n]).0[0] < 4
                        && self.config@[n].0[1] < 4,
                board.f == self.f,
                board.player_pos[0] == 0,
                board.player_pos[1] == 0,
                board.grid() == seeded(initial_grid(), self.config@.take(i as int)),
            decreases self.config@.len() - i,
        {
            let (p, v): ([usize; 2], bool) = self.config[i];
            let row: usize = p[1];
            let col: usize = p[0];
            let mut cells: [[Cell; 4]; 4] = board.cells;
            let mut line: [Cell; 4] = cells[row];
            line[col] = Cell::Val(v);
            cells[row] = line;
            board.cells = cells;
            proof {
                let pre = self.config@.take(i as int);
                let now = self.config@.take(i as int + 1);
                assert(now.drop_last() =~= pre);
                assert(now.last() == self.config@[i as int]);
                assert forall|c: int| 0 <= c < 16 implies grid_of(cells)[c] == seeded(
                    initial_grid(),
                    now,
                )[c] by {
                    assert(c == 4 * (c / 4) + c % 4);
                }
                assert(grid_of(cells) =~= seeded(initial_grid(), now));
            }
            i += 1;
        }
        proof {
            assert(self.config@.take(self.config@.len() as int) =~= self.config@);
        }
        board
    }
}

/// Move across the diagonal.
pub fn diagonal() -> (g: Game<Diagonal>)
    ensures
        g.name@ == "Diagonal"@,
        g.config@.len() == 0,
{
    Game { name: "Diagonal".to_string(), f: Diagonal, config: Vec::new() }
}

/// A snaky path from start to the goal.
pub fn snake() -> (g: Game<Snake>)
    ensures
        g.name@ == "Snake"@,
        g.config@.len() == 0,
{
    Game { name: "Snake".to_string(), f: Snake, config: Vec::new() }
}

/// Moving while a clock is ticking.
pub fn clock() -> (g: Game<Clock>)
    ensures
        g.name@ == "Clock"@,
        g.config@.len() == 3,
        g.config@[0] == ([0usize, 3usize], false),
        g.config@[1] == ([1usize, 3usize], false),
        g.config@[2] == ([2usize, 3usize], false),
{
    let mut config: Vec<([usize; 2], bool)> = Vec::new();
    config.push(([0, 3], false));
    config.push(([1, 3], false));
    config.push(([2, 3], false));
    Game { name: "Clock".to_string(), f: Clock, config }
}

} // verus!
