//! The board and the move-validation core.
//!
//! The board holds a 4x4 grid of cells, the active law and the player's
//! position. A move is validated by exhaustive consistency checking over the
//! 65536-element hidden-state space: the destination bit must be forced to
//! equal the origin bit in every world consistent with current knowledge,
//! the updated knowledge must keep the count of known cells unchanged, and
//! no world outside the prior consistent set may masquerade, after the law
//! is applied, as consistent with the updated knowledge.

use vstd::prelude::*;

use crate::bits::{
    bit_index, bit_of, lemma_bit_and, lemma_bit_ones, lemma_bit_or, lemma_bit_zero,
    lemma_set_bit_other, lemma_set_bit_same, spec_move_bit, spec_set_bit,
};
use crate::law::Law;

verus! {

/// Represents a cell in the board.
#[derive(Copy, Clone, Debug, PartialEq, Eq, Structural)]
pub enum Cell {
    /// An indeterminate state.
    Unknown,
    /// The player.
    Player,
    /// A previous position of the player.
    ///
    /// This is intended to make visualization easier.
    Follower,
    /// An observable.
    ///
    /// This is either `true` or `false`.
    Val(bool),
}

/// The flat view of a grid: cell `b` is the cell of bit `b`.
pub open spec fn grid_of(cells: [[Cell; 4]; 4]) -> Seq<Cell> {
    Seq::new(16, |b: int| cells[b / 4][b % 4])
}

/// Whether one cell's knowledge admits the assignment `s`.
pub open spec fn cell_consistent(c: Cell, s: u16, b: u16) -> bool {
    match c {
        Cell::Val(a) => bit_of(s, b) == a,
        _ => true,
    }
}

/// Whether the assignment `s` is a consistent world: every known cell's bit
/// matches it.
pub open spec fn consistent(k: Seq<Cell>, s: u16) -> bool {
    forall|b: int| 0 <= b < 16 ==> cell_consistent(#[trigger] k[b], s, b as u16)
}

/// Whether no cell holds the player.
pub open spec fn no_player(k: Seq<Cell>) -> bool {
    forall|b: int| 0 <= b < 16 ==> !((#[trigger] k[b]) is Player)
}

/// The count of `Val` cells among the first `n` cells.
pub open spec fn count_val_to(k: Seq<Cell>, n: int) -> int
    decreases n,
{
    if n <= 0 {
        0
    } else {
        count_val_to(k, n - 1) + (if k[n - 1] is Val {
            1int
        } else {
            0int
        })
    }
}

/// The count of `Val` cells: the board's information.
pub open spec fn count_val(k: Seq<Cell>) -> int {
    count_val_to(k, 16)
}

/// The count of `Follower` cells among the first `n` cells.
pub open spec fn count_follower_to(k: Seq<Cell>, n: int) -> int
    decreases n,
{
    if n <= 0 {
        0
    } else {
        count_follower_to(k, n - 1) + (if k[n - 1] is Follower {
            1int
        } else {
            0int
        })
    }
}

/// The count of `Follower` cells.
pub open spec fn count_follower(k: Seq<Cell>) -> int {
    count_follower_to(k, 16)
}

/// The grid after the tentative move: the origin becomes a follower and the
/// destination becomes the player.
pub open spec fn tentative(k: Seq<Cell>, from_b: u16, to_b: u16) -> Seq<Cell> {
    k.update(from_b as int, Cell::Follower).update(to_b as int, Cell::Player)
}

/// Whether the law forces bit `b` to one in every consistent world.
pub open spec fn forced_true<L: Law>(l: L, k: Seq<Cell>, b: u16) -> bool {
    forall|s: u16| consistent(k, s) ==> bit_of(#[trigger] l.law(s), b)
}

/// Whether the law forces bit `b` to zero in every consistent world.
pub open spec fn forced_false<L: Law>(l: L, k: Seq<Cell>, b: u16) -> bool {
    forall|s: u16| consistent(k, s) ==> !bit_of(#[trigger] l.law(s), b)
}

/// One cell after the knowledge update, from whether its bit is forced to
/// one or to zero across the post-transformation consistent worlds.
pub open spec fn updated_cell(c: Cell, set_to_1: bool, set_to_0: bool) -> Cell {
    if set_to_1 && !set_to_0 {
        Cell::Val(true)
    } else if set_to_0 && !set_to_1 {
        Cell::Val(false)
    } else {
        match c {
            Cell::Val(_) => Cell::Unknown,
            _ => c,
        }
    }
}

/// The whole grid after the knowledge update.
pub open spec fn updated_grid<L: Law>(l: L, k: Seq<Cell>) -> Seq<Cell> {
    Seq::new(
        16,
        |b: int| updated_cell(k[b], forced_true(l, k, b as u16), forced_false(l, k, b as u16)),
    )
}

/// Whether the move's destination bit is forced, under the law, to equal the
/// origin bit in every consistent world.
pub open spec fn deterministic<L: Law>(l: L, k: Seq<Cell>, from_b: u16, to_b: u16) -> bool {
    forall|s: u16| consistent(k, s) ==> bit_of(s, from_b) == bit_of(#[trigger] l.law(s), to_b)
}

/// Whether the knowledge update is epistemically sound: no world outside the
/// prior consistent set reaches, through the law, a world consistent with
/// the updated knowledge.
pub open spec fn sound_update<L: Law>(l: L, prior: Seq<Cell>, next: Seq<Cell>) -> bool {
    forall|s: u16| !consistent(prior, s) ==> !consistent(next, #[trigger] l.law(s))
}

/// Bitwise AND of `l.law(w)` over the consistent worlds `w` below `n`.
pub open spec fn and_fold<L: Law>(l: L, k: Seq<Cell>, n: int) -> u16
    decreases n,
{
    if n <= 0 {
        0xFFFFu16
    } else if consistent(k, (n - 1) as u16) {
        and_fold(l, k, n - 1) & l.law((n - 1) as u16)
    } else {
        and_fold(l, k, n - 1)
    }
}

/// Bitwise OR of `l.law(w)` over the consistent worlds `w` below `n`.
pub open spec fn or_fold<L: Law>(l: L, k: Seq<Cell>, n: int) -> u16
    decreases n,
{
    if n <= 0 {
        0u16
    } else if consistent(k, (n - 1) as u16) {
        or_fold(l, k, n - 1) | l.law((n - 1) as u16)
    } else {
        or_fold(l, k, n - 1)
    }
}

/// A bit of the AND fold is set exactly when the law sets it in every
/// consistent world below the fold's bound.
proof fn lemma_and_fold_bit<L: Law>(l: L, k: Seq<Cell>, n: int, b: u16)
    requires
        0 <= n <= 65536,
        b < 16,
    ensures
        bit_of(and_fold(l, k, n), b) <==> (forall|w: u16|
            w < n && consistent(k, w) ==> bit_of(#[trigger] l.law(w), b)),
    decreases n,
{
    if n == 0 {
        lemma_bit_ones(b);
    } else {
        lemma_and_fold_bit(l, k, n - 1, b);
        let w0 = (n - 1) as u16;
        let prev = and_fold(l, k, n - 1);
        if consistent(k, w0) {
            lemma_bit_and(prev, l.law(w0), b);
            if bit_of(prev, b) && bit_of(l.law(w0), b) {
                assert forall|w: u16| w < n && consistent(k, w) implies bit_of(
                    #[trigger] l.law(w),
                    b,
                ) by {
                    if w < n - 1 {
                    } else {
                        assert(w == w0);
                    }
                }
            } else if !bit_of(prev, b) {
                if forall|w: u16| w < n && consistent(k, w) ==> bit_of(#[trigger] l.law(w), b) {
                    assert forall|w: u16| w < n - 1 && consistent(k, w) implies bit_of(
                        #[trigger] l.law(w),
                        b,
                    ) by {
                        assert(w < n);
                    }
                    assert(false);
                }
            } else {
                assert(w0 < n && consistent(k, w0) && !bit_of(l.law(w0), b));
            }
        } else {
            if bit_of(prev, b) {
                assert forall|w: u16| w < n && consistent(k, w) implies bit_of(
                    #[trigger] l.law(w),
                    b,
                ) by {
                    if w < n - 1 {
                    } else {
                        assert(w == w0);
                    }
                }
            } else {
                if forall|w: u16| w < n && consistent(k, w) ==> bit_of(#[trigger] l.law(w), b) {
                    assert forall|w: u16| w < n - 1 && consistent(k, w) implies bit_of(
                        #[trigger] l.law(w),
                        b,
                    ) by {
                        assert(w < n);
                    }
                    assert(false);
                }
            }
        }
    }
}

/// A bit of the OR fold is clear exactly when the law clears it in every
/// consistent world below the fold's bound.
proof fn lemma_or_fold_bit<L: Law>(l: L, k: Seq<Cell>, n: int, b: u16)
    requires
        0 <= n <= 65536,
        b < 16,
    ensures
        !bit_of(or_fold(l, k, n), b) <==> (forall|w: u16|
            w < n && consistent(k, w) ==> !bit_of(#[trigger] l.law(w), b)),
    decreases n,
{
    if n == 0 {
        lemma_bit_zero(b);
    } else {
        lemma_or_fold_bit(l, k, n - 1, b);
        let w0 = (n - 1) as u16;
        let prev = or_fold(l, k, n - 1);
        if consistent(k, w0) {
            lemma_bit_or(prev, l.law(w0), b);
            if !bit_of(prev, b) && !bit_of(l.law(w0), b) {
                assert forall|w: u16| w < n && consistent(k, w) implies !bit_of(
                    #[trigger] l.law(w),
                    b,
                ) by {
                    if w < n - 1 {
                    } else {
                        assert(w == w0);
                    }
                }
            } else if bit_of(prev, b) {
                if forall|w: u16| w < n && consistent(k, w) ==> !bit_of(#[trigger] l.law(w), b) {
                    assert forall|w: u16| w < n - 1 && consistent(k, w) implies !bit_of(
                        #[trigger] l.law(w),
                        b,
                    ) by {
                        assert(w < n);
                    }
                    assert(false);
                }
            } else {
                assert(w0 < n && consistent(k, w0) && bit_of(l.law(w0), b));
            }
        } else {
            if !bit_of(prev, b) {
                assert forall|w: u16| w < n && consistent(k, w) implies !bit_of(
                    #[trigger] l.law(w),
                    b,
                ) by {
                    if w < n - 1 {
                    } else {
                        assert(w == w0);
                    }
                }
            } else {
                if forall|w: u16| w < n && consistent(k, w) ==> !bit_of(#[trigger] l.law(w), b) {
                    assert forall|w: u16| w < n - 1 && consistent(k, w) implies !bit_of(
                        #[trigger] l.law(w),
                        b,
                    ) by {
                        assert(w < n);
                    }
                    assert(false);
                }
            }
        }
    }
}

/// Whether the attempted move is legal: the destination is not the immovable
/// origin, the player is alive, the destination bit is forced to carry the
/// origin bit in every consistent world, the knowledge update conserves the
/// amount of information, and the update is epistemically sound.
pub open spec fn move_allowed<L: Law>(b: Board<L>, pos: [usize; 2]) -> bool {
    let from_b = bit_index(b.player_pos);
    let to_b = bit_index(pos);
    let tk = tentative(b.grid(), from_b, to_b);
    &&& !(pos[0] == 0 && pos[1] == 0)
    &&& !no_player(b.grid())
    &&& deterministic(b.f, tk, from_b, to_b)
    &&& count_val(updated_grid(b.f, tk)) == count_val(b.grid())
    &&& sound_update(b.f, tk, updated_grid(b.f, tk))
}

/// The grid a legal move commits: the knowledge update applied to the
/// tentative grid.
pub open spec fn move_outcome<L: Law>(b: Board<L>, pos: [usize; 2]) -> Seq<Cell> {
    updated_grid(b.f, tentative(b.grid(), bit_index(b.player_pos), bit_index(pos)))
}

/// Represents the board of a game.
#[derive(Clone)]
pub struct Board<L: Law> {
    /// The current state of cells.
    pub cells: [[Cell; 4]; 4],
    /// The "laws of nature".
    pub f: L,
    /// The current player position.
    pub player_pos: [usize; 2],
}

/// The grid every board starts from: the player at the origin, everything
/// else unknown.
pub open spec fn initial_grid() -> Seq<Cell> {
    Seq::new(
        16,
        |b: int| if b == 0 {
            Cell::Player
        } else {
            Cell::Unknown
        },
    )
}

/// Writes one cell of a grid, addressed by position.
fn write_cell(cells: &mut [[Cell; 4]; 4], p: [usize; 2], c: Cell)
    requires
        p[0] < 4,
        p[1] < 4,
    ensures
        grid_of(*final(cells)) == grid_of(*old(cells)).update(bit_index(p) as int, c),
{
    let i: usize = p[1];
    let j: usize = p[0];
    let mut row: [Cell; 4] = cells[i];
    row[j] = c;
    cells[i] = row;
    proof {
        assert forall|b: int| 0 <= b < 16 implies grid_of(*cells)[b] == grid_of(*old(cells)).update(
            bit_index(p) as int,
            c,
        )[b] by {
            assert(b == 4 * (b / 4) + b % 4);
        }
        assert(grid_of(*cells) =~= grid_of(*old(cells)).update(bit_index(p) as int, c));
    }
}

impl<L: Law> Board<L> {
    /// The flat sequence of the board's cells.
    pub open spec fn grid(&self) -> Seq<Cell> {
        grid_of(self.cells)
    }

    /// Well-formedness: the player position names a grid cell.
    pub open spec fn wf(&self) -> bool {
        self.player_pos[0] < 4 && self.player_pos[1] < 4
    }

    /// Creates a new board with default initial configuration.
    ///
    /// One can modify this state to e.g. create observables.
    pub fn new(f: L) -> (r: Board<L>)
        ensures
            r.wf(),
            r.f == f,
            r.player_pos[0] == 0,
            r.player_pos[1] == 0,
            r.grid() == initial_grid(),
    {
        let cells: [[Cell; 4]; 4] = [
            [Cell::Player, Cell::Unknown, Cell::Unknown, Cell::Unknown],
            [Cell::Unknown, Cell::Unknown, Cell::Unknown, Cell::Unknown],
            [Cell::Unknown, Cell::Unknown, Cell::Unknown, Cell::Unknown],
            [Cell::Unknown, Cell::Unknown, Cell::Unknown, Cell::Unknown],
        ];
        let r = Board { cells, f, player_pos: [0, 0] };
        proof {
            assert(r.grid() =~= initial_grid());
        }
        r
    }

    /// Returns `true` if the player has reached the goal, `false` otherwise.
    pub fn has_won(&self) -> (r: bool)
        ensures
            r == (self.grid()[15] is Player),
    {
        match self.cells[3][3] {
            Cell::Player => true,
            _ => false,
        }
    }

    /// Returns `true` if the player is dead, `false` otherwise.
    pub fn has_lost(&self) -> (r: bool)
        ensures
            r == no_player(self.grid()),
    {
        let mut b: usize = 0;
        while b < 16
            invariant
                b <= 16,
                forall|c: int| 0 <= c < b ==> !((#[trigger] self.grid()[c]) is Player),
            decreases 16 - b,
        {
            let i: usize = b / 4;
            let j: usize = b % 4;
            match self.cells[i][j] {
                Cell::Player => {
                    proof {
                        assert(self.grid()[b as int] is Player);
                    }
                    return false;
                },
                _ => {},
            }
            b += 1;
        }
        true
    }

    /// Gets the amount of information in the board.
    pub fn information(&self) -> (r: u8)
        ensures
            r as int == count_val(self.grid()),
            r <= 16,
    {
        grid_information(&self.cells)
    }

    /// Performs a move.
    /// Returns `true` if it was valid, `false` otherwise.
    ///
    /// The move is computed on a copy of the grid and committed only when
    /// every validation stage passes: a rejected move leaves the board
    /// exactly as it was.
    #[verifier::loop_isolation(false)]
    pub fn mov(&mut self, pos: [usize; 2]) -> (r: bool)
        requires
            old(self).wf(),
            pos[0] < 4,
            pos[1] < 4,
        ensures
            r == move_allowed(*old(self), pos),
            !r ==> *final(self) == *old(self),
            r ==> final(self).grid() == move_outcome(*old(self), pos),
            r ==> final(self).player_pos == pos && final(self).f == old(self).f,
            r ==> count_val(final(self).grid()) == count_val(old(self).grid()),
            pos[0] == 0 && pos[1] == 0 ==> !r,
            no_player(old(self).grid()) ==> !r,
            final(self).wf(),
    {
        if pos[0] == 0 && pos[1] == 0 {
            return false;
        }
        if self.has_lost() {
            return false;
        }
        let ghost l = self.f;
        let ghost k = self.grid();
        let from: [usize; 2] = self.player_pos;
        let fb: u16 = (from[1] * 4 + from[0]) as u16;
        let tb: u16 = (pos[1] * 4 + pos[0]) as u16;
        let info0: u8 = self.information();

        let mut g: [[Cell; 4]; 4] = self.cells;
        write_cell(&mut g, from, Cell::Follower);
        write_cell(&mut g, pos, Cell::Player);
        let ghost tk = tentative(k, fb, tb);
        proof {
            assert(grid_of(g) == tk);
        }

        let mut filter1: u16 = 0xFFFF;
        let mut filter2: u16 = 0;
        let mut w: u32 = 0;
        while w < 65536
            invariant
                w <= 65536,
                filter1 == and_fold(l, tk, w as int),
                filter2 == or_fold(l, tk, w as int),
                forall|s: u16|
                    s < w && consistent(tk, s) ==> bit_of(s, fb) == bit_of(
                        #[trigger] l.law(s),
                        tb,
                    ),
            decreases 65536 - w,
        {
            let s: u16 = w as u16;
            if world_matches(&g, s) {
                let t: u16 = self.f.apply(s);
                let ob: bool = (s >> fb) & 1 == 1;
                let nb: bool = (t >> tb) & 1 == 1;
                if ob != nb {
                    proof {
                        assert(consistent(tk, s));
                        assert(bit_of(s, fb) != bit_of(l.law(s), tb));
                        assert(!deterministic(l, tk, fb, tb));
                    }
                    return false;
                }
                filter1 = filter1 & t;
                filter2 = filter2 | t;
            }
            proof {
                assert(((w as int + 1) - 1) as u16 == s);
            }
            w += 1;
        }
        proof {
            assert forall|s: u16| consistent(tk, s) implies bit_of(s, fb) == bit_of(
                #[trigger] l.law(s),
                tb,
            ) by {
                assert(s < 65536);
            }
            assert(deterministic(l, tk, fb, tb));
            assert forall|b2: u16| b2 < 16 implies bit_of(filter1, b2) == forced_true(
                l,
                tk,
                b2,
            ) by {
                lemma_and_fold_bit(l, tk, 65536, b2);
                if bit_of(filter1, b2) {
                    assert forall|s: u16| consistent(tk, s) implies bit_of(
                        #[trigger] l.law(s),
                        b2,
                    ) by {
                        assert(s < 65536);
                    }
                } else {
                    if forced_true(l, tk, b2) {
                        assert forall|s: u16| s < 65536 && consistent(tk, s) implies bit_of(
                            #[trigger] l.law(s),
                            b2,
                        ) by {}
                        assert(false);
                    }
                }
            }
            assert forall|b2: u16| b2 < 16 implies (!bit_of(filter2, b2)) == forced_false(
                l,
                tk,
                b2,
            ) by {
                lemma_or_fold_bit(l, tk, 65536, b2);
                if !bit_of(filter2, b2) {
                    assert forall|s: u16| consistent(tk, s) implies !bit_of(
                        #[trigger] l.law(s),
                        b2,
                    ) by {
                        assert(s < 65536);
                    }
                } else {
                    if forced_false(l, tk, b2) {
                        assert forall|s: u16| s < 65536 && consistent(tk, s) implies !bit_of(
                            #[trigger] l.law(s),
                            b2,
                        ) by {}
                        assert(false);
                    }
                }
            }
            assert(forall|x: u16, c: u16| ((x >> c) & 1 == 0) <==> !((x >> c) & 1 == 1))
                by (bit_vector);
        }

        let mut ng: [[Cell; 4]; 4] = g;
        let mut b: usize = 0;
        while b < 16
            invariant
                b <= 16,
                forall|c: int| 0 <= c < b ==> grid_of(ng)[c] == updated_grid(l, tk)[c],
                forall|c: int| b <= c < 16 ==> grid_of(ng)[c] == tk[c],
            decreases 16 - b,
        {
            let set1: bool = (filter1 >> (b as u16)) & 1 == 1;
            let set0: bool = (filter2 >> (b as u16)) & 1 == 0;
            let i: usize = b / 4;
            let j: usize = b % 4;
            let c0: Cell = ng[i][j];
            proof {
                assert(grid_of(ng)[b as int] == ng[b as int / 4][b as int % 4]);
                assert(c0 == tk[b as int]);
                assert(set1 == bit_of(filter1, b as u16));
                assert(set0 == !bit_of(filter2, b as u16));
                assert(set1 == forced_true(l, tk, b as u16));
                assert(set0 == forced_false(l, tk, b as u16));
                assert(updated_grid(l, tk)[b as int] == updated_cell(
                    tk[b as int],
                    forced_true(l, tk, b as u16),
                    forced_false(l, tk, b as u16),
                ));
            }
            let c1: Cell = if set1 && !set0 {
                Cell::Val(true)
            } else if set0 && !set1 {
                Cell::Val(false)
            } else {
                match c0 {
                    Cell::Val(_) => Cell::Unknown,
                    _ => c0,
                }
            };
            write_cell_flat(&mut ng, b, c1);
            b += 1;
        }
        let ghost nk = updated_grid(l, tk);
        proof {
            assert(grid_of(ng) =~= nk);
        }

        let new_info: u8 = grid_information(&ng);
        if new_info != info0 {
            return false;
        }

        let mut w2: u32 = 0;
        while w2 < 65536
            invariant
                w2 <= 65536,
                forall|s: u16|
                    s < w2 && !consistent(tk, s) ==> !consistent(nk, #[trigger] l.law(s)),
            decreases 65536 - w2,
        {
            let s2: u16 = w2 as u16;
            if !world_matches(&g, s2) {
                let t2: u16 = self.f.apply(s2);
                if world_matches(&ng, t2) {
                    proof {
                        assert(consistent(nk, l.law(s2)));
                        assert(!sound_update(l, tk, nk));
                    }
                    return false;
                }
            }
            w2 += 1;
        }
        proof {
            assert forall|s: u16| !consistent(tk, s) implies !consistent(
                nk,
                #[trigger] l.law(s),
            ) by {
                assert(s < 65536);
            }
            assert(sound_update(l, tk, nk));
        }

        self.cells = ng;
        self.player_pos = pos;
        proof {
            assert(move_allowed(*old(self), pos));
            assert(move_outcome(*old(self), pos) == nk);
        }
        true
    }

    /// Gets the amount of followers in the board.
    pub fn followers(&self) -> (r: u8)
        ensures
            r as int == count_follower(self.grid()),
            r <= 16,
    {
        let mut sum: u8 = 0;
        let mut b: usize = 0;
        while b < 16
            invariant
                b <= 16,
                sum <= b,
                sum as int == count_follower_to(self.grid(), b as int),
            decreases 16 - b,
        {
            let i: usize = b / 4;
            let j: usize = b % 4;
            match self.cells[i][j] {
                Cell::Follower => {
                    sum += 1;
                },
                _ => {},
            }
            b += 1;
        }
        sum
    }
}

/// Writes one cell of a grid, addressed by flat bit index.
fn write_cell_flat(cells: &mut [[Cell; 4]; 4], b: usize, c: Cell)
    requires
        b < 16,
    ensures
        grid_of(*final(cells)) == grid_of(*old(cells)).update(b as int, c),
{
    let i: usize = b / 4;
    let j: usize = b % 4;
    let mut row: [Cell; 4] = cells[i];
    row[j] = c;
    cells[i] = row;
    proof {
        assert forall|c2: int| 0 <= c2 < 16 implies grid_of(*cells)[c2] == grid_of(
            *old(cells),
        ).update(b as int, c)[c2] by {
            assert(c2 == 4 * (c2 / 4) + c2 % 4);
        }
        assert(grid_of(*cells) =~= grid_of(*old(cells)).update(b as int, c));
    }
}

/// Counts the `Val` cells of a grid.
fn grid_information(cells: &[[Cell; 4]; 4]) -> (r: u8)
    ensures
        r as int == count_val(grid_of(*cells)),
        r <= 16,
{
    let mut sum: u8 = 0;
    let mut b: usize = 0;
    while b < 16
        invariant
            b <= 16,
            sum <= b,
            sum as int == count_val_to(grid_of(*cells), b as int),
        decreases 16 - b,
    {
        let i: usize = b / 4;
        let j: usize = b % 4;
        match cells[i][j] {
            Cell::Val(_) => {
                sum += 1;
            },
            _ => {},
        }
        b += 1;
    }
    sum
}

/// Replacing a cell with one of the same `Val`-ness keeps the information
/// count.
proof fn lemma_count_val_update(k: Seq<Cell>, i: int, c: Cell, n: int)
    requires
        0 <= i < k.len(),
        n <= k.len(),
        (k[i] is Val) == (c is Val),
    ensures
        count_val_to(k.update(i, c), n) == count_val_to(k, n),
    decreases n,
{
    if n > 0 {
        lemma_count_val_update(k, i, c, n - 1);
    }
}

/// The canonical world of a grid: bit `b` is one exactly where cell `b` is
/// `Val(true)`.
spec fn canon_world_to(k: Seq<Cell>, n: int) -> u16
    decreases n,
{
    if n <= 0 {
        0u16
    } else {
        spec_set_bit((n - 1) as u16, k[n - 1] == Cell::Val(true), canon_world_to(k, n - 1))
    }
}

proof fn lemma_canon_world_bit(k: Seq<Cell>, n: int, c: u16)
    requires
        0 <= n <= 16,
        c < n,
    ensures
        bit_of(canon_world_to(k, n), c) == (k[c as int] == Cell::Val(true)),
    decreases n,
{
    let w0 = (n - 1) as u16;
    if c == w0 {
        lemma_set_bit_same(w0, k[n - 1] == Cell::Val(true), canon_world_to(k, n - 1));
    } else {
        lemma_canon_world_bit(k, n - 1, c);
        lemma_set_bit_other(w0, k[n - 1] == Cell::Val(true), canon_world_to(k, n - 1), c);
    }
}

/// The canonical world is consistent with its grid.
proof fn lemma_canon_world_consistent(k: Seq<Cell>)
    ensures
        consistent(k, canon_world_to(k, 16)),
{
    assert forall|b: int| 0 <= b < 16 implies cell_consistent(
        #[trigger] k[b],
        canon_world_to(k, 16),
        b as u16,
    ) by {
        lemma_canon_world_bit(k, 16, b as u16);
    }
}

/// Overwriting the bit of a cell that holds no `Val` keeps a world
/// consistent, and pins that bit.
proof fn lemma_flip_consistent(k: Seq<Cell>, s: u16, b: u16, v: bool)
    requires
        b < 16,
        consistent(k, s),
        !(k[b as int] is Val),
    ensures
        consistent(k, spec_set_bit(b, v, s)),
        bit_of(spec_set_bit(b, v, s), b) == v,
{
    lemma_set_bit_same(b, v, s);
    assert forall|c: int| 0 <= c < 16 implies cell_consistent(
        #[trigger] k[c],
        spec_set_bit(b, v, s),
        c as u16,
    ) by {
        if c != b as int {
            lemma_set_bit_other(b, v, s, c as u16);
        }
    }
}

/// Law of determinism for bit-copying physics: when the law copies the
/// player's bit onto `pos` and leaves every other bit unchanged, and the
/// destination cell is otherwise unconstrained, the move to `pos` is always
/// allowed, and it commits exactly the tentative grid: the origin becomes a
/// follower, the destination the player, and every other cell is untouched.
pub proof fn lemma_copy_law_move_allowed<L: Law>(b: Board<L>, pos: [usize; 2])
    requires
        b.wf(),
        pos[0] < 4,
        pos[1] < 4,
        !(pos[0] == 0 && pos[1] == 0),
        bit_index(pos) != bit_index(b.player_pos),
        forall|s: u16| #[trigger] b.f.law(s) == spec_move_bit(
            bit_index(b.player_pos),
            bit_index(pos),
            s,
        ),
        b.grid()[bit_index(b.player_pos) as int] is Player,
        !(b.grid()[bit_index(pos) as int] is Val),
    ensures
        move_allowed(b, pos),
        move_outcome(b, pos) == tentative(b.grid(), bit_index(b.player_pos), bit_index(pos)),
{
    let fb = bit_index(b.player_pos);
    let tb = bit_index(pos);
    let k = b.grid();
    let tk = tentative(k, fb, tb);
    assert(fb < 16 && tb < 16);
    assert(!no_player(k));
    assert forall|s: u16| consistent(tk, s) implies bit_of(s, fb) == bit_of(
        #[trigger] b.f.law(s),
        tb,
    ) by {
        lemma_set_bit_same(tb, bit_of(s, fb), s);
    }
    assert(deterministic(b.f, tk, fb, tb));
    let base = canon_world_to(tk, 16);
    lemma_canon_world_consistent(tk);
    assert forall|c: int| 0 <= c < 16 implies updated_grid(b.f, tk)[c] == tk[c] by {
        let cu = c as u16;
        if tk[c] is Val {
            let a = (tk[c] == Cell::Val(true));
            assert forall|s: u16| consistent(tk, s) implies bit_of(#[trigger] b.f.law(s), cu)
                == a by {
                assert(cell_consistent(tk[c], s, cu));
                lemma_set_bit_other(tb, bit_of(s, fb), s, cu);
            }
            assert(bit_of(b.f.law(base), cu) == a);
            if a {
                assert(forced_true(b.f, tk, cu));
                if forced_false(b.f, tk, cu) {
                    assert(!bit_of(b.f.law(base), cu));
                    assert(false);
                }
            } else {
                assert(forced_false(b.f, tk, cu));
                if forced_true(b.f, tk, cu) {
                    assert(bit_of(b.f.law(base), cu));
                    assert(false);
                }
            }
        } else {
            // flip either the origin bit (which feeds the destination) or
            // the cell's own bit to exhibit worlds that disagree at `c`
            let src = if c == tb as int {
                fb
            } else {
                cu
            };
            let s0 = spec_set_bit(src, false, base);
            let s1 = spec_set_bit(src, true, base);
            lemma_flip_consistent(tk, base, src, false);
            lemma_flip_consistent(tk, base, src, true);
            if c == tb as int {
                lemma_set_bit_same(tb, bit_of(s0, fb), s0);
                lemma_set_bit_same(tb, bit_of(s1, fb), s1);
            } else {
                lemma_set_bit_other(tb, bit_of(s0, fb), s0, cu);
                lemma_set_bit_other(tb, bit_of(s1, fb), s1, cu);
            }
            assert(!bit_of(b.f.law(s0), cu));
            assert(bit_of(b.f.law(s1), cu));
            if forced_true(b.f, tk, cu) {
                assert(bit_of(b.f.law(s0), cu));
                assert(false);
            }
            if forced_false(b.f, tk, cu) {
                assert(!bit_of(b.f.law(s1), cu));
                assert(false);
            }
        }
        assert(updated_grid(b.f, tk)[c] == updated_cell(
            tk[c],
            forced_true(b.f, tk, cu),
            forced_false(b.f, tk, cu),
        ));
    }
    assert(updated_grid(b.f, tk) =~= tk);
    let k1 = k.update(fb as int, Cell::Follower);
    lemma_count_val_update(k, fb as int, Cell::Follower, 16);
    lemma_count_val_update(k1, tb as int, Cell::Player, 16);
    assert forall|s2: u16| !consistent(tk, s2) implies !consistent(
        updated_grid(b.f, tk),
        #[trigger] b.f.law(s2),
    ) by {
        if forall|c: int| 0 <= c < 16 ==> cell_consistent(#[trigger] tk[c], s2, c as u16) {
            assert(consistent(tk, s2));
            assert(false);
        }
        let c0 = choose|c: int| !(0 <= c < 16 ==> cell_consistent(#[trigger] tk[c], s2, c as u16));
        assert(0 <= c0 < 16 && !cell_consistent(tk[c0], s2, c0 as u16));
        lemma_set_bit_other(tb, bit_of(s2, fb), s2, c0 as u16);
        assert(!cell_consistent(updated_grid(b.f, tk)[c0], b.f.law(s2), c0 as u16));
    }
    assert(sound_update(b.f, tk, updated_grid(b.f, tk)));
}

/// A destination whose post-transformation bit comes out the same in every
/// world can never be moved to: the origin cell never holds an observable,
/// so its bit stays free to disagree with the forced destination bit.
pub proof fn lemma_constant_destination_rejected<L: Law>(b: Board<L>, pos: [usize; 2], v: bool)
    requires
        b.wf(),
        pos[0] < 4,
        pos[1] < 4,
        forall|s: u16| bit_of(#[trigger] b.f.law(s), bit_index(pos)) == v,
    ensures
        !move_allowed(b, pos),
{
    let fb = bit_index(b.player_pos);
    let tb = bit_index(pos);
    let tk = tentative(b.grid(), fb, tb);
    assert(fb < 16 && tb < 16);
    let base = canon_world_to(tk, 16);
    lemma_canon_world_consistent(tk);
    assert(!(tk[fb as int] is Val));
    let s0 = spec_set_bit(fb, !v, base);
    lemma_flip_consistent(tk, base, fb, !v);
    assert(bit_of(s0, fb) == !v);
    assert(bit_of(b.f.law(s0), tb) == v);
    assert(!deterministic(b.f, tk, fb, tb));
}

/// Decides whether the assignment `s` is a consistent world of the grid.
fn world_matches(cells: &[[Cell; 4]; 4], s: u16) -> (r: bool)
    ensures
        r == consistent(grid_of(*cells), s),
{
    let mut b: usize = 0;
    while b < 16
        invariant
            b <= 16,
            forall|c: int| 0 <= c < b ==> cell_consistent(#[trigger] grid_of(*cells)[c], s, c as u16),
        decreases 16 - b,
    {
        let i: usize = b / 4;
        let j: usize = b % 4;
        match cells[i][j] {
            Cell::Val(a) => {
                let v: bool = (s >> (b as u16)) & 1 == 1;
                if v != a {
                    proof {
                        assert(!cell_consistent(grid_of(*cells)[b as int], s, b as u16));
                    }
                    return false;
                }
            },
            _ => {},
        }
        b += 1;
    }
    true
}

} // verus!
