//! The "laws of nature": pure, total, deterministic transformations of
//! hidden assignments, together with a catalog of concrete laws.
//!
//! A law is the physics of one puzzle instance. The move-validation core
//! treats it as an opaque callable; each implementor pairs the executable
//! transformation with its mathematical statement, so that the core's
//! contracts can quantify over what the law does to every hidden world.

use vstd::prelude::*;

use crate::bits::{
    bit_of, get_bit, move_bit, set_bit, spec_move_bit, spec_set_bit, spec_toggle_bit, toggle_bit,
};

verus! {

/// A pure, total, deterministic transformation of 16-bit hidden assignments.
pub trait Law: Sized {
    /// The mathematical content of the transformation.
    spec fn law(&self, s: u16) -> u16;

    /// Computes the transformation.
    fn apply(&self, s: u16) -> (r: u16)
        ensures
            r == self.law(s),
    ;
}

/// Copies the origin bit straight onto the goal bit.
#[derive(Clone, Copy)]
pub struct DirectWin;

impl Law for DirectWin {
    open spec fn law(&self, s: u16) -> u16 {
        spec_move_bit(0, 15, s)
    }

    fn apply(&self, s: u16) -> (r: u16) {
        let mut t: u16 = s;
        move_bit([0, 0], [3, 3], &mut t);
        t
    }
}

/// Carries bits down the main diagonal, one step per application.
#[derive(Clone, Copy)]
pub struct Diagonal;

impl Law for Diagonal {
    open spec fn law(&self, s: u16) -> u16 {
        spec_move_bit(0, 5, spec_move_bit(5, 10, spec_move_bit(10, 15, s)))
    }

    fn apply(&self, s: u16) -> (r: u16) {
        let mut t: u16 = s;
        move_bit([2, 2], [3, 3], &mut t);
        move_bit([1, 1], [2, 2], &mut t);
        move_bit([0, 0], [1, 1], &mut t);
        t
    }
}

/// Carries bits along a winding path from the start to the goal.
#[derive(Clone, Copy)]
pub struct Snake;

impl Law for Snake {
    open spec fn law(&self, s: u16) -> u16 {
        spec_move_bit(0, 1, spec_move_bit(1, 2, spec_move_bit(2, 3, spec_move_bit(3, 7,
        spec_move_bit(7, 6, spec_move_bit(6, 5, spec_move_bit(5, 4, spec_move_bit(4, 8,
        spec_move_bit(8, 9, spec_move_bit(9, 10, spec_move_bit(10, 11, spec_move_bit(11, 15,
        s))))))))))))
    }

    fn apply(&self, s: u16) -> (r: u16) {
        let mut t: u16 = s;
        move_bit([3, 2], [3, 3], &mut t);
        move_bit([2, 2], [3, 2], &mut t);
        move_bit([1, 2], [2, 2], &mut t);
        move_bit([0, 2], [1, 2], &mut t);
        move_bit([0, 1], [0, 2], &mut t);
        move_bit([1, 1], [0, 1], &mut t);
        move_bit([2, 1], [1, 1], &mut t);
        move_bit([3, 1], [2, 1], &mut t);
        move_bit([3, 0], [3, 1], &mut t);
        move_bit([2, 0], [3, 0], &mut t);
        move_bit([1, 0], [2, 0], &mut t);
        move_bit([0, 0], [1, 0], &mut t);
        t
    }
}

/// Copies the origin bit onto every other cell.
#[derive(Clone, Copy)]
pub struct Anywhere;

impl Law for Anywhere {
    open spec fn law(&self, s: u16) -> u16 {
        if bit_of(s, 0) {
            0xFFFFu16
        } else {
            0u16
        }
    }

    fn apply(&self, s: u16) -> (r: u16) {
        if get_bit([0, 0], s) {
            0xFFFF
        } else {
            0
        }
    }
}

/// Forces the bit beside the start, at `(1, 0)`, to one.
#[derive(Clone, Copy)]
pub struct ForceNeighborTrue;

impl Law for ForceNeighborTrue {
    open spec fn law(&self, s: u16) -> u16 {
        spec_set_bit(1, true, s)
    }

    fn apply(&self, s: u16) -> (r: u16) {
        let mut t: u16 = s;
        set_bit([1, 0], true, &mut t);
        t
    }
}

/// Forces the goal bit to zero.
#[derive(Clone, Copy)]
pub struct ForceGoalFalse;

impl Law for ForceGoalFalse {
    open spec fn law(&self, s: u16) -> u16 {
        spec_set_bit(15, false, s)
    }

    fn apply(&self, s: u16) -> (r: u16) {
        let mut t: u16 = s;
        set_bit([3, 3], false, &mut t);
        t
    }
}

/// Forces the bit at `(1, 0)` to one while also copying the origin bit onto
/// `(1, 1)`, so one real move exists that reveals the forced bit.
#[derive(Clone, Copy)]
pub struct RevealingStep;

impl Law for RevealingStep {
    open spec fn law(&self, s: u16) -> u16 {
        spec_move_bit(0, 5, spec_set_bit(1, true, s))
    }

    fn apply(&self, s: u16) -> (r: u16) {
        let mut t: u16 = s;
        set_bit([1, 0], true, &mut t);
        move_bit([0, 0], [1, 1], &mut t);
        t
    }
}

/// Lets the player reach either far corner, but only the top-right corner
/// goes on to the goal.
#[derive(Clone, Copy)]
pub struct FakeChoice;

impl Law for FakeChoice {
    open spec fn law(&self, s: u16) -> u16 {
        spec_move_bit(0, 12, spec_move_bit(0, 3, spec_move_bit(3, 15, s)))
    }

    fn apply(&self, s: u16) -> (r: u16) {
        let mut t: u16 = s;
        move_bit([3, 0], [3, 3], &mut t);
        move_bit([0, 0], [3, 0], &mut t);
        move_bit([0, 0], [0, 3], &mut t);
        t
    }
}

/// Lets the player reach either far corner, but gives no way on to the goal:
/// the corners' bits agree only in some hidden worlds.
#[derive(Clone, Copy)]
pub struct FakeChoice2;

impl Law for FakeChoice2 {
    open spec fn law(&self, s: u16) -> u16 {
        let t = if bit_of(s, 3) == bit_of(s, 12) {
            spec_move_bit(3, 15, s)
        } else {
            s
        };
        spec_move_bit(0, 12, spec_move_bit(0, 3, t))
    }

    fn apply(&self, s: u16) -> (r: u16) {
        let mut t: u16 = s;
        if get_bit([3, 0], t) == get_bit([0, 3], t) {
            move_bit([3, 0], [3, 3], &mut t);
        }
        move_bit([0, 0], [3, 0], &mut t);
        move_bit([0, 0], [0, 3], &mut t);
        t
    }
}

/// Shifts bits along a winding path while ticking a three-bit counter on the
/// bottom row.
#[derive(Clone, Copy)]
pub struct Clock;

impl Law for Clock {
    open spec fn law(&self, s: u16) -> u16 {
        let t = spec_move_bit(0, 1, spec_move_bit(1, 2, spec_move_bit(2, 3, spec_move_bit(
            3, 7, spec_move_bit(7, 6, spec_move_bit(6, 5, spec_move_bit(5, 4, spec_move_bit(
            4, 8, spec_move_bit(8, 9, spec_move_bit(9, 10, spec_move_bit(10, 11,
            spec_move_bit(11, 15, s))))))))))));
        let t2 = if bit_of(t, 12) {
            if bit_of(t, 13) {
                spec_toggle_bit(13, spec_toggle_bit(14, t))
            } else {
                spec_toggle_bit(13, t)
            }
        } else {
            t
        };
        spec_toggle_bit(12, t2)
    }

    fn apply(&self, s: u16) -> (r: u16) {
        let mut t: u16 = s;
        move_bit([3, 2], [3, 3], &mut t);
        move_bit([2, 2], [3, 2], &mut t);
        move_bit([1, 2], [2, 2], &mut t);
        move_bit([0, 2], [1, 2], &mut t);
        move_bit([0, 1], [0, 2], &mut t);
        move_bit([1, 1], [0, 1], &mut t);
        move_bit([2, 1], [1, 1], &mut t);
        move_bit([3, 1], [2, 1], &mut t);
        move_bit([3, 0], [3, 1], &mut t);
        move_bit([2, 0], [3, 0], &mut t);
        move_bit([1, 0], [2, 0], &mut t);
        move_bit([0, 0], [1, 0], &mut t);
        if get_bit([0, 3], t) {
            if get_bit([1, 3], t) {
                toggle_bit([2, 3], &mut t);
            }
            toggle_bit([1, 3], &mut t);
        }
        toggle_bit([0, 3], &mut t);
        t
    }
}

} // verus!
