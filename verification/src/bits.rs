//! Bit-level operations on 16-bit hidden assignments.
//!
//! A hidden assignment gives one boolean per grid cell; the bit for the cell
//! at position `[x, y]` sits at index `y * 4 + x`.

use vstd::prelude::*;

verus! {

/// Flat bit index of the grid position `[x, y]`.
pub open spec fn bit_index(p: [usize; 2]) -> u16
    recommends
        p[0] < 4,
        p[1] < 4,
{
    (p[1] * 4 + p[0]) as u16
}

/// Whether bit `b` of the assignment `s` is set.
pub open spec fn bit_of(s: u16, b: u16) -> bool {
    (s >> b) & 1 == 1
}

/// The assignment `s` with bit `b` set to `val`.
pub open spec fn spec_set_bit(b: u16, val: bool, s: u16) -> u16
    recommends
        b < 16,
{
    if val {
        s | (1u16 << b)
    } else {
        s & !(1u16 << b)
    }
}

/// The assignment `s` with bit `from_b` copied onto bit `to_b`.
pub open spec fn spec_move_bit(from_b: u16, to_b: u16, s: u16) -> u16
    recommends
        from_b < 16,
        to_b < 16,
{
    spec_set_bit(to_b, bit_of(s, from_b), s)
}

/// The assignment `s` with bit `b` flipped.
pub open spec fn spec_toggle_bit(b: u16, s: u16) -> u16
    recommends
        b < 16,
{
    spec_set_bit(b, !bit_of(s, b), s)
}

/// The assignment `s` with bits `a_b` and `b_b` exchanged.
pub open spec fn spec_swap_bits(a_b: u16, b_b: u16, s: u16) -> u16
    recommends
        a_b < 16,
        b_b < 16,
{
    spec_set_bit(b_b, bit_of(s, a_b), spec_set_bit(a_b, bit_of(s, b_b), s))
}

/// Chained bit copies: for each adjacent pair of positions, the earlier
/// position's bit is copied onto the later one, starting from the last pair.
pub open spec fn spec_snake_bits(ps: Seq<[usize; 2]>, s: u16) -> u16
    decreases ps.len(),
{
    if ps.len() <= 1 {
        s
    } else {
        spec_snake_bits(
            ps.drop_last(),
            spec_move_bit(bit_index(ps[ps.len() - 2]), bit_index(ps.last()), s),
        )
    }
}

/// Get bit from `u16` state.
pub fn get_bit(a: [usize; 2], s: u16) -> (r: bool)
    requires
        a[0] < 4,
        a[1] < 4,
    ensures
        r == bit_of(s, bit_index(a)),
{
    let b: u16 = (a[1] * 4 + a[0]) as u16;
    (s >> b) & 1 == 1
}

/// Set bit in `u16` state.
pub fn set_bit(a: [usize; 2], val: bool, s: &mut u16)
    requires
        a[0] < 4,
        a[1] < 4,
    ensures
        *final(s) == spec_set_bit(bit_index(a), val, *old(s)),
{
    let b: u16 = (a[1] * 4 + a[0]) as u16;
    if val {
        *s |= 1u16 << b;
    } else {
        *s &= !(1u16 << b);
    }
}

/// Copy bit from one location to another.
pub fn move_bit(from: [usize; 2], to: [usize; 2], s: &mut u16)
    requires
        from[0] < 4,
        from[1] < 4,
        to[0] < 4,
        to[1] < 4,
    ensures
        *final(s) == spec_move_bit(bit_index(from), bit_index(to), *old(s)),
{
    let v: bool = get_bit(from, *s);
    set_bit(to, v, s);
}

/// Toggles bit at some location.
pub fn toggle_bit(at: [usize; 2], s: &mut u16)
    requires
        at[0] < 4,
        at[1] < 4,
    ensures
        *final(s) == spec_toggle_bit(bit_index(at), *old(s)),
{
    let v: bool = get_bit(at, *s);
    set_bit(at, !v, s);
}

/// Swap bits from one location with another.
pub fn swap_bits(from: [usize; 2], to: [usize; 2], s: &mut u16)
    requires
        from[0] < 4,
        from[1] < 4,
        to[0] < 4,
        to[1] < 4,
    ensures
        *final(s) == spec_swap_bits(bit_index(from), bit_index(to), *old(s)),
{
    let a: bool = get_bit(from, *s);
    let b: bool = get_bit(to, *s);
    set_bit(from, b, s);
    set_bit(to, a, s);
}

/// Chain moves together.
pub fn snake_bits(ps: &[[usize; 2]], s: &mut u16)
    requires
        forall|k: int| 0 <= k < ps@.len() ==> (#[trigger] ps@[k])[0] < 4 && ps@[k][1] < 4,
    ensures
        *final(s) == spec_snake_bits(ps@, *old(s)),
{
    let ghost orig: u16 = *s;
    let mut i: usize = ps.len();
    proof {
        assert(ps@.take(i as int) =~= ps@);
    }
    while i > 1
        invariant
            i <= ps@.len(),
            forall|k: int| 0 <= k < ps@.len() ==> (#[trigger] ps@[k])[0] < 4 && ps@[k][1] < 4,
            spec_snake_bits(ps@, orig) == spec_snake_bits(ps@.take(i as int), *s),
        decreases i,
    {
        i -= 1;
        let ghost before: Seq<[usize; 2]> = ps@.take(i as int + 1);
        move_bit(ps[i - 1], ps[i], s);
        proof {
            assert(before.drop_last() =~= ps@.take(i as int));
            assert(before[before.len() - 2] == ps@[i as int - 1]);
            assert(before.last() == ps@[i as int]);
        }
    }
}

/// Bit `b` of a bitwise AND is the conjunction of the operands' bits.
pub proof fn lemma_bit_and(x: u16, y: u16, b: u16)
    by (bit_vector)
    ensures
        bit_of(x & y, b) == (bit_of(x, b) && bit_of(y, b)),
{
}

/// Bit `b` of a bitwise OR is the disjunction of the operands' bits.
pub proof fn lemma_bit_or(x: u16, y: u16, b: u16)
    by (bit_vector)
    ensures
        bit_of(x | y, b) == (bit_of(x, b) || bit_of(y, b)),
{
}

/// Every bit below 16 of the all-ones word is set.
pub proof fn lemma_bit_ones(b: u16)
    by (bit_vector)
    requires
        b < 16,
    ensures
        bit_of(0xFFFFu16, b),
{
}

/// No bit of zero is set.
pub proof fn lemma_bit_zero(b: u16)
    by (bit_vector)
    ensures
        !bit_of(0u16, b),
{
}

/// Setting a bit fixes exactly that bit.
pub proof fn lemma_set_bit_same(b: u16, val: bool, s: u16)
    by (bit_vector)
    requires
        b < 16,
    ensures
        bit_of(spec_set_bit(b, val, s), b) == val,
{
}

/// Setting a bit leaves every other bit unchanged.
pub proof fn lemma_set_bit_other(b: u16, val: bool, s: u16, c: u16)
    by (bit_vector)
    requires
        b < 16,
        c < 16,
        c != b,
    ensures
        bit_of(spec_set_bit(b, val, s), c) == bit_of(s, c),
{
}

} // verus!
