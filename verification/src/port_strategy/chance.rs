//! What the ordering of ports asks of other crates: random numbers, a
//! greatest common divisor and a set of bits. Nothing in this file is
//! proved: each contract is taken on trust.
use crate::port_strategy::walk::is_gcd;
use gcd::Gcd;
use rand::seq::SliceRandom;
use rand::Rng;
use vstd::prelude::*;

verus! {

/// Makes `bit_set::BitSet` known as a type. What a set holds is told by
/// `bitset_members` alone.
#[verifier::external_type_specification]
#[verifier::external_body]
#[verifier::reject_recursive_types(B)]
pub struct ExBitSet<B>(bit_set::BitSet<B>);

/// The numbers that a `bit_set::BitSet` holds.
pub uninterp spec fn bitset_members(set: bit_set::BitSet) -> Set<nat>;

/// Calls `rand::Rng::random_range` on the generator of the current thread,
/// `rand::rng()`, with the half-open range `low..high`. Taken on trust: the
/// number drawn lies in the range. Which number it is stays open.
#[verifier::external_body]
pub(crate) fn random_in(low: u32, high: u32) -> (r: u32)
    requires
        low < high,
    ensures
        low <= r < high,
{
    rand::rng().random_range(low..high)
}

/// Calls `gcd::Gcd::gcd` on two `u32`. Taken on trust: the result is the
/// greatest common divisor of the two, and 0 where both are 0.
#[verifier::external_body]
pub(crate) fn gcd_of(a: u32, b: u32) -> (g: u32)
    ensures
        is_gcd(a as int, b as int, g as int),
{
    a.gcd(b)
}

/// Calls `rand::seq::SliceRandom::shuffle` on the ports, with the generator
/// of the current thread. Taken on trust: the ports are the same after the
/// call, each as often as before. Their order stays open.
#[verifier::external_body]
pub(crate) fn shuffle(ports: &mut Vec<u16>)
    ensures
        final(ports)@.to_multiset() == old(ports)@.to_multiset(),
{
    ports.shuffle(&mut rand::rng());
}

/// Calls `bit_set::BitSet::with_capacity`. Taken on trust: the new set holds
/// nothing.
#[verifier::external_body]
pub(crate) fn bitset_with_capacity(nbits: usize) -> (set: bit_set::BitSet)
    ensures
        bitset_members(set) == Set::<nat>::empty(),
{
    bit_set::BitSet::with_capacity(nbits)
}

/// Calls `bit_set::BitSet::insert`. Taken on trust: the set holds `value`
/// after the call and all that it held before, and the result says whether
/// `value` was new to it.
#[verifier::external_body]
pub(crate) fn bitset_insert(set: &mut bit_set::BitSet, value: usize) -> (fresh: bool)
    requires
        value < 0x1_0000,
    ensures
        fresh == !bitset_members(*old(set)).contains(value as nat),
        bitset_members(*final(set)) == bitset_members(*old(set)).insert(value as nat),
{
    set.insert(value)
}

} // verus!
