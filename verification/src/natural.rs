//! The natural order of names: numbers written in them count by their
//! value, so that "Site 2" comes before "Site 10".
//!
//! The order is the one of the `human-sort` crate, which is called for
//! every comparison.  Nothing is assumed of it but that it answers the
//! same for the same two names.

use crate::text::{has_short_numbers, short_numbers};
use vstd::prelude::*;

verus! {

/// How `human_sort::compare` ranks `a` against `b`: -1 where `a` comes
/// first, 0 where neither does, 1 where `b` comes first.
pub uninterp spec fn natural_order(a: Seq<char>, b: Seq<char>) -> int;

/// `human_sort::compare`.
///
/// Trusted: the answer depends on the two names alone.  The crate adds up
/// each number it reads in a `u32` and overflows on one of ten digits or
/// more, so such names are kept out.
#[verifier::external_body]
fn natural_rank(a: &str, b: &str) -> (r: i8)
    requires
        short_numbers(a@),
        short_numbers(b@),
    ensures
        r == natural_order(a@, b@),
        -1 <= r <= 1,
{
    match human_sort::compare(a, b) {
        std::cmp::Ordering::Less => -1,
        std::cmp::Ordering::Equal => 0,
        std::cmp::Ordering::Greater => 1,
    }
}

/// Whether `a` comes no later than `b` in the natural order.
pub open spec fn naturally_no_later(a: Seq<char>, b: Seq<char>) -> bool {
    natural_order(a, b) <= 0
}

/// Whether `a` comes no later than `b` in the natural order.
pub fn comes_no_later(a: &str, b: &str) -> (r: bool)
    requires
        short_numbers(a@),
        short_numbers(b@),
    ensures
        r == naturally_no_later(a@, b@),
{
    natural_rank(a, b) <= 0
}

/// How the natural order ranks `a` against `b`, where both can be
/// ranked: -1 where `a` comes first, 0 where neither does, 1 where `b`
/// comes first.  `None` where one of them holds a number of ten digits
/// or more.
pub fn compare(a: &str, b: &str) -> (r: Option<i8>)
    ensures
        r is Some <==> short_numbers(a@) && short_numbers(b@),
        r matches Some(rank) ==> rank == natural_order(a@, b@) && -1 <= rank <= 1,
{
    if has_short_numbers(a) && has_short_numbers(b) {
        Some(natural_rank(a, b))
    } else {
        None
    }
}

} // verus!
