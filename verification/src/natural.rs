//! The order of names that counts digit runs by their value.

use vstd::prelude::*;
use core::cmp::Ordering;

verus! {

/// How one name stands to another.
#[derive(Clone, Copy, Debug, PartialEq, Eq, Structural)]
pub enum NaturalOrder {
    Less,
    Equal,
    Greater,
}

/// What `alphanumeric_sort::compare_str` answers for the texts `a` and `b`.
pub uninterp spec fn natural_order_of(a: Seq<char>, b: Seq<char>) -> NaturalOrder;

/// `alphanumeric_sort::compare_str`: the answer depends on the two texts
/// alone. Nothing more is claimed of it, not even that it is an order.
#[verifier::external_body]
pub(crate) fn natural_order(a: &str, b: &str) -> (r: NaturalOrder)
    ensures
        r == natural_order_of(a@, b@),
{
    match alphanumeric_sort::compare_str(a, b) {
        Ordering::Less => NaturalOrder::Less,
        Ordering::Equal => NaturalOrder::Equal,
        Ordering::Greater => NaturalOrder::Greater,
    }
}

/// `a` stands before `b`: the comparison says so, and does not say the same
/// of `b` and `a`. By this second test the relation is asymmetric whatever
/// the comparison answers.
pub open spec fn natural_before(a: Seq<char>, b: Seq<char>) -> bool {
    natural_order_of(a, b) == NaturalOrder::Less && natural_order_of(b, a) != NaturalOrder::Less
}

/// Whether `a` stands before `b` in the natural order.
pub fn is_natural_before(a: &str, b: &str) -> (r: bool)
    ensures
        r == natural_before(a@, b@),
{
    match natural_order(a, b) {
        NaturalOrder::Less => match natural_order(b, a) {
            NaturalOrder::Less => false,
            _ => true,
        },
        _ => false,
    }
}

} // verus!
