//! The order a dummy or a fan lays its suits out in.
use vstd::prelude::*;

use crate::model::card::Suit;

verus! {

/// Spades, hearts, clubs, diamonds: the colours alternate.
pub const ALTERNATING_SUIT_ORDER: [Suit; 4] = [Suit::Spades, Suit::Hearts, Suit::Clubs, Suit::Diamonds];

/// Spades, hearts, diamonds, clubs.
pub const STANDARD_SUIT_ORDER: [Suit; 4] = [Suit::Spades, Suit::Hearts, Suit::Diamonds, Suit::Clubs];

/// The base order, alternating colours or standard.
pub open spec fn base_order(alternate_colors: bool) -> Seq<Suit> {
    if alternate_colors {
        seq![Suit::Spades, Suit::Hearts, Suit::Clubs, Suit::Diamonds]
    } else {
        seq![Suit::Spades, Suit::Hearts, Suit::Diamonds, Suit::Clubs]
    }
}

/// The base order turned so that `first_suit` leads: the suit at position
/// `(k + i) % 4` comes `i`th, where `k` is where `first_suit` stands.
pub open spec fn rotated_order(first_suit: Suit, alternate_colors: bool) -> Seq<Suit> {
    let b = base_order(alternate_colors);
    let k = choose|k: int| 0 <= k < 4 && b[k] == first_suit;
    Seq::new(4, |i: int| b[(k + i) % 4])
}

fn position_in(order: &[Suit; 4], s: Suit) -> (k: usize)
    requires
        exists|j: int| 0 <= j < 4 && order@[j] == s,
    ensures
        k < 4,
        order@[k as int] == s,
        forall|j: int| 0 <= j < k ==> order@[j] != s,
{
    let mut k: usize = 0;
    while k < 4
        invariant
            k <= 4,
            exists|j: int| k <= j < 4 && order@[j] == s,
            forall|j: int| 0 <= j < k ==> order@[j] != s,
        decreases 4 - k,
    {
        if order[k] == s {
            return k;
        }
        k += 1;
    }
    k
}

/// The suits, `first_suit` leading and the rest following in the base
/// order (see [`rotated_order`]).
pub fn suit_order_for(first_suit: Suit, alternate_colors: bool) -> (r: [Suit; 4])
    ensures
        r@ == rotated_order(first_suit, alternate_colors),
        r@[0] == first_suit,
{
    let base = if alternate_colors {
        ALTERNATING_SUIT_ORDER
    } else {
        STANDARD_SUIT_ORDER
    };
    let ghost b = base_order(alternate_colors);
    assert(base@ =~= b);
    assert(match first_suit {
        Suit::Spades => b[0] == first_suit,
        Suit::Hearts => b[1] == first_suit,
        Suit::Diamonds => b[2] == first_suit || b[3] == first_suit,
        Suit::Clubs => b[2] == first_suit || b[3] == first_suit,
    });
    let start = position_in(&base, first_suit);
    let r = [base[start], base[(start + 1) % 4], base[(start + 2) % 4], base[(start + 3) % 4]];
    proof {
        let k = choose|k: int| 0 <= k < 4 && b[k] == first_suit;
        assert(b[0] != b[1] && b[0] != b[2] && b[0] != b[3] && b[1] != b[2] && b[1] != b[3] && b[2]
            != b[3]);
        assert(k == start);
        assert(r@ =~= rotated_order(first_suit, alternate_colors));
    }
    r
}

/// The order a fan lays its suits out in: the same turn of the base order.
pub fn fan_suit_order(first_suit: Suit, alternate_colors: bool) -> (r: [Suit; 4])
    ensures
        r@ == rotated_order(first_suit, alternate_colors),
        r@[0] == first_suit,
{
    suit_order_for(first_suit, alternate_colors)
}

/// A turned suit order still holds each of the four suits exactly once.
pub proof fn a_suit_order_holds_each_suit_once(first_suit: Suit, alternate_colors: bool)
    ensures
        rotated_order(first_suit, alternate_colors).len() == 4,
        forall|s: Suit| #[trigger] rotated_order(first_suit, alternate_colors).contains(s),
        forall|i: int, j: int|
            0 <= i < j < 4 ==> #[trigger] rotated_order(first_suit, alternate_colors)[i]
                != #[trigger] rotated_order(first_suit, alternate_colors)[j],
{
    let b = base_order(alternate_colors);
    assert(match first_suit {
        Suit::Spades => b[0] == first_suit,
        Suit::Hearts => b[1] == first_suit,
        Suit::Diamonds => b[2] == first_suit || b[3] == first_suit,
        Suit::Clubs => b[2] == first_suit || b[3] == first_suit,
    });
    let k = choose|k: int| 0 <= k < 4 && b[k] == first_suit;
    let r = rotated_order(first_suit, alternate_colors);
    assert(r[0] == b[k % 4] && r[1] == b[(k + 1) % 4] && r[2] == b[(k + 2) % 4] && r[3] == b[(k + 3) % 4]);
    assert forall|s: Suit| #[trigger] r.contains(s) by {
        let m = if s == b[0] {
            0int
        } else if s == b[1] {
            1
        } else if s == b[2] {
            2
        } else {
            3
        };
        assert(b[m] == s);
        let i = (m - k + 4) % 4;
        assert(r[i] == s);
    }
}

} // verus!
