//! A deal: the four hands, one per seat.
use vstd::prelude::*;

use super::card::{Direction, Suit, SUITS_DISPLAY_ORDER};
use super::hand::{hand_len, holding_len, holding_of, Hand};

verus! {

/// The four hands of a board.
#[derive(Clone, Debug, PartialEq, Eq, Default)]
pub struct Deal {
    pub north: Hand,
    pub east: Hand,
    pub south: Hand,
    pub west: Hand,
}

/// The hand `seat` holds.
pub open spec fn hand_at(d: Deal, seat: Direction) -> Hand {
    match seat {
        Direction::North => d.north,
        Direction::East => d.east,
        Direction::South => d.south,
        Direction::West => d.west,
    }
}

/// No hand of `d` holds a card.
pub open spec fn deal_is_empty(d: Deal) -> bool {
    hand_len(d.north) == 0 && hand_len(d.east) == 0 && hand_len(d.south) == 0 && hand_len(d.west)
        == 0
}

/// Some hand of `d` holds a card of `suit`.
pub open spec fn suit_present(d: Deal, suit: Suit) -> bool {
    holding_len(holding_of(d.north, suit)) > 0 || holding_len(holding_of(d.east, suit)) > 0
        || holding_len(holding_of(d.south, suit)) > 0 || holding_len(holding_of(d.west, suit)) > 0
}

/// The suits of `order` that some hand of `d` holds, in that order.
pub open spec fn present_suits(d: Deal, order: Seq<Suit>) -> Seq<Suit>
    decreases order.len(),
{
    if order.len() == 0 {
        seq![]
    } else {
        present_suits(d, order.drop_last()) + if suit_present(d, order.last()) {
            seq![order.last()]
        } else {
            seq![]
        }
    }
}

/// The suits some hand of `d` holds, in display order.
pub open spec fn suits_present_in(d: Deal) -> Seq<Suit> {
    present_suits(d, seq![Suit::Spades, Suit::Hearts, Suit::Diamonds, Suit::Clubs])
}

impl Deal {
    /// A deal of four empty hands.
    pub fn new() -> (d: Self)
        ensures
            deal_is_empty(d),
    {
        Deal { north: Hand::new(), east: Hand::new(), south: Hand::new(), west: Hand::new() }
    }

    /// The hand `seat` holds.
    pub fn hand(&self, seat: Direction) -> (h: &Hand)
        ensures
            *h == hand_at(*self, seat),
    {
        match seat {
            Direction::North => &self.north,
            Direction::East => &self.east,
            Direction::South => &self.south,
            Direction::West => &self.west,
        }
    }

    /// Give `seat` the hand `hand`.
    pub fn set_hand(&mut self, seat: Direction, hand: Hand)
        ensures
            *final(self) == (match seat {
                Direction::North => Deal { north: hand, ..*old(self) },
                Direction::East => Deal { east: hand, ..*old(self) },
                Direction::South => Deal { south: hand, ..*old(self) },
                Direction::West => Deal { west: hand, ..*old(self) },
            }),
    {
        match seat {
            Direction::North => self.north = hand,
            Direction::East => self.east = hand,
            Direction::South => self.south = hand,
            Direction::West => self.west = hand,
        }
    }

    /// The suits some hand holds a card of, in display order; a deal
    /// missing a suit is a fragment.
    pub fn suits_present(&self) -> (r: Vec<Suit>)
        ensures
            r@ == suits_present_in(*self),
    {
        let mut r: Vec<Suit> = Vec::new();
        let ghost order = seq![Suit::Spades, Suit::Hearts, Suit::Diamonds, Suit::Clubs];
        let mut i: usize = 0;
        assert(SUITS_DISPLAY_ORDER@ =~= order);
        assert(order.take(0) =~= Seq::<Suit>::empty());
        while i < 4
            invariant
                i <= 4,
                order == seq![Suit::Spades, Suit::Hearts, Suit::Diamonds, Suit::Clubs],
                SUITS_DISPLAY_ORDER@ == order,
                r@ == present_suits(*self, order.take(i as int)),
            decreases 4 - i,
        {
            let suit = SUITS_DISPLAY_ORDER[i];
            assert(order.take(i + 1).drop_last() =~= order.take(i as int));
            let present = !self.north.holding(suit).is_empty() || !self.east.holding(suit).is_empty()
                || !self.south.holding(suit).is_empty() || !self.west.holding(suit).is_empty();
            let ghost before = r@;
            if present {
                r.push(suit);
            }
            assert(order.take(i + 1).last() == suit);
            assert(r@ =~= present_suits(*self, order.take(i + 1)));
            i += 1;
        }
        assert(order.take(4) =~= order);
        r
    }

    /// No hand holds a card.
    pub fn is_empty(&self) -> (b: bool)
        ensures
            b == deal_is_empty(*self),
    {
        hand_empty(&self.north) && hand_empty(&self.east) && hand_empty(&self.south) && hand_empty(
            &self.west,
        )
    }
}

fn hand_empty(h: &Hand) -> (b: bool)
    ensures
        b == (hand_len(*h) == 0),
{
    h.spades.is_empty() && h.hearts.is_empty() && h.diamonds.is_empty() && h.clubs.is_empty()
}

} // verus!
