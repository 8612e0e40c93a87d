//! The play of a board: its tricks, each with its leader, the cards played
//! in turn from the leader, the suit led and who won it.
use vstd::prelude::*;

use super::card::{Card, Direction, Suit};

verus! {

/// One trick.
#[derive(Clone, Copy, Debug, PartialEq, Eq)]
pub struct Trick {
    /// Who led.
    pub leader: Direction,
    /// The cards in the order played, the lead first; `None` where the
    /// record gives no card.
    pub cards: [Option<Card>; 4],
    /// The suit led, when known.
    pub lead_suit: Option<Suit>,
    /// Who won the trick, when known.
    pub winner: Option<Direction>,
}

/// The play: its tricks in order.
#[derive(Clone, Debug)]
pub struct PlaySequence {
    pub tricks: Vec<Trick>,
}

/// A trick with at least one card on record.
pub open spec fn trick_played(t: Trick) -> bool {
    exists|s: int| 0 <= s < 4 && (#[trigger] t.cards@[s]) is Some
}

/// How many tricks, from the first, a play record lists: up to the last one
/// with a card on record. (A play section closes with `*`, and a trick may
/// hold nothing but placeholders, so the tail is often empty.)
pub open spec fn recorded_tricks(tricks: Seq<Trick>) -> int
    decreases tricks.len(),
{
    if tricks.len() == 0 {
        0
    } else if trick_played(tricks.last()) {
        tricks.len() as int
    } else {
        recorded_tricks(tricks.drop_last())
    }
}

/// The opening lead: the first card of the first trick, when on record.
pub open spec fn lead_of(play: Option<PlaySequence>) -> Option<Card> {
    match play {
        Some(p) => if p.tricks@.len() > 0 {
            p.tricks@[0].cards@[0]
        } else {
            None
        },
        None => None,
    }
}

impl Trick {
    /// Whether the trick has a card on record.
    pub fn is_played(&self) -> (b: bool)
        ensures
            b == trick_played(*self),
    {
        let mut s: usize = 0;
        while s < 4
            invariant
                s <= 4,
                forall|j: int| 0 <= j < s ==> (#[trigger] self.cards@[j]) is None,
            decreases 4 - s,
        {
            if self.cards[s].is_some() {
                return true;
            }
            s += 1;
        }
        false
    }
}

} // verus!
