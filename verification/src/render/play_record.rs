//! What a play record tabulates: which tricks, and for each trick its
//! number, its leader, and each card with whether it shows its suit and
//! whether it won.
use vstd::prelude::*;

use crate::model::auction::seat_index;
use crate::model::card::{Card, Direction};
use crate::model::play::{recorded_tricks, trick_played, PlaySequence, Trick};
use crate::num::{decimal, u64_decimal};
use crate::text::string_of;

verus! {

/// How many tricks a play record lists (see [`recorded_tricks`]).
pub fn play_rows(play: &PlaySequence) -> (n: usize)
    ensures
        n == recorded_tricks(play.tricks@),
{
    let mut n = play.tricks.len();
    assert(play.tricks@.take(n as int) =~= play.tricks@);
    while n > 0
        invariant
            n <= play.tricks@.len(),
            recorded_tricks(play.tricks@) == recorded_tricks(play.tricks@.take(n as int)),
        decreases n,
    {
        let ghost pre = play.tricks@.take(n as int);
        assert(pre.last() == play.tricks@[n - 1]);
        assert(pre.drop_last() =~= play.tricks@.take(n - 1));
        if play.tricks[n - 1].is_played() {
            return n;
        }
        n -= 1;
    }
    assert(play.tricks@.take(0) =~= Seq::<Trick>::empty());
    0
}

/// How many lines a play record takes: a heading and a line per trick, or
/// nothing when no trick is on record. (The count of tricks leaves room for
/// the heading in a `usize`.)
pub fn play_record_lines(play: &PlaySequence) -> (n: usize)
    requires
        play.tricks@.len() < usize::MAX,
    ensures
        n == if recorded_tricks(play.tricks@) == 0 {
            0
        } else {
            recorded_tricks(play.tricks@) + 1
        },
{
    let rows = play_rows(play);
    if rows == 0 {
        0
    } else {
        proof {
            lemma_recorded_within(play.tricks@);
        }
        rows + 1
    }
}

proof fn lemma_recorded_within(tricks: Seq<Trick>)
    ensures
        0 <= recorded_tricks(tricks) <= tricks.len(),
    decreases tricks.len(),
{
    if tricks.len() > 0 {
        lemma_recorded_within(tricks.drop_last());
    }
}

/// The place, counting from the lead, of the card that won the trick.
pub open spec fn winning_slot_of(t: Trick) -> Option<int> {
    match t.winner {
        Some(w) => Some((seat_index(w) + 4 - seat_index(t.leader)) % 4),
        None => None,
    }
}

fn index_of(d: Direction) -> (k: usize)
    ensures
        k == seat_index(d),
{
    match d {
        Direction::North => 0,
        Direction::East => 1,
        Direction::South => 2,
        Direction::West => 3,
    }
}

/// The place of the winning card (see [`winning_slot_of`]).
pub fn winning_slot(trick: &Trick) -> (r: Option<usize>)
    ensures
        match winning_slot_of(*trick) {
            Some(s) => r == Some(s as usize),
            None => r is None,
        },
{
    match trick.winner {
        Some(w) => Some((index_of(w) + 4 - index_of(trick.leader)) % 4),
        None => None,
    }
}

/// One entry of a trick's line.
#[derive(Clone, Copy, Debug, PartialEq, Eq)]
pub struct PlayCell {
    /// The card, or `None` for a `-`.
    pub card: Option<Card>,
    /// The card shows its suit: the lead always does, a later card only when
    /// it does not follow the suit led.
    pub with_suit: bool,
    /// The card won the trick, and is underlined.
    pub underlined: bool,
}

/// What a play record shows in place `slot` of a trick.
pub open spec fn play_cell_of(t: Trick, slot: int) -> PlayCell {
    PlayCell {
        card: t.cards@[slot],
        with_suit: t.cards@[slot] matches Some(c) && (slot == 0 || Some(c.suit) != t.lead_suit),
        underlined: winning_slot_of(t) == Some(slot),
    }
}

/// The four entries of a trick's line, from the lead (see [`play_cell_of`]).
pub fn trick_cells(trick: &Trick) -> (cells: Vec<PlayCell>)
    ensures
        cells@ == Seq::new(4, |s: int| play_cell_of(*trick, s)),
{
    let win = winning_slot(trick);
    let mut cells: Vec<PlayCell> = Vec::new();
    let mut slot: usize = 0;
    while slot < 4
        invariant
            slot <= 4,
            match winning_slot_of(*trick) {
                Some(s) => win == Some(s as usize),
                None => win is None,
            },
            cells@ == Seq::new(slot as nat, |s: int| play_cell_of(*trick, s)),
        decreases 4 - slot,
    {
        let card = trick.cards[slot];
        let with_suit = match card {
            Some(c) => slot == 0 || Some(c.suit) != trick.lead_suit,
            None => false,
        };
        let underlined = match win {
            Some(w) => w == slot,
            None => false,
        };
        proof {
            assert(winning_slot_of(*trick) matches Some(s) ==> 0 <= s < 4);
        }
        cells.push(PlayCell { card, with_suit, underlined });
        assert(cells@ =~= Seq::new((slot + 1) as nat, |s: int| play_cell_of(*trick, s)));
        slot += 1;
    }
    cells
}

/// A trick's number as its line starts, as in `1.`, for the trick at
/// position `i` from 0.
pub fn trick_number(i: u64) -> (s: String)
    requires
        i < u64::MAX,
    ensures
        s@ == decimal((i + 1) as nat) + seq!['.'],
{
    let mut v = u64_decimal(i + 1);
    v.push('.');
    string_of(&v)
}

} // verus!
