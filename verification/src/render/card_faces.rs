//! Which rendition of each card a declarer's plan draws: a fan shows every
//! card by its corner but the last, which shows whole; a dummy shows every
//! card of a suit as a band but the last, which shows whole.
use vstd::prelude::*;

use crate::model::card::{Rank, Strain, Suit};
use crate::model::hand::{holding_of, Hand};
use crate::render::layouts::{first_suit_for_trump, trump_first_suit};
use crate::render::suit_order::{fan_suit_order, rotated_order, suit_order_for};

verus! {

/// How much of a card is drawn.
#[derive(Clone, Copy, Debug, PartialEq, Eq, Structural, Hash)]
pub enum CardFace {
    /// The whole card.
    Full,
    /// The strip a dummy's overlapping cards leave showing.
    Band,
    /// The corner a fan's overlapping cards leave showing.
    Corner,
}

/// The cards a hand holds in `suit`, in the holding's order.
pub open spec fn suit_cards(hand: Hand, suit: Suit) -> Seq<(Suit, Rank)> {
    holding_of(hand, suit).ranks@.map_values(|r: Rank| (suit, r))
}

/// The cards of a hand, suit by suit in `order`.
pub open spec fn cards_in_order(hand: Hand, order: Seq<Suit>) -> Seq<(Suit, Rank)>
    decreases order.len(),
{
    if order.len() == 0 {
        seq![]
    } else {
        cards_in_order(hand, order.drop_last()) + suit_cards(hand, order.last())
    }
}

/// `cards` with a face each: `last` for the last card, `rest` for the others.
pub open spec fn with_faces(cards: Seq<(Suit, Rank)>, last: CardFace, rest: CardFace) -> Seq<
    (Suit, Rank, CardFace),
> {
    Seq::new(
        cards.len(),
        |i: int|
            (
                cards[i].0,
                cards[i].1,
                if i == cards.len() - 1 {
                    last
                } else {
                    rest
                },
            ),
    )
}

/// The renditions a fan of `hand` draws, its suits in `order`: every card by
/// its corner, the last one whole.
pub open spec fn fan_faces_of(hand: Hand, order: Seq<Suit>) -> Seq<(Suit, Rank, CardFace)> {
    with_faces(cards_in_order(hand, order), CardFace::Full, CardFace::Corner)
}

/// The renditions a dummy of `hand` draws, its suits in `order`: in each
/// suit every card as a band, the last one whole.
pub open spec fn dummy_faces_of(hand: Hand, order: Seq<Suit>) -> Seq<(Suit, Rank, CardFace)>
    decreases order.len(),
{
    if order.len() == 0 {
        seq![]
    } else {
        dummy_faces_of(hand, order.drop_last()) + with_faces(
            suit_cards(hand, order.last()),
            CardFace::Full,
            CardFace::Band,
        )
    }
}

proof fn lemma_with_faces_push(cards: Seq<(Suit, Rank)>, c: (Suit, Rank), f: CardFace)
    ensures
        with_faces(cards.push(c), f, f) == with_faces(cards, f, f).push((c.0, c.1, f)),
{
    assert(with_faces(cards.push(c), f, f) =~= with_faces(cards, f, f).push((c.0, c.1, f)));
}

/// Append the cards `hand` holds in `suit`, each with face `face`.
fn push_suit(hand: &Hand, suit: Suit, face: CardFace, out: &mut Vec<(Suit, Rank, CardFace)>)
    ensures
        final(out)@ == old(out)@ + with_faces(suit_cards(*hand, suit), face, face),
{
    let holding = hand.holding(suit);
    let ghost start = out@;
    let ghost cs = suit_cards(*hand, suit);
    let mut i: usize = 0;
    assert(cs.take(0) =~= Seq::<(Suit, Rank)>::empty());
    assert(with_faces(cs.take(0), face, face) =~= Seq::<(Suit, Rank, CardFace)>::empty());
    while i < holding.ranks.len()
        invariant
            i <= holding.ranks@.len(),
            *holding == holding_of(*hand, suit),
            cs == suit_cards(*hand, suit),
            cs.len() == holding.ranks@.len(),
            out@ == start + with_faces(cs.take(i as int), face, face),
        decreases holding.ranks.len() - i,
    {
        let r = holding.ranks[i];
        proof {
            assert(cs.take(i + 1) =~= cs.take(i as int).push((suit, r)));
            lemma_with_faces_push(cs.take(i as int), (suit, r), face);
        }
        out.push((suit, r, face));
        i += 1;
    }
    assert(cs.take(cs.len() as int) =~= cs);
}

/// The renditions a fan of `hand` draws (see [`fan_faces_of`]), its suits in
/// the fan's order from `first_suit`.
pub fn fan_faces(hand: &Hand, first_suit: Suit, alternate_colors: bool) -> (r: Vec<
    (Suit, Rank, CardFace),
>)
    ensures
        r@ == fan_faces_of(*hand, rotated_order(first_suit, alternate_colors)),
{
    let order = fan_suit_order(first_suit, alternate_colors);
    let mut cards: Vec<(Suit, Rank, CardFace)> = Vec::new();
    let mut k: usize = 0;
    assert(order@.take(0) =~= Seq::<Suit>::empty());
    assert(cards@ =~= with_faces(cards_in_order(*hand, order@.take(0)), CardFace::Corner, CardFace::Corner));
    while k < 4
        invariant
            k <= 4,
            order@.len() == 4,
            cards@ == with_faces(
                cards_in_order(*hand, order@.take(k as int)),
                CardFace::Corner,
                CardFace::Corner,
            ),
        decreases 4 - k,
    {
        let ghost before = cards_in_order(*hand, order@.take(k as int));
        push_suit(hand, order[k], CardFace::Corner, &mut cards);
        proof {
            assert(order@.take(k + 1).drop_last() =~= order@.take(k as int));
            let after = cards_in_order(*hand, order@.take(k + 1));
            assert(after == before + suit_cards(*hand, order@[k as int]));
            assert(with_faces(after, CardFace::Corner, CardFace::Corner) =~= with_faces(
                before,
                CardFace::Corner,
                CardFace::Corner,
            ) + with_faces(suit_cards(*hand, order@[k as int]), CardFace::Corner, CardFace::Corner));
        }
        k += 1;
    }
    assert(order@.take(4) =~= order@);
    let n = cards.len();
    if n > 0 {
        let (s, r, _) = cards[n - 1];
        cards.set(n - 1, (s, r, CardFace::Full));
    }
    assert(cards@ =~= fan_faces_of(*hand, rotated_order(first_suit, alternate_colors)));
    cards
}

/// The renditions a dummy of `hand` draws (see [`dummy_faces_of`]), its
/// suits in order from `first_suit`.
pub fn dummy_faces(hand: &Hand, first_suit: Suit, alternate_colors: bool) -> (r: Vec<
    (Suit, Rank, CardFace),
>)
    ensures
        r@ == dummy_faces_of(*hand, rotated_order(first_suit, alternate_colors)),
{
    let order = suit_order_for(first_suit, alternate_colors);
    let mut out: Vec<(Suit, Rank, CardFace)> = Vec::new();
    let mut k: usize = 0;
    assert(order@.take(0) =~= Seq::<Suit>::empty());
    while k < 4
        invariant
            k <= 4,
            order@.len() == 4,
            out@ == dummy_faces_of(*hand, order@.take(k as int)),
        decreases 4 - k,
    {
        let ghost before = out@;
        let suit = order[k];
        let mut faces: Vec<(Suit, Rank, CardFace)> = Vec::new();
        push_suit(hand, suit, CardFace::Band, &mut faces);
        let n = faces.len();
        if n > 0 {
            let (s, r, _) = faces[n - 1];
            faces.set(n - 1, (s, r, CardFace::Full));
        }
        assert(faces@ =~= with_faces(suit_cards(*hand, suit), CardFace::Full, CardFace::Band));
        let mut j: usize = 0;
        while j < faces.len()
            invariant
                j <= faces@.len(),
                out@ == before + faces@.take(j as int),
            decreases faces.len() - j,
        {
            out.push(faces[j]);
            assert(faces@.take(j + 1) =~= faces@.take(j as int).push(faces@[j as int]));
            j += 1;
        }
        assert(faces@.take(faces@.len() as int) =~= faces@);
        assert(order@.take(k + 1).drop_last() =~= order@.take(k as int));
        k += 1;
    }
    assert(order@.take(4) =~= order@);
    out
}

/// Every rendition a declarer's plan draws for a board: the dummy's, then
/// the declarer's fan, each laid out from the trump suit (clubs at notrump
/// or with no contract), colours alternating.
pub fn required_faces(dummy: &Hand, declarer: &Hand, trump: Option<Strain>) -> (r: Vec<
    (Suit, Rank, CardFace),
>)
    ensures
        r@ == dummy_faces_of(*dummy, rotated_order(trump_first_suit(trump), true))
            + fan_faces_of(*declarer, rotated_order(trump_first_suit(trump), true)),
{
    let first = first_suit_for_trump(trump);
    let mut faces = dummy_faces(dummy, first, true);
    let fan = fan_faces(declarer, first, true);
    let ghost start = faces@;
    let mut j: usize = 0;
    while j < fan.len()
        invariant
            j <= fan@.len(),
            faces@ == start + fan@.take(j as int),
        decreases fan.len() - j,
    {
        faces.push(fan[j]);
        assert(fan@.take(j + 1) =~= fan@.take(j as int).push(fan@[j as int]));
        j += 1;
    }
    assert(fan@.take(fan@.len() as int) =~= fan@);
    faces
}

} // verus!
