//! A hand as a page shows it: four suits, each in display order.
use vstd::prelude::*;

use super::card::{rank_display, rank_hcp, rank_value, Rank, Suit};

verus! {

/// The ranks of `s` whose value is `v`, in the order `s` holds them.
pub open spec fn ranks_valued(s: Seq<Rank>, v: int) -> Seq<Rank>
    decreases s.len(),
{
    if s.len() == 0 {
        seq![]
    } else {
        ranks_valued(s.drop_last(), v) + if rank_value(s.last()) == v {
            seq![s.last()]
        } else {
            seq![]
        }
    }
}

/// `s` regrouped by value from `v` down to the Two: every card of value `v`,
/// then every card of value `v - 1`, and so on.
pub open spec fn display_order_from(s: Seq<Rank>, v: int) -> Seq<Rank>
    decreases v,
{
    if v < 2 {
        seq![]
    } else {
        ranks_valued(s, v) + display_order_from(s, v - 1)
    }
}

/// `s` in display order: Aces first, Twos last, each rank as often as `s`
/// holds it.
pub open spec fn display_order(s: Seq<Rank>) -> Seq<Rank> {
    display_order_from(s, 14)
}

/// High-card points of the ranks in `s`.
pub open spec fn hcp_of(s: Seq<Rank>) -> int
    decreases s.len(),
{
    if s.len() == 0 {
        0
    } else {
        hcp_of(s.drop_last()) + rank_hcp(s.last())
    }
}

/// Ranks strictly descend: display order with no rank twice.
pub open spec fn strictly_descending(s: Seq<Rank>) -> bool {
    forall|i: int, j: int| 0 <= i < j < s.len() ==> rank_value(#[trigger] s[i]) > rank_value(
        #[trigger] s[j],
    )
}

/// Cards held in a single suit, stored in display order (Ace first).
#[derive(Clone, Debug, PartialEq, Eq, Default)]
pub struct Holding {
    /// Ranks stored in display order (Ace, King, Queen, ... Two)
    pub ranks: Vec<Rank>,
    /// Spot cards whose rank the file does not give -- the `x`s of `Kxx` --
    /// which a diagram shows after the ranks
    pub unknown: u8,
}

/// The number of cards a holding shows, unknown spots included.
pub open spec fn holding_len(h: Holding) -> int {
    h.ranks@.len() + h.unknown
}

/// Whether every rank appears in `s` at most once.
pub open spec fn no_duplicates(s: Seq<Rank>) -> bool {
    forall|i: int, j: int| 0 <= i < j < s.len() ==> #[trigger] s[i] != #[trigger] s[j]
}

fn rank_in(s: &Vec<Rank>, r: Rank) -> (b: bool)
    ensures
        b == s@.contains(r),
{
    let mut i: usize = 0;
    while i < s.len()
        invariant
            i <= s@.len(),
            forall|j: int| 0 <= j < i ==> s@[j] != r,
        decreases s.len() - i,
    {
        if s[i] == r {
            return true;
        }
        i += 1;
    }
    false
}

/// The ranks of `s` whose value is `v`.
fn collect_valued(s: &Vec<Rank>, v: u8, out: &mut Vec<Rank>)
    ensures
        final(out)@ == old(out)@ + ranks_valued(s@, v as int),
{
    let ghost o = out@;
    let mut i: usize = 0;
    while i < s.len()
        invariant
            i <= s@.len(),
            out@ == o + ranks_valued(s@.take(i as int), v as int),
        decreases s.len() - i,
    {
        assert(s@.take(i + 1).drop_last() =~= s@.take(i as int));
        if s[i].value() == v {
            out.push(s[i]);
        }
        i += 1;
        assert(out@ =~= o + ranks_valued(s@.take(i as int), v as int));
    }
    assert(s@.take(s@.len() as int) =~= s@);
}

/// `s` in display order.
pub fn sorted_for_display(s: &Vec<Rank>) -> (res: Vec<Rank>)
    ensures
        res@ == display_order(s@),
{
    let mut res: Vec<Rank> = Vec::new();
    let mut v: u8 = 14;
    while v >= 2
        invariant
            1 <= v <= 14,
            display_order(s@) == res@ + display_order_from(s@, v as int),
        decreases v,
    {
        let ghost before = res@;
        collect_valued(s, v, &mut res);
        assert(res@ + display_order_from(s@, v - 1) =~= before + display_order_from(s@, v as int));
        v -= 1;
    }
    assert(display_order_from(s@, v as int) =~= seq![]);
    assert(res@ + seq![] =~= res@);
    res
}

impl Holding {
    /// An empty holding.
    pub fn new() -> (h: Self)
        ensures
            h.ranks@ == Seq::<Rank>::empty(),
            h.unknown == 0,
    {
        Self { ranks: Vec::new(), unknown: 0 }
    }

    /// A holding of `ranks`, put in display order.
    pub fn from_ranks<const N: usize>(ranks: [Rank; N]) -> (h: Self)
        ensures
            h.ranks@ == display_order(ranks@),
            h.unknown == 0,
    {
        let mut v: Vec<Rank> = Vec::new();
        let mut i: usize = 0;
        while i < N
            invariant
                i <= N,
                N == ranks@.len(),
                v@ == ranks@.take(i as int),
            decreases N - i,
        {
            v.push(ranks[i]);
            i += 1;
            assert(v@ =~= ranks@.take(i as int));
        }
        assert(ranks@.take(N as int) =~= ranks@);
        Self::from_rank_vec(v)
    }

    /// A holding of the ranks in `ranks`, put in display order.
    pub fn from_rank_vec(ranks: Vec<Rank>) -> (h: Self)
        ensures
            h.ranks@ == display_order(ranks@),
            h.unknown == 0,
    {
        let mut holding = Self { ranks, unknown: 0 };
        holding.sort_display_order();
        holding
    }

    /// Sort the ranks in display order (Ace first, Two last).
    fn sort_display_order(&mut self)
        ensures
            final(self).ranks@ == display_order(old(self).ranks@),
            final(self).unknown == old(self).unknown,
    {
        self.ranks = sorted_for_display(&self.ranks);
    }

    /// Add a rank the holding does not yet have; a rank already held is
    /// left alone.
    pub fn add(&mut self, rank: Rank)
        ensures
            old(self).ranks@.contains(rank) ==> final(self).ranks@ == old(self).ranks@,
            !old(self).ranks@.contains(rank) ==> final(self).ranks@ == display_order(
                old(self).ranks@.push(rank),
            ),
            final(self).unknown == old(self).unknown,
    {
        if !rank_in(&self.ranks, rank) {
            self.ranks.push(rank);
            self.sort_display_order();
        }
    }

    /// A copy of the holding.
    pub fn copy(&self) -> (h: Self)
        ensures
            h.ranks@ == self.ranks@,
            h.unknown == self.unknown,
    {
        let mut ranks: Vec<Rank> = Vec::new();
        let mut i: usize = 0;
        while i < self.ranks.len()
            invariant
                i <= self.ranks@.len(),
                ranks@ == self.ranks@.take(i as int),
            decreases self.ranks.len() - i,
        {
            ranks.push(self.ranks[i]);
            i += 1;
            assert(ranks@ =~= self.ranks@.take(i as int));
        }
        assert(self.ranks@.take(i as int) =~= self.ranks@);
        Holding { ranks, unknown: self.unknown }
    }

    /// Cards held, the unknown spots included.
    pub fn len(&self) -> (n: usize)
        requires
            holding_len(*self) <= usize::MAX,
        ensures
            n == holding_len(*self),
    {
        self.ranks.len() + self.unknown as usize
    }

    /// No cards at all, unknown spots included.
    pub fn is_empty(&self) -> (b: bool)
        ensures
            b == (holding_len(*self) == 0),
    {
        self.ranks.len() == 0 && self.unknown == 0
    }

    /// High-card points of the known ranks.
    pub fn hcp(&self) -> (p: u8)
        requires
            hcp_of(self.ranks@) <= 255,
        ensures
            p == hcp_of(self.ranks@),
    {
        let mut total: u8 = 0;
        let mut i: usize = 0;
        while i < self.ranks.len()
            invariant
                i <= self.ranks@.len(),
                hcp_of(self.ranks@) <= 255,
                total == hcp_of(self.ranks@.take(i as int)),
            decreases self.ranks.len() - i,
        {
            assert(self.ranks@.take(i + 1).drop_last() =~= self.ranks@.take(i as int));
            proof {
                lemma_hcp_prefix(self.ranks@, i + 1);
            }
            total = total + self.ranks[i].hcp_value();
            i += 1;
        }
        assert(self.ranks@.take(self.ranks@.len() as int) =~= self.ranks@);
        total
    }

    /// A void: no cards at all.
    pub fn is_void(&self) -> (b: bool)
        ensures
            b == (holding_len(*self) == 0),
    {
        self.is_empty()
    }

    /// Whether the holding has `rank` among its known ranks.
    pub fn contains(&self, rank: &Rank) -> (b: bool)
        ensures
            b == self.ranks@.contains(*rank),
    {
        rank_in(&self.ranks, *rank)
    }

    /// The holding as a diagram prints it: its ranks then an `x` per unknown
    /// spot, or `-` for a void.
    pub fn to_string(&self) -> (s: String)
        ensures
            s@ == holding_text(*self),
    {
        let v = self.display_chars();
        crate::text::string_of(&v)
    }

    /// The characters of [`Holding::to_string`].
    pub fn display_chars(&self) -> (s: Vec<char>)
        ensures
            s@ == holding_text(*self),
    {
        if self.ranks.len() == 0 && self.unknown == 0 {
            let s = vec!['-'];
            assert(s@ =~= seq!['-']);
            return s;
        }
        let mut out = ranks_chars(&self.ranks);
        let mut k: u8 = 0;
        while k < self.unknown
            invariant
                k <= self.unknown,
                out@ == ranks_text(self.ranks@) + Seq::new(k as nat, |j: int| 'x'),
            decreases self.unknown - k,
        {
            out.push('x');
            k += 1;
            assert(out@ =~= ranks_text(self.ranks@) + Seq::new(k as nat, |j: int| 'x'));
        }
        out
    }
}

/// The printed ranks of `s`, run together.
pub open spec fn ranks_text(s: Seq<Rank>) -> Seq<char>
    decreases s.len(),
{
    if s.len() == 0 {
        seq![]
    } else {
        ranks_text(s.drop_last()) + rank_display(s.last())
    }
}

/// The ranks `s` run together, as a diagram prints them.
pub fn ranks_chars(s: &Vec<Rank>) -> (out: Vec<char>)
    ensures
        out@ == ranks_text(s@),
{
    let mut out: Vec<char> = Vec::new();
    let mut i: usize = 0;
    while i < s.len()
        invariant
            i <= s@.len(),
            out@ == ranks_text(s@.take(i as int)),
        decreases s.len() - i,
    {
        assert(s@.take(i + 1).drop_last() =~= s@.take(i as int));
        let d = s[i].display_chars();
        crate::text::append(&mut out, &d);
        i += 1;
    }
    assert(s@.take(s@.len() as int) =~= s@);
    out
}

/// How a diagram prints a holding: `-` for a void, else the ranks run
/// together and an `x` for each unknown spot.
pub open spec fn holding_text(h: Holding) -> Seq<char> {
    if holding_len(h) == 0 {
        seq!['-']
    } else {
        ranks_text(h.ranks@) + Seq::new(h.unknown as nat, |j: int| 'x')
    }
}

proof fn lemma_hcp_prefix(s: Seq<Rank>, i: int)
    requires
        0 <= i <= s.len(),
    ensures
        hcp_of(s.take(i)) <= hcp_of(s),
        hcp_of(s.take(i)) >= 0,
    decreases s.len(),
{
    if i < s.len() {
        assert(s.drop_last().take(i) =~= s.take(i));
        lemma_hcp_prefix(s.drop_last(), i);
    } else {
        assert(s.take(i) =~= s);
    }
    lemma_hcp_nonneg(s);
    lemma_hcp_nonneg(s.take(i));
}

proof fn lemma_hcp_nonneg(s: Seq<Rank>)
    ensures
        hcp_of(s) >= 0,
    decreases s.len(),
{
    if s.len() > 0 {
        lemma_hcp_nonneg(s.drop_last());
    }
}

/// A player's hand, one holding per suit.
#[derive(Clone, Debug, PartialEq, Eq, Default)]
pub struct Hand {
    pub spades: Holding,
    pub hearts: Holding,
    pub diamonds: Holding,
    pub clubs: Holding,
}

/// The holding a hand has in `suit`.
pub open spec fn holding_of(h: Hand, suit: Suit) -> Holding {
    match suit {
        Suit::Spades => h.spades,
        Suit::Hearts => h.hearts,
        Suit::Diamonds => h.diamonds,
        Suit::Clubs => h.clubs,
    }
}

/// Points for length: one for each card beyond four in a suit.
pub open spec fn length_points_of(h: Hand) -> int {
    let lp = |n: int| if n > 4 { n - 4 } else { 0 };
    lp(holding_len(h.spades)) + lp(holding_len(h.hearts)) + lp(holding_len(h.diamonds)) + lp(
        holding_len(h.clubs),
    )
}

/// The hand's total high-card points.
pub open spec fn hand_hcp(h: Hand) -> int {
    hcp_of(h.spades.ranks@) + hcp_of(h.hearts.ranks@) + hcp_of(h.diamonds.ranks@) + hcp_of(
        h.clubs.ranks@,
    )
}

/// The hand's card count.
pub open spec fn hand_len(h: Hand) -> int {
    holding_len(h.spades) + holding_len(h.hearts) + holding_len(h.diamonds) + holding_len(
        h.clubs,
    )
}

/// How a hand prints: each suit's symbol and holding, spades first, all
/// separated by spaces, as in `♠ AK ♥ - ♦ QJx ♣ 5432`.
pub open spec fn hand_text(h: Hand) -> Seq<char> {
    seq!['\u{2660}', ' '] + holding_text(h.spades) + seq![' ', '\u{2665}', ' '] + holding_text(
        h.hearts,
    ) + seq![' ', '\u{2666}', ' '] + holding_text(h.diamonds) + seq![' ', '\u{2663}', ' ']
        + holding_text(h.clubs)
}

/// Two hands hold the same cards: each holding the same ranks and spots.
pub open spec fn same_hand(a: Hand, b: Hand) -> bool {
    &&& a.spades.ranks@ == b.spades.ranks@ && a.spades.unknown == b.spades.unknown
    &&& a.hearts.ranks@ == b.hearts.ranks@ && a.hearts.unknown == b.hearts.unknown
    &&& a.diamonds.ranks@ == b.diamonds.ranks@ && a.diamonds.unknown == b.diamonds.unknown
    &&& a.clubs.ranks@ == b.clubs.ranks@ && a.clubs.unknown == b.clubs.unknown
}

impl Hand {
    /// A hand with four voids.
    pub fn new() -> (h: Self)
        ensures
            hand_len(h) == 0,
    {
        Self {
            spades: Holding::new(),
            hearts: Holding::new(),
            diamonds: Holding::new(),
            clubs: Holding::new(),
        }
    }

    /// A hand of the four holdings given.
    pub fn from_holdings(spades: Holding, hearts: Holding, diamonds: Holding, clubs: Holding) -> (h:
        Self)
        ensures
            h == (Hand { spades, hearts, diamonds, clubs }),
    {
        Self { spades, hearts, diamonds, clubs }
    }

    /// The hand as it prints (see [`hand_text`]).
    pub fn to_string(&self) -> (s: String)
        ensures
            s@ == hand_text(*self),
    {
        let mut v: Vec<char> = vec!['\u{2660}', ' '];
        crate::text::append(&mut v, &self.spades.display_chars());
        crate::text::append(&mut v, &[' ', '\u{2665}', ' ']);
        crate::text::append(&mut v, &self.hearts.display_chars());
        crate::text::append(&mut v, &[' ', '\u{2666}', ' ']);
        crate::text::append(&mut v, &self.diamonds.display_chars());
        crate::text::append(&mut v, &[' ', '\u{2663}', ' ']);
        crate::text::append(&mut v, &self.clubs.display_chars());
        assert(v@ =~= hand_text(*self));
        crate::text::string_of(&v)
    }

    /// The holding in `suit`.
    pub fn holding(&self, suit: Suit) -> (h: &Holding)
        ensures
            *h == holding_of(*self, suit),
    {
        match suit {
            Suit::Spades => &self.spades,
            Suit::Hearts => &self.hearts,
            Suit::Diamonds => &self.diamonds,
            Suit::Clubs => &self.clubs,
        }
    }

    /// The holding in `suit`, to change.
    pub fn holding_mut(&mut self, suit: Suit) -> (h: &mut Holding)
        ensures
            *h == holding_of(*old(self), suit),
            *final(self) == (match suit {
                Suit::Spades => Hand { spades: *final(h), ..*old(self) },
                Suit::Hearts => Hand { hearts: *final(h), ..*old(self) },
                Suit::Diamonds => Hand { diamonds: *final(h), ..*old(self) },
                Suit::Clubs => Hand { clubs: *final(h), ..*old(self) },
            }),
    {
        match suit {
            Suit::Spades => &mut self.spades,
            Suit::Hearts => &mut self.hearts,
            Suit::Diamonds => &mut self.diamonds,
            Suit::Clubs => &mut self.clubs,
        }
    }

    /// The hand's total high-card points.
    pub fn total_hcp(&self) -> (p: u8)
        requires
            hand_hcp(*self) <= 255,
        ensures
            p == hand_hcp(*self),
    {
        proof {
            lemma_hcp_nonneg(self.spades.ranks@);
            lemma_hcp_nonneg(self.hearts.ranks@);
            lemma_hcp_nonneg(self.diamonds.ranks@);
            lemma_hcp_nonneg(self.clubs.ranks@);
        }
        self.spades.hcp() + self.hearts.hcp() + self.diamonds.hcp() + self.clubs.hcp()
    }

    /// Length points: one for each card beyond four in each suit.
    pub fn length_points(&self) -> (p: u8)
        requires
            hand_len(*self) <= usize::MAX,
            length_points_of(*self) <= 255,
        ensures
            p == length_points_of(*self),
    {
        let mut points: u8 = 0;
        let s = self.spades.len();
        if s > 4 {
            points += (s - 4) as u8;
        }
        let h = self.hearts.len();
        if h > 4 {
            points += (h - 4) as u8;
        }
        let d = self.diamonds.len();
        if d > 4 {
            points += (d - 4) as u8;
        }
        let c = self.clubs.len();
        if c > 4 {
            points += (c - 4) as u8;
        }
        points
    }

    /// The number of cards in each suit, spades first.
    pub fn shape(&self) -> (s: [u8; 4])
        requires
            hand_len(*self) <= usize::MAX,
        ensures
            s@ == seq![
                holding_len(self.spades) as u8,
                holding_len(self.hearts) as u8,
                holding_len(self.diamonds) as u8,
                holding_len(self.clubs) as u8,
            ],
    {
        let s = [
            self.spades.len() as u8,
            self.hearts.len() as u8,
            self.diamonds.len() as u8,
            self.clubs.len() as u8,
        ];
        assert(s@ =~= seq![
            holding_len(self.spades) as u8,
            holding_len(self.hearts) as u8,
            holding_len(self.diamonds) as u8,
            holding_len(self.clubs) as u8,
        ]);
        s
    }

    /// The number of cards in the hand.
    pub fn card_count(&self) -> (n: usize)
        requires
            hand_len(*self) <= usize::MAX,
        ensures
            n == hand_len(*self),
    {
        self.spades.len() + self.hearts.len() + self.diamonds.len() + self.clubs.len()
    }

    /// A copy of the hand.
    pub fn copy(&self) -> (h: Self)
        ensures
            same_hand(h, *self),
    {
        Hand {
            spades: self.spades.copy(),
            hearts: self.hearts.copy(),
            diamonds: self.diamonds.copy(),
            clubs: self.clubs.copy(),
        }
    }

    /// Whether the hand holds the card `rank` of `suit`.
    pub fn contains(&self, suit: Suit, rank: Rank) -> (b: bool)
        ensures
            b == holding_of(*self, suit).ranks@.contains(rank),
    {
        self.holding(suit).contains(&rank)
    }
}

/// Ranks never rise: each is worth at least as much as the next.
pub open spec fn non_increasing(s: Seq<Rank>) -> bool {
    forall|i: int, j: int| 0 <= i < j < s.len() ==> rank_value(#[trigger] s[i]) >= rank_value(
        #[trigger] s[j],
    )
}

proof fn lemma_rank_value_injective(a: Rank, b: Rank)
    ensures
        rank_value(a) == rank_value(b) ==> a == b,
        2 <= rank_value(a) <= 14,
{
}

proof fn lemma_ranks_valued(s: Seq<Rank>, v: int)
    ensures
        forall|i: int| 0 <= i < ranks_valued(s, v).len() ==> rank_value(#[trigger] ranks_valued(s, v)[i]) == v,
        forall|x: Rank| ranks_valued(s, v).contains(x) <==> (s.contains(x) && rank_value(x) == v),
        no_duplicates(s) ==> ranks_valued(s, v).len() <= 1,
    decreases s.len(),
{
    if s.len() > 0 {
        let t = s.drop_last();
        lemma_ranks_valued(t, v);
        let rv = ranks_valued(s, v);
        let rt = ranks_valued(t, v);
        assert forall|x: Rank| rv.contains(x) <==> (s.contains(x) && rank_value(x) == v) by {
            if rv.contains(x) {
                let k = choose|k: int| 0 <= k < rv.len() && rv[k] == x;
                if k < rt.len() {
                    assert(rt[k] == x);
                    let m = choose|m: int| 0 <= m < t.len() && t[m] == x;
                    assert(s[m] == x);
                }
            }
            if s.contains(x) && rank_value(x) == v {
                let m = choose|m: int| 0 <= m < s.len() && s[m] == x;
                if m < s.len() - 1 {
                    assert(t[m] == x);
                    assert(rt.contains(x));
                    let k = choose|k: int| 0 <= k < rt.len() && rt[k] == x;
                    assert(rv[k] == x);
                } else {
                    assert(rv[rv.len() - 1] == x);
                }
            }
        }
        if no_duplicates(s) {
            assert(no_duplicates(t)) by {
                assert forall|i: int, j: int| 0 <= i < j < t.len() implies #[trigger] t[i] != #[trigger] t[j] by {
                    assert(t[i] == s[i] && t[j] == s[j]);
                }
            }
            if rt.len() == 1 && rank_value(s.last()) == v {
                let x = rt[0];
                assert(rt.contains(x));
                let m = choose|m: int| 0 <= m < t.len() && t[m] == x;
                lemma_rank_value_injective(x, s.last());
                assert(s[m] == s[s.len() - 1]);
            }
        }
    }
}

proof fn lemma_display_order_from(s: Seq<Rank>, v: int)
    ensures
        forall|i: int| 0 <= i < display_order_from(s, v).len() ==> rank_value(#[trigger] display_order_from(s, v)[i]) <= v,
        non_increasing(display_order_from(s, v)),
        forall|x: Rank| display_order_from(s, v).contains(x) <==> (s.contains(x) && rank_value(x) <= v),
        no_duplicates(s) ==> strictly_descending(display_order_from(s, v)),
    decreases v,
{
    if v < 2 {
        assert forall|x: Rank| !(s.contains(x) && rank_value(x) <= v) by {
            lemma_rank_value_injective(x, x);
        }
    } else {
        lemma_display_order_from(s, v - 1);
        lemma_ranks_valued(s, v);
        let a = ranks_valued(s, v);
        let b = display_order_from(s, v - 1);
        let d = display_order_from(s, v);
        assert(d == a + b);
        assert forall|i: int| 0 <= i < d.len() implies rank_value(#[trigger] d[i]) <= v by {
            if i >= a.len() {
                assert(d[i] == b[i - a.len()]);
            }
        }
        assert forall|i: int, j: int| 0 <= i < j < d.len() implies rank_value(#[trigger] d[i]) >= rank_value(#[trigger] d[j]) by {
            if j < a.len() {
            } else if i < a.len() {
                assert(d[j] == b[j - a.len()]);
            } else {
                assert(d[i] == b[i - a.len()] && d[j] == b[j - a.len()]);
            }
        }
        assert forall|x: Rank| d.contains(x) <==> (s.contains(x) && rank_value(x) <= v) by {
            if d.contains(x) {
                let k = choose|k: int| 0 <= k < d.len() && d[k] == x;
                if k < a.len() {
                    assert(a.contains(x));
                } else {
                    assert(b[k - a.len()] == x);
                    assert(b.contains(x));
                }
            }
            if s.contains(x) && rank_value(x) <= v {
                if rank_value(x) == v {
                    assert(a.contains(x));
                    let k = choose|k: int| 0 <= k < a.len() && a[k] == x;
                    assert(d[k] == x);
                } else {
                    assert(b.contains(x));
                    let k = choose|k: int| 0 <= k < b.len() && b[k] == x;
                    assert(d[k + a.len()] == x);
                }
            }
        }
        if no_duplicates(s) {
            assert forall|i: int, j: int| 0 <= i < j < d.len() implies rank_value(#[trigger] d[i]) > rank_value(#[trigger] d[j]) by {
                if j < a.len() {
                    assert(false);
                } else if i < a.len() {
                    assert(d[j] == b[j - a.len()]);
                } else {
                    assert(d[i] == b[i - a.len()] && d[j] == b[j - a.len()]);
                }
            }
        }
    }
}

/// A holding is kept in display order: whatever ranks it is made from, they
/// come out Aces first and Twos last, no rank is lost or made up, and ranks
/// given once each come out strictly descending.
pub proof fn holdings_are_kept_in_display_order(s: Seq<Rank>)
    ensures
        non_increasing(display_order(s)),
        forall|x: Rank| display_order(s).contains(x) <==> s.contains(x),
        no_duplicates(s) ==> strictly_descending(display_order(s)),
{
    lemma_display_order_from(s, 14);
    assert forall|x: Rank| s.contains(x) implies rank_value(x) <= 14 by {
        lemma_rank_value_injective(x, x);
    }
}

/// Adding a rank to a holding in display order leaves it in display order,
/// holding the new rank and every rank it held.
pub proof fn adding_a_rank_keeps_display_order(r: Seq<Rank>, k: Rank)
    requires
        strictly_descending(r),
    ensures
        ({
            let after = if r.contains(k) {
                r
            } else {
                display_order(r.push(k))
            };
            &&& strictly_descending(after)
            &&& after.contains(k)
            &&& forall|x: Rank| after.contains(x) <==> (r.contains(x) || x == k)
        }),
{
    let p = r.push(k);
    assert(no_duplicates(r)) by {
        assert forall|i: int, j: int| 0 <= i < j < r.len() implies #[trigger] r[i] != #[trigger] r[j] by {
            assert(rank_value(r[i]) > rank_value(r[j]));
        }
    }
    if !r.contains(k) {
        assert(no_duplicates(p)) by {
            assert forall|i: int, j: int| 0 <= i < j < p.len() implies #[trigger] p[i] != #[trigger] p[j] by {
                if j == p.len() - 1 {
                    assert(p[i] == r[i]);
                } else {
                    assert(p[i] == r[i] && p[j] == r[j]);
                }
            }
        }
        holdings_are_kept_in_display_order(p);
        assert forall|x: Rank| p.contains(x) <==> (r.contains(x) || x == k) by {
            if p.contains(x) {
                let m = choose|m: int| 0 <= m < p.len() && p[m] == x;
                if m < r.len() {
                    assert(r[m] == x);
                }
            }
            if r.contains(x) {
                let m = choose|m: int| 0 <= m < r.len() && r[m] == x;
                assert(p[m] == x);
            }
            if x == k {
                assert(p[r.len() as int] == x);
            }
        }
    }
}

/// A holding's length counts its known ranks and its unknown spots, and a
/// holding is empty, which is to be void, exactly when it has neither.
pub proof fn a_holding_is_void_exactly_when_it_holds_no_card(h: Holding)
    ensures
        holding_len(h) == h.ranks@.len() + h.unknown,
        (holding_len(h) == 0) == (h.ranks@.len() == 0 && h.unknown == 0),
{
}

/// A hand's card count is the sum of its suits' lengths, unknown spots
/// included, and so the sum of its shape when no suit holds 256 cards or
/// more.
pub proof fn a_hands_cards_are_its_suits_cards(h: Hand)
    ensures
        hand_len(h) == holding_len(h.spades) + holding_len(h.hearts) + holding_len(h.diamonds)
            + holding_len(h.clubs),
        (holding_len(h.spades) < 256 && holding_len(h.hearts) < 256 && holding_len(h.diamonds)
            < 256 && holding_len(h.clubs) < 256) ==> hand_len(h) == (holding_len(h.spades) as u8)
            + (holding_len(h.hearts) as u8) + (holding_len(h.diamonds) as u8) + (holding_len(
            h.clubs,
        ) as u8),
{
    let a = holding_len(h.spades);
    let b = holding_len(h.hearts);
    let c = holding_len(h.diamonds);
    let d = holding_len(h.clubs);
    assert(0 <= a && 0 <= b && 0 <= c && 0 <= d);
    if a < 256 && b < 256 && c < 256 && d < 256 {
        assert(a as u8 == a && b as u8 == b && c as u8 == c && d as u8 == d);
    }
}

} // verus!
