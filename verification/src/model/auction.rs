//! The auction: calls, who made them, and the contract they settle on.
use vstd::prelude::*;

use super::card::{seat_name, strain_symbol, Direction, Strain};
use crate::num::{decimal, u8_decimal};
use crate::text::{append, chars_of, lower, slice_of, string_of, trim, trim_chars};

verus! {

/// One call of an auction.
#[derive(Clone, Copy, Debug, PartialEq, Eq, Structural)]
pub enum Call {
    Pass,
    Double,
    Redouble,
    Bid { level: u8, strain: Strain },
    /// `+`: a call not yet made.
    Continue,
    /// `___`: a blank for the reader to fill in.
    Blank,
}

/// The strain a PBN bid spells after its level: `C D H S`, and `NT` or `N`,
/// in either case.
pub open spec fn strain_of(s: Seq<char>) -> Option<Strain> {
    let l = lower(s);
    if l == seq!['c'] {
        Some(Strain::Clubs)
    } else if l == seq!['d'] {
        Some(Strain::Diamonds)
    } else if l == seq!['h'] {
        Some(Strain::Hearts)
    } else if l == seq!['s'] {
        Some(Strain::Spades)
    } else if l == seq!['n', 't'] || l == seq!['n'] {
        Some(Strain::NoTrump)
    } else {
        None
    }
}

/// Every character of `s` is `_`.
pub open spec fn all_underscores(s: Seq<char>) -> bool {
    forall|i: int| 0 <= i < s.len() ==> #[trigger] s[i] == '_'
}

/// The call a PBN token spells: `Pass` or `P`, `X`, `XX` (any case), `+`, a
/// run of `_`, or a level `1`-`7` and a strain.
pub open spec fn call_of(s: Seq<char>) -> Option<Call> {
    let l = lower(s);
    if l == seq!['p', 'a', 's', 's'] || l == seq!['p'] {
        Some(Call::Pass)
    } else if l == seq!['x'] {
        Some(Call::Double)
    } else if l == seq!['x', 'x'] {
        Some(Call::Redouble)
    } else if s == seq!['+'] {
        Some(Call::Continue)
    } else if s.len() > 0 && all_underscores(s) {
        Some(Call::Blank)
    } else if s.len() >= 2 && '1' <= s[0] <= '7' && strain_of(s.drop_first()) is Some {
        Some(Call::Bid { level: (s[0] as u32 - '0' as u32) as u8, strain: strain_of(s.drop_first()).unwrap() })
    } else {
        None
    }
}

fn same_lower(s: &[char], p: &[char]) -> (b: bool)
    ensures
        b == (lower(s@) == p@),
{
    let l = crate::text::to_lower(s);
    crate::num::same(&l, p)
}

fn strain_from(s: &[char]) -> (r: Option<Strain>)
    ensures
        r == strain_of(s@),
{
    let c = ['c'];
    let d = ['d'];
    let h = ['h'];
    let sp = ['s'];
    let nt = ['n', 't'];
    let n = ['n'];
    assert(c@ =~= seq!['c'] && d@ =~= seq!['d'] && h@ =~= seq!['h'] && sp@ =~= seq!['s']);
    assert(nt@ =~= seq!['n', 't'] && n@ =~= seq!['n']);
    if same_lower(s, &c) {
        Some(Strain::Clubs)
    } else if same_lower(s, &d) {
        Some(Strain::Diamonds)
    } else if same_lower(s, &h) {
        Some(Strain::Hearts)
    } else if same_lower(s, &sp) {
        Some(Strain::Spades)
    } else if same_lower(s, &nt) || same_lower(s, &n) {
        Some(Strain::NoTrump)
    } else {
        None
    }
}

fn underscores_only(s: &[char]) -> (b: bool)
    ensures
        b == all_underscores(s@),
{
    let mut i: usize = 0;
    while i < s.len()
        invariant
            i <= s@.len(),
            forall|j: int| 0 <= j < i ==> #[trigger] s@[j] == '_',
        decreases s.len() - i,
    {
        if s[i] != '_' {
            return false;
        }
        i += 1;
    }
    true
}

impl Call {
    /// A bid of `level` in `strain`.
    pub fn bid(level: u8, strain: Strain) -> (c: Call)
        ensures
            c == (Call::Bid { level, strain }),
    {
        Call::Bid { level, strain }
    }

    /// The call a PBN token spells (see [`call_of`]).
    pub fn from_pbn(s: &str) -> (c: Option<Call>)
        ensures
            c == call_of(s@),
    {
        let cs = chars_of(s);
        Self::from_chars(&cs)
    }

    /// [`Call::from_pbn`] on characters.
    pub fn from_chars(s: &[char]) -> (c: Option<Call>)
        ensures
            c == call_of(s@),
    {
        let pass = ['p', 'a', 's', 's'];
        let p = ['p'];
        let x = ['x'];
        let xx = ['x', 'x'];
        let plus = ['+'];
        assert(pass@ =~= seq!['p', 'a', 's', 's'] && p@ =~= seq!['p']);
        assert(x@ =~= seq!['x'] && xx@ =~= seq!['x', 'x'] && plus@ =~= seq!['+']);
        if same_lower(s, &pass) || same_lower(s, &p) {
            Some(Call::Pass)
        } else if same_lower(s, &x) {
            Some(Call::Double)
        } else if same_lower(s, &xx) {
            Some(Call::Redouble)
        } else if crate::num::same(s, &plus) {
            Some(Call::Continue)
        } else if s.len() > 0 && underscores_only(s) {
            Some(Call::Blank)
        } else if s.len() >= 2 && '1' <= s[0] && s[0] <= '7' {
            let rest = slice_of(s, 1, s.len());
            assert(rest@ =~= s@.drop_first());
            match strain_from(&rest) {
                Some(strain) => Some(Call::Bid { level: ((s[0] as u32) - ('0' as u32)) as u8, strain }),
                None => None,
            }
        } else {
            None
        }
    }
}

/// A call and the annotation the page shows beside it.
#[derive(Clone, Debug, PartialEq, Eq)]
pub struct AnnotatedCall {
    pub call: Call,
    pub annotation: Option<String>,
}

/// A call with its annotation as characters.
pub open spec fn annotated_view(a: AnnotatedCall) -> (Call, Option<Seq<char>>) {
    (
        a.call,
        match a.annotation {
            Some(s) => Some(s@),
            None => None,
        },
    )
}

/// An auction: the dealer, then the calls in order.
#[derive(Clone, Debug)]
pub struct Auction {
    pub dealer: Direction,
    pub calls: Vec<AnnotatedCall>,
    pub is_passed_out: bool,
    /// The notes, each with the number its calls' annotations refer to.
    pub notes: Vec<(u8, String)>,
}

/// The calls of an auction with their annotations, as characters.
pub open spec fn calls_view(calls: Seq<AnnotatedCall>) -> Seq<(Call, Option<Seq<char>>)> {
    calls.map_values(|a: AnnotatedCall| annotated_view(a))
}

/// The position of a seat, North first.
pub open spec fn seat_index(d: Direction) -> int {
    match d {
        Direction::North => 0,
        Direction::East => 1,
        Direction::South => 2,
        Direction::West => 3,
    }
}

/// The seat in position `k` (mod 4), North first.
pub open spec fn seat_at_index(k: int) -> Direction {
    let m = k % 4;
    if m == 0 {
        Direction::North
    } else if m == 1 {
        Direction::East
    } else if m == 2 {
        Direction::South
    } else {
        Direction::West
    }
}

/// Who makes call number `i` (from 0) when `dealer` deals.
pub open spec fn caller(dealer: Direction, i: int) -> Direction {
    seat_at_index(seat_index(dealer) + i)
}

/// The final contract, as the page reads an auction.
#[derive(Clone, Copy, Debug, PartialEq, Eq)]
pub struct Contract {
    pub level: u8,
    pub suit: Strain,
    pub doubled: bool,
    pub redoubled: bool,
    pub declarer: Direction,
}

/// The index of the last bid among `calls`.
pub open spec fn last_bid(calls: Seq<Call>) -> Option<int>
    decreases calls.len(),
{
    if calls.len() == 0 {
        None
    } else if calls.last() is Bid {
        Some(calls.len() - 1)
    } else {
        last_bid(calls.drop_last())
    }
}

/// Whether the calls `s` leave the contract doubled and redoubled: a double
/// doubles, a redouble redoubles, each undoing the other.
pub open spec fn risk(s: Seq<Call>) -> (bool, bool)
    decreases s.len(),
{
    if s.len() == 0 {
        (false, false)
    } else {
        match s.last() {
            Call::Double => (true, false),
            Call::Redouble => (false, true),
            _ => risk(s.drop_last()),
        }
    }
}

/// The first call from index `j` on that names `strain` and is made by the
/// partnership sitting at position parity `side`.
pub open spec fn first_naming(calls: Seq<Call>, dealer: Direction, strain: Strain, side: int, j: int) -> Option<int>
    decreases calls.len() - j,
{
    if j < 0 || j >= calls.len() {
        None
    } else if calls[j] matches Call::Bid { strain: s, .. } && s == strain
        && (seat_index(dealer) + j) % 2 == side {
        Some(j)
    } else {
        first_naming(calls, dealer, strain, side, j + 1)
    }
}

/// The calls alone, without annotations.
pub open spec fn bare_calls(calls: Seq<AnnotatedCall>) -> Seq<Call> {
    calls.map_values(|a: AnnotatedCall| a.call)
}

/// The contract an auction reaches: the last bid, doubled or redoubled by
/// what follows it, played by the member of the bidding side who first named
/// its strain. `None` when nobody bid.
pub open spec fn final_contract_of(dealer: Direction, calls: Seq<Call>) -> Option<Contract> {
    match last_bid(calls) {
        None => None,
        Some(k) => match calls[k] {
            Call::Bid { level, strain } => {
                let side = (seat_index(dealer) + k) % 2;
                let r = risk(calls.skip(k + 1));
                match first_naming(calls, dealer, strain, side, 0) {
                    Some(j) => Some(
                        Contract {
                            level,
                            suit: strain,
                            doubled: r.0,
                            redoubled: r.1,
                            declarer: caller(dealer, j),
                        },
                    ),
                    None => None,
                }
            },
            _ => None,
        },
    }
}

/// Whether anyone in the partnership of parity `side` made a call other than
/// a pass or a `+` placeholder.
pub open spec fn side_spoke(dealer: Direction, calls: Seq<Call>, side: int) -> bool {
    exists|i: int|
        0 <= i < calls.len() && (seat_index(dealer) + i) % 2 == side && !(#[trigger] calls[i] is Pass
            || calls[i] is Continue)
}

/// The pair that did all the bidding, when only one of them did.
pub open spec fn uncontested_of(dealer: Direction, calls: Seq<Call>) -> Option<(Direction, Direction)> {
    let ns = side_spoke(dealer, calls, 0);
    let ew = side_spoke(dealer, calls, 1);
    if ns && !ew {
        Some((Direction::North, Direction::South))
    } else if !ns && ew {
        Some((Direction::West, Direction::East))
    } else {
        None
    }
}

fn seat_index_of(d: Direction) -> (k: u8)
    ensures
        k == seat_index(d),
{
    match d {
        Direction::North => 0,
        Direction::East => 1,
        Direction::South => 2,
        Direction::West => 3,
    }
}

fn parity(d: u8, i: usize) -> (r: usize)
    requires
        d < 4,
    ensures
        r == (d + i) % 2,
{
    ((d as usize) + i % 2) % 2
}

fn seat_after(dealer: Direction, i: usize) -> (d: Direction)
    ensures
        d == caller(dealer, i as int),
{
    let m = ((seat_index_of(dealer) as usize) + i % 4) % 4;
    if m == 0 {
        Direction::North
    } else if m == 1 {
        Direction::East
    } else if m == 2 {
        Direction::South
    } else {
        Direction::West
    }
}

/// What a bidding table needs to know about an auction beyond its calls.
pub trait AuctionExt {
    /// The dealer and calls this reading is about.
    spec fn dealer_and_calls(&self) -> (Direction, Seq<Call>);

    /// The pair that did all the bidding, when only one of them did. Passing
    /// does not count as speaking, and neither does the `+` placeholder.
    fn uncontested_pair(&self) -> (r: Option<(Direction, Direction)>)
        ensures
            r == uncontested_of(self.dealer_and_calls().0, self.dealer_and_calls().1),
    ;
}

impl AuctionExt for Auction {
    open spec fn dealer_and_calls(&self) -> (Direction, Seq<Call>) {
        (self.dealer, bare_calls(self.calls@))
    }

    fn uncontested_pair(&self) -> (r: Option<(Direction, Direction)>) {
        let ghost calls = bare_calls(self.calls@);
        let d = seat_index_of(self.dealer) as usize;
        let mut ns_bid = false;
        let mut ew_bid = false;
        let mut i: usize = 0;
        while i < self.calls.len()
            invariant
                i <= self.calls@.len(),
                d == seat_index(self.dealer),
                calls == bare_calls(self.calls@),
                ns_bid == exists|j: int|
                    0 <= j < i && (d + j) % 2 == 0 && !(#[trigger] calls[j] is Pass
                        || calls[j] is Continue),
                ew_bid == exists|j: int|
                    0 <= j < i && (d + j) % 2 == 1 && !(#[trigger] calls[j] is Pass
                        || calls[j] is Continue),
            decreases self.calls.len() - i,
        {
            let c = self.calls[i].call;
            assert(calls[i as int] == c);
            let dominated = matches!(c, Call::Pass | Call::Continue);
            if !dominated {
                if parity(d as u8, i) == 0 {
                    ns_bid = true;
                } else {
                    ew_bid = true;
                }
            }
            i += 1;
        }
        if ns_bid && !ew_bid {
            Some((Direction::North, Direction::South))
        } else if !ns_bid && ew_bid {
            Some((Direction::West, Direction::East))
        } else {
            None
        }
    }
}

impl Auction {
    /// An auction with no calls yet.
    pub fn new(dealer: Direction) -> (a: Self)
        ensures
            a.dealer == dealer,
            a.calls@.len() == 0,
            !a.is_passed_out,
            a.notes@.len() == 0,
    {
        Auction { dealer, calls: Vec::new(), is_passed_out: false, notes: Vec::new() }
    }

    /// Add a call with no annotation.
    pub fn add_call(&mut self, call: Call)
        ensures
            calls_view(final(self).calls@) == calls_view(old(self).calls@).push((call, None)),
            final(self).dealer == old(self).dealer,
            final(self).is_passed_out == old(self).is_passed_out,
            final(self).notes == old(self).notes,
    {
        self.calls.push(AnnotatedCall { call, annotation: None });
        assert(calls_view(self.calls@) =~= calls_view(old(self).calls@).push((call, None)));
    }

    /// Add a call with its annotation.
    pub fn add_annotated_call(&mut self, call: Call, annotation: Option<String>)
        ensures
            calls_view(final(self).calls@) == calls_view(old(self).calls@).push(
                annotated_view(AnnotatedCall { call, annotation }),
            ),
            final(self).dealer == old(self).dealer,
            final(self).is_passed_out == old(self).is_passed_out,
            final(self).notes == old(self).notes,
    {
        let ghost a = AnnotatedCall { call, annotation };
        self.calls.push(AnnotatedCall { call, annotation });
        assert(calls_view(self.calls@) =~= calls_view(old(self).calls@).push(annotated_view(a)));
    }

    /// The contract the auction reaches (see [`final_contract_of`]).
    pub fn final_contract(&self) -> (c: Option<Contract>)
        ensures
            c == final_contract_of(self.dealer, bare_calls(self.calls@)),
    {
        let ghost calls = bare_calls(self.calls@);
        let n = self.calls.len();
        // the last bid
        let mut k = n;
        assert(calls.take(n as int) =~= calls);
        while k > 0 && !matches!(self.calls[k - 1].call, Call::Bid { .. })
            invariant
                k <= n,
                n == self.calls@.len(),
                calls == bare_calls(self.calls@),
                last_bid(calls) == last_bid(calls.take(k as int)),
            decreases k,
        {
            assert(calls.take(k as int).drop_last() =~= calls.take(k - 1));
            k -= 1;
        }
        if k == 0 {
            assert(calls.take(0) =~= Seq::<Call>::empty());
            return None;
        }
        let last = k - 1;
        assert(calls.take(k as int).last() == calls[last as int]);
        assert(last_bid(calls) == Some(last as int));
        let (level, strain) = match self.calls[last].call {
            Call::Bid { level, strain } => (level, strain),
            _ => {
                return None;
            },
        };
        let d = seat_index_of(self.dealer) as usize;
        let side = parity(d as u8, last);
        // doubles and redoubles after it
        let mut doubled = false;
        let mut redoubled = false;
        let mut j = last + 1;
        let ghost after = calls.skip(last + 1);
        assert(after.take(0) =~= Seq::<Call>::empty());
        while j < n
            invariant
                last < j <= n,
                n == self.calls@.len(),
                calls == bare_calls(self.calls@),
                after == calls.skip(last + 1),
                (doubled, redoubled) == risk(after.take(j - last - 1)),
            decreases n - j,
        {
            assert(after.take(j - last).drop_last() =~= after.take(j - last - 1));
            assert(after.take(j - last).last() == calls[j as int]);
            match self.calls[j].call {
                Call::Double => {
                    doubled = true;
                    redoubled = false;
                },
                Call::Redouble => {
                    doubled = false;
                    redoubled = true;
                },
                _ => {},
            }
            j += 1;
        }
        assert(after.take(n - last - 1) =~= after);
        assert((doubled, redoubled) == risk(calls.skip(last + 1)));
        // the first of the side to name the strain
        let mut f: usize = 0;
        while f < n
            invariant
                f <= n,
                n == self.calls@.len(),
                calls == bare_calls(self.calls@),
                d == seat_index(self.dealer),
                side == (d + last) % 2,
                last < n,
                f <= last,
                calls[last as int] == (Call::Bid { level, strain }),
                last_bid(calls) == Some(last as int),
                (doubled, redoubled) == risk(calls.skip(last + 1)),
                first_naming(calls, self.dealer, strain, side as int, 0) == first_naming(
                    calls,
                    self.dealer,
                    strain,
                    side as int,
                    f as int,
                ),
            decreases n - f,
        {
            assert(calls[f as int] == self.calls@[f as int].call);
            let names = match self.calls[f].call {
                Call::Bid { strain: s, .. } => s == strain,
                _ => false,
            };
            if names && parity(d as u8, f) == side {
                let decl = seat_after(self.dealer, f);
                return Some(Contract { level, suit: strain, doubled, redoubled, declarer: decl });
            }
            f += 1;
        }
        None
    }
}


/// How a call is written: a bid as its level and strain symbol, `Pass`, `X`,
/// `XX`, `+`, or a blank `_`.
pub open spec fn call_text(c: Call) -> Seq<char> {
    match c {
        Call::Pass => seq!['P', 'a', 's', 's'],
        Call::Double => seq!['X'],
        Call::Redouble => seq!['X', 'X'],
        Call::Bid { level, strain } => decimal(level as nat) + strain_symbol(strain),
        Call::Continue => seq!['+'],
        Call::Blank => seq!['_'],
    }
}

/// How a contract is written: level, strain symbol, `X` or `XX`, and who
/// declares it, as in `4♠X by South`.
pub open spec fn contract_text(c: Contract) -> Seq<char> {
    decimal(c.level as nat) + strain_symbol(c.suit) + (if c.redoubled {
        seq!['X', 'X']
    } else if c.doubled {
        seq!['X']
    } else {
        seq![]
    }) + seq![' ', 'b', 'y', ' '] + seat_name(c.declarer)
}

impl Call {
    /// The call as the page writes it (see [`call_text`]).
    pub fn to_string(&self) -> (r: String)
        ensures
            r@ == call_text(*self),
    {
        let v: Vec<char> = match self {
            Call::Pass => vec!['P', 'a', 's', 's'],
            Call::Double => vec!['X'],
            Call::Redouble => vec!['X', 'X'],
            Call::Bid { level, strain } => {
                let mut v = u8_decimal(*level);
                append(&mut v, &strain.symbol_chars());
                v
            },
            Call::Continue => vec!['+'],
            Call::Blank => vec!['_'],
        };
        assert(v@ =~= call_text(*self));
        string_of(&v)
    }
}

impl Contract {
    /// The contract as the page writes it (see [`contract_text`]).
    pub fn to_string(&self) -> (r: String)
        ensures
            r@ == contract_text(*self),
    {
        let mut v = u8_decimal(self.level);
        append(&mut v, &self.suit.symbol_chars());
        if self.redoubled {
            append(&mut v, &['X', 'X']);
        } else if self.doubled {
            append(&mut v, &['X']);
        }
        append(&mut v, &[' ', 'b', 'y', ' ']);
        append(&mut v, &self.declarer.name_chars());
        assert(v@ =~= contract_text(*self));
        string_of(&v)
    }
}

/// Reading a call that also knows `AP`, the all-pass mark.
pub trait CallExt {
    /// The call `s` spells once trimmed; `None` for `AP`, which stands for
    /// the passes that end an auction rather than for one call.
    fn from_pbn_ext(s: &str) -> (r: Option<Call>)
        ensures
            r == (if lower(trim(s@)) == seq!['a', 'p'] {
                None
            } else {
                call_of(trim(s@))
            }),
    ;
}

impl CallExt for Call {
    fn from_pbn_ext(s: &str) -> (r: Option<Call>) {
        let t = trim_chars(&chars_of(s));
        let l = crate::text::to_lower(&t);
        let ap = ['a', 'p'];
        assert(ap@ =~= seq!['a', 'p']);
        if crate::num::same(&l, &ap) {
            return None;
        }
        Call::from_chars(&t)
    }
}

proof fn lemma_last_bid(calls: Seq<Call>)
    ensures
        last_bid(calls) matches Some(k) ==> 0 <= k < calls.len() && calls[k] is Bid && forall|i: int|
            k < i < calls.len() ==> !(#[trigger] calls[i] is Bid),
        last_bid(calls) is None ==> forall|i: int| 0 <= i < calls.len() ==> !(#[trigger] calls[i] is Bid),
    decreases calls.len(),
{
    if calls.len() > 0 {
        lemma_last_bid(calls.drop_last());
        if !(calls.last() is Bid) {
            assert forall|i: int| 0 <= i < calls.len() - 1 implies calls[i] == calls.drop_last()[i] by {}
        }
    }
}

proof fn lemma_first_naming(calls: Seq<Call>, dealer: Direction, strain: Strain, side: int, j: int)
    ensures
        first_naming(calls, dealer, strain, side, j) matches Some(f) ==> j <= f < calls.len() && 0
            <= f && (calls[f] matches Call::Bid { strain: s, .. } && s == strain) && (seat_index(
            dealer) + f) % 2 == side,
    decreases calls.len() - j,
{
    if 0 <= j < calls.len() {
        lemma_first_naming(calls, dealer, strain, side, j + 1);
    }
}

/// The contract an auction reaches is the last bid, and the side that made
/// it plays it: its declarer sits on that side and is the one of the pair
/// who first bid the contract's strain. No bid follows the contract's.
pub proof fn the_last_bid_is_played_by_the_side_that_bid_it(dealer: Direction, calls: Seq<Call>)
    requires
        final_contract_of(dealer, calls) is Some,
    ensures
        ({
            let c = final_contract_of(dealer, calls)->0;
            let k = last_bid(calls)->0;
            &&& 0 <= k < calls.len()
            &&& calls[k] == (Call::Bid { level: c.level, strain: c.suit })
            &&& forall|i: int| k < i < calls.len() ==> !(#[trigger] calls[i] is Bid)
            &&& exists|j: int|
                0 <= j <= k && (#[trigger] calls[j] matches Call::Bid { strain: s, .. } && s == c.suit)
                    && caller(dealer, j) == c.declarer && (seat_index(dealer) + j) % 2 == (
                seat_index(dealer) + k) % 2
        }),
{
    lemma_last_bid(calls);
    let k = last_bid(calls)->0;
    match calls[k] {
        Call::Bid { level, strain } => {
            let side = (seat_index(dealer) + k) % 2;
            lemma_first_naming(calls, dealer, strain, side, 0);
            let j = first_naming(calls, dealer, strain, side, 0)->0;
            if j > k {
                assert(calls[j] is Bid);
            }
            assert(calls[j] matches Call::Bid { strain: s, .. } && s == strain);
        },
        _ => {},
    }
}

/// An auction one pair had to themselves: the other pair only passed or
/// left a `+`.
pub proof fn an_uncontested_pair_had_the_auction_to_themselves(dealer: Direction, calls: Seq<Call>)
    requires
        uncontested_of(dealer, calls) is Some,
    ensures
        ({
            let side = if uncontested_of(dealer, calls) == Some((Direction::North, Direction::South)) {
                1int
            } else {
                0int
            };
            forall|i: int|
                0 <= i < calls.len() && (seat_index(dealer) + i) % 2 == side ==> (#[trigger] calls[i] is Pass
                    || calls[i] is Continue)
        }),
{
}

proof fn lemma_first_naming_found(calls: Seq<Call>, dealer: Direction, strain: Strain, side: int, j: int, k: int)
    requires
        0 <= j <= k < calls.len(),
        calls[k] matches Call::Bid { strain: s, .. } && s == strain,
        (seat_index(dealer) + k) % 2 == side,
    ensures
        first_naming(calls, dealer, strain, side, j) is Some,
    decreases k - j,
{
    if j < k {
        lemma_first_naming_found(calls, dealer, strain, side, j + 1, k);
    }
}

proof fn lemma_risk(s: Seq<Call>)
    ensures
        risk(s).0 <==> exists|i: int| 0 <= i < s.len() && #[trigger] s[i] is Double
            && forall|j: int| i < j < s.len() ==> !(#[trigger] s[j] is Redouble),
        risk(s).1 <==> exists|i: int| 0 <= i < s.len() && #[trigger] s[i] is Redouble
            && forall|j: int| i < j < s.len() ==> !(#[trigger] s[j] is Double),
    decreases s.len(),
{
    if s.len() > 0 {
        let p = s.drop_last();
        let n = s.len() - 1;
        lemma_risk(p);
        assert forall|i: int| 0 <= i < n implies s[i] == p[i] by {}
        match s.last() {
            Call::Double => {
                assert(s[n] is Double);
                assert(forall|j: int| n < j < s.len() ==> !(#[trigger] s[j] is Redouble));
                assert(!(exists|i: int| 0 <= i < s.len() && #[trigger] s[i] is Redouble
                    && forall|j: int| i < j < s.len() ==> !(#[trigger] s[j] is Double))) by {
                    assert forall|i: int| 0 <= i < s.len() && #[trigger] s[i] is Redouble implies
                        !(forall|j: int| i < j < s.len() ==> !(#[trigger] s[j] is Double)) by {
                        assert(i < n);
                        assert(s[n] is Double);
                    }
                }
            },
            Call::Redouble => {
                assert(s[n] is Redouble);
                assert(forall|j: int| n < j < s.len() ==> !(#[trigger] s[j] is Double));
                assert(!(exists|i: int| 0 <= i < s.len() && #[trigger] s[i] is Double
                    && forall|j: int| i < j < s.len() ==> !(#[trigger] s[j] is Redouble))) by {
                    assert forall|i: int| 0 <= i < s.len() && #[trigger] s[i] is Double implies
                        !(forall|j: int| i < j < s.len() ==> !(#[trigger] s[j] is Redouble)) by {
                        assert(i < n);
                        assert(s[n] is Redouble);
                    }
                }
            },
            _ => {
                assert(!(s[n] is Double) && !(s[n] is Redouble));
                if exists|i: int| 0 <= i < s.len() && #[trigger] s[i] is Double
                    && forall|j: int| i < j < s.len() ==> !(#[trigger] s[j] is Redouble) {
                    let i = choose|i: int| 0 <= i < s.len() && #[trigger] s[i] is Double
                        && forall|j: int| i < j < s.len() ==> !(#[trigger] s[j] is Redouble);
                    assert(i < n);
                    assert(p[i] is Double);
                    assert forall|j: int| i < j < p.len() implies !(#[trigger] p[j] is Redouble) by {
                        assert(s[j] == p[j]);
                    }
                }
                if exists|i: int| 0 <= i < p.len() && #[trigger] p[i] is Double
                    && forall|j: int| i < j < p.len() ==> !(#[trigger] p[j] is Redouble) {
                    let i = choose|i: int| 0 <= i < p.len() && #[trigger] p[i] is Double
                        && forall|j: int| i < j < p.len() ==> !(#[trigger] p[j] is Redouble);
                    assert(s[i] is Double);
                    assert forall|j: int| i < j < s.len() implies !(#[trigger] s[j] is Redouble) by {
                        if j < n {
                            assert(s[j] == p[j]);
                        }
                    }
                }
                if exists|i: int| 0 <= i < s.len() && #[trigger] s[i] is Redouble
                    && forall|j: int| i < j < s.len() ==> !(#[trigger] s[j] is Double) {
                    let i = choose|i: int| 0 <= i < s.len() && #[trigger] s[i] is Redouble
                        && forall|j: int| i < j < s.len() ==> !(#[trigger] s[j] is Double);
                    assert(i < n);
                    assert(p[i] is Redouble);
                    assert forall|j: int| i < j < p.len() implies !(#[trigger] p[j] is Double) by {
                        assert(s[j] == p[j]);
                    }
                }
                if exists|i: int| 0 <= i < p.len() && #[trigger] p[i] is Redouble
                    && forall|j: int| i < j < p.len() ==> !(#[trigger] p[j] is Double) {
                    let i = choose|i: int| 0 <= i < p.len() && #[trigger] p[i] is Redouble
                        && forall|j: int| i < j < p.len() ==> !(#[trigger] p[j] is Double);
                    assert(s[i] is Redouble);
                    assert forall|j: int| i < j < s.len() implies !(#[trigger] s[j] is Double) by {
                        if j < n {
                            assert(s[j] == p[j]);
                        }
                    }
                }
            },
        }
    }
}

/// Whatever the calls after an auction's last bid are, the contract is that
/// bid, doubled exactly when some double among them has no redouble after
/// it, and redoubled exactly when some redouble among them has no double
/// after it: every call after the bid counts, however late.
pub proof fn every_call_after_the_last_bid_sets_the_risk(dealer: Direction, calls: Seq<Call>, k: int)
    requires
        0 <= k < calls.len(),
        calls[k] is Bid,
        forall|i: int| k < i < calls.len() ==> !(#[trigger] calls[i] is Bid),
    ensures
        final_contract_of(dealer, calls) is Some,
        ({
            let c = final_contract_of(dealer, calls)->0;
            &&& calls[k] == (Call::Bid { level: c.level, strain: c.suit })
            &&& c.doubled <==> exists|i: int| k < i < calls.len() && #[trigger] calls[i] is Double
                && forall|j: int| i < j < calls.len() ==> !(#[trigger] calls[j] is Redouble)
            &&& c.redoubled <==> exists|i: int| k < i < calls.len() && #[trigger] calls[i] is Redouble
                && forall|j: int| i < j < calls.len() ==> !(#[trigger] calls[j] is Double)
        }),
{
    lemma_last_bid(calls);
    assert(last_bid(calls) == Some(k)) by {
        if last_bid(calls) is None {
            assert(calls[k] is Bid);
        } else {
            let k2 = last_bid(calls)->0;
            if k2 < k {
                assert(calls[k] is Bid);
            } else if k2 > k {
                assert(calls[k2] is Bid);
            }
        }
    }
    match calls[k] {
        Call::Bid { level, strain } => {
            let side = (seat_index(dealer) + k) % 2;
            lemma_first_naming_found(calls, dealer, strain, side, 0, k);
            let after = calls.skip(k + 1);
            lemma_risk(after);
            let c = final_contract_of(dealer, calls)->0;
            assert(c.doubled == risk(after).0 && c.redoubled == risk(after).1);
            assert forall|i: int| k < i < calls.len() implies calls[i] == after[i - k - 1] by {}
            if c.doubled {
                let i = choose|i: int| 0 <= i < after.len() && #[trigger] after[i] is Double
                    && forall|j: int| i < j < after.len() ==> !(#[trigger] after[j] is Redouble);
                assert(calls[i + k + 1] is Double);
                assert forall|j: int| i + k + 1 < j < calls.len() implies !(#[trigger] calls[j] is Redouble) by {
                    assert(calls[j] == after[j - k - 1]);
                }
            }
            if exists|i: int| k < i < calls.len() && #[trigger] calls[i] is Double
                && forall|j: int| i < j < calls.len() ==> !(#[trigger] calls[j] is Redouble) {
                let i = choose|i: int| k < i < calls.len() && #[trigger] calls[i] is Double
                    && forall|j: int| i < j < calls.len() ==> !(#[trigger] calls[j] is Redouble);
                assert(after[i - k - 1] is Double);
                assert forall|j: int| i - k - 1 < j < after.len() implies !(#[trigger] after[j] is Redouble) by {
                    assert(calls[j + k + 1] == after[j]);
                }
            }
            if c.redoubled {
                let i = choose|i: int| 0 <= i < after.len() && #[trigger] after[i] is Redouble
                    && forall|j: int| i < j < after.len() ==> !(#[trigger] after[j] is Double);
                assert(calls[i + k + 1] is Redouble);
                assert forall|j: int| i + k + 1 < j < calls.len() implies !(#[trigger] calls[j] is Double) by {
                    assert(calls[j] == after[j - k - 1]);
                }
            }
            if exists|i: int| k < i < calls.len() && #[trigger] calls[i] is Redouble
                && forall|j: int| i < j < calls.len() ==> !(#[trigger] calls[j] is Double) {
                let i = choose|i: int| k < i < calls.len() && #[trigger] calls[i] is Redouble
                    && forall|j: int| i < j < calls.len() ==> !(#[trigger] calls[j] is Double);
                assert(after[i - k - 1] is Redouble);
                assert forall|j: int| i - k - 1 < j < after.len() implies !(#[trigger] after[j] is Double) by {
                    assert(calls[j + k + 1] == after[j]);
                }
            }
        },
        _ => {},
    }
}

} // verus!
