//! What a bidding practice sheet tells a player about the auction before
//! they bid: who starts, and what the opponents say.
use vstd::prelude::*;

use crate::model::auction::{
    bare_calls, caller, final_contract_of, seat_index, AnnotatedCall, Auction, Call, Contract,
};
use crate::model::board::{Board, Vulnerability};
use crate::model::deal::hand_at;
use crate::model::hand::{hand_hcp, hand_len, length_points_of, Hand};
use crate::model::card::{next_seat, seat_name, Direction, Strain};
use crate::render::bidding_table::{
    before_cell, cells_view, four_column_cells, is_passed_out, lay_four_columns,
    lemma_caller_step, lemma_four_column_order, passed_out, reads_in_order, table_column,
    table_position, TableCell, TableEntry,
};
use crate::num::{decimal, u64_decimal, u8_decimal};
use crate::text::{append, chars_of, string_of};

verus! {

/// One piece of a line: text, or a suit drawn as its symbol.
#[derive(Debug)]
pub enum TextSegment {
    Plain(String),
    Suit(Strain),
}

/// What a [`TextSegment`] holds, its text as characters.
pub enum SegV {
    Plain(Seq<char>),
    Suit(Strain),
}

impl View for TextSegment {
    type V = SegV;

    open spec fn view(&self) -> SegV {
        match self {
            TextSegment::Plain(s) => SegV::Plain(s@),
            TextSegment::Suit(s) => SegV::Suit(*s),
        }
    }
}

/// A line of text with suit symbols in it.
#[derive(Debug)]
pub struct MixedText {
    pub segments: Vec<TextSegment>,
}

impl View for MixedText {
    type V = Seq<SegV>;

    open spec fn view(&self) -> Seq<SegV> {
        self.segments@.map_values(|t: TextSegment| t@)
    }
}

/// The lines `ls`, each as its segments.
pub open spec fn lines_view(ls: Seq<MixedText>) -> Seq<Seq<SegV>> {
    ls.map_values(|l: MixedText| l@)
}

/// A line of plain text.
pub open spec fn plain_line(t: Seq<char>) -> Seq<SegV> {
    seq![SegV::Plain(t)]
}

/// "RHO opens the bidding 1♦."
pub open spec fn opening_line(position: Seq<char>, level: u8, suit: Strain) -> Seq<SegV> {
    seq![
        SegV::Plain(position + " opens the bidding "@),
        SegV::Plain(decimal(level as nat)),
        SegV::Suit(suit),
        SegV::Plain("."@),
    ]
}

/// "East (LHO) bids 1♠ if possible.", with `action` in place of "bids".
pub open spec fn action_line(seat: Direction, position: Seq<char>, action: Seq<char>, level: u8, suit: Strain) -> Seq<SegV> {
    seq![
        SegV::Plain(seat_name(seat) + " ("@ + position + ") "@ + action + " "@),
        SegV::Plain(decimal(level as nat)),
        SegV::Suit(suit),
        SegV::Plain(" if possible."@),
    ]
}

/// The opponent on the player's left, who bids after them.
pub open spec fn lho(player: Direction) -> Direction {
    next_seat(player)
}

/// The opponent on the player's right, who bids before them.
pub open spec fn rho(player: Direction) -> Direction {
    next_seat(next_seat(next_seat(player)))
}

/// What the opponents' calls in `calls` come to for `player`, read in order
/// from `dealer`: the lines so far, whether no bid has been made yet, the
/// last bid, and whether an opponent has said anything but pass. An
/// opponent's opening bid is told as a fact, with who bids next; a later bid
/// or double as what they do "if possible"; the player's own side's bids only
/// count as the bid a double would double.
pub open spec fn opposition_fold(dealer: Direction, player: Direction, calls: Seq<Call>) -> (
    Seq<Seq<SegV>>,
    bool,
    Option<(u8, Strain)>,
    bool,
)
    decreases calls.len(),
{
    if calls.len() == 0 {
        (seq![], true, None, false)
    } else {
        let st = opposition_fold(dealer, player, calls.drop_last());
        let lines = st.0;
        let opening = st.1;
        let prev = st.2;
        let found = st.3;
        let seat = caller(dealer, calls.len() - 1);
        if seat == lho(player) || seat == rho(player) {
            let pos = if seat == lho(player) {
                "LHO"@
            } else {
                "RHO"@
            };
            match calls.last() {
                Call::Bid { level, strain } => {
                    let added = if opening {
                        seq![
                            opening_line(pos, level, strain),
                            plain_line(
                                if seat == rho(player) {
                                    "You bid next."@
                                } else {
                                    "Partner bids next."@
                                },
                            ),
                        ]
                    } else {
                        seq![action_line(seat, pos, "bids"@, level, strain)]
                    };
                    (lines + added, false, Some((level, strain)), true)
                },
                Call::Double => (
                    match prev {
                        Some((l, s)) => lines.push(action_line(seat, pos, "Doubles"@, l, s)),
                        None => lines,
                    },
                    opening,
                    prev,
                    true,
                ),
                Call::Redouble => (
                    lines.push(plain_line(seat_name(seat) + " ("@ + pos + ") Redoubles if possible."@)),
                    opening,
                    prev,
                    true,
                ),
                _ => st,
            }
        } else {
            match calls.last() {
                Call::Bid { level, strain } => (lines, false, Some((level, strain)), found),
                _ => st,
            }
        }
    }
}

/// The lines telling `player` what the opponents bid; "The opponents are
/// silent." when they said nothing but pass, or there is no auction.
pub open spec fn opposition_lines(auction: Option<(Direction, Seq<Call>)>, player: Direction) -> Seq<Seq<SegV>> {
    match auction {
        None => seq![plain_line("The opponents are silent."@)],
        Some((dealer, calls)) => {
            let st = opposition_fold(dealer, player, calls);
            if st.3 {
                st.0
            } else {
                st.0.push(plain_line("The opponents are silent."@))
            }
        },
    }
}

/// A board's auction as its dealer and bare calls.
pub open spec fn auction_of(board: Board) -> Option<(Direction, Seq<Call>)> {
    match board.auction {
        Some(a) => Some((a.dealer, bare_calls(a.calls@))),
        None => None,
    }
}

fn plain_text(t: &[char]) -> (m: MixedText)
    ensures
        m@ == plain_line(t@),
{
    let m = MixedText { segments: vec![TextSegment::Plain(string_of(t))] };
    assert(m@ =~= plain_line(t@));
    m
}

fn opening_text(position: &[char], level: u8, suit: Strain) -> (m: MixedText)
    ensures
        m@ == opening_line(position@, level, suit),
{
    let mut head = Vec::new();
    append(&mut head, position);
    append(&mut head, &chars_of(" opens the bidding "));
    let m = MixedText {
        segments: vec![
            TextSegment::Plain(string_of(&head)),
            TextSegment::Plain(string_of(&u8_decimal(level))),
            TextSegment::Suit(suit),
            TextSegment::Plain(string_of(&chars_of("."))),
        ],
    };
    assert(m@ =~= opening_line(position@, level, suit));
    m
}

fn action_text(seat: Direction, position: &[char], action: &[char], level: u8, suit: Strain) -> (m: MixedText)
    ensures
        m@ == action_line(seat, position@, action@, level, suit),
{
    let mut head = seat.name_chars();
    append(&mut head, &chars_of(" ("));
    append(&mut head, position);
    append(&mut head, &chars_of(") "));
    append(&mut head, action);
    append(&mut head, &chars_of(" "));
    let m = MixedText {
        segments: vec![
            TextSegment::Plain(string_of(&head)),
            TextSegment::Plain(string_of(&u8_decimal(level))),
            TextSegment::Suit(suit),
            TextSegment::Plain(string_of(&chars_of(" if possible."))),
        ],
    };
    assert(m@ =~= action_line(seat, position@, action@, level, suit));
    m
}

fn seat_after(dealer: Direction, i: usize) -> (d: Direction)
    ensures
        d == caller(dealer, i as int),
{
    let k = seat_index_u8(dealer) as usize + i % 4;
    let m = k % 4;
    if m == 0 {
        Direction::North
    } else if m == 1 {
        Direction::East
    } else if m == 2 {
        Direction::South
    } else {
        Direction::West
    }
}

fn seat_index_u8(d: Direction) -> (k: u8)
    ensures
        k == seat_index(d),
{
    match d {
        Direction::North => 0,
        Direction::East => 1,
        Direction::South => 2,
        Direction::West => 3,
    }
}

/// What the opponents say, told to `player` (see [`opposition_lines`]).
pub fn format_opposition_bidding(board: &Board, player: Direction) -> (r: Vec<MixedText>)
    ensures
        lines_view(r@) == opposition_lines(auction_of(*board), player),
{
    let silent = chars_of("The opponents are silent.");
    let auction = match &board.auction {
        Some(a) => a,
        None => {
            let r = vec![plain_text(&silent)];
            assert(lines_view(r@) =~= opposition_lines(auction_of(*board), player));
            return r;
        },
    };
    let ghost calls = bare_calls(auction.calls@);
    let l = player.next();
    let r = player.next().next().next();
    let mut lines: Vec<MixedText> = Vec::new();
    let mut opening = true;
    let mut prev: Option<(u8, Strain)> = None;
    let mut found = false;
    let mut i: usize = 0;
    assert(calls.take(0) =~= Seq::<Call>::empty());
    assert(lines_view(lines@) =~= Seq::<Seq<SegV>>::empty());
    while i < auction.calls.len()
        invariant
            i <= auction.calls@.len(),
            calls == bare_calls(auction.calls@),
            l == lho(player),
            r == rho(player),
            opposition_fold(auction.dealer, player, calls.take(i as int)) == (
                lines_view(lines@),
                opening,
                prev,
                found,
            ),
        decreases auction.calls.len() - i,
    {
        assert(calls.take(i + 1).drop_last() =~= calls.take(i as int));
        assert(calls.take(i + 1).last() == auction.calls@[i as int].call);
        let seat = seat_after(auction.dealer, i);
        let call = auction.calls[i].call;
        let ghost before = lines_view(lines@);
        if seat == l || seat == r {
            let pos = if seat == l {
                chars_of("LHO")
            } else {
                chars_of("RHO")
            };
            match call {
                Call::Bid { level, strain } => {
                    if opening {
                        lines.push(opening_text(&pos, level, strain));
                        let next = if seat == r {
                            chars_of("You bid next.")
                        } else {
                            chars_of("Partner bids next.")
                        };
                        lines.push(plain_text(&next));
                    } else {
                        lines.push(action_text(seat, &pos, &chars_of("bids"), level, strain));
                    }
                    opening = false;
                    prev = Some((level, strain));
                    found = true;
                },
                Call::Double => {
                    match prev {
                        Some((lv, st)) => {
                            lines.push(action_text(seat, &pos, &chars_of("Doubles"), lv, st));
                        },
                        None => {},
                    }
                    found = true;
                },
                Call::Redouble => {
                    let mut t = seat.name_chars();
                    append(&mut t, &chars_of(" ("));
                    append(&mut t, &pos);
                    append(&mut t, &chars_of(") Redoubles if possible."));
                    lines.push(plain_text(&t));
                    found = true;
                },
                _ => {},
            }
        } else {
            match call {
                Call::Bid { level, strain } => {
                    prev = Some((level, strain));
                    opening = false;
                },
                _ => {},
            }
        }
        assert(lines_view(lines@) =~= opposition_fold(auction.dealer, player, calls.take(i + 1)).0);
        i += 1;
    }
    assert(calls.take(i as int) =~= calls);
    if !found {
        let ghost before = lines_view(lines@);
        lines.push(plain_text(&silent));
        assert(lines_view(lines@) =~= before.push(plain_line(silent@)));
    }
    lines
}

/// Whether the opponents of `player` only passed in `calls`, read from
/// `dealer`.
pub open spec fn opponents_only_pass(dealer: Direction, player: Direction, calls: Seq<Call>) -> bool {
    forall|i: int|
        0 <= i < calls.len() && (caller(dealer, i) == lho(player) || caller(dealer, i) == rho(player))
            ==> #[trigger] calls[i] is Pass
}

/// Who bids first, told to `player`: "You bid first." when they deal, or
/// when their right-hand opponent deals and the opponents only pass; "Partner
/// bids first." when partner deals, or when the left-hand opponent deals and
/// the opponents only pass; nothing when an opponent opens, or there is no
/// dealer.
pub open spec fn first_bidder_line(board: Board, player: Direction) -> Seq<char> {
    match board.dealer {
        None => seq![],
        Some(dealer) => {
            let silent = match auction_of(board) {
                Some((d, calls)) => opponents_only_pass(d, player, calls),
                None => true,
            };
            if dealer == player {
                "You bid first."@
            } else if dealer == next_seat(next_seat(player)) {
                "Partner bids first."@
            } else if silent {
                if dealer == rho(player) {
                    "You bid first."@
                } else {
                    "Partner bids first."@
                }
            } else {
                seq![]
            }
        },
    }
}

fn opponents_silent(auction: &Auction, player: Direction) -> (b: bool)
    ensures
        b == opponents_only_pass(auction.dealer, player, bare_calls(auction.calls@)),
{
    let ghost calls = bare_calls(auction.calls@);
    let l = player.next();
    let r = player.next().next().next();
    let mut i: usize = 0;
    while i < auction.calls.len()
        invariant
            i <= auction.calls@.len(),
            calls == bare_calls(auction.calls@),
            l == lho(player),
            r == rho(player),
            forall|j: int|
                0 <= j < i && (caller(auction.dealer, j) == lho(player) || caller(auction.dealer, j)
                    == rho(player)) ==> #[trigger] calls[j] is Pass,
        decreases auction.calls.len() - i,
    {
        let seat = seat_after(auction.dealer, i);
        assert(calls[i as int] == auction.calls@[i as int].call);
        if (seat == l || seat == r) && !matches!(auction.calls[i].call, Call::Pass) {
            return false;
        }
        i += 1;
    }
    true
}

/// Who bids first, told to `player` (see [`first_bidder_line`]).
pub fn who_bids_first(board: &Board, player: Direction) -> (s: String)
    ensures
        s@ == first_bidder_line(*board, player),
{
    let dealer = match board.dealer {
        Some(d) => d,
        None => {
            return string_of(&[]);
        },
    };
    let partner = player.next().next();
    let r = player.next().next().next();
    let silent = match &board.auction {
        Some(a) => opponents_silent(a, player),
        None => true,
    };
    let t = if dealer == player {
        chars_of("You bid first.")
    } else if dealer == partner {
        chars_of("Partner bids first.")
    } else if silent {
        if dealer == r {
            chars_of("You bid first.")
        } else {
            chars_of("Partner bids first.")
        }
    } else {
        Vec::new()
    };
    string_of(&t)
}

/// How many lines the auction setup of a practice page takes for `player`:
/// one saying who bids first, when there is something to say, and one for
/// each line of the opponents' bidding.
pub fn count_auction_setup_lines(board: &Board, player: Direction) -> (n: usize)
    ensures
        n == (if first_bidder_line(*board, player).len() == 0 {
            0int
        } else {
            1int
        }) + opposition_lines(auction_of(*board), player).len(),
{
    let who_first = who_bids_first(board, player);
    let who_first_lines: usize = if chars_of(who_first.as_str()).len() == 0 {
        0
    } else {
        1
    };
    let opp = format_opposition_bidding(board, player);
    let n_calls: usize = match &board.auction {
        Some(a) => a.calls.len(),
        None => 0,
    };
    proof {
        assert(lines_view(opp@).len() == opp@.len());
        if let Some(a) = &board.auction {
            let calls = bare_calls(a.calls@);
            lemma_opposition_fold_len(a.dealer, player, calls);
            lemma_opponent_calls_bound(a.dealer, player, calls.len() as int);
            assert(calls.len() == a.calls@.len());
            assert(auction_of(*board) == Some((a.dealer, calls)));
            let st = opposition_fold(a.dealer, player, calls);
            assert(opposition_lines(Some((a.dealer, calls)), player).len() <= st.0.len() + 1);
            assert(opp@.len() <= opponent_calls(a.dealer, player, calls.len() as int) + 2);
            assert(calls.len() == n_calls);
        }
    }
    who_first_lines + opp.len()
}

/// How many of the first `n` calls, read from `dealer`, the opponents of
/// `player` make.
spec fn opponent_calls(dealer: Direction, player: Direction, n: int) -> int
    decreases n,
{
    if n <= 0 {
        0
    } else {
        opponent_calls(dealer, player, n - 1) + if caller(dealer, n - 1) == lho(player) || caller(
            dealer,
            n - 1,
        ) == rho(player) {
            1int
        } else {
            0int
        }
    }
}

proof fn lemma_opponent_calls_bound(dealer: Direction, player: Direction, n: int)
    requires
        n >= 0,
    ensures
        0 <= opponent_calls(dealer, player, n),
        2 * opponent_calls(dealer, player, n) <= n + 1,
    decreases n,
{
    if n >= 2 {
        lemma_opponent_calls_bound(dealer, player, n - 2);
        lemma_caller_step(dealer, n - 2);
        assert(opponent_calls(dealer, player, n - 1) == opponent_calls(dealer, player, n - 2) + if caller(
            dealer,
            n - 2,
        ) == lho(player) || caller(dealer, n - 2) == rho(player) {
            1int
        } else {
            0int
        });
    } else if n == 1 {
        assert(opponent_calls(dealer, player, 0) == 0);
    }
}

proof fn lemma_opposition_fold_len(dealer: Direction, player: Direction, calls: Seq<Call>)
    ensures
        opposition_fold(dealer, player, calls).0.len() + (if opposition_fold(dealer, player, calls).1 {
            1int
        } else {
            0int
        }) <= opponent_calls(dealer, player, calls.len() as int) + 1,
    decreases calls.len(),
{
    if calls.len() > 0 {
        lemma_opposition_fold_len(dealer, player, calls.drop_last());
    }
}

/// How many passes, annotated or not, end the auction.
pub open spec fn trailing_passes(calls: Seq<AnnotatedCall>) -> nat
    decreases calls.len(),
{
    if calls.len() == 0 {
        0
    } else if calls.last().call is Pass {
        1 + trailing_passes(calls.drop_last())
    } else {
        0
    }
}

/// An answer table ends in "All Pass" when three or more passes close an
/// auction that is not four passes alone.
pub open spec fn sheet_all_pass(calls: Seq<AnnotatedCall>) -> bool {
    trailing_passes(calls) >= 3 && !passed_out(calls)
}

/// How many calls, from the first, an answer table prints one by one: all
/// but the three closing passes that "All Pass" stands for, and none of a
/// passed-out board.
pub open spec fn sheet_shown(calls: Seq<AnnotatedCall>) -> int {
    if sheet_all_pass(calls) {
        calls.len() - 3
    } else if passed_out(calls) {
        0
    } else {
        calls.len() as int
    }
}

/// The cells of a practice sheet's answer table, four columns from West, the
/// first call under the dealer, counting rows from the first row of calls:
/// "Pass Out" under the dealer for a passed-out board, "All Pass" where the
/// first closing pass would go.
pub open spec fn sheet_cells(dealer: Direction, calls: Seq<AnnotatedCall>) -> Seq<
    (TableEntry, int, int),
> {
    let p = table_column(dealer);
    let m = sheet_shown(calls);
    let cs = four_column_cells(dealer, m, 0);
    if passed_out(calls) {
        cs.push((TableEntry::PassedOut, p, 0))
    } else if sheet_all_pass(calls) {
        cs.push((TableEntry::AllPass, (p + m) % 4, (p + m) / 4))
    } else {
        cs
    }
}

/// The cell after the answer table's last entry, as a column and a row.
pub open spec fn sheet_cursor(dealer: Direction, calls: Seq<AnnotatedCall>) -> (int, int) {
    let q = table_column(dealer) + sheet_shown(calls) + if passed_out(calls) || sheet_all_pass(
        calls,
    ) {
        1int
    } else {
        0int
    };
    (q % 4, q / 4)
}

fn count_trailing_passes(calls: &Vec<AnnotatedCall>) -> (n: usize)
    ensures
        n == trailing_passes(calls@),
        n <= calls@.len(),
{
    let ghost all = calls@;
    assert(all.take(all.len() as int) =~= all);
    let mut n: usize = 0;
    loop
        invariant
            all == calls@,
            n <= all.len(),
            trailing_passes(all) == n + trailing_passes(all.take(all.len() - n)),
        decreases all.len() - n,
    {
        if n == calls.len() {
            assert(all.take(0) =~= Seq::<AnnotatedCall>::empty());
            return n;
        }
        let k = calls.len() - 1 - n;
        let ghost pre = all.take(all.len() - n);
        assert(pre.last() == all[k as int]);
        assert(pre.drop_last() =~= all.take(all.len() - (n + 1)));
        if !matches!(calls[k].call, Call::Pass) {
            return n;
        }
        n += 1;
    }
}

/// Where a practice sheet's answer table prints each entry (see
/// [`sheet_cells`]), and the cell after the last one (see [`sheet_cursor`]).
pub fn answer_table_layout(auction: &Auction) -> (r: (Vec<TableCell>, usize, usize))
    ensures
        cells_view(r.0@) == sheet_cells(auction.dealer, auction.calls@),
        (r.1 as int, r.2 as int) == sheet_cursor(auction.dealer, auction.calls@),
{
    let calls = &auction.calls;
    let out = is_passed_out(calls);
    let trailing = count_trailing_passes(calls);
    let all_pass = trailing >= 3 && !out;
    let shown = if all_pass {
        calls.len() - 3
    } else if out {
        0
    } else {
        calls.len()
    };
    let (mut cells, col, row) = lay_four_columns(auction.dealer, shown, 0);
    let ghost p = table_column(auction.dealer);
    let ghost q = p + shown;
    assert(q % 4 < 3 ==> (q + 1) % 4 == q % 4 + 1 && (q + 1) / 4 == q / 4);
    assert(q % 4 == 3 ==> (q + 1) % 4 == 0 && (q + 1) / 4 == q / 4 + 1);
    if out {
        let start = table_position(auction.dealer);
        cells.push(TableCell { entry: TableEntry::PassedOut, col: start, row: 0 });
        assert(cells_view(cells@) =~= sheet_cells(auction.dealer, auction.calls@));
        let next = start + 1;
        if next >= 4 {
            (cells, 0, 1)
        } else {
            (cells, next, 0)
        }
    } else if all_pass {
        cells.push(TableCell { entry: TableEntry::AllPass, col, row });
        assert(cells_view(cells@) =~= sheet_cells(auction.dealer, auction.calls@));
        if col + 1 >= 4 {
            (cells, 0, row + 1)
        } else {
            (cells, col + 1, row)
        }
    } else {
        (cells, col, row)
    }
}

/// A practice sheet's answer table prints its entries left to right and top
/// to bottom in the order of the auction, so no two share a cell, and the
/// cell after them comes after every one of them.
pub proof fn an_answer_table_reads_in_auction_order(dealer: Direction, calls: Seq<AnnotatedCall>)
    ensures
        reads_in_order(sheet_cells(dealer, calls)),
        forall|k: int|
            0 <= k < sheet_cells(dealer, calls).len() ==> before_cell(
                #[trigger] sheet_cells(dealer, calls)[k],
                (TableEntry::AllPass, sheet_cursor(dealer, calls).0, sheet_cursor(dealer, calls).1),
            ),
{
    let p = table_column(dealer);
    let m = sheet_shown(calls);
    let cs = sheet_cells(dealer, calls);
    let q = p + m + if passed_out(calls) || sheet_all_pass(calls) {
        1int
    } else {
        0int
    };
    assert(m >= 0) by {
        if sheet_all_pass(calls) {
            lemma_trailing_passes_within(calls);
        }
    }
    assert forall|j: int, k: int| 0 <= j < k < cs.len() implies #[trigger] before_cell(
        cs[j],
        cs[k],
    ) by {
        lemma_four_column_order(p, j, k);
    }
    assert forall|k: int| 0 <= k < cs.len() implies before_cell(
        #[trigger] cs[k],
        (TableEntry::AllPass, sheet_cursor(dealer, calls).0, sheet_cursor(dealer, calls).1),
    ) by {
        lemma_four_column_order(p, k, q);
    }
}

proof fn lemma_trailing_passes_within(calls: Seq<AnnotatedCall>)
    ensures
        trailing_passes(calls) <= calls.len(),
    decreases calls.len(),
{
    if calls.len() > 0 {
        lemma_trailing_passes_within(calls.drop_last());
    }
}

/// How a practice sheet writes a vulnerability: `None`, `N-S`, `E-W` or
/// `Both`.
pub open spec fn sheet_vul(v: Vulnerability) -> Seq<char> {
    match v {
        Vulnerability::Neither => "None"@,
        Vulnerability::NorthSouth => "N-S"@,
        Vulnerability::EastWest => "E-W"@,
        Vulnerability::Both => "Both"@,
    }
}

/// A hand's points as a practice sheet writes them: its high-card points,
/// then `+` and its length points when it has any.
pub open spec fn points_text(h: Hand) -> Seq<char> {
    decimal(hand_hcp(h) as nat) + if length_points_of(h) > 0 {
        seq!['+'] + decimal(length_points_of(h) as nat)
    } else {
        seq![]
    }
}

/// A hand whose point counts fit the `u8`s they are counted in.
pub open spec fn countable(h: Hand) -> bool {
    hand_hcp(h) <= 255 && length_points_of(h) <= 255 && hand_len(h) <= usize::MAX
}

/// The lines that open a board on a practice sheet: `Board: ` and its
/// number, `Dealer: ` and the dealer, each when the board has one; `Vul: `
/// and the vulnerability; and for a page about one player, `HCP: ` and their
/// points.
pub open spec fn practice_context_text(board: Board, player: Option<Direction>) -> Seq<Seq<char>> {
    (match board.number {
        Some(n) => seq!["Board: "@ + decimal(n as nat)],
        None => seq![],
    }) + (match board.dealer {
        Some(d) => seq!["Dealer: "@ + seat_name(d)],
        None => seq![],
    }) + seq!["Vul: "@ + sheet_vul(board.vulnerable)] + (match player {
        Some(p) => seq!["HCP: "@ + points_text(hand_at(board.deal, p))],
        None => seq![],
    })
}

/// The lines that open a board on the answers page: as on a practice page,
/// with the points of North and of South.
pub open spec fn answer_context_text(board: Board) -> Seq<Seq<char>> {
    practice_context_text(board, None) + seq![
        "North HCP: "@ + points_text(board.deal.north),
        "South HCP: "@ + points_text(board.deal.south),
    ]
}

fn vul_chars(v: Vulnerability) -> (r: Vec<char>)
    ensures
        r@ == sheet_vul(v),
{
    match v {
        Vulnerability::Neither => chars_of("None"),
        Vulnerability::NorthSouth => chars_of("N-S"),
        Vulnerability::EastWest => chars_of("E-W"),
        Vulnerability::Both => chars_of("Both"),
    }
}

/// A hand's points with `prefix` before them (see [`points_text`]).
pub fn points_line(prefix: &str, hand: &Hand) -> (s: String)
    requires
        countable(*hand),
    ensures
        s@ == prefix@ + points_text(*hand),
{
    let mut v = chars_of(prefix);
    append(&mut v, &u8_decimal(hand.total_hcp()));
    let length = hand.length_points();
    if length > 0 {
        v.push('+');
        append(&mut v, &u8_decimal(length));
    }
    assert(v@ =~= prefix@ + points_text(*hand));
    string_of(&v)
}

fn common_context(board: &Board, lines: &mut Vec<String>)
    ensures
        final(lines)@.map_values(|l: String| l@) == old(lines)@.map_values(|l: String| l@)
            + practice_context_text(*board, None),
{
    let ghost start = lines@.map_values(|l: String| l@);
    if let Some(n) = board.number {
        let mut v = chars_of("Board: ");
        append(&mut v, &u64_decimal(n as u64));
        lines.push(string_of(&v));
    }
    if let Some(d) = board.dealer {
        let mut v = chars_of("Dealer: ");
        append(&mut v, &d.name_chars());
        lines.push(string_of(&v));
    }
    let mut v = chars_of("Vul: ");
    append(&mut v, &vul_chars(board.vulnerable));
    lines.push(string_of(&v));
    assert(lines@.map_values(|l: String| l@) =~= start + practice_context_text(*board, None));
}

/// The lines that open a board on a practice page for `player`, or for no
/// one (see [`practice_context_text`]).
pub fn practice_context_lines(board: &Board, player: Option<Direction>) -> (lines: Vec<String>)
    requires
        player matches Some(p) ==> countable(hand_at(board.deal, p)),
    ensures
        lines@.map_values(|l: String| l@) == practice_context_text(*board, player),
{
    let mut lines: Vec<String> = Vec::new();
    assert(lines@.map_values(|l: String| l@) =~= Seq::<Seq<char>>::empty());
    common_context(board, &mut lines);
    let ghost before = lines@.map_values(|l: String| l@);
    if let Some(p) = player {
        lines.push(points_line("HCP: ", board.deal.hand(p)));
    }
    assert(lines@.map_values(|l: String| l@) =~= practice_context_text(*board, player));
    lines
}

/// The lines that open a board on the answers page (see
/// [`answer_context_text`]).
pub fn answer_context_lines(board: &Board) -> (lines: Vec<String>)
    requires
        countable(board.deal.north),
        countable(board.deal.south),
    ensures
        lines@.map_values(|l: String| l@) == answer_context_text(*board),
{
    let mut lines: Vec<String> = Vec::new();
    assert(lines@.map_values(|l: String| l@) =~= Seq::<Seq<char>>::empty());
    common_context(board, &mut lines);
    lines.push(points_line("North HCP: ", &board.deal.north));
    lines.push(points_line("South HCP: ", &board.deal.south));
    assert(lines@.map_values(|l: String| l@) =~= answer_context_text(*board));
    lines
}

/// What follows the contract's strain on the answers page: `XX` or `X` as
/// doubled, a space, and the declarer.
pub open spec fn contract_tail_text(c: Contract) -> Seq<char> {
    (if c.redoubled {
        "XX"@
    } else if c.doubled {
        "X"@
    } else {
        seq![]
    }) + seq![' '] + seat_name(c.declarer)
}

/// The contract the answers page shows after `Contract: `, when the
/// board's auction reaches one: its level, its strain, and the rest (see
/// [`contract_tail_text`]).
pub fn answer_contract(board: &Board) -> (r: Option<(String, Strain, String)>)
    ensures
        match board.auction {
            Some(a) => match final_contract_of(a.dealer, bare_calls(a.calls@)) {
                Some(c) => r matches Some(t) && t.0@ == decimal(c.level as nat) && t.1 == c.suit
                    && t.2@ == contract_tail_text(c),
                None => r is None,
            },
            None => r is None,
        },
{
    let auction = match &board.auction {
        Some(a) => a,
        None => {
            return None;
        },
    };
    match auction.final_contract() {
        Some(c) => {
            let mut tail = if c.redoubled {
                chars_of("XX")
            } else if c.doubled {
                chars_of("X")
            } else {
                Vec::new()
            };
            tail.push(' ');
            append(&mut tail, &c.declarer.name_chars());
            assert(tail@ =~= contract_tail_text(c));
            Some((string_of(&u8_decimal(c.level)), c.suit, string_of(&tail)))
        },
        None => None,
    }
}

/// The banner of a practice page for `player`: `<seat> hands`, and
/// ` (Practice Page)` after it when no title shares the banner.
pub fn practice_banner(player: Direction, has_title: bool) -> (s: String)
    ensures
        s@ == seat_name(player) + " hands"@ + if has_title {
            seq![]
        } else {
            " (Practice Page)"@
        },
{
    let mut v = player.name_chars();
    append(&mut v, &chars_of(" hands"));
    if !has_title {
        append(&mut v, &chars_of(" (Practice Page)"));
    }
    string_of(&v)
}

} // verus!
