//! What a bidding table decides before it draws.
use vstd::prelude::*;

use crate::model::auction::{
    bare_calls, caller, seat_index, uncontested_of, AnnotatedCall, Auction, AuctionExt, Call,
};
use crate::model::board::{name_at, PlayerNames};
use crate::model::card::{next_seat, strain_symbol, Direction};
use crate::num::{decimal, u8_decimal};
use crate::render::layouts::picked;
use crate::text::{append, chars_of, string_of};

verus! {

/// An annotation made only of `!` and `?`, and not empty: a suffix marker.
pub open spec fn suffix_marker(a: Seq<char>) -> bool {
    a.len() > 0 && forall|i: int| 0 <= i < a.len() ==> (#[trigger] a[i] == '!' || a[i] == '?')
}

/// Whether an annotation is a suffix marker (`!`, `?`, `!?`, `??`, ...)
/// rather than a note reference.
pub fn is_suffix_annotation(annotation: &str) -> (b: bool)
    ensures
        b == suffix_marker(annotation@),
{
    let a = crate::text::chars_of(annotation);
    if a.len() == 0 {
        return false;
    }
    let mut i: usize = 0;
    while i < a.len()
        invariant
            i <= a@.len(),
            a@ == annotation@,
            forall|j: int| 0 <= j < i ==> (#[trigger] a@[j] == '!' || a@[j] == '?'),
        decreases a.len() - i,
    {
        if a[i] != '!' && a[i] != '?' {
            return false;
        }
        i += 1;
    }
    true
}

/// The column a seat takes in a four-column table: West, North, East, South.
pub open spec fn table_column(d: Direction) -> int {
    match d {
        Direction::West => 0,
        Direction::North => 1,
        Direction::East => 2,
        Direction::South => 3,
    }
}

/// A pass with no annotation.
pub open spec fn plain_pass(a: AnnotatedCall) -> bool {
    a.call is Pass && a.annotation is None
}

/// How many unannotated passes end the auction.
pub open spec fn trailing_plain_passes(calls: Seq<AnnotatedCall>) -> nat
    decreases calls.len(),
{
    if calls.len() == 0 {
        0
    } else if plain_pass(calls.last()) {
        1 + trailing_plain_passes(calls.drop_last())
    } else {
        0
    }
}

/// Four passes and nothing else: the board was passed out.
pub open spec fn passed_out(calls: Seq<AnnotatedCall>) -> bool {
    calls.len() == 4 && forall|i: int| 0 <= i < 4 ==> (#[trigger] calls[i]).call is Pass
}

/// The auction ends with at least three unannotated passes after some bidding,
/// which the table prints as "All Pass".
pub open spec fn ends_all_pass(calls: Seq<AnnotatedCall>) -> bool {
    !passed_out(calls) && trailing_plain_passes(calls) >= 3
}

/// How many calls, from the first, the table prints one by one.
pub open spec fn shown_calls(calls: Seq<AnnotatedCall>) -> int {
    if passed_out(calls) || ends_all_pass(calls) {
        calls.len() - trailing_plain_passes(calls)
    } else {
        calls.len() as int
    }
}

/// The row of the first calls: below a spacing row and the seat names, and
/// below the players' names when the table shows them.
pub open spec fn first_call_row(player_names: bool) -> int {
    if player_names {
        3
    } else {
        2
    }
}

/// What a cell of the bidding table holds.
#[derive(Clone, Copy, Debug, PartialEq, Eq, Structural)]
pub enum TableEntry {
    /// The call at this position of the auction.
    Call(usize),
    /// "Passed Out", for four passes.
    PassedOut,
    /// "All Pass", for the passes that end the auction.
    AllPass,
}

/// An entry of the bidding table and the cell it is printed in.
#[derive(Clone, Copy, Debug, PartialEq, Eq, Structural)]
pub struct TableCell {
    pub entry: TableEntry,
    pub col: usize,
    pub row: usize,
}

/// A cell as an entry, a column and a row.
pub open spec fn cell_view(c: TableCell) -> (TableEntry, int, int) {
    (c.entry, c.col as int, c.row as int)
}

/// The cells of a table, each as an entry, a column and a row.
pub open spec fn cells_view(cells: Seq<TableCell>) -> Seq<(TableEntry, int, int)> {
    cells.map_values(|c: TableCell| cell_view(c))
}

/// The calls of a four-column table: call `i` sits in the column after the
/// one before it, wrapping to a new row after South.
pub open spec fn four_column_cells(dealer: Direction, shown: int, first_row: int) -> Seq<
    (TableEntry, int, int),
> {
    Seq::new(
        shown as nat,
        |i: int|
            (
                TableEntry::Call(i as usize),
                (table_column(dealer) + i) % 4,
                first_row + (table_column(dealer) + i) / 4,
            ),
    )
}

/// The row below which a four-column table's calls end: the row after the
/// last one they reach.
pub open spec fn four_column_end(dealer: Direction, shown: int, first_row: int) -> int {
    let q = table_column(dealer) + shown;
    first_row + q / 4 + if q % 4 > 0 {
        1int
    } else {
        0int
    }
}

/// How many calls among `2..=i` the seat `first` makes: in a two-column table
/// each of them starts a new row, since its partner's call came before it.
pub open spec fn fresh_rows(dealer: Direction, first: Direction, i: int) -> int
    decreases i,
{
    if i < 2 {
        0
    } else {
        fresh_rows(dealer, first, i - 1) + if caller(dealer, i) == first {
            1int
        } else {
            0int
        }
    }
}

/// The calls of a two-column table that shows only `pair`: each of their
/// calls, the first seat's on the left and its partner's on the right.
pub open spec fn pair_cells(dealer: Direction, pair: (Direction, Direction), shown: int, first_row: int) -> Seq<
    (TableEntry, int, int),
>
    decreases shown,
{
    if shown <= 0 {
        Seq::empty()
    } else {
        let rest = pair_cells(dealer, pair, shown - 1, first_row);
        let i = shown - 1;
        let row = first_row + fresh_rows(dealer, pair.0, i);
        if caller(dealer, i) == pair.0 {
            rest.push((TableEntry::Call(i as usize), 0, row))
        } else if caller(dealer, i) == pair.1 {
            rest.push((TableEntry::Call(i as usize), 1, row))
        } else {
            rest
        }
    }
}

/// Whether one of `pair` makes one of the first `shown` calls.
pub open spec fn pair_spoke(dealer: Direction, pair: (Direction, Direction), shown: int) -> bool {
    exists|i: int| 0 <= i < shown && (caller(dealer, i) == pair.0 || caller(dealer, i) == pair.1)
}

/// The pair a table narrows to: with two-column auctions on, the pair that
/// did all the bidding, when there is one.
pub open spec fn table_pair(dealer: Direction, calls: Seq<AnnotatedCall>, two_col: bool) -> Option<
    (Direction, Direction),
> {
    if two_col {
        uncontested_of(dealer, bare_calls(calls))
    } else {
        None
    }
}

/// The seats across the table's header.
pub open spec fn table_columns(pair: Option<(Direction, Direction)>) -> Seq<Direction> {
    match pair {
        Some(p) => if p.0 == Direction::West || p.0 == Direction::East {
            seq![Direction::West, Direction::East]
        } else {
            seq![Direction::North, Direction::South]
        },
        None => seq![Direction::West, Direction::North, Direction::East, Direction::South],
    }
}

/// The cells of a bidding table, in the order it prints them.
pub open spec fn table_cells(
    dealer: Direction,
    calls: Seq<AnnotatedCall>,
    player_names: bool,
    two_col: bool,
) -> Seq<(TableEntry, int, int)> {
    let r0 = first_call_row(player_names);
    let m = shown_calls(calls);
    let pair = table_pair(dealer, calls, two_col);
    if passed_out(calls) {
        seq![
            (
                TableEntry::PassedOut,
                if pair is Some {
                    0
                } else {
                    table_column(dealer)
                },
                r0,
            ),
        ]
    } else {
        match pair {
            Some(p) => {
                let cs = pair_cells(dealer, p, m, r0);
                if ends_all_pass(calls) {
                    cs.push((TableEntry::AllPass, 0, r0 + fresh_rows(dealer, p.0, m - 1) + 1))
                } else {
                    cs
                }
            },
            None => {
                let cs = four_column_cells(dealer, m, r0);
                if ends_all_pass(calls) {
                    cs.push((TableEntry::AllPass, 0, four_column_end(dealer, m, r0)))
                } else {
                    cs
                }
            },
        }
    }
}

/// The row just below the table's last printed row.
pub open spec fn table_end_row(
    dealer: Direction,
    calls: Seq<AnnotatedCall>,
    player_names: bool,
    two_col: bool,
) -> int {
    let r0 = first_call_row(player_names);
    let m = shown_calls(calls);
    if passed_out(calls) {
        r0 + 1
    } else {
        match table_pair(dealer, calls, two_col) {
            Some(p) => {
                let last = r0 + fresh_rows(dealer, p.0, m - 1);
                if ends_all_pass(calls) {
                    last + 2
                } else if pair_spoke(dealer, p, m) {
                    last + 1
                } else {
                    last
                }
            },
            None => four_column_end(dealer, m, r0) + if ends_all_pass(calls) {
                1int
            } else {
                0int
            },
        }
    }
}

/// Where a bidding table prints each entry, and how far down it reaches.
pub struct TableLayout {
    /// The seats across the header, left to right.
    pub columns: Vec<Direction>,
    /// The entries, in the order they are printed.
    pub cells: Vec<TableCell>,
    /// The row just below the last printed row.
    pub end_row: usize,
}

/// One of the two pairs a two-column table can show, first seat first.
pub open spec fn is_table_pair(pair: (Direction, Direction)) -> bool {
    pair == (Direction::North, Direction::South) || pair == (Direction::West, Direction::East)
}

/// Whether `d` belongs to `pair`.
pub open spec fn in_pair(pair: (Direction, Direction), d: Direction) -> bool {
    d == pair.0 || d == pair.1
}

pub(crate) proof fn lemma_caller_step(dealer: Direction, i: int)
    requires
        i >= 0,
    ensures
        caller(dealer, i + 1) == next_seat(caller(dealer, i)),
{
    let k = seat_index(dealer) + i;
    assert(k >= 0);
    assert(k % 4 == 0 ==> (k + 1) % 4 == 1);
    assert(k % 4 == 1 ==> (k + 1) % 4 == 2);
    assert(k % 4 == 2 ==> (k + 1) % 4 == 3);
    assert(k % 4 == 3 ==> (k + 1) % 4 == 0);
}

/// Seats alternate between the pair and its opponents, and two calls apart
/// the partner speaks.
proof fn lemma_pair_turns(dealer: Direction, pair: (Direction, Direction), i: int)
    requires
        is_table_pair(pair),
        i >= 0,
    ensures
        in_pair(pair, caller(dealer, i)) != in_pair(pair, caller(dealer, i + 1)),
        (caller(dealer, i) == pair.0) == (caller(dealer, i + 2) == pair.1),
        (caller(dealer, i) == pair.1) == (caller(dealer, i + 2) == pair.0),
        caller(dealer, i) != caller(dealer, i + 1),
{
    lemma_caller_step(dealer, i);
    lemma_caller_step(dealer, i + 1);
}

proof fn lemma_fresh_rows_bound(dealer: Direction, first: Direction, i: int)
    ensures
        0 <= fresh_rows(dealer, first, i),
        i >= 0 ==> 2 * fresh_rows(dealer, first, i) <= i,
    decreases i,
{
    if i >= 2 {
        lemma_fresh_rows_bound(dealer, first, i - 1);
        lemma_fresh_rows_bound(dealer, first, i - 2);
        lemma_caller_step(dealer, i - 1);
        assert(caller(dealer, i - 1) != caller(dealer, i)) by {
            match caller(dealer, i - 1) {
                Direction::North => {},
                Direction::East => {},
                Direction::South => {},
                Direction::West => {},
            }
        }
    }
}

proof fn lemma_fresh_rows_monotone(dealer: Direction, first: Direction, j: int, i: int)
    requires
        j <= i,
    ensures
        fresh_rows(dealer, first, j) <= fresh_rows(dealer, first, i),
    decreases i - j,
{
    if j < i {
        lemma_fresh_rows_monotone(dealer, first, j, i - 1);
    }
}

/// The column of a seat in a four-column table.
pub fn table_position(d: Direction) -> (c: usize)
    ensures
        c == table_column(d),
{
    match d {
        Direction::West => 0,
        Direction::North => 1,
        Direction::East => 2,
        Direction::South => 3,
    }
}

/// How many unannotated passes end the auction.
pub fn count_trailing_plain_passes(calls: &Vec<AnnotatedCall>) -> (n: usize)
    ensures
        n == trailing_plain_passes(calls@),
{
    let ghost all = calls@;
    assert(all.take(all.len() as int) =~= all);
    let mut n: usize = 0;
    loop
        invariant
            all == calls@,
            n <= all.len(),
            trailing_plain_passes(all) == n + trailing_plain_passes(all.take(all.len() - n)),
        decreases all.len() - n,
    {
        if n == calls.len() {
            assert(all.take(0) =~= Seq::<AnnotatedCall>::empty());
            return n;
        }
        let k = calls.len() - 1 - n;
        let plain = matches!(calls[k].call, Call::Pass) && calls[k].annotation.is_none();
        let ghost pre = all.take(all.len() - n);
        assert(pre.last() == all[k as int]);
        assert(pre.drop_last() =~= all.take(all.len() - (n + 1)));
        if !plain {
            return n;
        }
        n += 1;
    }
}

/// Whether the auction is four passes and nothing else.
pub fn is_passed_out(calls: &Vec<AnnotatedCall>) -> (b: bool)
    ensures
        b == passed_out(calls@),
{
    if calls.len() != 4 {
        return false;
    }
    let mut i: usize = 0;
    while i < 4
        invariant
            calls@.len() == 4,
            i <= 4,
            forall|j: int| 0 <= j < i ==> (#[trigger] calls@[j]).call is Pass,
        decreases 4 - i,
    {
        if !matches!(calls[i].call, Call::Pass) {
            return false;
        }
        i += 1;
    }
    true
}

proof fn lemma_trailing_within(calls: Seq<AnnotatedCall>)
    ensures
        trailing_plain_passes(calls) <= calls.len(),
    decreases calls.len(),
{
    if calls.len() > 0 {
        lemma_trailing_within(calls.drop_last());
    }
}

/// The column of the last of `pair`'s calls before call `i`, if any.
spec fn last_pair_col(dealer: Direction, pair: (Direction, Direction), i: int) -> Option<int> {
    if i >= 1 && in_pair(pair, caller(dealer, i - 1)) {
        Some(
            if caller(dealer, i - 1) == pair.0 {
                0
            } else {
                1
            },
        )
    } else if i >= 2 && in_pair(pair, caller(dealer, i - 2)) {
        Some(
            if caller(dealer, i - 2) == pair.0 {
                0
            } else {
                1
            },
        )
    } else {
        None
    }
}

pub(crate) fn lay_four_columns(dealer: Direction, shown: usize, first_row: usize) -> (r: (
    Vec<TableCell>,
    usize,
    usize,
))
    requires
        first_row <= 3,
    ensures
        cells_view(r.0@) == four_column_cells(dealer, shown as int, first_row as int),
        r.1 == (table_column(dealer) + shown) % 4,
        r.2 == first_row + (table_column(dealer) + shown) / 4,
{
    let ghost p = table_column(dealer);
    let mut col = table_position(dealer);
    let mut row = first_row;
    let mut cells: Vec<TableCell> = Vec::new();
    let mut i: usize = 0;
    assert(cells_view(cells@) =~= four_column_cells(dealer, 0, first_row as int));
    while i < shown
        invariant
            i <= shown,
            first_row <= 3,
            0 <= p < 4,
            p == table_column(dealer),
            col == (p + i) % 4,
            row == first_row + (p + i) / 4,
            cells_view(cells@) == four_column_cells(dealer, i as int, first_row as int),
        decreases shown - i,
    {
        let c = TableCell { entry: TableEntry::Call(i), col, row };
        let ghost before = cells@;
        cells.push(c);
        assert(cells_view(cells@) =~= cells_view(before).push(cell_view(c)));
        assert(four_column_cells(dealer, i + 1, first_row as int) =~= four_column_cells(
            dealer,
            i as int,
            first_row as int,
        ).push(cell_view(c)));
        let ghost k = p + i;
        assert(k % 4 < 3 ==> (k + 1) % 4 == k % 4 + 1 && (k + 1) / 4 == k / 4);
        assert(k % 4 == 3 ==> (k + 1) % 4 == 0 && (k + 1) / 4 == k / 4 + 1);
        assert(k / 4 <= k);
        col += 1;
        if col >= 4 {
            col = 0;
            row += 1;
        }
        i += 1;
    }
    (cells, col, row)
}

#[verifier::rlimit(40)]
fn lay_pair_columns(dealer: Direction, pair: (Direction, Direction), shown: usize, first_row: usize) -> (r: (
    Vec<TableCell>,
    usize,
    bool,
))
    requires
        is_table_pair(pair),
        first_row <= 3,
    ensures
        cells_view(r.0@) == pair_cells(dealer, pair, shown as int, first_row as int),
        r.1 == first_row + fresh_rows(dealer, pair.0, shown - 1),
        r.2 == pair_spoke(dealer, pair, shown as int),
{
    let (d1, d2) = pair;
    let mut last_col: Option<usize> = None;
    let mut current = dealer;
    let mut row = first_row;
    let mut cells: Vec<TableCell> = Vec::new();
    let mut i: usize = 0;
    assert(caller(dealer, 0) == dealer) by {
        assert(seat_index(dealer) % 4 == seat_index(dealer));
    }
    assert(cells_view(cells@) =~= pair_cells(dealer, pair, 0, first_row as int));
    while i < shown
        invariant
            i <= shown,
            first_row <= 3,
            is_table_pair(pair),
            pair == (d1, d2),
            current == caller(dealer, i as int),
            row == first_row + fresh_rows(dealer, d1, i - 1),
            cells_view(cells@) == pair_cells(dealer, pair, i as int, first_row as int),
            match last_col {
                Some(c) => last_pair_col(dealer, pair, i as int) == Some(c as int),
                None => last_pair_col(dealer, pair, i as int) is None,
            },
            (last_col is Some) == pair_spoke(dealer, pair, i as int),
        decreases shown - i,
    {
        let ghost ii = i as int;
        proof {
            lemma_caller_step(dealer, ii);
            lemma_fresh_rows_bound(dealer, d1, ii - 1);
            if ii >= 1 {
                lemma_pair_turns(dealer, pair, ii - 1);
            }
            if ii >= 2 {
                lemma_pair_turns(dealer, pair, ii - 2);
            }
        }
        if current == d1 || current == d2 {
            let display_col: usize = if current == d1 {
                0
            } else {
                1
            };
            let after_right = match last_col {
                Some(c) => c == 1,
                None => false,
            };
            if after_right && display_col == 0 {
                row += 1;
            }
            cells.push(TableCell { entry: TableEntry::Call(i), col: display_col, row });
            assert(cells_view(cells@) =~= pair_cells(dealer, pair, ii + 1, first_row as int));
            last_col = Some(display_col);
            assert(pair_spoke(dealer, pair, ii + 1)) by {
                assert(0 <= ii < ii + 1 && in_pair(pair, caller(dealer, ii)));
            }
        } else {
            assert(cells_view(cells@) =~= pair_cells(dealer, pair, ii + 1, first_row as int));
            assert(pair_spoke(dealer, pair, ii + 1) == pair_spoke(dealer, pair, ii)) by {
                if pair_spoke(dealer, pair, ii + 1) {
                    let j = choose|j: int|
                        0 <= j < ii + 1 && (caller(dealer, j) == pair.0 || caller(dealer, j)
                            == pair.1);
                    assert(j < ii);
                }
                if pair_spoke(dealer, pair, ii) {
                    let j = choose|j: int|
                        0 <= j < ii && (caller(dealer, j) == pair.0 || caller(dealer, j) == pair.1);
                    assert(0 <= j < ii + 1);
                }
            }
        }
        current = current.next();
        i += 1;
    }
    let spoke = last_col.is_some();
    (cells, row, spoke)
}

/// The seats across the header of a table narrowed to `pair`, or all four.
fn header_seats(pair: Option<(Direction, Direction)>) -> (v: Vec<Direction>)
    ensures
        v@ == table_columns(pair),
{
    let columns: Vec<Direction> = match pair {
        Some((d1, _)) => if d1 == Direction::West || d1 == Direction::East {
            vec![Direction::West, Direction::East]
        } else {
            vec![Direction::North, Direction::South]
        },
        None => vec![Direction::West, Direction::North, Direction::East, Direction::South],
    };
    assert(columns@ =~= table_columns(pair));
    columns
}

/// Whether the board was passed out, whether the auction ends in "All Pass",
/// and how many calls the table prints one by one.
fn auction_endings(calls: &Vec<AnnotatedCall>) -> (r: (bool, bool, usize))
    ensures
        r.0 == passed_out(calls@),
        r.1 == ends_all_pass(calls@),
        r.2 == shown_calls(calls@),
{
    let out = is_passed_out(calls);
    let trailing = count_trailing_plain_passes(calls);
    proof {
        lemma_trailing_within(calls@);
    }
    let all_pass = !out && trailing >= 3;
    let shown = if out || all_pass {
        calls.len() - trailing
    } else {
        calls.len()
    };
    (out, all_pass, shown)
}

/// Where a bidding table prints its header seats and each entry, and the row
/// it ends above. With `two_col_auctions`, an auction in which only one pair
/// bid shows that pair alone; a passed-out board prints "Passed Out" in the
/// dealer's column; three or more unannotated passes after the bidding print
/// as "All Pass" on a row of their own.
pub fn table_layout(auction: &Auction, player_names: bool, two_col_auctions: bool) -> (t:
    TableLayout)
    ensures
        t.columns@ == table_columns(table_pair(auction.dealer, auction.calls@, two_col_auctions)),
        cells_view(t.cells@) == table_cells(
            auction.dealer,
            auction.calls@,
            player_names,
            two_col_auctions,
        ),
        t.end_row == table_end_row(auction.dealer, auction.calls@, player_names, two_col_auctions),
{
    let pair = if two_col_auctions {
        auction.uncontested_pair()
    } else {
        None
    };
    assert(pair == table_pair(auction.dealer, auction.calls@, two_col_auctions));
    let columns = header_seats(pair);
    let (out, all_pass, shown) = auction_endings(&auction.calls);
    let first_row: usize = if player_names {
        3
    } else {
        2
    };
    if out {
        let col = if pair.is_some() {
            0
        } else {
            table_position(auction.dealer)
        };
        let cells = vec![TableCell { entry: TableEntry::PassedOut, col, row: first_row }];
        assert(cells_view(cells@) =~= table_cells(
            auction.dealer,
            auction.calls@,
            player_names,
            two_col_auctions,
        ));
        return TableLayout { columns, cells, end_row: first_row + 1 };
    }
    match pair {
        Some(p) => {
            let (mut cells, row, spoke) = lay_pair_columns(auction.dealer, p, shown, first_row);
            proof {
                lemma_fresh_rows_bound(auction.dealer, p.0, shown - 1);
            }
            if all_pass {
                cells.push(TableCell { entry: TableEntry::AllPass, col: 0, row: row + 1 });
                assert(cells_view(cells@) =~= table_cells(
                    auction.dealer,
                    auction.calls@,
                    player_names,
                    two_col_auctions,
                ));
                TableLayout { columns, cells, end_row: row + 2 }
            } else if spoke {
                TableLayout { columns, cells, end_row: row + 1 }
            } else {
                TableLayout { columns, cells, end_row: row }
            }
        },
        None => {
            let (mut cells, col, row) = lay_four_columns(auction.dealer, shown, first_row);
            let end = if col > 0 {
                row + 1
            } else {
                row
            };
            if all_pass {
                cells.push(TableCell { entry: TableEntry::AllPass, col: 0, row: end });
                assert(cells_view(cells@) =~= table_cells(
                    auction.dealer,
                    auction.calls@,
                    player_names,
                    two_col_auctions,
                ));
                TableLayout { columns, cells, end_row: end + 1 }
            } else {
                TableLayout { columns, cells, end_row: end }
            }
        },
    }
}

/// How many rows the table takes down to its end, which is what its height
/// is measured from before it is drawn.
pub fn table_rows(auction: &Auction, player_names: bool, two_col_auctions: bool) -> (r: usize)
    ensures
        r == table_end_row(auction.dealer, auction.calls@, player_names, two_col_auctions),
{
    table_layout(auction, player_names, two_col_auctions).end_row
}

/// What a bidding table prints for a call: `Pass`, `Dbl`, `Rdbl`, a bid's
/// level and strain symbol, and `?` for a call not yet made. A blank is a line
/// to write on, with no text.
pub open spec fn table_call_text(c: Call) -> Option<Seq<char>> {
    match c {
        Call::Pass => Some(seq!['P', 'a', 's', 's']),
        Call::Double => Some(seq!['D', 'b', 'l']),
        Call::Redouble => Some(seq!['R', 'd', 'b', 'l']),
        Call::Bid { level, strain } => Some(decimal(level as nat) + strain_symbol(strain)),
        Call::Continue => Some(seq!['?']),
        Call::Blank => None,
    }
}

/// What a practice sheet's answer table prints for a call: as a bidding
/// table does, but doubles as `X` and `XX`.
pub open spec fn sheet_call_text(c: Call) -> Option<Seq<char>> {
    match c {
        Call::Double => Some(seq!['X']),
        Call::Redouble => Some(seq!['X', 'X']),
        _ => table_call_text(c),
    }
}

fn face_of(c: Call, short_doubles: bool) -> (r: Option<String>)
    ensures
        match r {
            Some(s) => (if short_doubles {
                sheet_call_text(c)
            } else {
                table_call_text(c)
            }) == Some(s@),
            None => c is Blank,
        },
{
    let v: Vec<char> = match c {
        Call::Pass => vec!['P', 'a', 's', 's'],
        Call::Double => if short_doubles {
            vec!['X']
        } else {
            vec!['D', 'b', 'l']
        },
        Call::Redouble => if short_doubles {
            vec!['X', 'X']
        } else {
            vec!['R', 'd', 'b', 'l']
        },
        Call::Bid { level, strain } => {
            let mut v = u8_decimal(level);
            append(&mut v, &strain.symbol_chars());
            v
        },
        Call::Continue => vec!['?'],
        Call::Blank => {
            return None;
        },
    };
    let ghost want = if short_doubles {
        sheet_call_text(c)
    } else {
        table_call_text(c)
    };
    assert(want == Some(v@)) by {
        assert(c is Pass ==> v@ =~= seq!['P', 'a', 's', 's']);
        assert(c is Continue ==> v@ =~= seq!['?']);
        assert(c is Double ==> v@ =~= (if short_doubles {
            seq!['X']
        } else {
            seq!['D', 'b', 'l']
        }));
        assert(c is Redouble ==> v@ =~= (if short_doubles {
            seq!['X', 'X']
        } else {
            seq!['R', 'd', 'b', 'l']
        }));
    }
    Some(string_of(&v))
}

/// The text a bidding table prints for a call (see [`table_call_text`]).
pub fn table_call_face(call: &Call) -> (r: Option<String>)
    ensures
        match r {
            Some(s) => table_call_text(*call) == Some(s@),
            None => table_call_text(*call) is None,
        },
{
    face_of(*call, false)
}

/// The text a practice sheet's answer table prints for a call (see
/// [`sheet_call_text`]).
pub fn sheet_call_face(call: &Call) -> (r: Option<String>)
    ensures
        match r {
            Some(s) => sheet_call_text(*call) == Some(s@),
            None => sheet_call_text(*call) is None,
        },
{
    face_of(*call, true)
}

/// Where a bidding table prints a call's annotation.
#[derive(Clone, Copy, Debug, PartialEq, Eq, Structural)]
pub enum AnnotationPlacement {
    /// At full size after the line of a blank.
    AfterLine,
    /// At full size right after the call: `!` and `?` belong to it.
    Inline,
    /// Raised and smaller: a note reference.
    Superscript,
}

/// Where the annotation `a` of call `c` goes.
pub open spec fn placement_of(c: Call, a: Seq<char>) -> AnnotationPlacement {
    if c is Blank {
        AnnotationPlacement::AfterLine
    } else if suffix_marker(a) {
        AnnotationPlacement::Inline
    } else {
        AnnotationPlacement::Superscript
    }
}

/// Where a bidding table prints `annotation` beside `call` (see
/// [`placement_of`]).
pub fn annotation_placement(call: &Call, annotation: &str) -> (p: AnnotationPlacement)
    ensures
        p == placement_of(*call, annotation@),
{
    if matches!(call, Call::Blank) {
        AnnotationPlacement::AfterLine
    } else if is_suffix_annotation(annotation) {
        AnnotationPlacement::Inline
    } else {
        AnnotationPlacement::Superscript
    }
}

/// The positions of the notes numbered `n` among `numbers`, then of those
/// numbered `n + 1`, and so on up to `top - 1`; each number's notes in the
/// order given.
pub open spec fn notes_by_number(numbers: Seq<u8>, top: int) -> Seq<usize>
    decreases top,
{
    if top <= 0 {
        seq![]
    } else {
        notes_by_number(numbers, top - 1) + picked(
            numbers.len() as int,
            |i: int| numbers[i] == top - 1,
        )
    }
}

/// The numbers of `notes`, in their order.
pub open spec fn note_numbers(notes: Seq<(u8, String)>) -> Seq<u8> {
    notes.map_values(|n: (u8, String)| n.0)
}

fn picked_numbered(notes: &Vec<(u8, String)>, number: u8, order: &mut Vec<usize>)
    ensures
        final(order)@ == old(order)@ + picked(
            notes@.len() as int,
            |i: int| note_numbers(notes@)[i] == number,
        ),
{
    let ghost keep = |i: int| note_numbers(notes@)[i] == number;
    let ghost start = order@;
    let mut i: usize = 0;
    while i < notes.len()
        invariant
            i <= notes@.len(),
            keep == (|i: int| note_numbers(notes@)[i] == number),
            order@ == start + picked(i as int, keep),
        decreases notes.len() - i,
    {
        if notes[i].0 == number {
            order.push(i);
        }
        assert(order@ =~= start + picked(i + 1, keep));
        i += 1;
    }
}

/// The order a table prints an auction's notes in: by number, and in the
/// order given among notes of one number (see [`notes_by_number`]), as
/// positions in `notes`.
pub fn notes_in_order(notes: &Vec<(u8, String)>) -> (order: Vec<usize>)
    ensures
        order@ == notes_by_number(note_numbers(notes@), 256),
{
    let mut order: Vec<usize> = Vec::new();
    let mut n: u16 = 0;
    while n < 256
        invariant
            n <= 256,
            order@ == notes_by_number(note_numbers(notes@), n as int),
        decreases 256 - n,
    {
        picked_numbered(notes, n as u8, &mut order);
        assert(order@ =~= notes_by_number(note_numbers(notes@), n + 1));
        n += 1;
    }
    order
}

/// Note `a` comes before note `b`: a lower number, or the same number and an
/// earlier place.
pub open spec fn note_before(numbers: Seq<u8>, a: usize, b: usize) -> bool {
    numbers[a as int] < numbers[b as int] || (numbers[a as int] == numbers[b as int] && a < b)
}

proof fn lemma_picked_facts(n: int, keep: spec_fn(int) -> bool)
    requires
        0 <= n <= usize::MAX,
    ensures
        forall|k: int|
            0 <= k < picked(n, keep).len() ==> (#[trigger] picked(n, keep)[k] as int) < n && keep(
                picked(n, keep)[k] as int,
            ),
        forall|j: int, k: int|
            0 <= j < k < picked(n, keep).len() ==> #[trigger] picked(n, keep)[j] < #[trigger] picked(
                n,
                keep,
            )[k],
        forall|i: int| 0 <= i < n && keep(i) ==> #[trigger] picked(n, keep).contains(i as usize),
    decreases n,
{
    if n > 0 {
        lemma_picked_facts(n - 1, keep);
        let rest = picked(n - 1, keep);
        let p = picked(n, keep);
        if keep(n - 1) {
            assert(p == rest.push((n - 1) as usize));
            assert(p[rest.len() as int] == (n - 1) as usize);
            assert forall|k: int| 0 <= k < p.len() implies (#[trigger] p[k] as int) < n && keep(
                p[k] as int,
            ) by {
                if k < rest.len() {
                    assert(p[k] == rest[k]);
                }
            }
            assert forall|j: int, k: int| 0 <= j < k < p.len() implies #[trigger] p[j] < #[trigger] p[k] by {
                assert(p[j] == rest[j]);
                if k < rest.len() {
                    assert(p[k] == rest[k]);
                }
            }
            assert forall|i: int| 0 <= i < n && keep(i) implies #[trigger] p.contains(i as usize) by {
                if i < n - 1 {
                    assert(rest.contains(i as usize));
                    let w = choose|w: int| 0 <= w < rest.len() && rest[w] == i as usize;
                    assert(p[w] == i as usize);
                } else {
                    assert(p[rest.len() as int] == i as usize);
                }
            }
        } else {
            assert(p == rest);
            assert forall|k: int| 0 <= k < p.len() implies (#[trigger] p[k] as int) < n && keep(
                p[k] as int,
            ) by {
                assert(p[k] == rest[k]);
            }
            assert forall|j: int, k: int| 0 <= j < k < p.len() implies #[trigger] p[j] < #[trigger] p[k] by {
                assert(p[j] == rest[j] && p[k] == rest[k]);
            }
            assert forall|i: int| 0 <= i < n && keep(i) implies #[trigger] p.contains(i as usize) by {
                assert(rest.contains(i as usize));
            }
        }
    }
}

proof fn lemma_notes_by_number_facts(numbers: Seq<u8>, top: int)
    requires
        top >= 0,
        numbers.len() <= usize::MAX,
    ensures
        forall|k: int|
            0 <= k < notes_by_number(numbers, top).len() ==> (#[trigger] notes_by_number(
                numbers,
                top,
            )[k] as int) < numbers.len() && numbers[notes_by_number(numbers, top)[k] as int] < top,
        forall|j: int, k: int|
            0 <= j < k < notes_by_number(numbers, top).len() ==> note_before(
                numbers,
                #[trigger] notes_by_number(numbers, top)[j],
                #[trigger] notes_by_number(numbers, top)[k],
            ),
        forall|i: int|
            0 <= i < numbers.len() && numbers[i] < top ==> #[trigger] notes_by_number(
                numbers,
                top,
            ).contains(i as usize),
    decreases top,
{
    if top > 0 {
        lemma_notes_by_number_facts(numbers, top - 1);
        let keep = |i: int| numbers[i] == top - 1;
        let n = numbers.len() as int;
        lemma_picked_facts(n, keep);
        let rest = notes_by_number(numbers, top - 1);
        let p = picked(n, keep);
        let all = notes_by_number(numbers, top);
        assert(all == rest + p);
        assert forall|k: int| 0 <= k < all.len() implies (#[trigger] all[k] as int) < numbers.len()
            && numbers[all[k] as int] < top by {
            if k < rest.len() {
                assert(all[k] == rest[k]);
            } else {
                assert(all[k] == p[k - rest.len()]);
            }
        }
        assert forall|j: int, k: int| 0 <= j < k < all.len() implies note_before(
            numbers,
            #[trigger] all[j],
            #[trigger] all[k],
        ) by {
            if k < rest.len() {
                assert(all[j] == rest[j] && all[k] == rest[k]);
            } else if j < rest.len() {
                assert(all[j] == rest[j]);
                assert(all[k] == p[k - rest.len()]);
            } else {
                assert(all[j] == p[j - rest.len()] && all[k] == p[k - rest.len()]);
            }
        }
        assert forall|i: int| 0 <= i < numbers.len() && numbers[i] < top implies #[trigger] all.contains(
            i as usize,
        ) by {
            if numbers[i] < top - 1 {
                assert(rest.contains(i as usize));
                let w = choose|w: int| 0 <= w < rest.len() && rest[w] == i as usize;
                assert(all[w] == i as usize);
            } else {
                assert(keep(i));
                assert(p.contains(i as usize));
                let w = choose|w: int| 0 <= w < p.len() && p[w] == i as usize;
                assert(all[rest.len() + w] == i as usize);
            }
        }
    }
}

/// A table prints every note of an auction once, in increasing number, and
/// notes of one number in the order given. (The notes are a `Vec`'s, so
/// their count fits in a `usize`.)
pub proof fn a_table_prints_each_note_once_by_number(notes: Seq<(u8, String)>)
    requires
        notes.len() <= usize::MAX,
    ensures
        ({
            let numbers = note_numbers(notes);
            let order = notes_by_number(numbers, 256);
            &&& forall|i: int| 0 <= i < notes.len() ==> #[trigger] order.contains(i as usize)
            &&& forall|k: int| 0 <= k < order.len() ==> (#[trigger] order[k] as int) < notes.len()
            &&& forall|j: int, k: int|
                0 <= j < k < order.len() ==> note_before(numbers, #[trigger] order[j], #[trigger] order[k])
        }),
{
    let numbers = note_numbers(notes);
    lemma_notes_by_number_facts(numbers, 256);
    assert forall|i: int| 0 <= i < notes.len() implies #[trigger] notes_by_number(numbers, 256).contains(
        i as usize,
    ) by {
        assert(numbers[i] < 256);
    }
}

/// How a note starts: its number and a full stop, as in `1. `.
pub open spec fn note_prefix_text(number: u8) -> Seq<char> {
    decimal(number as nat) + seq!['.', ' ']
}

/// The start of note `number` (see [`note_prefix_text`]).
pub fn note_prefix(number: u8) -> (s: String)
    ensures
        s@ == note_prefix_text(number),
{
    let mut v = u8_decimal(number);
    append(&mut v, &['.', ' ']);
    string_of(&v)
}

/// A note as a practice sheet's answer table prints it: its start, then its
/// text.
pub fn sheet_note_line(number: u8, text: &str) -> (s: String)
    ensures
        s@ == note_prefix_text(number) + text@,
{
    let mut v = u8_decimal(number);
    append(&mut v, &['.', ' ']);
    append(&mut v, &chars_of(text));
    string_of(&v)
}

/// The name printed under `seat` in a table's header: the player's, when
/// given and not empty.
pub open spec fn shown_name(players: PlayerNames, seat: Direction) -> Option<Seq<char>> {
    match name_at(players, seat) {
        Some(n) => if n@.len() > 0 {
            Some(n@)
        } else {
            None
        },
        None => None,
    }
}

/// An optional name as characters.
pub open spec fn name_view(n: Option<String>) -> Option<Seq<char>> {
    match n {
        Some(s) => Some(s@),
        None => None,
    }
}

/// The names printed under the header seats `columns`, one for each (see
/// [`shown_name`]).
pub fn header_names(columns: &Vec<Direction>, players: &PlayerNames) -> (r: Vec<Option<String>>)
    ensures
        r@.len() == columns@.len(),
        forall|i: int| 0 <= i < r@.len() ==> name_view(#[trigger] r@[i]) == shown_name(*players, columns@[i]),
{
    let mut r: Vec<Option<String>> = Vec::new();
    let mut i: usize = 0;
    while i < columns.len()
        invariant
            i <= columns@.len(),
            r@.len() == i,
            forall|j: int| 0 <= j < i ==> name_view(#[trigger] r@[j]) == shown_name(*players, columns@[j]),
        decreases columns.len() - i,
    {
        let name = match players.get(columns[i]) {
            Some(n) => if chars_of(n).len() > 0 {
                Some(string_of(&chars_of(n)))
            } else {
                None
            },
            None => None,
        };
        r.push(name);
        i += 1;
    }
    r
}

/// Entry `a` is printed before entry `b`: on an earlier row, or further left
/// on the same row.
pub open spec fn before_cell(a: (TableEntry, int, int), b: (TableEntry, int, int)) -> bool {
    a.2 < b.2 || (a.2 == b.2 && a.1 < b.1)
}

/// The entries read left to right and top to bottom in their order.
pub open spec fn reads_in_order(cells: Seq<(TableEntry, int, int)>) -> bool {
    forall|j: int, k: int| 0 <= j < k < cells.len() ==> #[trigger] before_cell(cells[j], cells[k])
}

/// What holds of the first `m` calls of a two-column table.
spec fn pair_cells_shaped(dealer: Direction, pair: (Direction, Direction), m: int, r0: int) -> bool {
    let cs = pair_cells(dealer, pair, m, r0);
    &&& reads_in_order(cs)
    &&& forall|k: int|
        0 <= k < cs.len() ==> ((#[trigger] cs[k]).1 == 0 || cs[k].1 == 1) && r0 <= cs[k].2 <= r0
            + fresh_rows(dealer, pair.0, m - 1)
    &&& (cs.len() > 0) == pair_spoke(dealer, pair, m)
    &&& cs.len() > 0 ==> {
        let i = if in_pair(pair, caller(dealer, m - 1)) {
            m - 1
        } else {
            m - 2
        };
        &&& 0 <= i
        &&& in_pair(pair, caller(dealer, i))
        &&& cs.last().1 == if caller(dealer, i) == pair.0 {
            0int
        } else {
            1int
        }
        &&& cs.last().2 == r0 + fresh_rows(dealer, pair.0, i)
    }
}

proof fn lemma_pair_cells_shape(dealer: Direction, pair: (Direction, Direction), m: int, r0: int)
    requires
        is_table_pair(pair),
        m >= 0,
    ensures
        pair_cells_shaped(dealer, pair, m, r0),
    decreases m,
{
    if m == 0 {
        assert(pair_cells(dealer, pair, 0, r0).len() == 0);
        assert(!pair_spoke(dealer, pair, 0));
    } else {
        lemma_pair_cells_shape(dealer, pair, m - 1, r0);
        if in_pair(pair, caller(dealer, m - 1)) {
            lemma_pair_cells_step_in(dealer, pair, m, r0);
        } else {
            lemma_pair_cells_step_out(dealer, pair, m, r0);
        }
    }
}

proof fn lemma_pair_cells_step_in(dealer: Direction, pair: (Direction, Direction), m: int, r0: int)
    requires
        is_table_pair(pair),
        m >= 1,
        pair_cells_shaped(dealer, pair, m - 1, r0),
        in_pair(pair, caller(dealer, m - 1)),
    ensures
        pair_cells_shaped(dealer, pair, m, r0),
{
    let i = m - 1;
    let cs = pair_cells(dealer, pair, m, r0);
    let rest = pair_cells(dealer, pair, i, r0);
    lemma_fresh_rows_monotone(dealer, pair.0, i - 1, i);
    if i >= 1 {
        lemma_pair_turns(dealer, pair, i - 1);
    }
    if i >= 2 {
        lemma_pair_turns(dealer, pair, i - 2);
        lemma_fresh_rows_monotone(dealer, pair.0, i - 2, i - 1);
    }
    let new = (
        TableEntry::Call(i as usize),
        if caller(dealer, i) == pair.0 {
            0int
        } else {
            1int
        },
        r0 + fresh_rows(dealer, pair.0, i),
    );
    assert(cs == rest.push(new));
    if rest.len() > 0 {
        assert(before_cell(rest.last(), new));
        assert forall|j: int, k: int| 0 <= j < k < cs.len() implies #[trigger] before_cell(
            cs[j],
            cs[k],
        ) by {
            if k == rest.len() {
                if j < rest.len() - 1 {
                    assert(before_cell(rest[j], rest[rest.len() - 1]));
                }
            } else {
                assert(before_cell(rest[j], rest[k]));
            }
        }
    }
    assert forall|k: int| 0 <= k < cs.len() implies ((#[trigger] cs[k]).1 == 0 || cs[k].1 == 1)
        && r0 <= cs[k].2 <= r0 + fresh_rows(dealer, pair.0, m - 1) by {
        if k < rest.len() {
            assert(rest[k] == cs[k]);
        }
    }
    assert(pair_spoke(dealer, pair, m)) by {
        assert(0 <= i < m && in_pair(pair, caller(dealer, i)));
    }
}

proof fn lemma_pair_cells_step_out(dealer: Direction, pair: (Direction, Direction), m: int, r0: int)
    requires
        is_table_pair(pair),
        m >= 1,
        pair_cells_shaped(dealer, pair, m - 1, r0),
        !in_pair(pair, caller(dealer, m - 1)),
    ensures
        pair_cells_shaped(dealer, pair, m, r0),
{
    let i = m - 1;
    let cs = pair_cells(dealer, pair, m, r0);
    let rest = pair_cells(dealer, pair, i, r0);
    lemma_fresh_rows_monotone(dealer, pair.0, i - 1, i);
    if i >= 1 {
        lemma_pair_turns(dealer, pair, i - 1);
    }
    assert(cs == rest);
    assert(pair_spoke(dealer, pair, m) == pair_spoke(dealer, pair, i)) by {
        if pair_spoke(dealer, pair, m) {
            let j = choose|j: int|
                0 <= j < m && (caller(dealer, j) == pair.0 || caller(dealer, j) == pair.1);
            assert(j < i);
        }
        if pair_spoke(dealer, pair, i) {
            let j = choose|j: int|
                0 <= j < i && (caller(dealer, j) == pair.0 || caller(dealer, j) == pair.1);
            assert(0 <= j < m);
        }
    }
}

pub(crate) proof fn lemma_four_column_order(p: int, j: int, k: int)
    requires
        0 <= p,
        0 <= j < k,
    ensures
        (p + j) / 4 < (p + k) / 4 || ((p + j) / 4 == (p + k) / 4 && (p + j) % 4 < (p + k) % 4),
        (p + j) / 4 <= (p + k) / 4,
{
    let a = p + j;
    let b = p + k;
    assert(a == 4 * (a / 4) + a % 4);
    assert(b == 4 * (b / 4) + b % 4);
}

proof fn lemma_uncontested_is_table_pair(dealer: Direction, calls: Seq<Call>)
    ensures
        uncontested_of(dealer, calls) matches Some(p) ==> is_table_pair(p),
{
}

/// A bidding table prints its entries left to right and top to bottom in the
/// order it lists them (the order of the auction), so no two of them share a
/// cell.
pub proof fn a_bidding_table_reads_in_auction_order(
    dealer: Direction,
    calls: Seq<AnnotatedCall>,
    player_names: bool,
    two_col: bool,
)
    ensures
        reads_in_order(table_cells(dealer, calls, player_names, two_col)),
{
    let cs = table_cells(dealer, calls, player_names, two_col);
    let r0 = first_call_row(player_names);
    let m = shown_calls(calls);
    lemma_trailing_within(calls);
    lemma_uncontested_is_table_pair(dealer, bare_calls(calls));
    if passed_out(calls) {
    } else {
        match table_pair(dealer, calls, two_col) {
            Some(pair) => {
                lemma_pair_cells_shape(dealer, pair, m, r0);
                let rest = pair_cells(dealer, pair, m, r0);
                if ends_all_pass(calls) {
                    assert forall|j: int, k: int| 0 <= j < k < cs.len() implies #[trigger] before_cell(
                        cs[j],
                        cs[k],
                    ) by {
                        if k == rest.len() {
                            assert(rest[j].2 <= r0 + fresh_rows(dealer, pair.0, m - 1));
                        } else {
                            assert(before_cell(rest[j], rest[k]));
                        }
                    }
                }
            },
            None => {
                let p = table_column(dealer);
                let four = four_column_cells(dealer, m, r0);
                assert forall|j: int, k: int| 0 <= j < k < cs.len() implies #[trigger] before_cell(
                    cs[j],
                    cs[k],
                ) by {
                    if k < four.len() {
                        lemma_four_column_order(p, j, k);
                    } else {
                        let q = p + m;
                        lemma_four_column_order(p, j, m);
                        assert((p + m) == 4 * ((p + m) / 4) + (p + m) % 4);
                        assert((p + j) == 4 * ((p + j) / 4) + (p + j) % 4);
                    }
                }
            },
        }
    }
}

/// Every entry of a bidding table sits under one of its header seats, below
/// the header, and above the row where the table ends, which is the row its
/// height is measured to.
pub proof fn a_bidding_table_stays_within_its_header_and_rows(
    dealer: Direction,
    calls: Seq<AnnotatedCall>,
    player_names: bool,
    two_col: bool,
)
    ensures
        forall|k: int|
            0 <= k < table_cells(dealer, calls, player_names, two_col).len() ==> {
                let c = #[trigger] table_cells(dealer, calls, player_names, two_col)[k];
                &&& 0 <= c.1 < table_columns(table_pair(dealer, calls, two_col)).len()
                &&& first_call_row(player_names) <= c.2 < table_end_row(
                    dealer,
                    calls,
                    player_names,
                    two_col,
                )
            },
{
    let cs = table_cells(dealer, calls, player_names, two_col);
    let r0 = first_call_row(player_names);
    let m = shown_calls(calls);
    lemma_trailing_within(calls);
    lemma_uncontested_is_table_pair(dealer, bare_calls(calls));
    if passed_out(calls) {
    } else {
        match table_pair(dealer, calls, two_col) {
            Some(pair) => {
                lemma_pair_cells_shape(dealer, pair, m, r0);
                lemma_fresh_rows_bound(dealer, pair.0, m - 1);
            },
            None => {
                let p = table_column(dealer);
                let four = four_column_cells(dealer, m, r0);
                assert forall|k: int| 0 <= k < four.len() implies (#[trigger] four[k]).2
                    < four_column_end(dealer, m, r0) by {
                    lemma_four_column_order(p, k, m);
                    assert((p + m) == 4 * ((p + m) / 4) + (p + m) % 4);
                    assert((p + k) == 4 * ((p + k) / 4) + (p + k) % 4);
                }
            },
        }
    }
}

} // verus!
