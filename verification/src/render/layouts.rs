//! What the layouts decide about a board before they draw it: which parts
//! show, where its commentary goes, how a diagram is framed, and which hands
//! a declarer's plan shows.
use vstd::prelude::*;

use crate::model::bcflags::{has_bits, BCFlags};
use crate::model::board::{hidden_at, Board, HiddenHands};
use crate::model::card::{next_seat, strain_symbol, Direction, Strain, Suit};
use crate::num::{decimal, u8_decimal};
use crate::text::{all_ws, append, chars_of, lower_case, string_of, to_lowercase, trim};
use crate::model::commentary::{span_blank, CommentaryBlock, CommentarySlot};
use crate::model::deal::{deal_is_empty, hand_at, suits_present_in, Deal};
use crate::model::hand::{
    holding_len, holding_of, ranks_chars, ranks_text, same_hand, Hand, Holding,
};
use crate::model::card::{rank_display, Card, Rank};
use crate::model::play::lead_of;

verus! {

/// The partner of `d`.
pub open spec fn partner(d: Direction) -> Direction {
    next_seat(next_seat(d))
}

/// A deal turned so the declarer sits South: the dummy's hand and the
/// declarer's.
pub fn rotate_deal_for_declarer(deal: &Deal, declarer: Direction) -> (r: (Hand, Hand))
    ensures
        same_hand(r.0, hand_at(*deal, partner(declarer))),
        same_hand(r.1, hand_at(*deal, declarer)),
{
    match declarer {
        Direction::South => (deal.north.copy(), deal.south.copy()),
        Direction::North => (deal.south.copy(), deal.north.copy()),
        Direction::East => (deal.west.copy(), deal.east.copy()),
        Direction::West => (deal.east.copy(), deal.west.copy()),
    }
}

/// A suit's ranks run together, as a hand record prints them; `--` for a
/// void.
pub open spec fn ranks_line(h: Hand, suit: Suit) -> Seq<char> {
    if holding_len(holding_of(h, suit)) == 0 {
        seq!['-', '-']
    } else {
        ranks_text(holding_of(h, suit).ranks@)
    }
}

/// A suit's ranks as a hand record prints them (see [`ranks_line`]).
pub fn ranks(hand: &Hand, suit: Suit) -> (r: String)
    ensures
        r@ == ranks_line(*hand, suit),
{
    let holding = hand.holding(suit);
    if holding.is_void() {
        let v = vec!['-', '-'];
        assert(v@ =~= seq!['-', '-']);
        return crate::text::string_of(&v);
    }
    crate::text::string_of(&ranks_chars(&holding.ranks))
}

/// The letter beside a trick number for the seat that led it.
pub fn seat_initial(direction: Direction) -> (r: &'static str)
    ensures
        r@ == (match direction {
            Direction::North => "N"@,
            Direction::East => "E"@,
            Direction::South => "S"@,
            Direction::West => "W"@,
        }),
{
    match direction {
        Direction::North => "N",
        Direction::East => "E",
        Direction::South => "S",
        Direction::West => "W",
    }
}

/// The seats a diagram shows, North first.
pub open spec fn visible_seats(h: HiddenHands) -> Seq<Direction> {
    (if !h.north {
        seq![Direction::North]
    } else {
        seq![]
    }) + (if !h.east {
        seq![Direction::East]
    } else {
        seq![]
    }) + (if !h.south {
        seq![Direction::South]
    } else {
        seq![]
    }) + (if !h.west {
        seq![Direction::West]
    } else {
        seq![]
    })
}

/// How a diagram is drawn, decided from the deal and its hidden hands.
#[derive(Debug, Clone)]
pub struct DiagramDisplayOptions {
    /// The hands the `[Hidden]` tag leaves out.
    pub hidden: HiddenHands,
    /// No compass: only one hand shows.
    pub hide_compass: bool,
    /// The one hand that shows, when only one does.
    pub single_visible_hand: Option<Direction>,
    /// The deal lacks a suit.
    pub is_fragment: bool,
    /// The suits the deal holds, in display order.
    pub suits_present: Vec<Suit>,
    /// Suit symbols show unless the deal holds a single suit.
    pub show_suit_symbols: bool,
}

impl DiagramDisplayOptions {
    /// The options a deal and its hidden hands call for: a single visible
    /// hand drops the compass, a missing suit makes a fragment, and a single
    /// suit needs no symbols.
    pub fn from_deal(deal: &Deal, hidden: &HiddenHands) -> (o: Self)
        ensures
            o.hidden == *hidden,
            o.suits_present@ == suits_present_in(*deal),
            o.is_fragment == (suits_present_in(*deal).len() < 4),
            o.show_suit_symbols == (suits_present_in(*deal).len() > 1),
            o.hide_compass == (visible_seats(*hidden).len() == 1),
            o.single_visible_hand == (if visible_seats(*hidden).len() == 1 {
                Some(visible_seats(*hidden)[0])
            } else {
                None
            }),
    {
        let suits_present = deal.suits_present();
        let is_fragment = suits_present.len() < 4;
        let mut visible: Vec<Direction> = Vec::new();
        if !hidden.north {
            visible.push(Direction::North);
        }
        if !hidden.east {
            visible.push(Direction::East);
        }
        if !hidden.south {
            visible.push(Direction::South);
        }
        if !hidden.west {
            visible.push(Direction::West);
        }
        assert(visible@ =~= visible_seats(*hidden));
        let hide_compass = visible.len() == 1;
        let single_visible_hand = if hide_compass {
            Some(visible[0])
        } else {
            None
        };
        let show_suit_symbols = suits_present.len() > 1;
        DiagramDisplayOptions {
            hidden: *hidden,
            hide_compass,
            single_visible_hand,
            is_fragment,
            suits_present,
            show_suit_symbols,
        }
    }
}

/// The display settings a column reads when it lays out a board.
#[derive(Clone, Copy, Debug)]
pub struct ColumnSettings {
    /// Board, dealer and vulnerability labels show.
    pub show_board_labels: bool,
    /// Bidding shows.
    pub show_bidding: bool,
    /// Commentary shows.
    pub show_commentary: bool,
    /// Bridge Composer's Center mode: each block in its own place.
    pub center: bool,
}

/// What a flag bit allows: with no flags, everything.
pub open spec fn flag_allows(flags: Option<BCFlags>, mask: u32) -> bool {
    match flags {
        Some(f) => has_bits(f.bits(), mask),
        None => true,
    }
}

/// What a hiding bit leaves shown: with no flags, everything.
pub open spec fn flag_shows(flags: Option<BCFlags>, mask: u32) -> bool {
    match flags {
        Some(f) => !has_bits(f.bits(), mask),
        None => true,
    }
}

/// A block whose text is all whitespace.
pub open spec fn block_blank(b: CommentaryBlock) -> bool {
    forall|i: int| 0 <= i < b.content@.len() ==> span_blank(#[trigger] b.content@[i])
}

/// The indices `i < n` that `keep` picks, in order.
pub open spec fn picked(n: int, keep: spec_fn(int) -> bool) -> Seq<usize>
    decreases n,
{
    if n <= 0 {
        seq![]
    } else {
        picked(n - 1, keep) + if keep(n - 1) {
            seq![(n - 1) as usize]
        } else {
            seq![]
        }
    }
}

/// Whether block `i` of `board` shows in Center mode in slot `slot` under
/// flag bit `mask`.
pub open spec fn shown_in(board: Board, s: ColumnSettings, i: int, slot: CommentarySlot, mask: u32) -> bool {
    &&& s.show_commentary
    &&& s.center
    &&& !block_blank(board.commentary@[i])
    &&& board.commentary@[i].slot == slot
    &&& flag_allows(board.bc_flags, mask)
}

/// Whether block `i` of `board` shows below it.
pub open spec fn shown_below(board: Board, s: ColumnSettings, i: int) -> bool {
    &&& s.show_commentary
    &&& !block_blank(board.commentary@[i])
    &&& if s.center {
        board.commentary@[i].slot == CommentarySlot::Final && flag_allows(board.bc_flags, 0x4)
    } else {
        flag_allows(board.bc_flags, 0x20) || flag_allows(board.bc_flags, 0x4)
    }
}

/// A board's visible commentary blocks, by index, split by where a column
/// draws them.
#[derive(Clone, Debug)]
pub struct ColumnCommentary {
    /// Above the board: the event commentary.
    pub above: Vec<usize>,
    /// Between the diagram and the auction.
    pub under_diagram: Vec<usize>,
    /// Below the board.
    pub below: Vec<usize>,
}

impl ColumnCommentary {
    /// Where a board's commentary goes. With commentary off, nowhere.
    /// Outside Center mode every block that is not blank goes below the
    /// board when the flags show event or final commentary. In Center mode
    /// each block shows under its own flag bit and in its own place: the
    /// event commentary above, the diagram commentary between diagram and
    /// auction, the final commentary last, and any other block not at all.
    pub fn of(board: &Board, settings: &ColumnSettings) -> (c: Self)
        ensures
            c.above@ == picked(
                board.commentary@.len() as int,
                |i: int| shown_in(*board, *settings, i, CommentarySlot::Event, 0x20),
            ),
            c.under_diagram@ == picked(
                board.commentary@.len() as int,
                |i: int| shown_in(*board, *settings, i, CommentarySlot::Diagram, 0x40),
            ),
            c.below@ == picked(
                board.commentary@.len() as int,
                |i: int| shown_below(*board, *settings, i),
            ),
    {
        let flags = board.bc_flags;
        let (ev, di, fi) = match flags {
            Some(f) => (f.show_event_commentary(), f.show_diagram_commentary(), f.show_final_commentary()),
            None => (true, true, true),
        };
        let ghost ka = |i: int| shown_in(*board, *settings, i, CommentarySlot::Event, 0x20);
        let ghost kd = |i: int| shown_in(*board, *settings, i, CommentarySlot::Diagram, 0x40);
        let ghost kb = |i: int| shown_below(*board, *settings, i);
        let mut above: Vec<usize> = Vec::new();
        let mut under: Vec<usize> = Vec::new();
        let mut below: Vec<usize> = Vec::new();
        let n = board.commentary.len();
        let mut i: usize = 0;
        while i < n
            invariant
                i <= n,
                n == board.commentary@.len(),
                ev == flag_allows(board.bc_flags, 0x20),
                di == flag_allows(board.bc_flags, 0x40),
                fi == flag_allows(board.bc_flags, 0x4),
                ka == (|i: int| shown_in(*board, *settings, i, CommentarySlot::Event, 0x20)),
                kd == (|i: int| shown_in(*board, *settings, i, CommentarySlot::Diagram, 0x40)),
                kb == (|i: int| shown_below(*board, *settings, i)),
                above@ == picked(i as int, ka),
                under@ == picked(i as int, kd),
                below@ == picked(i as int, kb),
            decreases n - i,
        {
            let block = &board.commentary[i];
            let visible = settings.show_commentary && !block.is_blank();
            if visible && settings.center {
                match block.slot {
                    CommentarySlot::Event => {
                        if ev {
                            above.push(i);
                        }
                    },
                    CommentarySlot::Diagram => {
                        if di {
                            under.push(i);
                        }
                    },
                    CommentarySlot::Final => {
                        if fi {
                            below.push(i);
                        }
                    },
                    _ => {},
                }
            } else if visible && (ev || fi) {
                below.push(i);
            }
            assert(above@ =~= picked(i + 1, ka));
            assert(under@ =~= picked(i + 1, kd));
            assert(below@ =~= picked(i + 1, kb));
            i += 1;
        }
        ColumnCommentary { above, under_diagram: under, below }
    }

    /// Whether any block shows anywhere.
    pub fn any(&self) -> (b: bool)
        ensures
            b == !(self.above@.len() == 0 && self.under_diagram@.len() == 0 && self.below@.len()
                == 0),
    {
        !(self.above.len() == 0 && self.under_diagram.len() == 0 && self.below.len() == 0)
    }
}

/// Which parts of a board a column shows.
#[derive(Clone, Copy, Debug)]
pub struct BoardVisibility {
    pub show_board: bool,
    pub show_dealer: bool,
    pub show_vulnerable: bool,
    pub show_diagram: bool,
    pub show_auction: bool,
    pub show_commentary: bool,
}

/// The board has an auction with at least one call.
pub open spec fn has_auction(board: Board) -> bool {
    board.auction matches Some(a) && a.calls@.len() > 0
}

/// Whether any commentary block of `board` shows.
pub open spec fn any_commentary(board: Board, s: ColumnSettings) -> bool {
    let n = board.commentary@.len() as int;
    picked(n, |i: int| shown_in(board, s, i, CommentarySlot::Event, 0x20)).len() > 0 || picked(
        n,
        |i: int| shown_in(board, s, i, CommentarySlot::Diagram, 0x40),
    ).len() > 0 || picked(n, |i: int| shown_below(board, s, i)).len() > 0
}

impl BoardVisibility {
    /// What a column shows of `board`. Its labels need something to label,
    /// a deal or an auction, and go with the diagram; the diagram needs
    /// cards and a hand left to show; the auction needs a call and bidding
    /// on; and commentary shows when any block does.
    pub fn from_board(board: &Board, settings: &ColumnSettings) -> (v: Self)
        ensures
            ({
                let content = !deal_is_empty(board.deal) || has_auction(*board);
                let diagram_flag = flag_allows(board.bc_flags, 0x8);
                let labels = content && settings.show_board_labels && diagram_flag;
                &&& v.show_board == (labels && flag_shows(board.bc_flags, 0x100000))
                &&& v.show_dealer == (labels && flag_shows(board.bc_flags, 0x200000))
                &&& v.show_vulnerable == (labels && flag_shows(board.bc_flags, 0x400000))
                &&& v.show_diagram == (!deal_is_empty(board.deal) && diagram_flag && !(
                board.hidden.north && board.hidden.east && board.hidden.south && board.hidden.west))
                &&& v.show_auction == (has_auction(*board) && flag_allows(board.bc_flags, 0x10)
                    && settings.show_bidding)
                &&& v.show_commentary == any_commentary(*board, *settings)
            }),
    {
        let flags = board.bc_flags;
        let deal_empty = board.deal.is_empty();
        let auction_calls = match &board.auction {
            Some(a) => a.calls.len() > 0,
            None => false,
        };
        let content = !deal_empty || auction_calls;
        let (diagram_flag, board_shown, dealer_shown, vul_shown, auction_flag) = match flags {
            Some(f) => (f.show_diagram(), !f.hide_board(), !f.hide_dealer(), !f.hide_vulnerable(), f.show_auction()),
            None => (true, true, true, true, true),
        };
        let labels = content && settings.show_board_labels && diagram_flag;
        BoardVisibility {
            show_board: labels && board_shown,
            show_dealer: labels && dealer_shown,
            show_vulnerable: labels && vul_shown,
            show_diagram: !deal_empty && diagram_flag && !board.hidden.all_hidden(),
            show_auction: auction_calls && auction_flag && settings.show_bidding,
            show_commentary: ColumnCommentary::of(board, settings).any(),
        }
    }

    /// Whether the column shows anything of the board.
    pub fn has_content(&self) -> (b: bool)
        ensures
            b == (self.show_board || self.show_dealer || self.show_vulnerable || self.show_diagram
                || self.show_auction || self.show_commentary),
    {
        self.show_board || self.show_dealer || self.show_vulnerable || self.show_diagram
            || self.show_auction || self.show_commentary
    }
}

/// Whether a board id, already lower-cased, names a column break:
/// `column-break`, or the older `spacer`.
pub fn column_break_name(lowered: &str) -> (b: bool)
    ensures
        b == (lowered@ == "column-break"@ || lowered@ == "spacer"@),
{
    let l = chars_of(lowered);
    crate::num::same(&l, &chars_of("column-break")) || crate::num::same(&l, &chars_of("spacer"))
}

/// Whether a board id, already lower-cased, names a page break.
pub fn page_break_name(lowered: &str) -> (b: bool)
    ensures
        b == (lowered@ == "page-break"@),
{
    crate::num::same(&chars_of(lowered), &chars_of("page-break"))
}

/// Whether a board is a column-break marker: its flags say so, or its id
/// does in any case.
pub fn is_column_break(board: &Board) -> (b: bool)
    ensures
        b == column_break_board(*board),
{
    if let Some(f) = board.bc_flags {
        if f.column_break() {
            return true;
        }
    }
    match &board.board_id {
        Some(id) => column_break_name(to_lowercase(id.as_str()).as_str()),
        None => false,
    }
}

/// Whether a board is a page-break marker: its flags say so, or its id does
/// in any case.
pub fn is_page_break(board: &Board) -> (b: bool)
    ensures
        b == page_break_board(*board),
{
    if let Some(f) = board.bc_flags {
        if f.page_break() {
            return true;
        }
    }
    match &board.board_id {
        Some(id) => page_break_name(to_lowercase(id.as_str()).as_str()),
        None => false,
    }
}

/// Whether flags are given and have a bit of `mask` set.
pub open spec fn flag_set(flags: Option<BCFlags>, mask: u32) -> bool {
    match flags {
        Some(f) => has_bits(f.bits(), mask),
        None => false,
    }
}

/// A board's `[Event]` text, when it has one that is not blank.
pub open spec fn printable_event(board: Board) -> Option<Seq<char>> {
    match board.event {
        Some(e) => if all_ws(e@) {
            None
        } else {
            Some(e@)
        },
        None => None,
    }
}

/// A board's `[Event]`, when it has one worth printing (see
/// [`printable_event`]).
pub fn board_event(board: &Board) -> (r: Option<&str>)
    ensures
        match printable_event(*board) {
            Some(x) => r matches Some(s) && s@ == x,
            None => r is None,
        },
{
    match &board.event {
        Some(e) => {
            let cs = chars_of(e.as_str());
            let mut i: usize = 0;
            while i < cs.len()
                invariant
                    i <= cs@.len(),
                    cs@ == e@,
                    board.event == Some(*e),
                    forall|j: int| 0 <= j < i ==> crate::text::is_ws(#[trigger] cs@[j]),
                decreases cs.len() - i,
            {
                if !crate::text::char_is_ws(cs[i]) {
                    assert(!crate::text::is_ws(e@[i as int]));
                    return Some(e.as_str());
                }
                i += 1;
            }
            None
        },
        None => None,
    }
}

/// The suit a declarer's plan lays out first: the trump suit, or clubs at
/// notrump or with no contract.
pub open spec fn trump_first_suit(trump: Option<Strain>) -> Suit {
    match trump {
        Some(Strain::Spades) => Suit::Spades,
        Some(Strain::Hearts) => Suit::Hearts,
        Some(Strain::Diamonds) => Suit::Diamonds,
        _ => Suit::Clubs,
    }
}

/// The suit a declarer's plan lays out first (see [`trump_first_suit`]).
pub fn first_suit_for_trump(trump: Option<Strain>) -> (s: Suit)
    ensures
        s == trump_first_suit(trump),
{
    match trump {
        Some(Strain::Spades) => Suit::Spades,
        Some(Strain::Hearts) => Suit::Hearts,
        Some(Strain::Diamonds) => Suit::Diamonds,
        Some(Strain::Clubs) => Suit::Clubs,
        _ => Suit::Clubs,
    }
}

/// A board that is only a break marker by its id: `column-break`, `spacer`
/// or `page-break` in any case. It has nothing to draw.
pub open spec fn name_break_marker(board: Board) -> bool {
    board.board_id matches Some(id) && (lower_case(id@) == "column-break"@ || lower_case(id@)
        == "spacer"@ || lower_case(id@) == "page-break"@)
}

/// Whether a board is a break marker by its id alone (see
/// [`name_break_marker`]).
pub fn is_name_break(board: &Board) -> (b: bool)
    ensures
        b == name_break_marker(*board),
{
    match &board.board_id {
        Some(id) => {
            let lowered = to_lowercase(id.as_str());
            column_break_name(lowered.as_str()) || page_break_name(lowered.as_str())
        },
        None => false,
    }
}

/// `format` with each `%` replaced by `id`.
pub open spec fn fill_mark(format: Seq<char>, id: Seq<char>) -> Seq<char>
    decreases format.len(),
{
    if format.len() == 0 {
        seq![]
    } else {
        fill_mark(format.drop_last(), id) + if format.last() == '%' {
            id
        } else {
            seq![format.last()]
        }
    }
}

/// A board's label: the label format with each `%` replaced by the board's
/// id, so `Board %` labels board 7 `Board 7` and `%)` labels it `7)`.
pub fn board_label(format: &str, board_id: &str) -> (s: String)
    ensures
        s@ == fill_mark(format@, board_id@),
{
    let f = chars_of(format);
    let id = chars_of(board_id);
    let mut out: Vec<char> = Vec::new();
    let mut i: usize = 0;
    while i < f.len()
        invariant
            i <= f@.len(),
            f@ == format@,
            id@ == board_id@,
            out@ == fill_mark(f@.take(i as int), id@),
        decreases f.len() - i,
    {
        assert(f@.take(i + 1).drop_last() =~= f@.take(i as int));
        if f[i] == '%' {
            append(&mut out, &id);
        } else {
            out.push(f[i]);
        }
        i += 1;
    }
    assert(f@.take(f@.len() as int) =~= f@);
    string_of(&out)
}

/// How many title lines a board takes in a column: its label when it has an
/// id, its dealer when it has one, and its vulnerability, each when shown.
pub fn title_lines(board: &Board, vis: &BoardVisibility) -> (n: usize)
    ensures
        n == (if vis.show_board && board.board_id is Some {
            1int
        } else {
            0int
        }) + (if vis.show_dealer && board.dealer is Some {
            1int
        } else {
            0int
        }) + (if vis.show_vulnerable {
            1int
        } else {
            0int
        }),
{
    let mut n: usize = 0;
    if vis.show_board && board.board_id.is_some() {
        n += 1;
    }
    if vis.show_dealer && board.dealer.is_some() {
        n += 1;
    }
    if vis.show_vulnerable {
        n += 1;
    }
    n
}

/// Whether a board's label runs into its auction's header instead of taking
/// a line of its own: for a board that shows its label and auction and
/// nothing else of its title or diagram, outside Center mode.
pub fn inline_board_label(board: &Board, vis: &BoardVisibility, center: bool) -> (b: bool)
    ensures
        b == (!center && !vis.show_diagram && vis.show_auction && board.auction is Some
            && vis.show_board && board.board_id is Some && !vis.show_dealer
            && !vis.show_vulnerable),
{
    !center && !vis.show_diagram && vis.show_auction && board.auction.is_some() && vis.show_board
        && board.board_id.is_some() && !vis.show_dealer && !vis.show_vulnerable
}

/// Whether a board has anything to draw besides its event commentary.
pub fn has_body(vis: &BoardVisibility, commentary: &ColumnCommentary) -> (b: bool)
    ensures
        b == (vis.show_board || vis.show_dealer || vis.show_vulnerable || vis.show_diagram
            || vis.show_auction || commentary.under_diagram@.len() > 0 || commentary.below@.len()
            > 0),
{
    vis.show_board || vis.show_dealer || vis.show_vulnerable || vis.show_diagram
        || vis.show_auction || commentary.under_diagram.len() > 0 || commentary.below.len() > 0
}

/// Whether commentary follows the contract and lead: in Center mode, final
/// commentary that shows; otherwise any commentary, when commentary shows.
pub fn has_more_below(board: &Board, vis: &BoardVisibility, commentary: &ColumnCommentary, center: bool) -> (b: bool)
    ensures
        b == if center {
            commentary.below@.len() > 0
        } else {
            vis.show_commentary && board.commentary@.len() > 0
        },
{
    if center {
        commentary.below.len() > 0
    } else {
        vis.show_commentary && board.commentary.len() > 0
    }
}

/// How many line gaps follow an auction: one before the contract or lead,
/// and one after each of them when more follows; in Center mode, with
/// neither, one before the commentary under the auction.
pub open spec fn gaps_after_auction(has_contract: bool, has_lead: bool, more_below: bool, center: bool) -> int {
    (if has_contract || has_lead {
        1int
    } else {
        0int
    }) + (if center && !has_contract && !has_lead && more_below {
        1int
    } else {
        0int
    }) + (if has_contract && (has_lead || more_below) {
        1int
    } else {
        0int
    }) + (if has_lead && more_below {
        1int
    } else {
        0int
    })
}

/// How many line gaps a column leaves after a board's auction (see
/// [`gaps_after_auction`]).
pub fn lines_after_auction(has_contract: bool, has_lead: bool, more_below: bool, center: bool) -> (n: usize)
    ensures
        n == gaps_after_auction(has_contract, has_lead, more_below, center),
{
    let mut n: usize = 0;
    if has_contract || has_lead {
        n += 1;
    }
    if center && !has_contract && !has_lead && more_below {
        n += 1;
    }
    if has_contract && (has_lead || more_below) {
        n += 1;
    }
    if has_lead && more_below {
        n += 1;
    }
    n
}

/// What a column does with the next board.
#[derive(Clone, Copy, Debug, PartialEq, Eq, Structural)]
pub enum ColumnAction {
    /// End the page; `consume` drops the board, a marker with nothing in it.
    BreakPage { consume: bool },
    /// Go on in the next column; `consume` drops the board as above.
    BreakColumn { consume: bool },
    /// Drop a board that has nothing to show.
    Skip,
    /// Go on in the next column: the board does not fit below what is there.
    NextColumn,
    /// Draw the board in this column.
    Place,
}

/// A page-break board: by its flags, or by its id.
pub open spec fn page_break_board(board: Board) -> bool {
    flag_set(board.bc_flags, 0x4000000) || (board.board_id matches Some(id) && lower_case(id@)
        == "page-break"@)
}

/// A column-break board: by its flags, or by its id.
pub open spec fn column_break_board(board: Board) -> bool {
    flag_set(board.bc_flags, 0x2000000) || (board.board_id matches Some(id) && (lower_case(id@)
        == "column-break"@ || lower_case(id@) == "spacer"@))
}

/// What a column holding `in_column` boards does with `board`, which measures
/// `empty` when it has nothing to draw and `fits` when it fits in the room
/// left. A break marker breaks, except that a board whose flags make it one
/// is drawn when the column is still empty; a marker by id alone is dropped
/// as it breaks. An empty board is dropped, and one that does not fit waits
/// for the next column, unless the column is empty.
pub open spec fn column_action_of(board: Board, in_column: int, empty: bool, fits: bool) -> ColumnAction {
    let page_flag = flag_set(board.bc_flags, 0x4000000);
    let column_flag = flag_set(board.bc_flags, 0x2000000);
    if page_break_board(board) && !(page_flag && in_column == 0) {
        ColumnAction::BreakPage { consume: !page_flag }
    } else if column_break_board(board) && !(column_flag && in_column == 0) {
        ColumnAction::BreakColumn { consume: !column_flag }
    } else if empty {
        ColumnAction::Skip
    } else if !fits && in_column > 0 {
        ColumnAction::NextColumn
    } else {
        ColumnAction::Place
    }
}

/// What a column holding `boards_in_column` boards does with `board` (see
/// [`column_action_of`]).
pub fn column_step(board: &Board, boards_in_column: usize, empty: bool, fits: bool) -> (a: ColumnAction)
    ensures
        a == column_action_of(*board, boards_in_column as int, empty, fits),
{
    let (page_flag, column_flag) = match board.bc_flags {
        Some(f) => (f.page_break(), f.column_break()),
        None => (false, false),
    };
    if is_page_break(board) && !(page_flag && boards_in_column == 0) {
        return ColumnAction::BreakPage { consume: !page_flag };
    }
    if is_column_break(board) && !(column_flag && boards_in_column == 0) {
        return ColumnAction::BreakColumn { consume: !column_flag };
    }
    if empty {
        ColumnAction::Skip
    } else if !fits && boards_in_column > 0 {
        ColumnAction::NextColumn
    } else {
        ColumnAction::Place
    }
}

/// Whether the column is done with the board: it is drawn or dropped.
pub open spec fn takes_board(a: ColumnAction) -> bool {
    match a {
        ColumnAction::BreakPage { consume } => consume,
        ColumnAction::BreakColumn { consume } => consume,
        ColumnAction::Skip => true,
        ColumnAction::NextColumn => false,
        ColumnAction::Place => true,
    }
}

/// An empty column always takes the next board: draws it, drops it as
/// empty, or drops it as a marker by id. So laying boards out in columns
/// always moves on, whatever the boards are.
pub proof fn an_empty_column_always_takes_the_next_board(board: Board, empty: bool, fits: bool)
    ensures
        takes_board(column_action_of(board, 0, empty, fits)),
{
}

/// The seat a declarer's plan turns to South: the contract's declarer, or
/// South when there is no contract.
pub open spec fn plan_declarer(board: Board) -> Direction {
    match board.contract {
        Some(c) => c.declarer,
        None => Direction::South,
    }
}

/// A board made ready for a declarer's plan.
#[derive(Debug)]
pub struct PreparedBoard {
    /// The dummy's hand, North once the declarer sits South.
    pub dummy_hand: Hand,
    /// The declarer's hand.
    pub declarer_hand: Hand,
    /// The contract is at notrump.
    pub is_nt: bool,
    /// The opening lead, when the play records it.
    pub opening_lead: Option<Card>,
    /// The board's number.
    pub deal_number: Option<u32>,
    /// The contract as its level and strain symbol, as in `4♠`.
    pub contract_str: Option<String>,
    /// The contract's strain.
    pub trump: Option<Strain>,
}

/// What a declarer's plan shows of a board: the hands turned so the declarer
/// sits South (see [`plan_declarer`]), whether the contract is at notrump,
/// the opening lead, the board's number, the contract as level and strain
/// symbol, and its strain.
pub fn prepare_board(board: &Board) -> (p: PreparedBoard)
    ensures
        same_hand(p.dummy_hand, hand_at(board.deal, partner(plan_declarer(*board)))),
        same_hand(p.declarer_hand, hand_at(board.deal, plan_declarer(*board))),
        p.is_nt == (board.contract matches Some(c) && c.suit == Strain::NoTrump),
        p.opening_lead == lead_of(board.play),
        p.deal_number == board.number,
        match board.contract {
            Some(c) => p.contract_str matches Some(s) && s@ == decimal(c.level as nat) + strain_symbol(
                c.suit,
            ),
            None => p.contract_str is None,
        },
        p.trump == match board.contract {
            Some(c) => Some(c.suit),
            None => None::<Strain>,
        },
{
    let (is_nt, contract_str, trump, declarer) = match &board.contract {
        Some(c) => {
            let mut v = u8_decimal(c.level);
            append(&mut v, &c.suit.symbol_chars());
            (matches!(c.suit, Strain::NoTrump), Some(string_of(&v)), Some(c.suit), c.declarer)
        },
        None => (false, None, None, Direction::South),
    };
    let (dummy_hand, declarer_hand) = rotate_deal_for_declarer(&board.deal, declarer);
    PreparedBoard {
        dummy_hand,
        declarer_hand,
        is_nt,
        opening_lead: board.opening_lead(),
        deal_number: board.number,
        contract_str,
        trump,
    }
}

/// The ranks of `s` as a diagram prints them, a space between each.
pub open spec fn spaced_ranks(s: Seq<Rank>) -> Seq<char>
    decreases s.len(),
{
    if s.len() == 0 {
        seq![]
    } else if s.len() == 1 {
        rank_display(s[0])
    } else {
        spaced_ranks(s.drop_last()) + seq![' '] + rank_display(s.last())
    }
}

/// How a hand diagram prints a suit's cards: `-` for a void, else its ranks
/// a space apart.
pub open spec fn diagram_suit_text(h: Holding) -> Seq<char> {
    if holding_len(h) == 0 {
        seq!['-']
    } else {
        spaced_ranks(h.ranks@)
    }
}

/// The cards of a suit line of a hand diagram (see [`diagram_suit_text`]).
pub fn diagram_suit_line(holding: &Holding) -> (s: String)
    ensures
        s@ == diagram_suit_text(*holding),
{
    if holding.is_void() {
        let v = vec!['-'];
        assert(v@ =~= seq!['-']);
        return string_of(&v);
    }
    let mut out: Vec<char> = Vec::new();
    let mut i: usize = 0;
    while i < holding.ranks.len()
        invariant
            i <= holding.ranks@.len(),
            out@ == spaced_ranks(holding.ranks@.take(i as int)),
        decreases holding.ranks.len() - i,
    {
        let ghost pre = holding.ranks@.take(i + 1);
        assert(pre.drop_last() =~= holding.ranks@.take(i as int));
        if i > 0 {
            out.push(' ');
        } else {
            assert(out@ =~= seq![]);
        }
        append(&mut out, &holding.ranks[i].display_chars());
        if i == 0 {
            assert(out@ =~= rank_display(pre[0]));
        } else {
            assert(out@ =~= spaced_ranks(pre.drop_last()) + seq![' '] + rank_display(pre.last()));
        }
        i += 1;
    }
    assert(holding.ranks@.take(holding.ranks@.len() as int) =~= holding.ranks@);
    string_of(&out)
}

/// A document's title: its first board's event, else `fallback`.
pub fn document_title<'a>(boards: &'a [Board], fallback: &'a str) -> (s: &'a str)
    ensures
        s@ == if boards@.len() > 0 && boards@[0].event is Some {
            boards@[0].event->0@
        } else {
            fallback@
        },
{
    if boards.len() > 0 {
        if let Some(e) = &boards[0].event {
            return e.as_str();
        }
    }
    fallback
}

} // verus!
