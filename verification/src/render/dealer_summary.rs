//! What the dealer summary prints for each board: its number, dealer,
//! contract, declarer and opening lead, six boards to a page in two columns.
use vstd::prelude::*;

use crate::model::auction::Contract;
use crate::model::board::Board;
use crate::model::card::{seat_name, Card, Strain};
use crate::model::play::lead_of;
use crate::num::{decimal, u8_decimal};
use crate::text::{append, chars_of, string_of};

verus! {

/// Boards on a dealer summary page.
pub const SUMMARY_BOARDS_PER_PAGE: usize = 6;

/// Columns of boxes on a dealer summary page.
pub const SUMMARY_COLUMNS: usize = 2;

/// The box of the `i`th board of a page: its column and its row.
pub fn summary_box(i: usize) -> (c: (usize, usize))
    ensures
        c.0 == i % 2,
        c.1 == i / 2,
{
    (i % SUMMARY_COLUMNS, i / SUMMARY_COLUMNS)
}

/// The lines of one board's box, each absent when the board lacks it.
#[derive(Debug)]
pub struct SummaryCell {
    /// `Board: ` and the board's id.
    pub board: Option<String>,
    /// The dealer's name, printed bold after `Dealer: `.
    pub dealer: Option<String>,
    /// The contract's level, printed after `Contract: `.
    pub level: Option<String>,
    /// The contract's strain, its symbol printed after the level.
    pub strain: Option<Strain>,
    /// `X` or `XX` after the strain, or nothing.
    pub doubling: Option<String>,
    /// `Declarer: ` and the declarer's name.
    pub declarer: Option<String>,
    /// The opening lead, printed after `Lead: ` as its suit symbol and rank.
    pub lead: Option<Card>,
}

/// How a contract's doubling is printed: `XX`, `X`, or nothing.
pub open spec fn doubling_text(c: Contract) -> Seq<char> {
    if c.redoubled {
        "XX"@
    } else if c.doubled {
        "X"@
    } else {
        seq![]
    }
}

/// The text of an optional line.
pub open spec fn line_view(l: Option<String>) -> Option<Seq<char>> {
    match l {
        Some(s) => Some(s@),
        None => None,
    }
}

/// What a dealer summary prints for `board`.
pub fn summary_cell(board: &Board) -> (c: SummaryCell)
    ensures
        line_view(c.board) == match board.board_id {
            Some(id) => Some("Board: "@ + id@),
            None => None,
        },
        line_view(c.dealer) == match board.dealer {
            Some(d) => Some(seat_name(d)),
            None => None,
        },
        line_view(c.level) == match board.contract {
            Some(k) => Some(decimal(k.level as nat)),
            None => None,
        },
        c.strain == match board.contract {
            Some(k) => Some(k.suit),
            None => None,
        },
        line_view(c.doubling) == match board.contract {
            Some(k) => Some(doubling_text(k)),
            None => None,
        },
        line_view(c.declarer) == match board.contract {
            Some(k) => Some("Declarer: "@ + seat_name(k.declarer)),
            None => None,
        },
        c.lead == lead_of(board.play),
{
    let b = match &board.board_id {
        Some(id) => {
            let mut v = chars_of("Board: ");
            append(&mut v, &chars_of(id.as_str()));
            Some(string_of(&v))
        },
        None => None,
    };
    let dealer = match board.dealer {
        Some(d) => Some(d.name()),
        None => None,
    };
    let (level, strain, doubling, declarer) = match &board.contract {
        Some(k) => {
            let d = if k.redoubled {
                chars_of("XX")
            } else if k.doubled {
                chars_of("X")
            } else {
                Vec::new()
            };
            assert(d@ =~= doubling_text(*k));
            let mut who = chars_of("Declarer: ");
            append(&mut who, &k.declarer.name_chars());
            (
                Some(string_of(&u8_decimal(k.level))),
                Some(k.suit),
                Some(string_of(&d)),
                Some(string_of(&who)),
            )
        },
        None => (None, None, None, None),
    };
    SummaryCell { board: b, dealer, level, strain, doubling, declarer, lead: board.opening_lead() }
}

} // verus!
