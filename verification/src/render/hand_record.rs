//! What a hand record page prints besides the hands themselves: its title
//! block, the label of each page, each board's small labels, and the cell of
//! the grid each board takes.
use vstd::prelude::*;

use crate::model::board::{vulnerability_text, Board};
use crate::model::card::Direction;
use crate::num::{decimal, u64_decimal};
use crate::render::layouts::flag_shows;
use crate::render::page_furniture::{date_arithmetic_fits, spelled, spelled_date};
use crate::text::{all_ws, append, chars_of, string_of};

verus! {

/// Cells across a hand record page.
pub const HAND_RECORD_COLUMNS: usize = 4;

/// The cells the title block takes, the first of every page.
pub const TITLE_CELLS: usize = 2;

/// Boards on a page: a four-by-five grid less the title block.
pub const BOARDS_PER_PAGE: usize = 18;

/// The cell of the grid at `index`, row by row: its column and its row.
pub fn grid_cell(index: usize) -> (c: (usize, usize))
    ensures
        c.0 == index % 4,
        c.1 == index / 4,
{
    (index % HAND_RECORD_COLUMNS, index / HAND_RECORD_COLUMNS)
}

/// The title a hand record takes before blanks are dropped:
/// `%HRTitleEvent`, else the first board's event.
pub open spec fn title_choice(title_from_metadata: Option<Seq<char>>, boards: Seq<Board>) -> Option<
    Seq<char>,
> {
    match title_from_metadata {
        Some(t) => Some(t),
        None => if boards.len() > 0 {
            match boards[0].event {
                Some(e) => Some(e@),
                None => None,
            }
        } else {
            None
        },
    }
}

/// The title a hand record shows: its [`title_choice`], unless blank.
pub open spec fn record_title(title_from_metadata: Option<Seq<char>>, boards: Seq<Board>) -> Option<
    Seq<char>,
> {
    match title_choice(title_from_metadata, boards) {
        Some(t) => if all_ws(t) {
            None
        } else {
            Some(t)
        },
        None => None,
    }
}

/// The title of a hand record (see [`record_title`]).
pub fn hand_record_title<'a>(title_from_metadata: Option<&'a str>, boards: &'a [Board]) -> (r:
    Option<&'a str>)
    ensures
        match record_title(
            match title_from_metadata {
                Some(t) => Some(t@),
                None => None,
            },
            boards@,
        ) {
            Some(x) => r matches Some(s) && s@ == x,
            None => r is None,
        },
{
    let chosen: Option<&'a str> = match title_from_metadata {
        Some(t) => Some(t),
        None => if boards.len() > 0 {
            match &boards[0].event {
                Some(e) => Some(e.as_str()),
                None => None,
            }
        } else {
            None
        },
    };
    let ghost meta = match title_from_metadata {
        Some(t) => Some(t@),
        None => None,
    };
    assert(match chosen {
        Some(c) => title_choice(meta, boards@) == Some(c@),
        None => title_choice(meta, boards@) is None,
    });
    match chosen {
        Some(t) => {
            let cs = chars_of(t);
            let mut i: usize = 0;
            while i < cs.len()
                invariant
                    i <= cs@.len(),
                    cs@ == t@,
                    title_choice(meta, boards@) == Some(t@),
                    meta == match title_from_metadata {
                        Some(t) => Some(t@),
                        None => None::<Seq<char>>,
                    },
                    forall|j: int| 0 <= j < i ==> crate::text::is_ws(#[trigger] cs@[j]),
                decreases cs.len() - i,
            {
                if !crate::text::char_is_ws(cs[i]) {
                    assert(!crate::text::is_ws(t@[i as int]));
                    return Some(t);
                }
                i += 1;
            }
            None
        },
        None => None,
    }
}

/// The lines of the title block: the title, then the date spelled out when
/// there is one that reads as a date.
pub open spec fn title_block_text(title: Seq<char>, date: Option<Seq<char>>) -> Seq<Seq<char>> {
    match date {
        Some(d) => match spelled(d) {
            Some(x) => seq![title, x],
            None => seq![title],
        },
        None => seq![title],
    }
}

/// The lines of the title block (see [`title_block_text`]).
pub fn title_block_lines(title: &str, date: Option<&str>) -> (lines: Vec<String>)
    requires
        date matches Some(d) ==> date_arithmetic_fits(d@),
    ensures
        lines@.map_values(|l: String| l@) == title_block_text(
            title@,
            match date {
                Some(d) => Some(d@),
                None => None,
            },
        ),
{
    let mut lines: Vec<String> = Vec::new();
    lines.push(string_of(&chars_of(title)));
    if let Some(d) = date {
        if let Some(x) = spelled_date(d) {
            lines.push(x);
        }
    }
    let ghost want = title_block_text(
        title@,
        match date {
            Some(d) => Some(d@),
            None => None,
        },
    );
    assert(lines@.map_values(|l: String| l@) =~= want);
    lines
}

/// The label in the corner of the title block: `Page ` and the number.
pub fn page_label(page: u64) -> (s: String)
    ensures
        s@ == "Page "@ + decimal(page as nat),
{
    let mut v = chars_of("Page ");
    append(&mut v, &u64_decimal(page));
    string_of(&v)
}

/// The letter a seat is written with.
pub open spec fn seat_letter(d: Direction) -> char {
    match d {
        Direction::North => 'N',
        Direction::East => 'E',
        Direction::South => 'S',
        Direction::West => 'W',
    }
}

/// A board's dealer label, as `N Deals`: when it has a dealer and its flags
/// do not hide it.
pub fn dealer_label(board: &Board) -> (r: Option<String>)
    ensures
        match board.dealer {
            Some(d) => if flag_shows(board.bc_flags, 0x200000) {
                r matches Some(s) && s@ == seq![seat_letter(d)] + " Deals"@
            } else {
                r is None
            },
            None => r is None,
        },
{
    let hidden = match board.bc_flags {
        Some(f) => f.hide_dealer(),
        None => false,
    };
    match board.dealer {
        Some(d) => {
            if hidden {
                return None;
            }
            let letter = match d {
                Direction::North => 'N',
                Direction::East => 'E',
                Direction::South => 'S',
                Direction::West => 'W',
            };
            let mut v = vec![letter];
            append(&mut v, &chars_of(" Deals"));
            assert(v@ =~= seq![seat_letter(d)] + " Deals"@);
            Some(string_of(&v))
        },
        None => None,
    }
}

/// A board's vulnerability label, unless its flags hide it.
pub fn vulnerability_label(board: &Board) -> (r: Option<String>)
    ensures
        if flag_shows(board.bc_flags, 0x400000) {
            r matches Some(s) && s@ == vulnerability_text(board.vulnerable)
        } else {
            r is None
        },
{
    let hidden = match board.bc_flags {
        Some(f) => f.hide_vulnerable(),
        None => false,
    };
    if hidden {
        None
    } else {
        Some(board.vulnerable.to_string())
    }
}

} // verus!
