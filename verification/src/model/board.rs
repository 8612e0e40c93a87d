//! A board as the page shows it: its number, setup, deal, auction, play
//! result, commentary and display flags.
use vstd::prelude::*;

use super::auction::{Auction, Contract};
use super::bcflags::BCFlags;
use super::card::{next_seat, seat_name, Direction};
use super::commentary::CommentaryBlock;
use super::deal::{deal_is_empty, Deal};
use super::play::{lead_of, PlaySequence};
use super::card::Card;
use crate::num::{decimal, u64_decimal};
use crate::text::{append, ascii, upper, chars_of, contains, lower, string_of, to_lower, to_uppercase, trim, trim_chars, upper_case};

verus! {

/// Which hands a diagram leaves out.
#[derive(Clone, Copy, Debug, PartialEq, Eq, Structural)]
pub struct HiddenHands {
    pub north: bool,
    pub east: bool,
    pub south: bool,
    pub west: bool,
}

impl Default for HiddenHands {
    fn default() -> (h: Self)
        ensures
            h == (HiddenHands { north: false, east: false, south: false, west: false }),
    {
        HiddenHands { north: false, east: false, south: false, west: false }
    }
}

/// Whether `seat` is among the hidden hands `h`.
pub open spec fn hidden_at(h: HiddenHands, seat: Direction) -> bool {
    match seat {
        Direction::North => h.north,
        Direction::East => h.east,
        Direction::South => h.south,
        Direction::West => h.west,
    }
}

impl HiddenHands {
    /// The hands a `[Hidden]` tag names, its value already upper-cased: each
    /// seat whose letter occurs.
    pub fn from_upper_case(u: &str) -> (h: Self)
        ensures
            h.north == contains(u@, seq!['N']),
            h.east == contains(u@, seq!['E']),
            h.south == contains(u@, seq!['S']),
            h.west == contains(u@, seq!['W']),
    {
        let cs = chars_of(u);
        let n = ['N'];
        let e = ['E'];
        let s = ['S'];
        let w = ['W'];
        assert(n@ =~= seq!['N'] && e@ =~= seq!['E'] && s@ =~= seq!['S'] && w@ =~= seq!['W']);
        HiddenHands {
            north: crate::text::contains_chars(&cs, &n),
            east: crate::text::contains_chars(&cs, &e),
            south: crate::text::contains_chars(&cs, &s),
            west: crate::text::contains_chars(&cs, &w),
        }
    }

    /// The hands a `[Hidden]` tag value such as `NS` or `ESW` names, in
    /// either case.
    pub fn from_pbn(s: &str) -> (h: Self)
        ensures
            h.north == contains(upper_case(s@), seq!['N']),
            h.east == contains(upper_case(s@), seq!['E']),
            h.south == contains(upper_case(s@), seq!['S']),
            h.west == contains(upper_case(s@), seq!['W']),
            ascii(s@) ==> (h.north == contains(upper(s@), seq!['N']) && h.east == contains(
                upper(s@),
                seq!['E'],
            ) && h.south == contains(upper(s@), seq!['S']) && h.west == contains(
                upper(s@),
                seq!['W'],
            )),
    {
        let u = to_uppercase(s);
        Self::from_upper_case(u.as_str())
    }

    /// Whether `direction`'s hand is hidden.
    pub fn is_hidden(&self, direction: Direction) -> (b: bool)
        ensures
            b == hidden_at(*self, direction),
    {
        match direction {
            Direction::North => self.north,
            Direction::East => self.east,
            Direction::South => self.south,
            Direction::West => self.west,
        }
    }

    /// Every hand is hidden.
    pub fn all_hidden(&self) -> (b: bool)
        ensures
            b == (self.north && self.east && self.south && self.west),
    {
        self.north && self.east && self.south && self.west
    }

    /// No hand is hidden.
    pub fn none_hidden(&self) -> (b: bool)
        ensures
            b == (!self.north && !self.east && !self.south && !self.west),
    {
        !self.north && !self.east && !self.south && !self.west
    }
}

/// Which side is vulnerable.
#[derive(Clone, Copy, Debug, PartialEq, Eq, Structural)]
pub enum Vulnerability {
    Neither,
    NorthSouth,
    EastWest,
    Both,
}

/// The vulnerability a PBN `[Vulnerable]` value names, in any case:
/// `None`, `Love` or `-`; `NS` or `N-S`; `EW` or `E-W`; `Both` or `All`.
pub open spec fn vulnerability_of(s: Seq<char>) -> Option<Vulnerability> {
    let l = lower(trim(s));
    if l == seq!['n', 'o', 'n', 'e'] || l == seq!['l', 'o', 'v', 'e'] || l == seq!['-'] {
        Some(Vulnerability::Neither)
    } else if l == seq!['n', 's'] || l == seq!['n', '-', 's'] {
        Some(Vulnerability::NorthSouth)
    } else if l == seq!['e', 'w'] || l == seq!['e', '-', 'w'] {
        Some(Vulnerability::EastWest)
    } else if l == seq!['b', 'o', 't', 'h'] || l == seq!['a', 'l', 'l'] {
        Some(Vulnerability::Both)
    } else {
        None
    }
}

/// How a title line states the vulnerability.
pub open spec fn vulnerability_text(v: Vulnerability) -> Seq<char> {
    match v {
        Vulnerability::Neither => seq!['N', 'o', 'n', 'e', ' ', 'V', 'u', 'l'],
        Vulnerability::NorthSouth => seq!['N', '-', 'S', ' ', 'V', 'u', 'l'],
        Vulnerability::EastWest => seq!['E', '-', 'W', ' ', 'V', 'u', 'l'],
        Vulnerability::Both => seq!['B', 'o', 't', 'h', ' ', 'V', 'u', 'l'],
    }
}

/// Whether `seat` is vulnerable under `v`.
pub open spec fn vulnerable_seat(v: Vulnerability, seat: Direction) -> bool {
    match v {
        Vulnerability::Neither => false,
        Vulnerability::NorthSouth => seat == Direction::North || seat == Direction::South,
        Vulnerability::EastWest => seat == Direction::East || seat == Direction::West,
        Vulnerability::Both => true,
    }
}

fn lower_is(l: &[char], p: &[char]) -> (b: bool)
    ensures
        b == (l@ == p@),
{
    crate::num::same(l, p)
}

impl Vulnerability {
    /// The vulnerability a PBN value names (see [`vulnerability_of`]).
    pub fn from_pbn(s: &str) -> (v: Option<Vulnerability>)
        ensures
            v == vulnerability_of(s@),
    {
        let l = to_lower(&trim_chars(&chars_of(s)));
        let none = ['n', 'o', 'n', 'e'];
        let love = ['l', 'o', 'v', 'e'];
        let dash = ['-'];
        let ns = ['n', 's'];
        let n_s = ['n', '-', 's'];
        let ew = ['e', 'w'];
        let e_w = ['e', '-', 'w'];
        let both = ['b', 'o', 't', 'h'];
        let all = ['a', 'l', 'l'];
        assert(none@ =~= seq!['n', 'o', 'n', 'e'] && love@ =~= seq!['l', 'o', 'v', 'e'] && dash@
            =~= seq!['-']);
        assert(ns@ =~= seq!['n', 's'] && n_s@ =~= seq!['n', '-', 's'] && ew@ =~= seq!['e', 'w']);
        assert(e_w@ =~= seq!['e', '-', 'w'] && both@ =~= seq!['b', 'o', 't', 'h'] && all@ =~= seq![
            'a',
            'l',
            'l',
        ]);
        if lower_is(&l, &none) || lower_is(&l, &love) || lower_is(&l, &dash) {
            Some(Vulnerability::Neither)
        } else if lower_is(&l, &ns) || lower_is(&l, &n_s) {
            Some(Vulnerability::NorthSouth)
        } else if lower_is(&l, &ew) || lower_is(&l, &e_w) {
            Some(Vulnerability::EastWest)
        } else if lower_is(&l, &both) || lower_is(&l, &all) {
            Some(Vulnerability::Both)
        } else {
            None
        }
    }

    /// Whether `seat` is vulnerable.
    pub fn is_vulnerable(&self, seat: Direction) -> (b: bool)
        ensures
            b == vulnerable_seat(*self, seat),
    {
        match self {
            Vulnerability::Neither => false,
            Vulnerability::NorthSouth => matches!(seat, Direction::North | Direction::South),
            Vulnerability::EastWest => matches!(seat, Direction::East | Direction::West),
            Vulnerability::Both => true,
        }
    }

    fn text_chars(&self) -> (v: Vec<char>)
        ensures
            v@ == vulnerability_text(*self),
    {
        let v = match self {
            Vulnerability::Neither => vec!['N', 'o', 'n', 'e', ' ', 'V', 'u', 'l'],
            Vulnerability::NorthSouth => vec!['N', '-', 'S', ' ', 'V', 'u', 'l'],
            Vulnerability::EastWest => vec!['E', '-', 'W', ' ', 'V', 'u', 'l'],
            Vulnerability::Both => vec!['B', 'o', 't', 'h', ' ', 'V', 'u', 'l'],
        };
        assert(v@ =~= vulnerability_text(*self));
        v
    }

    /// How a title line states the vulnerability.
    pub fn to_string(&self) -> (r: String)
        ensures
            r@ == vulnerability_text(*self),
    {
        string_of(&self.text_chars())
    }
}

/// The players' names, by seat, as the file gives them.
#[derive(Clone, Debug)]
pub struct PlayerNames {
    pub north: Option<String>,
    pub east: Option<String>,
    pub south: Option<String>,
    pub west: Option<String>,
}

/// The name given for `seat`.
pub open spec fn name_at(p: PlayerNames, seat: Direction) -> Option<String> {
    match seat {
        Direction::North => p.north,
        Direction::East => p.east,
        Direction::South => p.south,
        Direction::West => p.west,
    }
}

impl PlayerNames {
    /// No names.
    pub fn new() -> (p: Self)
        ensures
            p.north is None && p.east is None && p.south is None && p.west is None,
    {
        PlayerNames { north: None, east: None, south: None, west: None }
    }

    /// The name given for `seat`, if any.
    pub fn get(&self, seat: Direction) -> (r: Option<&str>)
        ensures
            match name_at(*self, seat) {
                Some(n) => r matches Some(s) && s@ == n@,
                None => r is None,
            },
    {
        let n = match seat {
            Direction::North => &self.north,
            Direction::East => &self.east,
            Direction::South => &self.south,
            Direction::West => &self.west,
        };
        match n {
            Some(s) => Some(s.as_str()),
            None => None,
        }
    }

    /// Whether any seat has a name.
    pub fn has_any(&self) -> (b: bool)
        ensures
            b == (self.north is Some || self.east is Some || self.south is Some || self.west is Some),
    {
        self.north.is_some() || self.east.is_some() || self.south.is_some() || self.west.is_some()
    }
}

/// A board and everything the page shows of it.
#[derive(Clone, Debug)]
pub struct Board {
    pub number: Option<u32>,
    /// The board's identifier as the file writes it (`1`, `1-1`, ...).
    pub board_id: Option<String>,
    pub event: Option<String>,
    pub site: Option<String>,
    pub date: Option<String>,
    pub dealer: Option<Direction>,
    pub vulnerable: Vulnerability,
    pub deal: Deal,
    /// The players, by seat.
    pub players: PlayerNames,
    pub auction: Option<Auction>,
    pub contract: Option<Contract>,
    pub declarer: Option<Direction>,
    /// The play, when the file records it.
    pub play: Option<PlaySequence>,
    pub result: Option<i8>,
    pub commentary: Vec<CommentaryBlock>,
    /// Bridge Composer's display flags.
    pub bc_flags: Option<BCFlags>,
    /// The hands the `[Hidden]` tag leaves out.
    pub hidden: HiddenHands,
}

/// The separator between the parts of a title line.
pub open spec fn title_separator() -> Seq<char> {
    seq![' ', '\u{2022}', ' ']
}

/// A board's title line: `Board N`, `<dealer> Deals` and the vulnerability,
/// each part there only when the board gives it, joined by ` • `.
pub open spec fn title_text(number: Option<u32>, dealer: Option<Direction>, v: Vulnerability) -> Seq<
    char,
> {
    (match number {
        Some(n) => seq!['B', 'o', 'a', 'r', 'd', ' '] + decimal(n as nat) + title_separator(),
        None => seq![],
    }) + (match dealer {
        Some(d) => seat_name(d) + seq![' ', 'D', 'e', 'a', 'l', 's'] + title_separator(),
        None => seq![],
    }) + vulnerability_text(v)
}

impl Board {
    /// A board with nothing set: no number, no dealer, nobody vulnerable, an
    /// empty deal, and no auction, play or commentary.
    pub fn new() -> (b: Self)
        ensures
            b.number is None && b.board_id is None && b.event is None,
            b.site is None && b.date is None && b.dealer is None,
            b.vulnerable == Vulnerability::Neither,
            deal_is_empty(b.deal),
            b.players.north is None && b.players.east is None && b.players.south is None
                && b.players.west is None,
            b.auction is None && b.contract is None && b.declarer is None && b.play is None,
            b.result is None && b.commentary@.len() == 0 && b.bc_flags is None,
            b.hidden == (HiddenHands { north: false, east: false, south: false, west: false }),
    {
        Board {
            number: None,
            board_id: None,
            event: None,
            site: None,
            date: None,
            dealer: None,
            vulnerable: Vulnerability::Neither,
            deal: Deal::new(),
            players: PlayerNames::new(),
            auction: None,
            contract: None,
            declarer: None,
            play: None,
            result: None,
            commentary: Vec::new(),
            bc_flags: None,
            hidden: HiddenHands { north: false, east: false, south: false, west: false },
        }
    }

    /// The board numbered `number`.
    pub fn with_number(self, number: u32) -> (b: Self)
        ensures
            b == (Board { number: Some(number), ..self }),
    {
        Board { number: Some(number), ..self }
    }

    /// The board dealt by `dealer`.
    pub fn with_dealer(self, dealer: Direction) -> (b: Self)
        ensures
            b == (Board { dealer: Some(dealer), ..self }),
    {
        Board { dealer: Some(dealer), ..self }
    }

    /// The board with vulnerability `vuln`.
    pub fn with_vulnerability(self, vuln: Vulnerability) -> (b: Self)
        ensures
            b == (Board { vulnerable: vuln, ..self }),
    {
        Board { vulnerable: vuln, ..self }
    }

    /// The board with deal `deal`.
    pub fn with_deal(self, deal: Deal) -> (b: Self)
        ensures
            b == (Board { deal, ..self }),
    {
        Board { deal, ..self }
    }

    /// The title line (see [`title_text`]).
    pub fn title(&self) -> (r: String)
        ensures
            r@ == title_text(self.number, self.dealer, self.vulnerable),
    {
        let sep = [' ', '\u{2022}', ' '];
        assert(sep@ =~= title_separator());
        let mut v: Vec<char> = Vec::new();
        match self.number {
            Some(n) => {
                append(&mut v, &['B', 'o', 'a', 'r', 'd', ' ']);
                append(&mut v, &u64_decimal(n as u64));
                append(&mut v, &sep);
            },
            None => {},
        }
        let ghost first = v@;
        match self.dealer {
            Some(d) => {
                append(&mut v, &d.name_chars());
                append(&mut v, &[' ', 'D', 'e', 'a', 'l', 's']);
                append(&mut v, &sep);
            },
            None => {},
        }
        append(&mut v, &self.vulnerable.text_chars());
        assert(v@ =~= title_text(self.number, self.dealer, self.vulnerable));
        string_of(&v)
    }

    /// Whether the board carries any commentary.
    pub fn has_commentary(&self) -> (b: bool)
        ensures
            b == (self.commentary@.len() > 0),
    {
        self.commentary.len() > 0
    }

    /// The opening lead, when the play records it (see [`lead_of`]).
    pub fn opening_lead(&self) -> (c: Option<Card>)
        ensures
            c == lead_of(self.play),
    {
        match &self.play {
            Some(p) => if p.tricks.len() > 0 {
                p.tricks[0].cards[0]
            } else {
                None
            },
            None => None,
        }
    }

    /// Who leads: the seat after the declarer, when the board names one.
    pub fn opening_lead_direction(&self) -> (d: Option<Direction>)
        ensures
            d == (match self.declarer {
                Some(x) => Some(next_seat(x)),
                None => None,
            }),
    {
        match self.declarer {
            Some(x) => Some(x.next()),
            None => None,
        }
    }
}

} // verus!
