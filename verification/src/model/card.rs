//! Suits, ranks, seats and strains, with the spellings PBN and the page use.
use vstd::prelude::*;

verus! {

/// A card suit.
#[derive(Clone, Copy, Debug, PartialEq, Eq, Structural, Hash)]
pub enum Suit {
    Spades,
    Hearts,
    Diamonds,
    Clubs,
}

/// The suits in the order a diagram prints them.
pub const SUITS_DISPLAY_ORDER: [Suit; 4] = [Suit::Spades, Suit::Hearts, Suit::Diamonds, Suit::Clubs];

/// The symbol a suit is printed with.
pub open spec fn suit_symbol(s: Suit) -> char {
    match s {
        Suit::Spades => '\u{2660}',
        Suit::Hearts => '\u{2665}',
        Suit::Diamonds => '\u{2666}',
        Suit::Clubs => '\u{2663}',
    }
}

impl Suit {
    /// The Unicode symbol for this suit.
    pub fn symbol(&self) -> (c: char)
        ensures
            c == suit_symbol(*self),
    {
        match self {
            Suit::Spades => '\u{2660}',
            Suit::Hearts => '\u{2665}',
            Suit::Diamonds => '\u{2666}',
            Suit::Clubs => '\u{2663}',
        }
    }

    /// Whether the suit is printed in red.
    pub fn is_red(&self) -> (r: bool)
        ensures
            r == (*self == Suit::Hearts || *self == Suit::Diamonds),
    {
        matches!(self, Suit::Hearts | Suit::Diamonds)
    }
}

/// A card rank, Two to Ace.
#[derive(Clone, Copy, Debug, PartialEq, Eq, Structural, Hash)]
pub enum Rank {
    Two,
    Three,
    Four,
    Five,
    Six,
    Seven,
    Eight,
    Nine,
    Ten,
    Jack,
    Queen,
    King,
    Ace,
}

/// The numeric value of a rank: 2 for a Two up to 14 for an Ace.
pub open spec fn rank_value(r: Rank) -> int {
    match r {
        Rank::Two => 2,
        Rank::Three => 3,
        Rank::Four => 4,
        Rank::Five => 5,
        Rank::Six => 6,
        Rank::Seven => 7,
        Rank::Eight => 8,
        Rank::Nine => 9,
        Rank::Ten => 10,
        Rank::Jack => 11,
        Rank::Queen => 12,
        Rank::King => 13,
        Rank::Ace => 14,
    }
}

/// The rank a PBN file writes as `c`: `A K Q J T` and the digits `9` to `2`.
pub open spec fn rank_of_char(c: char) -> Option<Rank> {
    if c == 'A' {
        Some(Rank::Ace)
    } else if c == 'K' {
        Some(Rank::King)
    } else if c == 'Q' {
        Some(Rank::Queen)
    } else if c == 'J' {
        Some(Rank::Jack)
    } else if c == 'T' {
        Some(Rank::Ten)
    } else if c == '9' {
        Some(Rank::Nine)
    } else if c == '8' {
        Some(Rank::Eight)
    } else if c == '7' {
        Some(Rank::Seven)
    } else if c == '6' {
        Some(Rank::Six)
    } else if c == '5' {
        Some(Rank::Five)
    } else if c == '4' {
        Some(Rank::Four)
    } else if c == '3' {
        Some(Rank::Three)
    } else if c == '2' {
        Some(Rank::Two)
    } else {
        None
    }
}

/// High-card points: Ace 4, King 3, Queen 2, Jack 1.
pub open spec fn rank_hcp(r: Rank) -> int {
    match r {
        Rank::Ace => 4,
        Rank::King => 3,
        Rank::Queen => 2,
        Rank::Jack => 1,
        _ => 0,
    }
}

/// How a rank is printed on the page.
pub open spec fn rank_display(r: Rank) -> Seq<char> {
    match r {
        Rank::Ace => seq!['A'],
        Rank::King => seq!['K'],
        Rank::Queen => seq!['Q'],
        Rank::Jack => seq!['J'],
        Rank::Ten => seq!['1', '0'],
        Rank::Nine => seq!['9'],
        Rank::Eight => seq!['8'],
        Rank::Seven => seq!['7'],
        Rank::Six => seq!['6'],
        Rank::Five => seq!['5'],
        Rank::Four => seq!['4'],
        Rank::Three => seq!['3'],
        Rank::Two => seq!['2'],
    }
}

impl Rank {
    /// The rank `c` stands for in PBN, if any.
    pub fn from_char(c: char) -> (r: Option<Rank>)
        ensures
            r == rank_of_char(c),
    {
        match c {
            'A' => Some(Rank::Ace),
            'K' => Some(Rank::King),
            'Q' => Some(Rank::Queen),
            'J' => Some(Rank::Jack),
            'T' => Some(Rank::Ten),
            '9' => Some(Rank::Nine),
            '8' => Some(Rank::Eight),
            '7' => Some(Rank::Seven),
            '6' => Some(Rank::Six),
            '5' => Some(Rank::Five),
            '4' => Some(Rank::Four),
            '3' => Some(Rank::Three),
            '2' => Some(Rank::Two),
            _ => None,
        }
    }

    /// The rank's value, 2 to 14.
    pub fn value(&self) -> (v: u8)
        ensures
            v == rank_value(*self),
    {
        match self {
            Rank::Two => 2,
            Rank::Three => 3,
            Rank::Four => 4,
            Rank::Five => 5,
            Rank::Six => 6,
            Rank::Seven => 7,
            Rank::Eight => 8,
            Rank::Nine => 9,
            Rank::Ten => 10,
            Rank::Jack => 11,
            Rank::Queen => 12,
            Rank::King => 13,
            Rank::Ace => 14,
        }
    }

    /// High-card points of this rank.
    pub fn hcp_value(&self) -> (v: u8)
        ensures
            v == rank_hcp(*self),
    {
        match self {
            Rank::Ace => 4,
            Rank::King => 3,
            Rank::Queen => 2,
            Rank::Jack => 1,
            _ => 0,
        }
    }

    /// The characters the rank is printed as.
    pub fn display_chars(&self) -> (s: Vec<char>)
        ensures
            s@ == rank_display(*self),
    {
        let s = match self {
            Rank::Ace => vec!['A'],
            Rank::King => vec!['K'],
            Rank::Queen => vec!['Q'],
            Rank::Jack => vec!['J'],
            Rank::Ten => vec!['1', '0'],
            Rank::Nine => vec!['9'],
            Rank::Eight => vec!['8'],
            Rank::Seven => vec!['7'],
            Rank::Six => vec!['6'],
            Rank::Five => vec!['5'],
            Rank::Four => vec!['4'],
            Rank::Three => vec!['3'],
            Rank::Two => vec!['2'],
        };
        assert(s@ =~= rank_display(*self));
        s
    }
}

/// A seat at the table.
#[derive(Clone, Copy, Debug, PartialEq, Eq, Structural, Hash)]
pub enum Direction {
    North,
    East,
    South,
    West,
}

/// The seat after `d`, clockwise.
pub open spec fn next_seat(d: Direction) -> Direction {
    match d {
        Direction::North => Direction::East,
        Direction::East => Direction::South,
        Direction::South => Direction::West,
        Direction::West => Direction::North,
    }
}

/// The seat a PBN file writes as `c`.
pub open spec fn seat_of_char(c: char) -> Option<Direction> {
    if c == 'N' {
        Some(Direction::North)
    } else if c == 'E' {
        Some(Direction::East)
    } else if c == 'S' {
        Some(Direction::South)
    } else if c == 'W' {
        Some(Direction::West)
    } else {
        None
    }
}

impl Direction {
    /// The next seat clockwise.
    pub fn next(&self) -> (d: Direction)
        ensures
            d == next_seat(*self),
    {
        match self {
            Direction::North => Direction::East,
            Direction::East => Direction::South,
            Direction::South => Direction::West,
            Direction::West => Direction::North,
        }
    }

    /// The seat `c` names in PBN (`N`, `E`, `S`, `W`).
    pub fn from_char(c: char) -> (d: Option<Direction>)
        ensures
            d == seat_of_char(c),
    {
        match c {
            'N' => Some(Direction::North),
            'E' => Some(Direction::East),
            'S' => Some(Direction::South),
            'W' => Some(Direction::West),
            _ => None,
        }
    }
}

/// The strain of a bid.
#[derive(Clone, Copy, Debug, PartialEq, Eq, Structural, Hash)]
pub enum Strain {
    Clubs,
    Diamonds,
    Hearts,
    Spades,
    NoTrump,
}

impl Strain {
    /// Whether the strain is printed in red.
    pub fn is_red(&self) -> (r: bool)
        ensures
            r == (*self == Strain::Hearts || *self == Strain::Diamonds),
    {
        matches!(self, Strain::Hearts | Strain::Diamonds)
    }
}


/// The symbol a strain is printed with: its suit's symbol, or `NT`.
pub open spec fn strain_symbol(s: Strain) -> Seq<char> {
    match s {
        Strain::Clubs => seq!['\u{2663}'],
        Strain::Diamonds => seq!['\u{2666}'],
        Strain::Hearts => seq!['\u{2665}'],
        Strain::Spades => seq!['\u{2660}'],
        Strain::NoTrump => seq!['N', 'T'],
    }
}

/// The other name bidding code gives a strain.
pub type BidSuit = Strain;

impl Strain {
    /// The characters of [`Strain::symbol`].
    pub fn symbol_chars(&self) -> (v: Vec<char>)
        ensures
            v@ == strain_symbol(*self),
    {
        let v = match self {
            Strain::Clubs => vec!['\u{2663}'],
            Strain::Diamonds => vec!['\u{2666}'],
            Strain::Hearts => vec!['\u{2665}'],
            Strain::Spades => vec!['\u{2660}'],
            Strain::NoTrump => vec!['N', 'T'],
        };
        assert(v@ =~= strain_symbol(*self));
        v
    }

    /// The symbol the strain is printed with.
    pub fn symbol(&self) -> (r: String)
        ensures
            r@ == strain_symbol(*self),
    {
        crate::text::string_of(&self.symbol_chars())
    }
}

/// The name of a seat, as the page spells it.
pub open spec fn seat_name(d: Direction) -> Seq<char> {
    match d {
        Direction::North => seq!['N', 'o', 'r', 't', 'h'],
        Direction::East => seq!['E', 'a', 's', 't'],
        Direction::South => seq!['S', 'o', 'u', 't', 'h'],
        Direction::West => seq!['W', 'e', 's', 't'],
    }
}

impl Direction {
    /// The characters of the seat's name.
    pub fn name_chars(&self) -> (v: Vec<char>)
        ensures
            v@ == seat_name(*self),
    {
        let v = match self {
            Direction::North => vec!['N', 'o', 'r', 't', 'h'],
            Direction::East => vec!['E', 'a', 's', 't'],
            Direction::South => vec!['S', 'o', 'u', 't', 'h'],
            Direction::West => vec!['W', 'e', 's', 't'],
        };
        assert(v@ =~= seat_name(*self));
        v
    }

    /// The seat's name.
    pub fn name(&self) -> (r: String)
        ensures
            r@ == seat_name(*self),
    {
        crate::text::string_of(&self.name_chars())
    }
}

/// A card: a suit and a rank.
#[derive(Clone, Copy, Debug, PartialEq, Eq, Structural, Hash)]
pub struct Card {
    pub suit: Suit,
    pub rank: Rank,
}

} // verus!
