//! What a PBN file's `%` header lines set for the whole document.
//!
//! Lengths, sizes and paper dimensions are kept as the decimal text the file
//! wrote (already checked to read as a number); the renderer converts them to
//! millimetres and points.
use vstd::prelude::*;

verus! {

/// Page margins as `%Margins` gives them: top, bottom, right and left, in
/// twips (1000 to the inch), as written.
#[derive(Debug, Clone, PartialEq, Eq)]
pub struct MarginsText {
    pub top: String,
    pub bottom: String,
    pub right: String,
    pub left: String,
}

/// The paper `%PaperSize` asks for.
#[derive(Debug, Clone, PartialEq, Eq)]
pub enum PaperSpec {
    /// No dimensions given: US Letter.
    Default,
    /// Width and height in tenths of a millimetre, as written; the renderer
    /// matches them to Letter, A4 or Legal.
    Dimensions { width: String, height: String },
}

/// A `%Font:` setting: family, size in points (as written), weight, italic.
#[derive(Debug, Clone, PartialEq, Eq)]
pub struct FontSpec {
    pub family: String,
    pub size: String,
    pub weight: u16,
    pub italic: bool,
}

/// The fonts a file names, by role.
#[derive(Debug, Clone, Default)]
pub struct FontSettings {
    pub card_table: Option<FontSpec>,
    pub commentary: Option<FontSpec>,
    pub diagram: Option<FontSpec>,
    pub event: Option<FontSpec>,
    pub fixed_pitch: Option<FontSpec>,
    pub hand_record: Option<FontSpec>,
}

/// The suit colors `%PipColors` gives.
#[derive(Debug, Clone, Copy, PartialEq, Eq)]
pub struct ColorSettings {
    pub spades: (u8, u8, u8),
    pub hearts: (u8, u8, u8),
    pub diamonds: (u8, u8, u8),
    pub clubs: (u8, u8, u8),
}

impl ColorSettings {
    /// Black spades and clubs, red hearts and diamonds.
    pub fn standard() -> (c: Self)
        ensures
            c.spades == (0u8, 0u8, 0u8) && c.clubs == (0u8, 0u8, 0u8),
            c.hearts == (255u8, 0u8, 0u8) && c.diamonds == (255u8, 0u8, 0u8),
    {
        ColorSettings {
            spades: (0, 0, 0),
            hearts: (255, 0, 0),
            diamonds: (255, 0, 0),
            clubs: (0, 0, 0),
        }
    }
}

/// Page layout settings from the header.
#[derive(Debug, Clone)]
pub struct LayoutSettings {
    pub boards_per_page: Option<u8>,
    pub column_count: u8,
    pub margins: Option<MarginsText>,
    pub paper_size: Option<PaperSpec>,
    pub show_hcp: bool,
    pub show_card_table: Option<bool>,
    pub show_board_labels: Option<bool>,
    pub justify: bool,
    pub center: bool,
    pub two_col_auctions: bool,
    pub board_label_format: Option<String>,
}

impl LayoutSettings {
    /// Nothing set: one column, every flag off.
    pub fn new() -> (l: Self)
        ensures
            l.boards_per_page is None,
            l.column_count == 1,
            l.margins is None,
            l.paper_size is None,
            !l.show_hcp && !l.justify && !l.center && !l.two_col_auctions,
            l.show_card_table is None,
            l.show_board_labels is None,
            l.board_label_format is None,
    {
        LayoutSettings {
            boards_per_page: None,
            column_count: 1,
            margins: None,
            paper_size: None,
            show_hcp: false,
            show_card_table: None,
            show_board_labels: None,
            justify: false,
            center: false,
            two_col_auctions: false,
            board_label_format: None,
        }
    }
}

/// Everything the header lines of a PBN file set.
#[derive(Debug, Clone)]
pub struct PbnMetadata {
    pub version: Option<String>,
    pub creator: Option<String>,
    pub created: Option<String>,
    pub layout: LayoutSettings,
    pub fonts: FontSettings,
    pub colors: ColorSettings,
    pub title_event: Option<String>,
    pub title_date: Option<String>,
}

impl PbnMetadata {
    /// Metadata with nothing set.
    pub fn new() -> (m: Self)
        ensures
            m.version is None && m.creator is None && m.created is None,
            m.title_event is None && m.title_date is None,
            m.layout.boards_per_page is None,
            m.layout.column_count == 1,
            m.layout.margins is None && m.layout.paper_size is None,
            !m.layout.show_hcp && !m.layout.justify && !m.layout.center
                && !m.layout.two_col_auctions,
            m.layout.show_card_table is None && m.layout.show_board_labels is None,
            m.layout.board_label_format is None,
            m.fonts.card_table is None && m.fonts.commentary is None && m.fonts.diagram is None
                && m.fonts.event is None && m.fonts.fixed_pitch is None && m.fonts.hand_record is None,
            m.colors.spades == (0u8, 0u8, 0u8) && m.colors.clubs == (0u8, 0u8, 0u8),
            m.colors.hearts == (255u8, 0u8, 0u8) && m.colors.diamonds == (255u8, 0u8, 0u8),
    {
        PbnMetadata {
            version: None,
            creator: None,
            created: None,
            layout: LayoutSettings::new(),
            fonts: FontSettings {
                card_table: None,
                commentary: None,
                diagram: None,
                event: None,
                fixed_pitch: None,
                hand_record: None,
            },
            colors: ColorSettings::standard(),
            title_event: None,
            title_date: None,
        }
    }
}

/// A font setting, its text as characters.
pub struct FontV {
    pub family: Seq<char>,
    pub size: Seq<char>,
    pub weight: u16,
    pub italic: bool,
}

/// Paper, its text as characters.
pub enum PaperV {
    Default,
    Dimensions(Seq<char>, Seq<char>),
}

impl View for FontSpec {
    type V = FontV;

    open spec fn view(&self) -> FontV {
        FontV { family: self.family@, size: self.size@, weight: self.weight, italic: self.italic }
    }
}

impl View for PaperSpec {
    type V = PaperV;

    open spec fn view(&self) -> PaperV {
        match self {
            PaperSpec::Default => PaperV::Default,
            PaperSpec::Dimensions { width, height } => PaperV::Dimensions(width@, height@),
        }
    }
}

pub open spec fn opt_text(o: Option<String>) -> Option<Seq<char>> {
    match o {
        Some(s) => Some(s@),
        None => None,
    }
}

pub open spec fn opt_font(o: Option<FontSpec>) -> Option<FontV> {
    match o {
        Some(f) => Some(f@),
        None => None,
    }
}

/// The metadata, its text as characters.
pub struct MetaV {
    pub version: Option<Seq<char>>,
    pub creator: Option<Seq<char>>,
    pub created: Option<Seq<char>>,
    pub boards_per_page: Option<u8>,
    pub column_count: u8,
    pub margins: Option<(Seq<char>, Seq<char>, Seq<char>, Seq<char>)>,
    pub paper_size: Option<PaperV>,
    pub show_hcp: bool,
    pub show_card_table: Option<bool>,
    pub show_board_labels: Option<bool>,
    pub justify: bool,
    pub center: bool,
    pub two_col_auctions: bool,
    pub board_label_format: Option<Seq<char>>,
    pub card_table: Option<FontV>,
    pub commentary: Option<FontV>,
    pub diagram: Option<FontV>,
    pub event: Option<FontV>,
    pub fixed_pitch: Option<FontV>,
    pub hand_record: Option<FontV>,
    pub colors: ColorSettings,
    pub title_event: Option<Seq<char>>,
    pub title_date: Option<Seq<char>>,
}

impl View for PbnMetadata {
    type V = MetaV;

    open spec fn view(&self) -> MetaV {
        MetaV {
            version: opt_text(self.version),
            creator: opt_text(self.creator),
            created: opt_text(self.created),
            boards_per_page: self.layout.boards_per_page,
            column_count: self.layout.column_count,
            margins: match self.layout.margins {
                Some(m) => Some((m.top@, m.bottom@, m.right@, m.left@)),
                None => None,
            },
            paper_size: match self.layout.paper_size {
                Some(p) => Some(p@),
                None => None,
            },
            show_hcp: self.layout.show_hcp,
            show_card_table: self.layout.show_card_table,
            show_board_labels: self.layout.show_board_labels,
            justify: self.layout.justify,
            center: self.layout.center,
            two_col_auctions: self.layout.two_col_auctions,
            board_label_format: opt_text(self.layout.board_label_format),
            card_table: opt_font(self.fonts.card_table),
            commentary: opt_font(self.fonts.commentary),
            diagram: opt_font(self.fonts.diagram),
            event: opt_font(self.fonts.event),
            fixed_pitch: opt_font(self.fonts.fixed_pitch),
            hand_record: opt_font(self.fonts.hand_record),
            colors: self.colors,
            title_event: opt_text(self.title_event),
            title_date: opt_text(self.title_date),
        }
    }
}

/// The metadata of a file with no header lines.
pub open spec fn empty_meta() -> MetaV {
    MetaV {
        version: None,
        creator: None,
        created: None,
        boards_per_page: None,
        column_count: 1,
        margins: None,
        paper_size: None,
        show_hcp: false,
        show_card_table: None,
        show_board_labels: None,
        justify: false,
        center: false,
        two_col_auctions: false,
        board_label_format: None,
        card_table: None,
        commentary: None,
        diagram: None,
        event: None,
        fixed_pitch: None,
        hand_record: None,
        colors: ColorSettings { spades: (0, 0, 0), hearts: (255, 0, 0), diamonds: (255, 0, 0), clubs: (0, 0, 0) },
        title_event: None,
        title_date: None,
    }
}

} // verus!
