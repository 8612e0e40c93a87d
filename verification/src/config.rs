//! The display settings a document is drawn with: what shows, in which
//! layout, under which title, and which margins apply. The page geometry and
//! type sizes that go with them are measured in millimetres and points, and
//! stand beside these where the drawing happens.
use vstd::prelude::*;

use crate::cli::args::{Args, Layout, MarginPreset};
use crate::model::metadata::{opt_text, PbnMetadata};
use crate::text::{chars_of, string_of};

verus! {

/// Which margins a document starts from.
#[derive(Clone, Copy, Debug, PartialEq, Eq, Structural)]
pub enum MarginChoice {
    /// The margin a `--margins` preset names, on every side.
    Preset(MarginPreset),
    /// Half an inch all round, as bidding sheets use.
    BiddingSheets,
    /// Half an inch left and right, an inch top and bottom.
    DeclarersPlan,
    /// The default page margin.
    Standard,
}

/// The margins the command line chooses: a preset when given, else those of
/// the layout. Only the declarer's plan layouts take the declarer's plan
/// margins here.
pub open spec fn cli_margins(preset: Option<MarginPreset>, layout: Layout) -> MarginChoice {
    match preset {
        Some(p) => MarginChoice::Preset(p),
        None => if layout == Layout::BiddingSheets {
            MarginChoice::BiddingSheets
        } else if layout == Layout::DeclarersPlan || layout == Layout::DeclarersPlan1up || layout
            == Layout::DeclarersPlan2up {
            MarginChoice::DeclarersPlan
        } else {
            MarginChoice::Standard
        },
    }
}

/// The margins a layout starts from when no command line is involved; the
/// dealer summary takes the declarer's plan margins too.
pub open spec fn layout_margins(layout: Layout) -> MarginChoice {
    match layout {
        Layout::BiddingSheets => MarginChoice::BiddingSheets,
        Layout::Analysis => MarginChoice::Standard,
        _ => MarginChoice::DeclarersPlan,
    }
}

/// The margins the command line chooses (see [`cli_margins`]).
pub fn margins_for_args(preset: Option<MarginPreset>, layout: Layout) -> (m: MarginChoice)
    ensures
        m == cli_margins(preset, layout),
{
    match preset {
        Some(p) => MarginChoice::Preset(p),
        None => if matches!(layout, Layout::BiddingSheets) {
            MarginChoice::BiddingSheets
        } else if layout.is_declarers_plan() {
            MarginChoice::DeclarersPlan
        } else {
            MarginChoice::Standard
        },
    }
}

/// The margins a layout starts from (see [`layout_margins`]).
pub fn margins_for_layout(layout: Layout) -> (m: MarginChoice)
    ensures
        m == layout_margins(layout),
{
    match layout {
        Layout::BiddingSheets => MarginChoice::BiddingSheets,
        Layout::Analysis => MarginChoice::Standard,
        _ => MarginChoice::DeclarersPlan,
    }
}

/// What a document shows and how.
#[derive(Clone, Debug)]
pub struct DisplaySettings {
    pub boards_per_page: u8,
    /// The `--margins` preset, which the file's margins do not override.
    pub margin_preset: Option<MarginPreset>,
    pub layout: Layout,
    pub show_bidding: bool,
    pub show_play: bool,
    pub show_commentary: bool,
    pub show_hcp: bool,
    pub justify: bool,
    pub debug_boxes: bool,
    pub circle_sure_winners: bool,
    pub circle_promotable_winners: bool,
    pub circle_length_winners: bool,
    /// Columns per page; 1 is a single column.
    pub column_count: u8,
    /// Uncontested auctions in two columns.
    pub two_col_auctions: bool,
    /// Commentary first, the board's details centred below.
    pub center: bool,
    /// The `--title` given: `None` to use the file's, empty to hide it.
    pub title_override: Option<String>,
    /// `%HRTitleEvent`.
    pub title_from_metadata: Option<String>,
    /// How a board's label reads, `%` standing for its number.
    pub board_label_format: String,
}

fn copy_text(o: &Option<String>) -> (r: Option<String>)
    ensures
        opt_text(r) == opt_text(*o),
{
    match o {
        Some(s) => Some(s.clone()),
        None => None,
    }
}

/// The settings before any command line or file: one board per page in the
/// analysis layout, bidding, play and commentary shown, everything else off,
/// boards labelled `Board %`.
pub open spec fn standard_settings(d: DisplaySettings) -> bool {
    &&& d.boards_per_page == 1
    &&& d.margin_preset is None
    &&& d.layout == Layout::Analysis
    &&& d.show_bidding && d.show_play && d.show_commentary
    &&& !d.show_hcp && !d.justify && !d.debug_boxes
    &&& !d.circle_sure_winners && !d.circle_promotable_winners && !d.circle_length_winners
    &&& d.column_count == 1 && !d.two_col_auctions && !d.center
    &&& d.title_override is None && d.title_from_metadata is None
    &&& d.board_label_format@ == "Board %"@
}

impl DisplaySettings {
    /// The settings before any command line or file (see
    /// [`standard_settings`]).
    pub fn new() -> (d: Self)
        ensures
            standard_settings(d),
    {
        DisplaySettings {
            boards_per_page: 1,
            margin_preset: None,
            layout: Layout::Analysis,
            show_bidding: true,
            show_play: true,
            show_commentary: true,
            show_hcp: false,
            justify: false,
            debug_boxes: false,
            circle_sure_winners: false,
            circle_promotable_winners: false,
            circle_length_winners: false,
            column_count: 1,
            two_col_auctions: false,
            center: false,
            title_override: None,
            title_from_metadata: None,
            board_label_format: string_of(&chars_of("Board %")),
        }
    }

    /// The settings the command line asks for; what it does not set stays
    /// standard.
    pub fn from_args(args: &Args) -> (d: Self)
        ensures
            d.boards_per_page == args.boards_per_page,
            d.margin_preset == args.margins,
            d.layout == args.layout,
            d.show_bidding == !args.no_bidding && d.show_play == !args.no_play,
            d.show_commentary == !args.no_commentary && d.show_hcp == !args.no_hcp,
            d.debug_boxes == args.debug_boxes,
            d.circle_sure_winners == args.circle_sure_winners,
            d.circle_promotable_winners == args.circle_promotable_winners,
            d.circle_length_winners == args.circle_length_winners,
            opt_text(d.title_override) == opt_text(args.title),
            !d.justify && d.column_count == 1 && !d.two_col_auctions && !d.center,
            d.title_from_metadata is None && d.board_label_format@ == "Board %"@,
    {
        DisplaySettings {
            boards_per_page: args.boards_per_page,
            margin_preset: args.margins,
            layout: args.layout,
            show_bidding: args.show_bidding(),
            show_play: args.show_play(),
            show_commentary: args.show_commentary(),
            show_hcp: args.show_hcp(),
            debug_boxes: args.debug_boxes,
            circle_sure_winners: args.circle_sure_winners,
            circle_promotable_winners: args.circle_promotable_winners,
            circle_length_winners: args.circle_length_winners,
            title_override: copy_text(&args.title),
            ..Self::new()
        }
    }

    /// The standard settings in `layout`.
    pub fn for_layout(layout: Layout) -> (d: Self)
        ensures
            d.layout == layout,
            standard_settings(DisplaySettings { layout: Layout::Analysis, ..d }),
    {
        DisplaySettings { layout, ..Self::new() }
    }

    /// The settings with a file's own: its boards per page, the options it
    /// turns on (they never turn one off), its column count when above one,
    /// its title and its board label format.
    pub fn with_metadata(self, metadata: &PbnMetadata) -> (d: Self)
        ensures
            d.boards_per_page == (match metadata.layout.boards_per_page {
                Some(b) => b,
                None => self.boards_per_page,
            }),
            d.show_hcp == (self.show_hcp || metadata.layout.show_hcp),
            d.justify == (self.justify || metadata.layout.justify),
            d.column_count == (if metadata.layout.column_count > 1 {
                metadata.layout.column_count
            } else {
                self.column_count
            }),
            d.two_col_auctions == (self.two_col_auctions || metadata.layout.two_col_auctions),
            d.center == (self.center || metadata.layout.center),
            opt_text(d.title_from_metadata) == opt_text(metadata.title_event),
            d.board_label_format@ == (match metadata.layout.board_label_format {
                Some(f) => f@,
                None => self.board_label_format@,
            }),
            d.margin_preset == self.margin_preset && d.layout == self.layout,
            d.show_bidding == self.show_bidding && d.show_play == self.show_play,
            d.show_commentary == self.show_commentary && d.debug_boxes == self.debug_boxes,
            d.circle_sure_winners == self.circle_sure_winners,
            d.circle_promotable_winners == self.circle_promotable_winners,
            d.circle_length_winners == self.circle_length_winners,
            opt_text(d.title_override) == opt_text(self.title_override),
    {
        let boards_per_page = match metadata.layout.boards_per_page {
            Some(b) => b,
            None => self.boards_per_page,
        };
        let column_count = if metadata.layout.column_count > 1 {
            metadata.layout.column_count
        } else {
            self.column_count
        };
        let title_from_metadata = copy_text(&metadata.title_event);
        let board_label_format = match &metadata.layout.board_label_format {
            Some(f) => f.clone(),
            None => self.board_label_format,
        };
        DisplaySettings {
            boards_per_page,
            margin_preset: self.margin_preset,
            layout: self.layout,
            show_bidding: self.show_bidding,
            show_play: self.show_play,
            show_commentary: self.show_commentary,
            show_hcp: self.show_hcp || metadata.layout.show_hcp,
            justify: self.justify || metadata.layout.justify,
            debug_boxes: self.debug_boxes,
            circle_sure_winners: self.circle_sure_winners,
            circle_promotable_winners: self.circle_promotable_winners,
            circle_length_winners: self.circle_length_winners,
            column_count,
            two_col_auctions: self.two_col_auctions || metadata.layout.two_col_auctions,
            center: self.center || metadata.layout.center,
            title_override: self.title_override,
            title_from_metadata,
            board_label_format,
        }
    }

    /// Whether the file's `%Margins` apply: only in the analysis layout, and
    /// only without a `--margins` preset.
    pub fn file_margins_apply(&self) -> (b: bool)
        ensures
            b == (self.margin_preset is None && self.layout == Layout::Analysis),
    {
        self.margin_preset.is_none() && matches!(self.layout, Layout::Analysis)
    }

    /// The title to show: `--title` when given, hidden when given empty,
    /// else the file's.
    pub fn effective_title(&self) -> (r: Option<&str>)
        ensures
            match self.title_override {
                Some(t) => if t@.len() == 0 {
                    r is None
                } else {
                    r matches Some(s) && s@ == t@
                },
                None => match self.title_from_metadata {
                    Some(m) => r matches Some(s) && s@ == m@,
                    None => r is None,
                },
            },
    {
        match &self.title_override {
            Some(t) => {
                if t.as_str().unicode_len() == 0 {
                    None
                } else {
                    Some(t.as_str())
                }
            },
            None => match &self.title_from_metadata {
                Some(m) => Some(m.as_str()),
                None => None,
            },
        }
    }
}

} // verus!
