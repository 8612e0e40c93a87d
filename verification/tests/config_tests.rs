use pbn_to_pdf::cli::args::{Args, Layout, MarginPreset, Orientation, PageSize};
use pbn_to_pdf::config::{margins_for_args, margins_for_layout, DisplaySettings, MarginChoice};
use pbn_to_pdf::parser::header::parse_headers;

fn args(layout: Layout, title: Option<&str>) -> Args {
    Args {
        input: "in.pbn".to_string(),
        output: None,
        boards_per_page: 2,
        page_size: PageSize::A4,
        orientation: Orientation::Landscape,
        layout,
        no_bidding: true,
        no_play: false,
        no_commentary: false,
        no_hcp: false,
        boards: None,
        margins: None,
        debug_boxes: false,
        circle_sure_winners: true,
        circle_promotable_winners: false,
        circle_length_winners: false,
        title: title.map(|t| t.to_string()),
        verbose: 0,
    }
}

#[test]
fn the_command_line_and_the_file_settle_the_display() {
    let d = DisplaySettings::from_args(&args(Layout::Analysis, None));
    assert_eq!(d.boards_per_page, 2);
    assert!(!d.show_bidding && d.show_hcp && d.circle_sure_winners);
    assert_eq!(d.board_label_format, "Board %");
    let metadata = parse_headers(&[
        "%BoardsPerPage fit,4",
        "%BCOptions Justify Center",
        "%HRTitleEvent Club night",
        "%Translate \"Board %\" \"%)\"",
    ]);
    let d = d.with_metadata(&metadata);
    assert_eq!(d.boards_per_page, 4);
    assert_eq!(d.column_count, 4);
    assert!(d.justify && d.center && !d.two_col_auctions);
    assert_eq!(d.board_label_format, "%)");
    assert_eq!(d.effective_title(), Some("Club night"));
    assert!(d.file_margins_apply());
}

#[test]
fn an_empty_title_hides_it() {
    let d = DisplaySettings::from_args(&args(Layout::BiddingSheets, Some("")));
    assert_eq!(d.effective_title(), None);
    let d = DisplaySettings::from_args(&args(Layout::BiddingSheets, Some("Mine")));
    assert_eq!(d.effective_title(), Some("Mine"));
    assert!(!d.file_margins_apply());
    let d = DisplaySettings::for_layout(Layout::DealerSummary);
    assert!(d.show_bidding && d.show_play && !d.show_hcp);
    assert_eq!(d.effective_title(), None);
}

#[test]
fn margins_follow_the_preset_or_the_layout() {
    assert_eq!(margins_for_args(Some(MarginPreset::Wide), Layout::BiddingSheets), MarginChoice::Preset(MarginPreset::Wide));
    assert_eq!(margins_for_args(None, Layout::BiddingSheets), MarginChoice::BiddingSheets);
    assert_eq!(margins_for_args(None, Layout::DeclarersPlan1up), MarginChoice::DeclarersPlan);
    assert_eq!(margins_for_args(None, Layout::DealerSummary), MarginChoice::Standard);
    assert_eq!(margins_for_layout(Layout::DealerSummary), MarginChoice::DeclarersPlan);
    assert_eq!(margins_for_layout(Layout::Analysis), MarginChoice::Standard);
}
