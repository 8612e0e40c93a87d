use pbn_to_pdf::model::auction::{Auction, Call};
use pbn_to_pdf::model::bcflags::BCFlags;
use pbn_to_pdf::model::board::Board;
use pbn_to_pdf::model::card::{Direction, Strain, Suit};
use pbn_to_pdf::model::commentary::{CommentaryBlock, CommentarySlot, FormattedText, TextSpan};
use pbn_to_pdf::parser::commentary::parse_formatted_text;
use pbn_to_pdf::parser::header::header_line_is_readable;
use pbn_to_pdf::render::bidding_sheets::{format_opposition_bidding, who_bids_first, MixedText, TextSegment};
use pbn_to_pdf::render::compress::{referenced_resource_names, round_path_operands};
use pbn_to_pdf::render::layouts::{
    board_event, first_suit_for_trump, is_column_break, is_page_break, BoardVisibility,
    ColumnCommentary, ColumnSettings,
};

fn text_of(line: &MixedText) -> String {
    line.segments
        .iter()
        .map(|s| match s {
            TextSegment::Plain(t) => t.clone(),
            TextSegment::Suit(Strain::Spades) => "♠".to_string(),
            TextSegment::Suit(Strain::Hearts) => "♥".to_string(),
            TextSegment::Suit(Strain::Diamonds) => "♦".to_string(),
            TextSegment::Suit(Strain::Clubs) => "♣".to_string(),
            TextSegment::Suit(Strain::NoTrump) => "NT".to_string(),
        })
        .collect()
}

fn board_with(dealer: Direction, calls: &[Call]) -> Board {
    let mut auction = Auction::new(dealer);
    for c in calls {
        auction.add_call(*c);
    }
    let mut board = Board::new().with_dealer(dealer);
    board.auction = Some(auction);
    board
}

#[test]
fn opponents_who_open_are_told_as_fact() {
    // East deals and opens; South is the player, so East is RHO.
    let board = board_with(
        Direction::East,
        &[
            Call::bid(1, Strain::Diamonds),
            Call::Pass,
            Call::bid(2, Strain::Diamonds),
            Call::bid(2, Strain::Spades),
            Call::Double,
        ],
    );
    let lines: Vec<String> = format_opposition_bidding(&board, Direction::South)
        .iter()
        .map(text_of)
        .collect();
    assert_eq!(
        lines,
        vec![
            "RHO opens the bidding 1♦.".to_string(),
            "You bid next.".to_string(),
            "West (LHO) bids 2♦ if possible.".to_string(),
            "East (RHO) Doubles 2♠ if possible.".to_string(),
        ]
    );
    assert_eq!(who_bids_first(&board, Direction::South), "");
}

#[test]
fn silent_opponents_are_said_to_be_silent() {
    let board = board_with(Direction::North, &[Call::bid(1, Strain::Spades), Call::Pass]);
    let lines: Vec<String> = format_opposition_bidding(&board, Direction::South)
        .iter()
        .map(text_of)
        .collect();
    assert_eq!(lines, vec!["The opponents are silent.".to_string()]);
    assert_eq!(who_bids_first(&board, Direction::South), "Partner bids first.");
    assert_eq!(who_bids_first(&board, Direction::North), "You bid first.");
    let board = board_with(Direction::West, &[Call::Pass]);
    assert_eq!(who_bids_first(&board, Direction::North), "You bid first.");
    assert_eq!(who_bids_first(&board, Direction::South), "Partner bids first.");
    assert_eq!(who_bids_first(&Board::new(), Direction::South), "");
}

#[test]
fn content_streams_name_their_resources() {
    let names = referenced_resource_names(b"/cs0 cs /gs1 gs q /Im2  Do /cs0 CS /F1 Tf / cs");
    assert_eq!(names.color_spaces, vec![b"cs0".to_vec()]);
    assert_eq!(names.ext_g_states, vec![b"gs1".to_vec()]);
    assert_eq!(names.xobjects, vec![b"Im2".to_vec()]);
}

#[test]
fn break_markers_are_found_by_flag_or_name() {
    let mut board = Board::new();
    board.board_id = Some("Column-Break".to_string());
    assert!(is_column_break(&board));
    assert!(!is_page_break(&board));
    board.board_id = Some("SPACER".to_string());
    assert!(is_column_break(&board));
    board.board_id = Some("page-break".to_string());
    assert!(is_page_break(&board));
    let mut board = Board::new();
    board.bc_flags = BCFlags::from_hex("4000000");
    assert!(is_page_break(&board) && !is_column_break(&board));
}

#[test]
fn blank_events_are_not_printed() {
    let mut board = Board::new();
    assert_eq!(board_event(&board), None);
    board.event = Some("  ".to_string());
    assert_eq!(board_event(&board), None);
    board.event = Some("Club night".to_string());
    assert_eq!(board_event(&board), Some("Club night"));
    assert_eq!(first_suit_for_trump(Some(Strain::Hearts)), Suit::Hearts);
    assert_eq!(first_suit_for_trump(Some(Strain::NoTrump)), Suit::Clubs);
    assert_eq!(first_suit_for_trump(None), Suit::Clubs);
}

fn block(text: &str, slot: CommentarySlot) -> CommentaryBlock {
    let mut t = FormattedText::new();
    t.push(TextSpan::plain(text.to_string()));
    let mut b = CommentaryBlock::new(t);
    b.slot = slot;
    b
}

#[test]
fn commentary_goes_where_its_slot_says_in_center_mode() {
    let mut board = Board::new();
    board.commentary = vec![
        block("event", CommentarySlot::Event),
        block("  ", CommentarySlot::Final),
        block("diagram", CommentarySlot::Diagram),
        block("between", CommentarySlot::BeforeDeal),
        block("last", CommentarySlot::Final),
    ];
    let center = ColumnSettings { show_board_labels: true, show_bidding: true, show_commentary: true, center: true };
    let c = ColumnCommentary::of(&board, &center);
    assert_eq!((c.above, c.under_diagram, c.below), (vec![0], vec![2], vec![4]));
    let plain = ColumnSettings { center: false, ..center };
    let c = ColumnCommentary::of(&board, &plain);
    assert_eq!(c.below, vec![0, 2, 3, 4]);
    assert!(c.any());
    let off = ColumnSettings { show_commentary: false, ..center };
    assert!(!ColumnCommentary::of(&board, &off).any());
    let v = BoardVisibility::from_board(&board, &center);
    assert!(!v.show_diagram && !v.show_board && v.show_commentary && v.has_content());
}

#[test]
fn readers_know_what_they_cannot_read() {
    assert!(header_line_is_readable("%PipColors #000000,#ff0000,#ff0000,#000000"));
    assert!(!header_line_is_readable("%PipColors #0é000,#ff0000,#ff0000,#000000"));
    assert!(header_line_is_readable("%BCOptions Justify"));
}

#[test]
fn unknown_escapes_are_kept_as_written() {
    let text = parse_formatted_text("\\é").unwrap();
    assert_eq!(text.spans, vec![TextSpan::Plain("\\é".to_string())]);
    let text = parse_formatted_text("odd \\é escape").unwrap();
    assert_eq!(text.spans, vec![TextSpan::Plain("odd \\é escape".to_string())]);
}

#[test]
fn every_empty_italic_pair_is_stripped() {
    let text = parse_formatted_text("<i>x</i><i></i>").unwrap();
    assert_eq!(text.spans, vec![TextSpan::Italic("x".to_string())]);
    let text = parse_formatted_text("a<i> </i>b<i>c</i><i>  </i>d").unwrap();
    assert_eq!(
        text.spans,
        vec![
            TextSpan::Plain("a b".to_string()),
            TextSpan::Italic("c".to_string()),
            TextSpan::Plain("  d".to_string()),
        ]
    );
}

#[test]
fn only_path_operands_are_shortened() {
    let shorten = |t: &[u8]| -> Vec<u8> {
        let text = std::str::from_utf8(t).unwrap();
        let value: f64 = text.parse().unwrap();
        let s = format!("{:.2}", value);
        let s = s.trim_end_matches('0').trim_end_matches('.').to_string();
        if s.len() < t.len() { s.into_bytes() } else { t.to_vec() }
    };
    let out = round_path_operands(b"1.23456 2 m\n4.16666 0 0 4.16666 0 0 cm 7.0001 8 l 9.9", shorten);
    assert_eq!(
        String::from_utf8(out).unwrap(),
        "1.23 2 m\n4.16666 0 0 4.16666 0 0 cm\n7 8 l\n9.9 "
    );
}
