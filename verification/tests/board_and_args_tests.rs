use pbn_to_pdf::cli::args::{parse_board_range, Args, Layout, Orientation, PageSize};
use pbn_to_pdf::model::board::{Board, HiddenHands, Vulnerability};
use pbn_to_pdf::model::card::Direction;

#[test]
fn layout_names_round_trip() {
    for layout in Layout::ALL {
        assert_eq!(layout.as_str().parse::<Layout>(), Ok(layout));
    }
}

#[test]
fn an_unknown_layout_lists_the_names() {
    let err = "fancy".parse::<Layout>().unwrap_err();
    assert_eq!(
        err,
        "unknown layout 'fancy' (expected one of: analysis, bidding-sheets, declarers-plan-1up, declarers-plan-2up, declarers-plan, dealer-summary)"
    );
}

#[test]
fn layouts_know_their_suffix_and_preview() {
    assert_eq!(Layout::Analysis.output_suffix(), None);
    assert_eq!(Layout::DeclarersPlan.output_suffix(), Some(" - Declarers Plan 4up"));
    assert!(Layout::DeclarersPlan2up.is_declarers_plan());
    assert!(!Layout::BiddingSheets.is_declarers_plan());
    assert_eq!(Layout::BiddingSheets.preview_boards(), 5);
    assert_eq!(Layout::DealerSummary.preview_boards(), 6);
}

#[test]
fn test_parse_single_board() {
    let result = parse_board_range("5").unwrap();
    assert_eq!(result, vec![5]);
}

#[test]
fn test_parse_range() {
    let result = parse_board_range("1-4").unwrap();
    assert_eq!(result, vec![1, 2, 3, 4]);
}

#[test]
fn test_parse_mixed() {
    let result = parse_board_range("1-3, 7, 10-12").unwrap();
    assert_eq!(result, vec![1, 2, 3, 7, 10, 11, 12]);
}

#[test]
fn board_ranges_report_what_is_wrong() {
    assert_eq!(parse_board_range("4-2"), Err("Invalid range: 4 > 2".to_string()));
    assert_eq!(parse_board_range("1-2-3"), Err("Invalid range: 1-2-3".to_string()));
    assert_eq!(parse_board_range("a"), Err("Invalid number: a".to_string()));
    assert_eq!(parse_board_range("1, x-3"), Err("Invalid number: x".to_string()));
    assert_eq!(parse_board_range("3-3"), Ok(vec![3]));
}

fn args(input: &str, output: Option<&str>, layout: Layout) -> Args {
    Args {
        input: input.to_string(),
        output: output.map(|o| o.to_string()),
        boards_per_page: 1,
        page_size: PageSize::Letter,
        orientation: Orientation::Portrait,
        layout,
        no_bidding: false,
        no_play: true,
        no_commentary: false,
        no_hcp: true,
        boards: None,
        margins: None,
        debug_boxes: false,
        circle_sure_winners: false,
        circle_promotable_winners: false,
        circle_length_winners: false,
        title: None,
        verbose: 0,
    }
}

#[test]
fn the_output_sits_beside_the_input() {
    let a = args("dir/hands.pbn", None, Layout::BiddingSheets);
    assert_eq!(a.output_path(), "dir/hands - Bidding Sheets.pdf");
    let a = args("hands.pbn", None, Layout::Analysis);
    assert_eq!(a.output_path(), "hands.pdf");
    let a = args("hands.pbn", Some("out.pdf"), Layout::Analysis);
    assert_eq!(a.output_path(), "out.pdf");
    assert!(a.show_bidding() && !a.show_play() && a.show_commentary() && !a.show_hcp());
}

#[test]
fn test_vulnerability_parsing() {
    assert_eq!(Vulnerability::from_pbn("None"), Some(Vulnerability::Neither));
    assert_eq!(Vulnerability::from_pbn("NS"), Some(Vulnerability::NorthSouth));
    assert_eq!(Vulnerability::from_pbn("E-W"), Some(Vulnerability::EastWest));
    assert_eq!(Vulnerability::from_pbn("Both"), Some(Vulnerability::Both));
    assert_eq!(Vulnerability::from_pbn("Sometimes"), None);
}

#[test]
fn test_vulnerability_check() {
    assert!(!Vulnerability::Neither.is_vulnerable(Direction::North));
    assert!(Vulnerability::Both.is_vulnerable(Direction::North));
    assert!(Vulnerability::NorthSouth.is_vulnerable(Direction::South));
    assert!(!Vulnerability::NorthSouth.is_vulnerable(Direction::East));
}

#[test]
fn test_board_title() {
    let board = Board::new()
        .with_number(1)
        .with_dealer(Direction::North)
        .with_vulnerability(Vulnerability::Neither);

    assert_eq!(board.title(), "Board 1 • North Deals • None Vul");
}

#[test]
fn a_title_leaves_out_what_the_board_does_not_give() {
    let board = Board::new().with_vulnerability(Vulnerability::EastWest);
    assert_eq!(board.title(), "E-W Vul");
    assert!(!board.has_commentary());
    assert_eq!(board.opening_lead_direction(), None);
    let mut board = Board::new().with_number(12);
    board.declarer = Some(Direction::West);
    assert_eq!(board.title(), "Board 12 • None Vul");
    assert_eq!(board.opening_lead_direction(), Some(Direction::North));
}

#[test]
fn test_hidden_hands_parsing() {
    let hidden = HiddenHands::from_pbn("NS");
    assert!(hidden.north);
    assert!(!hidden.east);
    assert!(hidden.south);
    assert!(!hidden.west);

    let hidden = HiddenHands::from_pbn("ESW");
    assert!(!hidden.north);
    assert!(hidden.east);
    assert!(hidden.south);
    assert!(hidden.west);

    let hidden = HiddenHands::from_pbn("NESW");
    assert!(hidden.all_hidden());

    let hidden = HiddenHands::from_pbn("");
    assert!(hidden.none_hidden());
}

#[test]
fn hidden_hands_read_either_case() {
    let hidden = HiddenHands::from_pbn("ns");
    assert!(hidden.north && hidden.south && !hidden.east && !hidden.west);
}

#[test]
fn test_hidden_hands_is_hidden() {
    let hidden = HiddenHands::from_pbn("NS");
    assert!(hidden.is_hidden(Direction::North));
    assert!(!hidden.is_hidden(Direction::East));
    assert!(hidden.is_hidden(Direction::South));
    assert!(!hidden.is_hidden(Direction::West));
}
