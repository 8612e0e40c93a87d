use pbn_to_pdf::model::auction::{Auction, Call, Contract};
use pbn_to_pdf::model::bcflags::BCFlags;
use pbn_to_pdf::model::board::{Board, PlayerNames, Vulnerability};
use pbn_to_pdf::model::card::{Card, Direction, Rank, Strain, Suit};
use pbn_to_pdf::model::play::{PlaySequence, Trick};
use pbn_to_pdf::model::hand::{Hand, Holding};
use pbn_to_pdf::render::bidding_sheets::{
    answer_context_lines, answer_contract, answer_table_layout, count_auction_setup_lines,
    practice_banner, practice_context_lines,
};
use pbn_to_pdf::render::bidding_table::{
    annotation_placement, header_names, note_prefix, notes_in_order, sheet_call_face, sheet_note_line,
    table_call_face, table_layout, table_rows, AnnotationPlacement, TableCell, TableEntry,
};
use pbn_to_pdf::render::card_faces::{dummy_faces, fan_faces, required_faces, CardFace};
use pbn_to_pdf::render::dealer_summary::{summary_box, summary_cell};
use pbn_to_pdf::render::play_record::{
    play_record_lines, play_rows, trick_cells, trick_number, winning_slot, PlayCell,
};
use pbn_to_pdf::render::hand_record::{
    dealer_label, grid_cell, hand_record_title, page_label, title_block_lines, vulnerability_label,
};
use pbn_to_pdf::render::layouts::{
    board_label, column_step, diagram_suit_line, document_title, has_body, has_more_below,
    inline_board_label, is_name_break, lines_after_auction, prepare_board, title_lines,
    BoardVisibility, ColumnAction, ColumnCommentary,
};

fn bid(level: u8, strain: Strain) -> Call {
    Call::Bid { level, strain }
}

fn auction(dealer: Direction, calls: &[Call]) -> Auction {
    let mut a = Auction::new(dealer);
    for c in calls {
        a.add_call(*c);
    }
    a
}

fn cell(entry: TableEntry, col: usize, row: usize) -> TableCell {
    TableCell { entry, col, row }
}

#[test]
fn four_column_table_wraps_after_south_and_ends_in_all_pass() {
    let a = auction(
        Direction::North,
        &[
            bid(1, Strain::Clubs),
            Call::Pass,
            bid(1, Strain::Hearts),
            Call::Pass,
            bid(1, Strain::Spades),
            Call::Pass,
            Call::Pass,
            Call::Pass,
        ],
    );
    let t = table_layout(&a, false, false);
    assert_eq!(
        t.columns,
        vec![Direction::West, Direction::North, Direction::East, Direction::South]
    );
    assert_eq!(
        t.cells,
        vec![
            cell(TableEntry::Call(0), 1, 2),
            cell(TableEntry::Call(1), 2, 2),
            cell(TableEntry::Call(2), 3, 2),
            cell(TableEntry::Call(3), 0, 3),
            cell(TableEntry::Call(4), 1, 3),
            cell(TableEntry::AllPass, 0, 4),
        ]
    );
    assert_eq!(t.end_row, 5);
    assert_eq!(table_rows(&a, false, false), 5);
}

#[test]
fn player_names_push_the_calls_down_a_row() {
    let a = auction(Direction::West, &[bid(1, Strain::NoTrump)]);
    let t = table_layout(&a, true, false);
    assert_eq!(t.cells, vec![cell(TableEntry::Call(0), 0, 3)]);
    assert_eq!(t.end_row, 4);
}

#[test]
fn annotated_closing_passes_are_printed_one_by_one() {
    let mut a = auction(Direction::South, &[bid(2, Strain::Spades), Call::Pass, Call::Pass]);
    a.add_annotated_call(Call::Pass, Some("1".to_string()));
    let t = table_layout(&a, false, false);
    assert_eq!(t.cells.len(), 4);
    assert!(!t.cells.iter().any(|c| c.entry == TableEntry::AllPass));
    assert_eq!(t.cells[3], cell(TableEntry::Call(3), 2, 3));
    assert_eq!(t.end_row, 4);
}

#[test]
fn passed_out_boards_say_so_under_the_dealer() {
    let a = auction(Direction::East, &[Call::Pass, Call::Pass, Call::Pass, Call::Pass]);
    let t = table_layout(&a, false, true);
    assert_eq!(t.cells, vec![cell(TableEntry::PassedOut, 2, 2)]);
    assert_eq!(t.end_row, 3);
}

#[test]
fn an_uncontested_pair_gets_two_columns() {
    let a = auction(
        Direction::South,
        &[
            bid(1, Strain::NoTrump),
            Call::Pass,
            bid(2, Strain::Clubs),
            Call::Pass,
            bid(2, Strain::Diamonds),
            Call::Pass,
            bid(3, Strain::NoTrump),
            Call::Pass,
            Call::Pass,
            Call::Pass,
        ],
    );
    let t = table_layout(&a, false, true);
    assert_eq!(t.columns, vec![Direction::North, Direction::South]);
    assert_eq!(
        t.cells,
        vec![
            cell(TableEntry::Call(0), 1, 2),
            cell(TableEntry::Call(2), 0, 3),
            cell(TableEntry::Call(4), 1, 3),
            cell(TableEntry::Call(6), 0, 4),
            cell(TableEntry::AllPass, 0, 5),
        ]
    );
    assert_eq!(t.end_row, 6);
    assert_eq!(table_rows(&a, false, true), 6);
    // Without two-column auctions the same auction takes four columns.
    assert_eq!(table_layout(&a, false, false).columns.len(), 4);
}

#[test]
fn calls_are_printed_as_the_tables_spell_them() {
    assert_eq!(table_call_face(&Call::Double), Some("Dbl".to_string()));
    assert_eq!(table_call_face(&Call::Redouble), Some("Rdbl".to_string()));
    assert_eq!(table_call_face(&Call::Pass), Some("Pass".to_string()));
    assert_eq!(table_call_face(&bid(3, Strain::NoTrump)), Some("3NT".to_string()));
    assert_eq!(table_call_face(&bid(4, Strain::Hearts)), Some("4♥".to_string()));
    assert_eq!(table_call_face(&Call::Continue), Some("?".to_string()));
    assert_eq!(table_call_face(&Call::Blank), None);
    assert_eq!(sheet_call_face(&Call::Double), Some("X".to_string()));
    assert_eq!(sheet_call_face(&Call::Redouble), Some("XX".to_string()));
    assert_eq!(sheet_call_face(&bid(1, Strain::Clubs)), Some("1♣".to_string()));
}

#[test]
fn annotations_go_where_they_belong() {
    assert_eq!(annotation_placement(&Call::Blank, "1"), AnnotationPlacement::AfterLine);
    assert_eq!(annotation_placement(&Call::Pass, "!?"), AnnotationPlacement::Inline);
    assert_eq!(annotation_placement(&bid(1, Strain::Spades), "2"), AnnotationPlacement::Superscript);
}

#[test]
fn answer_tables_put_all_pass_where_the_first_closing_pass_goes() {
    let a = auction(Direction::West, &[bid(1, Strain::Clubs), Call::Pass, Call::Pass, Call::Pass]);
    let (cells, col, row) = answer_table_layout(&a);
    assert_eq!(
        cells,
        vec![cell(TableEntry::Call(0), 0, 0), cell(TableEntry::AllPass, 1, 0)]
    );
    assert_eq!((col, row), (2, 0));
    let out = auction(Direction::South, &[Call::Pass, Call::Pass, Call::Pass, Call::Pass]);
    let (cells, col, row) = answer_table_layout(&out);
    assert_eq!(cells, vec![cell(TableEntry::PassedOut, 3, 0)]);
    assert_eq!((col, row), (0, 1));
}

#[test]
fn practice_setup_counts_its_lines() {
    let mut board = Board::new().with_dealer(Direction::North);
    board.auction = Some(auction(Direction::North, &[]));
    // "You bid first." and "The opponents are silent."
    assert_eq!(count_auction_setup_lines(&board, Direction::North), 2);
    let mut board = Board::new().with_dealer(Direction::East);
    board.auction = Some(auction(Direction::East, &[bid(1, Strain::Hearts)]));
    // East opens: no word on who bids first; the opening and who bids next.
    assert_eq!(count_auction_setup_lines(&board, Direction::North), 2);
}

#[test]
fn board_labels_fill_in_the_board_id() {
    assert_eq!(board_label("Board %", "7"), "Board 7");
    assert_eq!(board_label("%)", "12"), "12)");
    assert_eq!(board_label("Deal", "3"), "Deal");
}

fn visible(board: bool, dealer: bool, vul: bool, diagram: bool, auction: bool) -> BoardVisibility {
    BoardVisibility {
        show_board: board,
        show_dealer: dealer,
        show_vulnerable: vul,
        show_diagram: diagram,
        show_auction: auction,
        show_commentary: false,
    }
}

#[test]
fn auction_only_boards_carry_their_label_inline() {
    let mut board = Board::new();
    board.board_id = Some("4".to_string());
    board.auction = Some(auction(Direction::North, &[bid(1, Strain::Clubs)]));
    let vis = visible(true, false, false, false, true);
    assert!(inline_board_label(&board, &vis, false));
    assert!(!inline_board_label(&board, &vis, true));
    assert!(!inline_board_label(&board, &visible(true, true, false, false, true), false));
    assert_eq!(title_lines(&board, &vis), 1);
    board.dealer = Some(Direction::North);
    assert_eq!(title_lines(&board, &visible(true, true, true, true, true)), 3);
    let none = ColumnCommentary { above: vec![], under_diagram: vec![], below: vec![] };
    assert!(has_body(&vis, &none));
    assert!(!has_body(&visible(false, false, false, false, false), &none));
    assert!(!has_more_below(&board, &vis, &none, false));
}

#[test]
fn gaps_after_the_auction_follow_what_comes_next() {
    assert_eq!(lines_after_auction(false, false, false, false), 0);
    assert_eq!(lines_after_auction(true, false, false, false), 1);
    assert_eq!(lines_after_auction(true, true, true, false), 3);
    assert_eq!(lines_after_auction(false, false, true, true), 1);
    assert_eq!(lines_after_auction(false, true, true, false), 2);
}

#[test]
fn columns_break_take_and_skip_boards() {
    let mut marker = Board::new();
    marker.board_id = Some("Page-Break".to_string());
    assert!(is_name_break(&marker));
    assert_eq!(column_step(&marker, 0, true, true), ColumnAction::BreakPage { consume: true });
    let mut flagged = Board::new();
    flagged.bc_flags = BCFlags::from_hex("4000000");
    assert!(!is_name_break(&flagged));
    assert_eq!(column_step(&flagged, 0, false, false), ColumnAction::Place);
    assert_eq!(column_step(&flagged, 2, false, true), ColumnAction::BreakPage { consume: false });
    let mut spacer = Board::new();
    spacer.board_id = Some("spacer".to_string());
    assert_eq!(column_step(&spacer, 1, true, true), ColumnAction::BreakColumn { consume: true });
    let plain = Board::new();
    assert_eq!(column_step(&plain, 3, true, true), ColumnAction::Skip);
    assert_eq!(column_step(&plain, 3, false, false), ColumnAction::NextColumn);
    assert_eq!(column_step(&plain, 0, false, false), ColumnAction::Place);
}


#[test]
fn hands_print_suit_by_suit() {
    let mut diamonds = Holding::from_ranks([Rank::Queen, Rank::Jack]);
    diamonds.unknown = 1;
    let hand = Hand::from_holdings(
        Holding::from_ranks([Rank::Ace, Rank::King]),
        Holding::new(),
        diamonds,
        Holding::from_ranks([Rank::Five, Rank::Four, Rank::Three, Rank::Two]),
    );
    assert_eq!(hand.to_string(), "♠ AK ♥ - ♦ QJx ♣ 5432");
}

#[test]
fn declarers_plans_turn_the_declarer_south() {
    let mut board = Board::new().with_number(9);
    board.deal.set_hand(Direction::East, Hand::from_holdings(
        Holding::from_ranks([Rank::Ace]),
        Holding::new(),
        Holding::new(),
        Holding::new(),
    ));
    board.deal.set_hand(Direction::West, Hand::from_holdings(
        Holding::new(),
        Holding::from_ranks([Rank::King]),
        Holding::new(),
        Holding::new(),
    ));
    board.contract = Some(Contract {
        level: 4,
        suit: Strain::Spades,
        doubled: false,
        redoubled: false,
        declarer: Direction::East,
    });
    let p = prepare_board(&board);
    assert_eq!(p.declarer_hand.to_string(), "♠ A ♥ - ♦ - ♣ -");
    assert_eq!(p.dummy_hand.to_string(), "♠ - ♥ K ♦ - ♣ -");
    assert_eq!(p.contract_str, Some("4♠".to_string()));
    assert!(!p.is_nt);
    assert_eq!(p.trump, Some(Strain::Spades));
    assert_eq!(p.deal_number, Some(9));
    let plain = prepare_board(&Board::new());
    assert_eq!(plain.contract_str, None);
    assert_eq!(plain.trump, None);
}

#[test]
fn notes_print_in_number_order() {
    let notes = vec![
        (3, "Weak".to_string()),
        (1, "Strong".to_string()),
        (2, "Relay".to_string()),
        (1, "Again".to_string()),
    ];
    assert_eq!(notes_in_order(&notes), vec![1, 3, 2, 0]);
    assert_eq!(notes_in_order(&Vec::new()), Vec::<usize>::new());
    assert_eq!(note_prefix(12), "12. ");
    assert_eq!(sheet_note_line(1, "Strong"), "1. Strong");
}


#[test]
fn hand_records_title_their_pages() {
    let mut first = Board::new();
    first.event = Some("Club Pairs".to_string());
    let boards = vec![first];
    assert_eq!(hand_record_title(Some("Teams"), &boards), Some("Teams"));
    assert_eq!(hand_record_title(None, &boards), Some("Club Pairs"));
    assert_eq!(hand_record_title(Some("  "), &boards), None);
    assert_eq!(hand_record_title(None, &[]), None);
    assert_eq!(
        title_block_lines("Club Pairs", Some("2017.01.17")),
        vec!["Club Pairs".to_string(), "Tuesday, January 17, 2017".to_string()]
    );
    assert_eq!(title_block_lines("Club Pairs", Some("soon")), vec!["Club Pairs".to_string()]);
    assert_eq!(page_label(3), "Page 3");
    // The title block takes the first two cells; the first board the third.
    assert_eq!(grid_cell(2), (2, 0));
    assert_eq!(grid_cell(19), (3, 4));
}

#[test]
fn hand_record_labels_follow_the_flags() {
    let mut board = Board::new().with_dealer(Direction::West).with_vulnerability(Vulnerability::Both);
    assert_eq!(dealer_label(&board), Some("W Deals".to_string()));
    assert_eq!(vulnerability_label(&board), Some(Vulnerability::Both.to_string()));
    board.bc_flags = BCFlags::from_hex("600000");
    assert_eq!(dealer_label(&board), None);
    assert_eq!(vulnerability_label(&board), None);
    assert_eq!(dealer_label(&Board::new()), None);
}

#[test]
fn dealer_summaries_list_dealer_contract_and_declarer() {
    let mut board = Board::new().with_dealer(Direction::East);
    board.board_id = Some("5".to_string());
    board.contract = Some(Contract {
        level: 3,
        suit: Strain::NoTrump,
        doubled: true,
        redoubled: false,
        declarer: Direction::South,
    });
    let cell = summary_cell(&board);
    assert_eq!(cell.board.as_deref(), Some("Board: 5"));
    assert_eq!(cell.dealer.as_deref(), Some("East"));
    assert_eq!(cell.level.as_deref(), Some("3"));
    assert_eq!(cell.strain, Some(Strain::NoTrump));
    assert_eq!(cell.doubling.as_deref(), Some("X"));
    assert_eq!(cell.declarer.as_deref(), Some("Declarer: South"));
    let empty = summary_cell(&Board::new());
    assert!(empty.board.is_none() && empty.dealer.is_none() && empty.level.is_none());
    assert_eq!(document_title(&[], "Dealer Summary"), "Dealer Summary");
    let mut first = Board::new();
    first.event = Some("Monday".to_string());
    assert_eq!(document_title(&[first], "Dealer Summary"), "Monday");
    assert_eq!(summary_box(5), (1, 2));
}

#[test]
fn sheets_open_each_board_with_its_context() {
    let mut board = Board::new()
        .with_number(3)
        .with_dealer(Direction::South)
        .with_vulnerability(Vulnerability::EastWest);
    board.deal.set_hand(Direction::North, Hand::from_holdings(
        Holding::from_ranks([Rank::Ace, Rank::King, Rank::Queen, Rank::Jack, Rank::Two]),
        Holding::from_ranks([Rank::Ace]),
        Holding::new(),
        Holding::new(),
    ));
    board.deal.set_hand(Direction::South, Hand::from_holdings(
        Holding::new(),
        Holding::from_ranks([Rank::Queen, Rank::Jack]),
        Holding::new(),
        Holding::new(),
    ));
    assert_eq!(
        practice_context_lines(&board, Some(Direction::North)),
        vec!["Board: 3", "Dealer: South", "Vul: E-W", "HCP: 14+1"]
    );
    assert_eq!(
        answer_context_lines(&board),
        vec!["Board: 3", "Dealer: South", "Vul: E-W", "North HCP: 14+1", "South HCP: 3"]
    );
    assert_eq!(practice_context_lines(&Board::new(), None), vec!["Vul: None"]);
    assert_eq!(answer_contract(&board), None);
    board.auction = Some(auction(
        Direction::South,
        &[bid(1, Strain::Spades), Call::Double, Call::Pass, Call::Pass, Call::Pass],
    ));
    assert_eq!(
        answer_contract(&board),
        Some(("1".to_string(), Strain::Spades, "X South".to_string()))
    );
}

#[test]
fn diagrams_space_out_a_suits_ranks() {
    assert_eq!(diagram_suit_line(&Holding::from_ranks([Rank::Ace, Rank::Ten, Rank::Two])), "A 10 2");
    assert_eq!(diagram_suit_line(&Holding::from_ranks([Rank::King])), "K");
    assert_eq!(diagram_suit_line(&Holding::new()), "-");
}

#[test]
fn practice_banners_name_the_player() {
    assert_eq!(practice_banner(Direction::North, false), "North hands (Practice Page)");
    assert_eq!(practice_banner(Direction::South, true), "South hands");
}

#[test]
fn fans_show_corners_and_dummies_bands() {
    let hand = Hand::from_holdings(
        Holding::from_ranks([Rank::Ace, Rank::King]),
        Holding::from_ranks([Rank::Queen]),
        Holding::new(),
        Holding::from_ranks([Rank::Two]),
    );
    assert_eq!(
        fan_faces(&hand, Suit::Spades, true),
        vec![
            (Suit::Spades, Rank::Ace, CardFace::Corner),
            (Suit::Spades, Rank::King, CardFace::Corner),
            (Suit::Hearts, Rank::Queen, CardFace::Corner),
            (Suit::Clubs, Rank::Two, CardFace::Full),
        ]
    );
    assert_eq!(
        dummy_faces(&hand, Suit::Spades, true),
        vec![
            (Suit::Spades, Rank::Ace, CardFace::Band),
            (Suit::Spades, Rank::King, CardFace::Full),
            (Suit::Hearts, Rank::Queen, CardFace::Full),
            (Suit::Clubs, Rank::Two, CardFace::Full),
        ]
    );
    let declarer = Hand::from_holdings(
        Holding::from_ranks([Rank::Jack]),
        Holding::new(),
        Holding::new(),
        Holding::from_ranks([Rank::Three]),
    );
    // Hearts are trumps: hearts lead, then clubs, diamonds, spades.
    assert_eq!(
        required_faces(&hand, &declarer, Some(Strain::Hearts)),
        vec![
            (Suit::Hearts, Rank::Queen, CardFace::Full),
            (Suit::Clubs, Rank::Two, CardFace::Full),
            (Suit::Spades, Rank::Ace, CardFace::Band),
            (Suit::Spades, Rank::King, CardFace::Full),
            (Suit::Clubs, Rank::Three, CardFace::Corner),
            (Suit::Spades, Rank::Jack, CardFace::Full),
        ]
    );
    assert_eq!(fan_faces(&Hand::new(), Suit::Clubs, false), vec![]);
}

fn card(suit: Suit, rank: Rank) -> Card {
    Card { suit, rank }
}

fn trick(leader: Direction, cards: [Option<Card>; 4], lead_suit: Option<Suit>, winner: Option<Direction>) -> Trick {
    Trick { leader, cards, lead_suit, winner }
}

#[test]
fn play_records_list_tricks_up_to_the_last_card() {
    let first = trick(
        Direction::West,
        [
            Some(card(Suit::Spades, Rank::King)),
            Some(card(Suit::Spades, Rank::Two)),
            Some(card(Suit::Hearts, Rank::Three)),
            None,
        ],
        Some(Suit::Spades),
        Some(Direction::North),
    );
    let empty = trick(Direction::North, [None, None, None, None], None, None);
    let play = PlaySequence { tricks: vec![first, empty, empty] };
    assert_eq!(play_rows(&play), 1);
    assert_eq!(play_record_lines(&play), 2);
    assert_eq!(play_rows(&PlaySequence { tricks: vec![empty] }), 0);
    assert_eq!(play_record_lines(&PlaySequence { tricks: vec![] }), 0);
    // North won: the second card from West's lead.
    assert_eq!(winning_slot(&first), Some(1));
    assert_eq!(
        trick_cells(&first),
        vec![
            PlayCell { card: Some(card(Suit::Spades, Rank::King)), with_suit: true, underlined: false },
            PlayCell { card: Some(card(Suit::Spades, Rank::Two)), with_suit: false, underlined: true },
            PlayCell { card: Some(card(Suit::Hearts, Rank::Three)), with_suit: true, underlined: false },
            PlayCell { card: None, with_suit: false, underlined: false },
        ]
    );
    assert_eq!(trick_number(0), "1.");
    assert_eq!(trick_number(12), "13.");
}

#[test]
fn the_opening_lead_is_the_first_card_played() {
    let mut board = Board::new();
    assert_eq!(board.opening_lead(), None);
    board.play = Some(PlaySequence {
        tricks: vec![trick(
            Direction::East,
            [Some(card(Suit::Clubs, Rank::Queen)), None, None, None],
            Some(Suit::Clubs),
            None,
        )],
    });
    assert_eq!(board.opening_lead(), Some(card(Suit::Clubs, Rank::Queen)));
    assert_eq!(summary_cell(&board).lead, Some(card(Suit::Clubs, Rank::Queen)));
    assert_eq!(prepare_board(&board).opening_lead, Some(card(Suit::Clubs, Rank::Queen)));
}

#[test]
fn player_names_are_found_by_seat() {
    let mut names = PlayerNames::new();
    assert!(!names.has_any());
    names.east = Some("Ann".to_string());
    assert!(names.has_any());
    assert_eq!(names.get(Direction::East), Some("Ann"));
    assert_eq!(names.get(Direction::West), None);
}

#[test]
fn header_names_go_under_their_seats() {
    let mut names = PlayerNames::new();
    names.north = Some("Nell".to_string());
    names.south = Some(String::new());
    let columns = vec![Direction::West, Direction::North, Direction::East, Direction::South];
    assert_eq!(header_names(&columns, &names), vec![None, Some("Nell".to_string()), None, None]);
}

#[test]
fn contract_and_notes_hiding_are_hide_flags() {
    assert!(BCFlags::new(0x0800_0000).has_hide_flags());
    assert!(BCFlags::new(0x1000_0000).has_hide_flags());
    assert!(BCFlags::new(0x0010_0000).has_hide_flags());
    assert!(!BCFlags::new(0x0000_00ff).has_hide_flags());
    assert!(!BCFlags::new(0x0600_0000).has_hide_flags());
}
