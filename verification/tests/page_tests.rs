use pbn_to_pdf::model::board::HiddenHands;
use pbn_to_pdf::model::card::{Direction, Rank, Suit};
use pbn_to_pdf::model::commentary::CommentarySlot;
use pbn_to_pdf::model::hand::{Hand, Holding};
use pbn_to_pdf::model::deal::Deal;
use pbn_to_pdf::parser::pbn::{
    annotation_parts, annotation_splits, commentary_slot, display_annotation, display_deal,
    display_one,
};
use pbn_to_pdf::render::bidding_table::is_suffix_annotation;
use pbn_to_pdf::render::compress::is_number;
use pbn_to_pdf::render::layouts::{
    ranks, rotate_deal_for_declarer, seat_initial, DiagramDisplayOptions,
};
use pbn_to_pdf::render::page_furniture::{expand, footer_lines, spelled_date, FooterTitles};
use pbn_to_pdf::render::suit_order::{fan_suit_order, suit_order_for};
use pbn_to_pdf::render::text_metrics::{winansi_byte, winansi_char};

#[test]
fn a_block_belongs_to_the_slot_it_stood_in() {
    let tags: Vec<String> = ["Event", "Board", "SkillPath", "Deal", "Result"]
        .map(String::from)
        .to_vec();
    let slot = |before| commentary_slot(Some(before), &tags);
    assert_eq!(slot(0), CommentarySlot::Event, "before every tag");
    assert_eq!(slot(1), CommentarySlot::Event, "after [Event]");
    assert_eq!(slot(3), CommentarySlot::BeforeDeal, "after [SkillPath]");
    assert_eq!(slot(4), CommentarySlot::Diagram, "straight after [Deal]");
    assert_eq!(slot(5), CommentarySlot::Final, "after [Result]");
    assert_eq!(
        commentary_slot(None, &tags),
        CommentarySlot::Final,
        "position unknown"
    );
}

#[test]
fn without_a_board_tag_the_deal_marks_the_event() {
    let tags: Vec<String> = ["Event", "Deal"].map(String::from).to_vec();
    assert_eq!(commentary_slot(Some(1), &tags), CommentarySlot::Event);
    assert_eq!(commentary_slot(Some(2), &tags), CommentarySlot::Diagram);
    let none: Vec<String> = Vec::new();
    assert_eq!(commentary_slot(Some(0), &none), CommentarySlot::Final);
}

#[test]
fn the_last_legible_annotation_is_shown() {
    assert_eq!(display_annotation("? =7="), Some("7".to_string()));
    assert_eq!(display_annotation("=4= or =5="), Some("5".to_string()));
    assert_eq!(display_annotation("$1"), Some("!".to_string()));
    assert_eq!(display_annotation("=x="), None);
    assert_eq!(display_annotation(""), None);
    assert_eq!(
        annotation_parts("=1=$12ab"),
        vec!["=1=".to_string(), "$12".to_string(), "a".to_string(), "b".to_string()]
    );
    assert_eq!(display_one("=03="), Some("3".to_string()));
    assert_eq!(display_one("$4"), Some("??".to_string()));
    assert_eq!(display_one("x"), None);
    assert!(annotation_splits("=é=!"));
    assert!(!annotation_splits("é"));
}

#[test]
fn a_deal_with_spot_cards_is_read_for_display() {
    let (deal, hidden) = display_deal("N:AKxx.Q.J.T ... - 2.3.4.5").unwrap();
    assert_eq!(deal.north.spades.ranks, vec![Rank::Ace, Rank::King]);
    assert_eq!(deal.north.spades.unknown, 2);
    assert_eq!(deal.north.clubs.ranks, vec![Rank::Ten]);
    assert!(hidden.east && hidden.south && !hidden.north && !hidden.west);
    assert_eq!(deal.west.hearts.ranks, vec![Rank::Three]);
    assert!(display_deal("N:AK.Q.J").is_none());
    assert!(display_deal("Z:... ... ... ...").is_none());
    assert!(display_deal("N:AZ.Q.J.T ... ... ...").is_none());
    assert!(display_deal("no colon").is_none());
}

#[test]
fn suffix_markers_are_not_note_references() {
    for marker in ["!", "?", "!!", "??", "!?", "?!"] {
        assert!(is_suffix_annotation(marker), "{marker}");
    }
    for reference in ["1", "12", ""] {
        assert!(!is_suffix_annotation(reference), "{reference:?}");
    }
}

#[test]
fn dates_are_spelt_as_bridge_composer_spells_them() {
    assert_eq!(
        spelled_date("2017.01.17").as_deref(),
        Some("Tuesday, January 17, 2017")
    );
    assert_eq!(
        spelled_date("2023.12.10").as_deref(),
        Some("Sunday, December 10, 2023")
    );
    assert_eq!(spelled_date("0"), None, "no date: never today's");
    assert_eq!(spelled_date("2017.13.01"), None);
}

#[test]
fn odd_dates_are_spelt_or_refused() {
    assert_eq!(spelled_date(" 2000.02.29 ").as_deref(), Some("Tuesday, February 29, 2000"));
    assert_eq!(spelled_date("-1.3.1").as_deref(), Some("Tuesday, March 1, -1"));
    assert_eq!(spelled_date("2017.1.32"), None);
    assert_eq!(spelled_date("2017.1.1.1"), None);
}

#[test]
fn footer_tokens_expand() {
    let titles = FooterTitles {
        date: Some("2017.01.17".into()),
        site: Some("Stoneridge Creek".into()),
        event: Some("ABS3-3".into()),
        set_id: None,
    };
    assert_eq!(
        expand("%D|%s|%n of %N|%e|%t|%%|%P|%q", 6, 9, &titles),
        "Tuesday, January 17, 2017|Stoneridge Creek|6 of 9|ABS3-3||%||q"
    );
    assert_eq!(expand("50%", 1, 1, &titles), "50%");
}

#[test]
fn a_footer_cell_breaks_at_its_escaped_newlines() {
    let lines: Vec<_> = footer_lines("Presented by\\\\nGrant Robinson");
    assert_eq!(lines, ["Presented by", "Grant Robinson"]);
    let lines = footer_lines("a\\nb\\\\nc");
    assert_eq!(lines, ["a", "b", "c"]);
}

#[test]
fn suits_turn_to_lead_with_the_first() {
    assert_eq!(
        suit_order_for(Suit::Diamonds, false),
        [Suit::Diamonds, Suit::Clubs, Suit::Spades, Suit::Hearts]
    );
    assert_eq!(
        fan_suit_order(Suit::Clubs, true),
        [Suit::Clubs, Suit::Diamonds, Suit::Spades, Suit::Hearts]
    );
}

#[test]
fn builtin_fonts_draw_windows_1252() {
    assert_eq!(winansi_byte('A'), Some(b'A'));
    assert_eq!(winansi_byte('€'), Some(0x80));
    assert_eq!(winansi_byte('é'), Some(0xE9));
    assert_eq!(winansi_byte('♠'), None);
    assert_eq!(winansi_char('é'), Some('é'));
    assert_eq!(winansi_char('\u{2212}'), Some('-'));
    assert_eq!(winansi_char('♠'), None);
    assert_eq!(winansi_char('\u{4e00}'), Some('?'));
}

#[test]
fn numbers_in_a_content_stream() {
    for token in ["1", "-2.5", "+.5", "3."] {
        assert!(is_number(token.as_bytes()), "{token}");
    }
    for token in ["", "-", ".", "1.2.3", "re", "1e5"] {
        assert!(!is_number(token.as_bytes()), "{token}");
    }
}

#[test]
fn the_declarer_sits_south() {
    let mut deal = Deal::new();
    deal.east = Hand::from_holdings(
        Holding::from_ranks([Rank::Ace]),
        Holding::new(),
        Holding::new(),
        Holding::new(),
    );
    deal.west.hearts = Holding::from_ranks([Rank::Two]);
    let (dummy, declarer) = rotate_deal_for_declarer(&deal, Direction::East);
    assert_eq!(declarer.spades.ranks, vec![Rank::Ace]);
    assert_eq!(dummy.hearts.ranks, vec![Rank::Two]);
    assert_eq!(ranks(&declarer, Suit::Spades), "A");
    assert_eq!(ranks(&declarer, Suit::Hearts), "--");
    assert_eq!(seat_initial(Direction::West), "W");
}

#[test]
fn a_single_visible_hand_drops_the_compass() {
    let mut deal = Deal::new();
    deal.south.spades = Holding::from_ranks([Rank::King]);
    let hidden = HiddenHands { north: true, east: true, south: false, west: true };
    let o = DiagramDisplayOptions::from_deal(&deal, &hidden);
    assert!(o.hide_compass);
    assert_eq!(o.single_visible_hand, Some(Direction::South));
    assert!(o.is_fragment);
    assert_eq!(o.suits_present, vec![Suit::Spades]);
    assert!(!o.show_suit_symbols);
}

#[test]
fn the_weekday_moves_on_with_the_date() {
    assert_eq!(spelled_date("2024.02.28").as_deref(), Some("Wednesday, February 28, 2024"));
    assert_eq!(spelled_date("2024.02.29").as_deref(), Some("Thursday, February 29, 2024"));
    assert_eq!(spelled_date("2024.03.01").as_deref(), Some("Friday, March 1, 2024"));
    assert_eq!(spelled_date("2023.12.31").as_deref(), Some("Sunday, December 31, 2023"));
    assert_eq!(spelled_date("2024.01.01").as_deref(), Some("Monday, January 1, 2024"));
}

#[test]
fn only_real_dates_are_spelled() {
    assert_eq!(spelled_date("2017.02.30"), None);
    assert_eq!(spelled_date("2017.02.29"), None);
    assert_eq!(spelled_date("2017.04.31"), None);
    assert_eq!(spelled_date("1900.02.29"), None);
    assert_eq!(spelled_date("2016.02.29").as_deref(), Some("Monday, February 29, 2016"));
    assert_eq!(spelled_date("2017.04.30").as_deref(), Some("Sunday, April 30, 2017"));
}
