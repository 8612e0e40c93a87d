use pbn_to_pdf::model::bcflags::BCFlags;
use pbn_to_pdf::model::card::{Rank, Suit};
use pbn_to_pdf::model::commentary::{CommentaryBlock, FormattedText, TextSpan};
use pbn_to_pdf::model::hand::{Hand, Holding};

#[test]
fn test_parse_hex() {
    let flags = BCFlags::from_hex("60001b").unwrap();
    assert!(flags.show_play());
    assert!(flags.show_results());
    assert!(!flags.show_final_commentary());
    assert!(flags.show_diagram());
    assert!(flags.show_auction());
    assert!(!flags.show_event_commentary());
    assert!(!flags.hide_board());
    assert!(flags.hide_dealer());
    assert!(flags.hide_vulnerable());
}

#[test]
fn test_flags_17() {
    let flags = BCFlags::from_hex("17").unwrap();
    assert!(flags.show_play());
    assert!(flags.show_results());
    assert!(flags.show_final_commentary());
    assert!(!flags.show_diagram());
    assert!(flags.show_auction());
    assert!(!flags.hide_board());
    assert!(!flags.hide_dealer());
    assert!(!flags.hide_vulnerable());
}

#[test]
fn test_flags_600023() {
    let flags = BCFlags::from_hex("600023").unwrap();
    assert!(flags.show_play());
    assert!(flags.show_results());
    assert!(!flags.show_diagram());
    assert!(!flags.show_auction());
    assert!(flags.show_event_commentary());
    assert!(!flags.hide_board());
    assert!(flags.hide_dealer());
    assert!(flags.hide_vulnerable());
}

#[test]
fn test_page_break() {
    let flags = BCFlags::from_hex("4000000").unwrap();
    assert!(flags.page_break());
    assert!(!flags.column_break());
}

#[test]
fn test_column_break() {
    let flags = BCFlags::from_hex("2000000").unwrap();
    assert!(flags.column_break());
    assert!(!flags.page_break());
}

#[test]
fn test_default() {
    let flags = BCFlags::default();
    assert_eq!(flags.raw(), 0);
    assert!(!flags.show_play());
    assert!(!flags.hide_board());
}

#[test]
fn hex_flags_are_trimmed_and_checked() {
    assert_eq!(BCFlags::from_hex("  ff ").unwrap().raw(), 0xff);
    assert!(BCFlags::from_hex("xyz").is_none());
    assert!(BCFlags::from_hex("").is_none());
    assert!(BCFlags::from_hex("100000000").is_none());
    assert_eq!(BCFlags::new(0x7f).raw(), 0x7f);
}

#[test]
fn test_formatted_text_to_plain() {
    let mut text = FormattedText::new();
    text.push(TextSpan::Bold("Bidding.".to_string()));
    text.push(TextSpan::Plain(" Open 1".to_string()));
    text.push(TextSpan::SuitSymbol(Suit::Spades));

    assert_eq!(text.to_plain_text(), "Bidding. Open 1♠");
}

#[test]
fn card_references_and_line_breaks_read_as_text() {
    let mut text = FormattedText::new();
    text.push(TextSpan::CardRef { suit: Suit::Hearts, rank: Rank::Ten });
    text.push(TextSpan::LineBreak);
    text.push(TextSpan::colored("red".to_string(), (255, 0, 0)));
    assert_eq!(text.to_plain_text(), "♥10\nred");
}

#[test]
fn test_is_blank_empty() {
    let text = FormattedText::new();
    assert!(text.is_blank());
}

#[test]
fn test_is_blank_whitespace_only() {
    let mut text = FormattedText::new();
    text.push(TextSpan::Plain(" ".to_string()));
    assert!(text.is_blank());
}

#[test]
fn test_is_blank_with_content() {
    let mut text = FormattedText::new();
    text.push(TextSpan::Plain("Hello".to_string()));
    assert!(!text.is_blank());
}

#[test]
fn test_is_blank_with_suit_symbol() {
    let mut text = FormattedText::new();
    text.push(TextSpan::SuitSymbol(Suit::Spades));
    assert!(!text.is_blank());
}

#[test]
fn test_commentary_block_is_blank() {
    let mut text = FormattedText::new();
    text.push(TextSpan::Plain(" ".to_string()));
    let block = CommentaryBlock::new(text);
    assert!(block.is_blank());
}

#[test]
fn test_holding_hcp() {
    let holding = Holding::from_ranks([Rank::Ace, Rank::King, Rank::Queen]);
    assert_eq!(holding.hcp(), 9);
}

#[test]
fn test_empty_holding() {
    let holding = Holding::new();
    assert!(holding.is_void());
    assert_eq!(holding.to_string(), "-");
}

#[test]
fn test_holding_display_order() {
    let holding = Holding::from_ranks([Rank::Two, Rank::Ace, Rank::King]);
    assert_eq!(holding.to_string(), "AK2");
}

#[test]
fn adding_a_rank_keeps_display_order_and_ignores_repeats() {
    let mut holding = Holding::from_ranks([Rank::King, Rank::Two]);
    holding.add(Rank::Ten);
    holding.add(Rank::King);
    assert_eq!(holding.ranks, vec![Rank::King, Rank::Ten, Rank::Two]);
    holding.unknown = 2;
    assert_eq!(holding.to_string(), "K102xx");
    assert_eq!(holding.len(), 5);
}

#[test]
fn test_hand_shape() {
    let mut hand = Hand::new();
    hand.spades = Holding::from_ranks([Rank::Ace, Rank::King, Rank::Queen, Rank::Jack, Rank::Ten]);
    hand.hearts = Holding::from_ranks([Rank::Ace, Rank::King, Rank::Queen]);
    hand.diamonds = Holding::from_ranks([Rank::Ace, Rank::King]);
    hand.clubs = Holding::from_ranks([Rank::Ace, Rank::King, Rank::Queen]);

    assert_eq!(hand.shape(), [5, 3, 2, 3]);
    assert_eq!(hand.card_count(), 13);
}

#[test]
fn test_length_points() {
    let mut hand = Hand::new();
    hand.spades = Holding::from_ranks([Rank::Ace, Rank::King, Rank::Queen, Rank::Jack, Rank::Ten]);
    hand.hearts = Holding::from_ranks([Rank::Ace, Rank::King, Rank::Queen]);
    hand.diamonds = Holding::from_ranks([Rank::Ace, Rank::King]);
    hand.clubs = Holding::from_ranks([Rank::Ace, Rank::King, Rank::Queen]);

    assert_eq!(hand.length_points(), 1);

    let mut hand2 = Hand::new();
    hand2.spades = Holding::from_ranks([
        Rank::Ace,
        Rank::King,
        Rank::Queen,
        Rank::Jack,
        Rank::Ten,
        Rank::Nine,
    ]);
    hand2.hearts = Holding::from_ranks([Rank::Ace, Rank::King, Rank::Queen]);
    hand2.diamonds = Holding::from_ranks([Rank::Ace, Rank::King]);
    hand2.clubs = Holding::from_ranks([Rank::Ace, Rank::King]);

    assert_eq!(hand2.length_points(), 2);

    let mut hand3 = Hand::new();
    hand3.spades = Holding::from_ranks([Rank::Ace, Rank::King, Rank::Queen, Rank::Jack]);
    hand3.hearts = Holding::from_ranks([Rank::Ace, Rank::King, Rank::Queen]);
    hand3.diamonds = Holding::from_ranks([Rank::Ace, Rank::King, Rank::Queen]);
    hand3.clubs = Holding::from_ranks([Rank::Ace, Rank::King, Rank::Queen]);

    assert_eq!(hand3.length_points(), 0);
}

#[test]
fn test_contains() {
    let mut hand = Hand::new();
    hand.spades = Holding::from_ranks([Rank::Ace, Rank::King]);

    assert!(hand.contains(Suit::Spades, Rank::Ace));
    assert!(!hand.contains(Suit::Spades, Rank::Queen));
    assert!(!hand.contains(Suit::Hearts, Rank::Ace));
}

#[test]
fn a_hand_counts_its_points() {
    let hand = Hand::from_holdings(
        Holding::from_ranks([Rank::Ace, Rank::Jack]),
        Holding::from_ranks([Rank::King]),
        Holding::from_ranks([Rank::Queen, Rank::Two]),
        Holding::new(),
    );
    assert_eq!(hand.total_hcp(), 10);
    assert_eq!(hand.holding(Suit::Diamonds).hcp(), 2);
    assert!(hand.holding(Suit::Clubs).is_void());
}
