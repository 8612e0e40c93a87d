use pbn_to_pdf::model::card::{Rank, Suit};
use pbn_to_pdf::model::commentary::TextSpan;
use pbn_to_pdf::parser::commentary::{extract_commentary, parse_formatted_text};
use pbn_to_pdf::parser::escapes::replace_suit_escapes;
use pbn_to_pdf::parser::header::{parse_header_line, parse_headers, HeaderDirective};

#[test]
fn test_plain_text() {
    let text = parse_formatted_text("Hello world").unwrap();
    assert_eq!(text.spans.len(), 1);
    assert_eq!(text.spans[0], TextSpan::Plain("Hello world".to_string()));
}

#[test]
fn test_bold_text() {
    let text = parse_formatted_text("<b>Bold</b> text").unwrap();
    assert_eq!(text.spans.len(), 2);
    assert_eq!(text.spans[0], TextSpan::Bold("Bold".to_string()));
    assert_eq!(text.spans[1], TextSpan::Plain(" text".to_string()));
}

#[test]
fn test_suit_symbols() {
    let text = parse_formatted_text(r"Open 1\S").unwrap();
    assert_eq!(text.spans.len(), 2);
    assert_eq!(text.spans[0], TextSpan::Plain("Open 1".to_string()));
    assert_eq!(text.spans[1], TextSpan::SuitSymbol(Suit::Spades));
}

#[test]
fn test_card_reference() {
    let text = parse_formatted_text(r"Lead the \SQ").unwrap();
    assert_eq!(text.spans.len(), 2);
    assert_eq!(text.spans[0], TextSpan::Plain("Lead the ".to_string()));
    assert_eq!(
        text.spans[1],
        TextSpan::CardRef {
            suit: Suit::Spades,
            rank: Rank::Queen
        }
    );
}

#[test]
fn test_mixed_formatting() {
    let text = parse_formatted_text(r"<b>Bidding.</b> Open 1\D and rebid 2\H").unwrap();
    assert_eq!(text.to_plain_text(), "Bidding. Open 1♦ and rebid 2♥");
}

#[test]
fn test_extract_commentary() {
    let input = "{This is commentary} rest of line";
    let (commentary, rest) = extract_commentary(input).unwrap();
    assert_eq!(commentary, "This is commentary");
    assert_eq!(rest, " rest of line");
}

#[test]
fn commentary_needs_its_braces() {
    assert!(extract_commentary("no braces").is_none());
    assert!(extract_commentary("{unclosed").is_none());
}

#[test]
fn test_bold_with_spaces() {
    let text = parse_formatted_text("<b>Declarer play.</b> Declarer (North)").unwrap();
    assert_eq!(text.spans.len(), 2);
    assert_eq!(text.spans[0], TextSpan::Bold("Declarer play.".to_string()));
    assert_eq!(
        text.spans[1],
        TextSpan::Plain(" Declarer (North)".to_string())
    );
}

#[test]
fn test_bold_italic_nested() {
    let text = parse_formatted_text("<b><i>Exercise One Answers</i></b>").unwrap();
    assert_eq!(text.spans.len(), 1);
    assert_eq!(
        text.spans[0],
        TextSpan::BoldItalic("Exercise One Answers".to_string())
    );
}

#[test]
fn test_italic_bold_nested() {
    let text = parse_formatted_text("<i><b>Also Bold Italic</b></i>").unwrap();
    assert_eq!(text.spans.len(), 1);
    assert_eq!(
        text.spans[0],
        TextSpan::BoldItalic("Also Bold Italic".to_string())
    );
}

#[test]
fn test_suit_symbol_in_italic() {
    let text =
        parse_formatted_text(r"<i>Opener would have rebid 1\S with four spades.</i>").unwrap();
    assert_eq!(text.spans.len(), 1);
    assert_eq!(
        text.spans[0],
        TextSpan::Italic("Opener would have rebid 1♠ with four spades.".to_string())
    );
}

#[test]
fn test_suit_symbol_in_bold() {
    let text = parse_formatted_text(r"<b>Open 1\D</b>").unwrap();
    assert_eq!(text.spans.len(), 1);
    assert_eq!(text.spans[0], TextSpan::Bold("Open 1♦".to_string()));
}

#[test]
fn test_suit_symbol_in_bold_italic() {
    let text = parse_formatted_text(r"<b><i>Bid 2\H</i></b>").unwrap();
    assert_eq!(text.spans.len(), 1);
    assert_eq!(text.spans[0], TextSpan::BoldItalic("Bid 2♥".to_string()));
}

#[test]
fn test_underline_text() {
    let text = parse_formatted_text("<u>Underlined text</u>").unwrap();
    assert_eq!(text.spans.len(), 1);
    assert_eq!(
        text.spans[0],
        TextSpan::Underline("Underlined text".to_string())
    );
}

#[test]
fn test_underline_with_suit_symbol() {
    let text = parse_formatted_text(r"<u>Lead the \SQ</u>").unwrap();
    assert_eq!(text.spans.len(), 1);
    assert_eq!(
        text.spans[0],
        TextSpan::Underline("Lead the ♠Q".to_string())
    );
}

#[test]
fn test_strip_empty_italic_tags() {
    let text =
        parse_formatted_text("<b>Exercise One<i> </i>—<i> </i>Ruffing Losers</b>").unwrap();
    assert_eq!(text.spans.len(), 1);
    assert_eq!(
        text.spans[0],
        TextSpan::Bold("Exercise One — Ruffing Losers".to_string())
    );
}

#[test]
fn test_colored_span_plain() {
    let text = parse_formatted_text(r#"Click <span style=color:#00f>here</span> now"#).unwrap();
    assert_eq!(text.spans.len(), 3);
    assert_eq!(text.spans[0], TextSpan::Plain("Click ".to_string()));
    assert_eq!(
        text.spans[1],
        TextSpan::Colored {
            text: "here".to_string(),
            italic: false,
            rgb: (0, 0, 255),
        }
    );
    assert_eq!(text.spans[2], TextSpan::Plain(" now".to_string()));
}

#[test]
fn test_colored_span_six_digit_hex() {
    let text = parse_formatted_text(r#"<span style=color:#FF8800>warm</span>"#).unwrap();
    assert_eq!(text.spans.len(), 1);
    assert_eq!(
        text.spans[0],
        TextSpan::Colored {
            text: "warm".to_string(),
            italic: false,
            rgb: (0xFF, 0x88, 0x00),
        }
    );
}

#[test]
fn test_italic_with_colored_span() {
    let text =
        parse_formatted_text(r#"<i><span style=color:#00f>2 Over 1 Game Force</span></i>"#)
            .unwrap();
    assert_eq!(text.spans.len(), 1);
    assert_eq!(
        text.spans[0],
        TextSpan::Colored {
            text: "2 Over 1 Game Force".to_string(),
            italic: true,
            rgb: (0, 0, 255),
        }
    );
}

#[test]
fn test_italic_mixed_with_colored_span() {
    let text =
        parse_formatted_text(r#"<i>Read <span style=color:#00f>this book</span> first</i>"#)
            .unwrap();
    assert_eq!(text.spans.len(), 3);
    assert_eq!(text.spans[0], TextSpan::Italic("Read ".to_string()));
    assert_eq!(
        text.spans[1],
        TextSpan::Colored {
            text: "this book".to_string(),
            italic: true,
            rgb: (0, 0, 255),
        }
    );
    assert_eq!(text.spans[2], TextSpan::Italic(" first".to_string()));
}

#[test]
fn test_strip_empty_italic_tags_no_content() {
    let text = parse_formatted_text("Before<i></i>After").unwrap();
    assert_eq!(text.spans.len(), 1);
    assert_eq!(text.spans[0], TextSpan::Plain("BeforeAfter".to_string()));
}

#[test]
fn bbo_suit_escapes_are_suits() {
    assert_eq!(replace_suit_escapes("3!SX, !DK and K!H"), "3♠X, ♦K and K♥");
    assert_eq!(replace_suit_escapes("!!! 1\\S"), "!!! 1♠");
    let text = parse_formatted_text("lead the !SK").unwrap();
    assert!(text.spans.contains(&TextSpan::CardRef {
        suit: Suit::Spades,
        rank: Rank::King
    }));
}

#[test]
fn an_unclosed_tag_is_an_error() {
    assert!(parse_formatted_text("<b>never closed").is_err());
    assert!(parse_formatted_text("<u>never closed").is_err());
}

#[test]
fn test_parse_version() {
    let directive = parse_header_line("% PBN 2.1").unwrap();
    match directive {
        HeaderDirective::Version(v) => assert_eq!(v, "2.1"),
        _ => panic!("Expected Version directive"),
    }
}

#[test]
fn test_parse_boards_per_page() {
    let directive = parse_header_line("%BoardsPerPage fit,1").unwrap();
    match directive {
        HeaderDirective::BoardsPerPage(config) => {
            assert_eq!(config.count, 1);
            assert!(config.fit);
        }
        _ => panic!("Expected BoardsPerPage directive"),
    }
}

#[test]
fn test_parse_boards_per_page_two_column() {
    let directive = parse_header_line("%BoardsPerPage fit,2").unwrap();
    match directive {
        HeaderDirective::BoardsPerPage(config) => {
            assert_eq!(config.count, 2);
            assert!(config.fit);
        }
        _ => panic!("Expected BoardsPerPage directive"),
    }
}

fn twips_to_mm(text: &str) -> f32 {
    text.parse::<f32>().unwrap() * 25.4 / 1000.0
}

#[test]
fn test_parse_margins() {
    let directive = parse_header_line("%Margins 1000,1000,500,750").unwrap();
    match directive {
        HeaderDirective::Margins(m) => {
            assert!((twips_to_mm(&m.top) - 25.4).abs() < 0.1);
            assert!((twips_to_mm(&m.bottom) - 25.4).abs() < 0.1);
            assert!((twips_to_mm(&m.right) - 12.7).abs() < 0.1);
            assert!((twips_to_mm(&m.left) - 19.05).abs() < 0.1);
        }
        _ => panic!("Expected Margins directive"),
    }
}

#[test]
fn test_parse_pip_colors() {
    let directive = parse_header_line("%PipColors #000000,#ff0000,#ff0000,#000000").unwrap();
    match directive {
        HeaderDirective::PipColors(c) => {
            assert_eq!(c.spades, (0, 0, 0));
            assert_eq!(c.hearts, (255, 0, 0));
        }
        _ => panic!("Expected PipColors directive"),
    }
}

#[test]
fn test_parse_bc_options() {
    let directive =
        parse_header_line("%BCOptions Float Justify NoHRStats STBorder STShade ShowHCP").unwrap();
    match directive {
        HeaderDirective::BCOptions(opts) => {
            assert!(opts.justify, "Expected Justify to be true");
            assert!(opts.show_hcp, "Expected ShowHCP to be true");
            assert!(opts.float, "Expected Float to be true");
        }
        _ => panic!("Expected BCOptions directive"),
    }
}

#[test]
fn test_parse_bc_options_partial() {
    let directive = parse_header_line("%BCOptions Justify").unwrap();
    match directive {
        HeaderDirective::BCOptions(opts) => {
            assert!(opts.justify, "Expected Justify to be true");
            assert!(!opts.show_hcp, "Expected ShowHCP to be false");
            assert!(!opts.float, "Expected Float to be false");
        }
        _ => panic!("Expected BCOptions directive"),
    }
}

#[test]
fn test_parse_bc_options_two_col_auctions() {
    let directive = parse_header_line(
        "%BCOptions Center GutterH GutterV Justify NoHRStats PageHeader STBorder STShade TwoColAuctions",
    )
    .unwrap();
    match directive {
        HeaderDirective::BCOptions(opts) => {
            assert!(opts.justify, "Expected Justify to be true");
            assert!(opts.center, "Expected Center to be true");
            assert!(opts.two_col_auctions, "Expected TwoColAuctions to be true");
        }
        _ => panic!("Expected BCOptions directive"),
    }
}

#[test]
fn test_parse_headers_two_col_auctions() {
    let lines = vec!["%BCOptions TwoColAuctions"];
    let metadata = parse_headers(&lines);
    assert!(
        metadata.layout.two_col_auctions,
        "Expected two_col_auctions to be true in metadata"
    );
}

#[test]
fn test_parse_translate_board_label() {
    let directive = parse_header_line("%Translate \"Board %\" \"%)\"").unwrap();
    match directive {
        HeaderDirective::BoardLabelFormat(fmt) => {
            assert_eq!(fmt, "%)");
        }
        _ => panic!("Expected BoardLabelFormat directive"),
    }
}

#[test]
fn test_parse_translate_in_headers() {
    let lines = vec!["%Translate \"Board %\" \"%)\""];
    let metadata = parse_headers(&lines);
    assert_eq!(metadata.layout.board_label_format, Some("%)".to_string()));
}

#[test]
fn show_card_table_and_board_labels_stay_unset_unless_the_file_says() {
    let metadata = parse_headers(&["%ShowCardTable 0", "%ShowBoardLabels 2"]);
    assert_eq!(metadata.layout.show_card_table, Some(false));
    assert_eq!(metadata.layout.show_board_labels, Some(true));

    let metadata = parse_headers(&["%BCOptions Justify"]);
    assert_eq!(metadata.layout.show_card_table, None);
    assert_eq!(metadata.layout.show_board_labels, None);
}

#[test]
fn the_last_header_line_wins() {
    let metadata = parse_headers(&["%BoardsPerPage fit,1", "%BoardsPerPage fit,2"]);
    assert_eq!(metadata.layout.boards_per_page, Some(2));
}
