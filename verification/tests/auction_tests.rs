use pbn_to_pdf::model::auction::{AuctionExt, Auction, Call, CallExt, Contract};
use pbn_to_pdf::model::card::{BidSuit, Direction, Strain};
use pbn_to_pdf::parser::auction::{extract_annotation, parse_auction, parse_note_reference};

#[test]
fn test_bid_parsing() {
    assert_eq!(
        Call::from_pbn("1C"),
        Some(Call::Bid {
            level: 1,
            strain: Strain::Clubs
        })
    );
    assert_eq!(
        Call::from_pbn("3NT"),
        Some(Call::Bid {
            level: 3,
            strain: Strain::NoTrump
        })
    );
    assert_eq!(Call::from_pbn("Pass"), Some(Call::Pass));
    assert_eq!(Call::from_pbn("X"), Some(Call::Double));
    assert_eq!(Call::from_pbn("XX"), Some(Call::Redouble));
    assert_eq!(Call::from_pbn("+"), Some(Call::Continue));
}

#[test]
fn test_bid_display() {
    assert_eq!(
        Call::Bid {
            level: 1,
            strain: Strain::NoTrump
        }
        .to_string(),
        "1NT"
    );
}

#[test]
fn test_contract_display() {
    let contract = Contract {
        level: 4,
        suit: Strain::Spades,
        doubled: true,
        redoubled: false,
        declarer: Direction::South,
    };
    assert_eq!(contract.to_string(), "4♠X by South");
}

#[test]
fn an_uncontested_auction_names_the_pair_that_bid_it() {
    let mut auction = Auction::new(Direction::North);
    for call in [Call::bid(1, Strain::Spades), Call::Pass, Call::Continue] {
        auction.add_call(call);
    }
    assert_eq!(
        auction.uncontested_pair(),
        Some((Direction::North, Direction::South))
    );

    let mut auction = Auction::new(Direction::North);
    for call in [Call::bid(1, Strain::Spades), Call::bid(2, Strain::Hearts)] {
        auction.add_call(call);
    }
    assert_eq!(auction.uncontested_pair(), None);
}

#[test]
fn test_bidsuit_alias() {
    let suit: BidSuit = Strain::Hearts;
    assert!(suit.is_red());
    assert_eq!(suit.symbol(), "♥");
}

#[test]
fn all_pass_is_no_single_call() {
    assert_eq!(Call::from_pbn_ext(" AP "), None);
    assert_eq!(Call::from_pbn_ext("ap"), None);
    assert_eq!(Call::from_pbn_ext(" 2h "), Some(Call::bid(2, Strain::Hearts)));
    assert_eq!(Call::from_pbn_ext("p"), Some(Call::Pass));
    assert_eq!(Call::from_pbn("8C"), None);
    assert_eq!(Call::from_pbn("1Z"), None);
    assert_eq!(Call::from_pbn("___"), Some(Call::Blank));
}

#[test]
fn calls_and_contracts_read_as_the_page_writes_them() {
    assert_eq!(Call::Pass.to_string(), "Pass");
    assert_eq!(Call::Redouble.to_string(), "XX");
    assert_eq!(Call::bid(7, Strain::Diamonds).to_string(), "7♦");
    let contract = Contract {
        level: 3,
        suit: Strain::NoTrump,
        doubled: false,
        redoubled: true,
        declarer: Direction::West,
    };
    assert_eq!(contract.to_string(), "3NTXX by West");
}

#[test]
fn test_simple_auction() {
    let auction = parse_auction(Direction::North, "1D 1S X Pass 1NT AP").unwrap();

    assert_eq!(auction.dealer, Direction::North);
    assert_eq!(auction.calls.len(), 8);

    assert_eq!(
        auction.calls[0].call,
        Call::Bid {
            level: 1,
            strain: Strain::Diamonds
        }
    );
    assert_eq!(
        auction.calls[1].call,
        Call::Bid {
            level: 1,
            strain: Strain::Spades
        }
    );
    assert_eq!(auction.calls[2].call, Call::Double);
    assert_eq!(auction.calls[3].call, Call::Pass);
}

#[test]
fn test_passed_out() {
    let auction = parse_auction(Direction::South, "Pass Pass Pass Pass").unwrap();
    assert!(auction.is_passed_out);
    assert_eq!(auction.calls.len(), 4);
}

#[test]
fn test_auction_with_annotations() {
    let auction = parse_auction(Direction::West, "1C! 1H 2C$1 Pass").unwrap();
    assert_eq!(auction.calls.len(), 4);
    assert_eq!(
        auction.calls[0].call,
        Call::Bid {
            level: 1,
            strain: Strain::Clubs
        }
    );
    assert_eq!(auction.calls[0].annotation, Some("!".to_string()));
    assert_eq!(auction.calls[2].annotation, None);
}

#[test]
fn test_auction_with_note_references() {
    let auction = parse_auction(
        Direction::East,
        "Pass Pass Pass 2NT =1= Pass 3H =2= Pass 4S",
    )
    .unwrap();
    assert_eq!(auction.calls.len(), 8);
    assert_eq!(
        auction.calls[3].call,
        Call::Bid {
            level: 2,
            strain: Strain::NoTrump
        }
    );
    assert_eq!(auction.calls[3].annotation, Some("1".to_string()));
    assert_eq!(
        auction.calls[5].call,
        Call::Bid {
            level: 3,
            strain: Strain::Hearts
        }
    );
    assert_eq!(auction.calls[5].annotation, Some("2".to_string()));
}

#[test]
fn test_extract_annotation() {
    assert_eq!(
        extract_annotation("1C!"),
        ("1C".to_string(), Some("!".to_string()))
    );
    assert_eq!(
        extract_annotation("2H=1="),
        ("2H".to_string(), Some("1".to_string()))
    );
    assert_eq!(extract_annotation("3NT"), ("3NT".to_string(), None));
    assert_eq!(extract_annotation("Pass$1"), ("Pass".to_string(), None));
}

#[test]
fn note_references_read_their_number() {
    assert_eq!(parse_note_reference("=12="), Some(12));
    assert_eq!(parse_note_reference("=+3="), Some(3));
    assert_eq!(parse_note_reference("=256="), None);
    assert_eq!(parse_note_reference("=="), None);
    assert_eq!(parse_note_reference("1"), None);
}

#[test]
fn test_empty_auction() {
    let auction = parse_auction(Direction::East, "").unwrap();
    assert_eq!(auction.calls.len(), 0);
}

#[test]
fn standalone_marks_annotate_the_call_before_them() {
    let auction = parse_auction(Direction::North, "1S $2 =07= 2S * 3S").unwrap();
    assert_eq!(auction.calls.len(), 2);
    assert_eq!(auction.calls[0].annotation, Some("7".to_string()));
    assert_eq!(auction.calls[1].call, Call::bid(2, Strain::Spades));
    assert!(!auction.is_passed_out);
}

#[test]
fn test_final_contract() {
    let auction = parse_auction(Direction::North, "1NT Pass 3NT AP").unwrap();
    let contract = auction.final_contract().unwrap();

    assert_eq!(contract.level, 3);
    assert_eq!(contract.suit, Strain::NoTrump);
    assert!(!contract.doubled);
    assert!(!contract.redoubled);
    assert_eq!(contract.declarer, Direction::North);
}

#[test]
fn test_final_contract_declarer_is_first_to_name_strain() {
    let auction = parse_auction(Direction::North, "1S Pass 4S AP").unwrap();
    let contract = auction.final_contract().unwrap();

    assert_eq!(contract.level, 4);
    assert_eq!(contract.suit, Strain::Spades);
    assert_eq!(contract.declarer, Direction::North);
}

#[test]
fn test_doubled_contract() {
    let auction = parse_auction(Direction::South, "1S X XX Pass Pass Pass").unwrap();
    let contract = auction.final_contract().unwrap();

    assert_eq!(contract.level, 1);
    assert_eq!(contract.suit, Strain::Spades);
    assert!(!contract.doubled);
    assert!(contract.redoubled);
}

#[test]
fn a_passed_out_auction_has_no_contract() {
    let auction = parse_auction(Direction::East, "Pass Pass Pass Pass").unwrap();
    assert!(auction.final_contract().is_none());
    let auction = parse_auction(Direction::East, "1H X Pass Pass Pass").unwrap();
    let contract = auction.final_contract().unwrap();
    assert!(contract.doubled);
    assert_eq!(contract.declarer, Direction::East);
}

#[test]
fn test_blank_parsing() {
    let auction = parse_auction(Direction::North, "_____").unwrap();
    assert_eq!(auction.calls.len(), 1);
    assert_eq!(auction.calls[0].call, Call::Blank);
}

#[test]
fn test_blank_uncontested_pair() {
    let auction = parse_auction(Direction::North, "_____").unwrap();
    let pair = auction.uncontested_pair();
    assert_eq!(pair, Some((Direction::North, Direction::South)));
}

#[test]
fn test_blank_with_bids() {
    let auction = parse_auction(Direction::North, "1NT Pass 2C Pass 2H Pass ____").unwrap();
    assert_eq!(auction.calls.len(), 7);
    assert_eq!(auction.calls[6].call, Call::Blank);
    let pair = auction.uncontested_pair();
    assert_eq!(pair, Some((Direction::North, Direction::South)));
}
