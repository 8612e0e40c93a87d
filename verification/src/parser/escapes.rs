//! Suit escapes and the clean-up commentary text gets before it is parsed.
use vstd::prelude::*;

use crate::model::auction::strain_of;
use crate::model::card::{suit_symbol, Strain, Suit};
use crate::text::{all_ws, append, find, find_at, is_blank_chars, lemma_find_bounds, slice_of, starts_with};

verus! {

/// The suit a backslash escape names: `\S`, `\H`, `\D`, `\C`, either case.
pub open spec fn escape_suit(c: char) -> Option<Suit> {
    if c == 'S' || c == 's' {
        Some(Suit::Spades)
    } else if c == 'H' || c == 'h' {
        Some(Suit::Hearts)
    } else if c == 'D' || c == 'd' {
        Some(Suit::Diamonds)
    } else if c == 'C' || c == 'c' {
        Some(Suit::Clubs)
    } else {
        None
    }
}

/// The suit BBO's `!S` form names: upper case only.
pub open spec fn bbo_suit(c: char) -> Option<Suit> {
    if c == 'S' {
        Some(Suit::Spades)
    } else if c == 'H' {
        Some(Suit::Hearts)
    } else if c == 'D' {
        Some(Suit::Diamonds)
    } else if c == 'C' {
        Some(Suit::Clubs)
    } else {
        None
    }
}

/// `s` with each suit escape -- `\S`, `\h`, ... or BBO's `!S` -- replaced by
/// its suit symbol, read left to right. A backslash before anything else
/// stays.
pub open spec fn suit_escapes(s: Seq<char>) -> Seq<char>
    decreases s.len(),
{
    if s.len() == 0 {
        seq![]
    } else if s[0] == '\\' && s.len() >= 2 && escape_suit(s[1]) is Some {
        seq![suit_symbol(escape_suit(s[1]).unwrap())] + suit_escapes(s.skip(2))
    } else if s[0] == '!' && s.len() >= 2 && bbo_suit(s[1]) is Some {
        seq![suit_symbol(bbo_suit(s[1]).unwrap())] + suit_escapes(s.skip(2))
    } else {
        seq![s[0]] + suit_escapes(s.skip(1))
    }
}

fn escape_suit_of(c: char) -> (r: Option<Suit>)
    ensures
        r == escape_suit(c),
{
    if c == 'S' || c == 's' {
        Some(Suit::Spades)
    } else if c == 'H' || c == 'h' {
        Some(Suit::Hearts)
    } else if c == 'D' || c == 'd' {
        Some(Suit::Diamonds)
    } else if c == 'C' || c == 'c' {
        Some(Suit::Clubs)
    } else {
        None
    }
}

/// The suit a backslash escape names.
pub fn escape_suit_exec(c: char) -> (r: Option<Suit>)
    ensures
        r == escape_suit(c),
{
    escape_suit_of(c)
}

fn bbo_suit_of(c: char) -> (r: Option<Suit>)
    ensures
        r == bbo_suit(c),
{
    if c == 'S' {
        Some(Suit::Spades)
    } else if c == 'H' {
        Some(Suit::Hearts)
    } else if c == 'D' {
        Some(Suit::Diamonds)
    } else if c == 'C' {
        Some(Suit::Clubs)
    } else {
        None
    }
}

/// [`suit_escapes`] on characters.
pub fn suit_escapes_chars(s: &[char]) -> (res: Vec<char>)
    ensures
        res@ == suit_escapes(s@),
{
    let mut res: Vec<char> = Vec::new();
    let mut i: usize = 0;
    assert(s@.skip(0) =~= s@);
    while i < s.len()
        invariant
            i <= s@.len(),
            suit_escapes(s@) == res@ + suit_escapes(s@.skip(i as int)),
        decreases s.len() - i,
    {
        let ghost rest = s@.skip(i as int);
        let c = s[i];
        assert(rest[0] == c);
        if c == '\\' && i + 1 < s.len() && escape_suit_of(s[i + 1]).is_some() {
            assert(rest[1] == s@[i + 1]);
            let suit = escape_suit_of(s[i + 1]).unwrap();
            res.push(suit.symbol());
            assert(rest.skip(2) =~= s@.skip(i + 2));
            i += 2;
        } else if c == '!' && i + 1 < s.len() && bbo_suit_of(s[i + 1]).is_some() {
            assert(rest[1] == s@[i + 1]);
            let suit = bbo_suit_of(s[i + 1]).unwrap();
            res.push(suit.symbol());
            assert(rest.skip(2) =~= s@.skip(i + 2));
            i += 2;
        } else {
            proof {
                if i + 1 < s.len() {
                    assert(rest[1] == s@[i + 1]);
                }
            }
            res.push(c);
            assert(rest.skip(1) =~= s@.skip(i + 1));
            i += 1;
        }
    }
    assert(suit_escapes(s@.skip(i as int)) =~= seq![]);
    assert(res@ + seq![] =~= res@);
    res
}

/// Replace suit escape sequences (`\S`, `\H`, `\D`, `\C`, either case, and
/// BBO's `!S`, upper case only) with Unicode symbols.
pub fn replace_suit_escapes(input: &str) -> (res: String)
    ensures
        res@ == suit_escapes(input@),
{
    let cs = crate::text::chars_of(input);
    let out = suit_escapes_chars(&cs);
    crate::text::string_of(&out)
}

/// BBO's `!S` rewritten as `\S`: each `!` directly before an upper-case suit
/// letter becomes a backslash.
pub open spec fn bbo_to_backslash(s: Seq<char>) -> Seq<char> {
    Seq::new(
        s.len(),
        |i: int|
            if s[i] == '!' && i + 1 < s.len() && bbo_suit(s[i + 1]) is Some {
                '\\'
            } else {
                s[i]
            },
    )
}

/// [`bbo_to_backslash`] on characters.
pub fn bbo_to_backslash_chars(s: &[char]) -> (res: Vec<char>)
    ensures
        res@ == bbo_to_backslash(s@),
{
    let mut res: Vec<char> = Vec::new();
    let mut i: usize = 0;
    while i < s.len()
        invariant
            i <= s@.len(),
            res@ == bbo_to_backslash(s@).take(i as int),
        decreases s.len() - i,
    {
        let c = s[i];
        let d = if c == '!' && i + 1 < s.len() && bbo_suit_of(s[i + 1]).is_some() {
            '\\'
        } else {
            c
        };
        res.push(d);
        i += 1;
        assert(res@ =~= bbo_to_backslash(s@).take(i as int));
    }
    assert(bbo_to_backslash(s@).take(s@.len() as int) =~= bbo_to_backslash(s@));
    res
}

pub open spec fn open_i() -> Seq<char> {
    seq!['<', 'i', '>']
}

pub open spec fn close_i() -> Seq<char> {
    seq!['<', '/', 'i', '>']
}

/// Every `<i>`…`</i>` pair holding only whitespace stripped, wherever it
/// stands: each `<i>` pairs with the first `</i>` after it; a pair holding
/// only whitespace gives way to that whitespace, any other pair stays as it
/// is, and the search goes on after the pair's `</i>`.
pub open spec fn strip_empty_italics(s: Seq<char>) -> Seq<char>
    decreases s.len(),
{
    match find(s, open_i()) {
        None => s,
        Some(start) => match find(s.skip(start), close_i()) {
            None => s,
            Some(e) => {
                let content = s.subrange(start + 3, start + e);
                let rest = s.skip(start + e + 4);
                proof {
                    lemma_pair_bounds(s);
                    assert(find(s, open_i()).unwrap() == start);
                    assert(3 <= e && start + e + 4 <= s.len());
                    lemma_find_bounds(s, open_i());
                    assert(0 <= start);
                    assert(rest.len() == s.len() - (start + e + 4));
                }
                if all_ws(content) {
                    s.take(start) + content + strip_empty_italics(rest)
                } else {
                    s.take(start + e + 4) + strip_empty_italics(rest)
                }
            },
        },
    }
}

/// A closing tag found after an opening tag starts past it.
pub proof fn lemma_close_after_open(s: Seq<char>, t: char, close: Seq<char>)
    requires
        t != '/',
        t != '<',
        starts_with(s, seq!['<', t, '>']),
        close.len() >= 2,
        close[0] == '<',
        close[1] == '/',
        find(s, close) is Some,
    ensures
        find(s, close).unwrap() >= 3,
        find(s, close).unwrap() + close.len() <= s.len(),
{
    lemma_find_bounds(s, close);
    let e = find(s, close).unwrap();
    assert(s.take(3)[0] == s[0] && s.take(3)[1] == s[1] && s.take(3)[2] == s[2]);
    assert(s.skip(e).take(close.len() as int)[0] == s[e]);
    assert(s.skip(e).take(close.len() as int)[1] == s[e + 1]);
}

/// [`strip_empty_italics`] on characters.
pub fn strip_empty_italics_chars(input: &[char]) -> (res: Vec<char>)
    ensures
        res@ == strip_empty_italics(input@),
{
    let mut cur = slice_of(input, 0, input.len());
    assert(cur@ =~= input@);
    let mut out: Vec<char> = Vec::new();
    let oi = ['<', 'i', '>'];
    let ci = ['<', '/', 'i', '>'];
    assert(oi@ =~= open_i());
    assert(ci@ =~= close_i());
    loop
        invariant
            oi@ == open_i(),
            ci@ == close_i(),
            strip_empty_italics(input@) == out@ + strip_empty_italics(cur@),
        decreases cur@.len(),
    {
        assert(cur@.skip(0) =~= cur@);
        let start = match find_at(&cur, 0, &oi) {
            Some(k) => k,
            None => {
                append(&mut out, &cur);
                return out;
            },
        };
        proof {
            lemma_find_bounds(cur@, open_i());
        }
        let e = match find_at(&cur, start, &ci) {
            Some(k) => k,
            None => {
                append(&mut out, &cur);
                return out;
            },
        };
        proof {
            lemma_pair_bounds(cur@);
        }
        let content = slice_of(&cur, start + 3, start + e);
        let rest = slice_of(&cur, start + e + 4, cur.len());
        if is_blank_chars(&content) {
            let head = slice_of(&cur, 0, start);
            append(&mut out, &head);
            append(&mut out, &content);
        } else {
            let head = slice_of(&cur, 0, start + e + 4);
            append(&mut out, &head);
        }
        cur = rest;
    }
}

pub proof fn lemma_pair_bounds(s: Seq<char>)
    requires
        find(s, open_i()) is Some,
        find(s.skip(find(s, open_i()).unwrap()), close_i()) is Some,
    ensures
        ({
            let start = find(s, open_i()).unwrap();
            let e = find(s.skip(start), close_i()).unwrap();
            3 <= e && start + e + 4 <= s.len()
        }),
{
    let start = find(s, open_i()).unwrap();
    lemma_find_bounds(s, open_i());
    let r = s.skip(start);
    assert(r.take(3) =~= s.skip(start).take(3));
    lemma_close_after_open(r, 'i', close_i());
}

/// Strip empty or whitespace-only italic tags like `<i> </i>` or `<i></i>`,
/// keeping the whitespace they held.
pub fn strip_empty_italic_tags(input: &str) -> (res: String)
    ensures
        res@ == strip_empty_italics(input@),
{
    let cs = crate::text::chars_of(input);
    let out = strip_empty_italics_chars(&cs);
    crate::text::string_of(&out)
}

/// The suit a strain is, if it is one.
pub open spec fn strain_suit(s: Strain) -> Option<Suit> {
    match s {
        Strain::Clubs => Some(Suit::Clubs),
        Strain::Diamonds => Some(Suit::Diamonds),
        Strain::Hearts => Some(Suit::Hearts),
        Strain::Spades => Some(Suit::Spades),
        Strain::NoTrump => None,
    }
}

/// The suit a bid spelled with the single letter `c` names, if any.
pub open spec fn bid_letter_suit(c: char) -> Option<Suit> {
    match strain_of(seq![c]) {
        Some(st) => strain_suit(st),
        None => None,
    }
}

proof fn lemma_lower_one(c: char)
    ensures
        crate::text::lower(seq![c]) == seq![crate::text::ascii_lower(c)],
{
    assert(crate::text::lower(seq![c]) =~= seq![crate::text::ascii_lower(c)]);
}

/// A backslash escape names a suit exactly when a bid spelled with the same
/// letter does, and the same suit: `\S \H \D \C` in either case, so `\C`
/// reads as clubs.
pub proof fn escape_letters_name_the_suits_bids_name(c: char)
    ensures
        escape_suit(c) == bid_letter_suit(c),
{
    lemma_lower_one(c);
    let l = crate::text::ascii_lower(c);
    if 'A' <= c && c <= 'Z' {
        assert((c as u32) + 32 == l as u32);
    } else {
        assert(l == c);
    }
    assert(seq![l] == seq!['c'] <==> l == 'c') by {
        if seq![l] == seq!['c'] {
            assert(seq![l][0] == seq!['c'][0]);
        }
    }
    assert(seq![l] == seq!['d'] <==> l == 'd') by {
        if seq![l] == seq!['d'] {
            assert(seq![l][0] == seq!['d'][0]);
        }
    }
    assert(seq![l] == seq!['h'] <==> l == 'h') by {
        if seq![l] == seq!['h'] {
            assert(seq![l][0] == seq!['h'][0]);
        }
    }
    assert(seq![l] == seq!['s'] <==> l == 's') by {
        if seq![l] == seq!['s'] {
            assert(seq![l][0] == seq!['s'][0]);
        }
    }
    assert(seq![l] != seq!['n', 't']);
    assert(seq![l] == seq!['n'] <==> l == 'n') by {
        if seq![l] == seq!['n'] {
            assert(seq![l][0] == seq!['n'][0]);
        }
    }
}

/// BBO's `!S` form names a suit exactly when the letter is upper case and a
/// bid spelled with it names that suit: `!S !H !D !C`.
pub proof fn bbo_letters_are_the_upper_case_bid_letters(c: char)
    ensures
        bbo_suit(c) == if 'A' <= c && c <= 'Z' { bid_letter_suit(c) } else { None },
{
    escape_letters_name_the_suits_bids_name(c);
}

} // verus!
