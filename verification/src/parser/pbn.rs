//! What the page needs from a PBN record beyond what a general reader gives:
//! where each commentary block stood, the annotation a call shows, and a
//! `[Deal]` with unknown spot cards read for display.
use vstd::prelude::*;

use crate::model::auction::{seat_at_index, seat_index};
use crate::model::board::HiddenHands;
use crate::model::card::{rank_of_char, seat_of_char, Direction, Rank, Suit};
use crate::model::commentary::CommentarySlot;
use crate::model::deal::Deal;
use crate::model::hand::{display_order, Hand, Holding};
use crate::num::{decimal, parse_unsigned, parse_unsigned_spec, u8_decimal};
use crate::parser::auction::nag_text;
use crate::text::{chars_of, find, find_at, slice_of, split, split_on, split_ws, string_of, trim, trim_chars, words};

verus! {

/// The index of the first tag named `name` in `tags`.
pub open spec fn tag_position(tags: Seq<Seq<char>>, name: Seq<char>) -> Option<int>
    decreases tags.len(),
{
    if tags.len() == 0 {
        None
    } else if tags[0] == name {
        Some(0)
    } else {
        match tag_position(tags.drop_first(), name) {
            Some(i) => Some(i + 1),
            None => None,
        }
    }
}

/// Position `x` is at or before the tag at `p`, when there is one.
pub open spec fn no_later(x: int, p: Option<int>) -> bool {
    match p {
        Some(i) => x <= i,
        None => false,
    }
}

/// Position `x` comes straight after the tag at `p`, when there is one.
pub open spec fn just_after(x: int, p: Option<int>) -> bool {
    match p {
        Some(i) => x == i + 1,
        None => false,
    }
}

/// The slot of a block that `anchor` of the record's tags preceded: before
/// `[Board]` (or `[Deal]`, when there is no `[Board]`) it is the event's;
/// before `[Deal]` it stands between the two; straight after `[Deal]` it is
/// the diagram's; anywhere later, or where its place is unknown, it is final.
pub open spec fn slot_of(anchor: Option<int>, tags: Seq<Seq<char>>) -> CommentarySlot {
    let deal = tag_position(tags, seq!['D', 'e', 'a', 'l']);
    let board = match tag_position(tags, seq!['B', 'o', 'a', 'r', 'd']) {
        Some(i) => Some(i),
        None => deal,
    };
    match anchor {
        None => CommentarySlot::Final,
        Some(before) => {
            if no_later(before, board) {
                CommentarySlot::Event
            } else if no_later(before, deal) {
                CommentarySlot::BeforeDeal
            } else if just_after(before, deal) {
                CommentarySlot::Diagram
            } else {
                CommentarySlot::Final
            }
        },
    }
}

/// The names of `tags` as characters.
pub open spec fn tag_names(tags: Seq<String>) -> Seq<Seq<char>> {
    tags.map_values(|t: String| t@)
}

proof fn lemma_tag_position_bounds(tags: Seq<Seq<char>>, name: Seq<char>)
    ensures
        tag_position(tags, name) matches Some(i) ==> 0 <= i < tags.len(),
    decreases tags.len(),
{
    if tags.len() > 0 {
        lemma_tag_position_bounds(tags.drop_first(), name);
    }
}

fn position_of(tags: &[String], name: &[char]) -> (r: Option<usize>)
    ensures
        r matches Some(k) ==> tag_position(tag_names(tags@), name@) == Some(k as int),
        r is None ==> tag_position(tag_names(tags@), name@) is None,
{
    let ghost names = tag_names(tags@);
    proof {
        lemma_tag_position_bounds(names, name@);
    }
    let mut i: usize = 0;
    assert(names.skip(0) =~= names);
    while i < tags.len()
        invariant
            i <= tags@.len(),
            names == tag_names(tags@),
            tag_position(names, name@) == (match tag_position(names.skip(i as int), name@) {
                Some(k) => Some(k + i),
                None => None::<int>,
            }),
        decreases tags.len() - i,
    {
        let t = chars_of(tags[i].as_str());
        assert(names.skip(i as int)[0] == t@);
        assert(names.skip(i as int).drop_first() =~= names.skip(i + 1));
        if crate::num::same(&t, name) {
            return Some(i);
        }
        i += 1;
    }
    assert(names.skip(i as int).len() == 0);
    None
}

/// Which part of its board a commentary block belongs to, from how many of the
/// record's tags came before it (see [`slot_of`]).
pub fn commentary_slot(anchor: Option<usize>, tag_order: &[String]) -> (s: CommentarySlot)
    ensures
        s == slot_of(
            match anchor {
                Some(a) => Some(a as int),
                None => None,
            },
            tag_names(tag_order@),
        ),
{
    let before = match anchor {
        Some(b) => b,
        None => {
            return CommentarySlot::Final;
        },
    };
    let deal_name = ['D', 'e', 'a', 'l'];
    let board_name = ['B', 'o', 'a', 'r', 'd'];
    assert(deal_name@ =~= seq!['D', 'e', 'a', 'l']);
    assert(board_name@ =~= seq!['B', 'o', 'a', 'r', 'd']);
    let deal = position_of(tag_order, &deal_name);
    let board = match position_of(tag_order, &board_name) {
        Some(i) => Some(i),
        None => deal,
    };
    let before_board = match board {
        Some(i) => before <= i,
        None => false,
    };
    let before_deal = match deal {
        Some(i) => before <= i,
        None => false,
    };
    let after_deal = match deal {
        Some(i) => before > 0 && before - 1 == i,
        None => false,
    };
    if before_board {
        CommentarySlot::Event
    } else if before_deal {
        CommentarySlot::BeforeDeal
    } else if after_deal {
        CommentarySlot::Diagram
    } else {
        CommentarySlot::Final
    }
}

/// How many ASCII digits `s` starts with.
pub open spec fn digit_run(s: Seq<char>) -> int
    decreases s.len(),
{
    if s.len() > 0 && '0' <= s[0] <= '9' {
        1 + digit_run(s.drop_first())
    } else {
        0
    }
}

/// How many characters of `s` the next annotation takes: a note reference
/// `=n=` up to its closing `=` (the rest when there is none), `$` and the
/// digits after it, or any other single character.
pub open spec fn part_len(s: Seq<char>) -> int {
    if s.len() == 0 {
        0
    } else if s[0] == '=' {
        match find(s.drop_first(), seq!['=']) {
            Some(at) => at + 2,
            None => s.len() as int,
        }
    } else if s[0] == '$' {
        1 + digit_run(s.drop_first())
    } else {
        1
    }
}

pub proof fn lemma_digit_run_bounds(s: Seq<char>)
    ensures
        0 <= digit_run(s) <= s.len(),
        forall|i: int| 0 <= i < digit_run(s) ==> '0' <= #[trigger] s[i] <= '9',
        digit_run(s) < s.len() ==> !('0' <= s[digit_run(s)] <= '9'),
    decreases s.len(),
{
    if s.len() > 0 && '0' <= s[0] <= '9' {
        lemma_digit_run_bounds(s.drop_first());
        assert forall|i: int| 0 <= i < digit_run(s) implies '0' <= #[trigger] s[i] <= '9' by {
            if i > 0 {
                assert(s[i] == s.drop_first()[i - 1]);
            }
        }
    }
}

pub proof fn lemma_part_len_bounds(s: Seq<char>)
    requires
        s.len() > 0,
    ensures
        1 <= part_len(s) <= s.len(),
{
    if s[0] == '=' {
        crate::text::lemma_find_bounds(s.drop_first(), seq!['=']);
    } else if s[0] == '$' {
        lemma_digit_run_bounds(s.drop_first());
    }
}

/// A run of annotations split into the single ones, each unrecognised
/// character a part of its own.
pub open spec fn parts(s: Seq<char>) -> Seq<Seq<char>>
    decreases s.len(),
{
    if s.len() == 0 {
        seq![]
    } else {
        proof {
            lemma_part_len_bounds(s);
        }
        seq![s.take(part_len(s))] + parts(s.skip(part_len(s)))
    }
}

/// Whether splitting `s` would cut a character other than ASCII in two: one
/// that stands where a part begins, and begins no note reference or `$` mark.
pub open spec fn parts_cut_a_char(s: Seq<char>) -> bool
    decreases s.len(),
{
    if s.len() == 0 {
        false
    } else {
        proof {
            lemma_part_len_bounds(s);
        }
        (s[0] != '=' && s[0] != '$' && (s[0] as u32) >= 128) || parts_cut_a_char(
            s.skip(part_len(s)),
        )
    }
}

fn part_len_at(s: &[char], pos: usize) -> (n: usize)
    requires
        pos < s@.len(),
    ensures
        n == part_len(s@.skip(pos as int)),
        1 <= n <= s@.len() - pos,
{
    proof {
        lemma_part_len_bounds(s@.skip(pos as int));
    }
    let ghost rest = s@.skip(pos as int);
    assert(rest.drop_first() =~= s@.skip(pos + 1));
    if s[pos] == '=' {
        let eq = ['='];
        assert(eq@ =~= seq!['=']);
        proof {
            crate::text::lemma_find_bounds(s@.skip(pos + 1), eq@);
        }
        match find_at(s, pos + 1, &eq) {
            Some(at) => at + 2,
            None => s.len() - pos,
        }
    } else if s[pos] == '$' {
        let mut j = pos + 1;
        assert(s@.skip(j as int) =~= rest.drop_first());
        while j < s.len() && '0' <= s[j] && s[j] <= '9'
            invariant
                pos < j <= s@.len(),
                digit_run(rest.drop_first()) == (j - pos - 1) + digit_run(s@.skip(j as int)),
            decreases s.len() - j,
        {
            assert(s@.skip(j as int).drop_first() =~= s@.skip(j + 1));
            j += 1;
        }
        j - pos
    } else {
        1
    }
}

/// Whether [`annotation_parts`] can split `annotation`: it cannot where a
/// character other than ASCII begins a part of its own.
pub fn annotation_splits(annotation: &str) -> (b: bool)
    ensures
        b == !parts_cut_a_char(annotation@),
{
    let s = chars_of(annotation);
    let mut pos: usize = 0;
    assert(s@.skip(0) =~= s@);
    while pos < s.len()
        invariant
            pos <= s@.len(),
            s@ == annotation@,
            parts_cut_a_char(s@) == parts_cut_a_char(s@.skip(pos as int)),
        decreases s.len() - pos,
    {
        let n = part_len_at(&s, pos);
        let c = s[pos];
        assert(s@.skip(pos as int)[0] == c);
        assert(s@.skip(pos as int).skip(n as int) =~= s@.skip(pos + n));
        if c != '=' && c != '$' && (c as u32) >= 128 {
            assert(parts_cut_a_char(s@.skip(pos as int)));
            return false;
        }
        pos += n;
    }
    assert(s@.skip(pos as int).len() == 0);
    true
}

/// Split a run of annotations into the single ones (see [`parts`]).
pub fn annotation_parts(annotation: &str) -> (r: Vec<String>)
    requires
        !parts_cut_a_char(annotation@),
    ensures
        r@.map_values(|p: String| p@) == parts(annotation@),
{
    let s = chars_of(annotation);
    let mut out: Vec<String> = Vec::new();
    let mut pos: usize = 0;
    assert(s@.skip(0) =~= s@);
    assert(out@.map_values(|p: String| p@) =~= seq![]);
    while pos < s.len()
        invariant
            pos <= s@.len(),
            s@ == annotation@,
            parts(s@) == out@.map_values(|p: String| p@) + parts(s@.skip(pos as int)),
        decreases s.len() - pos,
    {
        let n = part_len_at(&s, pos);
        let piece = slice_of(&s, pos, pos + n);
        assert(piece@ =~= s@.skip(pos as int).take(n as int));
        assert(s@.skip(pos as int).skip(n as int) =~= s@.skip(pos + n));
        let ghost before = out@;
        out.push(string_of(&piece));
        assert(out@.map_values(|p: String| p@) =~= before.map_values(|p: String| p@) + seq![
            piece@,
        ]);
        pos += n;
    }
    assert(parts(s@.skip(pos as int)) =~= seq![]);
    assert(out@.map_values(|p: String| p@) + seq![] =~= out@.map_values(|p: String| p@));
    out
}

/// What one annotation reads as on the page: the number of a note reference
/// `=n=`, a `!` or `?` itself, the mark a `$1`-`$4` glyph stands for, or
/// nothing.
pub open spec fn display_part(p: Seq<char>) -> Option<Seq<char>> {
    if p.len() >= 2 && p[0] == '=' && p.last() == '=' {
        match parse_unsigned_spec(p.subrange(1, p.len() - 1), 10, 255) {
            Some(n) => Some(decimal(n as nat)),
            None => None,
        }
    } else if p == seq!['!'] || p == seq!['?'] {
        Some(p)
    } else if nag_text(p).len() > 0 {
        Some(nag_text(p))
    } else {
        None
    }
}

/// The last of `ps` that reads as something.
pub open spec fn last_legible(ps: Seq<Seq<char>>) -> Option<Seq<char>>
    decreases ps.len(),
{
    if ps.len() == 0 {
        None
    } else {
        match display_part(ps.last()) {
            Some(x) => Some(x),
            None => last_legible(ps.drop_last()),
        }
    }
}

fn display_part_of(p: &[char]) -> (r: Option<Vec<char>>)
    ensures
        match display_part(p@) {
            Some(x) => r matches Some(v) && v@ == x,
            None => r is None,
        },
{
    let n = p.len();
    if n >= 2 && p[0] == '=' && p[n - 1] == '=' {
        let inner = slice_of(p, 1, n - 1);
        return match parse_unsigned(&inner, 10, 255) {
            Some(v) => Some(u8_decimal(v as u8)),
            None => None,
        };
    }
    if n == 1 && (p[0] == '!' || p[0] == '?') {
        assert(p@ =~= seq![p@[0]]);
        return Some(slice_of(p, 0, 1));
    }
    assert(n == 1 ==> p@ =~= seq![p@[0]]);
    let nag = crate::parser::auction::nag_chars(p);
    if nag.len() > 0 {
        Some(nag)
    } else {
        None
    }
}

/// What one annotation reads as on the page (see [`display_part`]).
pub fn display_one(part: &str) -> (r: Option<String>)
    ensures
        match display_part(part@) {
            Some(x) => r matches Some(s) && s@ == x,
            None => r is None,
        },
{
    let p = chars_of(part);
    match display_part_of(&p) {
        Some(v) => Some(string_of(&v)),
        None => None,
    }
}

/// What an annotation should read as on the page: of the annotations a call
/// collected, the last that reads as something.
pub fn display_annotation(annotation: &str) -> (r: Option<String>)
    requires
        !parts_cut_a_char(annotation@),
    ensures
        match last_legible(parts(annotation@)) {
            Some(x) => r matches Some(s) && s@ == x,
            None => r is None,
        },
{
    let ps = annotation_parts(annotation);
    let ghost views = ps@.map_values(|p: String| p@);
    let mut k = ps.len();
    assert(views.take(k as int) =~= views);
    while k > 0
        invariant
            k <= ps@.len(),
            views == ps@.map_values(|p: String| p@),
            views == parts(annotation@),
            last_legible(views) == last_legible(views.take(k as int)),
        decreases k,
    {
        assert(views.take(k as int).drop_last() =~= views.take(k - 1));
        assert(views.take(k as int).last() == ps@[k - 1]@);
        let p = chars_of(ps[k - 1].as_str());
        assert(p@ == views[k - 1]);
        match display_part_of(&p) {
            Some(v) => {
                assert(last_legible(views.take(k as int)) == display_part(views[k - 1]));
                return Some(string_of(&v));
            },
            None => {},
        }
        k -= 1;
    }
    assert(views.take(0) =~= Seq::<Seq<char>>::empty());
    None
}


/// A holding as a diagram reads it: its ranks and its unknown spot cards.
pub open spec fn holding_view(h: Holding) -> (Seq<Rank>, u8) {
    (h.ranks@, h.unknown)
}

/// A hand's holdings, spades first.
pub open spec fn hand_view(h: Hand) -> Seq<(Seq<Rank>, u8)> {
    seq![holding_view(h.spades), holding_view(h.hearts), holding_view(h.diamonds), holding_view(h.clubs)]
}

/// A deal's hands, North first.
pub open spec fn deal_view(d: Deal) -> Seq<Seq<(Seq<Rank>, u8)>> {
    seq![hand_view(d.north), hand_view(d.east), hand_view(d.south), hand_view(d.west)]
}

/// Which hands are hidden, North first.
pub open spec fn hidden_view(h: HiddenHands) -> Seq<bool> {
    seq![h.north, h.east, h.south, h.west]
}

/// A hand with four voids.
pub open spec fn void_hand() -> Seq<(Seq<Rank>, u8)> {
    seq![(seq![], 0u8), (seq![], 0u8), (seq![], 0u8), (seq![], 0u8)]
}

/// The ranks `r` with `k` added as [`Holding::add`] adds it.
pub open spec fn with_rank(r: Seq<Rank>, k: Rank) -> Seq<Rank> {
    if r.contains(k) {
        r
    } else {
        display_order(r.push(k))
    }
}

/// Reading the cards of one suit: an `x` (either case) is one more unknown
/// spot, any other character a rank. `Some(None)` at the first character that
/// is neither; `None` where the spots would pass 255, which the count cannot
/// hold.
pub open spec fn read_suit(s: Seq<char>) -> Option<Option<(Seq<Rank>, u8)>>
    decreases s.len(),
{
    if s.len() == 0 {
        Some(Some((seq![], 0u8)))
    } else {
        match read_suit(s.drop_last()) {
            Some(Some((r, u))) => {
                let c = s.last();
                if c == 'x' || c == 'X' {
                    if u == 255 {
                        None
                    } else {
                        Some(Some((r, (u + 1) as u8)))
                    }
                } else {
                    match rank_of_char(c) {
                        Some(k) => Some(Some((with_rank(r, k), u))),
                        None => Some(None),
                    }
                }
            },
            other => other,
        }
    }
}

/// Reading the suits `ss` in order, stopping at the first that fails.
pub open spec fn read_suits(ss: Seq<Seq<char>>) -> Option<Option<Seq<(Seq<Rank>, u8)>>>
    decreases ss.len(),
{
    if ss.len() == 0 {
        Some(Some(seq![]))
    } else {
        match read_suits(ss.drop_last()) {
            Some(Some(hs)) => match read_suit(ss.last()) {
                Some(Some(x)) => Some(Some(hs.push(x))),
                Some(None) => Some(None),
                None => None,
            },
            other => other,
        }
    }
}

/// Reading one hand: four suits separated by `.`, spades first.
pub open spec fn read_hand(h: Seq<char>) -> Option<Option<Seq<(Seq<Rank>, u8)>>> {
    let ss = split(h, '.');
    if ss.len() != 4 {
        Some(None)
    } else {
        read_suits(ss)
    }
}

/// A hand written `...` or `-`: one the diagram leaves out.
pub open spec fn left_out(h: Seq<char>) -> bool {
    h == seq!['.', '.', '.'] || h == seq!['-']
}

/// Reading the hands `hs` in order, the first for `first` and each next one
/// for the next seat clockwise: the deal so far and the hands left out.
pub open spec fn read_hands(hs: Seq<Seq<char>>, first: Direction) -> Option<
    Option<(Seq<Seq<(Seq<Rank>, u8)>>, Seq<bool>)>,
>
    decreases hs.len(),
{
    if hs.len() == 0 {
        Some(Some((seq![void_hand(), void_hand(), void_hand(), void_hand()], seq![false, false, false, false])))
    } else {
        match read_hands(hs.drop_last(), first) {
            Some(Some((d, hid))) => {
                let k = seat_index(seat_at_index(seat_index(first) + hs.len() - 1));
                if left_out(hs.last()) {
                    Some(Some((d, hid.update(k, true))))
                } else {
                    match read_hand(hs.last()) {
                        Some(Some(hv)) => Some(Some((d.update(k, hv), hid))),
                        Some(None) => Some(None),
                        None => None,
                    }
                }
            },
            other => other,
        }
    }
}

/// A `[Deal]` read for display: `<seat>:` and four hands, the first for that
/// seat. `Some(None)` when the text is not a deal; `None` where a suit has
/// more unknown spots than a count can hold.
pub open spec fn read_display_deal(text: Seq<char>) -> Option<
    Option<(Seq<Seq<(Seq<Rank>, u8)>>, Seq<bool>)>,
> {
    let t = trim(text);
    match find(t, seq![':']) {
        None => Some(None),
        Some(k) => {
            let f = trim(t.take(k));
            if f.len() == 0 {
                Some(None)
            } else {
                match seat_of_char(f[0]) {
                    None => Some(None),
                    Some(first) => {
                        let hs = words(t.skip(k + 1));
                        if hs.len() != 4 {
                            Some(None)
                        } else {
                            read_hands(hs, first)
                        }
                    },
                }
            }
        },
    }
}

proof fn lemma_read_suit_stuck(s: Seq<char>, i: int)
    requires
        0 <= i <= s.len(),
        !(read_suit(s.take(i)) matches Some(Some(_))),
    ensures
        read_suit(s) == read_suit(s.take(i)),
    decreases s.len() - i,
{
    if i < s.len() {
        assert(s.take(i + 1).drop_last() =~= s.take(i));
        lemma_read_suit_stuck(s, i + 1);
    } else {
        assert(s.take(i) =~= s);
    }
}

fn read_suit_of(s: &[char]) -> (r: Option<Option<Holding>>)
    ensures
        match read_suit(s@) {
            Some(Some(v)) => r matches Some(Some(h)) && holding_view(h) == v,
            Some(None) => r == Some(None::<Holding>),
            None => r is None,
        },
{
    let mut h = Holding::new();
    let mut i: usize = 0;
    assert(s@.take(0) =~= Seq::<char>::empty());
    while i < s.len()
        invariant
            i <= s@.len(),
            read_suit(s@.take(i as int)) == Some(Some(holding_view(h))),
        decreases s.len() - i,
    {
        assert(s@.take(i + 1).drop_last() =~= s@.take(i as int));
        assert(s@.take(i + 1).last() == s@[i as int]);
        let c = s[i];
        if c == 'x' || c == 'X' {
            if h.unknown == 255 {
                proof {
                    lemma_read_suit_stuck(s@, i + 1);
                }
                return None;
            }
            h.unknown = h.unknown + 1;
        } else {
            match Rank::from_char(c) {
                Some(k) => {
                    h.add(k);
                },
                None => {
                    proof {
                        lemma_read_suit_stuck(s@, i + 1);
                    }
                    return Some(None);
                },
            }
        }
        i += 1;
    }
    assert(s@.take(i as int) =~= s@);
    Some(Some(h))
}

fn read_hand_of(t: &[char]) -> (r: Option<Option<Hand>>)
    ensures
        match read_hand(t@) {
            Some(Some(v)) => r matches Some(Some(h)) && hand_view(h) == v,
            Some(None) => r == Some(None::<Hand>),
            None => r is None,
        },
{
    let suits = split_on(t, '.');
    let ghost ss = suits@.map_values(|v: Vec<char>| v@);
    if suits.len() != 4 {
        return Some(None);
    }
    reveal_with_fuel(read_suits, 5);
    assert(ss.drop_last().drop_last().drop_last().drop_last() =~= Seq::<Seq<char>>::empty());
    assert(ss.drop_last().drop_last().drop_last().last() == suits@[0]@);
    assert(ss.drop_last().drop_last().last() == suits@[1]@);
    assert(ss.drop_last().last() == suits@[2]@);
    assert(ss.last() == suits@[3]@);
    let spades = match read_suit_of(&suits[0]) {
        Some(Some(h)) => h,
        Some(None) => {
            return Some(None);
        },
        None => {
            return None;
        },
    };
    let hearts = match read_suit_of(&suits[1]) {
        Some(Some(h)) => h,
        Some(None) => {
            return Some(None);
        },
        None => {
            return None;
        },
    };
    let diamonds = match read_suit_of(&suits[2]) {
        Some(Some(h)) => h,
        Some(None) => {
            return Some(None);
        },
        None => {
            return None;
        },
    };
    let clubs = match read_suit_of(&suits[3]) {
        Some(Some(h)) => h,
        Some(None) => {
            return Some(None);
        },
        None => {
            return None;
        },
    };
    let hand = Hand::from_holdings(spades, hearts, diamonds, clubs);
    assert(hand_view(hand) =~= seq![
        holding_view(spades),
        holding_view(hearts),
        holding_view(diamonds),
        holding_view(clubs),
    ]);
    Some(Some(hand))
}

fn void_hand_of() -> (h: Hand)
    ensures
        hand_view(h) == void_hand(),
{
    let h = Hand::new();
    assert(h.spades.ranks@ =~= Seq::<Rank>::empty() && h.hearts.ranks@ =~= Seq::<Rank>::empty());
    assert(h.diamonds.ranks@ =~= Seq::<Rank>::empty() && h.clubs.ranks@ =~= Seq::<Rank>::empty());
    assert(hand_view(h) =~= void_hand());
    h
}

fn seat_at(first: Direction, i: usize) -> (d: Direction)
    requires
        i < 4,
    ensures
        d == seat_at_index(seat_index(first) + i),
{
    let mut d = first;
    let mut j: usize = 0;
    while j < i
        invariant
            j <= i < 4,
            d == seat_at_index(seat_index(first) + j),
        decreases i - j,
    {
        d = d.next();
        j += 1;
    }
    d
}

fn leave_out(h: &mut HiddenHands, seat: Direction)
    ensures
        hidden_view(*final(h)) == hidden_view(*old(h)).update(seat_index(seat), true),
{
    match seat {
        Direction::North => h.north = true,
        Direction::East => h.east = true,
        Direction::South => h.south = true,
        Direction::West => h.west = true,
    }
    assert(hidden_view(*h) =~= hidden_view(*old(h)).update(seat_index(seat), true));
}

fn read_deal_for_display(text: &str) -> (r: Option<Option<(Deal, HiddenHands)>>)
    ensures
        match read_display_deal(text@) {
            Some(Some((dv, hv))) => r matches Some(Some((d, h))) && deal_view(d) == dv && hidden_view(h) == hv,
            Some(None) => r == Some(None::<(Deal, HiddenHands)>),
            None => r is None,
        },
{
    let t = trim_chars(&chars_of(text));
    let colon = [':'];
    assert(colon@ =~= seq![':']);
    assert(t@.skip(0) =~= t@);
    proof {
        crate::text::lemma_find_bounds(t@, colon@);
    }
    let k = match find_at(&t, 0, &colon) {
        Some(k) => k,
        None => {
            return Some(None);
        },
    };
    let f = trim_chars(&slice_of(&t, 0, k));
    assert(t@.take(k as int) =~= t@.subrange(0, k as int));
    if f.len() == 0 {
        return Some(None);
    }
    let first = match Direction::from_char(f[0]) {
        Some(d) => d,
        None => {
            return Some(None);
        },
    };
    let rest = slice_of(&t, k + 1, t.len());
    assert(rest@ =~= t@.skip(k + 1));
    let hands = split_ws(&rest);
    let ghost hs = hands@.map_values(|v: Vec<char>| v@);
    if hands.len() != 4 {
        return Some(None);
    }
    let mut deal = Deal { north: void_hand_of(), east: void_hand_of(), south: void_hand_of(), west: void_hand_of() };
    let mut hidden = HiddenHands { north: false, east: false, south: false, west: false };
    assert(deal_view(deal) =~= seq![void_hand(), void_hand(), void_hand(), void_hand()]);
    assert(hidden_view(hidden) =~= seq![false, false, false, false]);
    assert(hs.take(0) =~= Seq::<Seq<char>>::empty());
    let mut i: usize = 0;
    while i < 4
        invariant
            i <= 4,
            hands@.len() == 4,
            hs == hands@.map_values(|v: Vec<char>| v@),
            read_display_deal(text@) == read_hands(hs, first),
            read_hands(hs.take(i as int), first) == Some(Some((deal_view(deal), hidden_view(hidden)))),
        decreases 4 - i,
    {
        let h = &hands[i];
        let seat = seat_at(first, i);
        assert(hs.take(i + 1).drop_last() =~= hs.take(i as int));
        assert(hs.take(i + 1).last() == h@);
        let n = h.len();
        let dots = n == 3 && h[0] == '.' && h[1] == '.' && h[2] == '.';
        let dash = n == 1 && h[0] == '-';
        assert(dots == (h@ == seq!['.', '.', '.'])) by {
            if n == 3 {
                assert(h@ =~= seq![h@[0], h@[1], h@[2]]);
            }
        }
        assert(dash == (h@ == seq!['-'])) by {
            if n == 1 {
                assert(h@ =~= seq![h@[0]]);
            }
        }
        if dots || dash {
            leave_out(&mut hidden, seat);
        } else {
            match read_hand_of(h) {
                Some(Some(hand)) => {
                    let ghost before = deal_view(deal);
                    deal.set_hand(seat, hand);
                    assert(deal_view(deal) =~= before.update(seat_index(seat), hand_view(hand)));
                },
                Some(None) => {
                    proof {
                        lemma_read_hands_stuck(hs, first, i + 1);
                    }
                    return Some(None);
                },
                None => {
                    proof {
                        lemma_read_hands_stuck(hs, first, i + 1);
                    }
                    return None;
                },
            }
        }
        i += 1;
    }
    assert(hs.take(4) =~= hs);
    Some(Some((deal, hidden)))
}

/// Whether [`display_deal`] can read `text`: it cannot where a suit has
/// more unknown spots than a count can hold.
pub fn deal_spots_fit(text: &str) -> (b: bool)
    ensures
        b == (read_display_deal(text@) is Some),
{
    read_deal_for_display(text).is_some()
}

/// A `[Deal]` the reader could not parse, read for display only (see
/// [`read_display_deal`]): `x` is a spot card whose rank the file does not
/// give, and a hand written `...` or `-` is one the diagram leaves out, which
/// comes back as hidden. `None` when the text is not a deal at all.
pub fn display_deal(text: &str) -> (r: Option<(Deal, HiddenHands)>)
    requires
        read_display_deal(text@) is Some,
    ensures
        match read_display_deal(text@) {
            Some(Some((dv, hv))) => r matches Some((d, h)) && deal_view(d) == dv && hidden_view(h) == hv,
            _ => r is None,
        },
{
    match read_deal_for_display(text) {
        Some(r) => r,
        None => None,
    }
}


proof fn lemma_read_hands_stuck(hs: Seq<Seq<char>>, first: Direction, i: int)
    requires
        0 <= i <= hs.len(),
        !(read_hands(hs.take(i), first) matches Some(Some(_))),
    ensures
        read_hands(hs, first) == read_hands(hs.take(i), first),
    decreases hs.len() - i,
{
    if i < hs.len() {
        assert(hs.take(i + 1).drop_last() =~= hs.take(i));
        lemma_read_hands_stuck(hs, first, i + 1);
    } else {
        assert(hs.take(i) =~= hs);
    }
}

} // verus!
