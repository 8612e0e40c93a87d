//! The `[Auction]` section: calls separated by whitespace, with their notes.
use vstd::prelude::*;

use crate::model::auction::{annotated_view, calls_view, call_of, AnnotatedCall, Auction, Call};
use crate::model::card::Direction;
use crate::num::{decimal, parse_unsigned, parse_unsigned_spec, u8_decimal};
use crate::text::{chars_of, find, find_at, lower, slice_of, split_ws, string_of, to_lower, words};

verus! {

/// The number a note reference `=N=` gives: `N` read as a `u8`.
pub open spec fn note_reference(t: Seq<char>) -> Option<int> {
    if t.len() >= 3 && t[0] == '=' && t.last() == '=' {
        parse_unsigned_spec(t.subrange(1, t.len() - 1), 10, 255)
    } else {
        None
    }
}

/// A note reference `=N=` ending a call token: where it begins and the text of
/// `N`, as written.
pub open spec fn inline_note(t: Seq<char>) -> Option<(int, Seq<char>)> {
    match find(t, seq!['=']) {
        Some(e) => {
            let rest = t.skip(e);
            if rest.len() >= 3 && rest.last() == '=' && parse_unsigned_spec(
                rest.subrange(1, rest.len() - 1),
                10,
                255,
            ) is Some {
                Some((e, rest.subrange(1, rest.len() - 1)))
            } else {
                None
            }
        },
        None => None,
    }
}

/// A call token split into the call and the annotation the page shows: a
/// trailing note reference gives its number, a trailing `!` or `?` itself;
/// a `$N` marker and what follows it are dropped.
pub open spec fn split_annotation(t: Seq<char>) -> (Seq<char>, Option<Seq<char>>) {
    match inline_note(t) {
        Some((e, n)) => (t.take(e), Some(n)),
        None => {
            if t.len() > 0 && (t.last() == '!' || t.last() == '?') {
                (t.drop_last(), Some(seq![t.last()]))
            } else {
                match find(t, seq!['$']) {
                    Some(d) => (t.take(d), None),
                    None => (t, None),
                }
            }
        },
    }
}

/// The mark a standalone NAG token stands for: `$1` `!`, `$2` `?`, `$3` `!!`,
/// `$4` `??`; nothing for any other.
pub open spec fn nag_text(t: Seq<char>) -> Seq<char> {
    if t == seq!['$', '1'] {
        seq!['!']
    } else if t == seq!['$', '2'] {
        seq!['?']
    } else if t == seq!['$', '3'] {
        seq!['!', '!']
    } else if t == seq!['$', '4'] {
        seq!['?', '?']
    } else {
        seq![]
    }
}

/// `calls` with the last one's annotation replaced by `a`; unchanged when
/// there is no call.
pub open spec fn annotate_last(calls: Seq<(Call, Option<Seq<char>>)>, a: Seq<char>) -> Seq<
    (Call, Option<Seq<char>>),
> {
    if calls.len() == 0 {
        calls
    } else {
        calls.update(calls.len() - 1, (calls.last().0, Some(a)))
    }
}

/// Three passes, as `AP` (all pass) ends an auction.
pub open spec fn three_passes() -> Seq<(Call, Option<Seq<char>>)> {
    seq![(Call::Pass, None), (Call::Pass, None), (Call::Pass, None)]
}

/// Reading one token: the calls so far and whether the auction has ended.
pub open spec fn auction_step(st: (Seq<(Call, Option<Seq<char>>)>, bool), t: Seq<char>) -> (
    Seq<(Call, Option<Seq<char>>)>,
    bool,
) {
    let calls = st.0;
    if st.1 {
        st
    } else if lower(t) == seq!['a', 'p'] {
        (calls + three_passes(), true)
    } else if t == seq!['*'] {
        (calls, true)
    } else if t.len() > 0 && t[0] == '=' && t.last() == '=' {
        match note_reference(t) {
            Some(n) => (annotate_last(calls, decimal(n as nat)), false),
            None => st,
        }
    } else {
        let (clean, ann) = split_annotation(t);
        match call_of(clean) {
            Some(c) => (calls.push((c, ann)), false),
            None => {
                if clean.len() == 0 && t.len() > 0 && t[0] == '$' && nag_text(t).len() > 0 {
                    (annotate_last(calls, nag_text(t)), false)
                } else {
                    st
                }
            },
        }
    }
}

/// Reading the tokens `ts` in order from an empty auction.
pub open spec fn auction_fold(ts: Seq<Seq<char>>) -> (Seq<(Call, Option<Seq<char>>)>, bool)
    decreases ts.len(),
{
    if ts.len() == 0 {
        (seq![], false)
    } else {
        auction_step(auction_fold(ts.drop_last()), ts.last())
    }
}

/// An auction passed out: its first four calls are passes.
pub open spec fn passed_out(calls: Seq<(Call, Option<Seq<char>>)>) -> bool {
    &&& calls.len() >= 4
    &&& calls[0].0 is Pass
    &&& calls[1].0 is Pass
    &&& calls[2].0 is Pass
    &&& calls[3].0 is Pass
}

/// The calls, with their annotations, that the auction text `input` holds.
pub open spec fn auction_calls(input: Seq<char>) -> Seq<(Call, Option<Seq<char>>)> {
    auction_fold(words(input)).0
}

fn note_number(t: &[char]) -> (r: Option<u8>)
    ensures
        r matches Some(v) ==> note_reference(t@) == Some(v as int),
        r is None ==> note_reference(t@) is None,
{
    let n = t.len();
    if n >= 3 && t[0] == '=' && t[n - 1] == '=' {
        let inner = slice_of(t, 1, n - 1);
        match parse_unsigned(&inner, 10, 255) {
            Some(v) => Some(v as u8),
            None => None,
        }
    } else {
        None
    }
}

/// The note number of a note reference like `=1=`.
pub fn parse_note_reference(token: &str) -> (r: Option<u8>)
    ensures
        r matches Some(v) ==> note_reference(token@) == Some(v as int),
        r is None ==> note_reference(token@) is None,
{
    let t = chars_of(token);
    note_number(&t)
}

fn inline_note_of(t: &[char]) -> (r: Option<(usize, Vec<char>)>)
    ensures
        match inline_note(t@) {
            Some((e, n)) => r matches Some((e2, n2)) && e2 == e && n2@ == n,
            None => r is None,
        },
        r matches Some((e, n)) ==> e <= t@.len(),
{
    let eq = ['='];
    assert(eq@ =~= seq!['=']);
    assert(t@.skip(0) =~= t@);
    proof {
        crate::text::lemma_find_bounds(t@, eq@);
    }
    match find_at(t, 0, &eq) {
        Some(e) => {
            let rest = slice_of(t, e, t.len());
            assert(rest@ =~= t@.skip(e as int));
            let m = rest.len();
            if m >= 3 && rest[m - 1] == '=' {
                let num = slice_of(&rest, 1, m - 1);
                if parse_unsigned(&num, 10, 255).is_some() {
                    return Some((e, num));
                }
            }
            None
        },
        None => None,
    }
}

fn split_annotation_of(t: &[char]) -> (r: (Vec<char>, Option<Vec<char>>))
    ensures
        (r.0@, match r.1 {
            Some(v) => Some(v@),
            None => None,
        }) == split_annotation(t@),
{
    match inline_note_of(t) {
        Some((e, n)) => {
            return (slice_of(t, 0, e), Some(n));
        },
        None => {},
    }
    let len = t.len();
    if len > 0 && (t[len - 1] == '!' || t[len - 1] == '?') {
        let mark = vec![t[len - 1]];
        assert(mark@ =~= seq![t@.last()]);
        return (slice_of(t, 0, len - 1), Some(mark));
    }
    let dollar = ['$'];
    assert(dollar@ =~= seq!['$']);
    assert(t@.skip(0) =~= t@);
    proof {
        crate::text::lemma_find_bounds(t@, dollar@);
    }
    match find_at(t, 0, &dollar) {
        Some(d) => (slice_of(t, 0, d), None),
        None => {
            let all = slice_of(t, 0, len);
            assert(all@ =~= t@);
            (all, None)
        },
    }
}

/// A call token split into the call and its annotation (see
/// [`split_annotation`]).
pub fn extract_annotation(token: &str) -> (r: (String, Option<String>))
    ensures
        (r.0@, match r.1 {
            Some(s) => Some(s@),
            None => None,
        }) == split_annotation(token@),
{
    let t = chars_of(token);
    let (clean, ann) = split_annotation_of(&t);
    let a = match ann {
        Some(v) => Some(string_of(&v)),
        None => None,
    };
    (string_of(&clean), a)
}

/// The mark a standalone NAG token stands for (see [`nag_text`]).
pub fn nag_chars(t: &[char]) -> (r: Vec<char>)
    ensures
        r@ == nag_text(t@),
{
    let mut r: Vec<char> = Vec::new();
    if t.len() == 2 && t[0] == '$' {
        if t[1] == '1' {
            r.push('!');
        } else if t[1] == '2' {
            r.push('?');
        } else if t[1] == '3' {
            r.push('!');
            r.push('!');
        } else if t[1] == '4' {
            r.push('?');
            r.push('?');
        }
    }
    assert(t@.len() == 2 ==> t@ =~= seq![t@[0], t@[1]]);
    assert(r@ =~= nag_text(t@));
    r
}

fn annotate_last_call(calls: &mut Vec<AnnotatedCall>, a: &[char])
    ensures
        calls_view(final(calls)@) == annotate_last(calls_view(old(calls)@), a@),
{
    let n = calls.len();
    if n > 0 {
        let c = calls[n - 1].call;
        let ghost before = calls@;
        calls.set(n - 1, AnnotatedCall { call: c, annotation: Some(string_of(a)) });
        assert(calls_view(calls@) =~= annotate_last(calls_view(before), a@));
    } else {
        assert(calls_view(calls@) =~= annotate_last(calls_view(calls@), a@));
    }
}

fn is_ap(t: &[char]) -> (b: bool)
    ensures
        b == (lower(t@) == seq!['a', 'p']),
{
    let l = to_lower(t);
    let ap = ['a', 'p'];
    assert(ap@ =~= seq!['a', 'p']);
    crate::num::same(&l, &ap)
}

/// Read the calls of an auction that `dealer` opens. `AP` adds the three
/// passes that end it and `*` ends it where it stands; `=N=` and `$N` tokens
/// annotate the call before them; tokens that are no call are skipped. The
/// auction is passed out when its first four calls are passes.
pub fn parse_auction(dealer: Direction, input: &str) -> (r: Result<Auction, String>)
    ensures
        r matches Ok(a) && a.dealer == dealer && calls_view(a.calls@) == auction_calls(input@)
            && a.is_passed_out == passed_out(auction_calls(input@)) && a.notes@.len() == 0,
{
    let mut auction = Auction::new(dealer);
    let s = chars_of(input);
    let tokens = split_ws(&s);
    let ghost ts = tokens@.map_values(|v: Vec<char>| v@);
    assert(calls_view(auction.calls@) =~= seq![]);
    let mut i: usize = 0;
    let mut done = false;
    while i < tokens.len() && !done
        invariant
            i <= tokens@.len(),
            ts == tokens@.map_values(|v: Vec<char>| v@),
            ts == words(input@),
            auction.dealer == dealer,
            !auction.is_passed_out,
            auction.notes@.len() == 0,
            auction_fold(ts.take(i as int)) == (calls_view(auction.calls@), done),
        decreases tokens.len() - i,
    {
        let t = &tokens[i];
        let ghost st = auction_fold(ts.take(i as int));
        assert(ts.take(i + 1).drop_last() =~= ts.take(i as int));
        assert(ts.take(i + 1).last() == t@);
        i += 1;
        if is_ap(t) {
            auction.add_call(Call::Pass);
            auction.add_call(Call::Pass);
            auction.add_call(Call::Pass);
            assert(calls_view(auction.calls@) =~= st.0 + three_passes());
            done = true;
            continue;
        }
        let n = t.len();
        if n == 1 && t[0] == '*' {
            assert(t@ =~= seq!['*']);
            done = true;
            continue;
        }
        if n > 0 && t[0] == '=' && t[n - 1] == '=' {
            match note_number(t) {
                Some(v) => {
                    let d = u8_decimal(v);
                    annotate_last_call(&mut auction.calls, &d);
                },
                None => {},
            }
            continue;
        }
        let (clean, ann) = split_annotation_of(t);
        match Call::from_chars(&clean) {
            Some(c) => {
                let a = match ann {
                    Some(v) => Some(string_of(&v)),
                    None => None,
                };
                let ghost av = AnnotatedCall { call: c, annotation: a };
                auction.add_annotated_call(c, a);
                assert(annotated_view(av) == (c, split_annotation(t@).1));
            },
            None => {
                if clean.len() == 0 && n > 0 && t[0] == '$' {
                    let nag = nag_chars(t);
                    if nag.len() > 0 {
                        annotate_last_call(&mut auction.calls, &nag);
                    }
                }
            },
        }
    }
    proof {
        lemma_fold_stays_done(ts, i as int);
    }
    let calls_n = auction.calls.len();
    if calls_n >= 4 && matches!(auction.calls[0].call, Call::Pass) && matches!(
        auction.calls[1].call,
        Call::Pass
    ) && matches!(auction.calls[2].call, Call::Pass) && matches!(auction.calls[3].call, Call::Pass) {
        auction.is_passed_out = true;
    }
    Ok(auction)
}

/// Once an auction has ended, later tokens change nothing.
proof fn lemma_fold_stays_done(ts: Seq<Seq<char>>, i: int)
    requires
        0 <= i <= ts.len(),
        auction_fold(ts.take(i)).1 || i == ts.len(),
    ensures
        auction_fold(ts) == auction_fold(ts.take(i)),
    decreases ts.len() - i,
{
    if i < ts.len() {
        assert(ts.take(i + 1).drop_last() =~= ts.take(i));
        lemma_fold_stays_done(ts, i + 1);
    } else {
        assert(ts.take(i) =~= ts);
    }
}

} // verus!
