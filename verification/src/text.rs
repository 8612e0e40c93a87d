//! Character-level text helpers shared by the parsers.
//!
//! Text is read as its sequence of `char`s: every search, split and trim
//! here is stated over `Seq<char>`, and the parsers built on them work on a
//! `Vec<char>` copy of their input.
use vstd::prelude::*;
use vstd::std_specs::iter::IteratorSpec;

verus! {

broadcast use vstd::string::group_string_axioms;

/// `char::is_whitespace`: the Unicode `White_Space` property.
pub open spec fn is_ws(c: char) -> bool {
    ||| ('\u{9}' <= c && c <= '\u{d}')
    ||| c == ' '
    ||| c == '\u{85}'
    ||| c == '\u{a0}'
    ||| c == '\u{1680}'
    ||| ('\u{2000}' <= c && c <= '\u{200a}')
    ||| c == '\u{2028}'
    ||| c == '\u{2029}'
    ||| c == '\u{202f}'
    ||| c == '\u{205f}'
    ||| c == '\u{3000}'
}

/// Whether `c` is Unicode whitespace.
pub fn char_is_ws(c: char) -> (r: bool)
    ensures
        r == is_ws(c),
{
    ('\u{9}' <= c && c <= '\u{d}') || c == ' ' || c == '\u{85}' || c == '\u{a0}' || c
        == '\u{1680}' || ('\u{2000}' <= c && c <= '\u{200a}') || c == '\u{2028}' || c
        == '\u{2029}' || c == '\u{202f}' || c == '\u{205f}' || c == '\u{3000}'
}

/// Every character of `s` is whitespace.
pub open spec fn all_ws(s: Seq<char>) -> bool {
    forall|i: int| 0 <= i < s.len() ==> is_ws(#[trigger] s[i])
}

/// `s` without its leading whitespace.
pub open spec fn trim_start(s: Seq<char>) -> Seq<char>
    decreases s.len(),
{
    if s.len() > 0 && is_ws(s[0]) {
        trim_start(s.drop_first())
    } else {
        s
    }
}

/// `s` without its trailing whitespace.
pub open spec fn trim_end(s: Seq<char>) -> Seq<char>
    decreases s.len(),
{
    if s.len() > 0 && is_ws(s.last()) {
        trim_end(s.drop_last())
    } else {
        s
    }
}

/// `str::trim`: `s` without leading or trailing whitespace.
pub open spec fn trim(s: Seq<char>) -> Seq<char> {
    trim_end(trim_start(s))
}

/// `s` begins with `p`.
pub open spec fn starts_with(s: Seq<char>, p: Seq<char>) -> bool {
    p.len() <= s.len() && s.take(p.len() as int) == p
}

/// `s` ends with `p`.
pub open spec fn ends_with(s: Seq<char>, p: Seq<char>) -> bool {
    p.len() <= s.len() && s.skip(s.len() - p.len()) == p
}

/// `str::find`: the index of the first occurrence of `p` in `s`.
pub open spec fn find(s: Seq<char>, p: Seq<char>) -> Option<int>
    decreases s.len(),
{
    if starts_with(s, p) {
        Some(0)
    } else if s.len() == 0 {
        None
    } else {
        match find(s.drop_first(), p) {
            Some(k) => Some(k + 1),
            None => None,
        }
    }
}

pub proof fn lemma_find_bounds(s: Seq<char>, p: Seq<char>)
    ensures
        find(s, p) matches Some(k) ==> 0 <= k && k + p.len() <= s.len() && starts_with(
            s.skip(k),
            p,
        ),
    decreases s.len(),
{
    if starts_with(s, p) {
        assert(s.skip(0) =~= s);
    } else if s.len() > 0 {
        lemma_find_bounds(s.drop_first(), p);
        if let Some(k) = find(s.drop_first(), p) {
            assert(s.drop_first().skip(k) =~= s.skip(k + 1));
        }
    }
}

/// `s` contains `p`.
pub open spec fn contains(s: Seq<char>, p: Seq<char>) -> bool {
    find(s, p) is Some
}

/// The index of the last occurrence of `c` in `s`.
pub open spec fn rfind_char(s: Seq<char>, c: char) -> Option<int>
    decreases s.len(),
{
    if s.len() == 0 {
        None
    } else if s.last() == c {
        Some(s.len() - 1)
    } else {
        rfind_char(s.drop_last(), c)
    }
}

/// `str::split` on a single character.
pub open spec fn split(s: Seq<char>, c: char) -> Seq<Seq<char>>
    decreases s.len(),
{
    match find(s, seq![c]) {
        Some(i) => {
            proof {
                lemma_find_bounds(s, seq![c]);
            }
            seq![s.take(i)] + split(s.skip(i + 1), c)
        },
        None => seq![s],
    }
}

/// `str::split` on a nonempty pattern `p`: the pieces between its
/// non-overlapping occurrences, found from the left.
pub open spec fn split_by(s: Seq<char>, p: Seq<char>) -> Seq<Seq<char>>
    decreases s.len(),
{
    if p.len() == 0 {
        seq![s]
    } else {
        match find(s, p) {
            Some(i) => {
                proof {
                    lemma_find_bounds(s, p);
                }
                seq![s.take(i)] + split_by(s.skip(i + p.len()), p)
            },
            None => seq![s],
        }
    }
}

/// The leading run of `s` that holds no whitespace.
pub open spec fn first_word(s: Seq<char>) -> Seq<char>
    decreases s.len(),
{
    if s.len() == 0 || is_ws(s[0]) {
        seq![]
    } else {
        seq![s[0]] + first_word(s.drop_first())
    }
}

/// `str::split_whitespace`: the nonempty runs of non-whitespace in `s`.
pub open spec fn words(s: Seq<char>) -> Seq<Seq<char>>
    decreases s.len(),
{
    let t = trim_start(s);
    if t.len() == 0 {
        seq![]
    } else {
        let w = first_word(t);
        proof {
            lemma_trim_start_is_suffix(s);
            lemma_first_word_is_prefix(t);
        }
        if w.len() == 0 {
            seq![]
        } else {
            seq![w] + words(t.skip(w.len() as int))
        }
    }
}

/// ASCII lower case of one character.
pub open spec fn ascii_lower(c: char) -> char {
    if 'A' <= c && c <= 'Z' {
        ((c as u32) + 32) as char
    } else {
        c
    }
}

/// ASCII upper case of one character.
pub open spec fn ascii_upper(c: char) -> char {
    if 'a' <= c && c <= 'z' {
        ((c as u32) - 32) as char
    } else {
        c
    }
}

/// `str::to_ascii_uppercase`.
pub open spec fn upper(s: Seq<char>) -> Seq<char> {
    s.map_values(|c: char| ascii_upper(c))
}

/// `str::to_ascii_lowercase`.
pub open spec fn lower(s: Seq<char>) -> Seq<char> {
    s.map_values(|c: char| ascii_lower(c))
}

/// `s` is all ASCII.
pub open spec fn ascii(s: Seq<char>) -> bool {
    forall|i: int| 0 <= i < s.len() ==> (#[trigger] s[i] as u32) < 128
}

/// `char::is_ascii_digit`.
pub open spec fn is_digit(c: char) -> bool {
    '0' <= c && c <= '9'
}

/// `char::is_ascii_hexdigit`.
pub open spec fn is_hex_digit(c: char) -> bool {
    is_digit(c) || ('a' <= c && c <= 'f') || ('A' <= c && c <= 'F')
}

pub proof fn lemma_trim_start_is_suffix(s: Seq<char>)
    ensures
        trim_start(s).len() <= s.len(),
        trim_start(s) == s.skip(s.len() - trim_start(s).len()),
    decreases s.len(),
{
    if s.len() > 0 && is_ws(s[0]) {
        lemma_trim_start_is_suffix(s.drop_first());
        assert(s.drop_first().skip(s.drop_first().len() - trim_start(s).len()) =~= s.skip(
            s.len() - trim_start(s).len(),
        ));
    } else {
        assert(s.skip(0) =~= s);
    }
}

pub proof fn lemma_first_word_is_prefix(s: Seq<char>)
    ensures
        first_word(s).len() <= s.len(),
        first_word(s) == s.take(first_word(s).len() as int),
    decreases s.len(),
{
    if s.len() == 0 || is_ws(s[0]) {
        assert(s.take(0) =~= seq![]);
    } else {
        lemma_first_word_is_prefix(s.drop_first());
        assert(seq![s[0]] + s.drop_first().take(first_word(s.drop_first()).len() as int) =~= s.take(
            first_word(s).len() as int,
        ));
    }
}

/// The characters of `s`, in order.
pub fn chars_of(s: &str) -> (res: Vec<char>)
    ensures
        res@ == s@,
{
    let mut res: Vec<char> = Vec::new();
    for c in iter: s.chars()
        invariant
            res@ == iter.seq().take(iter.index() as int),
            iter.seq() == s@,
    {
        res.push(c);
    }
    res
}

/// A `String` holding exactly the characters `v`.
///
/// Calls `FromIterator<char>` for `String`, which its documentation describes
/// as pushing each character in order.
#[verifier::external_body]
pub fn string_of(v: &[char]) -> (res: String)
    ensures
        res@ == v@,
{
    v.iter().collect()
}

/// What `str::to_uppercase` gives for `s`.
pub uninterp spec fn upper_case(s: Seq<char>) -> Seq<char>;

/// `str::to_uppercase`: each character replaced by its Unicode upper-case
/// mapping, which may be more than one character. Its result is named rather
/// than stated, the mapping being Unicode's case table; on ASCII text that
/// table is ASCII's, which is stated.
#[verifier::external_body]
pub(crate) fn to_uppercase(s: &str) -> (res: String)
    ensures
        res@ == upper_case(s@),
        ascii(s@) ==> res@ == upper(s@),
{
    s.to_uppercase()
}

/// What `str::to_lowercase` gives for `s`.
pub uninterp spec fn lower_case(s: Seq<char>) -> Seq<char>;

/// `str::to_lowercase`: each character replaced by its Unicode lower-case
/// mapping, which may be more than one character. Its result is named rather
/// than stated, the mapping being Unicode's case table; on ASCII text that
/// table is ASCII's, which is stated.
#[verifier::external_body]
pub(crate) fn to_lowercase(s: &str) -> (res: String)
    ensures
        res@ == lower_case(s@),
        ascii(s@) ==> res@ == lower(s@),
{
    s.to_lowercase()
}

/// The characters `s[a..b]`.
pub fn slice_of(s: &[char], a: usize, b: usize) -> (res: Vec<char>)
    requires
        a <= b <= s@.len(),
    ensures
        res@ == s@.subrange(a as int, b as int),
{
    let mut res: Vec<char> = Vec::new();
    let mut i = a;
    while i < b
        invariant
            a <= i <= b <= s@.len(),
            res@ == s@.subrange(a as int, i as int),
        decreases b - i,
    {
        res.push(s[i]);
        i += 1;
        assert(res@ =~= s@.subrange(a as int, i as int));
    }
    res
}

/// `s` with `t` appended.
pub fn append(s: &mut Vec<char>, t: &[char])
    ensures
        final(s)@ == old(s)@ + t@,
{
    let ghost s0 = s@;
    let mut i: usize = 0;
    while i < t.len()
        invariant
            i <= t@.len(),
            s@ == s0 + t@.take(i as int),
        decreases t.len() - i,
    {
        s.push(t[i]);
        i += 1;
        assert(s@ =~= s0 + t@.take(i as int));
    }
    assert(t@.take(t@.len() as int) =~= t@);
}

/// `s` begins with `p` at position `at`.
pub fn starts_at(s: &[char], at: usize, p: &[char]) -> (r: bool)
    requires
        at <= s@.len(),
    ensures
        r == starts_with(s@.skip(at as int), p@),
{
    if p.len() > s.len() - at {
        return false;
    }
    let n = p.len();
    let m = s.len();
    let mut i: usize = 0;
    while i < n
        invariant
            n == p@.len(),
            m == s@.len(),
            i <= n,
            at + n <= m,
            forall|j: int| 0 <= j < i ==> s@[at + j] == p@[j],
        decreases p.len() - i,
    {
        if s[at + i] != p[i] {
            assert(s@.skip(at as int).take(p@.len() as int)[i as int] != p@[i as int]);
            return false;
        }
        i += 1;
    }
    assert(s@.skip(at as int).take(p@.len() as int) =~= p@);
    true
}

/// `s` ends with `p`.
pub fn ends_with_chars(s: &[char], p: &[char]) -> (r: bool)
    ensures
        r == ends_with(s@, p@),
{
    if p.len() > s.len() {
        return false;
    }
    let r = starts_at(s, s.len() - p.len(), p);
    assert(s@.skip(s@.len() - p@.len()).take(p@.len() as int) =~= s@.skip(s@.len() - p@.len()));
    r
}

pub proof fn lemma_find_step(s: Seq<char>, p: Seq<char>, j: int)
    requires
        0 <= j < s.len(),
        !starts_with(s.skip(j), p),
    ensures
        find(s.skip(j), p) == (match find(s.skip(j + 1), p) {
            Some(k) => Some(k + 1),
            None => None::<int>,
        }),
{
    assert(s.skip(j).drop_first() =~= s.skip(j + 1));
}

/// `str::find` on `s[at..]`: the first index, counted from `at`, where `p`
/// occurs.
pub fn find_at(s: &[char], at: usize, p: &[char]) -> (r: Option<usize>)
    requires
        at <= s@.len(),
    ensures
        match find(s@.skip(at as int), p@) {
            Some(k) => r == Some(k as usize),
            None => r is None,
        },
        r matches Some(k) ==> at + k <= s.len(),
{
    let mut j = at;
    assert(s@.skip(at as int) =~= s@.skip(j as int));
    while j < s.len()
        invariant
            at <= j <= s@.len(),
            find(s@.skip(at as int), p@) == (match find(s@.skip(j as int), p@) {
                Some(k) => Some(k + (j - at)),
                None => None::<int>,
            }),
        decreases s@.len() - j,
    {
        if starts_at(s, j, p) {
            return Some(j - at);
        }
        proof {
            lemma_find_step(s@, p@, j as int);
        }
        j += 1;
    }
    if starts_at(s, j, p) {
        return Some(j - at);
    }
    assert(s@.skip(j as int).len() == 0);
    None
}

/// Whether `s` holds `p` anywhere.
pub fn contains_chars(s: &[char], p: &[char]) -> (r: bool)
    ensures
        r == contains(s@, p@),
{
    assert(s@.skip(0) =~= s@);
    find_at(s, 0, p).is_some()
}

/// The position of the last `c` in `s`.
pub fn rfind(s: &[char], c: char) -> (r: Option<usize>)
    ensures
        match rfind_char(s@, c) {
            Some(k) => r == Some(k as usize),
            None => r is None,
        },
{
    let mut j = s.len();
    assert(s@.take(j as int) =~= s@);
    while j > 0
        invariant
            j <= s@.len(),
            rfind_char(s@, c) == rfind_char(s@.take(j as int), c),
        decreases j,
    {
        assert(s@.take(j as int).drop_last() =~= s@.take(j - 1));
        if s[j - 1] == c {
            return Some(j - 1);
        }
        j -= 1;
    }
    None
}

/// `str::trim_start` on `s`.
pub fn trim_start_chars(s: &[char]) -> (res: Vec<char>)
    ensures
        res@ == trim_start(s@),
{
    let mut i: usize = 0;
    assert(s@.skip(0) =~= s@);
    while i < s.len() && char_is_ws(s[i])
        invariant
            i <= s@.len(),
            trim_start(s@) == trim_start(s@.skip(i as int)),
        decreases s.len() - i,
    {
        assert(s@.skip(i as int).drop_first() =~= s@.skip(i + 1));
        i += 1;
    }
    assert(s@.skip(i as int) =~= s@.subrange(i as int, s@.len() as int));
    slice_of(s, i, s.len())
}

/// `str::trim_end` on `s`.
pub fn trim_end_chars(s: &[char]) -> (res: Vec<char>)
    ensures
        res@ == trim_end(s@),
{
    let mut j: usize = s.len();
    assert(s@.take(j as int) =~= s@);
    while j > 0 && char_is_ws(s[j - 1])
        invariant
            j <= s@.len(),
            trim_end(s@) == trim_end(s@.take(j as int)),
        decreases j,
    {
        assert(s@.take(j as int).drop_last() =~= s@.take(j - 1));
        j -= 1;
    }
    assert(s@.take(j as int) =~= s@.subrange(0, j as int));
    slice_of(s, 0, j)
}

/// `str::trim` on `s`.
pub fn trim_chars(s: &[char]) -> (res: Vec<char>)
    ensures
        res@ == trim(s@),
{
    let t = trim_start_chars(s);
    trim_end_chars(&t)
}

pub proof fn lemma_trim_start_all_ws(s: Seq<char>)
    ensures
        (trim_start(s).len() == 0) == all_ws(s),
    decreases s.len(),
{
    if s.len() > 0 && is_ws(s[0]) {
        lemma_trim_start_all_ws(s.drop_first());
        if all_ws(s.drop_first()) {
            assert forall|i: int| 0 <= i < s.len() implies is_ws(#[trigger] s[i]) by {
                if i > 0 {
                    assert(s[i] == s.drop_first()[i - 1]);
                }
            }
        }
        if all_ws(s) {
            assert forall|i: int| 0 <= i < s.drop_first().len() implies is_ws(
                #[trigger] s.drop_first()[i],
            ) by {
                assert(s.drop_first()[i] == s[i + 1]);
            }
        }
    } else if s.len() > 0 {
        assert(!is_ws(s[0]));
    }
}

pub proof fn lemma_trim_empty_all_ws(s: Seq<char>)
    ensures
        (trim(s).len() == 0) == all_ws(s),
{
    lemma_trim_start_all_ws(s);
    lemma_trim_start_head(s);
    let t = trim_start(s);
    if t.len() > 0 {
        // the first character of t is not whitespace, so trim_end keeps it
        lemma_trim_end_keeps_non_ws_first(t);
    }
}

proof fn lemma_trim_start_head(s: Seq<char>)
    ensures
        trim_start(s).len() > 0 ==> !is_ws(trim_start(s)[0]),
    decreases s.len(),
{
    if s.len() > 0 && is_ws(s[0]) {
        lemma_trim_start_head(s.drop_first());
    }
}

proof fn lemma_trim_end_keeps_non_ws_first(t: Seq<char>)
    requires
        t.len() > 0,
        !is_ws(t[0]),
    ensures
        trim_end(t).len() > 0,
    decreases t.len(),
{
    if is_ws(t.last()) {
        assert(t.len() > 1);
        assert(t.drop_last()[0] == t[0]);
        lemma_trim_end_keeps_non_ws_first(t.drop_last());
    }
}

/// Every character of `s` is whitespace: `s.trim().is_empty()`.
pub fn is_blank_chars(s: &[char]) -> (r: bool)
    ensures
        r == all_ws(s@),
        r == (trim(s@).len() == 0),
{
    proof {
        lemma_trim_empty_all_ws(s@);
    }
    let mut i: usize = 0;
    while i < s.len()
        invariant
            i <= s@.len(),
            forall|j: int| 0 <= j < i ==> is_ws(#[trigger] s@[j]),
        decreases s.len() - i,
    {
        if !char_is_ws(s[i]) {
            assert(!is_ws(s@[i as int]));
            assert(!all_ws(s@));
            proof {
                lemma_trim_empty_all_ws(s@);
            }
            assert(trim(s@).len() != 0);
            return false;
        }
        i += 1;
    }
    true
}

/// `str::to_ascii_lowercase`.
pub fn to_lower(s: &[char]) -> (res: Vec<char>)
    ensures
        res@ == lower(s@),
{
    let mut res: Vec<char> = Vec::new();
    let mut i: usize = 0;
    while i < s.len()
        invariant
            i <= s@.len(),
            res@ == lower(s@.take(i as int)),
        decreases s.len() - i,
    {
        let c = s[i];
        let l = if 'A' <= c && c <= 'Z' {
            char_from_ascii((c as u8) + 32)
        } else {
            c
        };
        res.push(l);
        i += 1;
        assert(res@ =~= lower(s@.take(i as int)));
    }
    assert(s@.take(s@.len() as int) =~= s@);
    res
}

/// The character with ASCII code `b`.
pub fn char_from_ascii(b: u8) -> (c: char)
    requires
        b < 128,
    ensures
        c as u32 == b as u32,
{
    b as char
}

/// `str::split` on a single character.
pub fn split_on(s: &[char], c: char) -> (res: Vec<Vec<char>>)
    ensures
        res@.map_values(|v: Vec<char>| v@) == split(s@, c),
{
    let mut res: Vec<Vec<char>> = Vec::new();
    let mut start: usize = 0;
    let sep = [c];
    assert(sep@ =~= seq![c]);
    assert(s@.skip(0) =~= s@);
    assert(res@.map_values(|v: Vec<char>| v@) =~= seq![]);
    loop
        invariant
            start <= s@.len(),
            sep@ == seq![c],
            split(s@, c) == res@.map_values(|v: Vec<char>| v@) + split(s@.skip(start as int), c),
        decreases s@.len() - start,
    {
        match find_at(s, start, &sep) {
            Some(k) => {
                proof {
                    lemma_find_bounds(s@.skip(start as int), seq![c]);
                }
                let piece = slice_of(s, start, start + k);
                proof {
                    assert(piece@ =~= s@.skip(start as int).take(k as int));
                    assert(s@.skip(start as int).skip(k + 1) =~= s@.skip(start + k + 1));
                }
                let ghost old_res = res@;
                res.push(piece);
                assert(res@.map_values(|v: Vec<char>| v@) =~= old_res.map_values(
                    |v: Vec<char>| v@,
                ) + seq![piece@]);
                start = start + k + 1;
            },
            None => {
                let piece = slice_of(s, start, s.len());
                assert(piece@ =~= s@.skip(start as int));
                let ghost old_res = res@;
                res.push(piece);
                assert(res@.map_values(|v: Vec<char>| v@) =~= old_res.map_values(
                    |v: Vec<char>| v@,
                ) + seq![piece@]);
                return res;
            },
        }
    }
}

/// `str::split_whitespace`.
pub fn split_ws(s: &[char]) -> (res: Vec<Vec<char>>)
    ensures
        res@.map_values(|v: Vec<char>| v@) == words(s@),
{
    let mut res: Vec<Vec<char>> = Vec::new();
    let mut i: usize = 0;
    assert(s@.skip(0) =~= s@);
    assert(res@.map_values(|v: Vec<char>| v@) =~= seq![]);
    loop
        invariant
            i <= s@.len(),
            words(s@) == res@.map_values(|v: Vec<char>| v@) + words(s@.skip(i as int)),
        decreases s@.len() - i,
    {
        let ghost rest = s@.skip(i as int);
        let mut j = i;
        while j < s.len() && char_is_ws(s[j])
            invariant
                i <= j <= s@.len(),
                trim_start(rest) == trim_start(s@.skip(j as int)),
            decreases s.len() - j,
        {
            assert(s@.skip(j as int).drop_first() =~= s@.skip(j + 1));
            j += 1;
        }
        assert(trim_start(s@.skip(j as int)) == s@.skip(j as int));
        if j == s.len() {
            assert(words(rest) =~= seq![]);
            assert(res@.map_values(|v: Vec<char>| v@) + seq![] =~= res@.map_values(
                |v: Vec<char>| v@,
            ));
            return res;
        }
        let mut k = j;
        while k < s.len() && !char_is_ws(s[k])
            invariant
                j <= k <= s@.len(),
                first_word(s@.skip(j as int)) == s@.subrange(j as int, k as int) + first_word(
                    s@.skip(k as int),
                ),
            decreases s.len() - k,
        {
            assert(s@.skip(k as int).drop_first() =~= s@.skip(k + 1));
            assert(s@.subrange(j as int, k as int) + seq![s@[k as int]] =~= s@.subrange(
                j as int,
                k + 1,
            ));
            k += 1;
        }
        assert(first_word(s@.skip(k as int)) =~= seq![]);
        let w = slice_of(s, j, k);
        proof {
            lemma_trim_start_is_suffix(rest);
            assert(w@ =~= first_word(s@.skip(j as int)));
            assert(s@.skip(j as int).skip(w@.len() as int) =~= s@.skip(k as int));
        }
        let ghost old_res = res@;
        res.push(w);
        assert(res@.map_values(|v: Vec<char>| v@) =~= old_res.map_values(|v: Vec<char>| v@)
            + seq![w@]);
        i = k;
    }
}

/// `str::split` on a nonempty pattern.
pub fn split_by_chars(s: &[char], p: &[char]) -> (res: Vec<Vec<char>>)
    requires
        p@.len() > 0,
    ensures
        res@.map_values(|v: Vec<char>| v@) == split_by(s@, p@),
{
    let mut res: Vec<Vec<char>> = Vec::new();
    let mut start: usize = 0;
    assert(s@.skip(0) =~= s@);
    assert(res@.map_values(|v: Vec<char>| v@) =~= seq![]);
    loop
        invariant
            start <= s@.len(),
            p@.len() > 0,
            split_by(s@, p@) == res@.map_values(|v: Vec<char>| v@) + split_by(s@.skip(start as int), p@),
        decreases s@.len() - start,
    {
        proof {
            lemma_find_bounds(s@.skip(start as int), p@);
        }
        match find_at(s, start, p) {
            Some(k) => {
                let piece = slice_of(s, start, start + k);
                proof {
                    assert(piece@ =~= s@.skip(start as int).take(k as int));
                    assert(s@.skip(start as int).skip(k + p@.len()) =~= s@.skip(start + k + p@.len()));
                }
                let ghost old_res = res@;
                res.push(piece);
                assert(res@.map_values(|v: Vec<char>| v@) =~= old_res.map_values(
                    |v: Vec<char>| v@,
                ) + seq![piece@]);
                start = start + k + p.len();
            },
            None => {
                let piece = slice_of(s, start, s.len());
                assert(piece@ =~= s@.skip(start as int));
                let ghost old_res = res@;
                res.push(piece);
                assert(res@.map_values(|v: Vec<char>| v@) =~= old_res.map_values(
                    |v: Vec<char>| v@,
                ) + seq![piece@]);
                return res;
            },
        }
    }
}

} // verus!
