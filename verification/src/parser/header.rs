//! The `%` header lines of a PBN file: Bridge Composer's page setup, fonts,
//! colors and titles.
use vstd::prelude::*;

use crate::model::metadata::{
    empty_meta, ColorSettings, FontSpec, FontV, MarginsText, MetaV, PaperSpec, PaperV, PbnMetadata,
};
use crate::num::{parse_unsigned, parse_unsigned_spec};
use crate::text::{
    ascii, chars_of, find, find_at, lemma_find_bounds, lower, slice_of, split, split_on, split_ws,
    starts_at, starts_with, string_of, to_lower, trim, trim_chars, words,
};

verus! {

broadcast use vstd::string::group_string_axioms;

/// Whether `s` is the text of a number, as the renderer reads one.
pub open spec fn f32_text(s: Seq<char>) -> bool {
    crate::num::float_literal(s)
}

fn f32_chars(s: &[char]) -> (b: bool)
    ensures
        b == f32_text(s@),
{
    crate::num::is_float_literal(s)
}

/// Options parsed from a `%BCOptions` line.
#[derive(Debug, Clone, Default)]
pub struct BCOptions {
    pub justify: bool,
    pub show_hcp: bool,
    pub float: bool,
    pub center: bool,
    pub two_col_auctions: bool,
}

/// Parsed BoardsPerPage directive.
#[derive(Debug, Clone, Copy)]
pub struct BoardsPerPageConfig {
    pub count: u8,
    pub fit: bool,
}

/// One header line's meaning.
#[derive(Debug, Clone)]
pub enum HeaderDirective {
    Version(String),
    Creator(String),
    Created(String),
    BoardsPerPage(BoardsPerPageConfig),
    Margins(MarginsText),
    PaperSize(PaperSpec),
    Font(String, FontSpec),
    PipColors(ColorSettings),
    TitleEvent(String),
    TitleDate(String),
    ShowHcp(bool),
    ShowCardTable(bool),
    ShowBoardLabels(bool),
    BCOptions(BCOptions),
    /// Board label format from %Translate "Board %" "%)"
    BoardLabelFormat(String),
    Unknown(String),
}

/// What a [`HeaderDirective`] holds, its text as characters.
pub enum DirectiveV {
    Version(Seq<char>),
    Creator(Seq<char>),
    Created(Seq<char>),
    BoardsPerPage(u8, bool),
    Margins(Seq<char>, Seq<char>, Seq<char>, Seq<char>),
    PaperSize(PaperV),
    Font(Seq<char>, FontV),
    PipColors((u8, u8, u8), (u8, u8, u8), (u8, u8, u8), (u8, u8, u8)),
    TitleEvent(Seq<char>),
    TitleDate(Seq<char>),
    ShowHcp(bool),
    ShowCardTable(bool),
    ShowBoardLabels(bool),
    BCOptions(bool, bool, bool, bool, bool),
    BoardLabelFormat(Seq<char>),
    Unknown(Seq<char>),
}

impl View for HeaderDirective {
    type V = DirectiveV;

    open spec fn view(&self) -> DirectiveV {
        match self {
            HeaderDirective::Version(s) => DirectiveV::Version(s@),
            HeaderDirective::Creator(s) => DirectiveV::Creator(s@),
            HeaderDirective::Created(s) => DirectiveV::Created(s@),
            HeaderDirective::BoardsPerPage(c) => DirectiveV::BoardsPerPage(c.count, c.fit),
            HeaderDirective::Margins(m) => DirectiveV::Margins(m.top@, m.bottom@, m.right@, m.left@),
            HeaderDirective::PaperSize(p) => DirectiveV::PaperSize(p@),
            HeaderDirective::Font(n, f) => DirectiveV::Font(n@, f@),
            HeaderDirective::PipColors(c) => DirectiveV::PipColors(
                c.spades,
                c.hearts,
                c.diamonds,
                c.clubs,
            ),
            HeaderDirective::TitleEvent(s) => DirectiveV::TitleEvent(s@),
            HeaderDirective::TitleDate(s) => DirectiveV::TitleDate(s@),
            HeaderDirective::ShowHcp(b) => DirectiveV::ShowHcp(*b),
            HeaderDirective::ShowCardTable(b) => DirectiveV::ShowCardTable(*b),
            HeaderDirective::ShowBoardLabels(b) => DirectiveV::ShowBoardLabels(*b),
            HeaderDirective::BCOptions(o) => DirectiveV::BCOptions(
                o.justify,
                o.show_hcp,
                o.float,
                o.center,
                o.two_col_auctions,
            ),
            HeaderDirective::BoardLabelFormat(s) => DirectiveV::BoardLabelFormat(s@),
            HeaderDirective::Unknown(s) => DirectiveV::Unknown(s@),
        }
    }
}

/// `s` without any leading `c`.
pub open spec fn trim_start_char(s: Seq<char>, c: char) -> Seq<char>
    decreases s.len(),
{
    if s.len() > 0 && s[0] == c {
        trim_start_char(s.drop_first(), c)
    } else {
        s
    }
}

/// `s` without any trailing `c`.
pub open spec fn trim_end_char(s: Seq<char>, c: char) -> Seq<char>
    decreases s.len(),
{
    if s.len() > 0 && s.last() == c {
        trim_end_char(s.drop_last(), c)
    } else {
        s
    }
}

/// `str::trim_matches` with one character: `s` without `c` at either end.
pub open spec fn trim_matches(s: Seq<char>, c: char) -> Seq<char> {
    trim_end_char(trim_start_char(s, c), c)
}

/// `%BoardsPerPage`: `fit,N` or just `N` (the last comma-separated part).
pub open spec fn boards_per_page(value: Seq<char>) -> Option<(u8, bool)> {
    let parts = split(value, ',');
    let fit = parts.len() >= 2 && lower(trim(parts[0])) == "fit"@;
    let num = if fit {
        parts[1]
    } else {
        parts.last()
    };
    match parse_unsigned_spec(trim(num), 10, 255) {
        Some(n) => Some((n as u8, fit)),
        None => None,
    }
}

/// `%Margins top,bottom,right,left`: four numbers.
pub open spec fn margins(value: Seq<char>) -> Option<(Seq<char>, Seq<char>, Seq<char>, Seq<char>)> {
    let parts = split(value, ',');
    if parts.len() != 4 {
        None
    } else if f32_text(trim(parts[0])) && f32_text(trim(parts[1])) && f32_text(trim(parts[2]))
        && f32_text(trim(parts[3])) {
        Some((trim(parts[0]), trim(parts[1]), trim(parts[2]), trim(parts[3])))
    } else {
        None
    }
}

/// `%PaperSize kind,width,height,...`: the dimensions when given, else the
/// default paper.
pub open spec fn paper(value: Seq<char>) -> Option<PaperV> {
    let parts = split(value, ',');
    if parts.len() >= 3 {
        if f32_text(trim(parts[1])) && f32_text(trim(parts[2])) {
            Some(PaperV::Dimensions(trim(parts[1]), trim(parts[2])))
        } else {
            None
        }
    } else {
        Some(PaperV::Default)
    }
}

/// `%Font:Name "Family",size,weight,italic`: the font's role name and spec.
pub open spec fn font(content: Seq<char>) -> Option<(Seq<char>, FontV)> {
    match find(content, seq![':']) {
        None => None,
        Some(colon) => {
            let rest = content.skip(colon + 1);
            match find(rest, seq![' ']) {
                None => None,
                Some(space) => {
                    let name = rest.take(space);
                    let parts = split(rest.skip(space + 1), ',');
                    if parts.len() < 4 {
                        None
                    } else {
                        match parse_unsigned_spec(trim(parts[2]), 10, 65535) {
                            Some(w) => if f32_text(trim(parts[1])) {
                                Some(
                                    (
                                        name,
                                        FontV {
                                            family: trim_matches(trim(parts[0]), '"'),
                                            size: trim(parts[1]),
                                            weight: w as u16,
                                            italic: trim(parts[3]) != "0"@,
                                        },
                                    ),
                                )
                            } else {
                                None
                            },
                            None => None,
                        }
                    }
                },
            }
        },
    }
}

/// `#RRGGBB` (any number of leading `#`), spaces around it allowed, once
/// stripped.
pub open spec fn color_digits(v: Seq<char>) -> Seq<char> {
    trim_start_char(trim(v), '#')
}

/// The bytes a character takes in UTF-8.
pub open spec fn utf8_width(c: char) -> int {
    if (c as u32) < 0x80 {
        1
    } else if (c as u32) < 0x800 {
        2
    } else if (c as u32) < 0x10000 {
        3
    } else {
        4
    }
}

/// The UTF-8 length of `s` in bytes.
pub open spec fn utf8_len(s: Seq<char>) -> int
    decreases s.len(),
{
    if s.len() == 0 {
        0
    } else {
        utf8_width(s[0]) + utf8_len(s.drop_first())
    }
}

/// Whether byte offset `k` falls between two characters of `s`.
pub open spec fn on_boundary(s: Seq<char>, k: int) -> bool
    decreases s.len(),
{
    if k == 0 {
        true
    } else if s.len() == 0 || k < 0 {
        false
    } else {
        on_boundary(s.drop_first(), k - utf8_width(s[0]))
    }
}

/// Whether reading `v` as a color slices a character in two, which the reader
/// cannot do: six bytes of text, not all of it ASCII, cut at byte 2 or 4.
pub open spec fn color_splits_char(v: Seq<char>) -> bool {
    let t = color_digits(v);
    !ascii(t) && utf8_len(t) == 6 && (!on_boundary(t, 2) || !on_boundary(t, 4))
}

/// A `#RRGGBB` color.
pub open spec fn color(v: Seq<char>) -> Option<(u8, u8, u8)> {
    let t = color_digits(v);
    if !ascii(t) || t.len() != 6 {
        None
    } else {
        match (
            parse_unsigned_spec(t.subrange(0, 2), 16, 255),
            parse_unsigned_spec(t.subrange(2, 4), 16, 255),
            parse_unsigned_spec(t.subrange(4, 6), 16, 255),
        ) {
            (Some(r), Some(g), Some(b)) => Some((r as u8, g as u8, b as u8)),
            _ => None,
        }
    }
}

/// `%PipColors` with four colors: spades, hearts, diamonds, clubs.
pub open spec fn pip_colors(value: Seq<char>) -> Option<
    ((u8, u8, u8), (u8, u8, u8), (u8, u8, u8), (u8, u8, u8)),
> {
    let parts = split(value, ',');
    if parts.len() != 4 {
        None
    } else {
        match (color(parts[0]), color(parts[1]), color(parts[2]), color(parts[3])) {
            (Some(a), Some(b), Some(c), Some(d)) => Some((a, b, c, d)),
            _ => None,
        }
    }
}

/// Whether reading `%PipColors` would slice a character: the colors are read
/// in order, and a bad one stops the reading.
pub open spec fn pip_colors_split_char(value: Seq<char>) -> bool {
    let parts = split(value, ',');
    &&& parts.len() == 4
    &&& {
        ||| color_splits_char(parts[0])
        ||| color(parts[0]) is Some && color_splits_char(parts[1])
        ||| color(parts[0]) is Some && color(parts[1]) is Some && color_splits_char(parts[2])
        ||| color(parts[0]) is Some && color(parts[1]) is Some && color(parts[2]) is Some
            && color_splits_char(parts[3])
    }
}

/// `%Translate "from" "to"`: the two quoted strings.
pub open spec fn translate(value: Seq<char>) -> Option<(Seq<char>, Seq<char>)> {
    let v = trim(value);
    match find(v, seq!['"']) {
        None => None,
        Some(fs) => match find(v.skip(fs + 1), seq!['"']) {
            None => None,
            Some(fl) => {
                let fe = fl + fs + 1;
                let from = v.subrange(fs + 1, fe);
                let rest = v.skip(fe + 1);
                match find(rest, seq!['"']) {
                    None => None,
                    Some(ss) => match find(rest.skip(ss + 1), seq!['"']) {
                        None => None,
                        Some(sl) => Some((from, rest.subrange(ss + 1, sl + ss + 1))),
                    },
                }
            },
        },
    }
}

/// The options a `%BCOptions` line turns on, as
/// `(justify, show_hcp, float, center, two_col_auctions)`.
pub open spec fn bc_options(value: Seq<char>) -> (bool, bool, bool, bool, bool) {
    let w = words(value);
    (
        w.contains("Justify"@),
        w.contains("ShowHCP"@),
        w.contains("Float"@),
        w.contains("Center"@),
        w.contains("TwoColAuctions"@),
    )
}

/// `s` after the prefix `p`.
pub open spec fn after(s: Seq<char>, p: Seq<char>) -> Seq<char> {
    s.skip(p.len() as int)
}

/// The directives whose value is plain text, or which are read from the
/// value alone.
pub open spec fn directive_first(c: Seq<char>) -> Option<DirectiveV> {
    if starts_with(c, "PBN "@) {
        Some(DirectiveV::Version(trim(after(c, "PBN "@))))
    } else if starts_with(c, "Creator:"@) {
        Some(DirectiveV::Creator(trim(after(c, "Creator:"@))))
    } else if starts_with(c, "Created:"@) {
        Some(DirectiveV::Created(trim(after(c, "Created:"@))))
    } else if starts_with(c, "BoardsPerPage "@) && boards_per_page(
        trim(after(c, "BoardsPerPage "@)),
    ) is Some {
        let b = boards_per_page(trim(after(c, "BoardsPerPage "@))).unwrap();
        Some(DirectiveV::BoardsPerPage(b.0, b.1))
    } else if starts_with(c, "Margins "@) && margins(trim(after(c, "Margins "@))) is Some {
        let m = margins(trim(after(c, "Margins "@))).unwrap();
        Some(DirectiveV::Margins(m.0, m.1, m.2, m.3))
    } else if starts_with(c, "PaperSize "@) && paper(trim(after(c, "PaperSize "@))) is Some {
        Some(DirectiveV::PaperSize(paper(trim(after(c, "PaperSize "@))).unwrap()))
    } else if starts_with(c, "Font:"@) && font(c) is Some {
        Some(DirectiveV::Font(font(c).unwrap().0, font(c).unwrap().1))
    } else {
        None
    }
}

/// The remaining directives, in the order they are tried; anything else is
/// unknown.
pub open spec fn directive_rest(c: Seq<char>) -> DirectiveV {
    if starts_with(c, "PipColors "@) && pip_colors(trim(after(c, "PipColors "@))) is Some {
        let p = pip_colors(trim(after(c, "PipColors "@))).unwrap();
        DirectiveV::PipColors(p.0, p.1, p.2, p.3)
    } else if starts_with(c, "HRTitleEvent "@) {
        DirectiveV::TitleEvent(trim_matches(trim(after(c, "HRTitleEvent "@)), '"'))
    } else if starts_with(c, "HRTitleDate "@) {
        DirectiveV::TitleDate(trim_matches(trim(after(c, "HRTitleDate "@)), '"'))
    } else if starts_with(c, "ShowHCP"@) {
        DirectiveV::ShowHcp(true)
    } else if starts_with(c, "BCOptions "@) {
        let o = bc_options(after(c, "BCOptions "@));
        DirectiveV::BCOptions(o.0, o.1, o.2, o.3, o.4)
    } else if starts_with(c, "ShowCardTable "@) {
        DirectiveV::ShowCardTable(trim(after(c, "ShowCardTable "@)) != "0"@)
    } else if starts_with(c, "ShowBoardLabels "@) {
        DirectiveV::ShowBoardLabels(trim(after(c, "ShowBoardLabels "@)) != "0"@)
    } else if starts_with(c, "Translate "@) && translate(after(c, "Translate "@)) is Some
        && translate(after(c, "Translate "@)).unwrap().0 == "Board %"@ {
        DirectiveV::BoardLabelFormat(translate(after(c, "Translate "@)).unwrap().1)
    } else {
        DirectiveV::Unknown(c)
    }
}

/// The content of a header line: what follows its `%`, trimmed. `None` when
/// the trimmed line does not begin with `%`.
pub open spec fn header_content(line: Seq<char>) -> Option<Seq<char>> {
    let l = trim(line);
    if l.len() > 0 && l[0] == '%' {
        Some(trim(l.drop_first()))
    } else {
        None
    }
}

/// What a header line means.
pub open spec fn header_line(line: Seq<char>) -> Option<DirectiveV> {
    match header_content(line) {
        None => None,
        Some(c) => match directive_first(c) {
            Some(d) => Some(d),
            None => Some(directive_rest(c)),
        },
    }
}

/// Whether reading the line would slice a character in two.
pub open spec fn header_line_splits_char(line: Seq<char>) -> bool {
    match header_content(line) {
        None => false,
        Some(c) => directive_first(c) is None && starts_with(c, "PipColors "@)
            && pip_colors_split_char(trim(after(c, "PipColors "@))),
    }
}

/// `s` after the literal prefix `p`, when `s` starts with it.
fn strip_lit(s: &[char], p: &str) -> (r: Option<Vec<char>>)
    ensures
        starts_with(s@, p@) ==> (r matches Some(t) && t@ == after(s@, p@)),
        !starts_with(s@, p@) ==> r is None,
{
    let pc = chars_of(p);
    assert(s@.skip(0) =~= s@);
    if starts_at(s, 0, &pc) {
        Some(slice_of(s, pc.len(), s.len()))
    } else {
        None
    }
}

/// Whether `s` starts with the literal `p`.
fn has_prefix(s: &[char], p: &str) -> (b: bool)
    ensures
        b == starts_with(s@, p@),
{
    let pc = chars_of(p);
    assert(s@.skip(0) =~= s@);
    starts_at(s, 0, &pc)
}

/// Whether `s` is exactly the literal `p`.
fn equals_lit(s: &[char], p: &str) -> (b: bool)
    ensures
        b == (s@ == p@),
{
    let pc = chars_of(p);
    if s.len() != pc.len() {
        return false;
    }
    assert(s@.skip(0) =~= s@);
    let b = starts_at(s, 0, &pc);
    assert(s@.take(pc@.len() as int) =~= s@);
    b
}

fn trim_start_char_chars(s: &[char], c: char) -> (r: Vec<char>)
    ensures
        r@ == trim_start_char(s@, c),
{
    let mut i: usize = 0;
    assert(s@.skip(0) =~= s@);
    while i < s.len() && s[i] == c
        invariant
            i <= s@.len(),
            trim_start_char(s@, c) == trim_start_char(s@.skip(i as int), c),
        decreases s.len() - i,
    {
        assert(s@.skip(i as int).drop_first() =~= s@.skip(i + 1));
        i += 1;
    }
    assert(s@.skip(i as int) =~= s@.subrange(i as int, s@.len() as int));
    slice_of(s, i, s.len())
}

fn trim_matches_chars(s: &[char], c: char) -> (r: Vec<char>)
    ensures
        r@ == trim_matches(s@, c),
{
    let t = trim_start_char_chars(s, c);
    let mut j: usize = t.len();
    assert(t@.take(j as int) =~= t@);
    while j > 0 && t[j - 1] == c
        invariant
            j <= t@.len(),
            trim_end_char(t@, c) == trim_end_char(t@.take(j as int), c),
        decreases j,
    {
        assert(t@.take(j as int).drop_last() =~= t@.take(j - 1));
        j -= 1;
    }
    assert(t@.take(j as int) =~= t@.subrange(0, j as int));
    slice_of(&t, 0, j)
}

/// The text of a directive's value as a `String`.
fn text_of(s: &[char]) -> (r: String)
    ensures
        r@ == s@,
{
    string_of(s)
}

fn parse_boards_per_page(value: &[char]) -> (r: Option<BoardsPerPageConfig>)
    ensures
        match boards_per_page(value@) {
            Some((n, fit)) => r matches Some(c) && c.count == n && c.fit == fit,
            None => r is None,
        },
{
    let parts = split_on(value, ',');
    let ghost pv = parts@.map_values(|v: Vec<char>| v@);
    assert(pv.len() == parts@.len());
    proof {
        lemma_split_nonempty(value@, ',');
    }
    let fit = if parts.len() >= 2 {
        assert(pv[0] == parts@[0]@);
        let t = trim_chars(&parts[0]);
        let l = to_lower(&t);
        equals_lit(&l, "fit")
    } else {
        false
    };
    let num: &Vec<char> = if fit {
        assert(pv[1] == parts@[1]@);
        &parts[1]
    } else {
        assert(pv.last() == parts@[parts@.len() - 1]@);
        &parts[parts.len() - 1]
    };
    let t = trim_chars(num);
    match parse_unsigned(&t, 10, 255) {
        Some(n) => Some(BoardsPerPageConfig { count: n as u8, fit }),
        None => None,
    }
}

pub proof fn lemma_split_nonempty(s: Seq<char>, c: char)
    ensures
        split(s, c).len() >= 1,
    decreases s.len(),
{
    match find(s, seq![c]) {
        Some(i) => {
            lemma_find_bounds(s, seq![c]);
            lemma_split_nonempty(s.skip(i + 1), c);
        },
        None => {},
    }
}

fn parse_margins(value: &[char]) -> (r: Option<MarginsText>)
    ensures
        match margins(value@) {
            Some((t, b, ri, l)) => r matches Some(m) && m.top@ == t && m.bottom@ == b && m.right@
                == ri && m.left@ == l,
            None => r is None,
        },
{
    let parts = split_on(value, ',');
    let ghost pv = parts@.map_values(|v: Vec<char>| v@);
    if parts.len() != 4 {
        return None;
    }
    assert(pv[0] == parts@[0]@ && pv[1] == parts@[1]@ && pv[2] == parts@[2]@ && pv[3]
        == parts@[3]@);
    let t = trim_chars(&parts[0]);
    let b = trim_chars(&parts[1]);
    let ri = trim_chars(&parts[2]);
    let l = trim_chars(&parts[3]);
    if f32_chars(&t) && f32_chars(&b) && f32_chars(&ri) && f32_chars(&l) {
        Some(MarginsText { top: text_of(&t), bottom: text_of(&b), right: text_of(&ri), left: text_of(&l) })
    } else {
        None
    }
}

fn parse_paper_size(value: &[char]) -> (r: Option<PaperSpec>)
    ensures
        match paper(value@) {
            Some(PaperV::Default) => r matches Some(PaperSpec::Default),
            Some(PaperV::Dimensions(w, h)) => r matches Some(PaperSpec::Dimensions { width, height })
                && width@ == w && height@ == h,
            None => r is None,
        },
{
    let parts = split_on(value, ',');
    let ghost pv = parts@.map_values(|v: Vec<char>| v@);
    if parts.len() >= 3 {
        assert(pv[1] == parts@[1]@ && pv[2] == parts@[2]@);
        let w = trim_chars(&parts[1]);
        let h = trim_chars(&parts[2]);
        if f32_chars(&w) && f32_chars(&h) {
            Some(PaperSpec::Dimensions { width: text_of(&w), height: text_of(&h) })
        } else {
            None
        }
    } else {
        Some(PaperSpec::Default)
    }
}

fn parse_font_directive(content: &[char]) -> (r: Option<(String, FontSpec)>)
    ensures
        match font(content@) {
            Some((n, f)) => r matches Some((name, spec)) && name@ == n && spec@ == f,
            None => r is None,
        },
{
    let colon_p = [':'];
    assert(colon_p@ =~= seq![':']);
    assert(content@.skip(0) =~= content@);
    let colon = match find_at(content, 0, &colon_p) {
        Some(k) => k,
        None => {
            return None;
        },
    };
    proof {
        lemma_find_bounds(content@, seq![':']);
    }
    let rest = slice_of(content, colon + 1, content.len());
    assert(rest@ =~= content@.skip(colon + 1));
    let space_p = [' '];
    assert(space_p@ =~= seq![' ']);
    assert(rest@.skip(0) =~= rest@);
    let space = match find_at(&rest, 0, &space_p) {
        Some(k) => k,
        None => {
            return None;
        },
    };
    proof {
        lemma_find_bounds(rest@, seq![' ']);
    }
    let name = slice_of(&rest, 0, space);
    assert(name@ =~= rest@.take(space as int));
    let params = slice_of(&rest, space + 1, rest.len());
    assert(params@ =~= rest@.skip(space + 1));
    let parts = split_on(&params, ',');
    let ghost pv = parts@.map_values(|v: Vec<char>| v@);
    if parts.len() < 4 {
        return None;
    }
    assert(pv[0] == parts@[0]@ && pv[1] == parts@[1]@ && pv[2] == parts@[2]@ && pv[3]
        == parts@[3]@);
    let fam0 = trim_chars(&parts[0]);
    let family = trim_matches_chars(&fam0, '"');
    let size = trim_chars(&parts[1]);
    let wt = trim_chars(&parts[2]);
    let weight = match parse_unsigned(&wt, 10, 65535) {
        Some(w) => w as u16,
        None => {
            return None;
        },
    };
    if !f32_chars(&size) {
        return None;
    }
    let it = trim_chars(&parts[3]);
    let italic = !equals_lit(&it, "0");
    Some((text_of(&name), FontSpec { family: text_of(&family), size: text_of(&size), weight, italic }))
}

fn is_ascii_chars(s: &[char]) -> (b: bool)
    ensures
        b == ascii(s@),
{
    let mut i: usize = 0;
    while i < s.len()
        invariant
            i <= s@.len(),
            forall|j: int| 0 <= j < i ==> (#[trigger] s@[j] as u32) < 128,
        decreases s.len() - i,
    {
        if (s[i] as u32) >= 128 {
            return false;
        }
        i += 1;
    }
    true
}

/// Parse a `#RRGGBB` color (leading `#`s and surrounding spaces allowed).
fn parse_color(value: &[char]) -> (r: Option<(u8, u8, u8)>)
    requires
        !color_splits_char(value@),
    ensures
        r == color(value@),
{
    let t0 = trim_chars(value);
    let t = trim_start_char_chars(&t0, '#');
    if !is_ascii_chars(&t) || t.len() != 6 {
        return None;
    }
    let a = slice_of(&t, 0, 2);
    let b = slice_of(&t, 2, 4);
    let c = slice_of(&t, 4, 6);
    match (parse_unsigned(&a, 16, 255), parse_unsigned(&b, 16, 255), parse_unsigned(&c, 16, 255)) {
        (Some(r), Some(g), Some(b)) => Some((r as u8, g as u8, b as u8)),
        _ => None,
    }
}

fn parse_pip_colors(value: &[char]) -> (r: Option<ColorSettings>)
    requires
        !pip_colors_split_char(value@),
    ensures
        match pip_colors(value@) {
            Some((s, h, d, c)) => r matches Some(cs) && cs.spades == s && cs.hearts == h
                && cs.diamonds == d && cs.clubs == c,
            None => r is None,
        },
{
    let parts = split_on(value, ',');
    let ghost pv = parts@.map_values(|v: Vec<char>| v@);
    if parts.len() != 4 {
        return None;
    }
    assert(pv[0] == parts@[0]@ && pv[1] == parts@[1]@ && pv[2] == parts@[2]@ && pv[3]
        == parts@[3]@);
    let spades = match parse_color(&parts[0]) {
        Some(x) => x,
        None => {
            return None;
        },
    };
    let hearts = match parse_color(&parts[1]) {
        Some(x) => x,
        None => {
            return None;
        },
    };
    let diamonds = match parse_color(&parts[2]) {
        Some(x) => x,
        None => {
            return None;
        },
    };
    let clubs = match parse_color(&parts[3]) {
        Some(x) => x,
        None => {
            return None;
        },
    };
    Some(ColorSettings { spades, hearts, diamonds, clubs })
}

fn parse_translate(value: &[char]) -> (r: Option<(Vec<char>, Vec<char>)>)
    ensures
        match translate(value@) {
            Some((f, t)) => r matches Some((a, b)) && a@ == f && b@ == t,
            None => r is None,
        },
{
    let v = trim_chars(value);
    let q = ['"'];
    assert(q@ =~= seq!['"']);
    assert(v@.skip(0) =~= v@);
    let fs = match find_at(&v, 0, &q) {
        Some(k) => k,
        None => {
            return None;
        },
    };
    proof {
        lemma_find_bounds(v@, seq!['"']);
    }
    let fl = match find_at(&v, fs + 1, &q) {
        Some(k) => k,
        None => {
            return None;
        },
    };
    proof {
        lemma_find_bounds(v@.skip(fs + 1), seq!['"']);
    }
    let fe = fl + fs + 1;
    let from = slice_of(&v, fs + 1, fe);
    let rest = slice_of(&v, fe + 1, v.len());
    assert(rest@ =~= v@.skip(fe + 1));
    assert(rest@.skip(0) =~= rest@);
    let ss = match find_at(&rest, 0, &q) {
        Some(k) => k,
        None => {
            return None;
        },
    };
    proof {
        lemma_find_bounds(rest@, seq!['"']);
    }
    let sl = match find_at(&rest, ss + 1, &q) {
        Some(k) => k,
        None => {
            return None;
        },
    };
    proof {
        lemma_find_bounds(rest@.skip(ss + 1), seq!['"']);
    }
    let to = slice_of(&rest, ss + 1, sl + ss + 1);
    Some((from, to))
}

fn word_in(w: &Vec<Vec<char>>, lit: &str) -> (b: bool)
    ensures
        b == w@.map_values(|v: Vec<char>| v@).contains(lit@),
{
    let ghost wv = w@.map_values(|v: Vec<char>| v@);
    let mut i: usize = 0;
    while i < w.len()
        invariant
            i <= w@.len(),
            wv == w@.map_values(|v: Vec<char>| v@),
            forall|j: int| 0 <= j < i ==> wv[j] != lit@,
        decreases w.len() - i,
    {
        if equals_lit(&w[i], lit) {
            assert(wv[i as int] == lit@);
            return true;
        }
        i += 1;
    }
    false
}

fn parse_bc_options(value: &[char]) -> (r: BCOptions)
    ensures
        bc_options(value@) == (r.justify, r.show_hcp, r.float, r.center, r.two_col_auctions),
{
    let w = split_ws(value);
    BCOptions {
        justify: word_in(&w, "Justify"),
        show_hcp: word_in(&w, "ShowHCP"),
        float: word_in(&w, "Float"),
        center: word_in(&w, "Center"),
        two_col_auctions: word_in(&w, "TwoColAuctions"),
    }
}

fn directive_first_exec(c: &[char]) -> (r: Option<HeaderDirective>)
    ensures
        match directive_first(c@) {
            Some(d) => r matches Some(x) && x@ == d,
            None => r is None,
        },
{
    if let Some(rest) = strip_lit(c, "PBN ") {
        return Some(HeaderDirective::Version(text_of(&trim_chars(&rest))));
    }
    if let Some(rest) = strip_lit(c, "Creator:") {
        return Some(HeaderDirective::Creator(text_of(&trim_chars(&rest))));
    }
    if let Some(rest) = strip_lit(c, "Created:") {
        return Some(HeaderDirective::Created(text_of(&trim_chars(&rest))));
    }
    if let Some(rest) = strip_lit(c, "BoardsPerPage ") {
        if let Some(b) = parse_boards_per_page(&trim_chars(&rest)) {
            return Some(HeaderDirective::BoardsPerPage(b));
        }
    }
    if let Some(rest) = strip_lit(c, "Margins ") {
        if let Some(m) = parse_margins(&trim_chars(&rest)) {
            return Some(HeaderDirective::Margins(m));
        }
    }
    if let Some(rest) = strip_lit(c, "PaperSize ") {
        if let Some(p) = parse_paper_size(&trim_chars(&rest)) {
            return Some(HeaderDirective::PaperSize(p));
        }
    }
    if has_prefix(c, "Font:") {
        if let Some((name, spec)) = parse_font_directive(c) {
            return Some(HeaderDirective::Font(name, spec));
        }
    }
    None
}

fn directive_rest_exec(c: &[char]) -> (r: HeaderDirective)
    requires
        !(starts_with(c@, "PipColors "@) && pip_colors_split_char(trim(after(c@, "PipColors "@)))),
    ensures
        r@ == directive_rest(c@),
{
    if let Some(rest) = strip_lit(c, "PipColors ") {
        if let Some(p) = parse_pip_colors(&trim_chars(&rest)) {
            return HeaderDirective::PipColors(p);
        }
    }
    if let Some(rest) = strip_lit(c, "HRTitleEvent ") {
        let t = trim_chars(&rest);
        return HeaderDirective::TitleEvent(text_of(&trim_matches_chars(&t, '"')));
    }
    if let Some(rest) = strip_lit(c, "HRTitleDate ") {
        let t = trim_chars(&rest);
        return HeaderDirective::TitleDate(text_of(&trim_matches_chars(&t, '"')));
    }
    if has_prefix(c, "ShowHCP") {
        return HeaderDirective::ShowHcp(true);
    }
    if let Some(rest) = strip_lit(c, "BCOptions ") {
        return HeaderDirective::BCOptions(parse_bc_options(&rest));
    }
    if let Some(rest) = strip_lit(c, "ShowCardTable ") {
        return HeaderDirective::ShowCardTable(!equals_lit(&trim_chars(&rest), "0"));
    }
    if let Some(rest) = strip_lit(c, "ShowBoardLabels ") {
        return HeaderDirective::ShowBoardLabels(!equals_lit(&trim_chars(&rest), "0"));
    }
    if let Some(rest) = strip_lit(c, "Translate ") {
        if let Some((from, to)) = parse_translate(&rest) {
            if equals_lit(&from, "Board %") {
                return HeaderDirective::BoardLabelFormat(text_of(&to));
            }
        }
    }
    HeaderDirective::Unknown(text_of(c))
}

fn header_content_exec(line: &[char]) -> (r: Option<Vec<char>>)
    ensures
        match header_content(line@) {
            Some(c) => r matches Some(x) && x@ == c,
            None => r is None,
        },
{
    let l = trim_chars(line);
    if l.len() > 0 && l[0] == '%' {
        let rest = slice_of(&l, 1, l.len());
        assert(rest@ =~= l@.drop_first());
        Some(trim_chars(&rest))
    } else {
        None
    }
}

/// Parse a PBN header line starting with `%`.
pub fn parse_header_line(line: &str) -> (r: Option<HeaderDirective>)
    requires
        !header_line_splits_char(line@),
    ensures
        match header_line(line@) {
            Some(d) => r matches Some(x) && x@ == d,
            None => r is None,
        },
{
    let cs = chars_of(line);
    parse_header_chars(&cs)
}

fn parse_header_chars(cs: &[char]) -> (r: Option<HeaderDirective>)
    requires
        !header_line_splits_char(cs@),
    ensures
        match header_line(cs@) {
            Some(d) => r matches Some(x) && x@ == d,
            None => r is None,
        },
{
    let c = match header_content_exec(cs) {
        Some(c) => c,
        None => {
            return None;
        },
    };
    match directive_first_exec(&c) {
        Some(d) => Some(d),
        None => Some(directive_rest_exec(&c)),
    }
}

/// The metadata `m` with the directive `d` applied.
pub open spec fn apply_directive(m: MetaV, d: DirectiveV) -> MetaV {
    match d {
        DirectiveV::Version(v) => MetaV { version: Some(v), ..m },
        DirectiveV::Creator(v) => MetaV { creator: Some(v), ..m },
        DirectiveV::Created(v) => MetaV { created: Some(v), ..m },
        DirectiveV::BoardsPerPage(count, fit) => MetaV {
            boards_per_page: Some(count),
            column_count: if count >= 2 && fit {
                count
            } else {
                m.column_count
            },
            ..m
        },
        DirectiveV::Margins(t, b, r, l) => MetaV { margins: Some((t, b, r, l)), ..m },
        DirectiveV::PaperSize(p) => MetaV { paper_size: Some(p), ..m },
        DirectiveV::Font(name, spec) => if name == "CardTable"@ {
            MetaV { card_table: Some(spec), ..m }
        } else if name == "Commentary"@ {
            MetaV { commentary: Some(spec), ..m }
        } else if name == "Diagram"@ {
            MetaV { diagram: Some(spec), ..m }
        } else if name == "Event"@ {
            MetaV { event: Some(spec), ..m }
        } else if name == "FixedPitch"@ {
            MetaV { fixed_pitch: Some(spec), ..m }
        } else if name == "HandRecord"@ {
            MetaV { hand_record: Some(spec), ..m }
        } else {
            m
        },
        DirectiveV::PipColors(sp, h, d, c) => MetaV {
            colors: ColorSettings { spades: sp, hearts: h, diamonds: d, clubs: c },
            ..m
        },
        DirectiveV::TitleEvent(t) => MetaV { title_event: Some(t), ..m },
        DirectiveV::TitleDate(t) => MetaV { title_date: Some(t), ..m },
        DirectiveV::ShowHcp(v) => MetaV { show_hcp: v, ..m },
        DirectiveV::ShowCardTable(v) => MetaV { show_card_table: Some(v), ..m },
        DirectiveV::ShowBoardLabels(v) => MetaV { show_board_labels: Some(v), ..m },
        DirectiveV::BCOptions(justify, show_hcp, _float, center, two_col) => MetaV {
            show_hcp: m.show_hcp || show_hcp,
            justify: m.justify || justify,
            center: m.center || center,
            two_col_auctions: m.two_col_auctions || two_col,
            ..m
        },
        DirectiveV::BoardLabelFormat(f) => MetaV { board_label_format: Some(f), ..m },
        DirectiveV::Unknown(_) => m,
    }
}

/// The metadata `m` with each of `lines` applied in turn; lines that are not
/// header lines change nothing.
pub open spec fn apply_lines(m: MetaV, lines: Seq<Seq<char>>) -> MetaV
    decreases lines.len(),
{
    if lines.len() == 0 {
        m
    } else {
        let before = apply_lines(m, lines.drop_last());
        match header_line(lines.last()) {
            Some(d) => apply_directive(before, d),
            None => before,
        }
    }
}

/// The metadata a file's header lines set.
pub open spec fn headers_meta(lines: Seq<Seq<char>>) -> MetaV {
    apply_lines(empty_meta(), lines)
}

fn font_role_is(name: &String, role: &str) -> (b: bool)
    ensures
        b == (name@ == role@),
{
    let n = chars_of(name.as_str());
    equals_lit(&n, role)
}

/// Apply one directive to the metadata.
fn apply(m: &mut PbnMetadata, d: HeaderDirective)
    ensures
        final(m)@ == apply_directive(old(m)@, d@),
{
    match d {
        HeaderDirective::Version(v) => m.version = Some(v),
        HeaderDirective::Creator(c) => m.creator = Some(c),
        HeaderDirective::Created(c) => m.created = Some(c),
        HeaderDirective::BoardsPerPage(config) => {
            m.layout.boards_per_page = Some(config.count);
            if config.count >= 2 && config.fit {
                m.layout.column_count = config.count;
            }
        },
        HeaderDirective::Margins(x) => m.layout.margins = Some(x),
        HeaderDirective::PaperSize(p) => m.layout.paper_size = Some(p),
        HeaderDirective::Font(name, spec) => {
            if font_role_is(&name, "CardTable") {
                m.fonts.card_table = Some(spec);
            } else if font_role_is(&name, "Commentary") {
                m.fonts.commentary = Some(spec);
            } else if font_role_is(&name, "Diagram") {
                m.fonts.diagram = Some(spec);
            } else if font_role_is(&name, "Event") {
                m.fonts.event = Some(spec);
            } else if font_role_is(&name, "FixedPitch") {
                m.fonts.fixed_pitch = Some(spec);
            } else if font_role_is(&name, "HandRecord") {
                m.fonts.hand_record = Some(spec);
            }
        },
        HeaderDirective::PipColors(c) => m.colors = c,
        HeaderDirective::TitleEvent(t) => m.title_event = Some(t),
        HeaderDirective::TitleDate(t) => m.title_date = Some(t),
        HeaderDirective::ShowHcp(v) => m.layout.show_hcp = v,
        HeaderDirective::ShowCardTable(v) => m.layout.show_card_table = Some(v),
        HeaderDirective::ShowBoardLabels(v) => m.layout.show_board_labels = Some(v),
        HeaderDirective::BCOptions(opts) => {
            if opts.show_hcp {
                m.layout.show_hcp = true;
            }
            if opts.justify {
                m.layout.justify = true;
            }
            if opts.center {
                m.layout.center = true;
            }
            if opts.two_col_auctions {
                m.layout.two_col_auctions = true;
            }
        },
        HeaderDirective::BoardLabelFormat(f) => {
            m.layout.board_label_format = Some(f);
        },
        HeaderDirective::Unknown(_) => {},
    }
}

/// The views of a run of lines.
pub open spec fn line_views(lines: Seq<&str>) -> Seq<Seq<char>> {
    lines.map_values(|l: &str| l@)
}

/// Parse all header lines and build the metadata: each setting is what the
/// last line that sets it says.
pub fn parse_headers(lines: &[&str]) -> (m: PbnMetadata)
    requires
        forall|i: int| 0 <= i < lines@.len() ==> !header_line_splits_char(#[trigger] lines@[i]@),
    ensures
        m@ == headers_meta(line_views(lines@)),
{
    let mut m = PbnMetadata::new();
    let mut i: usize = 0;
    assert(m@ == empty_meta());
    assert(line_views(lines@).take(0) =~= seq![]);
    while i < lines.len()
        invariant
            i <= lines@.len(),
            forall|j: int| 0 <= j < lines@.len() ==> !header_line_splits_char(#[trigger] lines@[j]@),
            m@ == apply_lines(empty_meta(), line_views(lines@).take(i as int)),
        decreases lines.len() - i,
    {
        let line: &str = lines[i];
        assert(line_views(lines@).take(i + 1).drop_last() =~= line_views(lines@).take(i as int));
        assert(line_views(lines@).take(i + 1).last() == line@);
        if let Some(d) = parse_header_line(line) {
            apply(&mut m, d);
        }
        i += 1;
    }
    assert(line_views(lines@).take(lines@.len() as int) =~= line_views(lines@));
    m
}

fn utf8_width_of(c: char) -> (w: usize)
    ensures
        w == utf8_width(c),
{
    let u = c as u32;
    if u < 0x80 {
        1
    } else if u < 0x800 {
        2
    } else if u < 0x10000 {
        3
    } else {
        4
    }
}

proof fn lemma_utf8_len_take(s: Seq<char>, i: int)
    requires
        0 <= i < s.len(),
    ensures
        utf8_len(s.take(i + 1)) == utf8_len(s.take(i)) + utf8_width(s[i]),
    decreases i,
{
    if i == 0 {
        assert(s.take(1).drop_first() =~= Seq::<char>::empty());
        assert(s.take(0) =~= Seq::<char>::empty());
    } else {
        lemma_utf8_len_take(s.drop_first(), i - 1);
        assert(s.take(i + 1).drop_first() =~= s.drop_first().take(i));
        assert(s.take(i).drop_first() =~= s.drop_first().take(i - 1));
    }
}

proof fn lemma_on_boundary_prefix(s: Seq<char>, i: int, k: int)
    requires
        0 <= i <= s.len(),
        utf8_len(s.take(i)) <= k,
    ensures
        on_boundary(s, k) == on_boundary(s.skip(i), k - utf8_len(s.take(i))),
    decreases i,
{
    if i > 0 {
        assert(s.take(1).drop_first() =~= Seq::<char>::empty());
        assert(s.take(0) =~= Seq::<char>::empty());
        lemma_utf8_len_take(s, 0);
        lemma_utf8_nonneg(s.drop_first().take(i - 1));
        assert(s.take(i).drop_first() =~= s.drop_first().take(i - 1));
        assert(utf8_len(s.take(i)) == utf8_width(s[0]) + utf8_len(s.drop_first().take(i - 1)));
        if k == 0 {
            assert(utf8_width(s[0]) >= 1);
        }
        lemma_on_boundary_prefix(s.drop_first(), i - 1, k - utf8_width(s[0]));
        assert(s.drop_first().skip(i - 1) =~= s.skip(i));
    } else {
        assert(s.skip(0) =~= s);
        assert(s.take(0) =~= Seq::<char>::empty());
    }
}

proof fn lemma_utf8_nonneg(s: Seq<char>)
    ensures
        utf8_len(s) >= 0,
    decreases s.len(),
{
    if s.len() > 0 {
        lemma_utf8_nonneg(s.drop_first());
    }
}

proof fn lemma_on_boundary_past(s: Seq<char>, k: int)
    requires
        0 < k < utf8_width(s[0]),
        s.len() > 0,
    ensures
        !on_boundary(s, k),
{
    assert(k - utf8_width(s[0]) < 0);
    assert(!on_boundary(s.drop_first(), k - utf8_width(s[0])));
}

/// Whether byte offset `k` of `t` falls between two characters.
fn boundary_at(t: &[char], k: usize) -> (b: bool)
    requires
        k <= 8,
    ensures
        b == on_boundary(t@, k as int),
{
    let mut i: usize = 0;
    let mut used: usize = 0;
    assert(t@.take(0) =~= Seq::<char>::empty());
    assert(t@.skip(0) =~= t@);
    while i < t.len() && used < k
        invariant
            i <= t@.len(),
            k <= 8,
            used <= k,
            used == utf8_len(t@.take(i as int)),
            on_boundary(t@, k as int) == on_boundary(t@.skip(i as int), k - used),
        decreases t.len() - i,
    {
        let w = utf8_width_of(t[i]);
        proof {
            lemma_utf8_len_take(t@, i as int);
            let r = t@.skip(i as int);
            assert(r[0] == t@[i as int]);
            assert(r.drop_first() =~= t@.skip(i + 1));
        }
        if used + w > k {
            proof {
                lemma_on_boundary_past(t@.skip(i as int), k - used);
            }
            return false;
        }
        used = used + w;
        i += 1;
    }
    if used == k {
        true
    } else {
        assert(t@.skip(i as int).len() == 0);
        false
    }
}

fn color_splits(value: &[char]) -> (b: bool)
    ensures
        b == color_splits_char(value@),
{
    let t0 = trim_chars(value);
    let t = trim_start_char_chars(&t0, '#');
    if is_ascii_chars(&t) {
        return false;
    }
    let mut total: usize = 0;
    let mut i: usize = 0;
    assert(t@.take(0) =~= Seq::<char>::empty());
    while i < t.len() && total <= 6
        invariant
            i <= t@.len(),
            total == utf8_len(t@.take(i as int)),
            total <= 10,
        decreases t.len() - i,
    {
        proof {
            lemma_utf8_len_take(t@, i as int);
        }
        total = total + utf8_width_of(t[i]);
        i += 1;
    }
    if i < t.len() || total != 6 {
        proof {
            if i < t.len() {
                lemma_utf8_len_mono(t@, i as int);
            } else {
                assert(t@.take(i as int) =~= t@);
            }
        }
        return false;
    }
    assert(t@.take(i as int) =~= t@);
    !boundary_at(&t, 2) || !boundary_at(&t, 4)
}

proof fn lemma_utf8_len_mono(s: Seq<char>, i: int)
    requires
        0 <= i <= s.len(),
    ensures
        utf8_len(s.take(i)) <= utf8_len(s),
    decreases s.len() - i,
{
    if i < s.len() {
        lemma_utf8_len_take(s, i);
        lemma_utf8_len_mono(s, i + 1);
    } else {
        assert(s.take(i) =~= s);
    }
}

fn pip_colors_split(value: &[char]) -> (b: bool)
    ensures
        b == pip_colors_split_char(value@),
{
    let parts = split_on(value, ',');
    let ghost pv = parts@.map_values(|v: Vec<char>| v@);
    if parts.len() != 4 {
        return false;
    }
    assert(pv[0] == parts@[0]@ && pv[1] == parts@[1]@ && pv[2] == parts@[2]@ && pv[3]
        == parts@[3]@);
    if color_splits(&parts[0]) {
        return true;
    }
    if parse_color(&parts[0]).is_none() {
        return false;
    }
    if color_splits(&parts[1]) {
        return true;
    }
    if parse_color(&parts[1]).is_none() {
        return false;
    }
    if color_splits(&parts[2]) {
        return true;
    }
    if parse_color(&parts[2]).is_none() {
        return false;
    }
    color_splits(&parts[3])
}

/// Whether [`parse_header_line`] can read `line`: it cannot where a
/// `%PipColors` color with characters outside ASCII would be cut inside a
/// character.
pub fn header_line_is_readable(line: &str) -> (b: bool)
    ensures
        b == !header_line_splits_char(line@),
{
    let cs = chars_of(line);
    let c = match header_content_exec(&cs) {
        Some(c) => c,
        None => {
            return true;
        },
    };
    if directive_first_exec(&c).is_some() {
        return true;
    }
    match strip_lit(&c, "PipColors ") {
        Some(v) => !pip_colors_split(&trim_chars(&v)),
        None => true,
    }
}

proof fn lemma_apply_last(lines: Seq<Seq<char>>, line: Seq<char>, d: DirectiveV)
    requires
        header_line(line) == Some(d),
    ensures
        headers_meta(lines.push(line)) == apply_directive(headers_meta(lines), d),
{
    assert(lines.push(line).drop_last() =~= lines);
    assert(lines.push(line).last() == line);
}

/// The colors of a `%PipColors` line whose value splits on `,` into four
/// parts that all read as colors go to the suits in the order spades,
/// hearts, diamonds, clubs: the k-th part colors the k-th suit, whatever
/// lines came before.
pub proof fn pip_colors_color_the_suits_in_order(lines: Seq<Seq<char>>, line: Seq<char>, v: Seq<char>)
    requires
        header_content(line) == Some("PipColors "@ + v),
        split(trim(v), ',').len() == 4,
        forall|k: int| 0 <= k < 4 ==> #[trigger] color(split(trim(v), ',')[k]) is Some,
    ensures
        headers_meta(lines.push(line)).colors.spades == color(split(trim(v), ',')[0])->0,
        headers_meta(lines.push(line)).colors.hearts == color(split(trim(v), ',')[1])->0,
        headers_meta(lines.push(line)).colors.diamonds == color(split(trim(v), ',')[2])->0,
        headers_meta(lines.push(line)).colors.clubs == color(split(trim(v), ',')[3])->0,
{
    reveal_strlit("PipColors ");
    reveal_strlit("PBN ");
    reveal_strlit("Creator:");
    reveal_strlit("Created:");
    reveal_strlit("BoardsPerPage ");
    reveal_strlit("Margins ");
    reveal_strlit("PaperSize ");
    reveal_strlit("Font:");
    let c = "PipColors "@ + v;
    assert(c[0] == 'P' && c[1] == 'i');
    assert(!starts_with(c, "PBN "@)) by {
        if starts_with(c, "PBN "@) {
            assert(c.take(4)[1] == 'B');
        }
    }
    assert(!starts_with(c, "Creator:"@)) by {
        if starts_with(c, "Creator:"@) {
            assert(c.take(8)[0] == 'C');
        }
    }
    assert(!starts_with(c, "Created:"@)) by {
        if starts_with(c, "Created:"@) {
            assert(c.take(8)[0] == 'C');
        }
    }
    assert(!starts_with(c, "BoardsPerPage "@)) by {
        if starts_with(c, "BoardsPerPage "@) {
            assert(c.take(14)[0] == 'B');
        }
    }
    assert(!starts_with(c, "Margins "@)) by {
        if starts_with(c, "Margins "@) {
            assert(c.take(8)[0] == 'M');
        }
    }
    assert(!starts_with(c, "PaperSize "@)) by {
        if starts_with(c, "PaperSize "@) {
            assert(c.take(10)[1] == 'a');
        }
    }
    assert(!starts_with(c, "Font:"@)) by {
        if starts_with(c, "Font:"@) {
            assert(c.take(5)[0] == 'F');
        }
    }
    assert(c.take(10) =~= "PipColors "@);
    assert(after(c, "PipColors "@) =~= v);
    let parts = split(trim(v), ',');
    assert(color(parts[0]) is Some && color(parts[1]) is Some && color(parts[2]) is Some && color(parts[3]) is Some);
    let d = DirectiveV::PipColors(color(parts[0])->0, color(parts[1])->0, color(parts[2])->0, color(parts[3])->0);
    assert(header_line(line) == Some(d));
    lemma_apply_last(lines, line, d);
}

/// A `%BoardsPerPage fit,N` line with `N` at least 2 lays a page of `N`
/// boards out in `N` columns, whatever lines came before.
pub proof fn a_fit_page_of_n_boards_has_n_columns(lines: Seq<Seq<char>>, line: Seq<char>, v: Seq<char>, n: u8)
    requires
        header_content(line) == Some("BoardsPerPage "@ + v),
        split(trim(v), ',').len() >= 2,
        lower(trim(split(trim(v), ',')[0])) == "fit"@,
        parse_unsigned_spec(trim(split(trim(v), ',')[1]), 10, 255) == Some(n as int),
        n >= 2,
    ensures
        headers_meta(lines.push(line)).boards_per_page == Some(n),
        headers_meta(lines.push(line)).column_count == n,
{
    reveal_strlit("PBN ");
    reveal_strlit("Creator:");
    reveal_strlit("Created:");
    reveal_strlit("BoardsPerPage ");
    reveal_strlit("fit");
    let c = "BoardsPerPage "@ + v;
    assert(c[0] == 'B');
    assert(!starts_with(c, "PBN "@)) by {
        if starts_with(c, "PBN "@) {
            assert(c.take(4)[0] == 'P');
        }
    }
    assert(!starts_with(c, "Creator:"@)) by {
        if starts_with(c, "Creator:"@) {
            assert(c.take(8)[0] == 'C');
        }
    }
    assert(!starts_with(c, "Created:"@)) by {
        if starts_with(c, "Created:"@) {
            assert(c.take(8)[0] == 'C');
        }
    }
    assert(c.take(14) =~= "BoardsPerPage "@);
    assert(after(c, "BoardsPerPage "@) =~= v);
    assert(boards_per_page(trim(v)) == Some((n, true)));
    let d = DirectiveV::BoardsPerPage(n, true);
    assert(header_line(line) == Some(d));
    lemma_apply_last(lines, line, d);
}

} // verus!
