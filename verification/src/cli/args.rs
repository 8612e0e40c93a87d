//! The command line's choices, and the board list a `--boards` value names.
use vstd::prelude::*;

use crate::model::board::Board;
use crate::num::{decimal, parse_unsigned, parse_unsigned_spec, u64_decimal};
use crate::text::{append, chars_of, contains, split, split_on, string_of, trim, trim_chars};

verus! {

/// Preset margin sizes.
#[derive(Copy, Clone, Debug, PartialEq, Eq, Structural)]
pub enum MarginPreset {
    /// A quarter inch.
    Narrow,
    /// Half an inch.
    Standard,
    /// An inch.
    Wide,
}

/// Paper sizes.
#[derive(Copy, Clone, Debug, PartialEq, Eq, Structural)]
pub enum PageSize {
    Letter,
    A4,
    Legal,
}

/// Page orientation.
#[derive(Copy, Clone, Debug, PartialEq, Eq, Structural)]
pub enum Orientation {
    Portrait,
    Landscape,
}

/// Output layout style.
#[derive(Copy, Clone, Debug, PartialEq, Eq, Structural, Default)]
pub enum Layout {
    /// Hand diagram, bidding and commentary.
    #[default]
    Analysis,
    /// Bidding practice sheets for face-to-face practice.
    BiddingSheets,
    /// Declarer's plan, one deal per page.
    DeclarersPlan1up,
    /// Declarer's plan, two deals per page.
    DeclarersPlan2up,
    /// Declarer's plan practice sheets, four deals per page.
    DeclarersPlan,
    /// Board, dealer, contract, declarer and lead, six boards per page.
    DealerSummary,
}

/// What a layout adds to the output file's name.
pub open spec fn layout_suffix(l: Layout) -> Option<Seq<char>> {
    match l {
        Layout::Analysis => None,
        Layout::BiddingSheets => Some(" - Bidding Sheets"@),
        Layout::DeclarersPlan1up => Some(" - Declarers Plan"@),
        Layout::DeclarersPlan2up => Some(" - Declarers Plan 2up"@),
        Layout::DeclarersPlan => Some(" - Declarers Plan 4up"@),
        Layout::DealerSummary => Some(" - Dealer Summary"@),
    }
}

/// A layout's name, as `--layout` spells it.
pub open spec fn layout_name(l: Layout) -> Seq<char> {
    match l {
        Layout::Analysis => "analysis"@,
        Layout::BiddingSheets => "bidding-sheets"@,
        Layout::DeclarersPlan1up => "declarers-plan-1up"@,
        Layout::DeclarersPlan2up => "declarers-plan-2up"@,
        Layout::DeclarersPlan => "declarers-plan"@,
        Layout::DealerSummary => "dealer-summary"@,
    }
}

/// The layouts in the order the command line declares them.
pub open spec fn all_layouts() -> Seq<Layout> {
    seq![
        Layout::Analysis,
        Layout::BiddingSheets,
        Layout::DeclarersPlan1up,
        Layout::DeclarersPlan2up,
        Layout::DeclarersPlan,
        Layout::DealerSummary,
    ]
}

/// The first layout, in declaration order, whose name is `s`.
pub open spec fn layout_named(s: Seq<char>) -> Option<Layout> {
    if layout_name(Layout::Analysis) == s {
        Some(Layout::Analysis)
    } else if layout_name(Layout::BiddingSheets) == s {
        Some(Layout::BiddingSheets)
    } else if layout_name(Layout::DeclarersPlan1up) == s {
        Some(Layout::DeclarersPlan1up)
    } else if layout_name(Layout::DeclarersPlan2up) == s {
        Some(Layout::DeclarersPlan2up)
    } else if layout_name(Layout::DeclarersPlan) == s {
        Some(Layout::DeclarersPlan)
    } else if layout_name(Layout::DealerSummary) == s {
        Some(Layout::DealerSummary)
    } else {
        None
    }
}

/// The message a layout name that names none gets.
pub open spec fn unknown_layout_message(s: Seq<char>) -> Seq<char> {
    "unknown layout '"@ + s
        + "' (expected one of: analysis, bidding-sheets, declarers-plan-1up, declarers-plan-2up, declarers-plan, dealer-summary)"@
}

impl Layout {
    /// Every layout, in the order the command line declares them.
    pub const ALL: [Layout; 6] = [
        Layout::Analysis,
        Layout::BiddingSheets,
        Layout::DeclarersPlan1up,
        Layout::DeclarersPlan2up,
        Layout::DeclarersPlan,
        Layout::DealerSummary,
    ];

    /// What the layout adds to the output file's name, before `.pdf`.
    pub fn output_suffix(&self) -> (r: Option<&'static str>)
        ensures
            match layout_suffix(*self) {
                Some(x) => r matches Some(s) && s@ == x,
                None => r is None,
            },
    {
        match self {
            Layout::Analysis => None,
            Layout::BiddingSheets => Some(" - Bidding Sheets"),
            Layout::DeclarersPlan1up => Some(" - Declarers Plan"),
            Layout::DeclarersPlan2up => Some(" - Declarers Plan 2up"),
            Layout::DeclarersPlan => Some(" - Declarers Plan 4up"),
            Layout::DealerSummary => Some(" - Dealer Summary"),
        }
    }

    /// Whether this is one of the declarer's plan layouts.
    pub fn is_declarers_plan(&self) -> (b: bool)
        ensures
            b == (*self == Layout::DeclarersPlan || *self == Layout::DeclarersPlan1up || *self
                == Layout::DeclarersPlan2up),
    {
        matches!(self, Layout::DeclarersPlan | Layout::DeclarersPlan1up | Layout::DeclarersPlan2up)
    }

    /// How many boards a preview of the layout renders: what fills its first
    /// page, or for bidding sheets, whose pages hold as many auctions as fit,
    /// a sample of five.
    pub fn preview_boards(&self) -> (n: u32)
        ensures
            n == (match *self {
                Layout::Analysis => 1u32,
                Layout::BiddingSheets => 5,
                Layout::DeclarersPlan1up => 1,
                Layout::DeclarersPlan2up => 2,
                Layout::DeclarersPlan => 4,
                Layout::DealerSummary => 6,
            }),
    {
        match self {
            Layout::Analysis => 1,
            Layout::BiddingSheets => 5,
            Layout::DeclarersPlan1up => 1,
            Layout::DeclarersPlan2up => 2,
            Layout::DeclarersPlan => 4,
            Layout::DealerSummary => 6,
        }
    }

    /// The layout's name, as `--layout` spells it.
    pub fn as_str(&self) -> (r: &'static str)
        ensures
            r@ == layout_name(*self),
    {
        match self {
            Layout::Analysis => "analysis",
            Layout::BiddingSheets => "bidding-sheets",
            Layout::DeclarersPlan1up => "declarers-plan-1up",
            Layout::DeclarersPlan2up => "declarers-plan-2up",
            Layout::DeclarersPlan => "declarers-plan",
            Layout::DealerSummary => "dealer-summary",
        }
    }

    /// The layout named `s` (see [`layout_named`]), or the message that
    /// lists the names there are.
    pub fn from_name(s: &str) -> (r: Result<Layout, String>)
        ensures
            match layout_named(s@) {
                Some(l) => r matches Ok(x) && x == l,
                None => r matches Err(m) && m@ == unknown_layout_message(s@),
            },
    {
        let cs = chars_of(s);
        let mut i: usize = 0;
        while i < 6
            invariant
                i <= 6,
                cs@ == s@,
                forall|j: int| 0 <= j < i ==> layout_name(#[trigger] all_layouts()[j]) != s@,
            decreases 6 - i,
        {
            let l = Self::ALL[i];
            assert(l == all_layouts()[i as int]);
            let name = chars_of(l.as_str());
            if crate::num::same(&name, &cs) {
                assert(forall|j: int| 0 <= j < i ==> layout_name(#[trigger] all_layouts()[j]) != s@);
                return Ok(l);
            }
            i += 1;
        }
        assert(layout_name(all_layouts()[0]) != s@ && layout_name(all_layouts()[1]) != s@);
        assert(layout_name(all_layouts()[2]) != s@ && layout_name(all_layouts()[3]) != s@);
        assert(layout_name(all_layouts()[4]) != s@ && layout_name(all_layouts()[5]) != s@);
        let mut m = chars_of("unknown layout '");
        append(&mut m, &cs);
        let tail = chars_of(
            "' (expected one of: analysis, bidding-sheets, declarers-plan-1up, declarers-plan-2up, declarers-plan, dealer-summary)",
        );
        append(&mut m, &tail);
        Err(string_of(&m))
    }
}

/// A layout's name reads back as that layout: the names are distinct, so
/// [`Layout::from_name`] of [`Layout::as_str`] gives the layout back.
pub proof fn layout_names_round_trip(l: Layout)
    ensures
        layout_named(layout_name(l)) == Some(l),
{
    reveal_strlit("analysis");
    reveal_strlit("bidding-sheets");
    reveal_strlit("declarers-plan-1up");
    reveal_strlit("declarers-plan-2up");
    reveal_strlit("declarers-plan");
    reveal_strlit("dealer-summary");
    let a = "analysis"@;
    let b = "bidding-sheets"@;
    let p1 = "declarers-plan-1up"@;
    let p2 = "declarers-plan-2up"@;
    let p4 = "declarers-plan"@;
    let d = "dealer-summary"@;
    assert(a.len() == 8 && b.len() == 14 && p1.len() == 18 && p2.len() == 18);
    assert(p4.len() == 14 && d.len() == 14);
    assert(p1[15] != p2[15]);
    assert(b[0] != p4[0] && b[0] != d[0] && p4[2] != d[2]);
}

impl std::str::FromStr for Layout {
    type Err = String;

    fn from_str(s: &str) -> (r: Result<Self, Self::Err>)
        ensures
            match layout_named(s@) {
                Some(l) => r matches Ok(x) && x == l,
                None => r matches Err(m) && m@ == unknown_layout_message(s@),
            },
    {
        Layout::from_name(s)
    }
}

/// Flags that library callers pass through to the declarer's plan layouts:
/// which analysed cards to circle.
#[derive(Clone, Copy, Debug, Default, PartialEq, Eq)]
pub struct RenderOptions {
    /// Circle sure winners in red (first in priority).
    pub circle_sure_winners: bool,
    /// Circle promotable winners in green (second).
    pub circle_promotable_winners: bool,
    /// Circle length winners in blue (third).
    pub circle_length_winners: bool,
}

/// The command line, as the program reads it.
#[derive(Clone, Debug)]
pub struct Args {
    /// Input PBN file path.
    pub input: String,
    /// Output PDF file path; by default the input's, with a `.pdf` name.
    pub output: Option<String>,
    /// Boards per page (1, 2 or 4).
    pub boards_per_page: u8,
    pub page_size: PageSize,
    pub orientation: Orientation,
    pub layout: Layout,
    /// Hide the bidding table.
    pub no_bidding: bool,
    /// Hide the play.
    pub no_play: bool,
    /// Hide commentary.
    pub no_commentary: bool,
    /// Hide point counts.
    pub no_hcp: bool,
    /// Boards to include, as `1-16` or `5,8,12`.
    pub boards: Option<String>,
    /// Page margins, overriding the file's `%Margins`.
    pub margins: Option<MarginPreset>,
    /// Draw boxes round the layout's regions.
    pub debug_boxes: bool,
    pub circle_sure_winners: bool,
    pub circle_promotable_winners: bool,
    pub circle_length_winners: bool,
    /// Title for the bidding sheets' banner; empty hides it.
    pub title: Option<String>,
    /// How much to log.
    pub verbose: u8,
}

/// What `Path::file_stem` gives for `p`, converted lossily to text (empty
/// when there is none). Like the two names below, it reads paths by the
/// separators of the platform the crate is built for, fixed when it is
/// compiled.
pub uninterp spec fn path_stem(p: Seq<char>) -> Seq<char>;

/// What `Path::parent` gives for `p`, as text.
pub uninterp spec fn path_parent(p: Seq<char>) -> Option<Seq<char>>;

/// What `Path::join` gives for `dir` and `name`, as text.
pub uninterp spec fn path_join(dir: Seq<char>, name: Seq<char>) -> Seq<char>;

/// `Path::file_stem`, with no stem read as empty and the stem converted
/// lossily to text. The result is named, not stated.
#[verifier::external_body]
fn file_stem_of(p: &str) -> (r: String)
    ensures
        r@ == path_stem(p@),
{
    std::path::Path::new(p).file_stem().unwrap_or_default().to_string_lossy().into_owned()
}

/// `Path::parent`, as text. The result is named, not stated.
#[verifier::external_body]
fn parent_of(p: &str) -> (r: Option<String>)
    ensures
        match path_parent(p@) {
            Some(x) => r matches Some(s) && s@ == x,
            None => r is None,
        },
{
    std::path::Path::new(p).parent().map(|d| d.to_string_lossy().into_owned())
}

/// `Path::join`, as text. The result is named, not stated.
#[verifier::external_body]
fn join_path(dir: &str, name: &str) -> (r: String)
    ensures
        r@ == path_join(dir@, name@),
{
    std::path::Path::new(dir).join(name).to_string_lossy().into_owned()
}

/// The name of the output file for input `input` under `layout`: the input's
/// stem, the layout's suffix, and `.pdf`.
pub open spec fn output_name(stem: Seq<char>, layout: Layout) -> Seq<char> {
    stem + match layout_suffix(layout) {
        Some(x) => x,
        None => seq![],
    } + ".pdf"@
}

/// The output path the arguments choose: `--output` when given; else a file
/// beside the input, named by [`output_name`].
pub open spec fn output_path_of(input: Seq<char>, output: Option<Seq<char>>, layout: Layout) -> Seq<
    char,
> {
    match output {
        Some(o) => o,
        None => {
            let name = output_name(path_stem(input), layout);
            match path_parent(input) {
                Some(d) => path_join(d, name),
                None => name,
            }
        },
    }
}

/// The path the input's output would have, given its stem and parent as
/// `Path` reads them: a file beside the input, named by [`output_name`].
pub fn output_path_from(stem: &str, parent: Option<&str>, layout: Layout) -> (r: String)
    ensures
        r@ == (match parent {
            Some(d) => path_join(d@, output_name(stem@, layout)),
            None => output_name(stem@, layout),
        }),
{
    let mut name = chars_of(stem);
    match layout.output_suffix() {
        Some(x) => append(&mut name, &chars_of(x)),
        None => {},
    }
    append(&mut name, &chars_of(".pdf"));
    assert(name@ =~= output_name(stem@, layout));
    let n = string_of(&name);
    match parent {
        Some(d) => join_path(d, n.as_str()),
        None => n,
    }
}

impl Args {
    /// The output path (see [`output_path_of`]).
    pub fn output_path(&self) -> (r: String)
        ensures
            r@ == output_path_of(
                self.input@,
                match self.output {
                    Some(o) => Some(o@),
                    None => None,
                },
                self.layout,
            ),
    {
        match &self.output {
            Some(o) => string_of(&chars_of(o.as_str())),
            None => {
                let stem = file_stem_of(self.input.as_str());
                match parent_of(self.input.as_str()) {
                    Some(d) => output_path_from(stem.as_str(), Some(d.as_str()), self.layout),
                    None => output_path_from(stem.as_str(), None, self.layout),
                }
            },
        }
    }

    /// Whether to show the bidding.
    pub fn show_bidding(&self) -> (b: bool)
        ensures
            b == !self.no_bidding,
    {
        !self.no_bidding
    }

    /// Whether to show the play.
    pub fn show_play(&self) -> (b: bool)
        ensures
            b == !self.no_play,
    {
        !self.no_play
    }

    /// Whether to show commentary.
    pub fn show_commentary(&self) -> (b: bool)
        ensures
            b == !self.no_commentary,
    {
        !self.no_commentary
    }

    /// Whether to show point counts.
    pub fn show_hcp(&self) -> (b: bool)
        ensures
            b == !self.no_hcp,
    {
        !self.no_hcp
    }
}

/// The boards `a` to `b`, in order.
pub open spec fn board_span(a: int, b: int) -> Seq<u32> {
    Seq::new((b - a + 1) as nat, |i: int| (a + i) as u32)
}

/// What `str::parse::<u32>` reads from `s`.
pub open spec fn u32_of(s: Seq<char>) -> Option<int> {
    parse_unsigned_spec(s, 10, 0xffff_ffff)
}

/// The boards one trimmed part of a `--boards` value names: `a-b` for `a` to
/// `b`, or a single number.
pub open spec fn board_part(q: Seq<char>) -> Result<Seq<u32>, Seq<char>> {
    if contains(q, seq!['-']) {
        let ps = split(q, '-');
        if ps.len() != 2 {
            Err("Invalid range: "@ + q)
        } else {
            match u32_of(trim(ps[0])) {
                None => Err("Invalid number: "@ + ps[0]),
                Some(a) => match u32_of(trim(ps[1])) {
                    None => Err("Invalid number: "@ + ps[1]),
                    Some(b) => {
                        if a > b {
                            Err("Invalid range: "@ + decimal(a as nat) + " > "@ + decimal(b as nat))
                        } else {
                            Ok(board_span(a, b))
                        }
                    },
                },
            }
        }
    } else {
        match u32_of(q) {
            Some(n) => Ok(seq![n as u32]),
            None => Err("Invalid number: "@ + q),
        }
    }
}

/// The boards the parts `ps` name, in order; the first part that is wrong
/// gives the error.
pub open spec fn board_parts(ps: Seq<Seq<char>>) -> Result<Seq<u32>, Seq<char>>
    decreases ps.len(),
{
    if ps.len() == 0 {
        Ok(seq![])
    } else {
        match board_parts(ps.drop_last()) {
            Ok(v) => match board_part(trim(ps.last())) {
                Ok(w) => Ok(v + w),
                Err(e) => Err(e),
            },
            Err(e) => Err(e),
        }
    }
}

/// The boards a `--boards` value names: its comma-separated parts in order.
pub open spec fn board_list(spec: Seq<char>) -> Result<Seq<u32>, Seq<char>> {
    board_parts(split(spec, ','))
}

fn message(head: &str, tail: &[char]) -> (m: String)
    ensures
        m@ == head@ + tail@,
{
    let mut v = chars_of(head);
    append(&mut v, tail);
    string_of(&v)
}

fn read_u32(s: &[char]) -> (r: Option<u32>)
    ensures
        r matches Some(v) ==> u32_of(s@) == Some(v as int),
        r is None ==> u32_of(s@) is None,
{
    match parse_unsigned(s, 10, 0xffff_ffff) {
        Some(v) => Some(v as u32),
        None => None,
    }
}

fn push_span(boards: &mut Vec<u32>, a: u32, b: u32)
    requires
        a <= b,
    ensures
        final(boards)@ == old(boards)@ + board_span(a as int, b as int),
{
    let ghost start = boards@;
    let mut i: u64 = a as u64;
    while i <= b as u64
        invariant
            a <= i <= b as u64 + 1,
            boards@ == start + board_span(a as int, i - 1),
        decreases b as u64 + 1 - i,
    {
        boards.push(i as u32);
        i += 1;
        assert(boards@ =~= start + board_span(a as int, i - 1));
    }
}

fn board_part_of(q: &[char], boards: &mut Vec<u32>) -> (r: Option<String>)
    ensures
        match board_part(q@) {
            Ok(w) => r is None && final(boards)@ == old(boards)@ + w,
            Err(e) => r matches Some(m) && m@ == e,
        },
{
    let dash = ['-'];
    assert(dash@ =~= seq!['-']);
    if crate::text::contains_chars(q, &dash) {
        let ps = split_on(q, '-');
        let ghost pv = ps@.map_values(|v: Vec<char>| v@);
        if ps.len() != 2 {
            return Some(message("Invalid range: ", q));
        }
        assert(pv[0] == ps@[0]@ && pv[1] == ps@[1]@);
        let a = match read_u32(&trim_chars(&ps[0])) {
            Some(a) => a,
            None => {
                return Some(message("Invalid number: ", &ps[0]));
            },
        };
        let b = match read_u32(&trim_chars(&ps[1])) {
            Some(b) => b,
            None => {
                return Some(message("Invalid number: ", &ps[1]));
            },
        };
        if a > b {
            let mut v = u64_decimal(a as u64);
            append(&mut v, &chars_of(" > "));
            append(&mut v, &u64_decimal(b as u64));
            let m = message("Invalid range: ", &v);
            assert(m@ =~= "Invalid range: "@ + decimal(a as nat) + " > "@ + decimal(b as nat));
            return Some(m);
        }
        push_span(boards, a, b);
        None
    } else {
        match read_u32(q) {
            Some(n) => {
                let ghost before = boards@;
                boards.push(n);
                assert(boards@ =~= before + seq![n]);
                None
            },
            None => Some(message("Invalid number: ", q)),
        }
    }
}

/// The boards a `--boards` value such as `1-16` or `5,8,12` names (see
/// [`board_list`]).
pub fn parse_board_range(spec: &str) -> (r: Result<Vec<u32>, String>)
    ensures
        match board_list(spec@) {
            Ok(v) => r matches Ok(b) && b@ == v,
            Err(e) => r matches Err(m) && m@ == e,
        },
{
    let parts = split_on(&chars_of(spec), ',');
    let ghost ps = parts@.map_values(|v: Vec<char>| v@);
    let mut boards: Vec<u32> = Vec::new();
    let mut i: usize = 0;
    assert(ps.take(0) =~= Seq::<Seq<char>>::empty());
    while i < parts.len()
        invariant
            i <= parts@.len(),
            ps == parts@.map_values(|v: Vec<char>| v@),
            ps == split(spec@, ','),
            board_parts(ps.take(i as int)) == Ok::<Seq<u32>, Seq<char>>(boards@),
        decreases parts.len() - i,
    {
        assert(ps.take(i + 1).drop_last() =~= ps.take(i as int));
        assert(ps.take(i + 1).last() == parts@[i as int]@);
        let q = trim_chars(&parts[i]);
        match board_part_of(&q, &mut boards) {
            Some(m) => {
                proof {
                    lemma_board_parts_err(ps, i + 1);
                }
                return Err(m);
            },
            None => {},
        }
        i += 1;
    }
    assert(ps.take(i as int) =~= ps);
    Ok(boards)
}

proof fn lemma_board_parts_err(ps: Seq<Seq<char>>, i: int)
    requires
        0 <= i <= ps.len(),
        board_parts(ps.take(i)) is Err,
    ensures
        board_parts(ps) == board_parts(ps.take(i)),
    decreases ps.len() - i,
{
    if i < ps.len() {
        assert(ps.take(i + 1).drop_last() =~= ps.take(i));
        lemma_board_parts_err(ps, i + 1);
    } else {
        assert(ps.take(i) =~= ps);
    }
}

/// The boards of `bs` whose number `allowed` lists, in their order; a board
/// without a number is never kept.
pub open spec fn kept_boards(bs: Seq<Board>, allowed: Seq<u32>) -> Seq<Board>
    decreases bs.len(),
{
    if bs.len() == 0 {
        seq![]
    } else {
        let rest = kept_boards(bs.drop_last(), allowed);
        match bs.last().number {
            Some(n) => if allowed.contains(n) {
                rest.push(bs.last())
            } else {
                rest
            },
            None => rest,
        }
    }
}

fn lists_number(allowed: &Vec<u32>, n: u32) -> (r: bool)
    ensures
        r == allowed@.contains(n),
{
    let mut i: usize = 0;
    while i < allowed.len()
        invariant
            i <= allowed@.len(),
            forall|k: int| 0 <= k < i ==> allowed@[k] != n,
        decreases allowed.len() - i,
    {
        if allowed[i] == n {
            assert(allowed@[i as int] == n);
            return true;
        }
        i += 1;
    }
    false
}

/// The boards whose number is in `allowed` (as `--boards` lists them), in
/// their original order.
pub fn boards_in_range(boards: Vec<Board>, allowed: &Vec<u32>) -> (r: Vec<Board>)
    ensures
        r@ == kept_boards(boards@, allowed@),
{
    let ghost orig = boards@;
    let total = boards.len();
    assert(orig.len() == total);
    let mut rest = boards;
    let mut kept: Vec<Board> = Vec::new();
    let mut i: usize = 0;
    assert(orig.skip(0) =~= orig);
    assert(orig.take(0) =~= Seq::<Board>::empty());
    while rest.len() > 0
        invariant
            i <= orig.len(),
            orig.len() <= usize::MAX,
            rest@ == orig.skip(i as int),
            kept@ == kept_boards(orig.take(i as int), allowed@),
        decreases rest.len(),
    {
        let b = rest.remove(0);
        assert(b == orig[i as int]);
        assert(orig.take(i + 1).drop_last() =~= orig.take(i as int));
        assert(orig.take(i + 1).last() == b);
        let keep = match b.number {
            Some(n) => lists_number(allowed, n),
            None => false,
        };
        if keep {
            kept.push(b);
        }
        assert(rest@ =~= orig.skip(i + 1));
        i += 1;
    }
    assert(orig.take(i as int) =~= orig);
    kept
}

} // verus!
