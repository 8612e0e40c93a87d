//! Reading PDF content streams: which tokens are numbers, which named
//! resources a stream refers to, and the rounding of path coordinates.
use crate::render::pdf_document::{
    add_empty_stream, compress_document, content_at, empty_form_object, entry_of, has_object,
    holder_key, holder_resources, is_dictionary, is_dictionary_at, load_pdf, max_object_number,
    object_ids, pdf_loads, pdf_max_id, pdf_objects, pdf_written, compressed_objects, resource_keys, resources_at, resources_at_spec,
    save_document, set_empty_category, set_empty_inline_resources, set_plain_content, set_resource,
    stream_content, stream_subtype, subtype_at, with_holder_resources, Holder, NewResource,
    PdfObject, ResourceEntry, ResourceMap, ResourcesAt,
};
use vstd::prelude::*;

verus! {

/// A byte that is an ASCII digit.
pub open spec fn is_digit_byte(b: u8) -> bool {
    0x30 <= b <= 0x39
}

/// The token without one leading sign.
pub open spec fn unsigned_body(t: Seq<u8>) -> Seq<u8> {
    if t.len() > 0 && (t[0] == 0x2b || t[0] == 0x2d) {
        t.drop_first()
    } else {
        t
    }
}

/// How many bytes of `s` are `b`.
pub open spec fn count_byte(s: Seq<u8>, b: u8) -> int
    decreases s.len(),
{
    if s.len() == 0 {
        0
    } else {
        count_byte(s.drop_last(), b) + if s.last() == b {
            1int
        } else {
            0
        }
    }
}

/// A PDF number: an optional sign, then digits with at most one `.` among
/// them, and at least one digit.
pub open spec fn pdf_number(t: Seq<u8>) -> bool {
    let body = unsigned_body(t);
    &&& body.len() > 0
    &&& forall|i: int| 0 <= i < body.len() ==> is_digit_byte(#[trigger] body[i]) || body[i] == 0x2e
    &&& count_byte(body, 0x2e) <= 1
    &&& exists|i: int| 0 <= i < body.len() && is_digit_byte(#[trigger] body[i])
}

/// Whether a content-stream token is a number (see [`pdf_number`]).
pub fn is_number(token: &[u8]) -> (b: bool)
    ensures
        b == pdf_number(token@),
{
    let start: usize = if token.len() > 0 && (token[0] == 0x2b || token[0] == 0x2d) {
        1
    } else {
        0
    };
    let ghost body = unsigned_body(token@);
    assert(body =~= token@.skip(start as int));
    if start == token.len() {
        return false;
    }
    let mut dots: usize = 0;
    let mut digit = false;
    let mut i = start;
    assert(token@.subrange(start as int, start as int) =~= Seq::<u8>::empty());
    while i < token.len()
        invariant
            start <= i <= token@.len(),
            body == token@.skip(start as int),
            body == unsigned_body(token@),
            forall|j: int| start <= j < i ==> is_digit_byte(#[trigger] token@[j]) || token@[j] == 0x2e,
            dots == count_byte(token@.subrange(start as int, i as int), 0x2e),
            dots <= i - start,
            digit == exists|j: int| start <= j < i && is_digit_byte(#[trigger] token@[j]),
        decreases token.len() - i,
    {
        let c = token[i];
        assert(token@.subrange(start as int, i + 1).drop_last() =~= token@.subrange(start as int, i as int));
        if c == 0x2e {
            dots += 1;
        } else if 0x30 <= c && c <= 0x39 {
            digit = true;
        } else {
            assert(!(is_digit_byte(unsigned_body(token@)[i - start]) || unsigned_body(token@)[i
                - start] == 0x2e));
            assert(!pdf_number(token@));
            return false;
        }
        i += 1;
    }
    assert(token@.subrange(start as int, i as int) =~= body);
    assert(forall|j: int| 0 <= j < body.len() ==> body[j] == token@[j + start]);
    if digit {
        let ghost j = choose|j: int| start <= j < i && is_digit_byte(#[trigger] token@[j]);
        assert(is_digit_byte(body[j - start]));
    }
    dots <= 1 && digit
}

/// `u8::is_ascii_whitespace`: space, tab, line feed, form feed, carriage
/// return.
pub open spec fn ascii_ws_byte(b: u8) -> bool {
    b == 0x20 || b == 0x09 || b == 0x0a || b == 0x0c || b == 0x0d
}

/// A regular PDF byte: neither whitespace nor a delimiter `()<>[]{}/%`.
pub open spec fn pdf_regular(b: u8) -> bool {
    !ascii_ws_byte(b) && b != 0x28 && b != 0x29 && b != 0x3c && b != 0x3e && b != 0x5b && b
        != 0x5d && b != 0x7b && b != 0x7d && b != 0x2f && b != 0x25
}

/// Where the run of regular bytes from `i` ends.
pub open spec fn regular_end(s: Seq<u8>, i: int) -> int
    decreases s.len() - i,
{
    if i < 0 || i >= s.len() || !pdf_regular(s[i]) {
        i
    } else {
        regular_end(s, i + 1)
    }
}

/// Where the run of whitespace from `i` ends.
pub open spec fn space_end(s: Seq<u8>, i: int) -> int
    decreases s.len() - i,
{
    if i < 0 || i >= s.len() || !ascii_ws_byte(s[i]) {
        i
    } else {
        space_end(s, i + 1)
    }
}

pub proof fn lemma_run_ends(s: Seq<u8>, i: int)
    requires
        0 <= i <= s.len(),
    ensures
        i <= regular_end(s, i) <= s.len(),
        i <= space_end(s, i) <= s.len(),
    decreases s.len() - i,
{
    if i < s.len() {
        lemma_run_ends(s, i + 1);
    }
}

/// The `/name op` pairs of a content stream from position `i`: after each
/// `/`, the run of regular bytes that names something, then past any
/// whitespace the run that follows, which may be the operator using it. The
/// scan goes on right after the name.
pub open spec fn name_refs(s: Seq<u8>, i: int) -> Seq<(Seq<u8>, Seq<u8>)>
    decreases s.len() - i,
{
    if i < 0 || i >= s.len() {
        seq![]
    } else if s[i] != 0x2f {
        name_refs(s, i + 1)
    } else {
        proof {
            lemma_run_ends(s, i + 1);
        }
        let ne = regular_end(s, i + 1);
        proof {
            lemma_run_ends(s, ne);
        }
        let os = space_end(s, ne);
        proof {
            lemma_run_ends(s, os);
        }
        let oe = regular_end(s, os);
        seq![(s.subrange(i + 1, ne), s.subrange(os, oe))] + name_refs(s, ne)
    }
}

/// The nonempty names of `refs` whose operator `op` accepts.
pub open spec fn names_used(refs: Seq<(Seq<u8>, Seq<u8>)>, op: spec_fn(Seq<u8>) -> bool) -> Set<Seq<u8>> {
    Set::new(|n: Seq<u8>| exists|k: int| 0 <= k < refs.len() && #[trigger] refs[k].0 == n && n.len() > 0 && op(refs[k].1))
}

/// `cs` or `CS`: a color space is selected.
pub open spec fn color_space_op(op: Seq<u8>) -> bool {
    op == seq![0x63u8, 0x73u8] || op == seq![0x43u8, 0x53u8]
}

/// `gs`: a graphics state is applied.
pub open spec fn ext_g_state_op(op: Seq<u8>) -> bool {
    op == seq![0x67u8, 0x73u8]
}

/// `Do`: an XObject is drawn.
pub open spec fn xobject_op(op: Seq<u8>) -> bool {
    op == seq![0x44u8, 0x6fu8]
}

/// The names of the resources a content stream refers to, each once, by the
/// category the referring operator implies.
#[derive(Clone, Debug)]
pub struct ReferencedNames {
    /// `/name cs` or `/name CS`.
    pub color_spaces: Vec<Vec<u8>>,
    /// `/name gs`.
    pub ext_g_states: Vec<Vec<u8>>,
    /// `/name Do`.
    pub xobjects: Vec<Vec<u8>>,
}

/// The names `v` holds, as byte sequences.
pub open spec fn name_set(v: Seq<Vec<u8>>) -> Set<Seq<u8>> {
    Set::new(|n: Seq<u8>| exists|k: int| 0 <= k < v.len() && #[trigger] v[k]@ == n)
}

/// No name occurs twice in `v`.
pub open spec fn each_once(v: Seq<Vec<u8>>) -> bool {
    forall|i: int, j: int| 0 <= i < j < v.len() ==> #[trigger] v[i]@ != #[trigger] v[j]@
}

fn add_name(v: &mut Vec<Vec<u8>>, name: &[u8])
    requires
        each_once(old(v)@),
    ensures
        each_once(final(v)@),
        name_set(final(v)@) == name_set(old(v)@).insert(name@),
{
    let mut i: usize = 0;
    while i < v.len()
        invariant
            i <= v@.len(),
            each_once(v@),
            forall|j: int| 0 <= j < i ==> v@[j]@ != name@,
        decreases v.len() - i,
    {
        if same_bytes(&v[i], name) {
            assert(name_set(v@).insert(name@) =~= name_set(v@)) by {
                assert(name_set(v@).contains(name@)) by {
                    assert(v@[i as int]@ == name@);
                }
            }
            return;
        }
        i += 1;
    }
    let ghost before = v@;
    let mut copy: Vec<u8> = Vec::new();
    let mut k: usize = 0;
    while k < name.len()
        invariant
            k <= name@.len(),
            copy@ == name@.take(k as int),
        decreases name.len() - k,
    {
        copy.push(name[k]);
        k += 1;
        assert(copy@ =~= name@.take(k as int));
    }
    assert(name@.take(k as int) =~= name@);
    v.push(copy);
    assert(name_set(v@) =~= name_set(before).insert(name@)) by {
        assert forall|n: Seq<u8>| name_set(v@).contains(n) <==> name_set(before).insert(name@).contains(n) by {
            if name_set(v@).contains(n) {
                let k2 = choose|k2: int| 0 <= k2 < v@.len() && #[trigger] v@[k2]@ == n;
                if k2 < before.len() {
                    assert(before[k2]@ == n);
                }
            }
            if name_set(before).contains(n) {
                let k2 = choose|k2: int| 0 <= k2 < before.len() && #[trigger] before[k2]@ == n;
                assert(v@[k2]@ == n);
            }
            if n == name@ {
                assert(v@[before.len() as int]@ == n);
            }
        }
    }
}

fn same_bytes(a: &[u8], b: &[u8]) -> (r: bool)
    ensures
        r == (a@ == b@),
{
    if a.len() != b.len() {
        return false;
    }
    let mut i: usize = 0;
    while i < a.len()
        invariant
            i <= a@.len(),
            a@.len() == b@.len(),
            forall|j: int| 0 <= j < i ==> a@[j] == b@[j],
        decreases a.len() - i,
    {
        if a[i] != b[i] {
            return false;
        }
        i += 1;
    }
    assert(a@ =~= b@);
    true
}

fn is_regular_byte(b: u8) -> (r: bool)
    ensures
        r == pdf_regular(b),
{
    !(b == 0x20 || b == 0x09 || b == 0x0a || b == 0x0c || b == 0x0d) && b != 0x28 && b != 0x29 && b
        != 0x3c && b != 0x3e && b != 0x5b && b != 0x5d && b != 0x7b && b != 0x7d && b != 0x2f && b
        != 0x25
}

fn regular_end_of(s: &[u8], i: usize) -> (e: usize)
    requires
        i <= s@.len(),
    ensures
        e == regular_end(s@, i as int),
{
    let mut j = i;
    while j < s.len() && is_regular_byte(s[j])
        invariant
            i <= j <= s@.len(),
            regular_end(s@, i as int) == regular_end(s@, j as int),
        decreases s.len() - j,
    {
        j += 1;
    }
    j
}

fn space_end_of(s: &[u8], i: usize) -> (e: usize)
    requires
        i <= s@.len(),
    ensures
        e == space_end(s@, i as int),
{
    let mut j = i;
    while j < s.len() && (s[j] == 0x20 || s[j] == 0x09 || s[j] == 0x0a || s[j] == 0x0c || s[j] == 0x0d)
        invariant
            i <= j <= s@.len(),
            space_end(s@, i as int) == space_end(s@, j as int),
        decreases s.len() - j,
    {
        j += 1;
    }
    j
}

proof fn lemma_names_used_push(
    refs: Seq<(Seq<u8>, Seq<u8>)>,
    r: (Seq<u8>, Seq<u8>),
    op: spec_fn(Seq<u8>) -> bool,
)
    ensures
        names_used(refs.push(r), op) == if r.0.len() > 0 && op(r.1) {
            names_used(refs, op).insert(r.0)
        } else {
            names_used(refs, op)
        },
{
    let p = refs.push(r);
    let want = if r.0.len() > 0 && op(r.1) {
        names_used(refs, op).insert(r.0)
    } else {
        names_used(refs, op)
    };
    assert forall|n: Seq<u8>| names_used(p, op).contains(n) <==> want.contains(n) by {
        if names_used(p, op).contains(n) {
            let k = choose|k: int| 0 <= k < p.len() && #[trigger] p[k].0 == n && n.len() > 0 && op(p[k].1);
            if k < refs.len() {
                assert(refs[k].0 == n);
            }
        }
        if names_used(refs, op).contains(n) {
            let k = choose|k: int| 0 <= k < refs.len() && #[trigger] refs[k].0 == n && n.len() > 0 && op(refs[k].1);
            assert(p[k].0 == n);
        }
        if r.0.len() > 0 && op(r.1) && n == r.0 {
            assert(p[refs.len() as int].0 == n);
        }
    }
    assert(names_used(p, op) =~= want);
}

proof fn lemma_name_refs_skip(s: Seq<u8>, i: int)
    requires
        0 <= i < s.len(),
        s[i] != 0x2f,
    ensures
        name_refs(s, i) == name_refs(s, i + 1),
{
}

/// The resource names a content stream refers to, by category (see
/// [`name_refs`]): `cs`/`CS` color spaces, `gs` graphics states, `Do`
/// XObjects.
pub fn referenced_resource_names(content: &[u8]) -> (r: ReferencedNames)
    ensures
        name_set(r.color_spaces@) == names_used(name_refs(content@, 0), |op: Seq<u8>| color_space_op(op)),
        name_set(r.ext_g_states@) == names_used(name_refs(content@, 0), |op: Seq<u8>| ext_g_state_op(op)),
        name_set(r.xobjects@) == names_used(name_refs(content@, 0), |op: Seq<u8>| xobject_op(op)),
        each_once(r.color_spaces@) && each_once(r.ext_g_states@) && each_once(r.xobjects@),
{
    let ghost all = name_refs(content@, 0);
    let ghost fc = |op: Seq<u8>| color_space_op(op);
    let ghost fg = |op: Seq<u8>| ext_g_state_op(op);
    let ghost fx = |op: Seq<u8>| xobject_op(op);
    let mut names = ReferencedNames { color_spaces: Vec::new(), ext_g_states: Vec::new(), xobjects: Vec::new() };
    let ghost mut done: Seq<(Seq<u8>, Seq<u8>)> = seq![];
    assert(name_set(names.color_spaces@) =~= names_used(done, fc));
    assert(name_set(names.ext_g_states@) =~= names_used(done, fg));
    assert(name_set(names.xobjects@) =~= names_used(done, fx));
    let mut i: usize = 0;
    while i < content.len()
        invariant
            i <= content@.len(),
            all == name_refs(content@, 0),
            all == done + name_refs(content@, i as int),
            fc == (|op: Seq<u8>| color_space_op(op)),
            fg == (|op: Seq<u8>| ext_g_state_op(op)),
            fx == (|op: Seq<u8>| xobject_op(op)),
            name_set(names.color_spaces@) == names_used(done, fc),
            name_set(names.ext_g_states@) == names_used(done, fg),
            name_set(names.xobjects@) == names_used(done, fx),
            each_once(names.color_spaces@) && each_once(names.ext_g_states@) && each_once(names.xobjects@),
        decreases content.len() - i,
    {
        if content[i] != 0x2f {
            proof {
                lemma_name_refs_skip(content@, i as int);
            }
            i += 1;
            continue;
        }
        let ns = i + 1;
        let ne = regular_end_of(content, ns);
        proof {
            lemma_run_ends(content@, ns as int);
            lemma_run_ends(content@, ne as int);
        }
        let os = space_end_of(content, ne);
        proof {
            lemma_run_ends(content@, os as int);
        }
        let oe = regular_end_of(content, os);
        let ghost r = (content@.subrange(ns as int, ne as int), content@.subrange(os as int, oe as int));
        assert(name_refs(content@, i as int) == seq![r] + name_refs(content@, ne as int));
        let name = crate::render::compress::slice_bytes(content, ns, ne);
        let op = crate::render::compress::slice_bytes(content, os, oe);
        proof {
            lemma_names_used_push(done, r, fc);
            lemma_names_used_push(done, r, fg);
            lemma_names_used_push(done, r, fx);
        }
        if name.len() > 0 {
            let cs = (op.len() == 2 && op[0] == 0x63 && op[1] == 0x73) || (op.len() == 2 && op[0] == 0x43 && op[1] == 0x53);
            let gs = op.len() == 2 && op[0] == 0x67 && op[1] == 0x73;
            let xo = op.len() == 2 && op[0] == 0x44 && op[1] == 0x6f;
            proof {
                if op@.len() == 2 {
                    assert(op@ =~= seq![op@[0], op@[1]]);
                }
            }
            assert(cs == color_space_op(op@));
            assert(gs == ext_g_state_op(op@));
            assert(xo == xobject_op(op@));
            if cs {
                add_name(&mut names.color_spaces, &name);
            } else if gs {
                add_name(&mut names.ext_g_states, &name);
            } else if xo {
                add_name(&mut names.xobjects, &name);
            }
        }
        proof {
            assert(done + name_refs(content@, i as int) =~= done.push(r) + name_refs(content@, ne as int));
            done = done.push(r);
        }
        i = ne;
    }
    assert(name_refs(content@, i as int) =~= Seq::<(Seq<u8>, Seq<u8>)>::empty());
    assert(done + Seq::<(Seq<u8>, Seq<u8>)>::empty() =~= done);
    names
}

/// The bytes `s[a..b]`.
fn slice_bytes(s: &[u8], a: usize, b: usize) -> (r: Vec<u8>)
    requires
        a <= b <= s@.len(),
    ensures
        r@ == s@.subrange(a as int, b as int),
{
    let mut r: Vec<u8> = Vec::new();
    let mut i = a;
    while i < b
        invariant
            a <= i <= b <= s@.len(),
            r@ == s@.subrange(a as int, i as int),
        decreases b - i,
    {
        r.push(s[i]);
        i += 1;
        assert(r@ =~= s@.subrange(a as int, i as int));
    }
    r
}

/// Where the run of non-whitespace from `i` ends.
pub open spec fn token_end(s: Seq<u8>, i: int) -> int
    decreases s.len() - i,
{
    if i < 0 || i >= s.len() || ascii_ws_byte(s[i]) {
        i
    } else {
        token_end(s, i + 1)
    }
}

pub proof fn lemma_token_end(s: Seq<u8>, i: int)
    requires
        0 <= i <= s.len(),
    ensures
        i <= token_end(s, i) <= s.len(),
        i < s.len() && !ascii_ws_byte(s[i]) ==> i < token_end(s, i),
    decreases s.len() - i,
{
    if i < s.len() {
        lemma_token_end(s, i + 1);
    }
}

/// The whitespace-separated tokens of a content stream from position `i`.
pub open spec fn tokens_from(s: Seq<u8>, i: int) -> Seq<Seq<u8>>
    decreases s.len() - i,
{
    if i < 0 || i >= s.len() {
        seq![]
    } else if ascii_ws_byte(s[i]) {
        tokens_from(s, i + 1)
    } else {
        proof {
            lemma_token_end(s, i);
        }
        seq![s.subrange(i, token_end(s, i))] + tokens_from(s, token_end(s, i))
    }
}

/// A path-construction operator: `m`, `l`, `c`, `v`, `y` or `re`. Not `cm`,
/// whose operands scale everything drawn after it.
pub open spec fn path_operator(t: Seq<u8>) -> bool {
    t == seq![0x6du8] || t == seq![0x6cu8] || t == seq![0x63u8] || t == seq![0x76u8] || t
        == seq![0x79u8] || t == seq![0x72u8, 0x65u8]
}

/// The operands `ps`, each shortened by `sh` when `round`, each followed by a
/// space.
pub open spec fn operands_text(ps: Seq<Seq<u8>>, round: bool, sh: spec_fn(Seq<u8>) -> Seq<u8>) -> Seq<u8>
    decreases ps.len(),
{
    if ps.len() == 0 {
        seq![]
    } else {
        operands_text(ps.drop_last(), round, sh) + (if round {
            sh(ps.last())
        } else {
            ps.last()
        }) + seq![0x20u8]
    }
}

/// Rewriting the tokens `ts`: numbers wait for the operator after them; an
/// operator is written on its own line after its operands, which are
/// shortened when it constructs a path. The text so far, and the numbers
/// still waiting.
pub open spec fn rounding(ts: Seq<Seq<u8>>, sh: spec_fn(Seq<u8>) -> Seq<u8>) -> (Seq<u8>, Seq<Seq<u8>>)
    decreases ts.len(),
{
    if ts.len() == 0 {
        (seq![], seq![])
    } else {
        let st = rounding(ts.drop_last(), sh);
        let t = ts.last();
        if pdf_number(t) {
            (st.0, st.1.push(t))
        } else {
            (st.0 + operands_text(st.1, path_operator(t), sh) + t + seq![0x0au8], seq![])
        }
    }
}

/// A content stream with the operands of its path operators shortened by
/// `sh` and every other token kept as it is; numbers left at the end are
/// written unshortened.
pub open spec fn rounded_stream(s: Seq<u8>, sh: spec_fn(Seq<u8>) -> Seq<u8>) -> Seq<u8> {
    let st = rounding(tokens_from(s, 0), sh);
    st.0 + operands_text(st.1, false, sh)
}

fn token_end_of(s: &[u8], i: usize) -> (e: usize)
    requires
        i <= s@.len(),
    ensures
        e == token_end(s@, i as int),
{
    let mut j = i;
    while j < s.len() && !(s[j] == 0x20 || s[j] == 0x09 || s[j] == 0x0a || s[j] == 0x0c || s[j] == 0x0d)
        invariant
            i <= j <= s@.len(),
            token_end(s@, i as int) == token_end(s@, j as int),
        decreases s.len() - j,
    {
        j += 1;
    }
    j
}

fn is_path_operator(t: &[u8]) -> (b: bool)
    ensures
        b == path_operator(t@),
{
    proof {
        if t@.len() == 1 {
            assert(t@ =~= seq![t@[0]]);
        }
        if t@.len() == 2 {
            assert(t@ =~= seq![t@[0], t@[1]]);
        }
    }
    (t.len() == 1 && (t[0] == 0x6d || t[0] == 0x6c || t[0] == 0x63 || t[0] == 0x76 || t[0] == 0x79))
        || (t.len() == 2 && t[0] == 0x72 && t[1] == 0x65)
}

fn append_bytes(out: &mut Vec<u8>, t: &[u8])
    ensures
        final(out)@ == old(out)@ + t@,
{
    let ghost o = out@;
    let mut i: usize = 0;
    while i < t.len()
        invariant
            i <= t@.len(),
            out@ == o + t@.take(i as int),
        decreases t.len() - i,
    {
        out.push(t[i]);
        i += 1;
        assert(out@ =~= o + t@.take(i as int));
    }
    assert(t@.take(i as int) =~= t@);
}

/// `f` computes `sh`: whatever it returns for a token is `sh` of it.
pub open spec fn shortens_as<F: Fn(&[u8]) -> Vec<u8>>(f: F, sh: spec_fn(Seq<u8>) -> Seq<u8>) -> bool {
    forall|t: &[u8], r: Vec<u8>| #[trigger] f.ensures((t,), r) ==> r@ == sh(t@)
}

fn write_operands<F: Fn(&[u8]) -> Vec<u8>>(out: &mut Vec<u8>, pending: &Vec<Vec<u8>>, round: bool, shorten: &F)
    requires
        forall|t: &[u8]| #[trigger] shorten.requires((t,)),
    ensures
        forall|sh: spec_fn(Seq<u8>) -> Seq<u8>|
            #[trigger] shortens_as(*shorten, sh) ==> final(out)@ == old(out)@ + operands_text(
                pending@.map_values(|v: Vec<u8>| v@),
                round,
                sh,
            ),
{
    let ghost o = out@;
    let ghost pv = pending@.map_values(|v: Vec<u8>| v@);
    let mut i: usize = 0;
    assert(pv.take(0) =~= Seq::<Seq<u8>>::empty());
    assert forall|sh: spec_fn(Seq<u8>) -> Seq<u8>| #[trigger] shortens_as(*shorten, sh) implies out@
        == o + operands_text(pv.take(0), round, sh) by {
        assert(o + Seq::<u8>::empty() =~= o);
    }
    while i < pending.len()
        invariant
            i <= pending@.len(),
            pv == pending@.map_values(|v: Vec<u8>| v@),
            forall|t: &[u8]| #[trigger] shorten.requires((t,)),
            forall|sh: spec_fn(Seq<u8>) -> Seq<u8>|
                #[trigger] shortens_as(*shorten, sh) ==> out@ == o + operands_text(pv.take(i as int), round, sh),
        decreases pending.len() - i,
    {
        assert(pv.take(i + 1).drop_last() =~= pv.take(i as int));
        assert(pv.take(i + 1).last() == pending@[i as int]@);
        let ghost before = out@;
        let piece: Vec<u8> = if round {
            shorten(pending[i].as_slice())
        } else {
            slice_bytes(pending[i].as_slice(), 0, pending[i].len())
        };
        proof {
            if !round {
                assert(piece@ =~= pending@[i as int]@);
            }
        }
        append_bytes(out, piece.as_slice());
        out.push(0x20);
        assert forall|sh: spec_fn(Seq<u8>) -> Seq<u8>| #[trigger] shortens_as(*shorten, sh) implies out@
            == o + operands_text(pv.take(i + 1), round, sh) by {
            if round {
                assert(piece@ == sh(pending@[i as int]@));
            }
            assert(out@ =~= o + operands_text(pv.take(i + 1), round, sh));
        }
        i += 1;
    }
    assert(pv.take(i as int) =~= pv);
}

/// A content stream with the operands of its path-construction operators
/// shortened by `shorten`, every other token kept byte for byte (see
/// [`rounded_stream`]): exact for any spec function that `shorten` computes.
pub fn round_path_operands<F: Fn(&[u8]) -> Vec<u8>>(content: &[u8], shorten: F) -> (out: Vec<u8>)
    requires
        forall|t: &[u8]| #[trigger] shorten.requires((t,)),
    ensures
        forall|sh: spec_fn(Seq<u8>) -> Seq<u8>|
            #[trigger] shortens_as(shorten, sh) ==> out@ == rounded_stream(content@, sh),
{
    round_operands_with(content, &shorten)
}

fn round_operands_with<F: Fn(&[u8]) -> Vec<u8>>(content: &[u8], shorten: &F) -> (out: Vec<u8>)
    requires
        forall|t: &[u8]| #[trigger] shorten.requires((t,)),
    ensures
        forall|sh: spec_fn(Seq<u8>) -> Seq<u8>|
            #[trigger] shortens_as(*shorten, sh) ==> out@ == rounded_stream(content@, sh),
{
    let ghost all = tokens_from(content@, 0);
    let ghost mut done: Seq<Seq<u8>> = seq![];
    let mut out: Vec<u8> = Vec::new();
    let mut pending: Vec<Vec<u8>> = Vec::new();
    let mut i: usize = 0;
    assert(pending@.map_values(|v: Vec<u8>| v@) =~= Seq::<Seq<u8>>::empty());
    assert(all =~= done + tokens_from(content@, 0));
    while i < content.len()
        invariant
            i <= content@.len(),
            all == tokens_from(content@, 0),
            all == done + tokens_from(content@, i as int),
            forall|t: &[u8]| #[trigger] shorten.requires((t,)),
            forall|sh: spec_fn(Seq<u8>) -> Seq<u8>|
                #[trigger] shortens_as(*shorten, sh) ==> rounding(done, sh) == (out@, pending@.map_values(|v: Vec<u8>| v@)),
        decreases content.len() - i,
    {
        let c = content[i];
        if c == 0x20 || c == 0x09 || c == 0x0a || c == 0x0c || c == 0x0d {
            i += 1;
            continue;
        }
        let start = i;
        let end = token_end_of(content, start);
        proof {
            lemma_token_end(content@, start as int);
        }
        let token = slice_bytes(content, start, end);
        let ghost old_pending = pending@.map_values(|v: Vec<u8>| v@);
        let ghost old_out = out@;
        assert(tokens_from(content@, start as int) == seq![token@] + tokens_from(content@, end as int));
        assert(done.push(token@).drop_last() =~= done);
        if is_number(token.as_slice()) {
            pending.push(token);
            assert(pending@.map_values(|v: Vec<u8>| v@) =~= old_pending.push(token@));
        } else {
            let round = is_path_operator(token.as_slice());
            write_operands(&mut out, &pending, round, shorten);
            let ghost mid = out@;
            append_bytes(&mut out, token.as_slice());
            out.push(0x0a);
            pending = Vec::new();
            assert(pending@.map_values(|v: Vec<u8>| v@) =~= Seq::<Seq<u8>>::empty());
            assert(out@ =~= mid + token@ + seq![0x0au8]);
        }
        proof {
            assert(done + tokens_from(content@, start as int) =~= done.push(token@) + tokens_from(content@, end as int));
            done = done.push(token@);
        }
        i = end;
    }
    assert(tokens_from(content@, i as int) =~= Seq::<Seq<u8>>::empty());
    assert(done + Seq::<Seq<u8>>::empty() =~= done);
    write_operands(&mut out, &pending, false, shorten);
    out
}

/// `a` comes no later than `b` in byte-wise lexicographic order.
pub open spec fn bytes_le(a: Seq<u8>, b: Seq<u8>) -> bool
    decreases a.len(),
{
    if a.len() == 0 {
        true
    } else if b.len() == 0 {
        false
    } else if a[0] != b[0] {
        a[0] < b[0]
    } else {
        bytes_le(a.drop_first(), b.drop_first())
    }
}

/// The names of `v` in ascending byte-wise order.
pub open spec fn sorted_names(v: Seq<Vec<u8>>) -> bool {
    forall|i: int, j: int| 0 <= i < j < v.len() ==> bytes_le(#[trigger] v[i]@, #[trigger] v[j]@)
}

/// Byte-wise order is total.
pub proof fn lemma_bytes_le_total(a: Seq<u8>, b: Seq<u8>)
    ensures
        bytes_le(a, b) || bytes_le(b, a),
    decreases a.len(),
{
    if a.len() > 0 && b.len() > 0 && a[0] == b[0] {
        lemma_bytes_le_total(a.drop_first(), b.drop_first());
    }
}

/// Byte-wise order is transitive.
pub proof fn lemma_bytes_le_transitive(a: Seq<u8>, b: Seq<u8>, c: Seq<u8>)
    requires
        bytes_le(a, b),
        bytes_le(b, c),
    ensures
        bytes_le(a, c),
    decreases a.len(),
{
    if a.len() > 0 && b.len() > 0 && c.len() > 0 && a[0] == b[0] && b[0] == c[0] {
        lemma_bytes_le_transitive(a.drop_first(), b.drop_first(), c.drop_first());
    }
}

fn bytes_le_exec(a: &[u8], b: &[u8]) -> (r: bool)
    ensures
        r == bytes_le(a@, b@),
{
    let mut i: usize = 0;
    assert(a@.skip(0) =~= a@ && b@.skip(0) =~= b@);
    while i < a.len() && i < b.len() && a[i] == b[i]
        invariant
            i <= a@.len(),
            i <= b@.len(),
            bytes_le(a@, b@) == bytes_le(a@.skip(i as int), b@.skip(i as int)),
        decreases a.len() - i,
    {
        assert(a@.skip(i as int).drop_first() =~= a@.skip(i + 1));
        assert(b@.skip(i as int).drop_first() =~= b@.skip(i + 1));
        i += 1;
    }
    if i == a.len() {
        true
    } else if i == b.len() {
        false
    } else {
        a[i] < b[i]
    }
}

/// Insert `name` into the ascending `v`, unless it is there already.
fn insert_sorted(v: &mut Vec<Vec<u8>>, name: &[u8])
    requires
        each_once(old(v)@),
        sorted_names(old(v)@),
    ensures
        each_once(final(v)@),
        sorted_names(final(v)@),
        name_set(final(v)@) == name_set(old(v)@).insert(name@),
{
    let mut p: usize = 0;
    while p < v.len() && bytes_le_exec(v[p].as_slice(), name)
        invariant
            p <= v@.len(),
            each_once(v@),
            sorted_names(v@),
            forall|k: int| 0 <= k < p ==> bytes_le(#[trigger] v@[k]@, name@),
            forall|k: int| 0 <= k < p ==> #[trigger] v@[k]@ != name@,
        decreases v.len() - p,
    {
        if same_bytes(v[p].as_slice(), name) {
            assert(name_set(v@).insert(name@) =~= name_set(v@)) by {
                assert(v@[p as int]@ == name@);
            }
            return;
        }
        p += 1;
    }
    let ghost before = v@;
    assert forall|k: int| p <= k < before.len() implies bytes_le(name@, #[trigger] before[k]@) && before[k]@ != name@ by {
        lemma_bytes_le_total(before[p as int]@, name@);
        if k > p {
            lemma_bytes_le_transitive(name@, before[p as int]@, before[k]@);
        }
        if before[k]@ == name@ {
            if k > p {
                assert(bytes_le(before[p as int]@, before[k]@));
            }
        }
    }
    let copy = slice_bytes(name, 0, name.len());
    assert(name@.subrange(0, name@.len() as int) =~= name@);
    v.insert(p, copy);
    assert(v@ == before.insert(p as int, copy));
    assert forall|i: int, j: int| 0 <= i < j < v@.len() implies bytes_le(#[trigger] v@[i]@, #[trigger] v@[j]@) by {
        if j < p {
        } else if i < p && j == p {
        } else if i < p && j > p {
            assert(v@[j] == before[j - 1]);
            lemma_bytes_le_transitive(v@[i]@, name@, v@[j]@);
        } else if i == p {
            assert(v@[j] == before[j - 1]);
        } else {
            assert(v@[i] == before[i - 1]);
            assert(v@[j] == before[j - 1]);
        }
    }
    assert forall|i: int, j: int| 0 <= i < j < v@.len() implies #[trigger] v@[i]@ != #[trigger] v@[j]@ by {
        if i > p {
            assert(v@[i] == before[i - 1]);
        }
        if j > p {
            assert(v@[j] == before[j - 1]);
        }
    }
    assert(name_set(v@) =~= name_set(before).insert(name@)) by {
        assert forall|n: Seq<u8>| name_set(v@).contains(n) <==> name_set(before).insert(name@).contains(n) by {
            if name_set(v@).contains(n) {
                let k = choose|k: int| 0 <= k < v@.len() && #[trigger] v@[k]@ == n;
                if k < p {
                    assert(before[k]@ == n);
                } else if k > p {
                    assert(before[k - 1]@ == n);
                }
            }
            if name_set(before).contains(n) {
                let k = choose|k: int| 0 <= k < before.len() && #[trigger] before[k]@ == n;
                if k < p {
                    assert(v@[k]@ == n);
                } else {
                    assert(v@[k + 1]@ == n);
                }
            }
            if n == name@ {
                assert(v@[p as int]@ == n);
            }
        }
    }
}

fn holds_name(v: &Vec<Vec<u8>>, name: &[u8]) -> (r: bool)
    ensures
        r == name_set(v@).contains(name@),
{
    let mut i: usize = 0;
    while i < v.len()
        invariant
            i <= v@.len(),
            forall|k: int| 0 <= k < i ==> v@[k]@ != name@,
        decreases v.len() - i,
    {
        if same_bytes(v[i].as_slice(), name) {
            assert(v@[i as int]@ == name@);
            return true;
        }
        i += 1;
    }
    false
}

/// The names of `referenced` that `present` lacks, each once, in ascending
/// byte-wise order.
pub fn missing_names(referenced: &Vec<Vec<u8>>, present: &Vec<Vec<u8>>) -> (r: Vec<Vec<u8>>)
    ensures
        name_set(r@) == name_set(referenced@).difference(name_set(present@)),
        each_once(r@),
        sorted_names(r@),
{
    let mut r: Vec<Vec<u8>> = Vec::new();
    let mut i: usize = 0;
    assert(name_set(r@) =~= name_set(referenced@.take(0)).difference(name_set(present@)));
    while i < referenced.len()
        invariant
            i <= referenced@.len(),
            each_once(r@),
            sorted_names(r@),
            name_set(r@) == name_set(referenced@.take(i as int)).difference(name_set(present@)),
        decreases referenced.len() - i,
    {
        let ghost before = r@;
        if !holds_name(present, referenced[i].as_slice()) {
            insert_sorted(&mut r, referenced[i].as_slice());
        }
        assert(name_set(referenced@.take(i + 1)) =~= name_set(referenced@.take(i as int)).insert(referenced@[i as int]@)) by {
            assert forall|n: Seq<u8>| name_set(referenced@.take(i + 1)).contains(n) <==> name_set(referenced@.take(i as int)).insert(referenced@[i as int]@).contains(n) by {
                if name_set(referenced@.take(i + 1)).contains(n) {
                    let k = choose|k: int| 0 <= k < i + 1 && #[trigger] referenced@.take(i + 1)[k]@ == n;
                    if k < i {
                        assert(referenced@.take(i as int)[k]@ == n);
                    }
                }
                if name_set(referenced@.take(i as int)).contains(n) {
                    let k = choose|k: int| 0 <= k < i && #[trigger] referenced@.take(i as int)[k]@ == n;
                    assert(referenced@.take(i + 1)[k]@ == n);
                }
                if n == referenced@[i as int]@ {
                    assert(referenced@.take(i + 1)[i as int]@ == n);
                }
            }
        }
        assert(name_set(r@) =~= name_set(referenced@.take(i + 1)).difference(name_set(present@)));
        i += 1;
    }
    assert(referenced@.take(i as int) =~= referenced@);
    r
}

/// For each category, the names of `referenced` that `present` lacks, each
/// once, in ascending byte-wise order.
pub fn missing_resources(referenced: &ReferencedNames, present: &ReferencedNames) -> (r: ReferencedNames)
    ensures
        name_set(r.color_spaces@) == name_set(referenced.color_spaces@).difference(name_set(present.color_spaces@)),
        name_set(r.ext_g_states@) == name_set(referenced.ext_g_states@).difference(name_set(present.ext_g_states@)),
        name_set(r.xobjects@) == name_set(referenced.xobjects@).difference(name_set(present.xobjects@)),
        each_once(r.color_spaces@) && each_once(r.ext_g_states@) && each_once(r.xobjects@),
        sorted_names(r.color_spaces@) && sorted_names(r.ext_g_states@) && sorted_names(r.xobjects@),
{
    ReferencedNames {
        color_spaces: missing_names(&referenced.color_spaces, &present.color_spaces),
        ext_g_states: missing_names(&referenced.ext_g_states, &present.ext_g_states),
        xobjects: missing_names(&referenced.xobjects, &present.xobjects),
    }
}

/// `Form`, the subtype of a form XObject.
pub open spec fn form_subtype() -> Seq<u8> {
    seq![0x46u8, 0x6fu8, 0x72u8, 0x6du8]
}

/// `ColorSpace`.
pub open spec fn color_space_key() -> Seq<u8> {
    seq![0x43u8, 0x6fu8, 0x6cu8, 0x6fu8, 0x72u8, 0x53u8, 0x70u8, 0x61u8, 0x63u8, 0x65u8]
}

/// `ExtGState`.
pub open spec fn ext_g_state_key() -> Seq<u8> {
    seq![0x45u8, 0x78u8, 0x74u8, 0x47u8, 0x53u8, 0x74u8, 0x61u8, 0x74u8, 0x65u8]
}

/// `XObject`.
pub open spec fn xobject_key() -> Seq<u8> {
    seq![0x58u8, 0x4fu8, 0x62u8, 0x6au8, 0x65u8, 0x63u8, 0x74u8]
}

/// `DeviceRGB`.
pub open spec fn device_rgb() -> Seq<u8> {
    seq![0x44u8, 0x65u8, 0x76u8, 0x69u8, 0x63u8, 0x65u8, 0x52u8, 0x47u8, 0x42u8]
}

/// The color spaces a content stream selects.
pub open spec fn color_space_names(content: Seq<u8>) -> Set<Seq<u8>> {
    names_used(name_refs(content, 0), |op: Seq<u8>| color_space_op(op))
}

/// The graphics states a content stream applies.
pub open spec fn ext_g_state_names(content: Seq<u8>) -> Set<Seq<u8>> {
    names_used(name_refs(content, 0), |op: Seq<u8>| ext_g_state_op(op))
}

/// The XObjects a content stream draws.
pub open spec fn xobject_names(content: Seq<u8>) -> Set<Seq<u8>> {
    names_used(name_refs(content, 0), |op: Seq<u8>| xobject_op(op))
}

/// Object `id` is a form XObject.
pub open spec fn is_form_at(m: Map<(u32, u16), PdfObject>, id: (u32, u16)) -> bool {
    subtype_at(m, id) == Some(form_subtype())
}

/// The resources dictionary the repair gives stream `id`: its own inline one
/// (made where it has none), or the dictionary object it refers to; none
/// where it refers to anything else.
pub open spec fn holder_of(m: Map<(u32, u16), PdfObject>, id: (u32, u16)) -> Option<Holder> {
    match resources_at_spec(m, id) {
        ResourcesAt::InStream => Some(Holder::InStream(id.0, id.1)),
        ResourcesAt::Absent => Some(Holder::InStream(id.0, id.1)),
        ResourcesAt::Indirect(a, b) => if is_dictionary_at(m, (a, b)) {
            Some(Holder::InObject(a, b))
        } else {
            None
        },
        ResourcesAt::NotStream => None,
    }
}

/// The resources dictionary of `h` defines `name` in category `cat`.
pub open spec fn defines(m: Map<(u32, u16), PdfObject>, h: Holder, cat: Seq<u8>, name: Seq<u8>) -> bool {
    &&& holder_resources(m, h) is Some
    &&& holder_resources(m, h)->0.contains_key(cat)
    &&& holder_resources(m, h)->0[cat].contains_key(name)
}

/// The entry for `name` in category `cat` of the resources dictionary of `h`.
pub open spec fn entry_at(m: Map<(u32, u16), PdfObject>, h: Holder, cat: Seq<u8>, name: Seq<u8>) -> ResourceEntry {
    holder_resources(m, h)->0[cat][name]
}

/// Every resource `a` defines, `b` defines alike.
pub open spec fn keeps_resources(a: Map<(u32, u16), PdfObject>, b: Map<(u32, u16), PdfObject>) -> bool {
    forall|h: Holder, c: Seq<u8>, n: Seq<u8>|
        #[trigger] defines(a, h, c, n) ==> defines(b, h, c, n) && entry_at(b, h, c, n) == entry_at(a, h, c, n)
}

/// What the repair writes for a name missing from category `cat`, given the
/// empty form it added, if any.
pub open spec fn default_entry(cat: Seq<u8>, added: Option<(u32, u16)>) -> Option<ResourceEntry> {
    if cat == color_space_key() {
        Some(ResourceEntry::Name(device_rgb()))
    } else if cat == ext_g_state_key() {
        Some(ResourceEntry::TypedDictionary(ext_g_state_key()))
    } else if cat == xobject_key() {
        match added {
            Some(e) => Some(ResourceEntry::Reference(e.0, e.1)),
            None => None,
        }
    } else {
        None
    }
}

/// Every resource `b` defines and `a` does not holds the default.
pub open spec fn new_entries_default(a: Map<(u32, u16), PdfObject>, b: Map<(u32, u16), PdfObject>, added: Option<(u32, u16)>) -> bool {
    forall|h: Holder, c: Seq<u8>, n: Seq<u8>|
        #[trigger] defines(b, h, c, n) && !defines(a, h, c, n) ==> default_entry(c, added) == Some(entry_at(b, h, c, n))
}

/// A stream's own resources, whether there or still to be made, count as
/// one kind.
pub open spec fn direct(r: ResourcesAt) -> ResourcesAt {
    match r {
        ResourcesAt::Absent => ResourcesAt::InStream,
        _ => r,
    }
}

/// `b` has the objects of `a`, with the same subtypes, contents and kinds of
/// resources, and no dictionary objects besides.
pub open spec fn same_shape(a: Map<(u32, u16), PdfObject>, b: Map<(u32, u16), PdfObject>) -> bool {
    &&& forall|id: (u32, u16)| #[trigger] a.contains_key(id) ==> b.contains_key(id)
    &&& forall|id: (u32, u16)| #[trigger] subtype_at(b, id) == subtype_at(a, id) || !a.contains_key(id)
    &&& forall|id: (u32, u16)| #[trigger] content_at(b, id) == content_at(a, id) || !a.contains_key(id)
    &&& forall|id: (u32, u16)|
        #[trigger] direct(resources_at_spec(b, id)) == direct(resources_at_spec(a, id)) || !a.contains_key(id)
    &&& forall|id: (u32, u16)| #[trigger] is_dictionary_at(b, id) == is_dictionary_at(a, id)
}

/// Objects of the same shape resolve to the same resources dictionary.
pub proof fn lemma_same_shape_holder(a: Map<(u32, u16), PdfObject>, b: Map<(u32, u16), PdfObject>, id: (u32, u16))
    requires
        same_shape(a, b),
        a.contains_key(id),
    ensures
        holder_of(b, id) == holder_of(a, id),
{
    assert(direct(resources_at_spec(b, id)) == direct(resources_at_spec(a, id)));
    match resources_at_spec(a, id) {
        ResourcesAt::Indirect(x, y) => {
            assert(is_dictionary_at(b, (x, y)) == is_dictionary_at(a, (x, y)));
        },
        _ => {},
    }
}

/// [`same_shape`] chains.
pub proof fn lemma_same_shape_trans(a: Map<(u32, u16), PdfObject>, b: Map<(u32, u16), PdfObject>, c: Map<(u32, u16), PdfObject>)
    requires
        same_shape(a, b),
        same_shape(b, c),
    ensures
        same_shape(a, c),
{
    assert forall|id: (u32, u16)| #[trigger] subtype_at(c, id) == subtype_at(a, id) || !a.contains_key(id) by {
        if a.contains_key(id) {
            assert(b.contains_key(id));
            assert(subtype_at(c, id) == subtype_at(b, id));
            assert(subtype_at(b, id) == subtype_at(a, id));
        }
    }
    assert forall|id: (u32, u16)| #[trigger] content_at(c, id) == content_at(a, id) || !a.contains_key(id) by {
        if a.contains_key(id) {
            assert(b.contains_key(id));
            assert(content_at(c, id) == content_at(b, id));
            assert(content_at(b, id) == content_at(a, id));
        }
    }
    assert forall|id: (u32, u16)|
        #[trigger] direct(resources_at_spec(c, id)) == direct(resources_at_spec(a, id)) || !a.contains_key(id) by {
        if a.contains_key(id) {
            assert(b.contains_key(id));
            assert(direct(resources_at_spec(c, id)) == direct(resources_at_spec(b, id)));
            assert(direct(resources_at_spec(b, id)) == direct(resources_at_spec(a, id)));
        }
    }
    assert forall|id: (u32, u16)| #[trigger] is_dictionary_at(c, id) == is_dictionary_at(a, id) by {
        assert(is_dictionary_at(c, id) == is_dictionary_at(b, id));
        assert(is_dictionary_at(b, id) == is_dictionary_at(a, id));
    }
}

/// Replacing the resources dictionary of `h` by one that keeps every entry
/// changes no shape, keeps every resource, and leaves other holders alone.
pub proof fn lemma_update_holder(m: Map<(u32, u16), PdfObject>, h: Holder, r2: ResourceMap)
    requires
        holder_resources(m, h) is Some,
        forall|c: Seq<u8>| #[trigger] holder_resources(m, h)->0.contains_key(c) ==> r2.contains_key(c)
            && (forall|n: Seq<u8>| #[trigger] holder_resources(m, h)->0[c].contains_key(n)
                ==> r2[c].contains_key(n) && r2[c][n] == holder_resources(m, h)->0[c][n]),
    ensures
        same_shape(m, with_holder_resources(m, h, r2)),
        keeps_resources(m, with_holder_resources(m, h, r2)),
        holder_resources(with_holder_resources(m, h, r2), h) == Some(r2),
        forall|h2: Holder| h2 != h ==> #[trigger] holder_resources(with_holder_resources(m, h, r2), h2) == holder_resources(m, h2),
        with_holder_resources(m, h, r2).dom() == m.dom(),
{
    let m2 = with_holder_resources(m, h, r2);
    let k = holder_key(h);
    assert(m2.dom() =~= m.dom());
    assert forall|h2: Holder| h2 != h implies #[trigger] holder_resources(m2, h2) == holder_resources(m, h2) by {
        if holder_key(h2) == k {
        }
    }
    assert forall|id: (u32, u16)| #[trigger] subtype_at(m2, id) == subtype_at(m, id) || !m.contains_key(id) by {}
    assert forall|id: (u32, u16)| #[trigger] content_at(m2, id) == content_at(m, id) || !m.contains_key(id) by {}
    assert forall|id: (u32, u16)|
        #[trigger] direct(resources_at_spec(m2, id)) == direct(resources_at_spec(m, id)) || !m.contains_key(id) by {}
    assert forall|id: (u32, u16)| #[trigger] is_dictionary_at(m2, id) == is_dictionary_at(m, id) by {}
    assert forall|h2: Holder, c: Seq<u8>, n: Seq<u8>| #[trigger] defines(m, h2, c, n) implies defines(m2, h2, c, n)
        && entry_at(m2, h2, c, n) == entry_at(m, h2, c, n) by {
        if h2 == h {
            assert(holder_resources(m, h)->0.contains_key(c));
            assert(holder_resources(m, h)->0[c].contains_key(n));
        }
    }
}

fn copy_resource(v: &NewResource) -> (r: NewResource)
    ensures
        entry_of(r) == entry_of(*v),
{
    match v {
        NewResource::Name(n) => {
            let c = slice_bytes(n.as_slice(), 0, n.len());
            assert(c@ =~= n@);
            NewResource::Name(c)
        },
        NewResource::TypedDictionary(t) => {
            let c = slice_bytes(t.as_slice(), 0, t.len());
            assert(c@ =~= t@);
            NewResource::TypedDictionary(c)
        },
        NewResource::Reference(a, b) => NewResource::Reference(*a, *b),
    }
}

/// Define in category `cat` of the resources dictionary of `h` each name of
/// `referenced` it lacks, as `value`; where `value` is `None`, only make
/// sure the category is a dictionary. Nothing is done for no names.
fn define_missing(doc: &mut lopdf::Document, h: Holder, cat: &[u8], referenced: &Vec<Vec<u8>>, value: Option<NewResource>)
    requires
        holder_resources(pdf_objects(*old(doc)), h) is Some,
    ensures
        same_shape(pdf_objects(*old(doc)), pdf_objects(*final(doc))),
        keeps_resources(pdf_objects(*old(doc)), pdf_objects(*final(doc))),
        pdf_objects(*final(doc)).dom() == pdf_objects(*old(doc)).dom(),
        forall|k: (u32, u16)| k != holder_key(h) && #[trigger] pdf_objects(*old(doc)).contains_key(k)
            ==> pdf_objects(*final(doc))[k] == pdf_objects(*old(doc))[k],
        holder_resources(pdf_objects(*final(doc)), h) is Some,
        value is Some ==> forall|n: Seq<u8>| #[trigger] name_set(referenced@).contains(n) ==> defines(pdf_objects(*final(doc)), h, cat@, n),
        forall|h2: Holder, c: Seq<u8>, n: Seq<u8>|
            #[trigger] defines(pdf_objects(*final(doc)), h2, c, n) && !defines(pdf_objects(*old(doc)), h2, c, n)
                ==> c == cat@ && value is Some && entry_at(pdf_objects(*final(doc)), h2, c, n) == entry_of(value->0),
        pdf_max_id(*final(doc)) == pdf_max_id(*old(doc)),
{
    let ghost a = pdf_objects(*doc);
    if referenced.len() == 0 {
        assert(same_shape(a, a));
        return;
    }
    let keys = resource_keys(doc, h, cat);
    let present: Vec<Vec<u8>> = match keys {
        Some(k) => k,
        None => {
            let ghost r = holder_resources(a, h)->0;
            set_empty_category(doc, h, cat);
            proof {
                lemma_update_holder(a, h, r.insert(cat@, Map::empty()));
            }
            Vec::new()
        },
    };
    let ghost mid = pdf_objects(*doc);
    let ghost mid_keys = holder_resources(mid, h)->0[cat@].dom();
    assert(same_shape(a, mid));
    assert(mid_keys == name_set(present@)) by {
        assert forall|n: Seq<u8>| mid_keys.contains(n) <==> name_set(present@).contains(n) by {}
    }
    assert forall|h2: Holder, c: Seq<u8>, n: Seq<u8>|
        #[trigger] defines(mid, h2, c, n) && !defines(a, h2, c, n) implies c == cat@ && value is Some && entry_at(mid, h2, c, n) == entry_of(value->0) by {
        if h2 != h {
        }
    }
    match value {
        None => {},
        Some(v) => {
            let missing = missing_names(referenced, &present);
            let mut i: usize = 0;
            assert(name_set(missing@.take(0)) =~= Set::<Seq<u8>>::empty());
            while i < missing.len()
                invariant
                    i <= missing@.len(),
                    each_once(missing@),
                    name_set(missing@) == name_set(referenced@).difference(name_set(present@)),
                    mid_keys == name_set(present@),
                    same_shape(a, mid),
                    keeps_resources(a, mid),
                    mid.dom() == a.dom(),
                    forall|k: (u32, u16)| k != holder_key(h) && #[trigger] a.contains_key(k) ==> mid[k] == a[k],
                    forall|k: (u32, u16)| k != holder_key(h) && #[trigger] mid.contains_key(k) ==> pdf_objects(*doc)[k] == mid[k],
                    holder_resources(mid, h) is Some,
                    holder_resources(mid, h)->0.contains_key(cat@),
                    mid_keys == holder_resources(mid, h)->0[cat@].dom(),
                    forall|h2: Holder, c: Seq<u8>, n: Seq<u8>|
                        #[trigger] defines(mid, h2, c, n) && !defines(a, h2, c, n) ==> c == cat@ && entry_at(mid, h2, c, n) == entry_of(v),
                    same_shape(mid, pdf_objects(*doc)),
                    keeps_resources(mid, pdf_objects(*doc)),
                    pdf_objects(*doc).dom() == mid.dom(),
                    holder_resources(pdf_objects(*doc), h) is Some,
                    holder_resources(pdf_objects(*doc), h)->0.contains_key(cat@),
                    holder_resources(pdf_objects(*doc), h)->0[cat@].dom() == mid_keys.union(name_set(missing@.take(i as int))),
                    forall|h2: Holder, c: Seq<u8>, n: Seq<u8>|
                        #[trigger] defines(pdf_objects(*doc), h2, c, n) && !defines(mid, h2, c, n) ==> c == cat@ && entry_at(pdf_objects(*doc), h2, c, n) == entry_of(v),
                    pdf_max_id(*doc) == pdf_max_id(*old(doc)),
                decreases missing.len() - i,
            {
                let ghost cur = pdf_objects(*doc);
                let ghost r = holder_resources(cur, h)->0;
                let ghost name = missing@[i as int]@;
                assert(!r[cat@].contains_key(name)) by {
                    assert(name_set(missing@).contains(name));
                    if name_set(missing@.take(i as int)).contains(name) {
                        let k = choose|k: int| 0 <= k < i && #[trigger] missing@.take(i as int)[k]@ == name;
                        assert(missing@[k]@ == missing@[i as int]@);
                    }
                }
                set_resource(doc, h, cat, missing[i].as_slice(), copy_resource(&v));
                proof {
                    lemma_update_holder(cur, h, r.insert(cat@, r[cat@].insert(name, entry_of(v))));
                    lemma_same_shape_trans(mid, cur, pdf_objects(*doc));
                    assert(name_set(missing@.take(i + 1)) =~= name_set(missing@.take(i as int)).insert(name)) by {
                        assert forall|n: Seq<u8>| name_set(missing@.take(i + 1)).contains(n) <==> name_set(missing@.take(i as int)).insert(name).contains(n) by {
                            if name_set(missing@.take(i + 1)).contains(n) {
                                let k = choose|k: int| 0 <= k < i + 1 && #[trigger] missing@.take(i + 1)[k]@ == n;
                                if k < i {
                                    assert(missing@.take(i as int)[k]@ == n);
                                }
                            }
                            if name_set(missing@.take(i as int)).contains(n) {
                                let k = choose|k: int| 0 <= k < i && #[trigger] missing@.take(i as int)[k]@ == n;
                                assert(missing@.take(i + 1)[k]@ == n);
                            }
                            if n == name {
                                assert(missing@.take(i + 1)[i as int]@ == n);
                            }
                        }
                    }
                    let now = pdf_objects(*doc);
                    assert(holder_resources(now, h)->0[cat@].dom() =~= mid_keys.union(name_set(missing@.take(i + 1))));
                    assert forall|h2: Holder, c: Seq<u8>, n: Seq<u8>|
                        #[trigger] defines(now, h2, c, n) && !defines(mid, h2, c, n) implies c == cat@ && entry_at(now, h2, c, n) == entry_of(v) by {
                        if h2 == h && c == cat@ && n == name {
                        } else if defines(cur, h2, c, n) {
                        } else if h2 != h {
                        }
                    }
                }
                i += 1;
            }
            proof {
                let fin = pdf_objects(*doc);
                assert(missing@.take(i as int) =~= missing@);
                assert forall|n: Seq<u8>| #[trigger] name_set(referenced@).contains(n) implies defines(fin, h, cat@, n) by {
                    if !name_set(present@).contains(n) {
                        assert(name_set(missing@).contains(n));
                    }
                }
                assert forall|h2: Holder, c: Seq<u8>, n: Seq<u8>|
                    #[trigger] defines(fin, h2, c, n) && !defines(a, h2, c, n) implies c == cat@ && entry_at(fin, h2, c, n) == entry_of(v) by {
                    if defines(mid, h2, c, n) {
                        assert(entry_at(fin, h2, c, n) == entry_at(mid, h2, c, n));
                    }
                }
                lemma_same_shape_trans(a, mid, fin);
            }
        },
    }
}

/// The resources dictionary of form `id` in `b` defines each resource the
/// form's content names, XObjects only where the repair added the empty
/// form.
pub open spec fn form_repaired(a: Map<(u32, u16), PdfObject>, b: Map<(u32, u16), PdfObject>, id: (u32, u16), added: Option<(u32, u16)>) -> bool {
    let content = content_at(a, id)->0;
    holder_of(a, id) is Some ==> {
        let h = holder_of(a, id)->0;
        &&& forall|n: Seq<u8>| #[trigger] color_space_names(content).contains(n) ==> defines(b, h, color_space_key(), n)
        &&& forall|n: Seq<u8>| #[trigger] ext_g_state_names(content).contains(n) ==> defines(b, h, ext_g_state_key(), n)
        &&& added is Some ==> forall|n: Seq<u8>| #[trigger] xobject_names(content).contains(n) ==> defines(b, h, xobject_key(), n)
    }
}

/// Some form of `a` draws an XObject.
pub open spec fn draws_xobject(a: Map<(u32, u16), PdfObject>) -> bool {
    exists|id: (u32, u16), n: Seq<u8>| is_form_at(a, id) && #[trigger] xobject_names(content_at(a, id)->0).contains(n)
}

proof fn lemma_repaired_kept(a: Map<(u32, u16), PdfObject>, b: Map<(u32, u16), PdfObject>, c: Map<(u32, u16), PdfObject>, id: (u32, u16), added: Option<(u32, u16)>)
    requires
        form_repaired(a, b, id, added),
        keeps_resources(b, c),
    ensures
        form_repaired(a, c, id, added),
{
    if holder_of(a, id) is Some {
        let h = holder_of(a, id)->0;
        let content = content_at(a, id)->0;
        assert forall|n: Seq<u8>| #[trigger] color_space_names(content).contains(n) implies defines(c, h, color_space_key(), n) by {
            assert(defines(b, h, color_space_key(), n));
        }
        assert forall|n: Seq<u8>| #[trigger] ext_g_state_names(content).contains(n) implies defines(c, h, ext_g_state_key(), n) by {
            assert(defines(b, h, ext_g_state_key(), n));
        }
        if added is Some {
            assert forall|n: Seq<u8>| #[trigger] xobject_names(content).contains(n) implies defines(c, h, xobject_key(), n) by {
                assert(defines(b, h, xobject_key(), n));
            }
        }
    }
}

proof fn lemma_chain(a: Map<(u32, u16), PdfObject>, b: Map<(u32, u16), PdfObject>, c: Map<(u32, u16), PdfObject>, added: Option<(u32, u16)>)
    requires
        same_shape(a, b),
        keeps_resources(a, b),
        new_entries_default(a, b, added),
        same_shape(b, c),
        keeps_resources(b, c),
        new_entries_default(b, c, added),
    ensures
        same_shape(a, c),
        keeps_resources(a, c),
        new_entries_default(a, c, added),
{
    lemma_same_shape_trans(a, b, c);
    assert forall|h: Holder, k: Seq<u8>, n: Seq<u8>| #[trigger] defines(a, h, k, n) implies defines(c, h, k, n)
        && entry_at(c, h, k, n) == entry_at(a, h, k, n) by {
        assert(defines(b, h, k, n));
    }
    assert forall|h: Holder, k: Seq<u8>, n: Seq<u8>| #[trigger] defines(c, h, k, n) && !defines(a, h, k, n)
        implies default_entry(k, added) == Some(entry_at(c, h, k, n)) by {
        if defines(b, h, k, n) {
            assert(entry_at(c, h, k, n) == entry_at(b, h, k, n));
        }
    }
}

fn byte_vec(s: &[u8]) -> (v: Vec<u8>)
    ensures
        v@ == s@,
{
    let v = slice_bytes(s, 0, s.len());
    assert(v@ =~= s@);
    v
}

/// What the repair makes of the objects `a` of a document whose highest
/// object number is `max`: every form defines the resources its content
/// names; shapes, contents and the resources already there are kept; each
/// new entry holds the default; the empty form `added` comes exactly when
/// some form draws an XObject and the id after `max` is free.
pub open spec fn repair_result(a: Map<(u32, u16), PdfObject>, max: u32, b: Map<(u32, u16), PdfObject>, added: Option<(u32, u16)>) -> bool {
    &&& forall|id: (u32, u16)| is_form_at(a, id) ==> #[trigger] form_repaired(a, b, id, added)
    &&& same_shape(a, b)
    &&& keeps_resources(a, b)
    &&& new_entries_default(a, b, added)
    &&& (added is Some <==> draws_xobject(a) && max < u32::MAX && !a.contains_key(((max + 1) as u32, 0u16)))
    &&& (added is None ==> b.dom() == a.dom())
    &&& (added is Some ==> added->0 == ((max + 1) as u32, 0u16) && b.dom() == a.dom().insert(added->0)
        && b[added->0] == empty_form_object())
}

/// Give every form XObject the resources its content names but its
/// resources dictionary leaves out: `DeviceRGB` for a color space, an
/// empty graphics state, and for an XObject a reference to one empty form,
/// added to the document for them all. A form whose `/Resources` refers to
/// anything but a dictionary is left alone. The added form's id is
/// returned; none is added where the next object id is taken or there is
/// none.
pub fn repair_form_xobject_resources(doc: &mut lopdf::Document) -> (added: Option<(u32, u16)>)
    ensures
        repair_result(pdf_objects(*old(doc)), pdf_max_id(*old(doc)), pdf_objects(*final(doc)), added),
{
    let ghost a = pdf_objects(*doc);
    let ids = object_ids(doc);
    let max = max_object_number(doc);
    let can_add = max < u32::MAX && !has_object(doc, (max + 1, 0));
    let form = byte_vec(&[0x46u8, 0x6f, 0x72, 0x6d]);
    let cs_key = byte_vec(&[0x43u8, 0x6f, 0x6c, 0x6f, 0x72, 0x53, 0x70, 0x61, 0x63, 0x65]);
    let gs_key = byte_vec(&[0x45u8, 0x78, 0x74, 0x47, 0x53, 0x74, 0x61, 0x74, 0x65]);
    let xo_key = byte_vec(&[0x58u8, 0x4f, 0x62, 0x6a, 0x65, 0x63, 0x74]);
    assert(form@ =~= form_subtype() && cs_key@ =~= color_space_key() && gs_key@ =~= ext_g_state_key() && xo_key@ =~= xobject_key());
    let mut added: Option<(u32, u16)> = None;
    let ghost mut wid: (u32, u16) = (0, 0);
    let ghost mut wn: Seq<u8> = seq![];
    let mut i: usize = 0;
    assert(same_shape(a, a));
    while i < ids.len()
        invariant
            i <= ids@.len(),
            forall|id: (u32, u16)| ids@.contains(id) <==> a.contains_key(id),
            form@ == form_subtype(),
            cs_key@ == color_space_key(),
            gs_key@ == ext_g_state_key(),
            xo_key@ == xobject_key(),
            max == pdf_max_id(*old(doc)),
            a == pdf_objects(*old(doc)),
            can_add == (max < u32::MAX && !a.contains_key(((max + 1) as u32, 0u16))),
            same_shape(a, pdf_objects(*doc)),
            keeps_resources(a, pdf_objects(*doc)),
            new_entries_default(a, pdf_objects(*doc), added),
            added is None ==> pdf_objects(*doc).dom() == a.dom() && pdf_max_id(*doc) == max,
            added is Some ==> can_add && added->0 == ((max + 1) as u32, 0u16)
                && pdf_objects(*doc).dom() == a.dom().insert(added->0)
                && pdf_objects(*doc)[added->0] == empty_form_object()
                && is_form_at(a, wid) && xobject_names(content_at(a, wid)->0).contains(wn),
            forall|j: int| 0 <= j < i && is_form_at(a, ids@[j]) ==> #[trigger] form_repaired(a, pdf_objects(*doc), ids@[j], added),
            added is None && can_add ==> forall|j: int, n: Seq<u8>| 0 <= j < i && is_form_at(a, ids@[j])
                ==> !#[trigger] xobject_names(content_at(a, ids@[j])->0).contains(n),
        decreases ids.len() - i,
    {
        let id = ids[i];
        assert(ids@.contains(id));
        let ghost cur = pdf_objects(*doc);
        let sub = stream_subtype(doc, id);
        let is_form = match sub {
            Some(s) => same_bytes(s.as_slice(), form.as_slice()),
            None => false,
        };
        assert(subtype_at(cur, id) == subtype_at(a, id));
        assert(is_form == is_form_at(a, id));
        if is_form {
            let content = match stream_content(doc, id) {
                Some(c) => c,
                None => Vec::new(),
            };
            assert(content_at(cur, id) == content_at(a, id));
            assert(content@ == content_at(a, id)->0);
            let names = referenced_resource_names(content.as_slice());
            assert(name_set(names.color_spaces@) =~= color_space_names(content@));
            assert(name_set(names.ext_g_states@) =~= ext_g_state_names(content@));
            assert(name_set(names.xobjects@) =~= xobject_names(content@));
            if names.color_spaces.len() > 0 || names.ext_g_states.len() > 0 || names.xobjects.len() > 0 {
                if names.xobjects.len() > 0 && can_add && added.is_none() {
                    let ghost before = pdf_objects(*doc);
                    let e = add_empty_stream(doc, byte_vec(&[0x58u8, 0x4f, 0x62, 0x6a, 0x65, 0x63, 0x74]), byte_vec(form.as_slice()));
                    proof {
                        let after = pdf_objects(*doc);
                        assert(!before.contains_key(e));
                        assert(same_shape(before, after)) by {
                            assert forall|k: (u32, u16)| #[trigger] is_dictionary_at(after, k) == is_dictionary_at(before, k) by {}
                        }
                        assert forall|h: Holder, c: Seq<u8>, n: Seq<u8>| #[trigger] defines(before, h, c, n) implies defines(after, h, c, n)
                            && entry_at(after, h, c, n) == entry_at(before, h, c, n) by {
                            assert(holder_key(h) != e);
                        }
                        assert forall|h: Holder, c: Seq<u8>, n: Seq<u8>| #[trigger] defines(after, h, c, n) && !defines(a, h, c, n)
                            implies default_entry(c, Some(e)) == Some(entry_at(after, h, c, n)) by {
                            if holder_key(h) == e {
                            } else {
                                assert(defines(before, h, c, n));
                            }
                        }
                        lemma_same_shape_trans(a, before, after);
                        assert(name_set(names.xobjects@).contains(names.xobjects@[0]@));
                        wid = id;
                        wn = names.xobjects@[0]@;
                        assert forall|j: int| 0 <= j < i && is_form_at(a, ids@[j]) implies #[trigger] form_repaired(a, after, ids@[j], Some(e)) by {
                            lemma_repaired_kept(a, before, after, ids@[j], None);
                            assert forall|n: Seq<u8>| !#[trigger] xobject_names(content_at(a, ids@[j])->0).contains(n) by {}
                        }
                    }
                    added = Some(e);
                }
                let ghost mid = pdf_objects(*doc);
                assert(subtype_at(mid, id) == subtype_at(a, id));
                proof {
                    lemma_same_shape_holder(a, mid, id);
                }
                let holder: Option<Holder> = match resources_at(doc, id) {
                    ResourcesAt::InStream => Some(Holder::InStream(id.0, id.1)),
                    ResourcesAt::Absent => {
                        set_empty_inline_resources(doc, id);
                        proof {
                            let after = pdf_objects(*doc);
                            assert(same_shape(mid, after)) by {
                                assert forall|k: (u32, u16)| #[trigger] is_dictionary_at(after, k) == is_dictionary_at(mid, k) by {}
                                assert forall|k: (u32, u16)| #[trigger] direct(resources_at_spec(after, k)) == direct(resources_at_spec(mid, k)) || !mid.contains_key(k) by {}
                            }
                            assert forall|h: Holder, c: Seq<u8>, n: Seq<u8>| #[trigger] defines(mid, h, c, n) implies defines(after, h, c, n)
                                && entry_at(after, h, c, n) == entry_at(mid, h, c, n) by {
                                assert(holder_key(h) != id);
                            }
                            assert forall|h: Holder, c: Seq<u8>, n: Seq<u8>| #[trigger] defines(after, h, c, n) && !defines(a, h, c, n)
                                implies default_entry(c, added) == Some(entry_at(after, h, c, n)) by {
                                if holder_key(h) != id {
                                    assert(defines(mid, h, c, n));
                                }
                            }
                            lemma_same_shape_trans(a, mid, after);
                            assert(after.dom() =~= mid.dom());
                            if added is Some {
                                assert(after[added->0] == mid[added->0]);
                            }
                            assert forall|j: int| 0 <= j < i && is_form_at(a, ids@[j]) implies #[trigger] form_repaired(a, after, ids@[j], added) by {
                                lemma_repaired_kept(a, mid, after, ids@[j], added);
                            }
                        }
                        Some(Holder::InStream(id.0, id.1))
                    },
                    ResourcesAt::Indirect(x, y) => {
                        if is_dictionary(doc, (x, y)) {
                            Some(Holder::InObject(x, y))
                        } else {
                            None
                        }
                    },
                    ResourcesAt::NotStream => None,
                };
                assert(holder == holder_of(a, id));
                if let Some(h) = holder {
                    let ghost s0 = pdf_objects(*doc);
                    define_missing(doc, h, cs_key.as_slice(), &names.color_spaces, Some(NewResource::Name(byte_vec(&[0x44u8, 0x65, 0x76, 0x69, 0x63, 0x65, 0x52, 0x47, 0x42]))));
                    let ghost s1 = pdf_objects(*doc);
                    define_missing(doc, h, gs_key.as_slice(), &names.ext_g_states, Some(NewResource::TypedDictionary(byte_vec(gs_key.as_slice()))));
                    let ghost s2 = pdf_objects(*doc);
                    let xo_value = match added {
                        Some(e) => Some(NewResource::Reference(e.0, e.1)),
                        None => None,
                    };
                    define_missing(doc, h, xo_key.as_slice(), &names.xobjects, xo_value);
                    proof {
                        let s3 = pdf_objects(*doc);
                        assert(seq![0x44u8, 0x65, 0x76, 0x69, 0x63, 0x65, 0x52, 0x47, 0x42] =~= device_rgb());
                        assert(new_entries_default(s0, s1, added));
                        assert(new_entries_default(s1, s2, added));
                        assert(new_entries_default(s2, s3, added));
                        lemma_chain(a, s0, s1, added);
                        lemma_chain(a, s1, s2, added);
                        lemma_chain(a, s2, s3, added);
                        assert forall|j: int| 0 <= j < i && is_form_at(a, ids@[j]) implies #[trigger] form_repaired(a, s3, ids@[j], added) by {
                            lemma_repaired_kept(a, s0, s1, ids@[j], added);
                            lemma_repaired_kept(a, s1, s2, ids@[j], added);
                            lemma_repaired_kept(a, s2, s3, ids@[j], added);
                        }
                        assert(form_repaired(a, s3, id, added)) by {
                            assert forall|n: Seq<u8>| #[trigger] color_space_names(content@).contains(n) implies defines(s3, h, color_space_key(), n) by {
                                assert(name_set(names.color_spaces@).contains(n));
                                assert(defines(s1, h, color_space_key(), n));
                                assert(defines(s2, h, color_space_key(), n));
                            }
                            assert forall|n: Seq<u8>| #[trigger] ext_g_state_names(content@).contains(n) implies defines(s3, h, ext_g_state_key(), n) by {
                                assert(name_set(names.ext_g_states@).contains(n));
                                assert(defines(s2, h, ext_g_state_key(), n));
                            }
                            if added is Some {
                                assert forall|n: Seq<u8>| #[trigger] xobject_names(content@).contains(n) implies defines(s3, h, xobject_key(), n) by {
                                    assert(name_set(names.xobjects@).contains(n));
                                }
                            }
                        }
                        if added is Some {
                            let e = added->0;
                            assert(holder_key(h) != e);
                            assert(s0.contains_key(e));
                            assert(s1[e] == s0[e]);
                            assert(s2[e] == s1[e]);
                            assert(s3[e] == s2[e]);
                        }
                    }
                }
            }
            proof {
                if !(names.color_spaces.len() > 0 || names.ext_g_states.len() > 0 || names.xobjects.len() > 0) {
                    assert(form_repaired(a, pdf_objects(*doc), id, added)) by {
                        assert forall|n: Seq<u8>| !#[trigger] color_space_names(content@).contains(n) by {
                            if name_set(names.color_spaces@).contains(n) {
                                let k = choose|k: int| 0 <= k < names.color_spaces@.len() && #[trigger] names.color_spaces@[k]@ == n;
                            }
                        }
                        assert forall|n: Seq<u8>| !#[trigger] ext_g_state_names(content@).contains(n) by {
                            if name_set(names.ext_g_states@).contains(n) {
                                let k = choose|k: int| 0 <= k < names.ext_g_states@.len() && #[trigger] names.ext_g_states@[k]@ == n;
                            }
                        }
                        assert forall|n: Seq<u8>| !#[trigger] xobject_names(content@).contains(n) by {
                            if name_set(names.xobjects@).contains(n) {
                                let k = choose|k: int| 0 <= k < names.xobjects@.len() && #[trigger] names.xobjects@[k]@ == n;
                            }
                        }
                    }
                }
                if added is None && can_add {
                    assert forall|n: Seq<u8>| !#[trigger] xobject_names(content@).contains(n) by {
                        if name_set(names.xobjects@).contains(n) {
                            let k = choose|k: int| 0 <= k < names.xobjects@.len() && #[trigger] names.xobjects@[k]@ == n;
                        }
                    }
                }
            }
        }
        i += 1;
    }
    proof {
        let fin = pdf_objects(*doc);
        assert forall|id: (u32, u16)| is_form_at(a, id) implies #[trigger] form_repaired(a, fin, id, added) by {
            assert(a.contains_key(id));
            assert(ids@.contains(id));
            let j = choose|j: int| 0 <= j < ids@.len() && ids@[j] == id;
        }
        if added is None && can_add && draws_xobject(a) {
            let (id, n) = choose|id: (u32, u16), n: Seq<u8>| is_form_at(a, id) && #[trigger] xobject_names(content_at(a, id)->0).contains(n);
            assert(a.contains_key(id));
            assert(ids@.contains(id));
            let j = choose|j: int| 0 <= j < ids@.len() && ids@[j] == id;
            assert(!xobject_names(content_at(a, ids@[j])->0).contains(n));
        }
    }
    added
}

/// What rounding leaves of a form: its content replaced by the rounded
/// stream, written plain, where that is shorter; else the form as it was.
pub open spec fn rounded_form(o: PdfObject, sh: spec_fn(Seq<u8>) -> Seq<u8>) -> PdfObject {
    if rounded_stream(o->content, sh).len() < o->content.len() {
        PdfObject::Stream {
            subtype: o->subtype,
            content: rounded_stream(o->content, sh),
            resources: o->resources,
            loose_decode_parms: false,
        }
    } else {
        o
    }
}

/// What rounding makes of the objects `a`: the same ids; each form rounded
/// (see [`rounded_form`]) for any spelling `shorten` computes; every other
/// object as it was.
pub open spec fn rounding_result<F: Fn(&[u8]) -> Vec<u8>>(a: Map<(u32, u16), PdfObject>, b: Map<(u32, u16), PdfObject>, shorten: F) -> bool {
    &&& b.dom() == a.dom()
    &&& forall|id: (u32, u16)| #[trigger] a.contains_key(id) && !is_form_at(a, id) ==> b[id] == a[id]
    &&& forall|id: (u32, u16), sh: spec_fn(Seq<u8>) -> Seq<u8>| is_form_at(a, id) && #[trigger] shortens_as(shorten, sh)
        ==> #[trigger] b[id] == rounded_form(a[id], sh)
}

/// Shorten the path coordinates of every form XObject (see
/// [`round_path_operands`]), keeping a form's content where rounding does
/// not make it shorter. Nothing else changes.
pub fn round_form_path_coordinates<F: Fn(&[u8]) -> Vec<u8>>(doc: &mut lopdf::Document, shorten: &F)
    requires
        forall|t: &[u8]| #[trigger] shorten.requires((t,)),
    ensures
        rounding_result(pdf_objects(*old(doc)), pdf_objects(*final(doc)), *shorten),
        pdf_max_id(*final(doc)) == pdf_max_id(*old(doc)),
{
    let ghost a = pdf_objects(*doc);
    let ids = object_ids(doc);
    let form = byte_vec(&[0x46u8, 0x6f, 0x72, 0x6d]);
    assert(form@ =~= form_subtype());
    let mut i: usize = 0;
    while i < ids.len()
        invariant
            i <= ids@.len(),
            forall|id: (u32, u16)| ids@.contains(id) <==> a.contains_key(id),
            forall|x: int, y: int| 0 <= x < y < ids@.len() ==> ids@[x] != ids@[y],
            forall|t: &[u8]| #[trigger] shorten.requires((t,)),
            form@ == form_subtype(),
            a == pdf_objects(*old(doc)),
            pdf_objects(*doc).dom() == a.dom(),
            pdf_max_id(*doc) == pdf_max_id(*old(doc)),
            forall|id: (u32, u16)| #[trigger] a.contains_key(id) && !(exists|j: int| 0 <= j < i && ids@[j] == id)
                ==> pdf_objects(*doc)[id] == a[id],
            forall|id: (u32, u16)| #[trigger] a.contains_key(id) && !is_form_at(a, id) ==> pdf_objects(*doc)[id] == a[id],
            forall|j: int, sh: spec_fn(Seq<u8>) -> Seq<u8>| 0 <= j < i && is_form_at(a, ids@[j]) && #[trigger] shortens_as(*shorten, sh)
                ==> #[trigger] pdf_objects(*doc)[ids@[j]] == rounded_form(a[ids@[j]], sh),
        decreases ids.len() - i,
    {
        let id = ids[i];
        assert(ids@.contains(id));
        let ghost cur = pdf_objects(*doc);
        assert(cur[id] == a[id]) by {
            assert(forall|j: int| 0 <= j < i ==> ids@[j] != id);
        }
        let sub = stream_subtype(doc, id);
        let is_form = match sub {
            Some(s) => same_bytes(s.as_slice(), form.as_slice()),
            None => false,
        };
        if is_form {
            let content = match stream_content(doc, id) {
                Some(c) => c,
                None => Vec::new(),
            };
            let rounded = round_operands_with(content.as_slice(), shorten);
            if rounded.len() < content.len() {
                set_plain_content(doc, id, rounded);
            }
        }
        proof {
            let now = pdf_objects(*doc);
            assert(now.dom() =~= a.dom());
            assert forall|id2: (u32, u16)| #[trigger] a.contains_key(id2) && !(exists|j: int| 0 <= j < i + 1 && ids@[j] == id2)
                implies now[id2] == a[id2] by {
                assert(ids@[i as int] != id2);
                assert(!(exists|j: int| 0 <= j < i && ids@[j] == id2));
            }
            assert forall|j: int, sh: spec_fn(Seq<u8>) -> Seq<u8>| 0 <= j < i + 1 && is_form_at(a, ids@[j]) && #[trigger] shortens_as(*shorten, sh)
                implies #[trigger] now[ids@[j]] == rounded_form(a[ids@[j]], sh) by {
                if j < i {
                    assert(ids@[j] != id);
                }
            }
        }
        i += 1;
    }
    proof {
        let fin = pdf_objects(*doc);
        assert forall|id: (u32, u16), sh: spec_fn(Seq<u8>) -> Seq<u8>| is_form_at(a, id) && #[trigger] shortens_as(*shorten, sh)
            implies #[trigger] fin[id] == rounded_form(a[id], sh) by {
            assert(ids@.contains(id));
            let j = choose|j: int| 0 <= j < ids@.len() && ids@[j] == id;
        }
    }
}

/// `Failed to parse PDF for compression: `
pub open spec fn parse_failure_prefix() -> Seq<char> {
    "Failed to parse PDF for compression: "@
}

/// `Failed to save compressed PDF: `
pub open spec fn save_failure_prefix() -> Seq<char> {
    "Failed to save compressed PDF: "@
}

fn prefixed(prefix: &str, message: String) -> (r: String)
    ensures
        r@ == prefix@ + message@,
{
    let mut r = String::new();
    r.append(prefix);
    r.append(message.as_str());
    r
}

/// Parse a PDF, give its form XObjects the resources their content names
/// (see [`repair_form_xobject_resources`]), shorten their path coordinates
/// with `shorten` (see [`round_form_path_coordinates`]), compress every
/// stream and write the document out. It fails exactly where lopdf cannot
/// parse the bytes, or cannot write the document; what it returns is what
/// lopdf writes for the loaded document once repaired, rounded and
/// compressed.
pub fn compress_pdf<F: Fn(&[u8]) -> Vec<u8>>(uncompressed: &[u8], shorten: F) -> (r: Result<Vec<u8>, String>)
    requires
        forall|t: &[u8]| #[trigger] shorten.requires((t,)),
    ensures
        !pdf_loads(uncompressed@) <==> (r is Err && exists|m: Seq<char>| r->Err_0@ == parse_failure_prefix() + m),
        pdf_loads(uncompressed@) ==> exists|d0: lopdf::Document, repaired: Map<(u32, u16), PdfObject>, added: Option<(u32, u16)>,
            rounded: Map<(u32, u16), PdfObject>, d2: lopdf::Document|
            #![trigger repair_result(pdf_objects(d0), pdf_max_id(d0), repaired, added), rounding_result(repaired, rounded, shorten), pdf_written(d2)]
            repair_result(pdf_objects(d0), pdf_max_id(d0), repaired, added)
                && rounding_result(repaired, rounded, shorten)
                && compressed_objects(rounded, pdf_objects(d2))
                && match r {
                    Ok(b) => pdf_written(d2) == Some(b@),
                    Err(e) => pdf_written(d2) is None && exists|m: Seq<char>| e@ == save_failure_prefix() + m,
                },
{
    let mut doc = match load_pdf(uncompressed) {
        Ok(d) => d,
        Err(e) => {
            let ghost m = e@;
            let r = prefixed("Failed to parse PDF for compression: ", e);
            proof {
                reveal_strlit("Failed to parse PDF for compression: ");
                assert(r@ == parse_failure_prefix() + m);
            }
            return Err(r);
        },
    };
    let ghost d0 = doc;
    let added = repair_form_xobject_resources(&mut doc);
    let ghost repaired = pdf_objects(doc);
    round_form_path_coordinates(&mut doc, &shorten);
    let ghost rounded = pdf_objects(doc);
    compress_document(&mut doc);
    let ghost d2 = doc;
    match save_document(&mut doc) {
        Ok(bytes) => {
            assert(repair_result(pdf_objects(d0), pdf_max_id(d0), repaired, added) && rounding_result(repaired, rounded, shorten)
                && compressed_objects(rounded, pdf_objects(d2)) && pdf_written(d2) == Some(bytes@));
            Ok(bytes)
        },
        Err(e) => {
            let ghost m = e@;
            let r = prefixed("Failed to save compressed PDF: ", e);
            proof {
                reveal_strlit("Failed to save compressed PDF: ");
                reveal_strlit("Failed to parse PDF for compression: ");
                assert(r@ == save_failure_prefix() + m);
                assert(repair_result(pdf_objects(d0), pdf_max_id(d0), repaired, added) && rounding_result(repaired, rounded, shorten)
                    && compressed_objects(rounded, pdf_objects(d2)) && pdf_written(d2) is None);
                assert(!(exists|m2: Seq<char>| r@ == parse_failure_prefix() + m2)) by {
                    if exists|m2: Seq<char>| r@ == parse_failure_prefix() + m2 {
                        let m2 = choose|m2: Seq<char>| r@ == parse_failure_prefix() + m2;
                        assert(r@[10] == (parse_failure_prefix() + m2)[10]);
                        assert(r@[10] == (save_failure_prefix() + m)[10]);
                    }
                }
            }
            Err(r)
        },
    }
}

/// `s` without its trailing run of byte `b`.
pub open spec fn trim_trailing(s: Seq<u8>, b: u8) -> Seq<u8>
    decreases s.len(),
{
    if s.len() > 0 && s.last() == b {
        trim_trailing(s.drop_last(), b)
    } else {
        s
    }
}

/// A fixed-point spelling tidied: with a `.`, trailing zeros and then
/// trailing dots go; an empty result, `-0` or `-` becomes `0`.
pub open spec fn tidy_number(f: Seq<u8>) -> Seq<u8> {
    let t = if f.contains(0x2eu8) {
        trim_trailing(trim_trailing(f, 0x30u8), 0x2eu8)
    } else {
        f
    };
    if t.len() == 0 || t == seq![0x2du8, 0x30u8] || t == seq![0x2du8] {
        seq![0x30u8]
    } else {
        t
    }
}

fn trim_trailing_exec(s: &[u8], b: u8) -> (r: Vec<u8>)
    ensures
        r@ == trim_trailing(s@, b),
{
    let mut n = s.len();
    assert(s@.take(n as int) =~= s@);
    while n > 0 && s[n - 1] == b
        invariant
            n <= s@.len(),
            trim_trailing(s@, b) == trim_trailing(s@.take(n as int), b),
        decreases n,
    {
        assert(s@.take(n as int).drop_last() =~= s@.take(n - 1));
        n -= 1;
    }
    let r = slice_bytes(s, 0, n);
    assert(r@ =~= s@.take(n as int));
    r
}

/// The shorter spelling of a path coordinate: `formatted` (its value in
/// fixed point) tidied (see [`tidy_number`]) where that is shorter than
/// `token`, else `token` itself.
pub fn shorter_spelling(token: &[u8], formatted: &[u8]) -> (r: Vec<u8>)
    ensures
        r@ == if tidy_number(formatted@).len() < token@.len() { tidy_number(formatted@) } else { token@ },
{
    let mut has_dot = false;
    let mut i: usize = 0;
    while i < formatted.len()
        invariant
            i <= formatted@.len(),
            has_dot == exists|k: int| 0 <= k < i && formatted@[k] == 0x2eu8,
        decreases formatted.len() - i,
    {
        if formatted[i] == 0x2e {
            has_dot = true;
        }
        i += 1;
    }
    assert(has_dot == formatted@.contains(0x2eu8));
    let t = if has_dot {
        let z = trim_trailing_exec(formatted, 0x30);
        trim_trailing_exec(z.as_slice(), 0x2e)
    } else {
        byte_vec(formatted)
    };
    let is_minus_zero = t.len() == 2 && t[0] == 0x2d && t[1] == 0x30;
    let is_minus = t.len() == 1 && t[0] == 0x2d;
    proof {
        if t@.len() == 2 {
            assert(is_minus_zero == (t@ == seq![0x2du8, 0x30u8])) by {
                if t@[0] == 0x2du8 && t@[1] == 0x30u8 {
                    assert(t@ =~= seq![0x2du8, 0x30u8]);
                }
            }
        }
        if t@.len() == 1 {
            assert(is_minus == (t@ == seq![0x2du8])) by {
                if t@[0] == 0x2du8 {
                    assert(t@ =~= seq![0x2du8]);
                }
            }
        }
    }
    let tidy = if t.len() == 0 || is_minus_zero || is_minus {
        let mut z: Vec<u8> = Vec::new();
        z.push(0x30);
        assert(z@ =~= seq![0x30u8]);
        z
    } else {
        t
    };
    if tidy.len() < token.len() {
        tidy
    } else {
        byte_vec(token)
    }
}

} // verus!
