//! Reading integers out of text, as `str::parse` and `from_str_radix` do.
use vstd::prelude::*;

verus! {

/// The value of digit `c` in base `radix` (at most 16), if it is one.
pub open spec fn digit_val(c: char, radix: int) -> Option<int> {
    let v = if '0' <= c && c <= '9' {
        c as int - '0' as int
    } else if 'a' <= c && c <= 'f' {
        c as int - 'a' as int + 10
    } else if 'A' <= c && c <= 'F' {
        c as int - 'A' as int + 10
    } else {
        99
    };
    if v < radix {
        Some(v)
    } else {
        None
    }
}

/// Every character of `d` is a digit in base `radix`.
pub open spec fn all_digits(d: Seq<char>, radix: int) -> bool {
    forall|i: int| 0 <= i < d.len() ==> (digit_val(#[trigger] d[i], radix) is Some)
}

/// The number the digits `d` spell in base `radix`.
pub open spec fn digits_value(d: Seq<char>, radix: int) -> int
    decreases d.len(),
{
    if d.len() == 0 {
        0
    } else {
        digits_value(d.drop_last(), radix) * radix + digit_val(d.last(), radix).unwrap_or(0)
    }
}

/// The digits of an unsigned number: `s` without one leading `+`.
pub open spec fn unsigned_digits(s: Seq<char>) -> Seq<char> {
    if s.len() > 0 && s[0] == '+' {
        s.drop_first()
    } else {
        s
    }
}

/// `from_str_radix` for an unsigned type whose largest value is `max`: an
/// optional `+`, then one or more digits, for a value no larger than `max`.
pub open spec fn parse_unsigned_spec(s: Seq<char>, radix: int, max: int) -> Option<int> {
    let d = unsigned_digits(s);
    if d.len() == 0 || !all_digits(d, radix) || digits_value(d, radix) > max {
        None
    } else {
        Some(digits_value(d, radix))
    }
}

/// `from_str_radix` for a signed type with range `min..=max`: an optional
/// `+` or `-`, then one or more digits, for a value in range.
pub open spec fn parse_signed_spec(s: Seq<char>, radix: int, min: int, max: int) -> Option<int> {
    if s.len() > 0 && s[0] == '-' {
        let d = s.drop_first();
        if d.len() == 0 || !all_digits(d, radix) || -digits_value(d, radix) < min {
            None
        } else {
            Some(-digits_value(d, radix))
        }
    } else {
        parse_unsigned_spec(s, radix, max)
    }
}

pub proof fn lemma_digits_value_monotone(d: Seq<char>, radix: int, i: int)
    requires
        1 <= radix,
        0 <= i <= d.len(),
    ensures
        digits_value(d.take(i), radix) <= digits_value(d, radix),
        0 <= digits_value(d.take(i), radix),
    decreases d.len(),
{
    lemma_digits_value_nonneg(d.take(i), radix);
    if i < d.len() {
        assert(d.drop_last().take(i) =~= d.take(i));
        lemma_digits_value_monotone(d.drop_last(), radix, i);
        lemma_digits_value_nonneg(d.drop_last(), radix);
        let a = digits_value(d.drop_last(), radix);
        assert(a * radix >= a) by (nonlinear_arith)
            requires
                a >= 0,
                radix >= 1,
        ;
    } else {
        assert(d.take(i) =~= d);
    }
}

pub proof fn lemma_digits_value_nonneg(d: Seq<char>, radix: int)
    requires
        1 <= radix,
    ensures
        0 <= digits_value(d, radix),
    decreases d.len(),
{
    if d.len() > 0 {
        lemma_digits_value_nonneg(d.drop_last(), radix);
        let a = digits_value(d.drop_last(), radix);
        assert(a * radix >= 0) by (nonlinear_arith)
            requires
                a >= 0,
                radix >= 1,
        ;
    }
}

/// The value of one digit.
fn digit_of(c: char, radix: u32) -> (r: Option<u64>)
    requires
        2 <= radix <= 16,
    ensures
        match digit_val(c, radix as int) {
            Some(v) => r == Some(v as u64),
            None => r is None,
        },
{
    let v: u32 = if '0' <= c && c <= '9' {
        (c as u32) - ('0' as u32)
    } else if 'a' <= c && c <= 'f' {
        (c as u32) - ('a' as u32) + 10
    } else if 'A' <= c && c <= 'F' {
        (c as u32) - ('A' as u32) + 10
    } else {
        99
    };
    if v < radix {
        Some(v as u64)
    } else {
        None
    }
}

/// Read the digits `d` (no sign) in base `radix`, refusing any value above
/// `max`.
fn digits_to_u64(d: &[char], radix: u32, max: u64) -> (r: Option<u64>)
    requires
        2 <= radix <= 16,
        max < 0x1000_0000_0000_0000u64,
    ensures
        match r {
            Some(v) => all_digits(d@, radix as int) && v == digits_value(d@, radix as int) && v
                <= max,
            None => !all_digits(d@, radix as int) || digits_value(d@, radix as int) > max,
        },
{
    let mut acc: u64 = 0;
    let mut i: usize = 0;
    while i < d.len()
        invariant
            2 <= radix <= 16,
            max < 0x1000_0000_0000_0000u64,
            i <= d@.len(),
            all_digits(d@.take(i as int), radix as int),
            acc == digits_value(d@.take(i as int), radix as int),
            acc <= max,
        decreases d.len() - i,
    {
        assert(d@.take(i + 1).drop_last() =~= d@.take(i as int));
        match digit_of(d[i], radix) {
            Some(v) => {
                assert(acc * (radix as u64) <= max * 16) by (nonlinear_arith)
                    requires
                        acc <= max,
                        radix <= 16,
                ;
                let next = acc * (radix as u64) + v;
                proof {
                    assert(all_digits(d@.take(i + 1), radix as int)) by {
                        assert forall|j: int| 0 <= j < i + 1 implies (digit_val(
                            #[trigger] d@.take(i + 1)[j],
                            radix as int,
                        ) is Some) by {
                            if j < i {
                                assert(d@.take(i + 1)[j] == d@.take(i as int)[j]);
                            }
                        }
                    }
                }
                if next > max {
                    proof {
                        lemma_digits_value_monotone(d@, radix as int, i + 1);
                    }
                    return None;
                }
                acc = next;
            },
            None => {
                assert(!(digit_val(d@[i as int], radix as int) is Some));
                return None;
            },
        }
        i += 1;
    }
    assert(d@.take(d@.len() as int) =~= d@);
    Some(acc)
}

/// `from_str_radix` for an unsigned type whose largest value is `max`.
pub fn parse_unsigned(s: &[char], radix: u32, max: u64) -> (r: Option<u64>)
    requires
        2 <= radix <= 16,
        max < 0x1000_0000_0000_0000u64,
    ensures
        r matches Some(v) ==> parse_unsigned_spec(s@, radix as int, max as int) == Some(v as int),
        r is None ==> parse_unsigned_spec(s@, radix as int, max as int) is None,
{
    let d: Vec<char> = if s.len() > 0 && s[0] == '+' {
        crate::text::slice_of(s, 1, s.len())
    } else {
        crate::text::slice_of(s, 0, s.len())
    };
    assert(d@ =~= unsigned_digits(s@));
    if d.len() == 0 {
        return None;
    }
    digits_to_u64(&d, radix, max)
}

/// `i32::from_str`: an optional sign, then decimal digits, in range.
pub fn parse_i32(s: &[char]) -> (r: Option<i32>)
    ensures
        r matches Some(v) ==> parse_signed_spec(s@, 10, i32::MIN as int, i32::MAX as int) == Some(
            v as int,
        ),
        r is None ==> parse_signed_spec(s@, 10, i32::MIN as int, i32::MAX as int) is None,
{
    if s.len() > 0 && s[0] == '-' {
        let d = crate::text::slice_of(s, 1, s.len());
        assert(d@ =~= s@.drop_first());
        if d.len() == 0 {
            return None;
        }
        match digits_to_u64(&d, 10, 2147483648) {
            Some(v) => {
                let n: i64 = 0 - (v as i64);
                Some(n as i32)
            },
            None => None,
        }
    } else {
        let r = parse_unsigned(s, 10, 2147483647);
        assert(!(s@.len() > 0 && s@[0] == '-'));
        match r {
            Some(v) => Some(v as i32),
            None => None,
        }
    }
}

} // verus!

verus! {

/// The number of `c` in `s`.
pub open spec fn count_char(s: Seq<char>, c: char) -> int
    decreases s.len(),
{
    if s.len() == 0 {
        0
    } else {
        count_char(s.drop_last(), c) + if s.last() == c {
            1int
        } else {
            0
        }
    }
}

/// A decimal mantissa: digits with at most one `.`, and at least one digit.
pub open spec fn mantissa_ok(m: Seq<char>) -> bool {
    &&& forall|i: int| 0 <= i < m.len() ==> (crate::text::is_digit(#[trigger] m[i]) || m[i] == '.')
    &&& count_char(m, '.') <= 1
    &&& exists|i: int| 0 <= i < m.len() && crate::text::is_digit(#[trigger] m[i])
}

/// `e` without one leading sign.
pub open spec fn sign_stripped(e: Seq<char>) -> Seq<char> {
    if e.len() > 0 && (e[0] == '+' || e[0] == '-') {
        e.drop_first()
    } else {
        e
    }
}

/// Every character of `d` is a decimal digit.
pub open spec fn all_decimal(d: Seq<char>) -> bool {
    forall|i: int| 0 <= i < d.len() ==> crate::text::is_digit(#[trigger] d[i])
}

/// An exponent: an optional sign, then one or more digits.
pub open spec fn exponent_ok(e: Seq<char>) -> bool {
    sign_stripped(e).len() > 0 && all_decimal(sign_stripped(e))
}

/// The index of the first `e` or `E` in `s`.
pub open spec fn exp_mark(s: Seq<char>) -> Option<int>
    decreases s.len(),
{
    if s.len() == 0 {
        None
    } else if s[0] == 'e' || s[0] == 'E' {
        Some(0)
    } else {
        match exp_mark(s.drop_first()) {
            Some(k) => Some(k + 1),
            None => None,
        }
    }
}

/// The text of a floating-point number as Rust reads one: an optional sign,
/// then `inf`, `infinity` or `nan` in any case, or a decimal mantissa with an
/// optional exponent (`e` or `E`, an optional sign, digits).
pub open spec fn float_literal(s: Seq<char>) -> bool {
    let b = sign_stripped(s);
    let l = crate::text::lower(b);
    if l == seq!['i', 'n', 'f'] || l == seq!['i', 'n', 'f', 'i', 'n', 'i', 't', 'y'] || l == seq![
        'n',
        'a',
        'n',
    ] {
        true
    } else {
        match exp_mark(b) {
            Some(k) => mantissa_ok(b.take(k)) && exponent_ok(b.skip(k + 1)),
            None => mantissa_ok(b),
        }
    }
}

proof fn lemma_exp_mark_bounds(s: Seq<char>)
    ensures
        exp_mark(s) matches Some(k) ==> 0 <= k < s.len() && (s[k] == 'e' || s[k] == 'E'),
    decreases s.len(),
{
    if s.len() > 0 && !(s[0] == 'e' || s[0] == 'E') {
        lemma_exp_mark_bounds(s.drop_first());
    }
}

fn mantissa_check(m: &[char]) -> (b: bool)
    ensures
        b == mantissa_ok(m@),
{
    let mut dots: usize = 0;
    let mut digit = false;
    let mut i: usize = 0;
    while i < m.len()
        invariant
            i <= m@.len(),
            forall|j: int| 0 <= j < i ==> (crate::text::is_digit(#[trigger] m@[j]) || m@[j] == '.'),
            dots == count_char(m@.take(i as int), '.'),
            dots <= 1,
            digit == exists|j: int| 0 <= j < i && crate::text::is_digit(#[trigger] m@[j]),
        decreases m.len() - i,
    {
        assert(m@.take(i + 1).drop_last() =~= m@.take(i as int));
        let c = m[i];
        if c == '.' {
            if dots == 1 {
                proof {
                    lemma_count_prefix(m@, '.', i + 1);
                }
                return false;
            }
            dots += 1;
        } else if '0' <= c && c <= '9' {
            digit = true;
        } else {
            return false;
        }
        i += 1;
        assert(digit == exists|j: int| 0 <= j < i && crate::text::is_digit(#[trigger] m@[j])) by {
            if '0' <= c && c <= '9' {
                assert(0 <= i - 1 < i && crate::text::is_digit(m@[i - 1]));
            }
        }
    }
    assert(m@.take(m@.len() as int) =~= m@);
    digit
}

proof fn lemma_count_prefix(s: Seq<char>, c: char, i: int)
    requires
        0 <= i <= s.len(),
    ensures
        count_char(s.take(i), c) <= count_char(s, c),
    decreases s.len(),
{
    if i < s.len() {
        assert(s.drop_last().take(i) =~= s.take(i));
        lemma_count_prefix(s.drop_last(), c, i);
    } else {
        assert(s.take(i) =~= s);
    }
}

fn exponent_check(e: &[char]) -> (b: bool)
    ensures
        b == exponent_ok(e@),
{
    let start: usize = if e.len() > 0 && (e[0] == '+' || e[0] == '-') {
        1
    } else {
        0
    };
    let d = crate::text::slice_of(e, start, e.len());
    assert(start == 1 ==> d@ =~= e@.drop_first());
    assert(start == 0 ==> d@ =~= e@);
    if d.len() == 0 {
        return false;
    }
    let mut i: usize = 0;
    while i < d.len()
        invariant
            i <= d@.len(),
            d@ == sign_stripped(e@),
            forall|j: int| 0 <= j < i ==> crate::text::is_digit(#[trigger] d@[j]),
        decreases d.len() - i,
    {
        if !('0' <= d[i] && d[i] <= '9') {
            assert(!crate::text::is_digit(d@[i as int]));
            return false;
        }
        i += 1;
    }
    true
}

/// Whether `s` is the text of a floating-point number (see [`float_literal`]).
pub fn is_float_literal(s: &[char]) -> (r: bool)
    ensures
        r == float_literal(s@),
{
    let start: usize = if s.len() > 0 && (s[0] == '+' || s[0] == '-') {
        1
    } else {
        0
    };
    let b = crate::text::slice_of(s, start, s.len());
    assert(start == 1 ==> b@ =~= s@.drop_first());
    assert(start == 0 ==> b@ =~= s@);
    let l = crate::text::to_lower(&b);
    let inf = ['i', 'n', 'f'];
    let infinity = ['i', 'n', 'f', 'i', 'n', 'i', 't', 'y'];
    let nan = ['n', 'a', 'n'];
    if same(&l, &inf) || same(&l, &infinity) || same(&l, &nan) {
        assert(inf@ =~= seq!['i', 'n', 'f']);
        assert(infinity@ =~= seq!['i', 'n', 'f', 'i', 'n', 'i', 't', 'y']);
        assert(nan@ =~= seq!['n', 'a', 'n']);
        return true;
    }
    assert(inf@ =~= seq!['i', 'n', 'f']);
    assert(infinity@ =~= seq!['i', 'n', 'f', 'i', 'n', 'i', 't', 'y']);
    assert(nan@ =~= seq!['n', 'a', 'n']);
    let mut k: usize = 0;
    assert(b@.skip(0) =~= b@);
    while k < b.len() && b[k] != 'e' && b[k] != 'E'
        invariant
            k <= b@.len(),
            exp_mark(b@) == (match exp_mark(b@.skip(k as int)) {
                Some(x) => Some(x + k),
                None => None::<int>,
            }),
        decreases b.len() - k,
    {
        assert(b@.skip(k as int).drop_first() =~= b@.skip(k + 1));
        k += 1;
    }
    if k < b.len() {
        assert(b@.skip(k as int)[0] == b@[k as int]);
        let m = crate::text::slice_of(&b, 0, k);
        let e = crate::text::slice_of(&b, k + 1, b.len());
        assert(e@ =~= b@.skip(k + 1));
        mantissa_check(&m) && exponent_check(&e)
    } else {
        assert(b@.skip(k as int).len() == 0);
        mantissa_check(&b)
    }
}

/// Whether two character runs are the same.
pub fn same(a: &[char], b: &[char]) -> (r: bool)
    ensures
        r == (a@ == b@),
{
    if a.len() != b.len() {
        return false;
    }
    let mut i: usize = 0;
    while i < a.len()
        invariant
            i <= a@.len(),
            a@.len() == b@.len(),
            forall|j: int| 0 <= j < i ==> a@[j] == b@[j],
        decreases a.len() - i,
    {
        if a[i] != b[i] {
            return false;
        }
        i += 1;
    }
    assert(a@ =~= b@);
    true
}

/// The digit character for `d` in `0..10`.
pub open spec fn digit_char(d: int) -> char {
    (('0' as int) + d) as char
}

/// `n` written in decimal, without leading zeros.
pub open spec fn decimal(n: nat) -> Seq<char>
    decreases n,
{
    if n < 10 {
        seq![digit_char(n as int)]
    } else {
        decimal(n / 10).push(digit_char((n % 10) as int))
    }
}

/// `n` in decimal.
pub fn u64_decimal(n: u64) -> (v: Vec<char>)
    ensures
        v@ == decimal(n as nat),
    decreases n,
{
    if n < 10 {
        let v = vec![crate::text::char_from_ascii(48 + n as u8)];
        assert(v@ =~= decimal(n as nat));
        v
    } else {
        let mut v = u64_decimal(n / 10);
        v.push(crate::text::char_from_ascii(48 + (n % 10) as u8));
        assert(v@ =~= decimal(n as nat));
        v
    }
}

/// `n` in decimal.
pub fn u8_decimal(n: u8) -> (v: Vec<char>)
    ensures
        v@ == decimal(n as nat),
{
    u64_decimal(n as u64)
}

} // verus!
