//! Page footers: their `%` tokens, their lines, and the date as Bridge
//! Composer spells it.
use vstd::prelude::*;

use crate::num::{decimal, parse_i32, parse_signed_spec, parse_unsigned, parse_unsigned_spec, u64_decimal};
use crate::model::metadata::opt_text;
use crate::text::{append, chars_of, split, split_by, split_by_chars, split_on, string_of, trim, trim_chars};

verus! {

/// The name of month `m` (1 for January).
pub open spec fn month_name(m: int) -> Seq<char> {
    if m == 1 {
        "January"@
    } else if m == 2 {
        "February"@
    } else if m == 3 {
        "March"@
    } else if m == 4 {
        "April"@
    } else if m == 5 {
        "May"@
    } else if m == 6 {
        "June"@
    } else if m == 7 {
        "July"@
    } else if m == 8 {
        "August"@
    } else if m == 9 {
        "September"@
    } else if m == 10 {
        "October"@
    } else if m == 11 {
        "November"@
    } else {
        "December"@
    }
}

/// The name of weekday `w` (0 for Sunday).
pub open spec fn day_name(w: int) -> Seq<char> {
    if w == 0 {
        "Sunday"@
    } else if w == 1 {
        "Monday"@
    } else if w == 2 {
        "Tuesday"@
    } else if w == 3 {
        "Wednesday"@
    } else if w == 4 {
        "Thursday"@
    } else if w == 5 {
        "Friday"@
    } else {
        "Saturday"@
    }
}

/// Sakamoto's month offsets, January first.
pub open spec fn month_offset(m: int) -> int {
    if m == 1 {
        0
    } else if m == 2 {
        3
    } else if m == 3 {
        2
    } else if m == 4 {
        5
    } else if m == 5 {
        0
    } else if m == 6 {
        3
    } else if m == 7 {
        5
    } else if m == 8 {
        1
    } else if m == 9 {
        4
    } else if m == 10 {
        6
    } else if m == 11 {
        2
    } else {
        4
    }
}

/// Division rounding toward zero, as Rust's integer `/` does.
pub open spec fn tdiv(a: int, b: int) -> int {
    if a >= 0 {
        a / b
    } else {
        -((-a) / b)
    }
}

/// The year, month and day a `%HRTitleDate` value such as `2017.01.17`
/// gives: three `.`-separated numbers, the month from 1 to 12 and the day one
/// of that month's days (see [`days_in_month`]), so that it is a real date.
pub open spec fn date_fields(date: Seq<char>) -> Option<(int, int, int)> {
    let ps = split(trim(date), '.');
    if ps.len() != 3 {
        None
    } else {
        match parse_signed_spec(ps[0], 10, i32::MIN as int, i32::MAX as int) {
            Some(y) => match parse_unsigned_spec(ps[1], 10, usize::MAX as int) {
                Some(m) => match parse_unsigned_spec(ps[2], 10, u32::MAX as int) {
                    Some(d) => {
                        if 1 <= m <= 12 && 1 <= d <= days_in_month(y, m) {
                            Some((y, m, d))
                        } else {
                            None
                        }
                    },
                    None => None,
                },
                None => None,
            },
            None => None,
        }
    }
}

/// The year Sakamoto's method counts from: the one before for January and
/// February.
pub open spec fn sakamoto_year(y: int, m: int) -> int {
    if m < 3 {
        y - 1
    } else {
        y
    }
}

/// The running sums of Sakamoto's method, in the order they are added.
pub open spec fn sakamoto_sums(y: int, m: int, d: int) -> Seq<int> {
    let z = sakamoto_year(y, m);
    let s1 = z + tdiv(z, 4);
    let s2 = s1 - tdiv(z, 100);
    let s3 = s2 + tdiv(z, 400);
    let s4 = s3 + month_offset(m);
    seq![z, s1, s2, s3, s4, s4 + d]
}

/// Whether every running sum fits in an `i32`, as the arithmetic needs.
pub open spec fn sakamoto_fits(y: int, m: int, d: int) -> bool {
    forall|i: int| 0 <= i < 6 ==> i32::MIN <= #[trigger] sakamoto_sums(y, m, d)[i] <= i32::MAX
}

/// The day of the week, 0 for Sunday.
pub open spec fn weekday(y: int, m: int, d: int) -> int {
    sakamoto_sums(y, m, d)[5] % 7
}

/// A leap year of the Gregorian calendar, counted back past year 1 as well.
pub open spec fn gregorian_leap(y: int) -> bool {
    y % 4 == 0 && (y % 100 != 0 || y % 400 == 0)
}

/// How many days month `m` of year `y` has.
pub open spec fn days_in_month(y: int, m: int) -> int {
    if m == 2 {
        if gregorian_leap(y) {
            29
        } else {
            28
        }
    } else if m == 4 || m == 6 || m == 9 || m == 11 {
        30
    } else {
        31
    }
}

/// The day after `(y, m, d)`.
pub open spec fn next_day(y: int, m: int, d: int) -> (int, int, int) {
    if d < days_in_month(y, m) {
        (y, m, d + 1)
    } else if m < 12 {
        (y, m + 1, 1)
    } else {
        (y + 1, 1, 1)
    }
}

/// How many leap years Sakamoto's sums count up to year `z`.
spec fn sakamoto_leaps(z: int) -> int {
    tdiv(z, 4) - tdiv(z, 100) + tdiv(z, 400)
}

proof fn lemma_tdiv_step(y: int, k: int)
    requires
        k == 4 || k == 100 || k == 400,
    ensures
        y >= 1 ==> tdiv(y, k) - tdiv(y - 1, k) == if y % k == 0 {
            1int
        } else {
            0int
        },
        y <= 0 ==> tdiv(y, k) - tdiv(y - 1, k) == if (1 - y) % k == 0 {
            1int
        } else {
            0int
        },
{
    if y >= 1 {
        let a = y;
        let b = y - 1;
        assert(a == k * (a / k) + a % k) by (nonlinear_arith)
            requires
                k > 0,
        ;
        assert(b == k * (b / k) + b % k) by (nonlinear_arith)
            requires
                k > 0,
        ;
        assert(0 <= a % k < k && 0 <= b % k < k);
        if a % k == 0 {
            assert(b % k == k - 1) by (nonlinear_arith)
                requires
                    a == k * (a / k) + a % k,
                    b == k * (b / k) + b % k,
                    b == a - 1,
                    a % k == 0,
                    0 <= b % k < k,
                    k > 0,
            ;
            assert(a / k == b / k + 1) by (nonlinear_arith)
                requires
                    a == k * (a / k),
                    b == k * (b / k) + k - 1,
                    b == a - 1,
                    k > 0,
            ;
        } else {
            assert(a / k == b / k) by (nonlinear_arith)
                requires
                    a == k * (a / k) + a % k,
                    b == k * (b / k) + b % k,
                    b == a - 1,
                    0 < a % k < k,
                    0 <= b % k < k,
                    k > 0,
            ;
        }
    } else {
        let a = 1 - y;
        let b = -y;
        assert(a == k * (a / k) + a % k) by (nonlinear_arith)
            requires
                k > 0,
        ;
        assert(b == k * (b / k) + b % k) by (nonlinear_arith)
            requires
                k > 0,
        ;
        assert(0 <= a % k < k && 0 <= b % k < k);
        if a % k == 0 {
            assert(a / k == b / k + 1) by (nonlinear_arith)
                requires
                    a == k * (a / k),
                    b == k * (b / k) + b % k,
                    b == a - 1,
                    0 <= b % k < k,
                    k > 0,
            ;
        } else {
            assert(a / k == b / k) by (nonlinear_arith)
                requires
                    a == k * (a / k) + a % k,
                    b == k * (b / k) + b % k,
                    b == a - 1,
                    0 < a % k < k,
                    0 <= b % k < k,
                    k > 0,
            ;
        }
    }
}

proof fn lemma_leap_divisors(n: int)
    ensures
        (if n % 4 == 0 {
            1int
        } else {
            0int
        }) - (if n % 100 == 0 {
            1int
        } else {
            0int
        }) + (if n % 400 == 0 {
            1int
        } else {
            0int
        }) == if gregorian_leap(n) {
            1int
        } else {
            0int
        },
{
    assert(n % 400 == 0 ==> n % 100 == 0) by {
        if n % 400 == 0 {
            assert(n == 400 * (n / 400)) by (nonlinear_arith)
                requires
                    n % 400 == 0,
            ;
            assert(n == 100 * (4 * (n / 400)));
            assert(n % 100 == 0) by (nonlinear_arith)
                requires
                    n == 100 * (4 * (n / 400)),
            ;
        }
    }
    assert(n % 100 == 0 ==> n % 4 == 0) by {
        if n % 100 == 0 {
            assert(n == 100 * (n / 100)) by (nonlinear_arith)
                requires
                    n % 100 == 0,
            ;
            assert(n == 4 * (25 * (n / 100)));
            assert(n % 4 == 0) by (nonlinear_arith)
                requires
                    n == 4 * (25 * (n / 100)),
            ;
        }
    }
}

/// Sakamoto's sum for a date, whose remainder by 7 is its weekday.
spec fn sakamoto_total(y: int, m: int, d: int) -> int {
    let z = sakamoto_year(y, m);
    z + sakamoto_leaps(z) + month_offset(m) + d
}

proof fn lemma_sakamoto_total(y: int, m: int, d: int)
    ensures
        weekday(y, m, d) == sakamoto_total(y, m, d) % 7,
{
    let z = sakamoto_year(y, m);
    let sums = sakamoto_sums(y, m, d);
    assert(sums[5] == z + tdiv(z, 4) - tdiv(z, 100) + tdiv(z, 400) + month_offset(m) + d);
}

proof fn lemma_week_step(s: int, s2: int, j: int)
    requires
        s2 == s + 1 - 7 * j,
    ensures
        s2 % 7 == (s % 7 + 1) % 7,
{
    assert(s == 7 * (s / 7) + s % 7) by (nonlinear_arith);
    assert(s2 == 7 * (s2 / 7) + s2 % 7) by (nonlinear_arith);
    assert(0 <= s % 7 < 7 && 0 <= s2 % 7 < 7);
    assert(s2 % 7 == (s % 7 + 1) % 7) by (nonlinear_arith)
        requires
            s == 7 * (s / 7) + s % 7,
            s2 == 7 * (s2 / 7) + s2 % 7,
            s2 == s + 1 - 7 * j,
            0 <= s % 7 < 7,
            0 <= s2 % 7 < 7,
    ;
}

proof fn lemma_leaps_step(y: int)
    requires
        y >= 1 || gregorian_leap(1 - y) == gregorian_leap(y),
    ensures
        sakamoto_leaps(y) - sakamoto_leaps(y - 1) == if gregorian_leap(y) {
            1int
        } else {
            0int
        },
{
    lemma_tdiv_step(y, 4);
    lemma_tdiv_step(y, 100);
    lemma_tdiv_step(y, 400);
    if y >= 1 {
        lemma_leap_divisors(y);
    } else {
        lemma_leap_divisors(1 - y);
    }
}

proof fn lemma_month_turn(y: int, m: int)
    requires
        1 <= m < 12,
        m != 2,
    ensures
        sakamoto_total(y, m + 1, 1) - sakamoto_total(y, m, days_in_month(y, m)) == 1 - 7 * (
        if m == 4 || m == 7 || m == 10 {
            5int
        } else {
            4int
        }),
{
    assert(sakamoto_year(y, m + 1) == sakamoto_year(y, m));
}

/// The weekday of the day after a date is the next one: the weekday a date
/// is spelt with runs through the week as the days run through the
/// Gregorian calendar. Before year 1 Sakamoto's sums, whose divisions round
/// toward zero, count the leap years from the following year, so the step
/// from the end of February to the first of March is left out where that
/// year's and the following year's leaping differ.
pub proof fn the_next_day_falls_on_the_next_weekday(y: int, m: int, d: int)
    requires
        1 <= m <= 12,
        1 <= d <= days_in_month(y, m),
        !(y <= 0 && m == 2 && d == days_in_month(y, 2) && gregorian_leap(1 - y) != gregorian_leap(
            y,
        )),
    ensures
        ({
            let (y2, m2, d2) = next_day(y, m, d);
            weekday(y2, m2, d2) == (weekday(y, m, d) + 1) % 7
        }),
{
    let (y2, m2, d2) = next_day(y, m, d);
    lemma_sakamoto_total(y, m, d);
    lemma_sakamoto_total(y2, m2, d2);
    let s = sakamoto_total(y, m, d);
    let s2 = sakamoto_total(y2, m2, d2);
    if d < days_in_month(y, m) {
        lemma_week_step(s, s2, 0);
    } else if m < 12 {
        if m == 2 {
            lemma_leaps_step(y);
            assert(s2 - s == 1 + (sakamoto_leaps(y) - sakamoto_leaps(y - 1)) + 2 - 3 + 1
                - days_in_month(y, 2));
            lemma_week_step(s, s2, 4);
        } else {
            lemma_month_turn(y, m);
            if m == 4 || m == 7 || m == 10 {
                lemma_week_step(s, s2, 5);
            } else {
                lemma_week_step(s, s2, 4);
            }
        }
    } else {
        assert(sakamoto_year(y + 1, 1) == y);
        assert(s2 - s == 0 - 4 + 1 - 31);
        lemma_week_step(s, s2, 5);
    }
}

/// Whether a date's weekday can be worked out in `i32` arithmetic; true of
/// anything that is no date.
pub open spec fn date_arithmetic_fits(date: Seq<char>) -> bool {
    match date_fields(date) {
        Some((y, m, d)) => sakamoto_fits(y, m, d),
        None => true,
    }
}

/// An integer in decimal, with a `-` when negative.
pub open spec fn int_text(y: int) -> Seq<char> {
    if y < 0 {
        seq!['-'] + decimal((-y) as nat)
    } else {
        decimal(y as nat)
    }
}

/// A date spelt out, as in "Tuesday, January 17, 2017"; `None` for anything
/// that is no real date.
pub open spec fn spelled(date: Seq<char>) -> Option<Seq<char>> {
    match date_fields(date) {
        Some((y, m, d)) => Some(
            day_name(weekday(y, m, d)) + ", "@ + month_name(m) + " "@ + decimal(d as nat) + ", "@
                + int_text(y),
        ),
        None => None,
    }
}

fn month_name_chars(m: usize) -> (v: Vec<char>)
    requires
        1 <= m <= 12,
    ensures
        v@ == month_name(m as int),
{
    let s = if m == 1 {
        "January"
    } else if m == 2 {
        "February"
    } else if m == 3 {
        "March"
    } else if m == 4 {
        "April"
    } else if m == 5 {
        "May"
    } else if m == 6 {
        "June"
    } else if m == 7 {
        "July"
    } else if m == 8 {
        "August"
    } else if m == 9 {
        "September"
    } else if m == 10 {
        "October"
    } else if m == 11 {
        "November"
    } else {
        "December"
    };
    chars_of(s)
}

fn day_name_chars(w: i64) -> (v: Vec<char>)
    requires
        0 <= w < 7,
    ensures
        v@ == day_name(w as int),
{
    let s = if w == 0 {
        "Sunday"
    } else if w == 1 {
        "Monday"
    } else if w == 2 {
        "Tuesday"
    } else if w == 3 {
        "Wednesday"
    } else if w == 4 {
        "Thursday"
    } else if w == 5 {
        "Friday"
    } else {
        "Saturday"
    };
    chars_of(s)
}

fn month_offset_of(m: usize) -> (o: i64)
    requires
        1 <= m <= 12,
    ensures
        o == month_offset(m as int),
{
    if m == 1 {
        0
    } else if m == 2 {
        3
    } else if m == 3 {
        2
    } else if m == 4 {
        5
    } else if m == 5 {
        0
    } else if m == 6 {
        3
    } else if m == 7 {
        5
    } else if m == 8 {
        1
    } else if m == 9 {
        4
    } else if m == 10 {
        6
    } else if m == 11 {
        2
    } else {
        4
    }
}

fn tdiv_of(a: i64, b: i64) -> (q: i64)
    requires
        b > 0,
        -0x1_0000_0000 <= a <= 0x1_0000_0000,
    ensures
        q == tdiv(a as int, b as int),
{
    if a >= 0 {
        a / b
    } else {
        -((-a) / b)
    }
}

fn euclid_mod7(a: i64) -> (r: i64)
    requires
        -0x1_0000_0000 <= a <= 0x1_0000_0000,
    ensures
        r == a % 7,
        0 <= r < 7,
{
    if a >= 0 {
        a % 7
    } else {
        let m = (-a) % 7;
        assert((-a) == 7 * ((-a) / 7) + m) by (nonlinear_arith)
            requires
                -a >= 0,
                m == (-a) % 7,
        ;
        if m == 0 {
            assert(a == 7 * (-((-a) / 7)));
            assert(a % 7 == 0) by (nonlinear_arith)
                requires
                    a == 7 * (-((-a) / 7)),
            ;
            0
        } else {
            assert(a == 7 * (-((-a) / 7) - 1) + (7 - m));
            assert(a % 7 == 7 - m) by (nonlinear_arith)
                requires
                    a == 7 * (-((-a) / 7) - 1) + (7 - m),
                    0 < 7 - m < 7,
            ;
            7 - m
        }
    }
}

/// The year, month and day of `date` (see [`date_fields`]).
fn divides(k: u64, y: i32) -> (b: bool)
    requires
        k > 0,
    ensures
        b == ((y as int) % (k as int) == 0),
{
    let a: u64 = if y < 0 {
        (-(y as i64)) as u64
    } else {
        y as u64
    };
    let r = a % k;
    proof {
        let ki = k as int;
        let yi = y as int;
        let ai = a as int;
        assert(ai == ki * (ai / ki) + ai % ki) by (nonlinear_arith)
            requires
                ki > 0,
        ;
        assert(yi == ki * (yi / ki) + yi % ki) by (nonlinear_arith)
            requires
                ki > 0,
        ;
        if yi < 0 {
            assert(ai == -yi);
            if ai % ki == 0 {
                assert(yi == ki * (-(ai / ki))) by (nonlinear_arith)
                    requires
                        ai == ki * (ai / ki),
                        ai == -yi,
                ;
                assert(yi % ki == 0) by (nonlinear_arith)
                    requires
                        yi == ki * (-(ai / ki)),
                        ki > 0,
                ;
            }
            if yi % ki == 0 {
                assert(ai == ki * (-(yi / ki))) by (nonlinear_arith)
                    requires
                        yi == ki * (yi / ki),
                        ai == -yi,
                ;
                assert(ai % ki == 0) by (nonlinear_arith)
                    requires
                        ai == ki * (-(yi / ki)),
                        ki > 0,
                        ai >= 0,
                ;
            }
        }
    }
    r == 0
}

/// How many days month `m` of year `y` has (see [`days_in_month`]).
fn month_length(y: i32, m: usize) -> (n: u64)
    ensures
        n == days_in_month(y as int, m as int),
{
    if m == 2 {
        let leap = divides(4, y) && (!divides(100, y) || divides(400, y));
        if leap {
            29
        } else {
            28
        }
    } else if m == 4 || m == 6 || m == 9 || m == 11 {
        30
    } else {
        31
    }
}

fn read_date(date: &str) -> (r: Option<(i32, usize, u32)>)
    ensures
        r matches Some((y, m, d)) ==> date_fields(date@) == Some((y as int, m as int, d as int)),
        r is None ==> date_fields(date@) is None,
{
    let parts = split_on(&trim_chars(&chars_of(date)), '.');
    let ghost ps = parts@.map_values(|v: Vec<char>| v@);
    if parts.len() != 3 {
        return None;
    }
    assert(ps[0] == parts@[0]@ && ps[1] == parts@[1]@ && ps[2] == parts@[2]@);
    let y = match parse_i32(&parts[0]) {
        Some(y) => y,
        None => {
            return None;
        },
    };
    let m = match parse_unsigned(&parts[1], 10, 12) {
        Some(m) => m,
        None => {
            return None;
        },
    };
    let d = match parse_unsigned(&parts[2], 10, 31) {
        Some(d) => d,
        None => {
            return None;
        },
    };
    if m < 1 || d < 1 || d > month_length(y, m as usize) {
        return None;
    }
    Some((y, m as usize, d as u32))
}

fn fits_i32(x: i64) -> (b: bool)
    ensures
        b == (i32::MIN <= x <= i32::MAX),
{
    -0x8000_0000 <= x && x <= 0x7fff_ffff
}

/// Whether `date`'s weekday can be worked out in `i32` arithmetic (see
/// [`date_arithmetic_fits`]).
pub fn date_spellable(date: &str) -> (b: bool)
    ensures
        b == date_arithmetic_fits(date@),
{
    match read_date(date) {
        Some((y, m, d)) => {
            let z: i64 = if m < 3 {
                y as i64 - 1
            } else {
                y as i64
            };
            let s1 = z + tdiv_of(z, 4);
            let s2 = s1 - tdiv_of(z, 100);
            let s3 = s2 + tdiv_of(z, 400);
            let s4 = s3 + month_offset_of(m);
            let s5 = s4 + d as i64;
            let ok = fits_i32(z) && fits_i32(s1) && fits_i32(s2) && fits_i32(s3) && fits_i32(s4) && fits_i32(s5);
            proof {
                let ss = sakamoto_sums(y as int, m as int, d as int);
                assert(ss =~= seq![z as int, s1 as int, s2 as int, s3 as int, s4 as int, s5 as int]);
                if ok {
                    assert forall|i: int| 0 <= i < 6 implies i32::MIN <= #[trigger] ss[i] <= i32::MAX by {
                    }
                } else {
                    assert(!(i32::MIN <= ss[0] <= i32::MAX && i32::MIN <= ss[1] <= i32::MAX && i32::MIN
                        <= ss[2] <= i32::MAX && i32::MIN <= ss[3] <= i32::MAX && i32::MIN <= ss[4]
                        <= i32::MAX && i32::MIN <= ss[5] <= i32::MAX));
                }
            }
            ok
        },
        None => true,
    }
}

/// `%HRTitleDate`'s `2017.01.17` as Bridge Composer spells it: "Tuesday,
/// January 17, 2017" (see [`spelled`]). `None` for anything that is not a
/// real date, `0` included: the value Bridge Composer writes when the title
/// has no date.
pub fn spelled_date(date: &str) -> (r: Option<String>)
    requires
        date_arithmetic_fits(date@),
    ensures
        match spelled(date@) {
            Some(x) => r matches Some(s) && s@ == x,
            None => r is None,
        },
{
    let (y, m, d) = match read_date(date) {
        Some(f) => f,
        None => {
            return None;
        },
    };
    let z: i64 = if m < 3 {
        y as i64 - 1
    } else {
        y as i64
    };
    let s1 = z + tdiv_of(z, 4);
    let s2 = s1 - tdiv_of(z, 100);
    let s3 = s2 + tdiv_of(z, 400);
    let s4 = s3 + month_offset_of(m);
    let s5 = s4 + d as i64;
    let w = euclid_mod7(s5);
    let mut v = day_name_chars(w);
    append(&mut v, &chars_of(", "));
    append(&mut v, &month_name_chars(m));
    append(&mut v, &chars_of(" "));
    append(&mut v, &u64_decimal(d as u64));
    append(&mut v, &chars_of(", "));
    if y < 0 {
        append(&mut v, &['-']);
        append(&mut v, &u64_decimal((-(y as i64)) as u64));
    } else {
        append(&mut v, &u64_decimal(y as u64));
    }
    proof {
        let ss = sakamoto_sums(y as int, m as int, d as int);
        assert(ss[5] == s5);
    }
    assert(v@ =~= spelled(date@)->0);
    Some(string_of(&v))
}

/// The pieces of each part in `parts`, split at `p`, one after another.
pub open spec fn split_each(parts: Seq<Seq<char>>, p: Seq<char>) -> Seq<Seq<char>>
    decreases parts.len(),
{
    if parts.len() == 0 {
        seq![]
    } else {
        split_each(parts.drop_last(), p) + split_by(parts.last(), p)
    }
}

/// A footer cell's lines: the file escapes its line break, so `\\n`, or a
/// lone `\n`, separates them.
pub open spec fn footer_lines_of(text: Seq<char>) -> Seq<Seq<char>> {
    split_each(split_by(text, seq!['\\', '\\', 'n']), seq!['\\', 'n'])
}

/// A footer cell's lines (see [`footer_lines_of`]).
pub fn footer_lines(text: &str) -> (r: Vec<String>)
    ensures
        r@.map_values(|l: String| l@) == footer_lines_of(text@),
{
    let double = ['\\', '\\', 'n'];
    let single = ['\\', 'n'];
    assert(double@ =~= seq!['\\', '\\', 'n'] && single@ =~= seq!['\\', 'n']);
    let parts = split_by_chars(&chars_of(text), &double);
    let ghost ps = parts@.map_values(|v: Vec<char>| v@);
    let mut out: Vec<String> = Vec::new();
    let mut i: usize = 0;
    assert(ps.take(0) =~= Seq::<Seq<char>>::empty());
    assert(out@.map_values(|l: String| l@) =~= Seq::<Seq<char>>::empty());
    while i < parts.len()
        invariant
            i <= parts@.len(),
            ps == parts@.map_values(|v: Vec<char>| v@),
            ps == split_by(text@, seq!['\\', '\\', 'n']),
            single@ == seq!['\\', 'n'],
            out@.map_values(|l: String| l@) == split_each(ps.take(i as int), single@),
        decreases parts.len() - i,
    {
        assert(ps.take(i + 1).drop_last() =~= ps.take(i as int));
        assert(ps.take(i + 1).last() == parts@[i as int]@);
        let lines = split_by_chars(&parts[i], &single);
        let ghost ls = lines@.map_values(|v: Vec<char>| v@);
        let mut j: usize = 0;
        let ghost before = out@.map_values(|l: String| l@);
        assert(ls.take(0) =~= Seq::<Seq<char>>::empty());
        assert(before + ls.take(0) =~= before);
        while j < lines.len()
            invariant
                j <= lines@.len(),
                ls == lines@.map_values(|v: Vec<char>| v@),
                out@.map_values(|l: String| l@) == before + ls.take(j as int),
            decreases lines.len() - j,
        {
            let ghost o = out@;
            out.push(string_of(&lines[j]));
            assert(ls.take(j + 1) =~= ls.take(j as int).push(lines@[j as int]@));
            assert(out@.map_values(|l: String| l@) =~= o.map_values(|l: String| l@).push(
                lines@[j as int]@,
            ));
            j += 1;
        }
        assert(ls.take(j as int) =~= ls);
        i += 1;
    }
    assert(ps.take(i as int) =~= ps);
    out
}

/// The title fields a footer can quote.
#[derive(Clone, Debug)]
pub struct FooterTitles {
    /// `%HRTitleDate`.
    pub date: Option<String>,
    /// `%HRTitleSite`.
    pub site: Option<String>,
    /// The event title the file's metadata gives.
    pub event: Option<String>,
    /// `%HRTitleSetID`.
    pub set_id: Option<String>,
}

/// What a `%` token stands for: the spelt-out date (`D`), the site (`s`),
/// the page number (`n`) and count (`N`), the event (`e`), the set (`t`);
/// nothing for the file's folder (`P`); any other character itself.
pub open spec fn token_text(
    c: char,
    page: nat,
    pages: nat,
    date: Option<Seq<char>>,
    site: Option<Seq<char>>,
    event: Option<Seq<char>>,
    set_id: Option<Seq<char>>,
) -> Seq<char> {
    let or_empty = |o: Option<Seq<char>>|
        match o {
            Some(x) => x,
            None => seq![],
        };
    if c == 'D' {
        match date {
            Some(d) => match spelled(d) {
                Some(x) => x,
                None => seq![],
            },
            None => seq![],
        }
    } else if c == 's' {
        or_empty(site)
    } else if c == 'n' {
        decimal(page)
    } else if c == 'N' {
        decimal(pages)
    } else if c == 'e' {
        or_empty(event)
    } else if c == 't' {
        or_empty(set_id)
    } else if c == 'P' {
        seq![]
    } else {
        seq![c]
    }
}

/// A footer cell's text with its `%` tokens filled in; a `%` that ends the
/// text stays.
pub open spec fn expanded(
    t: Seq<char>,
    page: nat,
    pages: nat,
    date: Option<Seq<char>>,
    site: Option<Seq<char>>,
    event: Option<Seq<char>>,
    set_id: Option<Seq<char>>,
) -> Seq<char>
    decreases t.len(),
{
    if t.len() == 0 {
        seq![]
    } else if t[0] != '%' {
        seq![t[0]] + expanded(t.drop_first(), page, pages, date, site, event, set_id)
    } else if t.len() == 1 {
        seq!['%']
    } else {
        token_text(t[1], page, pages, date, site, event, set_id) + expanded(
            t.skip(2),
            page,
            pages,
            date,
            site,
            event,
            set_id,
        )
    }
}

fn opt_chars(o: &Option<String>) -> (v: Vec<char>)
    ensures
        v@ == (match opt_text(*o) {
            Some(x) => x,
            None => seq![],
        }),
{
    match o {
        Some(s) => chars_of(s.as_str()),
        None => Vec::new(),
    }
}

/// A footer cell with its `%` tokens filled in (see [`expanded`]).
pub fn expand(text: &str, page: usize, pages: usize, titles: &FooterTitles) -> (r: String)
    requires
        titles.date matches Some(d) ==> date_arithmetic_fits(d@),
    ensures
        r@ == expanded(
            text@,
            page as nat,
            pages as nat,
            opt_text(titles.date),
            opt_text(titles.site),
            opt_text(titles.event),
            opt_text(titles.set_id),
        ),
{
    let ghost (dt, st, ev, si) = (
        opt_text(titles.date),
        opt_text(titles.site),
        opt_text(titles.event),
        opt_text(titles.set_id),
    );
    let t = chars_of(text);
    let mut out: Vec<char> = Vec::new();
    let mut i: usize = 0;
    assert(t@.skip(0) =~= t@);
    while i < t.len()
        invariant
            i <= t@.len(),
            t@ == text@,
            dt == opt_text(titles.date),
            st == opt_text(titles.site),
            ev == opt_text(titles.event),
            si == opt_text(titles.set_id),
            titles.date matches Some(d) ==> date_arithmetic_fits(d@),
            expanded(t@, page as nat, pages as nat, dt, st, ev, si) == out@ + expanded(
                t@.skip(i as int),
                page as nat,
                pages as nat,
                dt,
                st,
                ev,
                si,
            ),
        decreases t.len() - i,
    {
        let ghost rest = t@.skip(i as int);
        let ghost o = out@;
        let c = t[i];
        assert(rest[0] == c);
        if c != '%' {
            out.push(c);
            assert(rest.drop_first() =~= t@.skip(i + 1));
            i += 1;
            assert(out@ =~= o + seq![c]);
            continue;
        }
        if i + 1 == t.len() {
            out.push('%');
            assert(rest.len() == 1);
            assert(t@.skip(i + 1).len() == 0);
            assert(out@ =~= o + seq!['%']);
            i += 1;
            continue;
        }
        let k = t[i + 1];
        assert(rest[1] == k);
        assert(rest.skip(2) =~= t@.skip(i + 2));
        let piece: Vec<char> = if k == 'D' {
            match &titles.date {
                Some(d) => match spelled_date(d.as_str()) {
                    Some(x) => chars_of(x.as_str()),
                    None => Vec::new(),
                },
                None => Vec::new(),
            }
        } else if k == 's' {
            opt_chars(&titles.site)
        } else if k == 'n' {
            u64_decimal(page as u64)
        } else if k == 'N' {
            u64_decimal(pages as u64)
        } else if k == 'e' {
            opt_chars(&titles.event)
        } else if k == 't' {
            opt_chars(&titles.set_id)
        } else if k == 'P' {
            Vec::new()
        } else {
            vec![k]
        };
        assert(piece@ =~= token_text(k, page as nat, pages as nat, dt, st, ev, si));
        append(&mut out, &piece);
        i += 2;
    }
    assert(t@.skip(i as int).len() == 0);
    assert(out@ + seq![] =~= out@);
    string_of(&out)
}

} // verus!
