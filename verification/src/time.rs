//! UTC timestamps as epoch milliseconds, and parsing of the ISO 8601
//! date-time strings the carriers report.

use vstd::prelude::*;
use vstd::string::StrSliceExecFns;

use crate::strutil::digit_char;

verus! {

/// A leap year in the Gregorian calendar.
pub open spec fn is_leap(y: int) -> bool {
    y % 4 == 0 && (y % 100 != 0 || y % 400 == 0)
}

pub open spec fn days_in_year(y: int) -> int {
    if is_leap(y) {
        366
    } else {
        365
    }
}

/// Days from the epoch to the start of year `y`.
pub open spec fn year_start_days(y: int) -> int
    decreases y - 1970,
{
    if y <= 1970 {
        0
    } else {
        year_start_days(y - 1) + days_in_year(y - 1)
    }
}

/// The length of month `m` (1-based) of year `y`.
pub open spec fn days_in_month(y: int, m: int) -> int {
    if m == 2 {
        if is_leap(y) {
            29
        } else {
            28
        }
    } else if m == 4 || m == 6 || m == 9 || m == 11 {
        30
    } else {
        31
    }
}

/// Days from the start of year `y` to the start of month `m` (1-based).
pub open spec fn month_start_days(y: int, m: int) -> int
    decreases m,
{
    if m <= 1 {
        0
    } else {
        month_start_days(y, m - 1) + days_in_month(y, m - 1)
    }
}

/// Days from the epoch to the civil date `y-m-d`.
pub open spec fn civil_days(y: int, m: int, d: int) -> int {
    year_start_days(y) + month_start_days(y, m) + d - 1
}

/// Epoch milliseconds of the civil UTC instant.
pub open spec fn civil_millis(
    y: int,
    m: int,
    d: int,
    hh: int,
    mi: int,
    ss: int,
    ms: int,
) -> int {
    ((((civil_days(y, m, d) * 24 + hh) * 60 + mi) * 60 + ss)) * 1000 + ms
}

/// A plausible civil date-time in the supported range.
pub open spec fn valid_civil(y: int, m: int, d: int, hh: int, mi: int, ss: int, ms: int) -> bool {
    &&& 1970 <= y <= 9999
    &&& 1 <= m <= 12
    &&& 1 <= d <= days_in_month(y, m)
    &&& 0 <= hh < 24
    &&& 0 <= mi < 60
    &&& 0 <= ss < 60
    &&& 0 <= ms < 1000
}

proof fn lemma_year_start_bound(y: int)
    requires
        1970 <= y,
    ensures
        0 <= year_start_days(y) <= (y - 1970) * 366,
    decreases y - 1970,
{
    if y > 1970 {
        lemma_year_start_bound(y - 1);
    }
}

proof fn lemma_month_start_bound(y: int, m: int)
    requires
        1 <= m <= 13,
    ensures
        0 <= month_start_days(y, m) <= (m - 1) * 31,
    decreases m,
{
    if m > 1 {
        lemma_month_start_bound(y, m - 1);
    }
}

/// Epoch milliseconds of a civil UTC date-time.
pub fn millis_from_civil(y: u32, m: u32, d: u32, hh: u32, mi: u32, ss: u32, ms: u32) -> (r: i64)
    requires
        valid_civil(y as int, m as int, d as int, hh as int, mi as int, ss as int, ms as int),
    ensures
        r == civil_millis(y as int, m as int, d as int, hh as int, mi as int, ss as int, ms as int),
        0 <= r < 260000000000000,
{
    proof {
        lemma_year_start_bound(y as int);
    }
    let mut days: u64 = 0;
    let mut cy: u32 = 1970;
    while cy < y
        invariant
            1970 <= cy <= y <= 9999,
            days == year_start_days(cy as int),
            days <= (cy - 1970) * 366,
        decreases y - cy,
    {
        proof {
            lemma_year_start_bound(cy as int);
        }
        let leap = (cy % 4 == 0 && (cy % 100 != 0 || cy % 400 == 0));
        days = days + (if leap {
            366
        } else {
            365
        });
        cy = cy + 1;
    }
    proof {
        lemma_month_start_bound(y as int, m as int);
    }
    let mut mdays: u32 = 0;
    let mut cm: u32 = 1;
    while cm < m
        invariant
            1 <= cm <= m <= 12,
            1970 <= y <= 9999,
            mdays == month_start_days(y as int, cm as int),
            mdays <= (cm - 1) * 31,
        decreases m - cm,
    {
        proof {
            lemma_month_start_bound(y as int, cm as int);
        }
        let leap = (y % 4 == 0 && (y % 100 != 0 || y % 400 == 0));
        let dim: u32 = if cm == 2 {
            if leap {
                29
            } else {
                28
            }
        } else if cm == 4 || cm == 6 || cm == 9 || cm == 11 {
            30
        } else {
            31
        };
        mdays = mdays + dim;
        cm = cm + 1;
    }
    proof {
        lemma_year_start_bound(y as int);
        lemma_month_start_bound(y as int, m as int);
    }
    let total_days: u64 = days + (mdays as u64) + (d as u64) - 1;
    let secs: u64 = ((total_days * 24 + (hh as u64)) * 60 + (mi as u64)) * 60 + (ss as u64);
    (secs * 1000 + (ms as u64)) as i64
}

/// A window of `n` decimal digit characters stands at `i`.
pub open spec fn digits_at(s: Seq<char>, i: int, n: int) -> bool {
    i + n <= s.len() && forall|k: int| i <= k < i + n ==> digit_char(#[trigger] s[k])
}

/// The number denoted by a sequence of digit characters, most significant
/// first.
pub open spec fn char_digits_val(s: Seq<char>) -> int
    decreases s.len(),
{
    if s.len() == 0 {
        0
    } else {
        char_digits_val(s.drop_last()) * 10 + (s.last() as u32 - 48)
    }
}

/// Read `n` decimal digits at character position `i` of `s`.
fn read_digits(s: &str, i: usize, n: usize) -> (r: Option<u32>)
    requires
        n <= 9,
    ensures
        r matches Some(v) ==> digits_at(s@, i as int, n as int) && v == char_digits_val(
            s@.subrange(i as int, i + n),
        ) && v < pow10(n as int),
        r is None ==> !digits_at(s@, i as int, n as int),
{
    let sl = s.unicode_len();
    if sl < n || i > sl - n {
        return None;
    }
    let mut v: u32 = 0;
    let mut k: usize = 0;
    proof {
        assert(s@.subrange(i as int, i as int) =~= Seq::<char>::empty());
    }
    while k < n
        invariant
            k <= n <= 9,
            i + n <= s@.len(),
            s@.len() == sl,
            v < pow10(k as int),
            v == char_digits_val(s@.subrange(i as int, i + k)),
            forall|q: int| i <= q < i + k ==> digit_char(#[trigger] s@[q]),
        decreases n - k,
    {
        let c = s.get_char(i + k);
        let u = c as u32;
        if !(48 <= u && u <= 57) {
            proof {
                assert(!digit_char(s@[i + k]));
            }
            return None;
        }
        proof {
            lemma_pow10_small(k as int);
            lemma_pow10_small(k as int + 1);
            assert(s@.subrange(i as int, i + k + 1).drop_last() =~= s@.subrange(i as int, i + k));
            assert(s@.subrange(i as int, i + k + 1).last() == s@[i + k]);
        }
        v = v * 10 + (u - 48);
        k += 1;
    }
    proof {
        lemma_pow10_mono(k as int, n as int);
    }
    Some(v)
}

/// Ten to the `n`th power.
pub open spec fn pow10(n: int) -> int
    decreases n,
{
    if n <= 0 {
        1
    } else {
        10 * pow10(n - 1)
    }
}

proof fn lemma_pow10_pos(n: int)
    requires
        0 <= n,
    ensures
        pow10(n) >= 1,
    decreases n,
{
    if n > 0 {
        lemma_pow10_pos(n - 1);
    }
}

proof fn lemma_pow10_mono(a: int, b: int)
    requires
        0 <= a <= b,
    ensures
        pow10(a) <= pow10(b),
    decreases b - a,
{
    if a < b {
        lemma_pow10_mono(a, b - 1);
        lemma_pow10_pos(b - 1);
    }
}

/// Concrete bounds for the ten smallest powers of ten.
proof fn lemma_pow10_small(n: int)
    requires
        0 <= n <= 9,
    ensures
        pow10(n) <= 1000000000,
{
    reveal_with_fuel(pow10, 11);
    lemma_pow10_mono(n, 9);
    assert(pow10(9) == 1000000000);
}

/// The tail of a timestamp string beginning at `pos` is a valid offset:
/// the end of the string, a final `Z`, or a `±HH:MM` with sane fields.
pub open spec fn spec_iso_offset(s: Seq<char>, pos: int) -> bool {
    ||| pos == s.len()
    ||| (pos + 1 == s.len() && s[pos] == 'Z')
    ||| ((s[pos] == '+' || s[pos] == '-') && s.len() - pos == 6 && digits_at(s, pos + 1, 2) && s[pos
        + 3] == ':' && digits_at(s, pos + 4, 2) && char_digits_val(s.subrange(pos + 1, pos + 3))
        <= 23 && char_digits_val(s.subrange(pos + 4, pos + 6)) <= 59)
}

/// A well-formed, in-range ISO 8601 date-time string, exactly the shape
/// `parse_timestamp` accepts: date, `T`, time, an optional fraction of one
/// to nine digits, and an optional offset.
pub open spec fn spec_valid_iso(s: Seq<char>) -> bool {
    &&& s.len() >= 19
    &&& digits_at(s, 0, 4) && s[4] == '-' && digits_at(s, 5, 2) && s[7] == '-' && digits_at(
        s,
        8,
        2,
    )
    &&& s[10] == 'T' && digits_at(s, 11, 2) && s[13] == ':' && digits_at(s, 14, 2) && s[16] == ':'
        && digits_at(s, 17, 2)
    &&& ({
        let y = char_digits_val(s.subrange(0, 4));
        let m = char_digits_val(s.subrange(5, 7));
        let d = char_digits_val(s.subrange(8, 10));
        &&& 1970 <= y <= 9999
        &&& 1 <= m <= 12
        &&& 1 <= d <= days_in_month(y, m)
        &&& char_digits_val(s.subrange(11, 13)) <= 23
        &&& char_digits_val(s.subrange(14, 16)) <= 59
        &&& char_digits_val(s.subrange(17, 19)) <= 59
    })
    &&& if s.len() > 19 && s[19] == '.' {
        exists|fl: int|
            #![trigger digits_at(s, 20, fl)]
            {
                &&& 1 <= fl <= 9
                &&& digits_at(s, 20, fl)
                &&& (20 + fl == s.len() || !digit_char(s[20 + fl]))
                &&& spec_iso_offset(s, 20 + fl)
            }
    } else {
        spec_iso_offset(s, 19)
    }
}

/// The end of the run of digit characters beginning at `j`.
pub open spec fn digit_run_end(s: Seq<char>, j: int) -> int
    decreases s.len() - j,
{
    if 0 <= j < s.len() && digit_char(s[j]) {
        digit_run_end(s, j + 1)
    } else {
        j
    }
}

proof fn lemma_run_end(s: Seq<char>, a: int, b: int)
    requires
        0 <= a <= b <= s.len(),
        forall|q: int| a <= q < b ==> digit_char(#[trigger] s[q]),
        b == s.len() || !digit_char(s[b]),
    ensures
        digit_run_end(s, a) == b,
    decreases b - a,
{
    if a < b {
        lemma_run_end(s, a + 1, b);
    }
}

/// The millisecond field a timestamp string denotes: its first three
/// fraction digits, scaled up when fewer are given.
pub open spec fn spec_iso_ms(s: Seq<char>) -> int {
    if s.len() > 19 && s[19] == '.' {
        let fl = digit_run_end(s, 20) - 20;
        if fl >= 3 {
            char_digits_val(s.subrange(20, 23))
        } else if fl == 2 {
            char_digits_val(s.subrange(20, 22)) * 10
        } else {
            char_digits_val(s.subrange(20, 21)) * 100
        }
    } else {
        0
    }
}

/// The position where a timestamp string's offset tail begins.
pub open spec fn spec_iso_offset_pos(s: Seq<char>) -> int {
    if s.len() > 19 && s[19] == '.' {
        digit_run_end(s, 20)
    } else {
        19
    }
}

/// The offset a timestamp string denotes, in minutes east of UTC.
pub open spec fn spec_iso_offset_min(s: Seq<char>) -> int {
    let p = spec_iso_offset_pos(s);
    if p >= s.len() || s[p] == 'Z' {
        0
    } else {
        let t = char_digits_val(s.subrange(p + 1, p + 3)) * 60 + char_digits_val(
            s.subrange(p + 4, p + 6),
        );
        if s[p] == '+' {
            t
        } else {
            -t
        }
    }
}

/// The instant a well-formed timestamp string denotes, epoch milliseconds.
pub open spec fn spec_iso_millis(s: Seq<char>) -> int {
    civil_millis(
        char_digits_val(s.subrange(0, 4)),
        char_digits_val(s.subrange(5, 7)),
        char_digits_val(s.subrange(8, 10)),
        char_digits_val(s.subrange(11, 13)),
        char_digits_val(s.subrange(14, 16)),
        char_digits_val(s.subrange(17, 19)),
        spec_iso_ms(s),
    ) - spec_iso_offset_min(s) * 60000
}

/// Parse an ISO 8601 date-time string (`YYYY-MM-DDTHH:MM:SS`, optional
/// fractional seconds, optional `Z` or `±HH:MM` offset; a missing offset
/// means UTC) into epoch milliseconds. Exactly the well-formed, in-range
/// strings are accepted, and the result is the instant the string's own
/// fields denote.
#[verifier::rlimit(100)]
pub fn parse_timestamp(s: &str) -> (r: Option<i64>)
    ensures
        r is Some <==> spec_valid_iso(s@),
        r matches Some(t) ==> t == spec_iso_millis(s@),
{
    let sl = s.unicode_len();
    if sl < 19 {
        return None;
    }
    let y = match read_digits(s, 0, 4) {
        Some(v) => v,
        None => {
            return None;
        },
    };
    if s.get_char(4) != '-' {
        return None;
    }
    let m = match read_digits(s, 5, 2) {
        Some(v) => v,
        None => {
            return None;
        },
    };
    if s.get_char(7) != '-' {
        return None;
    }
    let d = match read_digits(s, 8, 2) {
        Some(v) => v,
        None => {
            return None;
        },
    };
    if s.get_char(10) != 'T' {
        return None;
    }
    let hh = match read_digits(s, 11, 2) {
        Some(v) => v,
        None => {
            return None;
        },
    };
    if s.get_char(13) != ':' {
        return None;
    }
    let mi = match read_digits(s, 14, 2) {
        Some(v) => v,
        None => {
            return None;
        },
    };
    if s.get_char(16) != ':' {
        return None;
    }
    let ss = match read_digits(s, 17, 2) {
        Some(v) => v,
        None => {
            return None;
        },
    };
    let mut pos: usize = 19;
    let mut ms: u32 = 0;
    let ghost mut g_frac: bool = false;
    let ghost mut g_count: int = 0;
    if pos < sl && s.get_char(pos) == '.' {
        // take the first three fractional digits as milliseconds
        let mut k: usize = pos + 1;
        let mut count: usize = 0;
        while k < sl && count < 9 && is_dig(s.get_char(k))
            invariant
                pos == 19,
                pos + 1 <= k <= s@.len(),
                s@.len() == sl,
                count == k - pos - 1,
                count <= 9,
                forall|q: int| 20 <= q < k ==> digit_char(#[trigger] s@[q]),
            decreases sl - k,
        {
            k += 1;
            count += 1;
        }
        proof {
            // a valid string's fraction run is exactly what the scan saw
            if spec_valid_iso(s@) {
                let fl = choose|fl: int|
                    {
                        &&& 1 <= fl <= 9
                        &&& #[trigger] digits_at(s@, 20, fl)
                        &&& (20 + fl == s@.len() || !digit_char(s@[20 + fl]))
                        &&& spec_iso_offset(s@, 20 + fl)
                    };
                if count < fl {
                    assert(digit_char(s@[20 + count as int]));
                    assert(false);
                }
                if count > fl {
                    assert(digit_char(s@[20 + fl]));
                    assert(20 + fl == s@.len());
                    assert(false);
                }
                assert(count == fl);
                assert(digits_at(s@, 20, count as int));
                assert(spec_iso_offset(s@, k as int));
            }
        }
        if count == 0 {
            return None;
        }
        let frac = match read_digits(s, pos + 1, if count < 3 {
            count
        } else {
            3
        }) {
            Some(v) => v,
            None => {
                proof {
                    assert(digits_at(s@, 20, if count < 3 {
                        count as int
                    } else {
                        3
                    }));
                    assert(false);
                }
                return None;
            },
        };
        proof {
            reveal_with_fuel(pow10, 4);
        }
        ms = if count >= 3 {
            frac
        } else if count == 2 {
            frac * 10
        } else {
            frac * 100
        };
        pos = k;
        proof {
            g_frac = true;
            g_count = count as int;
            assert(1 <= g_count <= 9);
            assert(pos as int == 20 + g_count);
            assert(digits_at(s@, 20, g_count));
            assert(forall|q: int| 20 <= q < pos as int ==> digit_char(#[trigger] s@[q]));
            assert(pos == sl || count == 9 || !digit_char(s@[pos as int]));
            assert(count >= 3 ==> ms as int == char_digits_val(s@.subrange(20, 23)));
            assert(count == 2 ==> ms as int == char_digits_val(s@.subrange(20, 22)) * 10);
            assert(count == 1 ==> ms as int == char_digits_val(s@.subrange(20, 21)) * 100);
            assert(spec_valid_iso(s@) ==> spec_iso_offset(s@, pos as int));
        }
    } else {
        proof {
            assert(spec_valid_iso(s@) ==> spec_iso_offset(s@, pos as int));
        }
    }
    proof {
        assert(g_frac == (s@.len() > 19 && s@[19] == '.'));
    }
    proof {
        assert(spec_valid_iso(s@) ==> spec_iso_offset(s@, pos as int));
    }
    let mut offset_min: i64 = 0;
    if pos < sl {
        let c = s.get_char(pos);
        if c == 'Z' {
            if pos + 1 != sl {
                return None;
            }
            proof {
                assert(spec_iso_offset(s@, pos as int));
                assert(!digit_char(s@[pos as int]));
            }
        } else if c == '+' || c == '-' {
            if sl - pos != 6 {
                return None;
            }
            let oh = match read_digits(s, pos + 1, 2) {
                Some(v) => v,
                None => {
                    return None;
                },
            };
            if s.get_char(pos + 3) != ':' {
                return None;
            }
            let om = match read_digits(s, pos + 4, 2) {
                Some(v) => v,
                None => {
                    return None;
                },
            };
            if oh > 23 || om > 59 {
                return None;
            }
            let total = (oh * 60 + om) as i64;
            offset_min = if c == '+' {
                total
            } else {
                -total
            };
            proof {
                assert(spec_iso_offset(s@, pos as int));
                assert(!digit_char(s@[pos as int]));
                assert(offset_min as int == ({
                    let t = char_digits_val(s@.subrange(pos as int + 1, pos as int + 3)) * 60
                        + char_digits_val(s@.subrange(pos as int + 4, pos as int + 6));
                    if s@[pos as int] == '+' {
                        t
                    } else {
                        -t
                    }
                }));
            }
        } else {
            return None;
        }
    } else {
        proof {
            assert(pos as int == s@.len());
            assert(spec_iso_offset(s@, pos as int));
        }
    }
    // range checks
    if !(1970 <= y && y <= 9999) || !(1 <= m && m <= 12) || hh > 23 || mi > 59 || ss > 59 {
        return None;
    }
    let leap = (y % 4 == 0 && (y % 100 != 0 || y % 400 == 0));
    let dim: u32 = if m == 2 {
        if leap {
            29
        } else {
            28
        }
    } else if m == 4 || m == 6 || m == 9 || m == 11 {
        30
    } else {
        31
    };
    if !(1 <= d && d <= dim) {
        return None;
    }
    if ms > 999 {
        return None;
    }
    let base = millis_from_civil(y, m, d, hh, mi, ss, ms);
    proof {
        // the accepted string is well-formed
        if g_frac {
            assert(pos == sl || !digit_char(s@[pos as int]));
            lemma_run_end(s@, 20, pos as int);
            assert(digit_run_end(s@, 20) == pos as int);
            assert(digits_at(s@, 20, g_count) && (20 + g_count == s@.len() || !digit_char(
                s@[20 + g_count],
            )) && spec_iso_offset(s@, 20 + g_count));
        }
        assert(spec_valid_iso(s@));
        // and the result is the instant its fields denote
        assert(spec_iso_offset_pos(s@) == pos as int);
        assert(spec_iso_ms(s@) == ms as int);
        assert(spec_iso_offset_min(s@) == offset_min as int);
        assert(base - offset_min * 60000 == spec_iso_millis(s@));
    }
    Some(base - offset_min * 60000)
}

/// Relies on `chrono::Utc::now`: the current UTC time read from the
/// system clock, in milliseconds since the epoch. Nothing is promised of
/// the value; callers state what holds of every reading.
#[verifier::external_body]
pub fn now_millis() -> i64 {
    chrono::Utc::now().timestamp_millis()
}

/// Is `c` a decimal digit?
fn is_dig(c: char) -> (r: bool)
    ensures
        r == digit_char(c),
{
    let u = c as u32;
    48 <= u && u <= 57
}

} // verus!
