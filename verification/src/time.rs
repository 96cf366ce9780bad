//! Calendar timestamps at second precision, rendered as ISO-8601 UTC
//! (`YYYY-MM-DDTHH:MM:SSZ`). Formatting and parsing are inverse to each
//! other on well-formed values.
use crate::chars::digit_char;
use crate::chars::digit_val;
use crate::chars::char_to_digit;
use crate::chars::is_digit;
use crate::chars::lemma_fmt2_roundtrip;
use crate::chars::lemma_fmt4_roundtrip;
use crate::chars::push_2digits;
use crate::chars::push_4digits;
use crate::chars::push_char;
use crate::chars::spec_fmt2;
use crate::chars::spec_fmt4;
use vstd::prelude::*;
use vstd::string::StrSliceExecFns;

verus! {

/// A civil date and time, understood as UTC.
#[derive(Debug, Clone, Copy, PartialEq, Eq, Structural)]
pub struct Timestamp {
    pub year: u16,
    pub month: u8,
    pub day: u8,
    pub hour: u8,
    pub minute: u8,
    pub second: u8,
}

impl Timestamp {
    /// Field ranges of a renderable timestamp.
    pub open spec fn wf(self) -> bool {
        &&& self.year <= 9999
        &&& 1 <= self.month <= 12
        &&& 1 <= self.day <= 31
        &&& self.hour <= 23
        &&& self.minute <= 59
        &&& self.second <= 59
    }

    /// A timestamp from its fields; nothing when a field is out of range.
    pub fn new(year: u16, month: u8, day: u8, hour: u8, minute: u8, second: u8) -> (r: Option<
        Timestamp,
    >)
        ensures
            match r {
                Some(t) => t == (Timestamp { year, month, day, hour, minute, second }) && t.wf(),
                None => !(Timestamp { year, month, day, hour, minute, second }).wf(),
            },
    {
        let t = Timestamp { year, month, day, hour, minute, second };
        if year <= 9999 && 1 <= month && month <= 12 && 1 <= day && day <= 31 && hour <= 23
            && minute <= 59 && second <= 59 {
            Some(t)
        } else {
            None
        }
    }

    /// The current moment, read from the system clock.
    pub fn now() -> (r: Timestamp)
        ensures
            r.wf(),
    {
        let (y, mo, d, h, mi, s) = utc_now_parts();
        let year: u16 = if y < 0 {
            0
        } else if y > 9999 {
            9999
        } else {
            y as u16
        };
        Timestamp {
            year,
            month: mo as u8,
            day: d as u8,
            hour: h as u8,
            minute: mi as u8,
            second: s as u8,
        }
    }

    /// Renders the timestamp as `YYYY-MM-DDTHH:MM:SSZ`.
    pub fn render(&self) -> (r: String)
        ensures
            r@ == spec_render_ts(*self),
    {
        let mut out = String::new();
        push_4digits(&mut out, self.year as u32);
        push_char(&mut out, '-');
        push_2digits(&mut out, self.month as u32);
        push_char(&mut out, '-');
        push_2digits(&mut out, self.day as u32);
        push_char(&mut out, 'T');
        push_2digits(&mut out, self.hour as u32);
        push_char(&mut out, ':');
        push_2digits(&mut out, self.minute as u32);
        push_char(&mut out, ':');
        push_2digits(&mut out, self.second as u32);
        push_char(&mut out, 'Z');
        proof {
            assert(out@ =~= spec_render_ts(*self));
        }
        out
    }

    /// Reads a timestamp back from `YYYY-MM-DDTHH:MM:SSZ`; a fractional
    /// seconds part, as full-precision clocks write it, is accepted and
    /// ignored.
    pub fn parse(s: &str) -> (r: Option<Timestamp>)
        ensures
            r == spec_parse_ts(s@),
    {
        let n = s.unicode_len();
        if n < 20 {
            return None;
        }
        if !(s.get_char(4) == '-' && s.get_char(7) == '-' && s.get_char(10) == 'T' && s.get_char(
            13,
        ) == ':' && s.get_char(16) == ':' && s.get_char(n - 1) == 'Z') {
            return None;
        }
        if n == 21 {
            return None;
        }
        if n > 20 {
            if s.get_char(19) != '.' {
                return None;
            }
            let mut j: usize = 20;
            while j < n - 1
                invariant
                    20 <= j <= n - 1,
                    n == s@.len(),
                    forall|m: int| 20 <= m < j ==> crate::chars::is_digit(s@[m]),
                decreases n - j,
            {
                if char_to_digit(s.get_char(j)).is_none() {
                    return None;
                }
                j = j + 1;
            }
        }
        let year = match parse4(s, 0) {
            Some(v) => v,
            None => { return None },
        };
        let month = match parse2(s, 5) {
            Some(v) => v,
            None => { return None },
        };
        let day = match parse2(s, 8) {
            Some(v) => v,
            None => { return None },
        };
        let hour = match parse2(s, 11) {
            Some(v) => v,
            None => { return None },
        };
        let minute = match parse2(s, 14) {
            Some(v) => v,
            None => { return None },
        };
        let second = match parse2(s, 17) {
            Some(v) => v,
            None => { return None },
        };
        if 1 <= month && month <= 12 && 1 <= day && day <= 31 && hour <= 23 && minute <= 59
            && second <= 59 {
            Some(
                Timestamp {
                    year: year as u16,
                    month: month as u8,
                    day: day as u8,
                    hour: hour as u8,
                    minute: minute as u8,
                    second: second as u8,
                },
            )
        } else {
            None
        }
    }
}

/// Relies on chrono's Utc::now with the Datelike and Timelike accessors:
/// month is 1 to 12, day is 1 to 31, hour is 0 to 23, minute and second are
/// 0 to 59, as their documentation states; nothing is assumed of the year.
#[verifier::external_body]
fn utc_now_parts() -> (r: (i32, u32, u32, u32, u32, u32))
    ensures
        1 <= r.1 <= 12,
        1 <= r.2 <= 31,
        r.3 <= 23,
        r.4 <= 59,
        r.5 <= 59,
{
    let t = chrono::Utc::now();
    (
        chrono::Datelike::year(&t),
        chrono::Datelike::month(&t),
        chrono::Datelike::day(&t),
        chrono::Timelike::hour(&t),
        chrono::Timelike::minute(&t),
        chrono::Timelike::second(&t),
    )
}

/// The `YYYY-MM-DDTHH:MM:SSZ` rendering of a timestamp.
pub open spec fn spec_render_ts(t: Timestamp) -> Seq<char> {
    spec_fmt4(t.year as int) + seq!['-'] + spec_fmt2(t.month as int) + seq!['-'] + spec_fmt2(
        t.day as int,
    ) + seq!['T'] + spec_fmt2(t.hour as int) + seq![':'] + spec_fmt2(t.minute as int) + seq![':']
        + spec_fmt2(t.second as int) + seq!['Z']
}

pub open spec fn spec_val2(s: Seq<char>, i: int) -> int {
    digit_val(s[i]) * 10 + digit_val(s[i + 1])
}

pub open spec fn spec_val4(s: Seq<char>, i: int) -> int {
    digit_val(s[i]) * 1000 + digit_val(s[i + 1]) * 100 + digit_val(s[i + 2]) * 10 + digit_val(
        s[i + 3],
    )
}

pub open spec fn spec_digits_at(s: Seq<char>, i: int, k: int) -> bool {
    forall|j: int| i <= j < i + k ==> is_digit(#[trigger] s[j])
}

/// An optional fractional-seconds part between the seconds and the final
/// `Z`: none at all, or a dot and at least one digit. The fraction carries
/// sub-second precision that the model deliberately drops.
pub open spec fn spec_frac_ok(s: Seq<char>) -> bool {
    s.len() == 20 || (s.len() >= 22 && s[19] == '.' && spec_digits_at(s, 20, s.len() - 21))
}

/// What a well-formed `YYYY-MM-DDTHH:MM:SSZ` text denotes, a fractional
/// seconds part accepted and ignored; nothing when the text deviates from
/// that shape or a field is out of range.
pub open spec fn spec_parse_ts(s: Seq<char>) -> Option<Timestamp> {
    if s.len() >= 20 && s[4] == '-' && s[7] == '-' && s[10] == 'T' && s[13] == ':' && s[16]
        == ':' && s[s.len() - 1] == 'Z' && spec_frac_ok(s) && spec_digits_at(s, 0, 4)
        && spec_digits_at(s, 5, 2) && spec_digits_at(s, 8, 2) && spec_digits_at(s, 11, 2)
        && spec_digits_at(s, 14, 2) && spec_digits_at(s, 17, 2) {
        let t = Timestamp {
            year: spec_val4(s, 0) as u16,
            month: spec_val2(s, 5) as u8,
            day: spec_val2(s, 8) as u8,
            hour: spec_val2(s, 11) as u8,
            minute: spec_val2(s, 14) as u8,
            second: spec_val2(s, 17) as u8,
        };
        if 1 <= t.month <= 12 && 1 <= t.day <= 31 && t.hour <= 23 && t.minute <= 59 && t.second
            <= 59 {
            Some(t)
        } else {
            None
        }
    } else {
        None
    }
}

fn parse2(s: &str, i: usize) -> (r: Option<u32>)
    requires
        i + 2 <= s@.len(),
        s@.len() <= usize::MAX,
    ensures
        match r {
            Some(v) => spec_digits_at(s@, i as int, 2) && v == spec_val2(s@, i as int) && v <= 99,
            None => !spec_digits_at(s@, i as int, 2),
        },
{
    let d0 = match char_to_digit(s.get_char(i)) {
        Some(d) => d,
        None => { return None },
    };
    let d1 = match char_to_digit(s.get_char(i + 1)) {
        Some(d) => d,
        None => { return None },
    };
    Some(d0 * 10 + d1)
}

fn parse4(s: &str, i: usize) -> (r: Option<u32>)
    requires
        i + 4 <= s@.len(),
        s@.len() <= usize::MAX,
    ensures
        match r {
            Some(v) => spec_digits_at(s@, i as int, 4) && v == spec_val4(s@, i as int) && v
                <= 9999,
            None => !spec_digits_at(s@, i as int, 4),
        },
{
    let d0 = match char_to_digit(s.get_char(i)) {
        Some(d) => d,
        None => { return None },
    };
    let d1 = match char_to_digit(s.get_char(i + 1)) {
        Some(d) => d,
        None => { return None },
    };
    let d2 = match char_to_digit(s.get_char(i + 2)) {
        Some(d) => d,
        None => { return None },
    };
    let d3 = match char_to_digit(s.get_char(i + 3)) {
        Some(d) => d,
        None => { return None },
    };
    Some(d0 * 1000 + d1 * 100 + d2 * 10 + d3)
}

/// A rendered timestamp holds no newline, so it sits on one header line.
pub proof fn lemma_render_ts_no_newline(t: Timestamp)
    ensures
        crate::chars::line_has_no_newline(spec_render_ts(t)),
{
    let s = spec_render_ts(t);
    assert forall|i: int| 0 <= i < s.len() implies s[i] != '\n' by {
        assert(s.len() == 20);
        assert(forall|d: int| digit_char(d) != '\n');
    }
}

/// A rendered timestamp opens with a digit, so it never looks quoted.
pub proof fn lemma_render_ts_unquoted(t: Timestamp)
    ensures
        crate::chars::spec_unquoted(spec_render_ts(t)) == spec_render_ts(t),
{
    let s = spec_render_ts(t);
    assert(s[0] == digit_char((t.year as int / 1000) % 10));
    assert(forall|d: int| digit_char(d) != '\'' && digit_char(d) != '"');
    assert(!crate::chars::is_quote_wrapped(s));
}

/// Parsing a rendered well-formed timestamp gives the timestamp back.
#[verifier::rlimit(100)]
pub proof fn lemma_render_parse_ts(t: Timestamp)
    requires
        t.wf(),
    ensures
        spec_parse_ts(spec_render_ts(t)) == Some(t),
{
    let s = spec_render_ts(t);
    lemma_fmt4_roundtrip(t.year as int);
    lemma_fmt2_roundtrip(t.month as int);
    lemma_fmt2_roundtrip(t.day as int);
    lemma_fmt2_roundtrip(t.hour as int);
    lemma_fmt2_roundtrip(t.minute as int);
    lemma_fmt2_roundtrip(t.second as int);
    let y = spec_fmt4(t.year as int);
    let mo = spec_fmt2(t.month as int);
    let d = spec_fmt2(t.day as int);
    let h = spec_fmt2(t.hour as int);
    let mi = spec_fmt2(t.minute as int);
    let se = spec_fmt2(t.second as int);
    assert(s =~= seq![
        y[0],
        y[1],
        y[2],
        y[3],
        '-',
        mo[0],
        mo[1],
        '-',
        d[0],
        d[1],
        'T',
        h[0],
        h[1],
        ':',
        mi[0],
        mi[1],
        ':',
        se[0],
        se[1],
        'Z',
    ]);
    assert(spec_val4(s, 0) == t.year as int);
    assert(spec_val2(s, 5) == t.month as int);
    assert(spec_val2(s, 8) == t.day as int);
    assert(spec_val2(s, 11) == t.hour as int);
    assert(spec_val2(s, 14) == t.minute as int);
    assert(spec_val2(s, 17) == t.second as int);
}

} // verus!
