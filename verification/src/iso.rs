//! Strict ISO-8601 timestamp parsing and formatting.
//!
//! The accepted shape is `YYYY-MM-DDTHH:MM:SS[.f*]Z`: fixed separators,
//! fixed-width digit groups, an optional fraction of any length of which
//! the first six digits are significant, and a trailing `Z`. Parsing and
//! formatting convert between that text and microseconds since the Unix
//! epoch, through the calendar arithmetic of `calendar`.

use vstd::prelude::*;

use crate::calendar;
use crate::calendar::days_in_month_of;
use crate::calendar::epoch_days_of_date;
use crate::calendar::valid_civil_date;
use crate::errors::MicroShardError;
use vstd::string::StringExecFns;

verus! {

/// Whether `c` is a decimal digit.
pub open spec fn is_digit_char(c: char) -> bool {
    48 <= c as int <= 57
}

/// The numeric value of the digit `c`.
pub open spec fn digit_val(c: char) -> int {
    c as int - 48
}

/// The value of the two-digit group at position `i`.
pub open spec fn two_digits(s: Seq<char>, i: int) -> int
    recommends
        0 <= i && i + 2 <= s.len(),
{
    10 * digit_val(s[i]) + digit_val(s[i + 1])
}

/// The four-digit year group of the timestamp text.
pub open spec fn iso_year(s: Seq<char>) -> int
    recommends
        s.len() >= 4,
{
    1000 * digit_val(s[0]) + 100 * digit_val(s[1]) + 10 * digit_val(s[2]) + digit_val(s[3])
}

/// The month group of the timestamp text.
pub open spec fn iso_month(s: Seq<char>) -> int {
    two_digits(s, 5)
}

/// The day group of the timestamp text.
pub open spec fn iso_day(s: Seq<char>) -> int {
    two_digits(s, 8)
}

/// The hour group of the timestamp text.
pub open spec fn iso_hour(s: Seq<char>) -> int {
    two_digits(s, 11)
}

/// The minute group of the timestamp text.
pub open spec fn iso_minute(s: Seq<char>) -> int {
    two_digits(s, 14)
}

/// The second group of the timestamp text.
pub open spec fn iso_second(s: Seq<char>) -> int {
    two_digits(s, 17)
}

/// The microsecond value of the fraction digits before position `upto`,
/// of which only the first six count; fewer digits read as if
/// right-padded with zeros.
pub open spec fn frac_prefix_value(s: Seq<char>, upto: int) -> int {
    (if upto > 20 {
        100000 * digit_val(s[20])
    } else {
        0int
    }) + (if upto > 21 {
        10000 * digit_val(s[21])
    } else {
        0int
    }) + (if upto > 22 {
        1000 * digit_val(s[22])
    } else {
        0int
    }) + (if upto > 23 {
        100 * digit_val(s[23])
    } else {
        0int
    }) + (if upto > 24 {
        10 * digit_val(s[24])
    } else {
        0int
    }) + (if upto > 25 {
        digit_val(s[25])
    } else {
        0int
    })
}

/// The microsecond fraction of the timestamp text: the digits between
/// the dot and the final `Z`, or zero when there is no fraction.
pub open spec fn iso_fraction(s: Seq<char>) -> int {
    frac_prefix_value(s, s.len() - 1)
}

/// The structural half of acceptance: length, separators, digit groups,
/// and the fraction's shape.
pub open spec fn iso_structure_ok(s: Seq<char>) -> bool {
    &&& s.len() >= 20
    &&& is_digit_char(s[0])
    &&& is_digit_char(s[1])
    &&& is_digit_char(s[2])
    &&& is_digit_char(s[3])
    &&& s[4] == '-'
    &&& is_digit_char(s[5])
    &&& is_digit_char(s[6])
    &&& s[7] == '-'
    &&& is_digit_char(s[8])
    &&& is_digit_char(s[9])
    &&& s[10] == 'T'
    &&& is_digit_char(s[11])
    &&& is_digit_char(s[12])
    &&& s[13] == ':'
    &&& is_digit_char(s[14])
    &&& is_digit_char(s[15])
    &&& s[16] == ':'
    &&& is_digit_char(s[17])
    &&& is_digit_char(s[18])
    &&& (s.len() == 20 ==> s[19] == 'Z')
    &&& (s.len() > 20 ==> {
        &&& s[19] == '.'
        &&& s[s.len() - 1] == 'Z'
        &&& (forall|i: int| 20 <= i < s.len() - 1 ==> is_digit_char(#[trigger] s[i]))
    })
}

/// The range half of acceptance: the groups name a real calendar moment.
/// A second of 60 is tolerated for leap seconds, and years before 1970
/// are outside the epoch-anchored range.
pub open spec fn iso_fields_ok(s: Seq<char>) -> bool {
    &&& 1970 <= iso_year(s)
    &&& 1 <= iso_month(s) <= 12
    &&& 1 <= iso_day(s) <= days_in_month_of(iso_year(s), iso_month(s))
    &&& iso_hour(s) <= 23
    &&& iso_minute(s) <= 59
    &&& iso_second(s) <= 60
}

/// Exactly the timestamp texts this crate accepts.
pub open spec fn iso_accepted(s: Seq<char>) -> bool {
    iso_structure_ok(s) && iso_fields_ok(s)
}

/// The microseconds since the Unix epoch that an accepted timestamp
/// text denotes.
pub open spec fn iso_micros(s: Seq<char>) -> int
    recommends
        iso_accepted(s),
{
    (epoch_days_of_date(iso_year(s), iso_month(s), iso_day(s)) * 86400 + iso_hour(s) * 3600
        + iso_minute(s) * 60 + iso_second(s)) * 1_000_000 + iso_fraction(s)
}

/// The spec-level parser: the value an accepted text denotes, or nothing
/// for a rejected text. `parse_iso_strict` returns exactly this.
pub open spec fn parse_iso_spec(s: Seq<char>) -> Option<int> {
    if iso_accepted(s) {
        Some(iso_micros(s))
    } else {
        None
    }
}

/// The ISO round-trip law: any text that renders a microsecond value in
/// the accepted form — as `format_iso` promises of its output — parses
/// back to that very value.
pub proof fn lemma_iso_round_trip(s: Seq<char>, micros: u64)
    requires
        iso_accepted(s),
        iso_micros(s) == micros,
    ensures
        parse_iso_spec(s) == Some(micros as int),
{
}

/// A canonical rendering of `micros`: accepted, 27 characters, six
/// fraction digits, and a seconds group below 60 — the shape `format_iso`
/// emits. For each value there is exactly one such text
/// (`lemma_canonical_text_unique`).
pub open spec fn is_canonical_iso(s: Seq<char>, micros: int) -> bool {
    &&& iso_accepted(s)
    &&& s.len() == 27
    &&& iso_second(s) <= 59
    &&& iso_micros(s) == micros
}

/// Two digit characters of one value are one character.
proof fn lemma_digit_char_eq(c1: char, c2: char)
    requires
        is_digit_char(c1),
        is_digit_char(c2),
        digit_val(c1) == digit_val(c2),
    ensures
        c1 == c2,
{
}

/// Two digit pairs of one two-digit value are equal character by
/// character.
proof fn lemma_two_digits_eq(s1: Seq<char>, s2: Seq<char>, i: int)
    requires
        0 <= i && i + 2 <= s1.len(),
        0 <= i && i + 2 <= s2.len(),
        is_digit_char(s1[i]),
        is_digit_char(s1[i + 1]),
        is_digit_char(s2[i]),
        is_digit_char(s2[i + 1]),
        two_digits(s1, i) == two_digits(s2, i),
    ensures
        s1[i] == s2[i],
        s1[i + 1] == s2[i + 1],
{
    lemma_digit_char_eq(s1[i], s2[i]);
    lemma_digit_char_eq(s1[i + 1], s2[i + 1]);
}

/// The canonical rendering of a microsecond value is unique: two
/// accepted 27-character texts whose seconds groups stay below 60 — as
/// `format_iso` promises of its output — and which denote one value are
/// one text. With `lemma_iso_round_trip`, formatting is the one inverse
/// of parsing on canonical texts.
#[verifier::rlimit(60)]
pub proof fn lemma_canonical_text_unique(s1: Seq<char>, s2: Seq<char>)
    requires
        iso_accepted(s1),
        iso_accepted(s2),
        s1.len() == 27,
        s2.len() == 27,
        iso_second(s1) <= 59,
        iso_second(s2) <= 59,
        iso_micros(s1) == iso_micros(s2),
    ensures
        s1 == s2,
{
    // Peel the value apart: fraction, then second of day, then epoch day.
    let e1 = epoch_days_of_date(iso_year(s1), iso_month(s1), iso_day(s1));
    let e2 = epoch_days_of_date(iso_year(s2), iso_month(s2), iso_day(s2));
    let c1 = iso_hour(s1) * 3600 + iso_minute(s1) * 60 + iso_second(s1);
    let c2 = iso_hour(s2) * 3600 + iso_minute(s2) * 60 + iso_second(s2);
    assert(0 <= iso_fraction(s1) <= 999999 && 0 <= iso_fraction(s2) <= 999999);
    calendar::lemma_div_parts(iso_micros(s1), 1_000_000, e1 * 86400 + c1, iso_fraction(s1));
    calendar::lemma_div_parts(iso_micros(s2), 1_000_000, e2 * 86400 + c2, iso_fraction(s2));
    calendar::lemma_div_parts(e1 * 86400 + c1, 86400, e1, c1);
    calendar::lemma_div_parts(e2 * 86400 + c2, 86400, e2, c2);
    assert(e1 == e2 && c1 == c2 && iso_fraction(s1) == iso_fraction(s2));
    // One second of day names one clock reading.
    calendar::lemma_div_parts(c1, 3600, iso_hour(s1), iso_minute(s1) * 60 + iso_second(s1));
    calendar::lemma_div_parts(c2, 3600, iso_hour(s2), iso_minute(s2) * 60 + iso_second(s2));
    assert(iso_hour(s1) == iso_hour(s2) && iso_minute(s1) == iso_minute(s2) && iso_second(s1)
        == iso_second(s2));
    // One epoch day names one civil date.
    calendar::lemma_epoch_days_injective(
        iso_year(s1),
        iso_month(s1),
        iso_day(s1),
        iso_year(s2),
        iso_month(s2),
        iso_day(s2),
    );
    // Equal group values force equal digit characters, place by place.
    assert(digit_val(s1[0]) == digit_val(s2[0]) && digit_val(s1[1]) == digit_val(s2[1])
        && digit_val(s1[2]) == digit_val(s2[2]) && digit_val(s1[3]) == digit_val(s2[3]));
    lemma_digit_char_eq(s1[0], s2[0]);
    lemma_digit_char_eq(s1[1], s2[1]);
    lemma_digit_char_eq(s1[2], s2[2]);
    lemma_digit_char_eq(s1[3], s2[3]);
    lemma_two_digits_eq(s1, s2, 5);
    lemma_two_digits_eq(s1, s2, 8);
    lemma_two_digits_eq(s1, s2, 11);
    lemma_two_digits_eq(s1, s2, 14);
    lemma_two_digits_eq(s1, s2, 17);
    assert(digit_val(s1[20]) == digit_val(s2[20]) && digit_val(s1[21]) == digit_val(s2[21])
        && digit_val(s1[22]) == digit_val(s2[22]) && digit_val(s1[23]) == digit_val(s2[23])
        && digit_val(s1[24]) == digit_val(s2[24]) && digit_val(s1[25]) == digit_val(s2[25]));
    lemma_digit_char_eq(s1[20], s2[20]);
    lemma_digit_char_eq(s1[21], s2[21]);
    lemma_digit_char_eq(s1[22], s2[22]);
    lemma_digit_char_eq(s1[23], s2[23]);
    lemma_digit_char_eq(s1[24], s2[24]);
    lemma_digit_char_eq(s1[25], s2[25]);
    assert(s1 =~= s2);
}

/// Reads the digit at position `i`, or nothing when the character there
/// is not a digit.
fn read_digit(s: &str, i: usize) -> (r: Option<u64>)
    requires
        i < s@.len(),
    ensures
        match r {
            Some(v) => is_digit_char(s@[i as int]) && v == digit_val(s@[i as int]),
            None => !is_digit_char(s@[i as int]),
        },
{
    let c = s.get_char(i);
    let v = c as u32;
    if 48 <= v && v <= 57 {
        Some((v - 48) as u64)
    } else {
        None
    }
}

/// Reads the two-digit group at position `i`, or nothing when either
/// character is not a digit.
fn read_two_digits(s: &str, i: usize) -> (r: Option<u64>)
    requires
        i + 2 <= s@.len(),
        i <= 17,
    ensures
        match r {
            Some(v) => is_digit_char(s@[i as int]) && is_digit_char(s@[i as int + 1]) && v
                == two_digits(s@, i as int),
            None => !(is_digit_char(s@[i as int]) && is_digit_char(s@[i as int + 1])),
        },
{
    let hi = read_digit(s, i);
    let lo = read_digit(s, i + 1);
    match (hi, lo) {
        (Some(a), Some(b)) => Some(10 * a + b),
        _ => None,
    }
}

/// The multiplier that the fraction digit at offset `j` of the fraction
/// carries: the first six digits weigh down from `100000`, later digits
/// weigh nothing.
spec fn frac_multiplier(j: int) -> int {
    if j == 0 {
        100000
    } else if j == 1 {
        10000
    } else if j == 2 {
        1000
    } else if j == 3 {
        100
    } else if j == 4 {
        10
    } else if j == 5 {
        1
    } else {
        0
    }
}

/// Parses a strict ISO-8601 timestamp into microseconds since the Unix
/// epoch. Returns `Ok` exactly on accepted texts, and the denoted value;
/// every rejection is `InvalidIsoFormat`.
pub fn parse_iso_strict(s: &str) -> (r: Result<u64, MicroShardError>)
    ensures
        iso_accepted(s@) ==> r == Ok::<u64, MicroShardError>(iso_micros(s@) as u64),
        !iso_accepted(s@) ==> r == Err::<u64, MicroShardError>(MicroShardError::InvalidIsoFormat),
        r is Ok ==> iso_micros(s@) == r->Ok_0 && parse_iso_spec(s@) == Some(r->Ok_0 as int),
        r is Err ==> parse_iso_spec(s@) is None,
{
    let n = s.unicode_len();
    if n < 20 {
        return Err(MicroShardError::InvalidIsoFormat);
    }
    // Fixed separators.
    if s.get_char(4) != '-' || s.get_char(7) != '-' || s.get_char(10) != 'T' || s.get_char(13)
        != ':' || s.get_char(16) != ':' {
        return Err(MicroShardError::InvalidIsoFormat);
    }
    // Digit groups.
    let year = match read_two_digits(s, 0) {
        Some(hi) => match read_two_digits(s, 2) {
            Some(lo) => 100 * hi + lo,
            None => { return Err(MicroShardError::InvalidIsoFormat) },
        },
        None => { return Err(MicroShardError::InvalidIsoFormat) },
    };
    let month = match read_two_digits(s, 5) {
        Some(v) => v,
        None => { return Err(MicroShardError::InvalidIsoFormat) },
    };
    let day = match read_two_digits(s, 8) {
        Some(v) => v,
        None => { return Err(MicroShardError::InvalidIsoFormat) },
    };
    let hour = match read_two_digits(s, 11) {
        Some(v) => v,
        None => { return Err(MicroShardError::InvalidIsoFormat) },
    };
    let minute = match read_two_digits(s, 14) {
        Some(v) => v,
        None => { return Err(MicroShardError::InvalidIsoFormat) },
    };
    let second = match read_two_digits(s, 17) {
        Some(v) => v,
        None => { return Err(MicroShardError::InvalidIsoFormat) },
    };
    // Range checks.
    if year < 1970 {
        return Err(MicroShardError::InvalidIsoFormat);
    }
    if month < 1 || month > 12 {
        return Err(MicroShardError::InvalidIsoFormat);
    }
    if hour > 23 || minute > 59 || second > 60 {
        return Err(MicroShardError::InvalidIsoFormat);
    }
    if day < 1 || day > calendar::days_in_month(year, month) {
        return Err(MicroShardError::InvalidIsoFormat);
    }
    // The tail: a bare `Z`, or a dot, fraction digits, and a final `Z`.
    let mut frac: u64 = 0;
    if n == 20 {
        if s.get_char(19) != 'Z' {
            return Err(MicroShardError::InvalidIsoFormat);
        }
    } else {
        if s.get_char(19) != '.' {
            return Err(MicroShardError::InvalidIsoFormat);
        }
        if s.get_char(n - 1) != 'Z' {
            return Err(MicroShardError::InvalidIsoFormat);
        }
        let mut i: usize = 20;
        let mut mult: u64 = 100000;
        while i < n - 1
            invariant
                21 <= n == s@.len(),
                20 <= i <= n - 1,
                forall|j: int| 20 <= j < i ==> is_digit_char(#[trigger] s@[j]),
                frac == frac_prefix_value(s@, i as int),
                frac <= 999999,
                mult == frac_multiplier(i - 20),
            decreases n - i,
        {
            let c = s.get_char(i);
            let v = c as u32;
            if v < 48 || v > 57 {
                return Err(MicroShardError::InvalidIsoFormat);
            }
            if mult >= 1 {
                frac = frac + (v - 48) as u64 * mult;
            }
            mult = mult / 10;
            i = i + 1;
        }
    }
    // Assemble the microsecond count.
    let days = calendar::date_to_days(year, month, day);
    proof {
        calendar::lemma_epoch_days_upper(year as int, month as int, day as int);
    }
    let secs = days * 86400 + hour * 3600 + minute * 60 + second;
    Ok(secs * 1_000_000 + frac)
}

/// The digit character for the value `v`.
pub open spec fn digit_char(v: int) -> char
    recommends
        0 <= v <= 9,
{
    if v == 0 {
        '0'
    } else if v == 1 {
        '1'
    } else if v == 2 {
        '2'
    } else if v == 3 {
        '3'
    } else if v == 4 {
        '4'
    } else if v == 5 {
        '5'
    } else if v == 6 {
        '6'
    } else if v == 7 {
        '7'
    } else if v == 8 {
        '8'
    } else {
        '9'
    }
}

/// Rendering a digit and reading it back are inverse.
proof fn lemma_digit_char_val(v: int)
    requires
        0 <= v <= 9,
    ensures
        is_digit_char(digit_char(v)),
        digit_val(digit_char(v)) == v,
{
}

/// How the two decimal halves of a number up to four digits relate to
/// its digits, and how the digits recompose it.
proof fn lemma_decimal4_digits(v: int)
    requires
        0 <= v <= 9999,
    ensures
        v / 100 <= 99,
        v % 100 <= 99,
        (v / 100) / 10 == v / 1000,
        (v % 100) / 10 == (v / 10) % 10,
        (v % 100) % 10 == v % 10,
        v / 1000 <= 9,
        (v / 100) % 10 <= 9,
        (v / 10) % 10 <= 9,
        v % 10 <= 9,
        1000 * (v / 1000) + 100 * ((v / 100) % 10) + 10 * ((v / 10) % 10) + v % 10 == v,
{
    let q = v / 100;
    let r = v % 100;
    vstd::arithmetic::div_mod::lemma_fundamental_div_mod(v, 100);
    assert(q <= 99 && r <= 99) by {
        if q >= 100 || q < 0 {
            assert(v == 100 * q + r);
        }
    }
    let qh = q / 10;
    let ql = q % 10;
    vstd::arithmetic::div_mod::lemma_fundamental_div_mod(q, 10);
    assert(qh <= 9) by {
        if qh >= 10 || qh < 0 {
            assert(q == 10 * qh + ql);
        }
    }
    let rh = r / 10;
    let rl = r % 10;
    vstd::arithmetic::div_mod::lemma_fundamental_div_mod(r, 10);
    assert(rh <= 9) by {
        if rh >= 10 || rh < 0 {
            assert(r == 10 * rh + rl);
        }
    }
    calendar::lemma_div_parts(v, 1000, qh, 100 * ql + r);
    calendar::lemma_div_parts(v, 10, 10 * q + rh, rl);
    calendar::lemma_div_parts(10 * q + rh, 10, q, rh);
}

/// How the three decimal pairs of a number up to six digits relate to
/// its digits, and how the digits recompose it.
proof fn lemma_decimal6_digits(v: int)
    requires
        0 <= v <= 999999,
    ensures
        v / 10000 <= 99,
        (v / 100) % 100 <= 99,
        v % 100 <= 99,
        (v / 10000) / 10 == v / 100000,
        ((v / 100) % 100) / 10 == (v / 1000) % 10,
        ((v / 100) % 100) % 10 == (v / 100) % 10,
        (v % 100) / 10 == (v / 10) % 10,
        (v % 100) % 10 == v % 10,
        v / 100000 <= 9,
        (v / 10000) % 10 <= 9,
        (v / 1000) % 10 <= 9,
        (v / 100) % 10 <= 9,
        (v / 10) % 10 <= 9,
        v % 10 <= 9,
        100000 * (v / 100000) + 10000 * ((v / 10000) % 10) + 1000 * ((v / 1000) % 10) + 100 * ((v
            / 100) % 10) + 10 * ((v / 10) % 10) + v % 10 == v,
{
    let a = v / 10000;
    let m = v % 10000;
    vstd::arithmetic::div_mod::lemma_fundamental_div_mod(v, 10000);
    assert(a <= 99 && m <= 9999) by {
        if a >= 100 || a < 0 {
            assert(v == 10000 * a + m);
        }
    }
    let ah = a / 10;
    let al = a % 10;
    vstd::arithmetic::div_mod::lemma_fundamental_div_mod(a, 10);
    assert(ah <= 9) by {
        if ah >= 10 || ah < 0 {
            assert(a == 10 * ah + al);
        }
    }
    // The leading pair sits above the ten-thousands remainder.
    calendar::lemma_div_parts(v, 100000, ah, 10000 * al + m);
    // The middle pair comes out of that remainder's upper half.
    lemma_decimal4_digits(m);
    vstd::arithmetic::div_mod::lemma_fundamental_div_mod(m, 100);
    vstd::arithmetic::div_mod::lemma_fundamental_div_mod(m, 1000);
    vstd::arithmetic::div_mod::lemma_fundamental_div_mod(m / 100, 10);
    calendar::lemma_div_parts(v, 100, 100 * a + m / 100, m % 100);
    calendar::lemma_div_parts(100 * a + m / 100, 100, a, m / 100);
    calendar::lemma_div_parts(v, 1000, 10 * a + m / 1000, m % 1000);
    calendar::lemma_div_parts(10 * a + m / 1000, 10, a, m / 1000);
    calendar::lemma_div_parts(100 * a + m / 100, 10, 10 * a + (m / 100) / 10, (m / 100) % 10);
    // The closing pair is the remainder under one hundred.
    vstd::arithmetic::div_mod::lemma_fundamental_div_mod(v, 100);
    vstd::arithmetic::div_mod::lemma_fundamental_div_mod(v % 100, 10);
    calendar::lemma_div_parts(v, 10, 10 * (v / 100) + (v % 100) / 10, (v % 100) % 10);
    calendar::lemma_div_parts(10 * (v / 100) + (v % 100) / 10, 10, v / 100, (v % 100) / 10);
}

/// Appends the digit character for `v`.
pub(crate) fn push_digit(out: &mut String, v: u64)
    requires
        v <= 9,
    ensures
        final(out)@ == old(out)@ + seq![digit_char(v as int)],
{
    proof {
        reveal_strlit("0");
        reveal_strlit("1");
        reveal_strlit("2");
        reveal_strlit("3");
        reveal_strlit("4");
        reveal_strlit("5");
        reveal_strlit("6");
        reveal_strlit("7");
        reveal_strlit("8");
        reveal_strlit("9");
    }
    if v == 0 {
        out.append("0");
    } else if v == 1 {
        out.append("1");
    } else if v == 2 {
        out.append("2");
    } else if v == 3 {
        out.append("3");
    } else if v == 4 {
        out.append("4");
    } else if v == 5 {
        out.append("5");
    } else if v == 6 {
        out.append("6");
    } else if v == 7 {
        out.append("7");
    } else if v == 8 {
        out.append("8");
    } else {
        out.append("9");
    }
    proof {
        assert(final(out)@ =~= old(out)@ + seq![digit_char(v as int)]);
    }
}

/// Appends `v` as exactly two digits, zero-padded.
fn push_two_digits(out: &mut String, v: u64)
    requires
        v <= 99,
    ensures
        final(out)@ == old(out)@ + seq![
            digit_char(v as int / 10),
            digit_char(v as int % 10),
        ],
{
    proof {
        vstd::arithmetic::div_mod::lemma_fundamental_div_mod(v as int, 10);
        assert(v as int / 10 <= 9) by {
            if v as int / 10 >= 10 || v as int / 10 < 0 {
                assert(v as int == 10 * (v as int / 10) + v as int % 10);
            }
        }
    }
    push_digit(out, v / 10);
    push_digit(out, v % 10);
    proof {
        assert(final(out)@ =~= old(out)@ + seq![
            digit_char(v as int / 10),
            digit_char(v as int % 10),
        ]);
    }
}

/// Appends `v` as exactly four digits, zero-padded.
fn push_four_digits(out: &mut String, v: u64)
    requires
        v <= 9999,
    ensures
        final(out)@ == old(out)@ + seq![
            digit_char(v as int / 1000),
            digit_char((v as int / 100) % 10),
            digit_char((v as int / 10) % 10),
            digit_char(v as int % 10),
        ],
{
    proof {
        lemma_decimal4_digits(v as int);
    }
    push_two_digits(out, v / 100);
    push_two_digits(out, v % 100);
    proof {
        assert(final(out)@ =~= old(out)@ + seq![
            digit_char(v as int / 1000),
            digit_char((v as int / 100) % 10),
            digit_char((v as int / 10) % 10),
            digit_char(v as int % 10),
        ]);
    }
}

/// Appends `v` as exactly six digits, zero-padded.
fn push_six_digits(out: &mut String, v: u64)
    requires
        v <= 999999,
    ensures
        final(out)@ == old(out)@ + seq![
            digit_char(v as int / 100000),
            digit_char((v as int / 10000) % 10),
            digit_char((v as int / 1000) % 10),
            digit_char((v as int / 100) % 10),
            digit_char((v as int / 10) % 10),
            digit_char(v as int % 10),
        ],
{
    proof {
        lemma_decimal6_digits(v as int);
    }
    push_two_digits(out, v / 10000);
    push_two_digits(out, (v / 100) % 100);
    push_two_digits(out, v % 100);
    proof {
        assert(final(out)@ =~= old(out)@ + seq![
            digit_char(v as int / 100000),
            digit_char((v as int / 10000) % 10),
            digit_char((v as int / 1000) % 10),
            digit_char((v as int / 100) % 10),
            digit_char((v as int / 10) % 10),
            digit_char(v as int % 10),
        ]);
    }
}

/// Renders microseconds since the Unix epoch as the canonical 27-character
/// timestamp `YYYY-MM-DDTHH:MM:SS.ffffffZ`, always with six fraction
/// digits. The output is accepted by the parser and denotes the given
/// value again.
pub fn format_iso(micros: u64) -> (r: String)
    requires
        micros <= calendar::MAX_UNIX_SECS * 1_000_000 + 999_999,
    ensures
        iso_accepted(r@),
        iso_micros(r@) == micros,
        iso_fraction(r@) == micros as int % 1_000_000,
        r@.len() == 27,
        iso_second(r@) <= 59,
        iso_hour(r@) * 3600 + iso_minute(r@) * 60 + iso_second(r@) == (micros as int / 1_000_000)
            % 86400,
        epoch_days_of_date(iso_year(r@), iso_month(r@), iso_day(r@)) == (micros as int / 1_000_000)
            / 86400,
        is_canonical_iso(r@, micros as int),
        forall|s: Seq<char>| is_canonical_iso(s, micros as int) ==> s == r@,
{
    let secs = micros / 1_000_000;
    let frac = micros % 1_000_000;
    proof {
        vstd::arithmetic::div_mod::lemma_fundamental_div_mod(micros as int, 1_000_000);
        assert(secs <= calendar::MAX_UNIX_SECS) by {
            if secs as int > calendar::MAX_UNIX_SECS {
                assert(micros as int == 1_000_000 * (secs as int) + frac as int);
            }
        }
    }
    let (y, mo, d, hour, minute, second) = calendar::unix_to_civil(secs);
    let mut out = String::new();
    push_four_digits(&mut out, y);
    out.append("-");
    push_two_digits(&mut out, mo);
    out.append("-");
    push_two_digits(&mut out, d);
    out.append("T");
    push_two_digits(&mut out, hour);
    out.append(":");
    push_two_digits(&mut out, minute);
    out.append(":");
    push_two_digits(&mut out, second);
    out.append(".");
    push_six_digits(&mut out, frac);
    out.append("Z");
    proof {
        reveal_strlit("-");
        reveal_strlit("T");
        reveal_strlit(":");
        reveal_strlit(".");
        reveal_strlit("Z");
        let t = out@;
        assert(t =~= seq![
            digit_char(y as int / 1000),
            digit_char((y as int / 100) % 10),
            digit_char((y as int / 10) % 10),
            digit_char(y as int % 10),
            '-',
            digit_char(mo as int / 10),
            digit_char(mo as int % 10),
            '-',
            digit_char(d as int / 10),
            digit_char(d as int % 10),
            'T',
            digit_char(hour as int / 10),
            digit_char(hour as int % 10),
            ':',
            digit_char(minute as int / 10),
            digit_char(minute as int % 10),
            ':',
            digit_char(second as int / 10),
            digit_char(second as int % 10),
            '.',
            digit_char(frac as int / 100000),
            digit_char((frac as int / 10000) % 10),
            digit_char((frac as int / 1000) % 10),
            digit_char((frac as int / 100) % 10),
            digit_char((frac as int / 10) % 10),
            digit_char(frac as int % 10),
            'Z',
        ]);
        lemma_decimal4_digits(y as int);
        lemma_decimal2_range(mo as int);
        lemma_decimal2_range(d as int);
        lemma_decimal2_range(hour as int);
        lemma_decimal2_range(minute as int);
        lemma_decimal2_range(second as int);
        lemma_decimal6_digits(frac as int);
        lemma_all_digit_chars();
        // The four-digit year group reads back as the year, and so on for
        // every group.
        assert(iso_year(t) == y);
        assert(iso_month(t) == mo);
        assert(iso_day(t) == d);
        assert(iso_hour(t) == hour);
        assert(iso_minute(t) == minute);
        assert(iso_second(t) == second);
        assert(iso_fraction(t) == frac);
        assert(iso_structure_ok(t));
        assert(iso_fields_ok(t));
        // The groups recombine to the argument.
        vstd::arithmetic::div_mod::lemma_fundamental_div_mod(secs as int, 86400);
        assert(iso_micros(t) == micros);
        // No other canonical text denotes this value.
        assert forall|s: Seq<char>| is_canonical_iso(s, micros as int) implies s == t by {
            lemma_canonical_text_unique(s, t);
        }
    }
    out
}

/// A value below one hundred splits into two digit values.
proof fn lemma_decimal2_range(v: int)
    requires
        0 <= v <= 99,
    ensures
        0 <= v / 10 <= 9,
        0 <= v % 10 <= 9,
        10 * (v / 10) + v % 10 == v,
{
    vstd::arithmetic::div_mod::lemma_fundamental_div_mod(v, 10);
    assert(v / 10 <= 9) by {
        if v / 10 >= 10 || v / 10 < 0 {
            assert(v == 10 * (v / 10) + v % 10);
        }
    }
}

/// Every digit value renders as a digit character that reads back as
/// itself.
proof fn lemma_all_digit_chars()
    ensures
        forall|v: int|
            0 <= v <= 9 ==> is_digit_char(#[trigger] digit_char(v)) && digit_val(digit_char(v))
                == v,
{
    assert forall|v: int| 0 <= v <= 9 implies is_digit_char(#[trigger] digit_char(v))
        && digit_val(digit_char(v)) == v by {
        lemma_digit_char_val(v);
    }
}

} // verus!
