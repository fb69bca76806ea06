//! Wall-clock fields and the `%` subset they are written with.

use vstd::prelude::*;

use crate::text::{
    chars_of, decimal, law_two_digits, push_signed_decimal, push_text, push_two_digits,
    signed_decimal, two_digits,
};

verus! {

/// The wall-clock fields that the `%` subset reads.
#[derive(Debug, Clone, Copy, PartialEq, Eq, Structural)]
pub struct ClockTime {
    pub hour: u8,
    pub minute: u8,
    pub second: u8,
    pub day: u8,
    pub month: u8,
    pub year: i32,
}

/// The fields of the local civil time, as a calendar library counts them.
#[derive(Debug, Clone, Copy, PartialEq, Eq, Structural)]
pub struct CivilFields {
    pub hour: i8,
    pub minute: i8,
    pub second: i8,
    pub day: i8,
    pub month: i8,
    pub year: i16,
}

/// The current time in the system's time zone, by `jiff::Zoned::try_from` on
/// the system clock and the field getters of `jiff::Zoned`; `None` when the
/// clock stands outside the years that the calendar covers. The ranges are those
/// that the getters document. That the fields are those of the present moment is
/// left unsaid, since it rests on the clock.
#[verifier::external_body]
fn sample_local_fields() -> (r: Option<CivilFields>)
    ensures
        r matches Some(f) ==> {
            &&& 0 <= f.hour <= 23
            &&& 0 <= f.minute <= 59
            &&& 0 <= f.second <= 59
            &&& 1 <= f.day <= 31
            &&& 1 <= f.month <= 12
            &&& -9999 <= f.year <= 9999
        },
{
    let zoned = jiff::Zoned::try_from(std::time::SystemTime::now()).ok()?;
    Some(CivilFields {
        hour: zoned.hour(),
        minute: zoned.minute(),
        second: zoned.second(),
        day: zoned.day(),
        month: zoned.month(),
        year: zoned.year(),
    })
}

/// A field that is never negative.
pub open spec fn floored(n: i8) -> u8 {
    if n < 0 {
        0
    } else {
        n as u8
    }
}

fn floor_field(n: i8) -> (r: u8)
    ensures
        r == floored(n),
{
    if n < 0 {
        0
    } else {
        n as u8
    }
}

impl ClockTime {
    /// Every field is one that a calendar and a clock can show.
    pub open spec fn in_range(self) -> bool {
        &&& self.hour <= 23
        &&& self.minute <= 59
        &&& self.second <= 59
        &&& 1 <= self.day <= 31
        &&& 1 <= self.month <= 12
        &&& -9999 <= self.year <= 9999
    }

    /// The clock fields of a civil time.
    pub fn from_civil(f: CivilFields) -> (r: ClockTime)
        ensures
            r.hour == floored(f.hour),
            r.minute == floored(f.minute),
            r.second == floored(f.second),
            r.day == floored(f.day),
            r.month == floored(f.month),
            r.year == f.year,
            r == clock_of(f),
    {
        ClockTime {
            hour: floor_field(f.hour),
            minute: floor_field(f.minute),
            second: floor_field(f.second),
            day: floor_field(f.day),
            month: floor_field(f.month),
            year: f.year as i32,
        }
    }

    /// Sample the current local time. `None` when it cannot be resolved, which
    /// leaves cached clock text in place.
    pub fn now_local() -> (r: Option<ClockTime>)
        ensures
            r matches Some(t) ==> t.in_range(),
    {
        ClockTime::from_sample(sample_local_fields())
    }

    /// The clock fields of a sample of the local time, where there is one.
    pub fn from_sample(sample: Option<CivilFields>) -> (r: Option<ClockTime>)
        ensures
            match sample {
                Some(f) => r == Some(
                    ClockTime {
                        hour: floored(f.hour),
                        minute: floored(f.minute),
                        second: floored(f.second),
                        day: floored(f.day),
                        month: floored(f.month),
                        year: f.year as i32,
                    },
                ),
                None => r is None,
            },
            sample matches Some(f) ==> r == Some(clock_of(f)),
    {
        match sample {
            Some(f) => Some(ClockTime::from_civil(f)),
            None => None,
        }
    }
}

/// The clock fields of a civil time.
pub open spec fn clock_of(f: CivilFields) -> ClockTime {
    ClockTime {
        hour: floored(f.hour),
        minute: floored(f.minute),
        second: floored(f.second),
        day: floored(f.day),
        month: floored(f.month),
        year: f.year as i32,
    }
}

/// The short name of a month; empty for a number that names none.
pub open spec fn month_text(month: u8) -> Seq<char> {
    if month == 1 {
        "Jan"@
    } else if month == 2 {
        "Feb"@
    } else if month == 3 {
        "Mar"@
    } else if month == 4 {
        "Apr"@
    } else if month == 5 {
        "May"@
    } else if month == 6 {
        "Jun"@
    } else if month == 7 {
        "Jul"@
    } else if month == 8 {
        "Aug"@
    } else if month == 9 {
        "Sep"@
    } else if month == 10 {
        "Oct"@
    } else if month == 11 {
        "Nov"@
    } else if month == 12 {
        "Dec"@
    } else {
        ""@
    }
}

fn month_name(month: u8) -> (r: &'static str)
    ensures
        r@ == month_text(month),
{
    match month {
        1 => "Jan",
        2 => "Feb",
        3 => "Mar",
        4 => "Apr",
        5 => "May",
        6 => "Jun",
        7 => "Jul",
        8 => "Aug",
        9 => "Sep",
        10 => "Oct",
        11 => "Nov",
        12 => "Dec",
        _ => "",
    }
}

/// What `%` followed by `c` stands for.
pub open spec fn field_text(c: char, t: ClockTime) -> Seq<char> {
    if c == 'H' {
        two_digits(t.hour as nat)
    } else if c == 'M' {
        two_digits(t.minute as nat)
    } else if c == 'S' {
        two_digits(t.second as nat)
    } else if c == 'd' {
        two_digits(t.day as nat)
    } else if c == 'b' {
        month_text(t.month)
    } else if c == 'Y' {
        signed_decimal(t.year as int)
    } else if c == '%' {
        seq!['%']
    } else {
        seq!['%', c]
    }
}

/// What a clock format from `i` on stands for: fields are replaced, everything
/// else is kept.
pub open spec fn clock_text_from(fmt: Seq<char>, i: int, t: ClockTime) -> Seq<char>
    decreases fmt.len() - i,
{
    if i < 0 || i >= fmt.len() {
        Seq::empty()
    } else if fmt[i] != '%' {
        seq![fmt[i]] + clock_text_from(fmt, i + 1, t)
    } else if i + 1 < fmt.len() {
        field_text(fmt[i + 1], t) + clock_text_from(fmt, i + 2, t)
    } else {
        seq!['%']
    }
}

/// What a clock format stands for at time `t`.
pub open spec fn clock_text(fmt: Seq<char>, t: ClockTime) -> Seq<char> {
    clock_text_from(fmt, 0, t)
}

fn push_field(out: &mut String, c: char, t: &ClockTime)
    ensures
        final(out)@ == old(out)@ + field_text(c, *t),
{
    let ghost before = out@;
    if c == 'H' {
        push_two_digits(out, t.hour);
    } else if c == 'M' {
        push_two_digits(out, t.minute);
    } else if c == 'S' {
        push_two_digits(out, t.second);
    } else if c == 'd' {
        push_two_digits(out, t.day);
    } else if c == 'b' {
        push_text(out, month_name(t.month));
    } else if c == 'Y' {
        push_signed_decimal(out, t.year);
    } else if c == '%' {
        out.push('%');
        assert(before.push('%') =~= before + seq!['%']);
    } else {
        out.push('%');
        out.push(c);
        assert(before.push('%').push(c) =~= before + seq!['%', c]);
    }
}

/// Format a `%` subset: `%H %M %S %d %b %Y %%`. Unknown tokens render
/// literally.
pub fn format_clock(fmt: &str, t: &ClockTime) -> (r: String)
    ensures
        r@ == clock_text(fmt@, *t),
{
    let chars = chars_of(fmt);
    let mut out = String::new();
    let mut i: usize = 0;
    assert(out@ + clock_text(fmt@, *t) =~= clock_text(fmt@, *t));
    while i < chars.len()
        invariant
            chars@ == fmt@,
            out@ + clock_text_from(fmt@, i as int, *t) == clock_text(fmt@, *t),
        decreases chars@.len() - i,
    {
        let ghost before = out@;
        if chars[i] == '%' {
            if i + 1 >= chars.len() {
                out.push('%');
                assert(out@ =~= before + seq!['%']);
                return out;
            }
            push_field(&mut out, chars[i + 1], t);
            proof {
                let rest = clock_text_from(fmt@, i + 2, *t);
                assert(before + (field_text(fmt@[i + 1], *t) + rest) =~= (before + field_text(
                    fmt@[i + 1],
                    *t,
                )) + rest);
            }
            i = i + 2;
        } else {
            out.push(chars[i]);
            proof {
                let rest = clock_text_from(fmt@, i + 1, *t);
                assert(before + (seq![fmt@[i as int]] + rest) =~= before.push(fmt@[i as int])
                    + rest);
            }
            i = i + 1;
        }
    }
    assert(out@ + Seq::<char>::empty() =~= out@);
    out
}

/// The months by their short names.
pub proof fn law_month_names()
    ensures
        month_text(1) == seq!['J', 'a', 'n'],
        month_text(2) == seq!['F', 'e', 'b'],
        month_text(3) == seq!['M', 'a', 'r'],
        month_text(4) == seq!['A', 'p', 'r'],
        month_text(5) == seq!['M', 'a', 'y'],
        month_text(6) == seq!['J', 'u', 'n'],
        month_text(7) == seq!['J', 'u', 'l'],
        month_text(8) == seq!['A', 'u', 'g'],
        month_text(9) == seq!['S', 'e', 'p'],
        month_text(10) == seq!['O', 'c', 't'],
        month_text(11) == seq!['N', 'o', 'v'],
        month_text(12) == seq!['D', 'e', 'c'],
        month_text(0).len() == 0,
        month_text(13).len() == 0,
{
    reveal_strlit("Jan");
    reveal_strlit("Feb");
    reveal_strlit("Mar");
    reveal_strlit("Apr");
    reveal_strlit("May");
    reveal_strlit("Jun");
    reveal_strlit("Jul");
    reveal_strlit("Aug");
    reveal_strlit("Sep");
    reveal_strlit("Oct");
    reveal_strlit("Nov");
    reveal_strlit("Dec");
    reveal_strlit("");
    assert("Jan"@ =~= seq!['J', 'a', 'n']);
    assert("Feb"@ =~= seq!['F', 'e', 'b']);
    assert("Mar"@ =~= seq!['M', 'a', 'r']);
    assert("Apr"@ =~= seq!['A', 'p', 'r']);
    assert("May"@ =~= seq!['M', 'a', 'y']);
    assert("Jun"@ =~= seq!['J', 'u', 'n']);
    assert("Jul"@ =~= seq!['J', 'u', 'l']);
    assert("Aug"@ =~= seq!['A', 'u', 'g']);
    assert("Sep"@ =~= seq!['S', 'e', 'p']);
    assert("Oct"@ =~= seq!['O', 'c', 't']);
    assert("Nov"@ =~= seq!['N', 'o', 'v']);
    assert("Dec"@ =~= seq!['D', 'e', 'c']);
}

/// The decimal digits of a number below a hundred, tens first.
pub open spec fn tens_and_ones(text: Seq<char>, n: int) -> bool {
    &&& text.len() == 2
    &&& text[0] as int == 48 + n / 10
    &&& text[1] as int == 48 + n % 10
}

/// Each field shows its own part of the time: hour, minute, second and day in two
/// digits, the month by its name, the year in full; a doubled sign is a percent
/// sign, and an unknown field stays as it is written.
pub proof fn law_fields_show_the_time(t: ClockTime, c: char)
    requires
        t.in_range(),
    ensures
        tens_and_ones(field_text('H', t), t.hour as int),
        tens_and_ones(field_text('M', t), t.minute as int),
        tens_and_ones(field_text('S', t), t.second as int),
        tens_and_ones(field_text('d', t), t.day as int),
        field_text('b', t) == month_text(t.month),
        t.year >= 0 ==> field_text('Y', t) == decimal(t.year as nat),
        t.year < 0 ==> field_text('Y', t) == seq!['-'] + decimal((-t.year) as nat),
        field_text('%', t) == seq!['%'],
        c != 'H' && c != 'M' && c != 'S' && c != 'd' && c != 'b' && c != 'Y' && c != '%'
            ==> field_text(c, t) == seq!['%', c],
{
    law_two_digits(t.hour as nat);
    law_two_digits(t.minute as nat);
    law_two_digits(t.second as nat);
    law_two_digits(t.day as nat);
}

/// A clock format is replaced field by field from left to right; every other
/// character stays, and so does a sign at the end.
pub proof fn law_formats_are_read_in_order(c: char, rest: Seq<char>, t: ClockTime)
    ensures
        clock_text(Seq::empty(), t) == Seq::<char>::empty(),
        c != '%' ==> clock_text(seq![c] + rest, t) == seq![c] + clock_text(rest, t),
        clock_text(seq!['%', c] + rest, t) == field_text(c, t) + clock_text(rest, t),
        clock_text(seq!['%'], t) == seq!['%'],
{
    let one = seq![c] + rest;
    assert(one[0] == c);
    lemma_clock_shift(seq![c], rest, 0, t);
    let two = seq!['%', c] + rest;
    assert(two[0] == '%' && two[1] == c);
    lemma_clock_shift(seq!['%', c], rest, 0, t);
}

proof fn lemma_clock_shift(p: Seq<char>, s: Seq<char>, i: int, t: ClockTime)
    requires
        0 <= i,
    ensures
        clock_text_from(p + s, p.len() + i, t) == clock_text_from(s, i, t),
    decreases s.len() - i,
{
    if i < s.len() {
        assert((p + s)[p.len() + i] == s[i]);
        if s[i] != '%' {
            lemma_clock_shift(p, s, i + 1, t);
        } else if i + 1 < s.len() {
            assert((p + s)[p.len() + i + 1] == s[i + 1]);
            lemma_clock_shift(p, s, i + 2, t);
        }
    }
}

/// The clock shows the civil time that was sampled, field for field.
pub proof fn law_sampled_fields_are_kept(f: CivilFields)
    ensures
        f.hour >= 0 ==> clock_of(f).hour == f.hour,
        f.minute >= 0 ==> clock_of(f).minute == f.minute,
        f.second >= 0 ==> clock_of(f).second == f.second,
        f.day >= 0 ==> clock_of(f).day == f.day,
        f.month >= 0 ==> clock_of(f).month == f.month,
        clock_of(f).year == f.year,
        f.hour < 0 ==> clock_of(f).hour == 0,
{
}

} // verus!
