//! Calendar timestamps of the fixed textual shape `m/d/yyyy hh:mm:ss`.
//!
//! A timestamp is six numbers and nothing more: no calendar validity is
//! enforced, so month 13 is as good as month 12. Timestamps are totally
//! ordered, lexicographically over (year, month, day, hour, minute, second).

use vstd::prelude::*;
use crate::error::TaError;
use crate::text::{
    all_digits, chars_of, decimal, decimal_two, is_digit, lemma_numeral_of_decimal, numeral,
    parse_numeral, push_decimal, push_decimal_two,
};

verus! {

/// The six fields of a timestamp, most significant first:
/// (year, month, day, hour, minute, second).
pub type Fields = (u16, u8, u8, u8, u8, u8);

/// `a` comes strictly before `b`: at the first field in which they differ,
/// `a` is the smaller. A lower field decides only when every higher field is
/// equal.
pub open spec fn precedes(a: Fields, b: Fields) -> bool {
    a.0 < b.0 || (a.0 == b.0 && (a.1 < b.1 || (a.1 == b.1 && (a.2 < b.2 || (a.2 == b.2 && (a.3
        < b.3 || (a.3 == b.3 && (a.4 < b.4 || (a.4 == b.4 && a.5 < b.5)))))))))
}

/// The position of a timestamp on one integer axis: the six fields read as
/// the digits of a number in base 256.
pub open spec fn ordinal(a: Fields) -> int {
    ((((a.0 as int * 256 + a.1 as int) * 256 + a.2 as int) * 256 + a.3 as int) * 256
        + a.4 as int) * 256 + a.5 as int
}

/// The lexicographic order of the fields is the order of the ordinals, and
/// two timestamps with one ordinal are the same timestamp.
pub proof fn lemma_ordinal_orders(a: Fields, b: Fields)
    ensures
        precedes(a, b) <==> ordinal(a) < ordinal(b),
        a == b <==> ordinal(a) == ordinal(b),
{
    let a1 = a.0 as int * 256 + a.1 as int;
    let b1 = b.0 as int * 256 + b.1 as int;
    lemma_digit_orders(a.0 as int, a.1 as int, b.0 as int, b.1 as int);
    let a2 = a1 * 256 + a.2 as int;
    let b2 = b1 * 256 + b.2 as int;
    lemma_digit_orders(a1, a.2 as int, b1, b.2 as int);
    let a3 = a2 * 256 + a.3 as int;
    let b3 = b2 * 256 + b.3 as int;
    lemma_digit_orders(a2, a.3 as int, b2, b.3 as int);
    let a4 = a3 * 256 + a.4 as int;
    let b4 = b3 * 256 + b.4 as int;
    lemma_digit_orders(a3, a.4 as int, b3, b.4 as int);
    lemma_digit_orders(a4, a.5 as int, b4, b.5 as int);
}

/// One more digit in base 256 refines the order of the numbers above it.
proof fn lemma_digit_orders(high_a: int, low_a: int, high_b: int, low_b: int)
    requires
        0 <= low_a < 256,
        0 <= low_b < 256,
    ensures
        high_a * 256 + low_a < high_b * 256 + low_b <==> high_a < high_b || (high_a == high_b
            && low_a < low_b),
        high_a * 256 + low_a == high_b * 256 + low_b <==> high_a == high_b && low_a == low_b,
{
}

/// The characters that part the fields of a timestamp's text.
pub open spec fn is_separator(c: char) -> bool {
    c == '/' || c == ' ' || c == ':'
}

/// The fields of a text: the stretches between its separators, in order. A
/// text with n separators has n + 1 fields, some of them perhaps empty.
pub open spec fn split(s: Seq<char>) -> Seq<Seq<char>>
    decreases s.len(),
{
    if s.len() == 0 {
        seq![Seq::<char>::empty()]
    } else {
        let before = split(s.drop_last());
        if is_separator(s.last()) {
            before.push(Seq::<char>::empty())
        } else {
            before.update(before.len() - 1, before.last().push(s.last()))
        }
    }
}

/// What a text of the shape `m/d/yyyy hh:mm:ss` denotes: it has exactly six
/// fields, each an unsigned decimal numeral that fits its place (the year
/// in 16 bits, the others in 8), in the order month, day, year, hour,
/// minute, second. `None` for every other text.
pub open spec fn timestamp_fields(s: Seq<char>) -> Option<Fields> {
    let f = split(s);
    if f.len() == 6 && numeral(f[0], 255) is Some && numeral(f[1], 255) is Some && numeral(
        f[2],
        65535,
    ) is Some && numeral(f[3], 255) is Some && numeral(f[4], 255) is Some && numeral(f[5], 255)
        is Some {
        Some(
            (
                numeral(f[2], 65535)->0 as u16,
                numeral(f[0], 255)->0 as u8,
                numeral(f[1], 255)->0 as u8,
                numeral(f[3], 255)->0 as u8,
                numeral(f[4], 255)->0 as u8,
                numeral(f[5], 255)->0 as u8,
            ),
        )
    } else {
        None
    }
}

/// The text of a timestamp: `m/d/yyyy hh:mm:ss`, with month, day and year
/// in as many digits as they need and hour, minute and second in at least
/// two.
pub open spec fn render(f: Fields) -> Seq<char> {
    decimal(f.1 as nat) + seq!['/'] + decimal(f.2 as nat) + seq!['/'] + decimal(f.0 as nat)
        + seq![' '] + decimal_two(f.3 as nat) + seq![':'] + decimal_two(f.4 as nat) + seq![':']
        + decimal_two(f.5 as nat)
}

/// A text has at least one field.
pub proof fn lemma_split_nonempty(s: Seq<char>)
    ensures
        split(s).len() >= 1,
    decreases s.len(),
{
    if s.len() > 0 {
        lemma_split_nonempty(s.drop_last());
    }
}

/// Digits written behind a text lengthen its last field.
pub proof fn lemma_split_digits(s: Seq<char>, w: Seq<char>)
    requires
        all_digits(w),
    ensures
        split(s + w).len() == split(s).len(),
        split(s + w) == split(s).update(split(s).len() - 1, split(s).last() + w),
    decreases w.len(),
{
    lemma_split_nonempty(s);
    let f = split(s);
    if w.len() == 0 {
        assert(s + w =~= s);
        assert(f.last() + w =~= f.last());
        assert(f.update(f.len() - 1, f.last()) =~= f);
    } else {
        let w0 = w.drop_last();
        let c = w.last();
        assert forall|i: int| 0 <= i < w0.len() implies is_digit(#[trigger] w0[i]) by {
            assert(w0[i] == w[i]);
        }
        lemma_split_digits(s, w0);
        assert(is_digit(w[w.len() - 1]));
        assert(!is_separator(c));
        assert((s + w).drop_last() =~= s + w0);
        assert((s + w).last() == c);
        let g = split(s + w0);
        assert(g.last().push(c) =~= f.last() + w);
        assert(g.update(g.len() - 1, g.last().push(c)) =~= f.update(f.len() - 1, f.last() + w));
    }
}

/// A separator and digits written behind a text make one more field of it:
/// the digits.
pub proof fn lemma_split_next_field(s: Seq<char>, c: char, w: Seq<char>)
    requires
        is_separator(c),
        all_digits(w),
    ensures
        split(s + seq![c] + w) == split(s).push(w),
{
    let sc = s + seq![c];
    assert(sc.drop_last() =~= s);
    assert(sc.last() == c);
    assert(split(sc) == split(s).push(Seq::<char>::empty()));
    lemma_split_digits(sc, w);
    assert(Seq::<char>::empty() + w =~= w);
    assert(split(sc).update(split(sc).len() - 1, split(sc).last() + w) =~= split(s).push(w));
}

/// What `to_string` writes, `new` reads back as the same timestamp.
pub proof fn lemma_render_reads_back(f: Fields)
    ensures
        timestamp_fields(render(f)) == Some(f),
{
    let month = decimal(f.1 as nat);
    let day = decimal(f.2 as nat);
    let year = decimal(f.0 as nat);
    let hour = decimal_two(f.3 as nat);
    let minute = decimal_two(f.4 as nat);
    let second = decimal_two(f.5 as nat);
    lemma_numeral_of_decimal(f.1 as nat, 255);
    lemma_numeral_of_decimal(f.2 as nat, 255);
    lemma_numeral_of_decimal(f.0 as nat, 65535);
    lemma_numeral_of_decimal(f.3 as nat, 255);
    lemma_numeral_of_decimal(f.4 as nat, 255);
    lemma_numeral_of_decimal(f.5 as nat, 255);
    let none = Seq::<char>::empty();
    lemma_split_digits(none, month);
    assert(none + month =~= month);
    assert(split(none) =~= seq![none]);
    let t1 = month;
    assert(split(t1) =~= seq![month]);
    let t2 = t1 + seq!['/'] + day;
    lemma_split_next_field(t1, '/', day);
    let t3 = t2 + seq!['/'] + year;
    lemma_split_next_field(t2, '/', year);
    let t4 = t3 + seq![' '] + hour;
    lemma_split_next_field(t3, ' ', hour);
    let t5 = t4 + seq![':'] + minute;
    lemma_split_next_field(t4, ':', minute);
    let t6 = t5 + seq![':'] + second;
    lemma_split_next_field(t5, ':', second);
    assert(t6 == render(f));
    assert(split(t6) =~= seq![month, day, year, hour, minute, second]);
}

/// Timestamps are totally ordered: of two timestamps exactly one comes
/// before the other unless they are the same, and what comes before an
/// earlier timestamp comes before the later ones too.
pub proof fn lemma_precedes_is_a_total_order(a: Fields, b: Fields, c: Fields)
    ensures
        !precedes(a, a),
        precedes(a, b) || precedes(b, a) || a == b,
        !(precedes(a, b) && precedes(b, a)),
        precedes(a, b) && precedes(b, c) ==> precedes(a, c),
{
    lemma_ordinal_orders(a, a);
    lemma_ordinal_orders(a, b);
    lemma_ordinal_orders(b, a);
    lemma_ordinal_orders(b, c);
    lemma_ordinal_orders(a, c);
}

/// Parts a text into its fields.
fn split_fields(v: &Vec<char>) -> (fields: Vec<Vec<char>>)
    ensures
        fields@.len() == split(v@).len(),
        forall|j: int| 0 <= j < fields@.len() ==> (#[trigger] fields@[j])@ == split(v@)[j],
{
    let mut fields: Vec<Vec<char>> = Vec::new();
    let mut current: Vec<char> = Vec::new();
    let n: usize = v.len();
    let mut i: usize = 0;
    while i < n
        invariant
            i <= n,
            n == v.len(),
            fields@.len() + 1 == split(v@.take(i as int)).len(),
            forall|j: int|
                0 <= j < fields@.len() ==> (#[trigger] fields@[j])@ == split(v@.take(i as int))[j],
            current@ == split(v@.take(i as int)).last(),
        decreases n - i,
    {
        let c: char = v[i];
        proof {
            assert(v@.take(i + 1).drop_last() =~= v@.take(i as int));
            lemma_split_nonempty(v@.take(i as int));
        }
        if c == '/' || c == ' ' || c == ':' {
            fields.push(current);
            current = Vec::new();
        } else {
            current.push(c);
        }
        i = i + 1;
    }
    assert(v@.take(n as int) =~= v@);
    fields.push(current);
    fields
}

/// A point in calendar time.
#[derive(Clone, Copy, Debug)]
pub struct DateTime {
    year: u16,
    month: u8,
    day: u8,
    hour: u8,
    minute: u8,
    second: u8,
}

impl View for DateTime {
    type V = Fields;

    closed spec fn view(&self) -> Fields {
        (self.year, self.month, self.day, self.hour, self.minute, self.second)
    }
}

impl DateTime {
    /// Reads a timestamp from a text of the shape `m/d/yyyy hh:mm:ss`.
    ///
    /// The text must part, at its `/`, space and `:` characters, into exactly
    /// six numeric fields; any other text is refused.
    pub fn new(datetime: &str) -> (r: Result<DateTime, TaError>)
        ensures
            match r {
                Ok(d) => timestamp_fields(datetime@) == Some(d@),
                Err(e) => e == TaError::MalformedTimestamp && timestamp_fields(datetime@) is None,
            },
    {
        let chars = chars_of(datetime);
        let fields = split_fields(&chars);
        if fields.len() != 6 {
            return Err(TaError::MalformedTimestamp);
        }
        let month = parse_numeral(&fields[0], 255);
        let day = parse_numeral(&fields[1], 255);
        let year = parse_numeral(&fields[2], 65535);
        let hour = parse_numeral(&fields[3], 255);
        let minute = parse_numeral(&fields[4], 255);
        let second = parse_numeral(&fields[5], 255);
        match (month, day, year, hour, minute, second) {
            (Some(month), Some(day), Some(year), Some(hour), Some(minute), Some(second)) => Ok(
                DateTime {
                    year: year as u16,
                    month: month as u8,
                    day: day as u8,
                    hour: hour as u8,
                    minute: minute as u8,
                    second: second as u8,
                },
            ),
            _ => Err(TaError::MalformedTimestamp),
        }
    }

    pub fn get_year(&self) -> (r: u16)
        ensures
            r == self@.0,
    {
        self.year
    }

    pub fn get_month(&self) -> (r: u8)
        ensures
            r == self@.1,
    {
        self.month
    }

    pub fn get_day(&self) -> (r: u8)
        ensures
            r == self@.2,
    {
        self.day
    }

    pub fn get_hour(&self) -> (r: u8)
        ensures
            r == self@.3,
    {
        self.hour
    }

    pub fn get_minute(&self) -> (r: u8)
        ensures
            r == self@.4,
    {
        self.minute
    }

    pub fn get_second(&self) -> (r: u8)
        ensures
            r == self@.5,
    {
        self.second
    }

    /// Both timestamps name the same instant.
    pub fn is_on(&self, d: &DateTime) -> (r: bool)
        ensures
            r == (self@ == d@),
    {
        self.year == d.year && self.month == d.month && self.day == d.day && self.hour == d.hour
            && self.minute == d.minute && self.second == d.second
    }

    /// `self` comes strictly after `d`.
    pub fn is_after(&self, d: &DateTime) -> (r: bool)
        ensures
            r == precedes(d@, self@),
    {
        d.is_before(self)
    }

    /// `self` is `d` or comes after it.
    pub fn is_on_or_after(&self, d: &DateTime) -> (r: bool)
        ensures
            r == !precedes(self@, d@),
            r == (self@ == d@ || precedes(d@, self@)),
    {
        proof {
            lemma_ordinal_orders(self@, d@);
            lemma_ordinal_orders(d@, self@);
        }
        self.is_on(d) || self.is_after(d)
    }

    /// `self` comes strictly before `d`.
    pub fn is_before(&self, d: &DateTime) -> (r: bool)
        ensures
            r == precedes(self@, d@),
    {
        if self.year != d.year {
            return self.year < d.year;
        }
        if self.month != d.month {
            return self.month < d.month;
        }
        if self.day != d.day {
            return self.day < d.day;
        }
        if self.hour != d.hour {
            return self.hour < d.hour;
        }
        if self.minute != d.minute {
            return self.minute < d.minute;
        }
        self.second < d.second
    }

    /// `self` is `d` or comes before it.
    pub fn is_on_or_before(&self, d: &DateTime) -> (r: bool)
        ensures
            r == !precedes(d@, self@),
            r == (self@ == d@ || precedes(self@, d@)),
    {
        proof {
            lemma_ordinal_orders(self@, d@);
            lemma_ordinal_orders(d@, self@);
        }
        self.is_on(d) || self.is_before(d)
    }

    /// The timestamp as text, in the shape that `new` reads.
    pub fn to_string(&self) -> (r: String)
        ensures
            r@ == render(self@),
    {
        let mut out = String::new();
        push_decimal(&mut out, self.month as u16);
        out.push('/');
        push_decimal(&mut out, self.day as u16);
        out.push('/');
        push_decimal(&mut out, self.year);
        out.push(' ');
        push_decimal_two(&mut out, self.hour as u16);
        out.push(':');
        push_decimal_two(&mut out, self.minute as u16);
        out.push(':');
        push_decimal_two(&mut out, self.second as u16);
        assert(out@ =~= render(self@));
        out
    }
}

/// Whether the first timestamp comes strictly before the second; `false`
/// when they are the same.
pub fn compare(dt1: &DateTime, dt2: &DateTime) -> (r: bool)
    ensures
        r == precedes(dt1@, dt2@),
{
    dt1.is_before(dt2)
}

} // verus!
