//! The traffic of the current hour and the current month: counting, starting
//! over when a period ends, keeping the counts in a file, and showing them.

use crate::text::{
    chars_of, dec, dec_padded, find_char, law_split_at_character, fits_line, is_digit, lemma_first_line, lemma_index_of_char,
    law_decimal_round_trip, lemma_dec_chars, lines, parse_digits, parse_number, push_dec,
    push_dec_padded, read_number, spells, split_char, split_lines, string_of, views, NumError,
};
use vstd::prelude::*;

verus! {

// ---------------------------------------------------------------------------
// Periods
// ---------------------------------------------------------------------------

/// The local time, as far as the periods depend on it.
#[derive(Clone, Copy)]
pub struct LocalTime {
    pub year: u16,
    pub month: u16,
    pub day: u16,
    pub hour: u16,
}

/// The key of the month: the year and the month.
pub open spec fn month_key(now: LocalTime) -> Seq<char> {
    dec_padded(now.year as nat, 4) + dec_padded(now.month as nat, 2)
}

/// The key of the hour: the year, the month, the day and the hour.
pub open spec fn hour_key(now: LocalTime) -> Seq<char> {
    month_key(now) + dec_padded(now.day as nat, 2) + dec_padded(now.hour as nat, 2)
}

/// The keys of the hour and of the month. Where there is no local time, the
/// periods never end.
pub fn period_keys(now: Option<LocalTime>) -> (keys: (String, String))
    ensures
        match now {
            Some(now) => keys.0@ == hour_key(now) && keys.1@ == month_key(now),
            None => keys.0@ == "hour"@ && keys.1@ == "month"@,
        },
{
    match now {
        Some(now) => {
            let mut month = String::new();
            push_dec_padded(&mut month, now.year as u64, 4);
            push_dec_padded(&mut month, now.month as u64, 2);
            assert(month@ =~= month_key(now));
            let mut hour = month.clone();
            push_dec_padded(&mut hour, now.day as u64, 2);
            push_dec_padded(&mut hour, now.hour as u64, 2);
            (hour, month)
        },
        None => ("hour".to_owned(), "month".to_owned()),
    }
}

// ---------------------------------------------------------------------------
// Counts
// ---------------------------------------------------------------------------

/// The counts of the current hour and month, each with the key of its period.
pub struct TrafficStore {
    pub hour_key: String,
    pub month_key: String,
    pub hour_bytes: u64,
    pub month_bytes: u64,
}

/// The counts as a mathematical value.
pub ghost struct Traffic {
    pub hour_key: Seq<char>,
    pub month_key: Seq<char>,
    pub hour_bytes: nat,
    pub month_bytes: nat,
}

impl View for TrafficStore {
    type V = Traffic;

    open spec fn view(&self) -> Traffic {
        Traffic {
            hour_key: self.hour_key@,
            month_key: self.month_key@,
            hour_bytes: self.hour_bytes as nat,
            month_bytes: self.month_bytes as nat,
        }
    }
}

/// The sum, or the greatest number of 64 bits where the sum is above it.
pub open spec fn capped_sum(a: nat, b: nat) -> nat {
    if a + b > u64::MAX {
        u64::MAX as nat
    } else {
        a + b
    }
}

/// The number that a text denotes, or zero.
pub open spec fn number_or_zero(text: Seq<char>) -> nat {
    match parse_number(text, 10, u64::MAX as nat) {
        Ok(n) => n,
        Err(_) => 0,
    }
}

impl Traffic {
    /// Nothing counted in these periods.
    pub open spec fn empty(hour: Seq<char>, month: Seq<char>) -> Traffic {
        Traffic { hour_key: hour, month_key: month, hour_bytes: 0, month_bytes: 0 }
    }

    /// A count starts over exactly where its period is not the current one.
    pub open spec fn rolled(self, hour: Seq<char>, month: Seq<char>) -> Traffic {
        Traffic {
            hour_key: hour,
            month_key: month,
            hour_bytes: if self.hour_key == hour {
                self.hour_bytes
            } else {
                0
            },
            month_bytes: if self.month_key == month {
                self.month_bytes
            } else {
                0
            },
        }
    }

    /// Bytes are added to both counts of the current periods.
    pub open spec fn added(self, bytes: nat, hour: Seq<char>, month: Seq<char>) -> Traffic {
        let now = self.rolled(hour, month);
        Traffic {
            hour_bytes: capped_sum(now.hour_bytes, bytes),
            month_bytes: capped_sum(now.month_bytes, bytes),
            ..now
        }
    }

    /// A line of the file sets one field, and any other line sets none.
    pub open spec fn with_line(self, line: Seq<char>) -> Traffic {
        match split_char(line, '=') {
            None => self,
            Some((key, raw)) => if key == "hour_key"@ {
                Traffic { hour_key: raw, ..self }
            } else if key == "month_key"@ {
                Traffic { month_key: raw, ..self }
            } else if key == "hour_bytes"@ {
                Traffic { hour_bytes: number_or_zero(raw), ..self }
            } else if key == "month_bytes"@ {
                Traffic { month_bytes: number_or_zero(raw), ..self }
            } else {
                self
            },
        }
    }

    /// The lines of the file, in order.
    pub open spec fn with_lines(self, all: Seq<Seq<char>>) -> Traffic
        decreases all.len(),
    {
        if all.len() == 0 {
            self
        } else {
            self.with_lines(all.drop_last()).with_line(all.last())
        }
    }

    /// The file that keeps the counts.
    pub open spec fn file_text(self) -> Seq<char> {
        "hour_key="@ + self.hour_key + "\nmonth_key="@ + self.month_key + "\nhour_bytes="@ + dec(
            self.hour_bytes,
        ) + "\nmonth_bytes="@ + dec(self.month_bytes) + "\n"@
    }
}

/// The counts that a file holds, or none where there is no file, with those of
/// ended periods started over.
pub open spec fn loaded(file: Option<Seq<char>>, hour: Seq<char>, month: Seq<char>) -> Traffic {
    match file {
        Some(text) => Traffic::empty(hour, month).with_lines(lines(text)).rolled(hour, month),
        None => Traffic::empty(hour, month),
    }
}

impl TrafficStore {
    /// The counts that a file holds, for the current periods.
    pub fn load(file: Option<&str>, hour: String, month: String) -> (store: Self)
        ensures
            store@ == loaded(
                match file {
                    Some(text) => Some(text@),
                    None => None,
                },
                hour@,
                month@,
            ),
    {
        let mut value = TrafficStore {
            hour_key: hour.clone(),
            month_key: month.clone(),
            hour_bytes: 0,
            month_bytes: 0,
        };
        assert(value@ =~= Traffic::empty(hour@, month@));
        if let Some(text) = file {
            let chars = chars_of(text);
            let all = split_lines(chars.as_slice());
            for i in 0..all.len()
                invariant
                    value@ == Traffic::empty(hour@, month@).with_lines(views(all@).take(i as int)),
            {
                proof {
                    let next = views(all@).take(i + 1);
                    assert(next.drop_last() =~= views(all@).take(i as int));
                    assert(next.last() == all@[i as int]@);
                }
                value.read_line(all[i].as_slice());
            }
            assert(views(all@).take(all@.len() as int) =~= lines(text@));
        }
        value.roll_periods(hour, month);
        value
    }

    /// A line of the file sets one field, and any other line sets none.
    fn read_line(&mut self, line: &[char])
        ensures
            final(self)@ == old(self)@.with_line(line@),
    {
        assert(line@.skip(0) =~= line@);
        let at = find_char(line, 0, '=');
        if at < line.len() {
            let key = vstd::slice::slice_subrange(line, 0, at);
            let raw = vstd::slice::slice_subrange(line, at + 1, line.len());
            assert(key@ =~= line@.take(at as int));
            assert(raw@ =~= line@.skip(at + 1));
            if spells(key, "hour_key") {
                self.hour_key = string_of(raw);
            } else if spells(key, "month_key") {
                self.month_key = string_of(raw);
            } else if spells(key, "hour_bytes") {
                self.hour_bytes = read_or_zero(raw);
            } else if spells(key, "month_bytes") {
                self.month_bytes = read_or_zero(raw);
            }
        }
    }

    /// Starts over the counts whose periods have ended.
    pub fn roll_periods(&mut self, hour: String, month: String)
        ensures
            final(self)@ == old(self)@.rolled(hour@, month@),
    {
        if self.hour_key != hour {
            self.hour_key = hour;
            self.hour_bytes = 0;
        }
        if self.month_key != month {
            self.month_key = month;
            self.month_bytes = 0;
        }
    }

    /// Counts `bytes` in the current periods.
    pub fn add(&mut self, bytes: u64, hour: String, month: String)
        ensures
            final(self)@ == old(self)@.added(bytes as nat, hour@, month@),
    {
        self.roll_periods(hour, month);
        self.hour_bytes = self.hour_bytes.saturating_add(bytes);
        self.month_bytes = self.month_bytes.saturating_add(bytes);
    }

    /// The file that keeps the counts.
    pub fn save(&self) -> (text: String)
        ensures
            text@ == self@.file_text(),
    {
        let mut text = "hour_key=".to_owned();
        text.append(self.hour_key.as_str());
        text.append("\nmonth_key=");
        text.append(self.month_key.as_str());
        text.append("\nhour_bytes=");
        push_dec(&mut text, self.hour_bytes);
        text.append("\nmonth_bytes=");
        push_dec(&mut text, self.month_bytes);
        text.append("\n");
        text
    }
}

/// The number that a text denotes, or zero.
fn read_or_zero(text: &[char]) -> (n: u64)
    ensures
        n == number_or_zero(text@),
{
    match read_number(text, 10, u64::MAX) {
        Ok(n) => n,
        Err(_) => 0,
    }
}

// ---------------------------------------------------------------------------
// Showing a count
// ---------------------------------------------------------------------------

/// `n / d`, rounded to the nearest whole number, and from the middle to the
/// even one.
pub open spec fn round_even(n: nat, d: nat) -> nat {
    let whole = n / d;
    let over = n % d;
    if 2 * over < d || (2 * over == d && whole % 2 == 0) {
        whole
    } else {
        whole + 1
    }
}

/// The distance of the numbers of 53 significant bits around `n`.
pub open spec fn float_gap(n: nat) -> nat
    decreases n,
{
    if n < 0x20_0000_0000_0000 {
        1
    } else {
        2 * float_gap(n / 2)
    }
}

/// The number of 53 significant bits that is nearest to `n`: what a double
/// precision number holds of it.
pub open spec fn as_double(n: nat) -> nat {
    if n < 0x20_0000_0000_0000 {
        n
    } else {
        round_even(n, float_gap(n)) * float_gap(n)
    }
}

/// The unit for a count, as a power of 1024. There is none above the third.
pub open spec fn unit_power(n: nat) -> nat {
    if n < 0x400 {
        0
    } else if n < 0x10_0000 {
        1
    } else if n < 0x4000_0000 {
        2
    } else {
        3
    }
}

/// How many bytes the unit is.
pub open spec fn unit_size(power: nat) -> nat {
    if power == 0 {
        1
    } else if power == 1 {
        0x400
    } else if power == 2 {
        0x10_0000
    } else {
        0x4000_0000
    }
}

/// The name of the unit.
pub open spec fn unit_name(power: nat) -> Seq<char> {
    if power == 0 {
        "B"@
    } else if power == 1 {
        "KB"@
    } else if power == 2 {
        "MB"@
    } else {
        "GB"@
    }
}

/// The count in tenths of its unit, rounded.
pub open spec fn unit_tenths(bytes: nat) -> nat {
    let value = as_double(bytes);
    round_even(10 * value, unit_size(unit_power(value)))
}

/// A count for the eye: whole bytes below 1024, and else one decimal of the
/// greatest unit that fits.
pub open spec fn bytes_text(bytes: nat) -> Seq<char> {
    let power = unit_power(as_double(bytes));
    let number = if power == 0 {
        dec(bytes)
    } else {
        dec(unit_tenths(bytes) / 10) + "."@ + dec(unit_tenths(bytes) % 10)
    };
    number + " "@ + unit_name(power)
}

/// `n / d`, rounded to the nearest whole number, and from the middle to the
/// even one.
fn rounded(n: u128, d: u128) -> (q: u128)
    requires
        0 < d <= 0x1_0000_0000_0000_0000,
        n < 0x1_0000_0000_0000_0000_0000,
    ensures
        q == round_even(n as nat, d as nat),
        q <= n / d + 1,
{
    let whole: u128 = n / d;
    let over: u128 = n % d;
    assert(over < d) by (nonlinear_arith)
        requires
            d > 0,
            over == n % d,
    ;
    assert(whole <= n) by (nonlinear_arith)
        requires
            d > 0,
            whole == n / d,
    ;
    if 2 * over < d || (2 * over == d && whole % 2 == 0) {
        whole
    } else {
        whole + 1
    }
}

/// The number of 53 significant bits that is nearest to `n`.
fn nearest_double(n: u64) -> (value: u128)
    ensures
        value == as_double(n as nat),
        value < 0x2_0000_0000_0000_0000,
{
    if n < 0x20_0000_0000_0000 {
        return n as u128;
    }
    let mut gap: u128 = 1;
    let mut rest: u64 = n;
    while rest >= 0x20_0000_0000_0000
        invariant
            1 <= gap <= 0x1000,
            gap * rest <= n,
            float_gap(n as nat) == gap * float_gap(rest as nat),
        decreases rest,
    {
        let half: u64 = rest / 2;
        proof {
            let below = float_gap(half as nat);
            assert(gap * (2 * below) == (2 * gap) * below) by (nonlinear_arith);
            assert((2 * gap) * half <= gap * rest) by (nonlinear_arith)
                requires
                    2 * half <= rest,
                    0 <= gap,
            ;
            assert(gap <= 0x800) by (nonlinear_arith)
                requires
                    gap * rest <= 0xffff_ffff_ffff_ffff,
                    rest >= 0x20_0000_0000_0000,
            ;
        }
        gap = 2 * gap;
        rest = half;
    }
    assert(float_gap(n as nat) == gap) by {
        assert(float_gap(rest as nat) == 1);
        assert(gap * 1 == gap) by (nonlinear_arith);
    }
    let q = rounded(n as u128, gap);
    assert(q * gap <= n + gap) by (nonlinear_arith)
        requires
            q <= n as int / gap as int + 1,
            gap > 0,
            n >= 0,
    ;
    q * gap
}

/// A count for the eye.
pub fn format_bytes(bytes: u64) -> (text: String)
    ensures
        text@ == bytes_text(bytes as nat),
{
    let value = nearest_double(bytes);
    let mut text = String::new();
    if value < 0x400 {
        push_dec(&mut text, bytes);
        text.append(" ");
        text.append("B");
        return text;
    }
    let (size, name): (u128, &str) = if value < 0x10_0000 {
        (0x400, "KB")
    } else if value < 0x4000_0000 {
        (0x10_0000, "MB")
    } else {
        (0x4000_0000, "GB")
    };
    let tenths = rounded(10 * value, size);
    assert(tenths < 0x1_0000_0000_0000_0000) by (nonlinear_arith)
        requires
            tenths <= (10 * value) as int / size as int + 1,
            size >= 0x400,
            value < 0x2_0000_0000_0000_0000,
    ;
    let tenths = tenths as u64;
    push_dec(&mut text, tenths / 10);
    text.append(".");
    push_dec(&mut text, tenths % 10);
    text.append(" ");
    text.append(name);
    text
}

// ---------------------------------------------------------------------------
// Laws
// ---------------------------------------------------------------------------

/// The counts survive a restart: loading the file that was saved gives them
/// back, with only the counts of ended periods started over.
pub proof fn law_counts_survive_restart(counts: Traffic, hour: Seq<char>, month: Seq<char>)
    requires
        fits_line(counts.hour_key),
        fits_line(counts.month_key),
        counts.hour_bytes <= u64::MAX,
        counts.month_bytes <= u64::MAX,
    ensures
        loaded(Some(counts.file_text()), hour, month) == counts.rolled(hour, month),
{
    let l1 = "hour_key"@ + seq!['='] + counts.hour_key;
    let l2 = "month_key"@ + seq!['='] + counts.month_key;
    let l3 = "hour_bytes"@ + seq!['='] + dec(counts.hour_bytes);
    let l4 = "month_bytes"@ + seq!['='] + dec(counts.month_bytes);
    lemma_file_lines(counts);
    let start = Traffic::empty(hour, month);
    lemma_one_more_line(start, seq![], l1);
    lemma_one_more_line(start, seq![l1], l2);
    lemma_one_more_line(start, seq![l1, l2], l3);
    lemma_one_more_line(start, seq![l1, l2, l3], l4);
    assert(Seq::<Seq<char>>::empty().push(l1) =~= seq![l1]);
    assert(seq![l1].push(l2) =~= seq![l1, l2]);
    assert(seq![l1, l2].push(l3) =~= seq![l1, l2, l3]);
    assert(seq![l1, l2, l3].push(l4) =~= seq![l1, l2, l3, l4]);
    lemma_lines_set_fields(start, counts);
}

/// Reading one more line.
proof fn lemma_one_more_line(start: Traffic, all: Seq<Seq<char>>, line: Seq<char>)
    ensures
        start.with_lines(all.push(line)) == start.with_lines(all).with_line(line),
{
    assert(all.push(line).drop_last() =~= all);
}

/// The four lines set the four fields.
proof fn lemma_lines_set_fields(start: Traffic, counts: Traffic)
    requires
        fits_line(counts.hour_key),
        fits_line(counts.month_key),
        counts.hour_bytes <= u64::MAX,
        counts.month_bytes <= u64::MAX,
    ensures
        start.with_line("hour_key"@ + seq!['='] + counts.hour_key).with_line(
            "month_key"@ + seq!['='] + counts.month_key,
        ).with_line("hour_bytes"@ + seq!['='] + dec(counts.hour_bytes)).with_line(
            "month_bytes"@ + seq!['='] + dec(counts.month_bytes),
        ) == counts,
{
    reveal_strlit("hour_key");
    reveal_strlit("month_key");
    reveal_strlit("hour_bytes");
    reveal_strlit("month_bytes");
    lemma_digits_fit_line(counts.hour_bytes);
    lemma_digits_fit_line(counts.month_bytes);
    let nothing = Seq::<char>::empty();
    lemma_file_line("hour_key"@, counts.hour_key, nothing);
    lemma_file_line("month_key"@, counts.month_key, nothing);
    lemma_file_line("hour_bytes"@, dec(counts.hour_bytes), nothing);
    lemma_file_line("month_bytes"@, dec(counts.month_bytes), nothing);
}

/// A count in decimal fits its line, and is read back.
proof fn lemma_digits_fit_line(n: nat)
    requires
        n <= u64::MAX,
    ensures
        fits_line(dec(n)),
        number_or_zero(dec(n)) == n,
{
    lemma_dec_chars(n);
    law_decimal_round_trip(n, u64::MAX as nat);
    assert('0' <= dec(n)[dec(n).len() - 1] <= '9');
}

/// The lines of the file.
proof fn lemma_file_lines(counts: Traffic)
    requires
        fits_line(counts.hour_key),
        fits_line(counts.month_key),
        counts.hour_bytes <= u64::MAX,
        counts.month_bytes <= u64::MAX,
    ensures
        lines(counts.file_text()) == seq![
            "hour_key"@ + seq!['='] + counts.hour_key,
            "month_key"@ + seq!['='] + counts.month_key,
            "hour_bytes"@ + seq!['='] + dec(counts.hour_bytes),
            "month_bytes"@ + seq!['='] + dec(counts.month_bytes),
        ],
{
    reveal_strlit("\n");
    reveal_strlit("hour_key=");
    reveal_strlit("\nmonth_key=");
    reveal_strlit("\nhour_bytes=");
    reveal_strlit("\nmonth_bytes=");
    reveal_strlit("hour_key");
    reveal_strlit("month_key");
    reveal_strlit("hour_bytes");
    reveal_strlit("month_bytes");
    let hour_digits = dec(counts.hour_bytes);
    let month_digits = dec(counts.month_bytes);
    lemma_digits_fit_line(counts.hour_bytes);
    lemma_digits_fit_line(counts.month_bytes);
    let nothing = Seq::<char>::empty();
    let text4 = file_line("month_bytes"@, month_digits) + nothing;
    let text3 = file_line("hour_bytes"@, hour_digits) + text4;
    let text2 = file_line("month_key"@, counts.month_key) + text3;
    let text1 = file_line("hour_key"@, counts.hour_key) + text2;
    assert(counts.file_text() =~= text1);
    lemma_file_line("month_bytes"@, month_digits, nothing);
    lemma_file_line("hour_bytes"@, hour_digits, text4);
    lemma_file_line("month_key"@, counts.month_key, text3);
    lemma_file_line("hour_key"@, counts.hour_key, text2);
    assert(lines(nothing) =~= Seq::<Seq<char>>::empty());
}

/// The keys of all periods fit their lines, so that the counts of every period
/// survive a restart.
pub proof fn law_period_keys_fit(now: LocalTime)
    ensures
        fits_line(hour_key(now)),
        fits_line(month_key(now)),
        fits_line("hour"@),
        fits_line("month"@),
{
    reveal_strlit("hour");
    reveal_strlit("month");
    lemma_padded_chars(now.year as nat, 4);
    lemma_padded_chars(now.month as nat, 2);
    lemma_padded_chars(now.day as nat, 2);
    lemma_padded_chars(now.hour as nat, 2);
    lemma_digits_join(dec_padded(now.year as nat, 4), dec_padded(now.month as nat, 2));
    lemma_digits_join(month_key(now), dec_padded(now.day as nat, 2));
    lemma_digits_join(
        month_key(now) + dec_padded(now.day as nat, 2),
        dec_padded(now.hour as nat, 2),
    );
    assert(is_digit(month_key(now).last()));
    assert(is_digit(hour_key(now).last()));
    assert forall|i: int| 0 <= i < hour_key(now).len() implies #[trigger] hour_key(now)[i]
        != '\n' by {
        assert(is_digit(hour_key(now)[i]));
    }
    assert forall|i: int| 0 <= i < month_key(now).len() implies #[trigger] month_key(now)[i]
        != '\n' by {
        assert(is_digit(month_key(now)[i]));
    }
}

/// A text of digits.
spec fn all_digits(s: Seq<char>) -> bool {
    s.len() > 0 && forall|i: int| 0 <= i < s.len() ==> is_digit(#[trigger] s[i])
}

proof fn lemma_padded_chars(n: nat, width: nat)
    ensures
        all_digits(dec_padded(n, width)),
{
    lemma_dec_chars(n);
    let digits = dec(n);
    let s = dec_padded(n, width);
    assert forall|i: int| 0 <= i < s.len() implies is_digit(#[trigger] s[i]) by {
        if digits.len() < width && i >= width - digits.len() {
            assert(s[i] == digits[i - (width - digits.len())]);
        }
    }
}

proof fn lemma_digits_join(a: Seq<char>, b: Seq<char>)
    requires
        all_digits(a),
        all_digits(b),
    ensures
        all_digits(a + b),
{
    let s = a + b;
    assert forall|i: int| 0 <= i < s.len() implies is_digit(#[trigger] s[i]) by {
        if i < a.len() {
            assert(s[i] == a[i]);
        } else {
            assert(s[i] == b[i - a.len()]);
        }
    }
}

/// A line of the file.
spec fn file_line(key: Seq<char>, raw: Seq<char>) -> Seq<char> {
    key + seq!['='] + raw + seq!['\n']
}

/// A line of the file is read as the key and the text it was made of.
proof fn lemma_file_line(key: Seq<char>, raw: Seq<char>, rest: Seq<char>)
    requires
        forall|i: int| 0 <= i < key.len() ==> #[trigger] key[i] != '\n' && key[i] != '=',
        fits_line(raw),
    ensures
        lines(file_line(key, raw) + rest) == seq![key + seq!['='] + raw] + lines(rest),
        split_char(key + seq!['='] + raw, '=') == Some((key, raw)),
{
    let line = key + seq!['='] + raw;
    let n = key.len() as int;
    assert forall|i: int| 0 <= i < line.len() implies #[trigger] line[i] != '\n' by {
        if i < n {
            assert(line[i] == key[i]);
        } else if n < i {
            assert(line[i] == raw[i - n - 1]);
        }
    }
    assert(file_line(key, raw) + rest =~= line + seq!['\n'] + rest);
    lemma_first_line(line, rest);
    assert(line.last() != '\r') by {
        if raw.len() > 0 {
            assert(line.last() == raw.last());
        }
    }
    assert forall|i: int| 0 <= i < n implies #[trigger] line[i] != '=' by {
        assert(line[i] == key[i]);
    }
    lemma_index_of_char(line, '=', n);
    assert(line.take(n) =~= key);
    assert(line.skip(n + 1) =~= raw);
}

/// A new hour of the same month starts the hour over and keeps the month; with
/// no new period nothing changes; and what is added is counted in both.
pub proof fn law_periods_start_over(
    counts: Traffic,
    bytes: nat,
    hour: Seq<char>,
    month: Seq<char>,
)
    ensures
        counts.hour_key != hour ==> counts.rolled(hour, month).hour_bytes == 0,
        counts.month_key != month ==> counts.rolled(hour, month).month_bytes == 0,
        counts.hour_key == hour ==> counts.rolled(hour, month).hour_bytes == counts.hour_bytes,
        counts.month_key == month ==> counts.rolled(hour, month).month_bytes == counts.month_bytes,
        counts.rolled(counts.hour_key, counts.month_key) == counts,
        counts.rolled(hour, month).rolled(hour, month) == counts.rolled(hour, month),
        counts.rolled(hour, month).added(bytes, hour, month) == counts.added(bytes, hour, month),
        counts.rolled(hour, month).month_bytes + bytes <= u64::MAX ==> counts.added(
            bytes,
            hour,
            month,
        ).month_bytes == counts.rolled(hour, month).month_bytes + bytes,
        counts.rolled(hour, month).hour_bytes + bytes <= u64::MAX ==> counts.added(
            bytes,
            hour,
            month,
        ).hour_bytes == counts.rolled(hour, month).hour_bytes + bytes,
{
}

/// Two moments have the same key exactly when they lie in the same period.
pub proof fn law_keys_tell_periods_apart(a: LocalTime, b: LocalTime)
    requires
        a.month < 100 && a.day < 100 && a.hour < 100,
        b.month < 100 && b.day < 100 && b.hour < 100,
    ensures
        month_key(a) == month_key(b) <==> a.year == b.year && a.month == b.month,
        hour_key(a) == hour_key(b) <==> a == b,
{
    lemma_two_digits(a.month);
    lemma_two_digits(a.day);
    lemma_two_digits(a.hour);
    lemma_two_digits(b.month);
    lemma_two_digits(b.day);
    lemma_two_digits(b.hour);
    lemma_padded_reads(a.year as nat, 4);
    lemma_padded_reads(b.year as nat, 4);
    if month_key(a) == month_key(b) {
        lemma_same_month(a, b);
    }
    if hour_key(a) == hour_key(b) {
        let k = hour_key(a);
        let n = k.len() as int;
        assert(month_key(a) =~= k.take(n - 4));
        assert(month_key(b) =~= k.take(n - 4));
        assert(dec_padded(a.day as nat, 2) =~= k.subrange(n - 4, n - 2));
        assert(dec_padded(b.day as nat, 2) =~= k.subrange(n - 4, n - 2));
        assert(dec_padded(a.hour as nat, 2) =~= k.skip(n - 2));
        assert(dec_padded(b.hour as nat, 2) =~= k.skip(n - 2));
        lemma_same_month(a, b);
    }
}

proof fn lemma_same_month(a: LocalTime, b: LocalTime)
    requires
        a.month < 100 && b.month < 100,
        month_key(a) == month_key(b),
    ensures
        a.year == b.year && a.month == b.month,
{
    lemma_two_digits(a.month);
    lemma_two_digits(b.month);
    lemma_padded_reads(a.year as nat, 4);
    lemma_padded_reads(b.year as nat, 4);
    let k = month_key(a);
    let n = k.len() as int;
    assert(dec_padded(a.year as nat, 4) =~= k.take(n - 2));
    assert(dec_padded(b.year as nat, 4) =~= k.take(n - 2));
    assert(dec_padded(a.month as nat, 2) =~= k.skip(n - 2));
    assert(dec_padded(b.month as nat, 2) =~= k.skip(n - 2));
}

/// A number below a hundred is two digits, which tell it.
proof fn lemma_two_digits(x: u16)
    requires
        x < 100,
    ensures
        dec_padded(x as nat, 2).len() == 2,
        parse_digits(dec_padded(x as nat, 2), 10, 65535) == Ok::<nat, NumError>(x as nat),
{
    reveal_with_fuel(dec, 2);
    lemma_padded_reads(x as nat, 2);
}

/// Zeros at the front do not change what digits denote.
proof fn lemma_padded_reads(n: nat, width: nat)
    requires
        n <= 65535,
    ensures
        parse_digits(dec_padded(n, width), 10, 65535) == Ok::<nat, NumError>(n),
{
    law_decimal_round_trip(n, 65535);
    let digits = dec(n);
    if digits.len() < width {
        let zeros = Seq::new((width - digits.len()) as nat, |i: int| '0');
        lemma_zeros_read(zeros, digits);
    }
}

proof fn lemma_zeros_read(zeros: Seq<char>, digits: Seq<char>)
    requires
        forall|i: int| 0 <= i < zeros.len() ==> #[trigger] zeros[i] == '0',
    ensures
        parse_digits(zeros + digits, 10, 65535) == parse_digits(digits, 10, 65535),
    decreases zeros.len() + digits.len(),
{
    let s = zeros + digits;
    if digits.len() > 0 {
        assert(s.drop_last() =~= zeros + digits.drop_last());
        lemma_zeros_read(zeros, digits.drop_last());
    } else if zeros.len() > 0 {
        assert(s.drop_last() =~= zeros.drop_last() + digits);
        lemma_zeros_read(zeros.drop_last(), digits);
    }
}

/// Below 2^53 bytes the shown number is the nearest one with one decimal: it is
/// at most half of a tenth of the unit away from the count.
pub proof fn law_shown_count_is_nearest(bytes: nat)
    requires
        bytes < 0x20_0000_0000_0000,
    ensures
        as_double(bytes) == bytes,
        ({
            let size = unit_size(unit_power(bytes)) as int;
            let shown = unit_tenths(bytes) * size;
            -size <= 2 * (shown - 10 * bytes) <= size
        }),
{
    let n = 10 * bytes;
    let size = unit_size(unit_power(bytes));
    let whole = n / size;
    assert(n == whole * size + n % size) by (nonlinear_arith)
        requires
            size > 0,
            whole == n / size,
    ;
    assert((whole + 1) * size == whole * size + size) by (nonlinear_arith);
    assert(n % size < size) by (nonlinear_arith)
        requires
            size > 0,
    ;
}

/// [`period_keys`] writes the year with four digits at least, and the month, the
/// day and the hour with two; without a local time its keys never change.
pub proof fn law_keys_are_written_from_the_time(
    now: LocalTime,
    keys: (String, String),
    fixed: (String, String),
)
    requires
        call_ensures(period_keys, (Some(now),), keys),
        call_ensures(period_keys, (None::<LocalTime>,), fixed),
    ensures
        keys.1@ == dec_padded(now.year as nat, 4) + dec_padded(now.month as nat, 2),
        keys.0@ == keys.1@ + dec_padded(now.day as nat, 2) + dec_padded(now.hour as nat, 2),
        fixed.0@ == "hour"@ && fixed.1@ == "month"@,
{
}

/// [`TrafficStore::roll_periods`] starts over exactly the counts of ended periods.
pub proof fn law_roll_starts_ended_periods_over(store: &mut TrafficStore, hour: String, month: String)
    requires
        call_ensures(TrafficStore::roll_periods, (store, hour, month), ()),
    ensures
        final(store).hour_key@ == hour@,
        final(store).month_key@ == month@,
        old(store).hour_key@ == hour@ ==> final(store).hour_bytes == old(store).hour_bytes,
        old(store).hour_key@ != hour@ ==> final(store).hour_bytes == 0,
        old(store).month_key@ == month@ ==> final(store).month_bytes == old(store).month_bytes,
        old(store).month_key@ != month@ ==> final(store).month_bytes == 0,
{
    assert(final(store)@ == old(store)@.rolled(hour@, month@));
}

/// [`TrafficStore::add`] counts all bytes in both periods, of which ended ones start
/// over first, and stops at the greatest number of 64 bits.
pub proof fn law_add_counts_all_bytes(
    store: &mut TrafficStore,
    bytes: u64,
    hour: String,
    month: String,
)
    requires
        call_ensures(TrafficStore::add, (store, bytes, hour, month), ()),
    ensures
        ({
            let h = (if old(store).hour_key@ == hour@ {
                old(store).hour_bytes as int
            } else {
                0
            }) + bytes;
            let m = (if old(store).month_key@ == month@ {
                old(store).month_bytes as int
            } else {
                0
            }) + bytes;
            &&& final(store).hour_key@ == hour@ && final(store).month_key@ == month@
            &&& final(store).hour_bytes == if h <= 0xffff_ffff_ffff_ffff {
                h
            } else {
                0xffff_ffff_ffff_ffff
            }
            &&& final(store).month_bytes == if m <= 0xffff_ffff_ffff_ffff {
                m
            } else {
                0xffff_ffff_ffff_ffff
            }
        }),
{
    assert(final(store)@ == old(store)@.added(bytes as nat, hour@, month@));
}

/// What [`TrafficStore::save`] writes, [`TrafficStore::load`] reads: in the same
/// periods the same counts, and in later ones those that have not ended.
pub proof fn law_saved_counts_are_loaded(
    store: TrafficStore,
    text: String,
    file: &str,
    hour: String,
    month: String,
    again: TrafficStore,
)
    requires
        call_ensures(TrafficStore::save, (&store,), text),
        file@ == text@,
        call_ensures(TrafficStore::load, (Some(file), hour, month), again),
        fits_line(store.hour_key@),
        fits_line(store.month_key@),
    ensures
        again.hour_key@ == hour@ && again.month_key@ == month@,
        again.hour_bytes == if store.hour_key@ == hour@ {
            store.hour_bytes
        } else {
            0
        },
        again.month_bytes == if store.month_key@ == month@ {
            store.month_bytes
        } else {
            0
        },
{
    law_counts_survive_restart(store@, hour@, month@);
    assert(again@ == store@.rolled(hour@, month@));
}

/// [`TrafficStore::load`] reads the lines of a file in their order and then starts
/// ended periods over; without a file it starts with nothing.
pub proof fn law_files_are_read_line_by_line(
    file: &str,
    hour: String,
    month: String,
    of_file: TrafficStore,
    of_nothing: TrafficStore,
)
    requires
        call_ensures(TrafficStore::load, (Some(file), hour, month), of_file),
        call_ensures(TrafficStore::load, (None::<&str>, hour, month), of_nothing),
    ensures
        ({
            let start = Traffic {
                hour_key: hour@,
                month_key: month@,
                hour_bytes: 0,
                month_bytes: 0,
            };
            &&& of_file@ == start.with_lines(lines(file@)).rolled(hour@, month@)
            &&& of_nothing@ == start
        }),
{
}

/// What a line of the file does: behind the first equals sign stands the value of
/// one field, a count that is no number of 64 bits is zero, and any other line does
/// nothing. Later lines come on top of earlier ones.
pub proof fn law_lines_set_fields(
    counts: Traffic,
    all: Seq<Seq<char>>,
    line: Seq<char>,
    key: Seq<char>,
    raw: Seq<char>,
)
    requires
        forall|i: int| 0 <= i < key.len() ==> #[trigger] key[i] != '=',
    ensures
        counts.with_lines(Seq::<Seq<char>>::empty()) == counts,
        counts.with_lines(all.push(line)) == counts.with_lines(all).with_line(line),
        counts.with_line(key) == counts,
        ({
            let after = counts.with_line(key + seq!['='] + raw);
            let number = match parse_number(raw, 10, 0xffff_ffff_ffff_ffff) {
                Ok(n) => n,
                Err(_) => 0,
            };
            &&& after.hour_key == if key == "hour_key"@ {
                raw
            } else {
                counts.hour_key
            }
            &&& after.month_key == if key == "month_key"@ {
                raw
            } else {
                counts.month_key
            }
            &&& after.hour_bytes == if key == "hour_bytes"@ {
                number
            } else {
                counts.hour_bytes
            }
            &&& after.month_bytes == if key == "month_bytes"@ {
                number
            } else {
                counts.month_bytes
            }
        }),
{
    reveal_strlit("hour_key");
    reveal_strlit("month_key");
    reveal_strlit("hour_bytes");
    reveal_strlit("month_bytes");
    lemma_one_more_line(counts, all, line);
    law_split_at_character(key, '=', raw);
}

/// Rounding to a whole number goes to the nearest one, and from the middle to the
/// even one.
proof fn lemma_round_even(n: nat, d: nat)
    requires
        d > 0,
    ensures
        -d <= 2 * (round_even(n, d) * d - n) <= d,
        2 * (round_even(n, d) * d - n) == d || 2 * (round_even(n, d) * d - n) == -d ==> round_even(
            n,
            d,
        ) % 2 == 0,
{
    let whole = n / d;
    assert(n == whole * d + n % d && 0 <= n % d < d) by (nonlinear_arith)
        requires
            d > 0,
            whole == n / d,
    ;
    assert((whole + 1) * d == whole * d + d) by (nonlinear_arith);
}

/// What [`format_bytes`] shows below 2^53 bytes: whole bytes below 1024; and from
/// there on one decimal of KB, from 1024^2 on of MB and from 1024^3 on of GB, the
/// nearest there is, and of two equally near ones the even one.
pub proof fn law_shown_text(bytes: u64, text: String)
    requires
        call_ensures(format_bytes, (bytes,), text),
        bytes < 0x20_0000_0000_0000,
    ensures
        bytes < 1024 ==> text@ == dec(bytes as nat) + " "@ + "B"@,
        bytes >= 1024 ==> {
            let (size, unit) = if bytes < 1_048_576 {
                (1024int, "KB"@)
            } else if bytes < 1_073_741_824 {
                (1_048_576int, "MB"@)
            } else {
                (1_073_741_824int, "GB"@)
            };
            let tenths = unit_tenths(bytes as nat);
            let off = 2 * (tenths * size - 10 * bytes);
            &&& text@ == dec(tenths / 10) + "."@ + dec(tenths % 10) + " "@ + unit
            &&& -size <= off <= size
            &&& off == size || off == -size ==> tenths % 2 == 0
        },
{
    let value = bytes as nat;
    lemma_round_even(10 * value, unit_size(unit_power(value)));
}

/// What [`format_bytes`] shows from 2^53 bytes on: one decimal of GB, of the nearest
/// number that 53 bits hold.
pub proof fn law_shown_text_of_huge_counts(bytes: u64, text: String)
    requires
        call_ensures(format_bytes, (bytes,), text),
        bytes >= 0x20_0000_0000_0000,
    ensures
        ({
            let tenths = unit_tenths(bytes as nat);
            let held = as_double(bytes as nat);
            let gap = float_gap(bytes as nat);
            let off = 2 * (tenths * 1_073_741_824 - 10 * held);
            let lost = 2 * (held - bytes);
            &&& text@ == dec(tenths / 10) + "."@ + dec(tenths % 10) + " "@ + "GB"@
            &&& -1_073_741_824 <= off <= 1_073_741_824
            &&& off == 1_073_741_824 || off == -1_073_741_824 ==> tenths % 2 == 0
            &&& gap > 0 && held == round_even(bytes as nat, gap) * gap
            &&& -gap <= lost <= gap
            &&& lost == gap || lost == -gap ==> round_even(bytes as nat, gap) % 2 == 0
            &&& 0x10_0000_0000_0000 * gap <= bytes < 0x20_0000_0000_0000 * gap
        }),
{
    let n = bytes as nat;
    let gap = float_gap(n);
    lemma_float_gap(n);
    lemma_round_even(n, gap);
    let held = as_double(n);
    assert(held >= 0x4000_0000) by {
        assert(gap <= 0x1000) by (nonlinear_arith)
            requires
                0x10_0000_0000_0000 * gap <= n,
                n <= 0xffff_ffff_ffff_ffff,
        ;
    }
    lemma_round_even(10 * held, 0x4000_0000);
}

/// Between two numbers of 53 bits lies a gap that keeps 53 bits of the number.
proof fn lemma_float_gap(n: nat)
    ensures
        float_gap(n) > 0,
        n < 0x20_0000_0000_0000 * float_gap(n),
        n >= 0x20_0000_0000_0000 ==> 0x10_0000_0000_0000 * float_gap(n) <= n,
    decreases n,
{
    if n >= 0x20_0000_0000_0000 {
        lemma_float_gap(n / 2);
    }
}

/// The text of [`TrafficStore::save`], field by field.
pub proof fn law_saved_text(store: TrafficStore, text: String)
    requires
        call_ensures(TrafficStore::save, (&store,), text),
    ensures
        text@ == "hour_key="@ + store.hour_key@ + "\nmonth_key="@ + store.month_key@
            + "\nhour_bytes="@ + dec(store.hour_bytes as nat) + "\nmonth_bytes="@ + dec(
            store.month_bytes as nat,
        ) + "\n"@,
{
}

} // verus!
