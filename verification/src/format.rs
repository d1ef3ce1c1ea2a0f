//! Spans of time and their human-readable form.
use crate::text::{
    chars_of, decimal, decimal2, digit_value, is_digit, push_decimal, push_decimal2,
    string_from_chars,
};
use vstd::prelude::*;

verus! {

/// The nanoseconds of a second.
pub const NANOS_PER_SEC: u32 = 1_000_000_000;

/// The nanoseconds of a millisecond.
pub const NANOS_PER_MILLI: u32 = 1_000_000;

/// The seconds of a minute.
pub const SECS_PER_MINUTE: u64 = 60;

/// The seconds of an hour.
pub const SECS_PER_HOUR: u64 = 3_600;

/// The seconds of a day.
pub const SECS_PER_DAY: u64 = 86_400;

/// A span of time: whole seconds and a fraction in nanoseconds.
///
/// A point on the runner's clock is written as the span since that clock's
/// origin, a point of wall-clock time as the span since the Unix epoch.
#[derive(Clone, Copy, Debug, PartialEq, Eq, Structural)]
pub struct Duration {
    pub secs: u64,
    pub nanos: u32,
}

impl Duration {
    /// The fraction is less than one second.
    pub open spec fn wf(self) -> bool {
        self.nanos < NANOS_PER_SEC
    }

    /// The span in nanoseconds.
    pub open spec fn total_nanos(self) -> nat {
        (self.secs as nat) * (NANOS_PER_SEC as nat) + (self.nanos as nat)
    }

    /// The span of no time.
    pub open spec fn zero() -> Duration {
        Duration { secs: 0, nanos: 0 }
    }

    /// The longest span that can be written.
    pub open spec fn longest() -> Duration {
        Duration { secs: u64::MAX, nanos: (NANOS_PER_SEC - 1) as u32 }
    }

    /// The well-formed span of `n` nanoseconds, or the longest span where `n`
    /// is beyond it.
    pub open spec fn of_nanos(n: nat) -> Duration {
        if n > Self::longest().total_nanos() {
            Self::longest()
        } else {
            Duration {
                secs: (n / (NANOS_PER_SEC as nat)) as u64,
                nanos: (n % (NANOS_PER_SEC as nat)) as u32,
            }
        }
    }

    /// A span of `secs` seconds and `nanos` nanoseconds. Whole seconds among
    /// the nanoseconds are carried over; the sum must not exceed `u64::MAX`
    /// seconds.
    pub fn new(secs: u64, nanos: u32) -> (d: Duration)
        requires
            secs + nanos / NANOS_PER_SEC <= u64::MAX,
        ensures
            d.wf(),
            d.total_nanos() == (secs as nat) * (NANOS_PER_SEC as nat) + (nanos as nat),
            d.secs == secs + nanos / NANOS_PER_SEC,
            d.nanos == nanos % NANOS_PER_SEC,
    {
        let carry: u32 = nanos / NANOS_PER_SEC;
        let rest: u32 = nanos % NANOS_PER_SEC;
        assert(nanos == carry * NANOS_PER_SEC + rest) by (nonlinear_arith)
            requires
                carry == nanos / NANOS_PER_SEC,
                rest == nanos % NANOS_PER_SEC,
        ;
        assert((secs + carry) * (NANOS_PER_SEC as nat) + rest == secs * (NANOS_PER_SEC as nat)
            + nanos) by (nonlinear_arith)
            requires
                nanos == carry * NANOS_PER_SEC + rest,
        ;
        Duration { secs: secs + carry as u64, nanos: rest }
    }

    /// A span of whole seconds.
    pub fn from_secs(secs: u64) -> (d: Duration)
        ensures
            d == (Duration { secs, nanos: 0 }),
            d.wf(),
    {
        Duration { secs, nanos: 0 }
    }

    /// A span of whole milliseconds.
    pub fn from_millis(millis: u64) -> (d: Duration)
        ensures
            d.wf(),
            d.secs == millis / 1000,
            d.nanos == (millis % 1000) * NANOS_PER_MILLI,
    {
        Duration { secs: millis / 1000, nanos: (millis % 1000) as u32 * NANOS_PER_MILLI }
    }

    /// The whole seconds of the span.
    pub fn as_secs(&self) -> (s: u64)
        ensures
            s == self.secs,
    {
        self.secs
    }

    /// The part of the span below a second, in nanoseconds.
    pub fn subsec_nanos(&self) -> (n: u32)
        ensures
            n == self.nanos,
    {
        self.nanos
    }

    /// Whether the span is of no time.
    pub fn is_zero(&self) -> (r: bool)
        ensures
            r == (self.total_nanos() == 0),
    {
        assert(self.secs > 0 ==> self.total_nanos() > 0) by (nonlinear_arith)
            requires
                self.total_nanos() == (self.secs as nat) * (NANOS_PER_SEC as nat) + (
                self.nanos as nat),
        ;
        self.secs == 0 && self.nanos == 0
    }

    /// The span in nanoseconds, as a machine integer.
    pub fn as_nanos(&self) -> (n: u128)
        ensures
            n == self.total_nanos(),
    {
        assert((self.secs as nat) * (NANOS_PER_SEC as nat) <= 0xffff_ffff_ffff_ffff * 1_000_000_000)
            by (nonlinear_arith)
            requires
                self.secs <= 0xffff_ffff_ffff_ffff,
                NANOS_PER_SEC == 1_000_000_000,
        ;
        self.secs as u128 * NANOS_PER_SEC as u128 + self.nanos as u128
    }

    /// Whether this span is at least as long as `other`.
    pub fn at_least(&self, other: &Duration) -> (r: bool)
        ensures
            r == (self.total_nanos() >= other.total_nanos()),
    {
        self.as_nanos() >= other.as_nanos()
    }

    /// Whether this span is shorter than `other`.
    pub fn shorter_than(&self, other: &Duration) -> (r: bool)
        ensures
            r == (self.total_nanos() < other.total_nanos()),
    {
        self.as_nanos() < other.as_nanos()
    }

    /// The well-formed span of `n` nanoseconds; the longest span where `n`
    /// is beyond it.
    pub fn from_nanos_saturating(n: u128) -> (d: Duration)
        ensures
            d == Self::of_nanos(n as nat),
            d.wf(),
            n <= Self::longest().total_nanos() ==> d.total_nanos() == n,
    {
        let limit: u128 = 18_446_744_073_709_551_615_999_999_999;
        assert(Self::longest().total_nanos() == limit);
        if n > limit {
            Duration { secs: u64::MAX, nanos: NANOS_PER_SEC - 1 }
        } else {
            let per: u128 = NANOS_PER_SEC as u128;
            let secs: u128 = n / per;
            let nanos: u128 = n % per;
            assert(secs <= u64::MAX && n == secs * per + nanos) by (nonlinear_arith)
                requires
                    n <= limit,
                    limit == 18_446_744_073_709_551_615_999_999_999,
                    per == 1_000_000_000,
                    secs == n / per,
                    nanos == n % per,
            ;
            Duration { secs: secs as u64, nanos: nanos as u32 }
        }
    }

    /// The span from `earlier` to this point; zero where `earlier` is the
    /// later of the two.
    pub fn since(&self, earlier: &Duration) -> (d: Duration)
        ensures
            d == Self::of_nanos(
                if self.total_nanos() >= earlier.total_nanos() {
                    (self.total_nanos() - earlier.total_nanos()) as nat
                } else {
                    0
                },
            ),
            d.wf(),
    {
        let a: u128 = self.as_nanos();
        let b: u128 = earlier.as_nanos();
        if a >= b {
            Self::from_nanos_saturating(a - b)
        } else {
            Self::from_nanos_saturating(0)
        }
    }

    /// The sum of the two spans; the longest span where the sum is beyond it.
    pub fn saturating_add(&self, other: &Duration) -> (d: Duration)
        ensures
            d == Self::of_nanos(self.total_nanos() + other.total_nanos()),
            d.wf(),
    {
        Self::from_nanos_saturating(self.as_nanos() + other.as_nanos())
    }

    /// The span taken `factor` times; the longest span where that is beyond it.
    pub fn saturating_mul(&self, factor: u32) -> (d: Duration)
        ensures
            d == Self::of_nanos(self.total_nanos() * (factor as nat)),
            d.wf(),
    {
        let n: u128 = self.as_nanos();
        assert(n <= 18_446_744_073_709_551_620_000_000_000) by (nonlinear_arith)
            requires
                n == (self.secs as nat) * 1_000_000_000 + (self.nanos as nat),
                self.secs <= 0xffff_ffff_ffff_ffff,
                self.nanos <= 0xffff_ffff,
        ;
        assert(n * factor <= 18_446_744_073_709_551_620_000_000_000 * 0xffff_ffff)
            by (nonlinear_arith)
            requires
                n <= 18_446_744_073_709_551_620_000_000_000,
                factor <= 0xffff_ffff,
        ;
        Self::from_nanos_saturating(n * factor as u128)
    }

    /// The span divided into `parts` equal parts, rounded down to a nanosecond.
    pub fn div(&self, parts: u32) -> (d: Duration)
        requires
            parts > 0,
        ensures
            d == Self::of_nanos(self.total_nanos() / (parts as nat)),
            d.wf(),
    {
        Self::from_nanos_saturating(self.as_nanos() / parts as u128)
    }
}

/// Days, hours, minutes and seconds as text, starting at the largest unit
/// that is not zero; every unit after the first is written with at least
/// two digits.
pub open spec fn clock_text(days: nat, hours: nat, minutes: nat, seconds: nat) -> Seq<char> {
    if days == 0 && hours == 0 && minutes == 0 {
        decimal(seconds) + seq!['s']
    } else if days == 0 && hours == 0 {
        decimal(minutes) + seq!['m', ':'] + decimal2(seconds) + seq!['s']
    } else if days == 0 {
        decimal(hours) + seq!['h', ':'] + decimal2(minutes) + seq!['m', ':'] + decimal2(seconds)
            + seq!['s']
    } else {
        decimal(days) + seq!['d', ':'] + decimal2(hours) + seq!['h', ':'] + decimal2(minutes)
            + seq!['m', ':'] + decimal2(seconds) + seq!['s']
    }
}

/// The text of a span as `duration_to_string` writes it.
///
/// Below one second: the milliseconds and `ms`. From one second on, the
/// whole seconds split into days, hours, minutes and seconds.
pub open spec fn duration_text(d: Duration) -> Seq<char> {
    let total = d.secs as nat;
    let rest = total % (SECS_PER_DAY as nat);
    if total == 0 {
        decimal((d.nanos / NANOS_PER_MILLI) as nat) + seq!['m', 's']
    } else {
        clock_text(
            total / (SECS_PER_DAY as nat),
            rest / (SECS_PER_HOUR as nat),
            (rest % (SECS_PER_HOUR as nat)) / (SECS_PER_MINUTE as nat),
            rest % (SECS_PER_MINUTE as nat),
        )
    }
}

fn clock_string(days: u64, hours: u64, minutes: u64, seconds: u64) -> (s: String)
    ensures
        s@ == clock_text(days as nat, hours as nat, minutes as nat, seconds as nat),
{
    let mut out: Vec<char> = Vec::new();
    let ghost d = days as nat;
    let ghost h = hours as nat;
    let ghost m = minutes as nat;
    let ghost sec = seconds as nat;
    if days > 0 {
        push_decimal(&mut out, days);
        out.push('d');
        out.push(':');
        push_decimal2(&mut out, hours);
        out.push('h');
        out.push(':');
        push_decimal2(&mut out, minutes);
        out.push('m');
        out.push(':');
        push_decimal2(&mut out, seconds);
        out.push('s');
        assert(out@ =~= decimal(d) + seq!['d', ':'] + decimal2(h) + seq!['h', ':'] + decimal2(m)
            + seq!['m', ':'] + decimal2(sec) + seq!['s']);
    } else if hours > 0 {
        push_decimal(&mut out, hours);
        out.push('h');
        out.push(':');
        push_decimal2(&mut out, minutes);
        out.push('m');
        out.push(':');
        push_decimal2(&mut out, seconds);
        out.push('s');
        assert(out@ =~= decimal(h) + seq!['h', ':'] + decimal2(m) + seq!['m', ':'] + decimal2(sec)
            + seq!['s']);
    } else if minutes > 0 {
        push_decimal(&mut out, minutes);
        out.push('m');
        out.push(':');
        push_decimal2(&mut out, seconds);
        out.push('s');
        assert(out@ =~= decimal(m) + seq!['m', ':'] + decimal2(sec) + seq!['s']);
    } else {
        push_decimal(&mut out, seconds);
        out.push('s');
        assert(out@ =~= decimal(sec) + seq!['s']);
    }
    string_from_chars(&out)
}

/// Format a span as a human-readable `String`.
pub fn duration_to_string(duration: &Duration) -> (s: String)
    ensures
        s@ == duration_text(*duration),
{
    let total: u64 = duration.as_secs();
    if total == 0 {
        let mut out: Vec<char> = Vec::new();
        push_decimal(&mut out, (duration.subsec_nanos() / NANOS_PER_MILLI) as u64);
        out.push('m');
        out.push('s');
        assert(out@ =~= duration_text(*duration));
        return string_from_chars(&out);
    }
    let rest: u64 = total % SECS_PER_DAY;
    clock_string(
        total / SECS_PER_DAY,
        rest / SECS_PER_HOUR,
        (rest % SECS_PER_HOUR) / SECS_PER_MINUTE,
        rest % SECS_PER_MINUTE,
    )
}

/// Why a text is no span of time.
#[derive(Clone, Copy, Debug, PartialEq, Eq, Structural)]
pub enum DurationError {
    /// The text does not follow the form of a span.
    InvalidFormat,
    /// The text follows the form, but the span has more than `u64::MAX`
    /// seconds.
    TooLarge,
}

/// The number that a run of digits denotes.
pub open spec fn decimal_value(digits: Seq<char>) -> nat
    decreases digits.len(),
{
    if digits.len() == 0 {
        0
    } else {
        decimal_value(digits.drop_last()) * 10 + digit_value(digits.last())
    }
}

/// Where the run of digits that starts at `from` ends.
pub open spec fn digit_run(s: Seq<char>, from: int) -> int
    decreases s.len() - from,
{
    if 0 <= from < s.len() && is_digit(s[from]) {
        digit_run(s, from + 1)
    } else {
        from
    }
}

/// The rank of a unit letter: days 0, hours 1, minutes 2; 3 for any other
/// character.
pub open spec fn unit_stage(c: char) -> int {
    if c == 'd' || c == 'D' {
        0
    } else if c == 'h' || c == 'H' {
        1
    } else if c == 'm' || c == 'M' {
        2
    } else {
        3
    }
}

/// The seconds in one unit of the given rank.
pub open spec fn unit_secs(stage: int) -> nat {
    if stage == 0 {
        SECS_PER_DAY as nat
    } else if stage == 1 {
        SECS_PER_HOUR as nat
    } else {
        SECS_PER_MINUTE as nat
    }
}

/// Ten to the power of `k`.
pub open spec fn pow10(k: nat) -> nat
    decreases k,
{
    if k == 0 {
        1
    } else {
        10 * pow10((k - 1) as nat)
    }
}

/// The nanoseconds that the digits after the decimal point denote: digits
/// beyond the ninth are dropped.
pub open spec fn fraction_nanos(digits: Seq<char>) -> nat {
    if digits.len() >= 9 {
        decimal_value(digits.take(9))
    } else {
        decimal_value(digits) * pow10((9 - digits.len()) as nat)
    }
}

/// Reads `s` from position `from` on, where units of a rank below `stage`
/// may no longer come and `secs` seconds have been read so far. The result
/// is the seconds and nanoseconds of the whole, or nothing where the text
/// does not follow the form.
///
/// The form is: days, hours and minutes, each a run of digits and its
/// letter (`d`, `h`, `m`, in either case), each of them optional but in
/// this order; then, optionally, seconds: a run of digits, optionally a
/// point and a run of digits, optionally the letter `s`.
pub open spec fn parse_units(s: Seq<char>, from: int, stage: int, secs: nat) -> Option<(nat, nat)>
    decreases s.len() - from,
{
    let end = digit_run(s, from);
    if from < 0 || from > s.len() || end < from {
        None
    } else if end == from {
        if from == s.len() {
            Some((secs, 0nat))
        } else {
            None
        }
    } else {
        let value = decimal_value(s.subrange(from, end));
        if end < s.len() && stage <= unit_stage(s[end]) && unit_stage(s[end]) < 3 {
            parse_units(
                s,
                end + 1,
                unit_stage(s[end]) + 1,
                secs + value * unit_secs(unit_stage(s[end])),
            )
        } else {
            let pointed = end < s.len() && s[end] == '.';
            let frac_end = if pointed {
                digit_run(s, end + 1)
            } else {
                end
            };
            let tail = if frac_end < s.len() && (s[frac_end] == 's' || s[frac_end] == 'S') {
                frac_end + 1
            } else {
                frac_end
            };
            if (pointed && frac_end <= end + 1) || tail != s.len() {
                None
            } else if pointed {
                Some((secs + value, fraction_nanos(s.subrange(end + 1, frac_end))))
            } else {
                Some((secs + value, 0nat))
            }
        }
    }
}

/// The span that a text denotes.
pub open spec fn duration_of(s: Seq<char>) -> Result<Duration, DurationError> {
    match parse_units(s, 0, 0, 0) {
        None => Err(DurationError::InvalidFormat),
        Some((secs, nanos)) => if secs > u64::MAX {
            Err(DurationError::TooLarge)
        } else {
            Ok(Duration { secs: secs as u64, nanos: nanos as u32 })
        },
    }
}

/// A run of digits ends within the text, holds digits only, and ends
/// before a character that is no digit.
pub proof fn lemma_digit_run(s: Seq<char>, from: int)
    requires
        0 <= from <= s.len(),
    ensures
        from <= digit_run(s, from) <= s.len(),
        forall|j: int| from <= j < digit_run(s, from) ==> is_digit(#[trigger] s[j]),
        digit_run(s, from) < s.len() ==> !is_digit(s[digit_run(s, from)]),
    decreases s.len() - from,
{
    if from < s.len() && is_digit(s[from]) {
        lemma_digit_run(s, from + 1);
    }
}

/// The end of a run of digits is the first position that holds no digit.
pub proof fn lemma_digit_run_is(s: Seq<char>, from: int, end: int)
    requires
        0 <= from <= end <= s.len(),
        forall|j: int| from <= j < end ==> is_digit(#[trigger] s[j]),
        end < s.len() ==> !is_digit(s[end]),
    ensures
        digit_run(s, from) == end,
    decreases end - from,
{
    if from < end {
        assert(is_digit(s[from]));
        lemma_digit_run_is(s, from + 1, end);
    }
}

/// Reads the run of digits that starts at `from`. `over` says that the
/// number is beyond `u64::MAX`; else `value` holds it.
fn scan_digits(v: &Vec<char>, from: usize) -> (r: (usize, u64, bool))
    requires
        from <= v.len(),
    ensures
        r.0 == digit_run(v@, from as int),
        from <= r.0 <= v.len(),
        !r.2 ==> r.1 == decimal_value(v@.subrange(from as int, r.0 as int)),
        r.2 ==> decimal_value(v@.subrange(from as int, r.0 as int)) > u64::MAX,
{
    let mut i: usize = from;
    let mut acc: u64 = 0;
    let mut over: bool = false;
    assert(v@.subrange(from as int, from as int) =~= Seq::<char>::empty());
    while i < v.len() && v[i] >= '0' && v[i] <= '9'
        invariant
            from <= i <= v.len(),
            forall|j: int| from <= j < i ==> is_digit(#[trigger] v@[j]),
            !over ==> acc == decimal_value(v@.subrange(from as int, i as int)),
            over ==> decimal_value(v@.subrange(from as int, i as int)) > u64::MAX,
        decreases v.len() - i,
    {
        let ghost before = v@.subrange(from as int, i as int);
        let ghost after = v@.subrange(from as int, i + 1);
        assert(after.drop_last() =~= before);
        assert(after.last() == v@[i as int]);
        let d: u64 = (v[i] as u32 - '0' as u32) as u64;
        if !over {
            if acc > (u64::MAX - d) / 10 {
                over = true;
                assert(acc * 10 + d > u64::MAX) by (nonlinear_arith)
                    requires
                        acc > (u64::MAX - d) / 10,
                        d <= 9,
                ;
            } else {
                assert(acc * 10 + d <= u64::MAX) by (nonlinear_arith)
                    requires
                        acc <= (u64::MAX - d) / 10,
                        d <= 9,
                ;
                acc = acc * 10 + d;
            }
        } else {
            assert(decimal_value(after) >= decimal_value(before)) by (nonlinear_arith)
                requires
                    decimal_value(after) == decimal_value(before) * 10 + d,
            ;
        }
        i += 1;
    }
    proof {
        lemma_digit_run_is(v@, from as int, i as int);
    }
    (i, acc, over)
}

/// Reads the digits `v[from..to]` as the fraction of a second.
fn scan_fraction(v: &Vec<char>, from: usize, to: usize) -> (nanos: u32)
    requires
        from <= to <= v.len(),
        forall|j: int| from <= j < to ==> is_digit(#[trigger] v@[j]),
    ensures
        nanos == fraction_nanos(v@.subrange(from as int, to as int)),
        nanos < NANOS_PER_SEC,
{
    let ghost digits = v@.subrange(from as int, to as int);
    let mut acc: u32 = 0;
    let mut n: usize = 0;
    assert(digits.take(0) =~= Seq::<char>::empty());
    proof {
        lemma_pow10_monotonic(0, 9);
    }
    while n < 9 && from + n < to
        invariant
            from <= to <= v.len(),
            0 <= n <= 9,
            from + n <= to,
            digits == v@.subrange(from as int, to as int),
            forall|j: int| 0 <= j < digits.len() ==> is_digit(#[trigger] digits[j]),
            acc == decimal_value(digits.take(n as int)),
            acc < pow10(n as nat),
            pow10(n as nat) <= pow10(9),
        decreases 9 - n,
    {
        let ghost before = digits.take(n as int);
        let ghost after = digits.take(n + 1);
        assert(after.drop_last() =~= before);
        assert(after.last() == v@[from + n]);
        assert(is_digit(digits[n as int]));
        let d: u32 = v[from + n] as u32 - '0' as u32;
        assert(pow10(9) == 1_000_000_000) by {
            reveal_with_fuel(pow10, 10);
        }
        assert(pow10((n + 1) as nat) == 10 * pow10(n as nat));
        assert(pow10((n + 1) as nat) <= pow10(9)) by {
            lemma_pow10_monotonic((n + 1) as nat, 9);
        }
        acc = acc * 10 + d;
        n += 1;
    }
    assert(pow10(9) == 1_000_000_000) by {
        reveal_with_fuel(pow10, 10);
    }
    if n == 9 {
        assert(digits.len() >= 9);
        return acc;
    }
    assert(digits.take(n as int) =~= digits);
    assert(acc == decimal_value(digits) * pow10(0)) by {
        assert(pow10(0) == 1);
        assert(decimal_value(digits) * 1 == decimal_value(digits)) by (nonlinear_arith);
    }
    let mut k: usize = n;
    while k < 9
        invariant
            n <= k <= 9,
            n == digits.len(),
            acc == decimal_value(digits) * pow10((k - n) as nat),
            decimal_value(digits) < pow10(n as nat),
            acc < pow10(k as nat),
            pow10(9) == 1_000_000_000,
        decreases 9 - k,
    {
        assert(pow10((k + 1) as nat) == 10 * pow10(k as nat));
        assert(pow10((k + 1 - n) as nat) == 10 * pow10((k - n) as nat));
        assert(pow10((k + 1) as nat) <= pow10(9)) by {
            lemma_pow10_monotonic((k + 1) as nat, 9);
        }
        assert(acc * 10 == decimal_value(digits) * pow10((k + 1 - n) as nat)) by (nonlinear_arith)
            requires
                acc == decimal_value(digits) * pow10((k - n) as nat),
                pow10((k + 1 - n) as nat) == 10 * pow10((k - n) as nat),
        ;
        acc = acc * 10;
        k += 1;
    }
    acc
}

proof fn lemma_pow10_monotonic(a: nat, b: nat)
    requires
        a <= b,
    ensures
        pow10(a) <= pow10(b),
        pow10(a) > 0,
    decreases b,
{
    if a < b {
        lemma_pow10_monotonic(a, (b - 1) as nat);
    } else if a > 0 {
        lemma_pow10_monotonic((a - 1) as nat, (a - 1) as nat);
    }
}

/// Parse a human-readable text into a span of time.
///
/// `1d2h3m4.5s` is one day, two hours, three minutes and four and a half
/// seconds; each part may be left out, and so may the final `s`. The empty
/// text is the span of no time.
pub fn duration_from_string(string: &str) -> (r: Result<Duration, DurationError>)
    ensures
        r == duration_of(string@),
        r matches Ok(d) ==> d.wf(),
{
    let v = chars_of(string);
    let mut from: usize = 0;
    let mut stage: u8 = 0;
    let mut secs: u64 = 0;
    let mut over: bool = false;
    let ghost mut true_secs: nat = 0;
    loop
        invariant
            v@ == string@,
            0 <= from <= v.len(),
            0 <= stage <= 3,
            parse_units(v@, 0, 0, 0) == parse_units(v@, from as int, stage as int, true_secs),
            !over ==> secs == true_secs,
            over ==> true_secs > u64::MAX,
        decreases v.len() - from,
    {
        let (end, value, value_over) = scan_digits(&v, from);
        let ghost digits = v@.subrange(from as int, end as int);
        proof {
            lemma_digit_run(v@, from as int);
        }
        if end == from {
            if from == v.len() {
                return if over {
                    Err(DurationError::TooLarge)
                } else {
                    Ok(Duration { secs, nanos: 0 })
                };
            }
            return Err(DurationError::InvalidFormat);
        }
        let rank: u8 = if end < v.len() {
            let c: char = v[end];
            if c == 'd' || c == 'D' {
                0
            } else if c == 'h' || c == 'H' {
                1
            } else if c == 'm' || c == 'M' {
                2
            } else {
                3
            }
        } else {
            3
        };
        if end < v.len() && stage <= rank && rank < 3 {
            let per: u64 = if rank == 0 {
                SECS_PER_DAY
            } else if rank == 1 {
                SECS_PER_HOUR
            } else {
                SECS_PER_MINUTE
            };
            let ghost grown = true_secs + decimal_value(digits) * unit_secs(rank as int);
            if over || value_over || value > (u64::MAX - secs) / per {
                proof {
                    if !over && !value_over {
                        assert(secs + value * per > u64::MAX) by (nonlinear_arith)
                            requires
                                value > (u64::MAX - secs) / (per as int),
                                per > 0,
                        ;
                    } else if !over {
                        assert(decimal_value(digits) * per >= decimal_value(digits))
                            by (nonlinear_arith)
                            requires
                                per >= 1,
                        ;
                    }
                }
                over = true;
            } else {
                assert(secs + value * per <= u64::MAX) by (nonlinear_arith)
                    requires
                        value <= (u64::MAX - secs) / (per as int),
                        per > 0,
                ;
                secs = secs + value * per;
            }
            proof {
                true_secs = grown;
            }
            stage = rank + 1;
            from = end + 1;
        } else {
            let pointed: bool = end < v.len() && v[end] == '.';
            let mut frac_end: usize = end;
            let mut nanos: u32 = 0;
            if pointed {
                let (stop, _, _) = scan_digits(&v, end + 1);
                proof {
                    lemma_digit_run(v@, end + 1);
                }
                frac_end = stop;
                if frac_end <= end + 1 {
                    return Err(DurationError::InvalidFormat);
                }
                nanos = scan_fraction(&v, end + 1, frac_end);
            }
            let tail: usize = if frac_end < v.len() && (v[frac_end] == 's' || v[frac_end] == 'S') {
                frac_end + 1
            } else {
                frac_end
            };
            if tail != v.len() {
                return Err(DurationError::InvalidFormat);
            }
            if over || value_over || value > u64::MAX - secs {
                return Err(DurationError::TooLarge);
            }
            return Ok(Duration { secs: secs + value, nanos });
        }
    }
}

} // verus!
