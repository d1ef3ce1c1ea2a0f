//! Character-level building blocks shared by the parsers and formatters of
//! this crate: decimal numbers, sequence search and string assembly.
//!
//! Every contract here is stated over `Seq<char>`, the view of `str` and
//! `String`.
use vstd::prelude::*;

verus! {

/// Why a string is not a decimal number that fits the wanted type.
#[derive(Clone, Copy, Debug, PartialEq, Eq, Structural)]
pub enum IntErrorKind {
    /// The string holds no character at all.
    Empty,
    /// A character is no decimal digit, or a sign stands alone.
    InvalidDigit,
    /// The digits read so far already exceed the largest value allowed.
    PosOverflow,
}

/// Whether a character is one of the ten decimal digits.
pub open spec fn is_digit(c: char) -> bool {
    '0' <= c && c <= '9'
}

/// The value of a decimal digit.
pub open spec fn digit_value(c: char) -> nat
    recommends
        is_digit(c),
{
    (c as u32 - '0' as u32) as nat
}

/// The character of a decimal digit.
pub open spec fn digit_char(d: nat) -> char
    recommends
        d < 10,
{
    (('0' as u32 + d) as u32) as char
}

/// The number that a run of digits denotes, read left to right; the first
/// character that is no digit, or the first digit that carries the value
/// past `max`, decides the error.
pub open spec fn digits_value(s: Seq<char>, max: nat) -> Result<nat, IntErrorKind>
    decreases s.len(),
{
    if s.len() == 0 {
        Ok(0)
    } else {
        match digits_value(s.drop_last(), max) {
            Err(kind) => Err(kind),
            Ok(v) => if !is_digit(s.last()) {
                Err(IntErrorKind::InvalidDigit)
            } else if v * 10 + digit_value(s.last()) > max {
                Err(IntErrorKind::PosOverflow)
            } else {
                Ok(v * 10 + digit_value(s.last()))
            },
        }
    }
}

/// What an unsigned decimal string denotes: an optional `+`, then at least
/// one digit, the value being at most `max`.
pub open spec fn parse_unsigned(s: Seq<char>, max: nat) -> Result<nat, IntErrorKind> {
    if s.len() == 0 {
        Err(IntErrorKind::Empty)
    } else if s[0] == '+' {
        if s.len() == 1 {
            Err(IntErrorKind::InvalidDigit)
        } else {
            digits_value(s.subrange(1, s.len() as int), max)
        }
    } else {
        digits_value(s, max)
    }
}

/// The decimal digits of `n`, without leading zeros.
pub open spec fn decimal(n: nat) -> Seq<char>
    decreases n,
{
    if n < 10 {
        seq![digit_char(n)]
    } else {
        decimal(n / 10).push(digit_char(n % 10))
    }
}

/// The decimal digits of `n`, with one leading zero where `n` has one digit.
pub open spec fn decimal2(n: nat) -> Seq<char> {
    if n < 10 {
        seq!['0'] + decimal(n)
    } else {
        decimal(n)
    }
}

/// The characters of a string slice, one by one.
pub fn chars_of(s: &str) -> (v: Vec<char>)
    ensures
        v@ == s@,
{
    let mut v: Vec<char> = Vec::new();
    for c in it: s.chars()
        invariant
            v@ == it.seq().take(it.index() as int),
            it.seq() == s@,
    {
        v.push(c);
    }
    v
}

/// Builds a `String` by `String::from_iter` over the characters of `v`: the
/// string holds exactly those characters, in their order.
#[verifier::external_body]
pub(crate) fn string_from_chars(v: &Vec<char>) -> (s: String)
    ensures
        s@ == v@,
{
    String::from_iter(v.iter())
}

/// Appends the characters of `s` to `out`.
pub fn push_str(out: &mut Vec<char>, s: &str)
    ensures
        final(out)@ == old(out)@ + s@,
{
    let ghost before = out@;
    for c in it: s.chars()
        invariant
            out@ == before + it.seq().take(it.index() as int),
            it.seq() == s@,
    {
        out.push(c);
        assert(it.seq().take(it.index() + 1) =~= it.seq().take(it.index() as int).push(c));
    }
    assert(s@.take(s@.len() as int) =~= s@);
}

/// Appends `v[from..to]` to `out`.
pub fn push_range(out: &mut Vec<char>, v: &Vec<char>, from: usize, to: usize)
    requires
        from <= to <= v.len(),
    ensures
        final(out)@ == old(out)@ + v@.subrange(from as int, to as int),
{
    let ghost before = out@;
    let mut i: usize = from;
    while i < to
        invariant
            from <= i <= to <= v.len(),
            out@ == before + v@.subrange(from as int, i as int),
        decreases to - i,
    {
        out.push(v[i]);
        assert(v@.subrange(from as int, i + 1) =~= v@.subrange(from as int, i as int).push(
            v@[i as int],
        ));
        i += 1;
    }
}

/// A copy of `v[from..to]` as a `String`.
pub fn substring(v: &Vec<char>, from: usize, to: usize) -> (s: String)
    requires
        from <= to <= v.len(),
    ensures
        s@ == v@.subrange(from as int, to as int),
{
    let mut out: Vec<char> = Vec::new();
    push_range(&mut out, v, from, to);
    string_from_chars(&out)
}

/// Whether `v[from..to]` spells `word`.
pub fn range_equals(v: &Vec<char>, from: usize, to: usize, word: &Vec<char>) -> (r: bool)
    requires
        from <= to <= v.len(),
    ensures
        r == (v@.subrange(from as int, to as int) == word@),
{
    if to - from != word.len() {
        return false;
    }
    let mut i: usize = 0;
    while i < word.len()
        invariant
            from <= to <= v.len(),
            to - from == word.len(),
            0 <= i <= word.len(),
            forall|j: int| 0 <= j < i ==> v@[from + j] == word@[j],
        decreases word.len() - i,
    {
        if v[from + i] != word[i] {
            assert(v@.subrange(from as int, to as int)[i as int] != word@[i as int]);
            return false;
        }
        i += 1;
    }
    assert(v@.subrange(from as int, to as int) =~= word@);
    true
}

/// Reads `v[from..to]` as an unsigned decimal number of at most `max`.
pub fn parse_bounded(v: &Vec<char>, from: usize, to: usize, max: u64) -> (r: Result<
    u64,
    IntErrorKind,
>)
    requires
        from <= to <= v.len(),
    ensures
        match parse_unsigned(v@.subrange(from as int, to as int), max as nat) {
            Ok(n) => r == Ok::<u64, IntErrorKind>(n as u64) && n <= max,
            Err(kind) => r == Err::<u64, IntErrorKind>(kind),
        },
{
    let ghost whole = v@.subrange(from as int, to as int);
    if from == to {
        return Err(IntErrorKind::Empty);
    }
    let mut i: usize = from;
    if v[from] == '+' {
        assert(whole[0] == v@[from as int]);
        if to - from == 1 {
            return Err(IntErrorKind::InvalidDigit);
        }
        i = from + 1;
    } else {
        assert(whole[0] == v@[from as int]);
    }
    let start: usize = i;
    let ghost body = v@.subrange(start as int, to as int);
    assert(body =~= if whole[0] == '+' {
        whole.subrange(1, whole.len() as int)
    } else {
        whole
    });
    assert(parse_unsigned(whole, max as nat) == digits_value(body, max as nat));
    assert(body.take(0) =~= Seq::<char>::empty());
    let mut acc: u64 = 0;
    while i < to
        invariant
            from <= start <= i <= to <= v.len(),
            body == v@.subrange(start as int, to as int),
            whole == v@.subrange(from as int, to as int),
            parse_unsigned(whole, max as nat) == digits_value(body, max as nat),
            digits_value(body.take(i - start), max as nat) == Ok::<nat, IntErrorKind>(acc as nat),
            acc <= max,
        decreases to - i,
    {
        let c: char = v[i];
        let ghost prefix = body.take(i - start + 1);
        assert(prefix.drop_last() =~= body.take(i - start));
        assert(prefix.last() == c);
        if !(c >= '0' && c <= '9') {
            proof {
                lemma_digits_error_prefix(body, i - start + 1, max as nat);
            }
            return Err(IntErrorKind::InvalidDigit);
        }
        let d: u64 = (c as u32 - '0' as u32) as u64;
        if d > max || acc > (max - d) / 10 {
            proof {
                assert(acc * 10 + d > max) by (nonlinear_arith)
                    requires
                        d > max || acc > (max - d) / 10,
                ;
                lemma_digits_error_prefix(body, i - start + 1, max as nat);
            }
            return Err(IntErrorKind::PosOverflow);
        }
        assert(acc * 10 + d <= max) by (nonlinear_arith)
            requires
                acc <= (max - d) / 10,
                d <= max,
        ;
        acc = acc * 10 + d;
        i += 1;
    }
    assert(body.take(to - start) =~= body);
    Ok(acc)
}

/// An error met while reading a prefix is the error of the whole run.
pub proof fn lemma_digits_error_prefix(s: Seq<char>, k: int, max: nat)
    requires
        0 <= k <= s.len(),
        digits_value(s.take(k), max) is Err,
    ensures
        digits_value(s, max) == digits_value(s.take(k), max),
    decreases s.len() - k,
{
    if k == s.len() {
        assert(s.take(k) =~= s);
    } else {
        assert(s.drop_last().take(k) =~= s.take(k));
        lemma_digits_error_prefix(s.drop_last(), k, max);
    }
}

/// Reads a whole string as an unsigned decimal number of at most `max`.
pub fn parse_number(s: &str, max: u64) -> (r: Result<u64, IntErrorKind>)
    ensures
        match parse_unsigned(s@, max as nat) {
            Ok(n) => r == Ok::<u64, IntErrorKind>(n as u64) && n <= max,
            Err(kind) => r == Err::<u64, IntErrorKind>(kind),
        },
{
    let v = chars_of(s);
    assert(v@.subrange(0, v@.len() as int) =~= s@);
    parse_bounded(&v, 0, v.len(), max)
}

/// Appends the decimal digits of `n` to `out`.
pub fn push_decimal(out: &mut Vec<char>, n: u64)
    ensures
        final(out)@ == old(out)@ + decimal(n as nat),
    decreases n,
{
    if n >= 10 {
        push_decimal(out, n / 10);
    }
    let d: u32 = (n % 10) as u32;
    let c: char = char_of_digit(d);
    out.push(c);
    proof {
        if n >= 10 {
            assert(out@ =~= old(out)@ + decimal((n / 10) as nat).push(c));
        } else {
            assert(out@ =~= old(out)@ + seq![c]);
        }
    }
}

/// Appends the decimal digits of `n` to `out`, at least two of them.
pub fn push_decimal2(out: &mut Vec<char>, n: u64)
    ensures
        final(out)@ == old(out)@ + decimal2(n as nat),
{
    if n < 10 {
        out.push('0');
        push_decimal(out, n);
        assert(out@ =~= old(out)@ + (seq!['0'] + decimal(n as nat)));
    } else {
        push_decimal(out, n);
    }
}

/// The character that writes the digit `d`.
pub fn char_of_digit(d: u32) -> (c: char)
    requires
        d < 10,
    ensures
        c == digit_char(d as nat),
        is_digit(c),
        digit_value(c) == d,
{
    match d {
        0 => '0',
        1 => '1',
        2 => '2',
        3 => '3',
        4 => '4',
        5 => '5',
        6 => '6',
        7 => '7',
        8 => '8',
        _ => '9',
    }
}

/// The decimal digits of `n` as a `String`.
pub fn decimal_string(n: u64) -> (s: String)
    ensures
        s@ == decimal(n as nat),
{
    let mut out: Vec<char> = Vec::new();
    push_decimal(&mut out, n);
    assert(out@ =~= decimal(n as nat));
    string_from_chars(&out)
}

/// The first position at or after `from` where `c` stands in `v`, or
/// `v.len()` where it stands nowhere.
pub fn find_char(v: &Vec<char>, from: usize, c: char) -> (r: usize)
    requires
        from <= v.len(),
    ensures
        from <= r <= v.len(),
        forall|j: int| from <= j < r ==> v@[j] != c,
        r < v.len() ==> v@[r as int] == c,
{
    let mut i: usize = from;
    while i < v.len()
        invariant
            from <= i <= v.len(),
            forall|j: int| from <= j < i ==> v@[j] != c,
        decreases v.len() - i,
    {
        if v[i] == c {
            return i;
        }
        i += 1;
    }
    i
}


/// Whether some string of `list` spells `name`.
pub open spec fn names_it(list: Seq<String>, name: Seq<char>) -> bool {
    exists|i: int| 0 <= i < list.len() && (#[trigger] list[i])@ == name
}

/// Whether some string of `list` spells `name`.
pub fn list_names(list: &Vec<String>, name: &String) -> (r: bool)
    ensures
        r == names_it(list@, name@),
{
    let mut i: usize = 0;
    while i < list.len()
        invariant
            0 <= i <= list.len(),
            forall|j: int| 0 <= j < i ==> (#[trigger] list@[j])@ != name@,
        decreases list.len() - i,
    {
        if list[i] == *name {
            return true;
        }
        i += 1;
    }
    false
}

/// Whether the two slices hold the same characters.
pub fn same_text(a: &str, b: &str) -> (r: bool)
    ensures
        r == (a@ == b@),
{
    let va = chars_of(a);
    let vb = chars_of(b);
    assert(va@.subrange(0, va@.len() as int) =~= va@);
    range_equals(&va, 0, va.len(), &vb)
}

/// A `String` with the characters of `s`.
pub fn owned(s: &str) -> (r: String)
    ensures
        r@ == s@,
{
    let v = chars_of(s);
    string_from_chars(&v)
}


/// The first position of `name` in `keys`, or `keys.len()` where it is not
/// among them.
pub open spec fn key_position(keys: Seq<Seq<char>>, name: Seq<char>) -> int
    decreases keys.len(),
{
    if keys.len() == 0 {
        0
    } else if keys[0] == name {
        0
    } else {
        1 + key_position(keys.drop_first(), name)
    }
}

/// The first position of `name` in `keys`, or `keys.len()`.
pub fn name_position(keys: &Vec<String>, name: &str) -> (at: usize)
    ensures
        at == key_position(keys.deep_view(), name@),
        at <= keys.len(),
{
    let ghost all = keys.deep_view();
    let mut i: usize = 0;
    assert(all.skip(0) =~= all);
    while i < keys.len()
        invariant
            0 <= i <= keys.len(),
            all == keys.deep_view(),
            key_position(all, name@) == i + key_position(all.skip(i as int), name@),
        decreases keys.len() - i,
    {
        let ghost rest = all.skip(i as int);
        assert(rest[0] == keys@[i as int]@);
        assert(rest.drop_first() =~= all.skip(i + 1));
        if same_text(keys[i].as_str(), name) {
            return i;
        }
        i += 1;
    }
    assert(all.skip(all.len() as int) =~= Seq::<Seq<char>>::empty());
    i
}


/// Whether a character has the Unicode property `White_Space`, as
/// `char::is_whitespace` tells.
pub uninterp spec fn is_whitespace(c: char) -> bool;

/// Calls `char::is_whitespace`.
#[verifier::external_body]
pub(crate) fn char_is_whitespace(c: char) -> (r: bool)
    ensures
        r == is_whitespace(c),
{
    c.is_whitespace()
}

/// Where the white space at the start of `s` ends.
pub open spec fn trim_start(s: Seq<char>) -> int
    decreases s.len(),
{
    if s.len() == 0 || !is_whitespace(s[0]) {
        0
    } else {
        1 + trim_start(s.drop_first())
    }
}

/// Where the white space at the end of `s` starts.
pub open spec fn trim_end(s: Seq<char>) -> int
    decreases s.len(),
{
    if s.len() == 0 || !is_whitespace(s.last()) {
        s.len() as int
    } else {
        trim_end(s.drop_last())
    }
}

/// `s` without the white space at its start and at its end.
pub open spec fn trimmed(s: Seq<char>) -> Seq<char> {
    if trim_start(s) >= trim_end(s) {
        Seq::empty()
    } else {
        s.subrange(trim_start(s), trim_end(s))
    }
}

proof fn lemma_trim_start(s: Seq<char>, at: int)
    requires
        0 <= at <= s.len(),
        forall|j: int| 0 <= j < at ==> is_whitespace(#[trigger] s[j]),
        at < s.len() ==> !is_whitespace(s[at]),
    ensures
        trim_start(s) == at,
    decreases s.len(),
{
    if s.len() > 0 && at > 0 {
        assert(is_whitespace(s[0]));
        let rest = s.drop_first();
        assert forall|j: int| 0 <= j < at - 1 implies is_whitespace(#[trigger] rest[j]) by {
            assert(rest[j] == s[j + 1]);
        }
        lemma_trim_start(rest, at - 1);
    }
}

proof fn lemma_trim_end(s: Seq<char>, at: int)
    requires
        0 <= at <= s.len(),
        forall|j: int| at <= j < s.len() ==> is_whitespace(#[trigger] s[j]),
        at > 0 ==> !is_whitespace(s[at - 1]),
    ensures
        trim_end(s) == at,
    decreases s.len(),
{
    if s.len() > 0 && at < s.len() {
        assert(is_whitespace(s[s.len() - 1]));
        let front = s.drop_last();
        assert forall|j: int| at <= j < front.len() implies is_whitespace(#[trigger] front[j]) by {
            assert(front[j] == s[j]);
        }
        lemma_trim_end(front, at);
    }
}

/// The characters `v[from..to]` without the white space at their start
/// and at their end, as positions in `v`.
pub fn trim_range(v: &Vec<char>, from: usize, to: usize) -> (r: (usize, usize))
    requires
        from <= to <= v.len(),
    ensures
        from <= r.0 <= r.1 <= to,
        v@.subrange(r.0 as int, r.1 as int) == trimmed(v@.subrange(from as int, to as int)),
{
    let ghost part = v@.subrange(from as int, to as int);
    let mut start: usize = from;
    while start < to && char_is_whitespace(v[start])
        invariant
            from <= start <= to <= v.len(),
            forall|j: int| from <= j < start ==> is_whitespace(#[trigger] v@[j]),
        decreases to - start,
    {
        start += 1;
    }
    let mut end: usize = to;
    while end > from && char_is_whitespace(v[end - 1])
        invariant
            from <= end <= to <= v.len(),
            forall|j: int| end <= j < to ==> is_whitespace(#[trigger] v@[j]),
        decreases end,
    {
        end -= 1;
    }
    proof {
        assert forall|j: int| 0 <= j < start - from implies is_whitespace(#[trigger] part[j]) by {
            assert(part[j] == v@[from + j]);
        }
        lemma_trim_start(part, start - from);
        assert forall|j: int| end - from <= j < part.len() implies is_whitespace(
            #[trigger] part[j],
        ) by {
            assert(part[j] == v@[from + j]);
        }
        lemma_trim_end(part, end - from);
    }
    if start >= end {
        assert(v@.subrange(start as int, start as int) =~= Seq::<char>::empty());
        (start, start)
    } else {
        assert(v@.subrange(start as int, end as int) =~= part.subrange(start - from, end - from));
        (start, end)
    }
}


/// The character of a digit is a digit, of that value.
pub proof fn lemma_digit_char(d: nat)
    requires
        d < 10,
    ensures
        is_digit(digit_char(d)),
        digit_value(digit_char(d)) == d,
        digit_char(d) != '+',
        digit_char(d) != '/',
        digit_char(d) != '.',
{
    assert('0' as u32 == 48);
    assert('9' as u32 == 57);
    let code: u32 = (48 + d) as u32;
    assert(code as char as u32 == code);
}

/// The digits of a number are digits, at least one of them, and none of
/// them a sign, a slash or a point.
pub proof fn lemma_decimal_digits(n: nat)
    ensures
        decimal(n).len() >= 1,
        forall|i: int|
            0 <= i < decimal(n).len() ==> is_digit(#[trigger] decimal(n)[i]) && decimal(n)[i]
                != '/' && decimal(n)[i] != '.' && decimal(n)[i] != '+',
    decreases n,
{
    lemma_digit_char(n % 10);
    if n >= 10 {
        lemma_decimal_digits(n / 10);
    }
}

/// Reading the digits of a number gives the number back.
pub proof fn law_decimal_parses_back(n: nat, max: nat)
    requires
        n <= max,
    ensures
        digits_value(decimal(n), max) == Ok::<nat, IntErrorKind>(n),
        parse_unsigned(decimal(n), max) == Ok::<nat, IntErrorKind>(n),
    decreases n,
{
    lemma_digit_char(n % 10);
    lemma_decimal_digits(n);
    let s = decimal(n);
    let front = s.drop_last();
    assert(s.last() == digit_char(n % 10));
    assert(is_digit(s.last()) && digit_value(s.last()) == n % 10);
    if n < 10 {
        assert(front =~= Seq::<char>::empty());
        assert(digits_value(front, max) == Ok::<nat, IntErrorKind>(0));
    } else {
        law_decimal_parses_back(n / 10, max);
        assert(front =~= decimal(n / 10));
        assert(digits_value(front, max) == Ok::<nat, IntErrorKind>(n / 10));
        assert((n / 10) * 10 + n % 10 == n);
    }
    assert(digits_value(s, max) == Ok::<nat, IntErrorKind>(n));
    assert(s[0] != '+');
}

} // verus!
