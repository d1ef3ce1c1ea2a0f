//! Flush thresholds: a table from file-system utilization (percent) to the
//! age, in seconds, beyond which a file is flushed.
//!
//! The table always covers 0% (flush nothing) and 100% (flush everything)
//! unless the user overrides those two rows, and ages must fall strictly as
//! utilization rises.
use crate::text::{chars_of, find_char, parse_bounded, parse_unsigned, IntErrorKind};
use std::collections::BTreeMap;
use vstd::prelude::*;

verus! {

/// Utilization percentage to age limit in seconds, ordered by utilization.
pub type Thresholds = BTreeMap<u8, u64>;

/// Why a list of `<utilization><delim><age>` arguments is no threshold table.
#[derive(Clone, Copy, Debug, PartialEq, Eq, Structural)]
pub enum ThresholdError {
    /// Argument `arg` holds no delimiter.
    BadPair { arg: usize },
    /// The part of argument `arg` before the delimiter is no `u8`.
    BadUtilization { arg: usize, kind: IntErrorKind },
    /// Argument `arg` names a utilization above 100%.
    UtilizationRange { arg: usize, utilization: u8 },
    /// The part of argument `arg` after the delimiter is no `u64`.
    BadAge { arg: usize, kind: IntErrorKind },
    /// Two neighbouring rows whose ages do not fall.
    NotDecreasing { prev_utilization: u8, prev_age: u64, utilization: u8, age: u64 },
}

/// The rows every table starts with.
pub open spec fn default_rows() -> Map<u8, u64> {
    Map::<u8, u64>::empty().insert(0u8, u64::MAX).insert(100u8, 0u64)
}

/// Position of the first `delim` in `s`, or `s.len()` where there is none.
pub open spec fn first_delim(s: Seq<char>, delim: char) -> int
    decreases s.len(),
{
    if s.len() == 0 {
        0
    } else if s[0] == delim {
        0
    } else {
        1 + first_delim(s.drop_first(), delim)
    }
}

/// What one argument adds to the table: the row it spells, or the error it
/// holds. `arg` is the argument's position, for the error.
pub open spec fn row_of(s: Seq<char>, delim: char, arg: usize) -> Result<(u8, u64), ThresholdError> {
    let at = first_delim(s, delim);
    if at >= s.len() {
        Err(ThresholdError::BadPair { arg })
    } else {
        match parse_unsigned(s.subrange(0, at), u8::MAX as nat) {
            Err(kind) => Err(ThresholdError::BadUtilization { arg, kind }),
            Ok(utilization) => if utilization > 100 {
                Err(ThresholdError::UtilizationRange { arg, utilization: utilization as u8 })
            } else {
                match parse_unsigned(s.subrange(at + 1, s.len() as int), u64::MAX as nat) {
                    Err(kind) => Err(ThresholdError::BadAge { arg, kind }),
                    Ok(age) => Ok((utilization as u8, age as u64)),
                }
            },
        }
    }
}

/// The rows that the arguments spell, later ones replacing earlier ones of
/// the same utilization, on top of the default rows; or the error of the
/// first argument that holds one.
pub open spec fn rows_of(args: Seq<String>, delim: char) -> Result<Map<u8, u64>, ThresholdError>
    decreases args.len(),
{
    if args.len() == 0 {
        Ok(default_rows())
    } else {
        match rows_of(args.drop_last(), delim) {
            Err(e) => Err(e),
            Ok(rows) => match row_of(args.last()@, delim, (args.len() - 1) as usize) {
                Err(e) => Err(e),
                Ok((utilization, age)) => Ok(rows.insert(utilization, age)),
            },
        }
    }
}

/// `a` and `b` are rows of the table with no row between them.
pub open spec fn neighbours(rows: Map<u8, u64>, a: u8, b: u8) -> bool {
    &&& a < b
    &&& rows.contains_key(a)
    &&& rows.contains_key(b)
    &&& forall|k: u8| a < k < b ==> !rows.contains_key(k)
}

/// Ages fall strictly from each row to the next.
pub open spec fn strictly_decreasing(rows: Map<u8, u64>) -> bool {
    forall|a: u8, b: u8| neighbours(rows, a, b) ==> rows[b] < rows[a]
}

/// `k` is the first row at or above `utilization`.
pub open spec fn covering_row(rows: Map<u8, u64>, utilization: u8, k: u8) -> bool {
    &&& utilization <= k
    &&& rows.contains_key(k)
    &&& forall|j: u8| utilization <= j < k ==> !rows.contains_key(j)
}

/// The first delimiter stands within the text or at its end, behind
/// characters that are no delimiter.
pub proof fn lemma_first_delim(s: Seq<char>, delim: char)
    ensures
        0 <= first_delim(s, delim) <= s.len(),
        forall|j: int| 0 <= j < first_delim(s, delim) ==> s[j] != delim,
        first_delim(s, delim) < s.len() ==> s[first_delim(s, delim)] == delim,
    decreases s.len(),
{
    if s.len() > 0 && s[0] != delim {
        let rest = s.drop_first();
        lemma_first_delim(rest, delim);
        assert forall|j: int| 0 <= j < first_delim(s, delim) implies s[j] != delim by {
            if j > 0 {
                assert(rest[j - 1] == s[j]);
            }
        }
    }
}

/// The first position that holds `delim` is `first_delim`.
pub proof fn lemma_first_delim_is(s: Seq<char>, delim: char, at: int)
    requires
        0 <= at <= s.len(),
        forall|j: int| 0 <= j < at ==> s[j] != delim,
        at < s.len() ==> s[at] == delim,
    ensures
        first_delim(s, delim) == at,
{
    lemma_first_delim(s, delim);
    let f = first_delim(s, delim);
    if f < at {
        assert(s[f] != delim);
    }
}

/// Reads one argument as a row.
pub fn parse_row(arg_text: &str, delim: char, arg: usize) -> (r: Result<(u8, u64), ThresholdError>)
    ensures
        r == row_of(arg_text@, delim, arg),
{
    let v = chars_of(arg_text);
    let at = find_char(&v, 0, delim);
    proof {
        lemma_first_delim_is(v@, delim, at as int);
    }
    if at >= v.len() {
        return Err(ThresholdError::BadPair { arg });
    }
    let utilization: u8 = match parse_bounded(&v, 0, at, 255) {
        Err(kind) => {
            return Err(ThresholdError::BadUtilization { arg, kind });
        },
        Ok(n) => n as u8,
    };
    if utilization > 100 {
        return Err(ThresholdError::UtilizationRange { arg, utilization });
    }
    match parse_bounded(&v, at + 1, v.len(), u64::MAX) {
        Err(kind) => Err(ThresholdError::BadAge { arg, kind }),
        Ok(age) => Ok((utilization, age)),
    }
}

/// Looks for the first pair of neighbouring rows whose ages do not fall.
fn first_rise(rows: &Thresholds) -> (r: Option<(u8, u64, u8, u64)>)
    ensures
        match r {
            None => strictly_decreasing(rows@),
            Some((a, age_a, b, age_b)) => {
                &&& neighbours(rows@, a, b)
                &&& rows@[a] == age_a
                &&& rows@[b] == age_b
                &&& age_b >= age_a
                &&& forall|c: u8, d: u8|
                    neighbours(rows@, c, d) && rows@[d] >= rows@[c] ==> b <= d
            },
        },
{
    let mut prev: Option<(u8, u64)> = None;
    let mut k: u16 = 0;
    while k < 256
        invariant
            0 <= k <= 256,
            match prev {
                None => forall|j: u8| j < k ==> !rows@.contains_key(j),
                Some((p, age)) => {
                    &&& p < k
                    &&& rows@.contains_key(p)
                    &&& rows@[p] == age
                    &&& forall|j: u8| p < j < k ==> !rows@.contains_key(j)
                },
            },
            forall|c: u8, d: u8| neighbours(rows@, c, d) && d < k ==> rows@[d] < rows@[c],
        decreases 256 - k,
    {
        let key: u8 = k as u8;
        match rows.get(&key) {
            None => {},
            Some(age) => {
                let age: u64 = *age;
                match prev {
                    None => {
                        assert forall|c: u8, d: u8| neighbours(rows@, c, d) && d < k + 1 implies rows@[d]
                            < rows@[c] by {
                            if d == key {
                                assert(!rows@.contains_key(c));
                            }
                        }
                    },
                    Some((p, prev_age)) => {
                        assert(neighbours(rows@, p, key));
                        if age >= prev_age {
                            assert forall|c: u8, d: u8|
                                neighbours(rows@, c, d) && rows@[d] >= rows@[c] implies key
                                <= d by {
                                if d < key {
                                    assert(rows@[d] < rows@[c]);
                                }
                            }
                            return Some((p, prev_age, key, age));
                        }
                        assert forall|c: u8, d: u8| neighbours(rows@, c, d) && d < k + 1 implies rows@[d]
                            < rows@[c] by {
                            if d == key {
                                if c < p {
                                    assert(c < p < d && rows@.contains_key(p));
                                } else if c > p {
                                    assert(!rows@.contains_key(c));
                                }
                            }
                        }
                    },
                }
                prev = Some((key, age));
            },
        }
        k += 1;
    }
    None
}

/// Whether ages fall strictly from each row to the next.
pub fn ages_fall(rows: &Thresholds) -> (r: bool)
    ensures
        r == strictly_decreasing(rows@),
{
    match first_rise(rows) {
        None => true,
        Some((a, _, b, _)) => {
            assert(neighbours(rows@, a, b) && rows@[b] >= rows@[a]);
            false
        },
    }
}

/// Reads the arguments into a table, or says what is wrong with them.
///
/// The arguments are read in order; the first faulty one is reported. Where
/// all are well formed, the ages of the resulting table must fall strictly
/// with rising utilization, and the first pair of neighbours that breaks
/// this is reported.
pub fn try_parse_user_thresholds(args: &Vec<String>, delim: char) -> (r: Result<
    Thresholds,
    ThresholdError,
>)
    ensures
        match r {
            Ok(table) => rows_of(args@, delim) == Ok::<Map<u8, u64>, ThresholdError>(table@)
                && strictly_decreasing(table@),
            Err(ThresholdError::NotDecreasing { prev_utilization, prev_age, utilization, age }) => {
                &&& rows_of(args@, delim) is Ok
                &&& neighbours(rows_of(args@, delim)->Ok_0, prev_utilization, utilization)
                &&& rows_of(args@, delim)->Ok_0[prev_utilization] == prev_age
                &&& rows_of(args@, delim)->Ok_0[utilization] == age
                &&& age >= prev_age
                &&& forall|c: u8, d: u8|
                    neighbours(rows_of(args@, delim)->Ok_0, c, d) && rows_of(args@, delim)->Ok_0[d]
                        >= rows_of(args@, delim)->Ok_0[c] ==> utilization <= d
            },
            Err(e) => rows_of(args@, delim) == Err::<Map<u8, u64>, ThresholdError>(e),
        },
{
    let mut table: Thresholds = BTreeMap::new();
    table.insert(0, u64::MAX);
    table.insert(100, 0);
    assert(table@ =~= default_rows());
    let mut i: usize = 0;
    while i < args.len()
        invariant
            0 <= i <= args.len(),
            rows_of(args@.take(i as int), delim) == Ok::<Map<u8, u64>, ThresholdError>(table@),
        decreases args.len() - i,
    {
        let ghost upto = args@.take(i + 1);
        assert(upto.drop_last() =~= args@.take(i as int));
        assert(upto.last() == args@[i as int]);
        match parse_row(args[i].as_str(), delim, i) {
            Err(e) => {
                proof {
                    lemma_rows_error_prefix(args@, i + 1, delim);
                }
                return Err(e);
            },
            Ok((utilization, age)) => {
                table.insert(utilization, age);
            },
        }
        i += 1;
    }
    assert(args@.take(args@.len() as int) =~= args@);
    match first_rise(&table) {
        None => Ok(table),
        Some((prev_utilization, prev_age, utilization, age)) => Err(
            ThresholdError::NotDecreasing { prev_utilization, prev_age, utilization, age },
        ),
    }
}

/// An error met among the first `k` arguments is the error of all of them.
pub proof fn lemma_rows_error_prefix(args: Seq<String>, k: int, delim: char)
    requires
        0 <= k <= args.len(),
        rows_of(args.take(k), delim) is Err,
    ensures
        rows_of(args, delim) == rows_of(args.take(k), delim),
    decreases args.len() - k,
{
    if k == args.len() {
        assert(args.take(k) =~= args);
    } else {
        assert(args.drop_last().take(k) =~= args.take(k));
        lemma_rows_error_prefix(args.drop_last(), k, delim);
    }
}

/// Reads the arguments into a table. The arguments must be well formed and
/// spell a table whose ages fall strictly with rising utilization.
pub fn parse_user_thresholds(args: &Vec<String>, delim: char) -> (table: Thresholds)
    requires
        rows_of(args@, delim) is Ok,
        strictly_decreasing(rows_of(args@, delim)->Ok_0),
    ensures
        rows_of(args@, delim) == Ok::<Map<u8, u64>, ThresholdError>(table@),
{
    match try_parse_user_thresholds(args, delim) {
        Ok(table) => table,
        Err(_) => vstd::pervasive::unreached(),
    }
}

/// The age limit of the first row at or above `utilization`, if there is
/// such a row.
pub fn find_age(thresholds: &Thresholds, utilization: u8) -> (r: Option<u64>)
    ensures
        match r {
            Some(age) => exists|k: u8| covering_row(thresholds@, utilization, k) && age == thresholds@[k],
            None => forall|k: u8| utilization <= k ==> !thresholds@.contains_key(k),
        },
{
    let mut k: u16 = utilization as u16;
    while k < 256
        invariant
            utilization <= k <= 256,
            forall|j: u8| utilization <= j < k ==> !thresholds@.contains_key(j),
        decreases 256 - k,
    {
        let key: u8 = k as u8;
        match thresholds.get(&key) {
            Some(age) => {
                assert(covering_row(thresholds@, utilization, key));
                return Some(*age);
            },
            None => {},
        }
        k += 1;
    }
    None
}

/// The age limit that applies at `utilization`: that of the first row at or
/// above it. Some row must stand there.
pub fn util2age(thresholds: &Thresholds, utilization: u8) -> (age: u64)
    requires
        exists|k: u8| utilization <= k && thresholds@.contains_key(k),
    ensures
        exists|k: u8| covering_row(thresholds@, utilization, k) && age == thresholds@[k],
{
    match find_age(thresholds, utilization) {
        Some(age) => age,
        None => vstd::pervasive::unreached(),
    }
}

/// At most one row covers a utilization, so `util2age` has one answer.
pub proof fn law_covering_row_unique(rows: Map<u8, u64>, utilization: u8, a: u8, b: u8)
    requires
        covering_row(rows, utilization, a),
        covering_row(rows, utilization, b),
    ensures
        a == b,
{
}

} // verus!
