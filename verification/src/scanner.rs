//! The configuration of the object scanner: the time that ages are
//! measured from, the flush thresholds, and the names to leave alone.
//!
//! The configuration is written as lines of the form `label: value`.
//! Empty lines and lines that start with `#` say nothing.
use crate::format::Duration;
use crate::template::{compiles, has_match, regex_is_match, Pattern};
use crate::text::{
    chars_of, find_char, parse_bounded, parse_unsigned, range_equals, substring, trim_range,
    trimmed, IntErrorKind,
};
use crate::thresholds::{
    covering_row, default_rows, find_age, first_delim, lemma_first_delim_is, strictly_decreasing,
    Thresholds,
};
use std::collections::BTreeMap;
use vstd::prelude::*;

verus! {

/// What separates a label from its value.
pub const LABEL_DELIM: char = ':';

/// What separates a utilization from its age.
pub const THRESHOLD_DELIM: char = ',';

/// Why a line is no line of a configuration.
#[derive(Clone, Copy, Debug, PartialEq, Eq, Structural)]
pub enum LineError {
    /// The line holds no `:`.
    NoSeparator,
    /// The label is none of `reftime`, `threshold`, `blacklist`.
    UnknownLabel,
    /// The value of `reftime` is no number of seconds.
    BadReftime(IntErrorKind),
    /// The value of `threshold` holds no `,`.
    BadPair,
    /// The utilization of a threshold is no `u8`.
    BadUtilization(IntErrorKind),
    /// The utilization of a threshold is above 100%.
    UtilizationRange(u8),
    /// The age of a threshold is no `u64`.
    BadAge(IntErrorKind),
    /// The value of `blacklist` is no regular expression.
    BadPattern,
}

/// What a line asks for.
pub enum LineMeaning {
    /// Nothing: the line is empty or a comment.
    Nothing,
    Reftime(u64),
    Threshold(u8, u64),
    /// The pattern of a name to leave alone, as text.
    Blacklist(Seq<char>),
}

/// The row that a threshold value spells: a utilization and an age, each
/// with white space around it left out.
pub open spec fn threshold_of(value: Seq<char>) -> Result<(u8, u64), LineError> {
    let pair = trimmed(value);
    let at = first_delim(pair, THRESHOLD_DELIM);
    if at >= pair.len() {
        Err(LineError::BadPair)
    } else {
        match parse_unsigned(trimmed(pair.subrange(0, at)), u8::MAX as nat) {
            Err(kind) => Err(LineError::BadUtilization(kind)),
            Ok(utilization) => if utilization > 100 {
                Err(LineError::UtilizationRange(utilization as u8))
            } else {
                match parse_unsigned(
                    trimmed(pair.subrange(at + 1, pair.len() as int)),
                    u64::MAX as nat,
                ) {
                    Err(kind) => Err(LineError::BadAge(kind)),
                    Ok(age) => Ok((utilization as u8, age as u64)),
                }
            },
        }
    }
}

/// What a line means, or why it means nothing that a configuration
/// could hold.
pub open spec fn line_meaning(line: Seq<char>) -> Result<LineMeaning, LineError> {
    let at = first_delim(line, LABEL_DELIM);
    if line.len() == 0 || line[0] == '#' {
        Ok(LineMeaning::Nothing)
    } else if at >= line.len() {
        Err(LineError::NoSeparator)
    } else {
        let label = trimmed(line.subrange(0, at));
        let value = line.subrange(at + 1, line.len() as int);
        if label == "reftime"@ {
            match parse_unsigned(trimmed(value), u64::MAX as nat) {
                Err(kind) => Err(LineError::BadReftime(kind)),
                Ok(secs) => Ok(LineMeaning::Reftime(secs as u64)),
            }
        } else if label == "threshold"@ {
            match threshold_of(value) {
                Err(e) => Err(e),
                Ok((utilization, age)) => Ok(LineMeaning::Threshold(utilization, age)),
            }
        } else if label == "blacklist"@ {
            if compiles(trimmed(value)) {
                Ok(LineMeaning::Blacklist(trimmed(value)))
            } else {
                Err(LineError::BadPattern)
            }
        } else {
            Err(LineError::UnknownLabel)
        }
    }
}

/// The configuration of the object scanner.
pub struct Config {
    reftime: Duration,
    thresholds: Thresholds,
    blacklist: Vec<Pattern>,
}

/// What a configuration holds.
pub struct ConfigView {
    /// The time that ages are measured from, since the Unix epoch.
    pub reftime: Duration,
    pub thresholds: Map<u8, u64>,
    /// The expressions for names to leave alone.
    pub blacklist: Seq<Pattern>,
}

/// The configuration after a line with the meaning `meaning`, where `added`
/// is the expression of a pattern that the line adds.
pub open spec fn config_after(before: ConfigView, meaning: LineMeaning, added: Pattern) -> ConfigView {
    match meaning {
        LineMeaning::Nothing => before,
        LineMeaning::Reftime(secs) => ConfigView {
            reftime: Duration { secs, nanos: 0 },
            ..before
        },
        LineMeaning::Threshold(utilization, age) => ConfigView {
            thresholds: before.thresholds.insert(utilization, age),
            ..before
        },
        LineMeaning::Blacklist(_) => ConfigView { blacklist: before.blacklist.push(added), ..before },
    }
}

/// Whether some expression of `blacklist` matches `name`.
pub open spec fn blacklisted(blacklist: Seq<Pattern>, name: Seq<char>) -> bool {
    exists|i: int| 0 <= i < blacklist.len() && has_match((#[trigger] blacklist[i]).source(), name)
}

impl View for Config {
    type V = ConfigView;

    closed spec fn view(&self) -> ConfigView {
        ConfigView {
            reftime: self.reftime,
            thresholds: self.thresholds@,
            blacklist: self.blacklist@,
        }
    }
}

/// Reads the value of a `threshold` line.
fn read_threshold(v: &Vec<char>, from: usize, to: usize) -> (r: Result<(u8, u64), LineError>)
    requires
        from <= to <= v.len(),
    ensures
        r == threshold_of(v@.subrange(from as int, to as int)),
{
    let (start, end) = trim_range(v, from, to);
    let ghost pair = v@.subrange(start as int, end as int);
    let at = find_char(v, start, THRESHOLD_DELIM);
    let at: usize = if at > end {
        end
    } else {
        at
    };
    proof {
        assert forall|j: int| 0 <= j < at - start implies pair[j] != THRESHOLD_DELIM by {
            assert(pair[j] == v@[start + j]);
        }
        lemma_first_delim_is(pair, THRESHOLD_DELIM, at - start);
    }
    if at >= end {
        return Err(LineError::BadPair);
    }
    let (us, ue) = trim_range(v, start, at);
    let (als, ale) = trim_range(v, at + 1, end);
    proof {
        assert(v@.subrange(start as int, at as int) =~= pair.subrange(0, at - start));
        assert(v@.subrange(at + 1, end as int) =~= pair.subrange(at - start + 1, pair.len() as int));
    }
    let percent: u8 = match parse_bounded(v, us, ue, 255) {
        Err(kind) => {
            return Err(LineError::BadUtilization(kind));
        },
        Ok(n) => n as u8,
    };
    if percent > 100 {
        return Err(LineError::UtilizationRange(percent));
    }
    match parse_bounded(v, als, ale, u64::MAX) {
        Err(kind) => Err(LineError::BadAge(kind)),
        Ok(secs) => Ok((percent, secs)),
    }
}

impl Config {
    /// A configuration with the default thresholds, no name to leave
    /// alone, and the Unix epoch as the time to measure from.
    pub fn new() -> (config: Config)
        ensures
            config@ == (ConfigView {
                reftime: Duration { secs: 0, nanos: 0 },
                thresholds: default_rows(),
                blacklist: Seq::empty(),
            }),
    {
        let mut thresholds: Thresholds = BTreeMap::new();
        thresholds.insert(0, u64::MAX);
        thresholds.insert(100, 0);
        assert(thresholds@ =~= default_rows());
        Config { reftime: Duration::from_secs(0), thresholds, blacklist: Vec::new() }
    }

    /// The time that ages are measured from.
    pub fn reftime(&self) -> (r: Duration)
        ensures
            r == self@.reftime,
    {
        self.reftime
    }

    /// The flush thresholds.
    pub fn thresholds(&self) -> (r: &Thresholds)
        ensures
            r@ == self@.thresholds,
    {
        &self.thresholds
    }

    /// The expressions for names to leave alone.
    pub fn blacklist(&self) -> (r: &Vec<Pattern>)
        ensures
            r@ == self@.blacklist,
    {
        &self.blacklist
    }

    /// Sets the time that ages are measured from, in seconds since the
    /// Unix epoch.
    pub fn set_reftime(&mut self, reftime: u64)
        ensures
            final(self)@ == (ConfigView {
                reftime: Duration { secs: reftime, nanos: 0 },
                ..old(self)@
            }),
    {
        self.reftime = Duration::from_secs(reftime);
    }

    /// Adds a threshold, from its written form `<utilization>,<age>`.
    pub fn add_to_threshold(&mut self, pair_str: &str) -> (r: Result<(), LineError>)
        ensures
            match threshold_of(pair_str@) {
                Ok((utilization, age)) => r is Ok && final(self)@ == (ConfigView {
                    thresholds: old(self)@.thresholds.insert(utilization, age),
                    ..old(self)@
                }),
                Err(e) => r == Err::<(), LineError>(e) && final(self)@ == old(self)@,
            },
    {
        let v = chars_of(pair_str);
        assert(v@.subrange(0, v@.len() as int) =~= pair_str@);
        match read_threshold(&v, 0, v.len()) {
            Err(e) => Err(e),
            Ok((utilization, age)) => {
                self.thresholds.insert(utilization, age);
                Ok(())
            },
        }
    }

    /// Adds the pattern of a name to leave alone, white space around it
    /// left out.
    pub fn add_to_blacklist(&mut self, regex: &str) -> (r: Result<(), LineError>)
        ensures
            r is Ok == compiles(trimmed(regex@)),
            r is Err ==> r->Err_0 == LineError::BadPattern && final(self)@ == old(self)@,
            r is Ok ==> {
                &&& final(self)@.reftime == old(self)@.reftime
                &&& final(self)@.thresholds == old(self)@.thresholds
                &&& final(self)@.blacklist.len() == old(self)@.blacklist.len() + 1
                &&& final(self)@.blacklist.drop_last() == old(self)@.blacklist
                &&& final(self)@.blacklist.last().source() == trimmed(regex@)
            },
    {
        let v = chars_of(regex);
        let (start, end) = trim_range(&v, 0, v.len());
        assert(v@.subrange(0, v@.len() as int) =~= regex@);
        let pattern = substring(&v, start, end);
        match Pattern::new(pattern.as_str()) {
            Err(_) => Err(LineError::BadPattern),
            Ok(re) => {
                let ghost before = self.blacklist@;
                self.blacklist.push(re);
                assert(self.blacklist@.drop_last() =~= before);
                Ok(())
            },
        }
    }

    /// Takes in one line of a configuration.
    pub fn process_line(&mut self, line: &str) -> (r: Result<(), LineError>)
        ensures
            match line_meaning(line@) {
                Err(e) => r == Err::<(), LineError>(e) && final(self)@ == old(self)@,
                Ok(meaning) => r is Ok && exists|added: Pattern| #[trigger]
                    config_after(old(self)@, meaning, added) == final(self)@ && (meaning
                        is Blacklist ==> added.source() == meaning->Blacklist_0),
            },
    {
        let ghost before = self@;
        let v = chars_of(line);
        if v.len() == 0 || v[0] == '#' {
            assert(config_after(before, LineMeaning::Nothing, arbitrary()) == self@);
            return Ok(());
        }
        let at = find_char(&v, 0, LABEL_DELIM);
        proof {
            lemma_first_delim_is(v@, LABEL_DELIM, at as int);
        }
        if at >= v.len() {
            return Err(LineError::NoSeparator);
        }
        let (ls, le) = trim_range(&v, 0, at);
        let reftime = chars_of("reftime");
        let threshold = chars_of("threshold");
        let blacklist = chars_of("blacklist");
        if range_equals(&v, ls, le, &reftime) {
            let (vs, ve) = trim_range(&v, at + 1, v.len());
            match parse_bounded(&v, vs, ve, u64::MAX) {
                Err(kind) => Err(LineError::BadReftime(kind)),
                Ok(secs) => {
                    self.set_reftime(secs);
                    assert(config_after(before, LineMeaning::Reftime(secs), arbitrary()) == self@);
                    Ok(())
                },
            }
        } else if range_equals(&v, ls, le, &threshold) {
            match read_threshold(&v, at + 1, v.len()) {
                Err(e) => Err(e),
                Ok((utilization, age)) => {
                    self.thresholds.insert(utilization, age);
                    assert(config_after(
                        before,
                        LineMeaning::Threshold(utilization, age),
                        arbitrary(),
                    ) == self@);
                    Ok(())
                },
            }
        } else if range_equals(&v, ls, le, &blacklist) {
            let (vs, ve) = trim_range(&v, at + 1, v.len());
            let pattern = substring(&v, vs, ve);
            match Pattern::new(pattern.as_str()) {
                Err(_) => Err(LineError::BadPattern),
                Ok(re) => {
                    let ghost added = re;
                    self.blacklist.push(re);
                    assert(config_after(before, LineMeaning::Blacklist(pattern@), added) == self@);
                    Ok(())
                },
            }
        } else {
            Err(LineError::UnknownLabel)
        }
    }

    /// Whether the ages of the thresholds fall strictly as utilization
    /// rises; to be asked when every line has been taken in.
    pub fn verify_thresholds(&self) -> (r: bool)
        ensures
            r == strictly_decreasing(self@.thresholds),
    {
        crate::thresholds::ages_fall(&self.thresholds)
    }

    /// How long before the time to measure from `timestamp` lies; nothing
    /// where it lies after it.
    pub fn file_age(&self, timestamp: &Duration) -> (r: Option<Duration>)
        ensures
            r == if timestamp.total_nanos() <= self@.reftime.total_nanos() {
                Some(
                    Duration::of_nanos(
                        (self@.reftime.total_nanos() - timestamp.total_nanos()) as nat,
                    ),
                )
            } else {
                None
            },
    {
        if self.reftime.at_least(timestamp) {
            Some(self.reftime.since(timestamp))
        } else {
            None
        }
    }

    /// The age limit that applies at `utilization`: that of the first
    /// threshold at or above it. Some threshold must stand there.
    pub fn util2age(&self, utilization: u8) -> (age: u64)
        requires
            exists|k: u8| utilization <= k && self@.thresholds.contains_key(k),
        ensures
            exists|k: u8| covering_row(self@.thresholds, utilization, k) && age == self@.thresholds[k],
    {
        crate::thresholds::util2age(&self.thresholds, utilization)
    }

    /// The age limit that applies at `utilization`, if any does.
    pub fn find_age(&self, utilization: u8) -> (r: Option<u64>)
        ensures
            match r {
                Some(age) => exists|k: u8|
                    covering_row(self@.thresholds, utilization, k) && age == self@.thresholds[k],
                None => forall|k: u8| utilization <= k ==> !self@.thresholds.contains_key(k),
            },
    {
        let r = find_age(&self.thresholds, utilization);
        proof {
            if r is Some {
                let k = choose|k: u8|
                    covering_row(self.thresholds@, utilization, k) && r->Some_0
                        == self.thresholds@[k];
                assert(covering_row(self@.thresholds, utilization, k) && r->Some_0
                    == self@.thresholds[k]);
            }
        }
        r
    }

    /// Whether a file of the name `file_name` is to be left alone: some
    /// expression of the blacklist matches the name.
    pub fn is_blacklisted(&self, file_name: &str) -> (r: bool)
        ensures
            r == blacklisted(self@.blacklist, file_name@),
    {
        let mut i: usize = 0;
        while i < self.blacklist.len()
            invariant
                0 <= i <= self.blacklist.len(),
                forall|j: int|
                    0 <= j < i ==> !has_match((#[trigger] self.blacklist@[j]).source(), file_name@),
            decreases self.blacklist.len() - i,
        {
            if regex_is_match(&self.blacklist[i], file_name) {
                return true;
            }
            i += 1;
        }
        false
    }
}

} // verus!
