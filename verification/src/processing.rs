//! The staging area below the processing directory, as a value.
//!
//! A path of the staging area has the form
//! `<processing_subdir>/<host>/PID<pid>/<timestamp>/<element>`, where the
//! element is `original/<relative path>`, `filtered`, `subtask.<n>`,
//! `subtask.<n>/input` or `subtask.<n>/output`. A path that stops before
//! the element names a directory on the way.
//!
//! The timestamp is written and read in local time by the `chrono` crate.
use crate::format::{Duration, NANOS_PER_SEC};
use crate::text::{
    chars_of, decimal, find_char, is_digit, law_decimal_parses_back, lemma_decimal_digits,
    parse_bounded, parse_unsigned, push_decimal, push_str, range_equals, same_text,
    string_from_chars, substring, IntErrorKind,
};
use chrono::{DateTime, Local};
use vstd::prelude::*;

verus! {

/// The latest second that a timestamp of the staging area may name: the
/// last second of the year 9999.
pub const MAX_STAMP_SECS: u64 = 253_402_300_799;

/// What a path of the staging area names below its timestamp directory.
#[derive(Debug)]
pub enum ProcessingPathElement {
    /// A directory on the way to an element.
    IntermediateDir,
    /// The task file as it was found, under its path relative to the input
    /// directory.
    OriginalTaskfile(String),
    /// The lines of the task file that were accepted.
    FilteredTaskfile,
    SubTaskDir(usize),
    SubTaskInput(usize),
    SubTaskOutput(usize),
}

/// A place in the staging area of this host.
///
/// With neither process nor timestamp it is the host's directory, with a
/// process alone that process's directory; with both, any element.
#[derive(Debug)]
pub struct ProcessingPath {
    process: Option<u32>,
    timestamp: Option<Duration>,
    pub element: ProcessingPathElement,
}

/// What a place names below its timestamp directory, as a value of
/// specifications.
pub enum ElementView {
    IntermediateDir,
    OriginalTaskfile(Seq<char>),
    FilteredTaskfile,
    SubTaskDir(usize),
    SubTaskInput(usize),
    SubTaskOutput(usize),
}

/// A place in the staging area, as a value of specifications.
pub struct PathView {
    pub process: Option<u32>,
    pub timestamp: Option<Duration>,
    pub element: ElementView,
}

impl View for ProcessingPathElement {
    type V = ElementView;

    open spec fn view(&self) -> ElementView {
        match *self {
            ProcessingPathElement::IntermediateDir => ElementView::IntermediateDir,
            ProcessingPathElement::OriginalTaskfile(path) => ElementView::OriginalTaskfile(path@),
            ProcessingPathElement::FilteredTaskfile => ElementView::FilteredTaskfile,
            ProcessingPathElement::SubTaskDir(n) => ElementView::SubTaskDir(n),
            ProcessingPathElement::SubTaskInput(n) => ElementView::SubTaskInput(n),
            ProcessingPathElement::SubTaskOutput(n) => ElementView::SubTaskOutput(n),
        }
    }
}

impl View for ProcessingPath {
    type V = PathView;

    closed spec fn view(&self) -> PathView {
        PathView { process: self.process, timestamp: self.timestamp, element: self.element@ }
    }
}

/// Why a path is no place in the staging area of this host.
#[derive(Clone, Copy, Debug, PartialEq, Eq, Structural)]
pub enum PathError {
    /// The path does not lie below the processing directory.
    OutsideProcessing,
    /// The path does not lie below this host's directory.
    OutsideHost,
    /// The directory below the host's does not start with `PID`.
    NoPidPrefix,
    /// What follows `PID` is no process number.
    BadPid(IntErrorKind),
    /// The directory below the process's is no timestamp.
    BadTimestamp,
    /// The element is none of `original`, `filtered`, `subtask.<n>`.
    UnknownElement,
    /// What follows `subtask.` is no number.
    BadSubtaskNumber,
    /// More than one name follows the subtask's directory.
    TooDeep,
    /// The name below the subtask's directory is neither `input` nor `output`.
    UnknownSubtaskElement,
}

/// Whether a process, a timestamp and an element go together: an element
/// other than a directory on the way needs both, and a timestamp needs a
/// process.
pub open spec fn valid_place(
    process: Option<u32>,
    timestamp: Option<Duration>,
    element: ElementView,
) -> bool {
    match (process, timestamp) {
        (Some(_), Some(_)) => true,
        (_, None) => element is IntermediateDir,
        (None, Some(_)) => false,
    }
}

/// Whether a timestamp can be written into a path.
pub open spec fn writable_stamp(stamp: Duration) -> bool {
    stamp.wf() && stamp.secs <= MAX_STAMP_SECS
}

/// Position of the first `/` in `s`, or `s.len()` where there is none.
pub open spec fn first_slash(s: Seq<char>) -> int
    decreases s.len(),
{
    if s.len() == 0 {
        0
    } else if s[0] == '/' {
        0
    } else {
        1 + first_slash(s.drop_first())
    }
}

/// The names that a path is made of: the parts between its slashes, empty
/// parts and parts that are a single dot left out.
pub open spec fn segments(s: Seq<char>) -> Seq<Seq<char>>
    decreases s.len(),
{
    if s.len() == 0 {
        Seq::empty()
    } else {
        let cut = first_slash(s);
        let head = s.take(cut);
        let rest = if 0 <= cut < s.len() {
            segments(s.skip(cut + 1))
        } else {
            Seq::empty()
        };
        if head.len() == 0 || head == seq!['.'] {
            rest
        } else {
            seq![head] + rest
        }
    }
}

/// Whether a path starts at the root.
pub open spec fn rooted(s: Seq<char>) -> bool {
    s.len() > 0 && s[0] == '/'
}

/// The names joined by slashes.
pub open spec fn join_segments(names: Seq<Seq<char>>) -> Seq<char>
    decreases names.len(),
{
    if names.len() == 0 {
        Seq::empty()
    } else if names.len() == 1 {
        names[0]
    } else {
        join_segments(names.drop_last()) + seq!['/'] + names.last()
    }
}

/// Whether the names `b` start with the names `a`.
pub open spec fn is_prefix_of(a: Seq<Seq<char>>, b: Seq<Seq<char>>) -> bool {
    a.len() <= b.len() && b.take(a.len() as int) == a
}

/// Whether the text `s` starts with `prefix`.
pub open spec fn starts_with(s: Seq<char>, prefix: Seq<char>) -> bool {
    prefix.len() <= s.len() && s.take(prefix.len() as int) == prefix
}

/// Whether a character can stand in the text of a moment: a digit, a
/// sign, or one of `:`, `.` and `T`.
pub open spec fn is_moment_char(c: char) -> bool {
    is_digit(c) || c == '+' || c == '-' || c == ':' || c == '.' || c == 'T'
}

/// Whether a text has the shape in which a moment is written: the date,
/// `T`, the time and the offset from UTC, which come to 25 characters at
/// least, each of them one that can stand there.
pub open spec fn moment_shaped(text: Seq<char>) -> bool {
    &&& text.len() >= 25
    &&& forall|i: int| 0 <= i < text.len() ==> is_moment_char(#[trigger] text[i])
}

/// The seconds and nanoseconds since the Unix epoch of the moment that a
/// text names, as `str::parse::<DateTime<Local>>` reads it and
/// `DateTime::timestamp` and `DateTime::timestamp_subsec_nanos` report it;
/// nothing where the text names no moment.
pub uninterp spec fn parsed_timestamp(text: Seq<char>) -> Option<(i64, u32)>;

/// The timestamp that a parsed moment stands for: none for a moment before
/// the epoch; a leap second's extra nanoseconds are carried into the
/// seconds.
pub open spec fn stamp_of(parsed: Option<(i64, u32)>) -> Option<Duration> {
    match parsed {
        Some((secs, nanos)) => if secs < 0 {
            None
        } else {
            Some(
                Duration {
                    secs: (secs + nanos / NANOS_PER_SEC) as u64,
                    nanos: nanos % NANOS_PER_SEC,
                },
            )
        },
        None => None,
    }
}

/// The element that the names below a timestamp directory spell.
pub open spec fn element_of(rest: Seq<Seq<char>>) -> Result<ElementView, PathError> {
    if rest.len() == 0 {
        Ok(ElementView::IntermediateDir)
    } else if rest[0] == "original"@ {
        Ok(ElementView::OriginalTaskfile(join_segments(rest.skip(1))))
    } else if rest[0] == "filtered"@ && rest.len() == 1 {
        Ok(ElementView::FilteredTaskfile)
    } else if !starts_with(rest[0], "subtask."@) {
        Err(PathError::UnknownElement)
    } else {
        match parse_unsigned(rest[0].skip("subtask."@.len() as int), usize::MAX as nat) {
            Err(_) => Err(PathError::BadSubtaskNumber),
            Ok(n) => if rest.len() == 1 {
                Ok(ElementView::SubTaskDir(n as usize))
            } else if rest.len() > 2 {
                Err(PathError::TooDeep)
            } else if rest[1] == "input"@ {
                Ok(ElementView::SubTaskInput(n as usize))
            } else if rest[1] == "output"@ {
                Ok(ElementView::SubTaskOutput(n as usize))
            } else {
                Err(PathError::UnknownSubtaskElement)
            },
        }
    }
}

/// The place that the names below the host's directory spell.
pub open spec fn place_of(rest: Seq<Seq<char>>) -> Result<PathView, PathError> {
    if rest.len() == 0 {
        Ok(PathView { process: None, timestamp: None, element: ElementView::IntermediateDir })
    } else if !starts_with(rest[0], "PID"@) {
        Err(PathError::NoPidPrefix)
    } else {
        match parse_unsigned(rest[0].skip("PID"@.len() as int), u32::MAX as nat) {
            Err(kind) => Err(PathError::BadPid(kind)),
            Ok(pid) => if rest.len() == 1 {
                Ok(
                    PathView {
                        process: Some(pid as u32),
                        timestamp: None,
                        element: ElementView::IntermediateDir,
                    },
                )
            } else {
                match stamp_of(parsed_timestamp(rest[1])) {
                    None => Err(PathError::BadTimestamp),
                    Some(stamp) => match element_of(rest.skip(2)) {
                        Err(e) => Err(e),
                        Ok(element) => Ok(
                            PathView {
                                process: Some(pid as u32),
                                timestamp: Some(stamp),
                                element,
                            },
                        ),
                    },
                }
            },
        }
    }
}

/// The place that `path` names in the staging area whose root is
/// `processing_subdir` and whose host directory is `host`.
pub open spec fn path_outcome(processing_subdir: Seq<char>, host: Seq<char>, path: Seq<char>) -> Result<
    PathView,
    PathError,
> {
    let names = segments(path);
    let root = segments(processing_subdir);
    let ours = segments(host);
    if rooted(path) != rooted(processing_subdir) || !is_prefix_of(root, names) {
        Err(PathError::OutsideProcessing)
    } else if rooted(host) || !is_prefix_of(ours, names.skip(root.len() as int)) {
        Err(PathError::OutsideHost)
    } else {
        place_of(names.skip((root.len() + ours.len()) as int))
    }
}

/// The text of an element below the timestamp directory `base`.
pub open spec fn element_text(base: Seq<char>, element: ElementView) -> Seq<char> {
    match element {
        ElementView::IntermediateDir => base,
        ElementView::OriginalTaskfile(path) => base + "/original/"@ + path,
        ElementView::FilteredTaskfile => base + "/filtered"@,
        ElementView::SubTaskDir(n) => base + "/subtask."@ + decimal(n as nat),
        ElementView::SubTaskInput(n) => base + "/subtask."@ + decimal(n as nat) + "/input"@,
        ElementView::SubTaskOutput(n) => base + "/subtask."@ + decimal(n as nat) + "/output"@,
    }
}

/// The path of a place, where `stamp` is the text of its timestamp.
pub open spec fn path_text(
    processing_subdir: Seq<char>,
    host: Seq<char>,
    place: PathView,
    stamp: Seq<char>,
) -> Seq<char> {
    let home = processing_subdir + seq!['/'] + host;
    match (place.process, place.timestamp) {
        (None, _) => home,
        (Some(pid), None) => home + "/PID"@ + decimal(pid as nat),
        (Some(pid), Some(_)) => element_text(
            home + "/PID"@ + decimal(pid as nat) + seq!['/'] + stamp,
            place.element,
        ),
    }
}

/// Writes a moment as `DateTime::<Local>::from` converts it and `{:?}`
/// formats it: the local date and time with the offset from UTC. Which
/// text that is depends on the time zone of the machine; stated is the
/// shape that the formatting gives it in every zone: the year in four
/// digits or more, month and day, `T`, hour, minute and second, a
/// fraction where there is one, and the offset with its sign.
#[verifier::external_body]
fn local_time_text(secs: u64, nanos: u32) -> (text: String)
    requires
        secs <= MAX_STAMP_SECS,
        nanos < NANOS_PER_SEC,
    ensures
        moment_shaped(text@),
{
    let moment = std::time::UNIX_EPOCH + std::time::Duration::new(secs, nanos);
    format!("{:?}", DateTime::<Local>::from(moment))
}

/// Reads a moment with `str::parse::<DateTime<Local>>`, and reports it by
/// `DateTime::timestamp` and `DateTime::timestamp_subsec_nanos`.
#[verifier::external_body]
fn parse_local_time(text: &str) -> (r: Option<(i64, u32)>)
    ensures
        r == parsed_timestamp(text@),
{
    text.parse::<DateTime<Local>>().ok().map(|dt| (dt.timestamp(), dt.timestamp_subsec_nanos()))
}

/// The first slash stands within the text or at its end, behind
/// characters that are no slash.
pub proof fn lemma_first_slash(s: Seq<char>)
    ensures
        0 <= first_slash(s) <= s.len(),
        forall|j: int| 0 <= j < first_slash(s) ==> s[j] != '/',
        first_slash(s) < s.len() ==> s[first_slash(s)] == '/',
    decreases s.len(),
{
    if s.len() > 0 && s[0] != '/' {
        let rest = s.drop_first();
        lemma_first_slash(rest);
        assert forall|j: int| 0 <= j < first_slash(s) implies s[j] != '/' by {
            if j > 0 {
                assert(rest[j - 1] == s[j]);
            }
        }
    }
}

proof fn lemma_first_slash_is(s: Seq<char>, at: int)
    requires
        0 <= at <= s.len(),
        forall|j: int| 0 <= j < at ==> s[j] != '/',
        at < s.len() ==> s[at] == '/',
    ensures
        first_slash(s) == at,
{
    lemma_first_slash(s);
    let f = first_slash(s);
    if f < at {
        assert(s[f] != '/');
    }
}

/// The names that a path is made of.
pub fn split_segments(path: &str) -> (names: Vec<String>)
    ensures
        names.deep_view() == segments(path@),
{
    let v = chars_of(path);
    let mut names: Vec<String> = Vec::new();
    let mut from: usize = 0;
    assert(v@.skip(0) =~= v@);
    assert(names.deep_view() + segments(v@.skip(0)) =~= segments(v@));
    while from < v.len()
        invariant
            0 <= from <= v.len(),
            v@ == path@,
            names.deep_view() + segments(v@.skip(from as int)) == segments(path@),
        decreases v.len() - from,
    {
        let ghost tail = v@.skip(from as int);
        let ghost before = names.deep_view();
        let cut = find_char(&v, from, '/');
        proof {
            assert forall|j: int| 0 <= j < cut - from implies tail[j] != '/' by {
                assert(tail[j] == v@[from + j]);
            }
            lemma_first_slash_is(tail, cut - from);
            assert(tail.take(cut - from) =~= v@.subrange(from as int, cut as int));
            if cut < v.len() {
                assert(tail.skip(cut - from + 1) =~= v@.skip(cut + 1));
            }
        }
        let dot: bool = cut - from == 1 && v[from] == '.';
        proof {
            let head = v@.subrange(from as int, cut as int);
            if dot {
                assert(head =~= seq!['.']);
            } else if head.len() == 1 {
                assert(head[0] != '.');
            }
        }
        if cut > from && !dot {
            let name = substring(&v, from, cut);
            names.push(name);
            assert(names.deep_view() =~= before + seq![v@.subrange(from as int, cut as int)]);
        }
        if cut < v.len() {
            from = cut + 1;
        } else {
            from = cut;
            assert(v@.skip(from as int) =~= Seq::<char>::empty());
        }
        assert(names.deep_view() + segments(v@.skip(from as int)) =~= segments(path@));
    }
    assert(v@.skip(from as int) =~= Seq::<char>::empty());
    assert(names.deep_view() + Seq::<Seq<char>>::empty() =~= names.deep_view());
    names
}

/// Whether the first `prefix.len()` names of `names[from..]` are `prefix`.
fn names_start_with(names: &Vec<String>, from: usize, prefix: &Vec<String>) -> (r: bool)
    requires
        from <= names.len(),
    ensures
        r == is_prefix_of(prefix.deep_view(), names.deep_view().skip(from as int)),
{
    let ghost all = names.deep_view().skip(from as int);
    let ghost want = prefix.deep_view();
    if prefix.len() > names.len() - from {
        return false;
    }
    let mut i: usize = 0;
    while i < prefix.len()
        invariant
            0 <= i <= prefix.len(),
            from + prefix.len() <= names.len(),
            all == names.deep_view().skip(from as int),
            want == prefix.deep_view(),
            forall|j: int| 0 <= j < i ==> all[j] == want[j],
        decreases prefix.len() - i,
    {
        assert(all[i as int] == names@[from + i]@);
        assert(want[i as int] == prefix@[i as int]@);
        if !same_text(names[from + i].as_str(), prefix[i].as_str()) {
            assert(all.take(want.len() as int)[i as int] != want[i as int]);
            return false;
        }
        i += 1;
    }
    assert(all.take(want.len() as int) =~= want);
    true
}

/// The characters of `name` after `prefix`, where `name` starts with it.
fn after_prefix(name: &str, prefix: &str) -> (r: Option<Vec<char>>)
    ensures
        match r {
            Some(rest) => starts_with(name@, prefix@) && rest@ == name@.skip(prefix@.len() as int),
            None => !starts_with(name@, prefix@),
        },
{
    let v = chars_of(name);
    let p = chars_of(prefix);
    if p.len() > v.len() {
        return None;
    }
    assert(v@.subrange(0, p.len() as int) =~= v@.take(p.len() as int));
    if !range_equals(&v, 0, p.len(), &p) {
        return None;
    }
    let mut rest: Vec<char> = Vec::new();
    crate::text::push_range(&mut rest, &v, p.len(), v.len());
    assert(rest@ =~= name@.skip(prefix@.len() as int));
    Some(rest)
}

/// `names[from..]` joined by slashes.
fn join_from(names: &Vec<String>, from: usize) -> (s: String)
    requires
        from <= names.len(),
    ensures
        s@ == join_segments(names.deep_view().skip(from as int)),
{
    let ghost all = names.deep_view().skip(from as int);
    let mut out: Vec<char> = Vec::new();
    let mut i: usize = from;
    assert(all.take(0) =~= Seq::<Seq<char>>::empty());
    while i < names.len()
        invariant
            from <= i <= names.len(),
            all == names.deep_view().skip(from as int),
            out@ == join_segments(all.take(i - from)),
        decreases names.len() - i,
    {
        let ghost upto = all.take(i - from + 1);
        assert(upto.drop_last() =~= all.take(i - from));
        assert(upto.last() == names@[i as int]@);
        if i > from {
            out.push('/');
        }
        push_str(&mut out, names[i].as_str());
        i += 1;
    }
    assert(all.take(all.len() as int) =~= all);
    string_from_chars(&out)
}

/// The timestamp that a parsed moment stands for.
fn stamp_from(parsed: Option<(i64, u32)>) -> (r: Option<Duration>)
    ensures
        r == stamp_of(parsed),
{
    match parsed {
        None => None,
        Some((secs, nanos)) => {
            if secs < 0 {
                None
            } else {
                Some(
                    Duration {
                        secs: secs as u64 + (nanos / NANOS_PER_SEC) as u64,
                        nanos: nanos % NANOS_PER_SEC,
                    },
                )
            }
        },
    }
}

/// Reads the names below a timestamp directory as an element.
fn read_element(names: &Vec<String>, from: usize) -> (r: Result<ProcessingPathElement, PathError>)
    requires
        from <= names.len(),
    ensures
        match element_of(names.deep_view().skip(from as int)) {
            Ok(element) => r is Ok && r->Ok_0@ == element,
            Err(e) => r == Err::<ProcessingPathElement, PathError>(e),
        },
{
    let ghost rest = names.deep_view().skip(from as int);
    if from == names.len() {
        return Ok(ProcessingPathElement::IntermediateDir);
    }
    let count: usize = names.len() - from;
    let first = names[from].as_str();
    assert(rest[0] == first@);
    if same_text(first, "original") {
        assert(rest.skip(1) =~= names.deep_view().skip(from + 1));
        return Ok(ProcessingPathElement::OriginalTaskfile(join_from(names, from + 1)));
    }
    if count == 1 && same_text(first, "filtered") {
        return Ok(ProcessingPathElement::FilteredTaskfile);
    }
    let digits = match after_prefix(first, "subtask.") {
        None => {
            return Err(PathError::UnknownElement);
        },
        Some(digits) => digits,
    };
    assert(digits@.subrange(0, digits@.len() as int) =~= digits@);
    let number: usize = match parse_bounded(&digits, 0, digits.len(), usize::MAX as u64) {
        Err(_) => {
            return Err(PathError::BadSubtaskNumber);
        },
        Ok(n) => n as usize,
    };
    if count == 1 {
        return Ok(ProcessingPathElement::SubTaskDir(number));
    }
    if count > 2 {
        return Err(PathError::TooDeep);
    }
    let second = names[from + 1].as_str();
    assert(rest[1] == second@);
    if same_text(second, "input") {
        Ok(ProcessingPathElement::SubTaskInput(number))
    } else if same_text(second, "output") {
        Ok(ProcessingPathElement::SubTaskOutput(number))
    } else {
        Err(PathError::UnknownSubtaskElement)
    }
}

impl ProcessingPath {
    /// Whether process, timestamp and element go together.
    pub open spec fn valid(&self) -> bool {
        valid_place(self@.process, self@.timestamp, self@.element)
    }

    /// A place in the staging area. An element other than a directory on
    /// the way needs a process and a timestamp, and a timestamp needs a
    /// process.
    pub fn new(process: Option<u32>, timestamp: Option<Duration>, element: ProcessingPathElement) -> (place:
        ProcessingPath)
        requires
            valid_place(process, timestamp, element@),
        ensures
            place@ == (PathView { process, timestamp, element: element@ }),
            place.valid(),
    {
        ProcessingPath { process, timestamp, element }
    }

    /// The process that the place belongs to.
    pub fn process(&self) -> (r: Option<u32>)
        ensures
            r == self@.process,
    {
        self.process
    }

    /// The timestamp of the task that the place belongs to.
    pub fn timestamp(&self) -> (r: Option<Duration>)
        ensures
            r == self@.timestamp,
    {
        self.timestamp
    }

    /// What the place names below its timestamp directory.
    pub fn element(&self) -> (r: &ProcessingPathElement)
        ensures
            r@ == self@.element,
    {
        &self.element
    }

    /// Reads the names below the host's directory as a place.
    fn from_names(names: &Vec<String>, from: usize) -> (r: Result<ProcessingPath, PathError>)
        requires
            from <= names.len(),
        ensures
            match place_of(names.deep_view().skip(from as int)) {
                Ok(place) => r is Ok && r->Ok_0@ == place,
                Err(e) => r == Err::<ProcessingPath, PathError>(e),
            },
    {
        let ghost rest = names.deep_view().skip(from as int);
        if from == names.len() {
            return Ok(
                ProcessingPath {
                    process: None,
                    timestamp: None,
                    element: ProcessingPathElement::IntermediateDir,
                },
            );
        }
        assert(rest[0] == names@[from as int]@);
        let digits = match after_prefix(names[from].as_str(), "PID") {
            None => {
                return Err(PathError::NoPidPrefix);
            },
            Some(digits) => digits,
        };
        assert(digits@.subrange(0, digits@.len() as int) =~= digits@);
        let pid: u32 = match parse_bounded(&digits, 0, digits.len(), u32::MAX as u64) {
            Err(kind) => {
                return Err(PathError::BadPid(kind));
            },
            Ok(n) => n as u32,
        };
        if names.len() - from == 1 {
            return Ok(
                ProcessingPath {
                    process: Some(pid),
                    timestamp: None,
                    element: ProcessingPathElement::IntermediateDir,
                },
            );
        }
        assert(rest[1] == names@[from + 1]@);
        let stamp = match stamp_from(parse_local_time(names[from + 1].as_str())) {
            None => {
                return Err(PathError::BadTimestamp);
            },
            Some(stamp) => stamp,
        };
        assert(rest.skip(2) =~= names.deep_view().skip(from + 2));
        match read_element(names, from + 2) {
            Err(e) => Err(e),
            Ok(element) => Ok(ProcessingPath { process: Some(pid), timestamp: Some(stamp), element }),
        }
    }

    /// Reads `path` as a place in the staging area of `host` below
    /// `processing_subdir`.
    pub fn try_from(path: &str, processing_subdir: &str, host: &str) -> (r: Result<
        ProcessingPath,
        PathError,
    >)
        ensures
            match path_outcome(processing_subdir@, host@, path@) {
                Ok(place) => r is Ok && r->Ok_0@ == place,
                Err(e) => r == Err::<ProcessingPath, PathError>(e),
            },
            r matches Ok(place) ==> place.valid(),
    {
        let names = split_segments(path);
        let root = split_segments(processing_subdir);
        let ours = split_segments(host);
        let path_rooted = is_rooted(path);
        let dir_rooted = is_rooted(processing_subdir);
        assert(names.deep_view().skip(0) =~= names.deep_view());
        if path_rooted != dir_rooted || !names_start_with(&names, 0, &root) {
            return Err(PathError::OutsideProcessing);
        }
        if is_rooted(host) || !names_start_with(&names, root.len(), &ours) {
            return Err(PathError::OutsideHost);
        }
        assert(names.deep_view().skip(root.len() as int).take(ours.len() as int).len()
            == ours.len());
        Self::from_names(&names, root.len() + ours.len())
    }

    /// The path of this place, where `stamp` is the text of its timestamp.
    pub fn to_path_with(&self, processing_subdir: &str, host: &str, stamp: &str) -> (path: String)
        requires
            self.valid(),
        ensures
            path@ == path_text(processing_subdir@, host@, self@, stamp@),
    {
        let mut out: Vec<char> = Vec::new();
        push_str(&mut out, processing_subdir);
        out.push('/');
        push_str(&mut out, host);
        let ghost home = processing_subdir@ + seq!['/'] + host@;
        assert(out@ =~= home);
        let pid: u32 = match self.process {
            None => {
                return string_from_chars(&out);
            },
            Some(pid) => pid,
        };
        push_str(&mut out, "/PID");
        push_decimal(&mut out, pid as u64);
        if self.timestamp.is_none() {
            assert(out@ =~= home + "/PID"@ + decimal(pid as nat));
            return string_from_chars(&out);
        }
        out.push('/');
        push_str(&mut out, stamp);
        let ghost base = home + "/PID"@ + decimal(pid as nat) + seq!['/'] + stamp@;
        assert(out@ =~= base);
        match &self.element {
            ProcessingPathElement::IntermediateDir => {},
            ProcessingPathElement::OriginalTaskfile(path) => {
                push_str(&mut out, "/original/");
                push_str(&mut out, path.as_str());
                assert(out@ =~= base + "/original/"@ + path@);
            },
            ProcessingPathElement::FilteredTaskfile => {
                push_str(&mut out, "/filtered");
            },
            ProcessingPathElement::SubTaskDir(n) => {
                push_str(&mut out, "/subtask.");
                push_decimal(&mut out, *n as u64);
                assert(out@ =~= base + "/subtask."@ + decimal(*n as nat));
            },
            ProcessingPathElement::SubTaskInput(n) => {
                push_str(&mut out, "/subtask.");
                push_decimal(&mut out, *n as u64);
                push_str(&mut out, "/input");
                assert(out@ =~= base + "/subtask."@ + decimal(*n as nat) + "/input"@);
            },
            ProcessingPathElement::SubTaskOutput(n) => {
                push_str(&mut out, "/subtask.");
                push_decimal(&mut out, *n as u64);
                push_str(&mut out, "/output");
                assert(out@ =~= base + "/subtask."@ + decimal(*n as nat) + "/output"@);
            },
        }
        string_from_chars(&out)
    }

    /// The path of this place. The timestamp is written in the local time
    /// of this machine, so its text is whatever `chrono` makes of it; the
    /// rest of the path is fixed.
    pub fn to_path(&self, processing_subdir: &str, host: &str) -> (path: String)
        requires
            self.valid(),
            self@.timestamp matches Some(stamp) ==> writable_stamp(stamp),
        ensures
            exists|stamp: Seq<char>|
                (self@.timestamp is Some ==> moment_shaped(stamp)) && path@ == #[trigger] path_text(
                    processing_subdir@,
                    host@,
                    self@,
                    stamp,
                ),
    {
        match self.timestamp {
            None => {
                let path = self.to_path_with(processing_subdir, host, "");
                assert(path@ == path_text(processing_subdir@, host@, self@, ""@));
                path
            },
            Some(stamp) => {
                let text = writable_stamp_text(&stamp);
                let path = self.to_path_with(processing_subdir, host, text.as_str());
                assert(path@ == path_text(processing_subdir@, host@, self@, text@));
                path
            },
        }
    }
}

/// What is left of `path` below `base`: the names of `path` after those of
/// `base`, joined by slashes; nothing where `path` does not lie below
/// `base`, or where only one of the two starts at the root.
pub open spec fn stripped(path: Seq<char>, base: Seq<char>) -> Option<Seq<char>> {
    if rooted(path) == rooted(base) && is_prefix_of(segments(base), segments(path)) {
        Some(join_segments(segments(path).skip(segments(base).len() as int)))
    } else {
        None
    }
}

/// What is left of `path` below `base`.
pub fn strip_prefix(path: &str, base: &str) -> (r: Option<String>)
    ensures
        r.deep_view() == stripped(path@, base@),
{
    let names = split_segments(path);
    let root = split_segments(base);
    assert(names.deep_view().skip(0) =~= names.deep_view());
    if is_rooted(path) != is_rooted(base) || !names_start_with(&names, 0, &root) {
        return None;
    }
    Some(join_from(&names, root.len()))
}

/// `base`, a slash, and `path`.
pub open spec fn below(base: Seq<char>, path: Seq<char>) -> Seq<char> {
    base + seq!['/'] + path
}

/// The path `path` below the directory `base`.
pub fn join_below(base: &str, path: &str) -> (r: String)
    ensures
        r@ == below(base@, path@),
{
    let mut out: Vec<char> = Vec::new();
    push_str(&mut out, base);
    out.push('/');
    push_str(&mut out, path);
    string_from_chars(&out)
}

/// The text of a timestamp as it stands in a path: the local date and time
/// with the offset from UTC, as `chrono` writes them on this machine.
/// Nothing for a timestamp that cannot be written into a path.
pub fn stamp_text(stamp: &Duration) -> (text: Option<String>)
    ensures
        text is Some == writable_stamp(*stamp),
        text matches Some(written) ==> moment_shaped(written@),
{
    if stamp.nanos < NANOS_PER_SEC && stamp.secs <= MAX_STAMP_SECS {
        Some(local_time_text(stamp.secs, stamp.nanos))
    } else {
        None
    }
}

/// The text of a timestamp that can be written into a path: it has the
/// shape of a moment, and so is one name of the path.
pub(crate) fn writable_stamp_text(stamp: &Duration) -> (text: String)
    requires
        writable_stamp(*stamp),
    ensures
        moment_shaped(text@),
        clean_name(text@),
{
    let text = local_time_text(stamp.secs, stamp.nanos);
    proof {
        lemma_moment_is_name(text@);
    }
    text
}

/// Whether a path starts at the root.
pub fn is_rooted(path: &str) -> (r: bool)
    ensures
        r == rooted(path@),
{
    let v = chars_of(path);
    v.len() > 0 && v[0] == '/'
}

/// Whether a text is one name of a path: not empty, without a slash, and
/// not a single dot.
pub open spec fn clean_name(name: Seq<char>) -> bool {
    &&& name.len() > 0
    &&& name != seq!['.']
    &&& forall|i: int| 0 <= i < name.len() ==> name[i] != '/'
}

/// Whether a path is written in its plain form: its names, joined by
/// slashes.
pub open spec fn plain_path(path: Seq<char>) -> bool {
    join_segments(segments(path)) == path
}

/// A text in the shape of a moment is one name of a path.
pub proof fn lemma_moment_is_name(text: Seq<char>)
    requires
        moment_shaped(text),
    ensures
        clean_name(text),
{
    assert(seq!['.'].len() == 1);
    assert forall|i: int| 0 <= i < text.len() implies text[i] != '/' by {
        assert(is_moment_char(text[i]));
    }
}

/// A name is its own and only segment.
pub proof fn lemma_segments_clean(name: Seq<char>)
    requires
        clean_name(name),
    ensures
        segments(name) == seq![name],
{
    lemma_first_slash_is(name, name.len() as int);
    assert(name.take(name.len() as int) =~= name);
    assert(segments(name) =~= seq![name]);
}

/// The names of two paths joined by a slash are the names of the first
/// and then those of the second.
pub proof fn lemma_segments_join(s: Seq<char>, t: Seq<char>)
    ensures
        segments(s + seq!['/'] + t) == segments(s) + segments(t),
    decreases s.len(),
{
    let u = s + seq!['/'] + t;
    if s.len() == 0 {
        assert(u[0] == '/');
        assert(u.take(0) =~= Seq::<char>::empty());
        assert(u.skip(1) =~= t);
        assert(segments(u) =~= segments(t));
        assert(segments(s) + segments(t) =~= segments(t));
    } else {
        lemma_first_slash(s);
        let c = first_slash(s);
        if c < s.len() {
            assert forall|j: int| 0 <= j < c implies u[j] != '/' by {
                assert(u[j] == s[j]);
            }
            assert(u[c] == s[c]);
            lemma_first_slash_is(u, c);
            assert(u.take(c) =~= s.take(c));
            assert(u.skip(c + 1) =~= s.skip(c + 1) + seq!['/'] + t);
            lemma_segments_join(s.skip(c + 1), t);
            let head = s.take(c);
            let rest = segments(s.skip(c + 1));
            if head.len() == 0 || head == seq!['.'] {
                assert(segments(u) =~= rest + segments(t));
            } else {
                assert(segments(u) =~= seq![head] + (rest + segments(t)));
                assert(seq![head] + (rest + segments(t)) =~= (seq![head] + rest) + segments(t));
            }
        } else {
            assert forall|j: int| 0 <= j < s.len() implies u[j] != '/' by {
                assert(u[j] == s[j]);
            }
            assert(u[s.len() as int] == '/');
            lemma_first_slash_is(u, s.len() as int);
            assert(u.take(s.len() as int) =~= s);
            assert(u.skip(s.len() as int + 1) =~= t);
            assert(s.take(s.len() as int) =~= s);
            if s == seq!['.'] {
                assert(segments(s) =~= Seq::<Seq<char>>::empty());
                assert(segments(u) =~= segments(t));
                assert(segments(s) + segments(t) =~= segments(t));
            } else {
                assert(segments(s) =~= seq![s]);
                assert(segments(u) =~= seq![s] + segments(t));
            }
        }
    }
}

/// Names that are joined by slashes are found again as they were.
pub proof fn law_segments_of_joined(names: Seq<Seq<char>>)
    requires
        forall|i: int| 0 <= i < names.len() ==> clean_name(#[trigger] names[i]),
    ensures
        segments(join_segments(names)) == names,
    decreases names.len(),
{
    if names.len() == 0 {
    } else if names.len() == 1 {
        lemma_segments_clean(names[0]);
        assert(seq![names[0]] =~= names);
    } else {
        let front = names.drop_last();
        assert forall|i: int| 0 <= i < front.len() implies clean_name(#[trigger] front[i]) by {
            assert(front[i] == names[i]);
        }
        law_segments_of_joined(front);
        lemma_segments_join(join_segments(front), names.last());
        lemma_segments_clean(names.last());
        assert(front + seq![names.last()] =~= names);
    }
}

/// A word followed by the digits of a number is a name that starts with
/// the word and goes on with the digits.
proof fn lemma_numbered_name(word: Seq<char>, n: nat)
    requires
        word.len() >= 2,
        forall|i: int| 0 <= i < word.len() ==> word[i] != '/',
    ensures
        clean_name(word + decimal(n)),
        starts_with(word + decimal(n), word),
        (word + decimal(n)).skip(word.len() as int) == decimal(n),
{
    lemma_decimal_digits(n);
    let name = word + decimal(n);
    assert(name.take(word.len() as int) =~= word);
    assert(name.skip(word.len() as int) =~= decimal(n));
    assert forall|i: int| 0 <= i < name.len() implies name[i] != '/' by {
        if i >= word.len() {
            assert(name[i] == decimal(n)[i - word.len()]);
        } else {
            assert(name[i] == word[i]);
        }
    }
    assert(name.len() >= 3);
    assert(seq!['.'].len() == 1);
}

/// A place that is not below a timestamp is read back from its path.
proof fn lemma_round_trip_short(
    processing_subdir: Seq<char>,
    host: Seq<char>,
    place: PathView,
    stamp: Seq<char>,
)
    requires
        processing_subdir.len() > 0,
        !rooted(host),
        valid_place(place.process, place.timestamp, place.element),
        place.timestamp is None,
    ensures
        path_outcome(processing_subdir, host, path_text(processing_subdir, host, place, stamp))
            == Ok::<PathView, PathError>(place),
{
    reveal_strlit("/PID");
    reveal_strlit("PID");
    let home = processing_subdir + seq!['/'] + host;
    let root = segments(processing_subdir);
    let ours = segments(host);
    lemma_segments_join(processing_subdir, host);
    assert((root + ours).take(root.len() as int) =~= root);
    assert((root + ours).skip(root.len() as int) =~= ours);
    assert(ours.take(ours.len() as int) =~= ours);
    match place.process {
        None => {
            assert((root + ours).skip((root.len() + ours.len()) as int) =~= Seq::<
                Seq<char>,
            >::empty());
        },
        Some(pid) => {
            let name = "PID"@ + decimal(pid as nat);
            let path = home + "/PID"@ + decimal(pid as nat);
            assert("/PID"@ =~= seq!['/'] + "PID"@);
            assert(path =~= home + seq!['/'] + name);
            lemma_numbered_name("PID"@, pid as nat);
            lemma_segments_join(home, name);
            lemma_segments_clean(name);
            let names = root + ours + seq![name];
            assert(segments(path) == names);
            assert(names.take(root.len() as int) =~= root);
            assert(names.skip(root.len() as int) =~= ours + seq![name]);
            assert((ours + seq![name]).take(ours.len() as int) =~= ours);
            assert(names.skip((root.len() + ours.len()) as int) =~= seq![name]);
            law_decimal_parses_back(pid as nat, u32::MAX as nat);
            assert(path[0] == processing_subdir[0]);
        },
    }
}

/// The names below a timestamp directory that the text of an element
/// spells.
pub open spec fn element_names(element: ElementView) -> Seq<Seq<char>> {
    match element {
        ElementView::IntermediateDir => Seq::empty(),
        ElementView::OriginalTaskfile(path) => seq!["original"@] + segments(path),
        ElementView::FilteredTaskfile => seq!["filtered"@],
        ElementView::SubTaskDir(n) => seq!["subtask."@ + decimal(n as nat)],
        ElementView::SubTaskInput(n) => seq!["subtask."@ + decimal(n as nat), "input"@],
        ElementView::SubTaskOutput(n) => seq!["subtask."@ + decimal(n as nat), "output"@],
    }
}

/// The text of an element below a directory has the names of the
/// directory and then those of the element.
proof fn lemma_element_segments(base: Seq<char>, element: ElementView)
    ensures
        segments(element_text(base, element)) == segments(base) + element_names(element),
{
    reveal_strlit("/original/");
    reveal_strlit("original");
    reveal_strlit("/filtered");
    reveal_strlit("filtered");
    reveal_strlit("/subtask.");
    reveal_strlit("subtask.");
    reveal_strlit("/input");
    reveal_strlit("input");
    reveal_strlit("/output");
    reveal_strlit("output");
    match element {
        ElementView::IntermediateDir => {
            assert(segments(base) + Seq::<Seq<char>>::empty() =~= segments(base));
        },
        ElementView::OriginalTaskfile(path) => {
            assert("/original/"@ =~= seq!['/'] + "original"@ + seq!['/']);
            assert(base + "/original/"@ + path =~= base + seq!['/'] + ("original"@ + seq!['/']
                + path));
            lemma_segments_join(base, "original"@ + seq!['/'] + path);
            lemma_segments_join("original"@, path);
            lemma_segments_clean("original"@);
        },
        ElementView::FilteredTaskfile => {
            assert("/filtered"@ =~= seq!['/'] + "filtered"@);
            assert(base + "/filtered"@ =~= base + seq!['/'] + "filtered"@);
            lemma_segments_join(base, "filtered"@);
            lemma_segments_clean("filtered"@);
        },
        ElementView::SubTaskDir(n) => {
            let name = "subtask."@ + decimal(n as nat);
            assert("/subtask."@ =~= seq!['/'] + "subtask."@);
            assert(base + "/subtask."@ + decimal(n as nat) =~= base + seq!['/'] + name);
            lemma_numbered_name("subtask."@, n as nat);
            lemma_segments_join(base, name);
            lemma_segments_clean(name);
        },
        ElementView::SubTaskInput(n) => {
            let name = "subtask."@ + decimal(n as nat);
            assert("/subtask."@ =~= seq!['/'] + "subtask."@);
            assert("/input"@ =~= seq!['/'] + "input"@);
            assert(base + "/subtask."@ + decimal(n as nat) + "/input"@ =~= base + seq!['/'] + (name
                + seq!['/'] + "input"@));
            lemma_numbered_name("subtask."@, n as nat);
            lemma_segments_join(base, name + seq!['/'] + "input"@);
            lemma_segments_join(name, "input"@);
            lemma_segments_clean(name);
            lemma_segments_clean("input"@);
            assert(seq![name] + seq!["input"@] =~= seq![name, "input"@]);
        },
        ElementView::SubTaskOutput(n) => {
            let name = "subtask."@ + decimal(n as nat);
            assert("/subtask."@ =~= seq!['/'] + "subtask."@);
            assert("/output"@ =~= seq!['/'] + "output"@);
            assert(base + "/subtask."@ + decimal(n as nat) + "/output"@ =~= base + seq!['/'] + (name
                + seq!['/'] + "output"@));
            lemma_numbered_name("subtask."@, n as nat);
            lemma_segments_join(base, name + seq!['/'] + "output"@);
            lemma_segments_join(name, "output"@);
            lemma_segments_clean(name);
            lemma_segments_clean("output"@);
            assert(seq![name] + seq!["output"@] =~= seq![name, "output"@]);
        },
    }
}

/// The names that the text of an element spells are read back as the
/// element, where the path of a task file is written in its plain form.
proof fn lemma_element_read_back(element: ElementView)
    requires
        element matches ElementView::OriginalTaskfile(path) ==> plain_path(path),
    ensures
        element_of(element_names(element)) == Ok::<ElementView, PathError>(element),
{
    reveal_strlit("original");
    reveal_strlit("filtered");
    reveal_strlit("subtask.");
    reveal_strlit("input");
    reveal_strlit("output");
    let rest = element_names(element);
    match element {
        ElementView::IntermediateDir => {},
        ElementView::OriginalTaskfile(path) => {
            assert(rest.skip(1) =~= segments(path));
        },
        ElementView::FilteredTaskfile => {
            assert("filtered"@[0] != "original"@[0]);
        },
        ElementView::SubTaskDir(n) => {
            let name = "subtask."@ + decimal(n as nat);
            lemma_numbered_name("subtask."@, n as nat);
            law_decimal_parses_back(n as nat, usize::MAX as nat);
            assert(name[0] == 's');
            assert(name[0] != "original"@[0] && name[0] != "filtered"@[0]);
        },
        ElementView::SubTaskInput(n) => {
            let name = "subtask."@ + decimal(n as nat);
            lemma_numbered_name("subtask."@, n as nat);
            law_decimal_parses_back(n as nat, usize::MAX as nat);
            assert(name[0] == 's');
            assert(name[0] != "original"@[0] && name[0] != "filtered"@[0]);
        },
        ElementView::SubTaskOutput(n) => {
            let name = "subtask."@ + decimal(n as nat);
            lemma_numbered_name("subtask."@, n as nat);
            law_decimal_parses_back(n as nat, usize::MAX as nat);
            assert(name[0] == 's');
            assert(name[0] != "original"@[0] && name[0] != "filtered"@[0]);
            assert("output"@[0] != "input"@[0]);
        },
    }
}

/// A place is read back from the path that it is written as.
///
/// The processing directory must have a name. The text of the timestamp
/// must be one name of a path and be read as the timestamp; and the path
/// of a task file must be written in its plain form.
pub proof fn law_path_round_trip(
    processing_subdir: Seq<char>,
    host: Seq<char>,
    place: PathView,
    stamp: Seq<char>,
)
    requires
        processing_subdir.len() > 0,
        !rooted(host),
        valid_place(place.process, place.timestamp, place.element),
        place.timestamp is Some ==> clean_name(stamp) && stamp_of(parsed_timestamp(stamp))
            == place.timestamp,
        place.element matches ElementView::OriginalTaskfile(path) ==> plain_path(path),
    ensures
        path_outcome(processing_subdir, host, path_text(processing_subdir, host, place, stamp))
            == Ok::<PathView, PathError>(place),
{
    if place.timestamp is None {
        lemma_round_trip_short(processing_subdir, host, place, stamp);
    } else {
        reveal_strlit("/PID");
        reveal_strlit("PID");
        let pid = place.process->Some_0;
        let home = processing_subdir + seq!['/'] + host;
        let root = segments(processing_subdir);
        let ours = segments(host);
        let name = "PID"@ + decimal(pid as nat);
        let base = home + "/PID"@ + decimal(pid as nat) + seq!['/'] + stamp;
        let path = element_text(base, place.element);
        let rest = element_names(place.element);
        lemma_segments_join(processing_subdir, host);
        assert("/PID"@ =~= seq!['/'] + "PID"@);
        assert(base =~= home + seq!['/'] + (name + seq!['/'] + stamp));
        lemma_numbered_name("PID"@, pid as nat);
        lemma_segments_join(home, name + seq!['/'] + stamp);
        lemma_segments_join(name, stamp);
        lemma_segments_clean(name);
        lemma_segments_clean(stamp);
        lemma_element_segments(base, place.element);
        lemma_element_read_back(place.element);
        let names = root + ours + (seq![name] + seq![stamp]) + rest;
        assert(segments(path) == names);
        assert(names.take(root.len() as int) =~= root);
        assert(names.skip(root.len() as int) =~= ours + (seq![name] + seq![stamp]) + rest);
        assert((ours + (seq![name] + seq![stamp]) + rest).take(ours.len() as int) =~= ours);
        let below = names.skip((root.len() + ours.len()) as int);
        assert(below =~= seq![name, stamp] + rest);
        assert(below[0] == name);
        assert(below[1] == stamp);
        assert(below.skip(2) =~= rest);
        law_decimal_parses_back(pid as nat, u32::MAX as nat);
        assert(path.len() > 0 && path[0] == processing_subdir[0]) by {
            assert(base.take(processing_subdir.len() as int) =~= processing_subdir);
            lemma_path_starts(base, place.element, processing_subdir);
        }
    }
}

/// The text of an element starts as its directory does.
proof fn lemma_path_starts(base: Seq<char>, element: ElementView, start: Seq<char>)
    requires
        start.len() > 0,
        base.len() >= start.len(),
        base.take(start.len() as int) == start,
    ensures
        element_text(base, element).len() > 0,
        element_text(base, element)[0] == start[0],
{
    assert(base[0] == base.take(start.len() as int)[0]);
}

} // verus!
