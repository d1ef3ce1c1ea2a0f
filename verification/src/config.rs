//! The configuration that the runner works from: intervals, directories,
//! the expressions that take task files apart, and the kinds of task.
//!
//! A configuration is made from its written form and the name of the host.
//! The templates for the path and the content of a task file become
//! regular expressions: each `{name}` becomes a group of that name, `{_}`
//! matches without a name. The path must tell the kind of task (`{task}`)
//! and every coordinate that this host is restricted in.
use crate::format::{duration_from_string, duration_of, Duration, DurationError};
use crate::template::{
    captures_iter_of, compiles, escape, escape_text, placeholder_names, regex_captures_iter,
    regex_split, split_of, template_names, Pattern, Patterns, NAME_GROUP,
};
use crate::text::{owned, push_str, same_text, string_from_chars};
use std::sync::Arc;
use vstd::prelude::*;

pub mod parsing;

verus! {

/// One kind of task: what it runs, how its input lines are rewritten, and
/// how it relates to the other kinds.
#[derive(Debug)]
pub struct ConfigTask {
    pub name: String,
    /// Command template; `{name}` stands for a value.
    pub command: String,
    /// The names that `command` asks for, `file` left out.
    pub command_values: Vec<String>,
    /// Template of one line of a subtask's input file.
    pub file_format: String,
    /// The names that `file_format` asks for.
    pub file_format_values: Vec<String>,
    /// Names of the kinds whose pending work on an object this kind replaces.
    pub overrides: Vec<String>,
    /// Names of the kinds that must never meet this kind on an object.
    pub conflicts: Vec<String>,
    /// How long a process of this kind may stay silent.
    pub timeout: Option<Duration>,
}

/// The configuration of one host.
#[derive(Debug)]
pub struct Config {
    pub status_frequency: Duration,
    pub cleanup_frequency: Duration,
    pub scan_frequency: Duration,
    pub filter_frequency: Duration,
    pub poll_frequency: Duration,
    pub check_frequency: Duration,
    pub task_parallelism: u32,
    pub hard_timeout: Duration,
    pub cleanup_timeout: Duration,
    pub input_subdir: String,
    pub processing_subdir: String,
    pub output_success_subdir: String,
    pub output_failure_subdir: String,
    pub logged_failure_subdir: String,
    /// The names that the path of a task file gives, `task` left out.
    pub task_path_values: Vec<String>,
    pub task_path_regex: Pattern,
    /// The names that a line of a task file gives.
    pub task_content_values: Vec<String>,
    pub task_content_regex: Pattern,
    /// The expression that finds the placeholders of a template.
    pub braced_name_regex: Pattern,
    pub host: String,
    pub pods: Option<Vec<u32>>,
    pub blocks: Option<Vec<u32>>,
    pub caps: Option<Vec<u32>>,
    pub scatters: Option<Vec<u32>>,
    pub tasks: Vec<Arc<ConfigTask>>,
}

/// An interval or timeout of the `[options]` section.
#[derive(Clone, Copy, Debug, PartialEq, Eq, Structural)]
pub enum OptionField {
    StatusFrequency,
    CleanupFrequency,
    ScanFrequency,
    FilterFrequency,
    PollFrequency,
    CheckFrequency,
    HardTimeout,
    CleanupTimeout,
}

/// A coordinate of an object's place.
#[derive(Clone, Copy, Debug, PartialEq, Eq, Structural)]
pub enum Coordinate {
    Pod,
    Block,
    Cap,
    Scatter,
}

/// Why a written configuration is none for this host.
#[derive(Clone, Copy, Debug, PartialEq, Eq, Structural)]
pub enum ConfigError {
    /// No host section has the name of this host.
    UnknownHost,
    /// The path template uses the name `file`, which is kept for the
    /// command.
    ReservedFileInPath,
    /// The path template uses a name twice.
    DuplicatePathValue,
    /// The content template uses the name `file`.
    ReservedFileInContent,
    /// The content template uses a name of the path template.
    DuplicateContentValue,
    /// The path template does not tell the kind of task.
    MissingTaskValue,
    /// This host is restricted in a coordinate that the path template does
    /// not tell.
    MissingCoordinate(Coordinate),
    /// The expression made from the path template does not compile.
    PathPatternRefused,
    /// The expression made from the content template does not compile.
    ContentPatternRefused,
    /// The command of task `task` asks for a value that neither template
    /// gives.
    UnknownCommandValue { task: usize },
    /// The command of task `task` does not use `{file}`.
    CommandWithoutFile { task: usize },
    /// The file format of task `task` asks for a value that neither
    /// template gives.
    UnknownFormatValue { task: usize },
    /// The timeout of task `task` is no span of time.
    BadTimeout { task: usize, error: DurationError },
    /// An interval or timeout of the options is no span of time.
    BadOption { field: OptionField, error: DurationError },
}

/// The expression text for a template: the escaped template between `^`
/// and `$`.
pub open spec fn anchored(template: Seq<char>) -> Seq<char> {
    seq!['^'] + escape_text(template) + seq!['$']
}

/// Whether a name is that of a coordinate, whose values are numbers.
pub open spec fn is_numeric_name(name: Seq<char>) -> bool {
    name == "pod"@ || name == "block"@ || name == "cap"@ || name == "scatter"@
}

/// What a placeholder becomes in an expression: a group of digits for a
/// coordinate, a nameless run for `_`, else a group of anything but slashes
/// and white space.
pub open spec fn group_pattern(name: Seq<char>) -> Seq<char> {
    if is_numeric_name(name) {
        "(?<"@ + name + ">\\d+)"@
    } else if name == "_"@ {
        "[^/\\s]+"@
    } else {
        "(?<"@ + name + ">[^/\\s]+)"@
    }
}

/// `literals[0]`, then for each of the first `k` names its group and the
/// literal that follows it.
pub open spec fn expanded(literals: Seq<Seq<char>>, names: Seq<Option<Seq<char>>>, k: int) -> Seq<
    char,
>
    decreases k,
{
    if k <= 0 {
        literals[0]
    } else {
        expanded(literals, names, k - 1) + group_pattern(names[k - 1]->Some_0) + literals[k]
    }
}

/// The expression text made of the parts of an escaped template; nothing
/// where the parts do not line up or a placeholder has no name.
pub open spec fn pattern_text(literals: Seq<Seq<char>>, names: Seq<Option<Seq<char>>>) -> Option<
    Seq<char>,
> {
    if literals.len() != names.len() + 1 || exists|i: int|
        0 <= i < names.len() && (#[trigger] names[i]) is None {
        None
    } else {
        Some(expanded(literals, names, names.len() as int))
    }
}

/// The names that the path template gives beside `task`, in their order;
/// or what is wrong with them.
pub open spec fn path_keys(names: Seq<Option<Seq<char>>>) -> Result<Seq<Seq<char>>, ConfigError>
    decreases names.len(),
{
    if names.len() == 0 {
        Ok(Seq::empty())
    } else {
        match path_keys(names.drop_last()) {
            Err(e) => Err(e),
            Ok(keys) => match names.last() {
                None => Ok(keys),
                Some(name) => if name == "file"@ {
                    Err(ConfigError::ReservedFileInPath)
                } else if name == "task"@ || name == "_"@ {
                    Ok(keys)
                } else if keys.contains(name) {
                    Err(ConfigError::DuplicatePathValue)
                } else {
                    Ok(keys.push(name))
                },
            },
        }
    }
}

/// The names that the content template gives, in their order; or what is
/// wrong with them.
pub open spec fn content_keys(names: Seq<Option<Seq<char>>>, path: Seq<Seq<char>>) -> Result<
    Seq<Seq<char>>,
    ConfigError,
>
    decreases names.len(),
{
    if names.len() == 0 {
        Ok(Seq::empty())
    } else {
        match content_keys(names.drop_last(), path) {
            Err(e) => Err(e),
            Ok(keys) => match names.last() {
                None => Ok(keys),
                Some(name) => if name == "file"@ {
                    Err(ConfigError::ReservedFileInContent)
                } else if name == "_"@ {
                    Ok(keys)
                } else if path.contains(name) {
                    Err(ConfigError::DuplicateContentValue)
                } else {
                    Ok(keys.push(name))
                },
            },
        }
    }
}

/// The names that a command asks for: those of its placeholders, `file`
/// left out.
pub open spec fn command_values(found: Seq<Option<Seq<char>>>) -> Seq<Seq<char>>
    decreases found.len(),
{
    if found.len() == 0 {
        Seq::empty()
    } else {
        match found.last() {
            Some(name) => if name == "file"@ {
                command_values(found.drop_last())
            } else {
                command_values(found.drop_last()).push(name)
            },
            None => command_values(found.drop_last()),
        }
    }
}

/// Whether each of `names` is among `a` or among `b`.
pub open spec fn all_given(names: Seq<Seq<char>>, a: Seq<Seq<char>>, b: Seq<Seq<char>>) -> bool {
    forall|i: int| 0 <= i < names.len() ==> a.contains(#[trigger] names[i]) || b.contains(names[i])
}

/// What is wrong with a task section, if anything.
pub open spec fn task_issue(
    task: parsing::ConfigTask,
    index: usize,
    path: Seq<Seq<char>>,
    content: Seq<Seq<char>>,
    braced: Pattern,
) -> Option<ConfigError> {
    let asked = captures_iter_of(braced.source(), task.command@, NAME_GROUP@);
    let written = captures_iter_of(braced.source(), task.file_format@, NAME_GROUP@);
    if !all_given(command_values(asked), path, content) {
        Some(ConfigError::UnknownCommandValue { task: index })
    } else if !asked.contains(Some("file"@)) {
        Some(ConfigError::CommandWithoutFile { task: index })
    } else if !all_given(placeholder_names(written), content, path) {
        Some(ConfigError::UnknownFormatValue { task: index })
    } else {
        match task.timeout {
            None => None,
            Some(text) => match duration_of(text@) {
                Err(error) => Some(ConfigError::BadTimeout { task: index, error }),
                Ok(_) => None,
            },
        }
    }
}

/// The names of a list that may be missing.
pub open spec fn listed(list: Option<Vec<String>>) -> Seq<Seq<char>> {
    match list {
        None => Seq::empty(),
        Some(names) => names.deep_view(),
    }
}

/// Whether `built` is the kind of task that the section `task` describes.
pub open spec fn task_built(built: ConfigTask, task: parsing::ConfigTask, braced: Pattern) -> bool {
    &&& built.name@ == task.name@
    &&& built.command@ == task.command@
    &&& built.command_values.deep_view() == command_values(
        captures_iter_of(braced.source(), task.command@, NAME_GROUP@),
    )
    &&& built.file_format@ == task.file_format@
    &&& built.file_format_values.deep_view() == placeholder_names(
        captures_iter_of(braced.source(), task.file_format@, NAME_GROUP@),
    )
    &&& built.overrides.deep_view() == listed(task.overrides)
    &&& built.conflicts.deep_view() == listed(task.conflicts)
    &&& built.timeout == match task.timeout {
        None => None::<Duration>,
        Some(text) => Some(duration_of(text@)->Ok_0),
    }
}

/// The position of the first host section of the name `hostname`, or the
/// number of sections where there is none.
pub open spec fn host_position(hosts: Seq<parsing::ConfigHost>, hostname: Seq<char>) -> int
    decreases hosts.len(),
{
    if hosts.len() == 0 {
        0
    } else if hosts[0].name@ == hostname {
        0
    } else {
        1 + host_position(hosts.drop_first(), hostname)
    }
}

/// The first coordinate that the host is restricted in and the path does
/// not tell.
pub open spec fn missing_coordinate(host: parsing::ConfigHost, path: Seq<Seq<char>>) -> Option<
    Coordinate,
> {
    if host.pods is Some && !path.contains("pod"@) {
        Some(Coordinate::Pod)
    } else if host.blocks is Some && !path.contains("block"@) {
        Some(Coordinate::Block)
    } else if host.caps is Some && !path.contains("cap"@) {
        Some(Coordinate::Cap)
    } else if host.scatters is Some && !path.contains("scatter"@) {
        Some(Coordinate::Scatter)
    } else {
        None
    }
}

/// The fault of one interval or timeout of the options, if it has one.
pub open spec fn option_fault(text: Seq<char>, field: OptionField) -> Option<ConfigError> {
    match duration_of(text) {
        Err(error) => Some(ConfigError::BadOption { field, error }),
        Ok(_) => None,
    }
}

/// The first of two faults.
pub open spec fn first_of(a: Option<ConfigError>, b: Option<ConfigError>) -> Option<ConfigError> {
    if a is Some {
        a
    } else {
        b
    }
}

/// The first interval or timeout of the options that is no span of time.
pub open spec fn option_issue(options: parsing::ConfigOptions) -> Option<ConfigError> {
    first_of(
        option_fault(options.status_frequency@, OptionField::StatusFrequency),
        first_of(
            option_fault(options.cleanup_frequency@, OptionField::CleanupFrequency),
            first_of(
                option_fault(options.scan_frequency@, OptionField::ScanFrequency),
                first_of(
                    option_fault(options.filter_frequency@, OptionField::FilterFrequency),
                    first_of(
                        option_fault(options.poll_frequency@, OptionField::PollFrequency),
                        first_of(
                            option_fault(options.check_frequency@, OptionField::CheckFrequency),
                            first_of(
                                option_fault(options.hard_timeout@, OptionField::HardTimeout),
                                option_fault(
                                    options.cleanup_timeout@,
                                    OptionField::CleanupTimeout,
                                ),
                            ),
                        ),
                    ),
                ),
            ),
        ),
    )
}

/// The first task section with a fault, with the fault.
pub open spec fn first_task_issue(
    tasks: Seq<parsing::ConfigTask>,
    path: Seq<Seq<char>>,
    content: Seq<Seq<char>>,
    braced: Pattern,
) -> Option<ConfigError>
    decreases tasks.len(),
{
    if tasks.len() == 0 {
        None
    } else {
        match first_task_issue(tasks.drop_last(), path, content, braced) {
            Some(e) => Some(e),
            None => task_issue(tasks.last(), (tasks.len() - 1) as usize, path, content, braced),
        }
    }
}

/// What is wrong with a written configuration for the host `hostname`, if
/// anything. The checks run in the order in which they stand here, and the
/// first fault is the answer.
pub open spec fn config_issue(
    parsed: parsing::ParsedConfig,
    hostname: Seq<char>,
    patterns: Patterns,
) -> Option<ConfigError> {
    let at = host_position(parsed.hosts@, hostname);
    let path_text = anchored(parsed.options.task_file_path@);
    let content_text = anchored(parsed.options.task_file_content@);
    let path_names = captures_iter_of(patterns.escaped.source(), path_text, NAME_GROUP@);
    let content_names = captures_iter_of(patterns.escaped.source(), content_text, NAME_GROUP@);
    let path_pattern = pattern_text(split_of(patterns.escaped.source(), path_text), path_names);
    let content_pattern = pattern_text(split_of(patterns.escaped.source(), content_text), content_names);
    if at >= parsed.hosts@.len() {
        Some(ConfigError::UnknownHost)
    } else if path_keys(path_names) is Err {
        Some(path_keys(path_names)->Err_0)
    } else if content_keys(content_names, path_keys(path_names)->Ok_0) is Err {
        Some(content_keys(content_names, path_keys(path_names)->Ok_0)->Err_0)
    } else if !path_names.contains(Some("task"@)) {
        Some(ConfigError::MissingTaskValue)
    } else if missing_coordinate(parsed.hosts@[at], path_keys(path_names)->Ok_0) is Some {
        Some(
            ConfigError::MissingCoordinate(
                missing_coordinate(parsed.hosts@[at], path_keys(path_names)->Ok_0)->Some_0,
            ),
        )
    } else if path_pattern is None || !compiles(path_pattern->Some_0) {
        Some(ConfigError::PathPatternRefused)
    } else if content_pattern is None || !compiles(content_pattern->Some_0) {
        Some(ConfigError::ContentPatternRefused)
    } else {
        first_of(
            first_task_issue(
                parsed.tasks@,
                path_keys(path_names)->Ok_0,
                content_keys(content_names, path_keys(path_names)->Ok_0)->Ok_0,
                patterns.braced,
            ),
            option_issue(parsed.options),
        )
    }
}

/// Whether `config` is what the written configuration says for the host
/// `hostname`.
pub open spec fn config_built(
    config: Config,
    parsed: parsing::ParsedConfig,
    hostname: Seq<char>,
    patterns: Patterns,
) -> bool {
    let host = parsed.hosts@[host_position(parsed.hosts@, hostname)];
    let path_text = anchored(parsed.options.task_file_path@);
    let content_text = anchored(parsed.options.task_file_content@);
    let path_names = captures_iter_of(patterns.escaped.source(), path_text, NAME_GROUP@);
    let content_names = captures_iter_of(patterns.escaped.source(), content_text, NAME_GROUP@);
    &&& Ok::<Duration, DurationError>(config.status_frequency) == duration_of(
        parsed.options.status_frequency@,
    )
    &&& Ok::<Duration, DurationError>(config.cleanup_frequency) == duration_of(
        parsed.options.cleanup_frequency@,
    )
    &&& Ok::<Duration, DurationError>(config.scan_frequency) == duration_of(
        parsed.options.scan_frequency@,
    )
    &&& Ok::<Duration, DurationError>(config.filter_frequency) == duration_of(
        parsed.options.filter_frequency@,
    )
    &&& Ok::<Duration, DurationError>(config.poll_frequency) == duration_of(
        parsed.options.poll_frequency@,
    )
    &&& Ok::<Duration, DurationError>(config.check_frequency) == duration_of(
        parsed.options.check_frequency@,
    )
    &&& config.task_parallelism == parsed.options.task_parallelism
    &&& Ok::<Duration, DurationError>(config.hard_timeout) == duration_of(
        parsed.options.hard_timeout@,
    )
    &&& Ok::<Duration, DurationError>(config.cleanup_timeout) == duration_of(
        parsed.options.cleanup_timeout@,
    )
    &&& config.input_subdir@ == parsed.options.input_subdir@
    &&& config.processing_subdir@ == parsed.options.processing_subdir@
    &&& config.output_success_subdir@ == parsed.options.output_success_subdir@
    &&& config.output_failure_subdir@ == parsed.options.output_failure_subdir@
    &&& config.logged_failure_subdir@ == parsed.options.logged_failure_subdir@
    &&& Ok::<Seq<Seq<char>>, ConfigError>(config.task_path_values.deep_view()) == path_keys(
        path_names,
    )
    &&& Some(config.task_path_regex.source()) == pattern_text(
        split_of(patterns.escaped.source(), path_text),
        path_names,
    )
    &&& Ok::<Seq<Seq<char>>, ConfigError>(config.task_content_values.deep_view())
        == content_keys(content_names, config.task_path_values.deep_view())
    &&& Some(config.task_content_regex.source()) == pattern_text(
        split_of(patterns.escaped.source(), content_text),
        content_names,
    )
    &&& config.braced_name_regex == patterns.braced
    &&& config.host@ == hostname
    &&& config.pods == host.pods
    &&& config.blocks == host.blocks
    &&& config.caps == host.caps
    &&& config.scatters == host.scatters
    &&& config.tasks@.len() == parsed.tasks@.len()
    &&& forall|i: int|
        0 <= i < parsed.tasks@.len() ==> task_built(
            *(#[trigger] config.tasks@[i]),
            parsed.tasks@[i],
            patterns.braced,
        )
}

/// Whether `name` is among `keys`.
fn contains_name(keys: &Vec<String>, name: &str) -> (r: bool)
    ensures
        r == keys.deep_view().contains(name@),
{
    let ghost all = keys.deep_view();
    let mut i: usize = 0;
    while i < keys.len()
        invariant
            0 <= i <= keys.len(),
            all == keys.deep_view(),
            forall|j: int| 0 <= j < i ==> all[j] != name@,
        decreases keys.len() - i,
    {
        assert(all[i as int] == keys@[i as int]@);
        if same_text(keys[i].as_str(), name) {
            return true;
        }
        i += 1;
    }
    false
}

/// Whether some placeholder has the name `name`.
fn finds_name(found: &Vec<Option<String>>, name: &str) -> (r: bool)
    ensures
        r == found.deep_view().contains(Some(name@)),
{
    let ghost all = found.deep_view();
    let mut i: usize = 0;
    while i < found.len()
        invariant
            0 <= i <= found.len(),
            all == found.deep_view(),
            forall|j: int| 0 <= j < i ==> all[j] != Some(name@),
        decreases found.len() - i,
    {
        assert(all[i as int] == found@[i as int].deep_view());
        match &found[i] {
            Some(entry) => {
                if same_text(entry.as_str(), name) {
                    return true;
                }
            },
            None => {},
        }
        i += 1;
    }
    false
}

fn scan_path_keys(names: &Vec<Option<String>>) -> (r: Result<Vec<String>, ConfigError>)
    ensures
        match path_keys(names.deep_view()) {
            Ok(keys) => r is Ok && r->Ok_0.deep_view() == keys,
            Err(e) => r == Err::<Vec<String>, ConfigError>(e),
        },
{
    let ghost all = names.deep_view();
    let mut keys: Vec<String> = Vec::new();
    let mut i: usize = 0;
    assert(all.take(0) =~= Seq::<Option<Seq<char>>>::empty());
    assert(keys.deep_view() =~= Seq::<Seq<char>>::empty());
    while i < names.len()
        invariant
            0 <= i <= names.len(),
            all == names.deep_view(),
            path_keys(all.take(i as int)) == Ok::<Seq<Seq<char>>, ConfigError>(keys.deep_view()),
        decreases names.len() - i,
    {
        let ghost upto = all.take(i + 1);
        let ghost before = keys.deep_view();
        assert(upto.drop_last() =~= all.take(i as int));
        assert(upto.last() == names@[i as int].deep_view());
        match &names[i] {
            None => {},
            Some(name) => {
                let name = name.as_str();
                if same_text(name, "file") {
                    proof {
                        lemma_path_keys_error(all, i + 1);
                    }
                    return Err(ConfigError::ReservedFileInPath);
                }
                if !same_text(name, "task") && !same_text(name, "_") {
                    if contains_name(&keys, name) {
                        proof {
                            lemma_path_keys_error(all, i + 1);
                        }
                        return Err(ConfigError::DuplicatePathValue);
                    }
                    keys.push(owned(name));
                    assert(keys.deep_view() =~= before.push(name@));
                }
            },
        }
        i += 1;
    }
    assert(all.take(all.len() as int) =~= all);
    Ok(keys)
}

proof fn lemma_path_keys_error(names: Seq<Option<Seq<char>>>, k: int)
    requires
        0 <= k <= names.len(),
        path_keys(names.take(k)) is Err,
    ensures
        path_keys(names) == path_keys(names.take(k)),
    decreases names.len() - k,
{
    if k == names.len() {
        assert(names.take(k) =~= names);
    } else {
        assert(names.drop_last().take(k) =~= names.take(k));
        lemma_path_keys_error(names.drop_last(), k);
    }
}

fn scan_content_keys(names: &Vec<Option<String>>, path: &Vec<String>) -> (r: Result<
    Vec<String>,
    ConfigError,
>)
    ensures
        match content_keys(names.deep_view(), path.deep_view()) {
            Ok(keys) => r is Ok && r->Ok_0.deep_view() == keys,
            Err(e) => r == Err::<Vec<String>, ConfigError>(e),
        },
{
    let ghost all = names.deep_view();
    let ghost given = path.deep_view();
    let mut keys: Vec<String> = Vec::new();
    let mut i: usize = 0;
    assert(all.take(0) =~= Seq::<Option<Seq<char>>>::empty());
    assert(keys.deep_view() =~= Seq::<Seq<char>>::empty());
    while i < names.len()
        invariant
            0 <= i <= names.len(),
            all == names.deep_view(),
            given == path.deep_view(),
            content_keys(all.take(i as int), given) == Ok::<Seq<Seq<char>>, ConfigError>(
                keys.deep_view(),
            ),
        decreases names.len() - i,
    {
        let ghost upto = all.take(i + 1);
        let ghost before = keys.deep_view();
        assert(upto.drop_last() =~= all.take(i as int));
        assert(upto.last() == names@[i as int].deep_view());
        match &names[i] {
            None => {},
            Some(name) => {
                let name = name.as_str();
                if same_text(name, "file") {
                    proof {
                        lemma_content_keys_error(all, given, i + 1);
                    }
                    return Err(ConfigError::ReservedFileInContent);
                }
                if !same_text(name, "_") {
                    if contains_name(path, name) {
                        proof {
                            lemma_content_keys_error(all, given, i + 1);
                        }
                        return Err(ConfigError::DuplicateContentValue);
                    }
                    keys.push(owned(name));
                    assert(keys.deep_view() =~= before.push(name@));
                }
            },
        }
        i += 1;
    }
    assert(all.take(all.len() as int) =~= all);
    Ok(keys)
}

proof fn lemma_content_keys_error(names: Seq<Option<Seq<char>>>, path: Seq<Seq<char>>, k: int)
    requires
        0 <= k <= names.len(),
        content_keys(names.take(k), path) is Err,
    ensures
        content_keys(names, path) == content_keys(names.take(k), path),
    decreases names.len() - k,
{
    if k == names.len() {
        assert(names.take(k) =~= names);
    } else {
        assert(names.drop_last().take(k) =~= names.take(k));
        lemma_content_keys_error(names.drop_last(), path, k);
    }
}

/// Appends to `out` what the placeholder `name` becomes in an expression.
fn push_group(out: &mut Vec<char>, name: &str)
    ensures
        final(out)@ == old(out)@ + group_pattern(name@),
{
    if same_text(name, "pod") || same_text(name, "block") || same_text(name, "cap") || same_text(
        name,
        "scatter",
    ) {
        push_str(out, "(?<");
        push_str(out, name);
        push_str(out, ">\\d+)");
        assert(out@ =~= old(out)@ + ("(?<"@ + name@ + ">\\d+)"@));
    } else if same_text(name, "_") {
        push_str(out, "[^/\\s]+");
    } else {
        push_str(out, "(?<");
        push_str(out, name);
        push_str(out, ">[^/\\s]+)");
        assert(out@ =~= old(out)@ + ("(?<"@ + name@ + ">[^/\\s]+)"@));
    }
}

/// Puts the parts of an escaped template together as an expression.
fn build_pattern(literals: &Vec<String>, names: &Vec<Option<String>>) -> (r: Option<String>)
    ensures
        r.deep_view() == pattern_text(literals.deep_view(), names.deep_view()),
{
    let ghost parts = literals.deep_view();
    let ghost asked = names.deep_view();
    if literals.len() == 0 || literals.len() - 1 != names.len() {
        return None;
    }
    let mut out: Vec<char> = Vec::new();
    push_str(&mut out, literals[0].as_str());
    assert(parts[0] == literals@[0].deep_view());
    let mut k: usize = 0;
    while k < names.len()
        invariant
            0 <= k <= names.len(),
            literals.len() == names.len() + 1,
            parts == literals.deep_view(),
            asked == names.deep_view(),
            forall|j: int| 0 <= j < k ==> (#[trigger] asked[j]) is Some,
            out@ == expanded(parts, asked, k as int),
        decreases names.len() - k,
    {
        assert(asked[k as int] == names@[k as int].deep_view());
        assert(parts[k + 1] == literals@[k + 1].deep_view());
        match &names[k] {
            None => {
                return None;
            },
            Some(name) => {
                push_group(&mut out, name.as_str());
            },
        }
        push_str(&mut out, literals[k + 1].as_str());
        k += 1;
    }
    Some(string_from_chars(&out))
}

/// The expression text for a template.
fn anchor(template: &str) -> (r: String)
    ensures
        r@ == anchored(template@),
{
    let quoted = escape(template);
    let mut out: Vec<char> = Vec::new();
    out.push('^');
    push_str(&mut out, quoted.as_str());
    out.push('$');
    assert(out@ =~= anchored(template@));
    string_from_chars(&out)
}

/// Compiles the expression made of the parts of an escaped template.
fn compile_parts(literals: &Vec<String>, names: &Vec<Option<String>>) -> (r: Option<Pattern>)
    ensures
        match r {
            Some(re) => Some(re.source()) == pattern_text(
                literals.deep_view(),
                names.deep_view(),
            ) && compiles(re.source()),
            None => pattern_text(literals.deep_view(), names.deep_view()) is None || !compiles(
                pattern_text(literals.deep_view(), names.deep_view())->Some_0,
            ),
        },
{
    match build_pattern(literals, names) {
        None => None,
        Some(text) => match Pattern::new(text.as_str()) {
            Ok(re) => Some(re),
            Err(_) => None,
        },
    }
}

/// The names that a command asks for.
fn scan_command(found: &Vec<Option<String>>) -> (values: Vec<String>)
    ensures
        values.deep_view() == command_values(found.deep_view()),
{
    let ghost all = found.deep_view();
    let mut values: Vec<String> = Vec::new();
    let mut i: usize = 0;
    assert(all.take(0) =~= Seq::<Option<Seq<char>>>::empty());
    assert(values.deep_view() =~= Seq::<Seq<char>>::empty());
    while i < found.len()
        invariant
            0 <= i <= found.len(),
            all == found.deep_view(),
            values.deep_view() == command_values(all.take(i as int)),
        decreases found.len() - i,
    {
        let ghost before = values.deep_view();
        assert(all.take(i + 1).drop_last() =~= all.take(i as int));
        assert(all.take(i + 1).last() == found@[i as int].deep_view());
        match &found[i] {
            None => {},
            Some(name) => {
                if !same_text(name.as_str(), "file") {
                    values.push(owned(name.as_str()));
                    assert(values.deep_view() =~= before.push(name@));
                }
            },
        }
        i += 1;
    }
    assert(all.take(all.len() as int) =~= all);
    values
}

/// Whether each of `names` is among `a` or among `b`.
fn each_given(names: &Vec<String>, a: &Vec<String>, b: &Vec<String>) -> (r: bool)
    ensures
        r == all_given(names.deep_view(), a.deep_view(), b.deep_view()),
{
    let ghost all = names.deep_view();
    let mut i: usize = 0;
    while i < names.len()
        invariant
            0 <= i <= names.len(),
            all == names.deep_view(),
            forall|j: int|
                0 <= j < i ==> a.deep_view().contains(#[trigger] all[j]) || b.deep_view().contains(
                    all[j],
                ),
        decreases names.len() - i,
    {
        assert(all[i as int] == names@[i as int]@);
        if !contains_name(a, names[i].as_str()) && !contains_name(b, names[i].as_str()) {
            return false;
        }
        i += 1;
    }
    true
}

/// A list of its own with the same names.
fn copy_names(list: &Vec<String>) -> (copy: Vec<String>)
    ensures
        copy.deep_view() == list.deep_view(),
{
    let mut copy: Vec<String> = Vec::new();
    let mut i: usize = 0;
    while i < list.len()
        invariant
            0 <= i <= list.len(),
            copy@.len() == i,
            forall|j: int| 0 <= j < i ==> (#[trigger] copy@[j])@ == list@[j]@,
        decreases list.len() - i,
    {
        copy.push(owned(list[i].as_str()));
        i += 1;
    }
    assert(copy.deep_view() =~= list.deep_view());
    copy
}

fn copy_listed(list: &Option<Vec<String>>) -> (copy: Vec<String>)
    ensures
        copy.deep_view() == listed(*list),
{
    match list {
        None => {
            let copy: Vec<String> = Vec::new();
            assert(copy.deep_view() =~= Seq::<Seq<char>>::empty());
            copy
        },
        Some(names) => copy_names(names),
    }
}

/// Makes a kind of task of its section, or says what is wrong with it.
fn build_task(
    task: &parsing::ConfigTask,
    index: usize,
    path: &Vec<String>,
    content: &Vec<String>,
    braced: &Pattern,
) -> (r: Result<ConfigTask, ConfigError>)
    ensures
        match task_issue(*task, index, path.deep_view(), content.deep_view(), *braced) {
            Some(e) => r == Err::<ConfigTask, ConfigError>(e),
            None => r is Ok && task_built(r->Ok_0, *task, *braced),
        },
{
    let asked = regex_captures_iter(braced, task.command.as_str(), NAME_GROUP);
    let command_values = scan_command(&asked);
    if !each_given(&command_values, path, content) {
        return Err(ConfigError::UnknownCommandValue { task: index });
    }
    if !finds_name(&asked, "file") {
        return Err(ConfigError::CommandWithoutFile { task: index });
    }
    let file_format_values = template_names(braced, task.file_format.as_str());
    if !each_given(&file_format_values, content, path) {
        return Err(ConfigError::UnknownFormatValue { task: index });
    }
    let timeout = match &task.timeout {
        None => None,
        Some(text) => match duration_from_string(text.as_str()) {
            Err(error) => {
                return Err(ConfigError::BadTimeout { task: index, error });
            },
            Ok(span) => Some(span),
        },
    };
    Ok(
        ConfigTask {
            name: owned(task.name.as_str()),
            command: owned(task.command.as_str()),
            command_values,
            file_format: owned(task.file_format.as_str()),
            file_format_values,
            overrides: copy_listed(&task.overrides),
            conflicts: copy_listed(&task.conflicts),
            timeout,
        },
    )
}

proof fn lemma_first_task_issue(
    tasks: Seq<parsing::ConfigTask>,
    path: Seq<Seq<char>>,
    content: Seq<Seq<char>>,
    braced: Pattern,
    k: int,
)
    requires
        0 <= k <= tasks.len(),
        first_task_issue(tasks.take(k), path, content, braced) is Some,
    ensures
        first_task_issue(tasks, path, content, braced) == first_task_issue(
            tasks.take(k),
            path,
            content,
            braced,
        ),
    decreases tasks.len() - k,
{
    if k == tasks.len() {
        assert(tasks.take(k) =~= tasks);
    } else {
        assert(tasks.drop_last().take(k) =~= tasks.take(k));
        lemma_first_task_issue(tasks.drop_last(), path, content, braced, k);
    }
}

/// Reads one interval or timeout of the options.
fn read_option(text: &str, field: OptionField) -> (r: Result<Duration, ConfigError>)
    ensures
        match option_fault(text@, field) {
            Some(e) => r == Err::<Duration, ConfigError>(e),
            None => r is Ok && duration_of(text@) == Ok::<Duration, DurationError>(r->Ok_0),
        },
{
    match duration_from_string(text) {
        Ok(span) => Ok(span),
        Err(error) => Err(ConfigError::BadOption { field, error }),
    }
}

/// The position of the first host section of the name `hostname`.
fn find_host(hosts: &Vec<parsing::ConfigHost>, hostname: &String) -> (at: usize)
    ensures
        at == host_position(hosts@, hostname@),
        at <= hosts.len(),
{
    let mut i: usize = 0;
    assert(hosts@.skip(0) =~= hosts@);
    while i < hosts.len()
        invariant
            0 <= i <= hosts.len(),
            host_position(hosts@, hostname@) == i + host_position(hosts@.skip(i as int), hostname@),
        decreases hosts.len() - i,
    {
        let ghost rest = hosts@.skip(i as int);
        assert(rest[0] == hosts@[i as int]);
        assert(rest.drop_first() =~= hosts@.skip(i + 1));
        if hosts[i].name == *hostname {
            return i;
        }
        i += 1;
    }
    assert(hosts@.skip(hosts@.len() as int) =~= Seq::<parsing::ConfigHost>::empty());
    i
}

impl Config {
    /// Makes the configuration of the host `hostname` from its written
    /// form, or reports the first fault of the written form.
    ///
    /// `patterns` are the expressions that find placeholders.
    #[verifier::loop_isolation(false)]
    pub fn from(confhost: (parsing::ParsedConfig, String), patterns: Patterns) -> (r: Result<
        Config,
        ConfigError,
    >)
        ensures
            match config_issue(confhost.0, confhost.1@, patterns) {
                Some(e) => r == Err::<Config, ConfigError>(e),
                None => r is Ok && config_built(r->Ok_0, confhost.0, confhost.1@, patterns),
            },
    {
        let (parsed, hostname) = confhost;
        let parsing::ParsedConfig { options, hosts, tasks } = parsed;
        let mut hosts = hosts;
        let at = find_host(&hosts, &hostname);
        if at >= hosts.len() {
            return Err(ConfigError::UnknownHost);
        }
        let path_text = anchor(options.task_file_path.as_str());
        let content_text = anchor(options.task_file_content.as_str());
        let path_names = regex_captures_iter(&patterns.escaped, path_text.as_str(), NAME_GROUP);
        let content_names = regex_captures_iter(
            &patterns.escaped,
            content_text.as_str(),
            NAME_GROUP,
        );
        let task_path_values = match scan_path_keys(&path_names) {
            Err(e) => {
                return Err(e);
            },
            Ok(keys) => keys,
        };
        let task_content_values = match scan_content_keys(&content_names, &task_path_values) {
            Err(e) => {
                return Err(e);
            },
            Ok(keys) => keys,
        };
        if !finds_name(&path_names, "task") {
            return Err(ConfigError::MissingTaskValue);
        }
        let host = &hosts[at];
        if host.pods.is_some() && !contains_name(&task_path_values, "pod") {
            return Err(ConfigError::MissingCoordinate(Coordinate::Pod));
        }
        if host.blocks.is_some() && !contains_name(&task_path_values, "block") {
            return Err(ConfigError::MissingCoordinate(Coordinate::Block));
        }
        if host.caps.is_some() && !contains_name(&task_path_values, "cap") {
            return Err(ConfigError::MissingCoordinate(Coordinate::Cap));
        }
        if host.scatters.is_some() && !contains_name(&task_path_values, "scatter") {
            return Err(ConfigError::MissingCoordinate(Coordinate::Scatter));
        }
        let path_parts = regex_split(&patterns.escaped, path_text.as_str());
        let task_path_regex = match compile_parts(&path_parts, &path_names) {
            None => {
                return Err(ConfigError::PathPatternRefused);
            },
            Some(re) => re,
        };
        let content_parts = regex_split(&patterns.escaped, content_text.as_str());
        let task_content_regex = match compile_parts(&content_parts, &content_names) {
            None => {
                return Err(ConfigError::ContentPatternRefused);
            },
            Some(re) => re,
        };
        let ghost path_keys = task_path_values.deep_view();
        let ghost content_keys = task_content_values.deep_view();
        let mut built: Vec<Arc<ConfigTask>> = Vec::new();
        let mut i: usize = 0;
        assert(tasks@.take(0) =~= Seq::<parsing::ConfigTask>::empty());
        while i < tasks.len()
            invariant
                0 <= i <= tasks.len(),
                path_keys == task_path_values.deep_view(),
                content_keys == task_content_values.deep_view(),
                built@.len() == i,
                first_task_issue(tasks@.take(i as int), path_keys, content_keys, patterns.braced)
                    is None,
                forall|j: int|
                    0 <= j < i ==> task_built(*(#[trigger] built@[j]), tasks@[j], patterns.braced),
            decreases tasks.len() - i,
        {
            assert(tasks@.take(i + 1).drop_last() =~= tasks@.take(i as int));
            assert(tasks@.take(i + 1).last() == tasks@[i as int]);
            match build_task(&tasks[i], i, &task_path_values, &task_content_values, &patterns.braced) {
                Err(e) => {
                    proof {
                        lemma_first_task_issue(
                            tasks@,
                            path_keys,
                            content_keys,
                            patterns.braced,
                            i + 1,
                        );
                    }
                    return Err(e);
                },
                Ok(task) => {
                    built.push(Arc::new(task));
                },
            }
            i += 1;
        }
        assert(tasks@.take(tasks@.len() as int) =~= tasks@);
        let status_frequency = match read_option(
            options.status_frequency.as_str(),
            OptionField::StatusFrequency,
        ) {
            Err(e) => {
                return Err(e);
            },
            Ok(span) => span,
        };
        let cleanup_frequency = match read_option(
            options.cleanup_frequency.as_str(),
            OptionField::CleanupFrequency,
        ) {
            Err(e) => {
                return Err(e);
            },
            Ok(span) => span,
        };
        let scan_frequency = match read_option(
            options.scan_frequency.as_str(),
            OptionField::ScanFrequency,
        ) {
            Err(e) => {
                return Err(e);
            },
            Ok(span) => span,
        };
        let filter_frequency = match read_option(
            options.filter_frequency.as_str(),
            OptionField::FilterFrequency,
        ) {
            Err(e) => {
                return Err(e);
            },
            Ok(span) => span,
        };
        let poll_frequency = match read_option(
            options.poll_frequency.as_str(),
            OptionField::PollFrequency,
        ) {
            Err(e) => {
                return Err(e);
            },
            Ok(span) => span,
        };
        let check_frequency = match read_option(
            options.check_frequency.as_str(),
            OptionField::CheckFrequency,
        ) {
            Err(e) => {
                return Err(e);
            },
            Ok(span) => span,
        };
        let hard_timeout = match read_option(
            options.hard_timeout.as_str(),
            OptionField::HardTimeout,
        ) {
            Err(e) => {
                return Err(e);
            },
            Ok(span) => span,
        };
        let cleanup_timeout = match read_option(
            options.cleanup_timeout.as_str(),
            OptionField::CleanupTimeout,
        ) {
            Err(e) => {
                return Err(e);
            },
            Ok(span) => span,
        };
        let parsing::ConfigHost { name: _, pods, blocks, caps, scatters } = hosts.remove(at);
        let Patterns { braced, escaped: _ } = patterns;
        let parsing::ConfigOptions {
            status_frequency: _,
            cleanup_frequency: _,
            scan_frequency: _,
            filter_frequency: _,
            poll_frequency: _,
            check_frequency: _,
            task_parallelism,
            hard_timeout: _,
            cleanup_timeout: _,
            root: _,
            input_subdir,
            processing_subdir,
            output_success_subdir,
            output_failure_subdir,
            logged_failure_subdir,
            task_file_path: _,
            task_file_content: _,
        } = options;
        Ok(
            Config {
                status_frequency,
                cleanup_frequency,
                scan_frequency,
                filter_frequency,
                poll_frequency,
                check_frequency,
                task_parallelism,
                hard_timeout,
                cleanup_timeout,
                input_subdir,
                processing_subdir,
                output_success_subdir,
                output_failure_subdir,
                logged_failure_subdir,
                task_path_values,
                task_path_regex,
                task_content_values,
                task_content_regex,
                braced_name_regex: braced,
                host: hostname,
                pods,
                blocks,
                caps,
                scatters,
                tasks: built,
            },
        )
    }

    /// The kind of task of the name `name`: the first of that name.
    pub fn find_task(&self, name: &str) -> (r: Option<usize>)
        ensures
            match r {
                Some(i) => i < self.tasks@.len() && self.tasks@[i as int].name@ == name@ && forall|
                    j: int,
                |
                    0 <= j < i ==> (#[trigger] self.tasks@[j]).name@ != name@,
                None => forall|j: int|
                    0 <= j < self.tasks@.len() ==> (#[trigger] self.tasks@[j]).name@ != name@,
            },
    {
        let mut i: usize = 0;
        while i < self.tasks.len()
            invariant
                0 <= i <= self.tasks.len(),
                forall|j: int| 0 <= j < i ==> (#[trigger] self.tasks@[j]).name@ != name@,
            decreases self.tasks.len() - i,
        {
            if same_text(self.tasks[i].name.as_str(), name) {
                return Some(i);
            }
            i += 1;
        }
        None
    }
}

} // verus!
