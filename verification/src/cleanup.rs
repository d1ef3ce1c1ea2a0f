//! What is done with what an earlier run left behind: in the staging
//! area at start, and in the output directories from time to time.
use crate::config::Config;
use crate::format::Duration;
use crate::processing::{
    below, join_below, path_outcome, ElementView, PathError, PathView, ProcessingPath,
    ProcessingPathElement,
};
use vstd::prelude::*;

verus! {

/// What is made of an entry of the processing directory while the
/// directory of this host is looked for.
#[derive(Clone, Copy, Debug, PartialEq, Eq, Structural)]
pub enum SearchStep {
    /// The entry is the directory of this host: the search is over, and
    /// goes on below the entry where it is a directory.
    Found,
    /// The entry is a place of this host below its directory, which the
    /// search should never meet before the directory itself.
    Unexpected,
    /// The entry is a directory that is nothing of this host: it is not
    /// entered.
    Omit,
    /// The entry is a file that is nothing of this host: it is reported.
    Report(PathError),
}

/// What is made of an entry at `path` while the directory of this host
/// is looked for.
pub open spec fn search_step_of(config: Config, path: Seq<char>, is_dir: bool) -> SearchStep {
    match path_outcome(config.processing_subdir@, config.host@, path) {
        Ok(place) => if place.process is None && place.timestamp is None && place.element
            is IntermediateDir {
            SearchStep::Found
        } else {
            SearchStep::Unexpected
        },
        Err(e) => if is_dir {
            SearchStep::Omit
        } else {
            SearchStep::Report(e)
        },
    }
}

/// What is made of an entry at `path` while the directory of this host
/// is looked for.
pub fn search_step(config: &Config, path: &str, is_dir: bool) -> (r: SearchStep)
    ensures
        r == search_step_of(*config, path@, is_dir),
{
    match ProcessingPath::try_from(path, config.processing_subdir.as_str(), config.host.as_str()) {
        Ok(place) => {
            let plain: bool = match place.element() {
                ProcessingPathElement::IntermediateDir => true,
                _ => false,
            };
            if place.process().is_none() && place.timestamp().is_none() && plain {
                SearchStep::Found
            } else {
                SearchStep::Unexpected
            }
        },
        Err(e) => {
            if is_dir {
                SearchStep::Omit
            } else {
                SearchStep::Report(e)
            }
        },
    }
}

/// What is done with a leftover of the staging area.
#[derive(Debug)]
pub enum LeftoverAction {
    RemoveDir,
    RemoveFile,
    /// Move the task file to this path, among the failures.
    Archive(String),
}

/// What is done with a leftover at the place `place`: directories are
/// removed; a task file as it was found is put away with the failures,
/// under its path below the input directory; every other file is
/// removed.
pub open spec fn leftover_of(config: Config, place: PathView, is_file: bool, action: LeftoverAction) -> bool {
    match place.element {
        ElementView::IntermediateDir => action is RemoveDir,
        ElementView::OriginalTaskfile(path) => if is_file {
            action is Archive && action->Archive_0@ == below(config.output_failure_subdir@, path)
        } else {
            action is RemoveDir
        },
        ElementView::FilteredTaskfile => action is RemoveFile,
        ElementView::SubTaskDir(_) => action is RemoveDir,
        ElementView::SubTaskInput(_) => action is RemoveFile,
        ElementView::SubTaskOutput(_) => action is RemoveFile,
    }
}

/// What is done with the leftover at `path`; or why the path is no place
/// of the staging area of this host.
pub fn leftover_action(config: &Config, path: &str, is_file: bool) -> (r: Result<
    LeftoverAction,
    PathError,
>)
    ensures
        match path_outcome(config.processing_subdir@, config.host@, path@) {
            Ok(place) => r is Ok && leftover_of(*config, place, is_file, r->Ok_0),
            Err(e) => r == Err::<LeftoverAction, PathError>(e),
        },
{
    let place = match ProcessingPath::try_from(
        path,
        config.processing_subdir.as_str(),
        config.host.as_str(),
    ) {
        Err(e) => {
            return Err(e);
        },
        Ok(place) => place,
    };
    let action = match place.element() {
        ProcessingPathElement::IntermediateDir => LeftoverAction::RemoveDir,
        ProcessingPathElement::OriginalTaskfile(subpath) => {
            if is_file {
                LeftoverAction::Archive(
                    join_below(config.output_failure_subdir.as_str(), subpath.as_str()),
                )
            } else {
                LeftoverAction::RemoveDir
            }
        },
        ProcessingPathElement::FilteredTaskfile => LeftoverAction::RemoveFile,
        ProcessingPathElement::SubTaskDir(_) => LeftoverAction::RemoveDir,
        ProcessingPathElement::SubTaskInput(_) => LeftoverAction::RemoveFile,
        ProcessingPathElement::SubTaskOutput(_) => LeftoverAction::RemoveFile,
    };
    Ok(action)
}

/// Whether an entry of the output directories that was last used `age`
/// ago is to be removed: it is when it has reached the timeout for
/// cleaning up.
pub fn output_cleanup_due(config: &Config, age: &Duration) -> (r: bool)
    ensures
        r == (age.total_nanos() >= config.cleanup_timeout.total_nanos()),
{
    age.at_least(&config.cleanup_timeout)
}

} // verus!
