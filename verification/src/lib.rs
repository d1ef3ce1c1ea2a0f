//! Orchestration of tape-archive tasks, with its rules proved.
//!
//! Client programs drop task files, lists of objects with an operation,
//! into an input directory. A runner takes each file through four stages:
//! it is grabbed, filtered line by line against the claims of the tasks
//! that already run, launched as one process per distinct command, and
//! checked until the client has taken the result away.
//!
//! This library holds the decisions of that work. Files, processes and
//! clocks stay outside: every step is told what was read or seen, and
//! answers with the new state and with what is to be done.
//!
//! - [`objtable`]: which kinds of task hold which object, and the answer
//!   to each new claim.
//! - [`task`]: a task and its stages; [`subtask`]: one command of a task.
//! - [`runner`]: the tasks of each stage, the state of the whole, and the
//!   measured times; [`report`]: the status as text.
//! - [`processing`]: the layout of the staging area.
//! - [`config`]: the configuration and how it is made from its written
//!   form; [`template`] and [`values`]: templates with placeholders.
//! - [`cleanup`]: what becomes of leftovers.
//! - [`thresholds`], [`scanner`], [`scan`]: the rules of the scanners that
//!   pick files to flush or push.
//! - [`format`] and [`text`]: spans of time, numbers and strings.
pub mod cleanup;
pub mod config;
pub mod format;
pub mod objtable;
pub mod processing;
pub mod report;
pub mod runner;
pub mod scan;
pub mod scanner;
pub mod subtask;
pub mod task;
pub mod template;
pub mod text;
pub mod thresholds;
pub mod values;
