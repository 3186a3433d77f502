//! What is reported when one of the service's long-running tasks ends.

use vstd::prelude::*;
use vstd::string::StringExecFns;

verus! {

/// How a task ended.
pub enum TaskExit {
    /// It returned without an error.
    Completed,
    /// It returned this error.
    Failed(String),
    /// It did not run to its end: it panicked or was cancelled.
    Aborted(String),
}

/// How much a report matters.
#[derive(Debug, Clone, Copy, PartialEq, Eq, Structural)]
pub enum Severity {
    Info,
    Error,
}

/// One line for the log.
pub struct ExitReport {
    pub severity: Severity,
    pub message: String,
    pub cause: Option<String>,
}

/// The report on the end of the task `task_name`.
pub open spec fn exit_report(task_name: Seq<char>, outcome: TaskExit, report: ExitReport) -> bool {
    match outcome {
        TaskExit::Completed => {
            &&& report.severity == Severity::Info
            &&& report.message@ == task_name + " has exited"@
            &&& report.cause is None
        },
        TaskExit::Failed(error) => {
            &&& report.severity == Severity::Error
            &&& report.message@ == task_name + " failed"@
            &&& report.cause == Some(error)
        },
        TaskExit::Aborted(error) => {
            &&& report.severity == Severity::Error
            &&& report.message@ == task_name + "' task failed to complete"@
            &&& report.cause == Some(error)
        },
    }
}

/// Words the end of a task for the log: an orderly end is information,
/// an error or an abort is an error and keeps its cause.
pub fn report_exit(task_name: &str, outcome: TaskExit) -> (report: ExitReport)
    ensures
        exit_report(task_name@, outcome, report),
{
    match outcome {
        TaskExit::Completed => ExitReport {
            severity: Severity::Info,
            message: String::from_str(task_name).concat(" has exited"),
            cause: None,
        },
        TaskExit::Failed(error) => ExitReport {
            severity: Severity::Error,
            message: String::from_str(task_name).concat(" failed"),
            cause: Some(error),
        },
        TaskExit::Aborted(error) => ExitReport {
            severity: Severity::Error,
            message: String::from_str(task_name).concat("' task failed to complete"),
            cause: Some(error),
        },
    }
}

} // verus!
