//! Jobs that are ready to be started by the job runner.
use crate::command::{CommandLine, Line};
use crate::path::FilePath;
use vstd::prelude::*;

verus! {

/// One process.
#[derive(Debug, PartialEq, Eq)]
pub struct SingleJob {
    pub label: String,
    pub input: FilePath,
    pub command: CommandLine,
    pub log_dir: FilePath,
}

/// Two processes, the output of the first piped into the second.
#[derive(Debug, PartialEq, Eq)]
pub struct PipeJob {
    pub label: String,
    pub input: FilePath,
    pub producer: CommandLine,
    pub consumer: CommandLine,
    pub log_dir: FilePath,
}

/// What a step of a sequence does: run a command (`L`), or normalize the
/// loudness of one file into another (`P`) in two passes, towards a target and
/// with a number of threads (`T`).
#[derive(Debug, PartialEq, Eq)]
pub enum Action<L, P, T> {
    Run(L),
    Normalize { input: P, output: P, target_i: T, threads: T },
}

/// An action over plain values.
pub type ActionView = Action<Line, Seq<u8>, Seq<char>>;

impl View for Action<CommandLine, FilePath, String> {
    type V = ActionView;

    open spec fn view(&self) -> ActionView {
        match *self {
            Action::Run(cmd) => Action::Run(cmd@),
            Action::Normalize { input, output, target_i, threads } => Action::Normalize {
                input: input@,
                output: output@,
                target_i: target_i@,
                threads: threads@,
            },
        }
    }
}

/// One step of a sequence, with the title shown while it runs.
#[derive(Debug, PartialEq, Eq)]
pub struct Step {
    pub title: &'static str,
    pub action: Action<CommandLine, FilePath, String>,
}

impl View for Step {
    type V = (Seq<char>, ActionView);

    open spec fn view(&self) -> (Seq<char>, ActionView) {
        (self.title@, self.action@)
    }
}

/// The steps behind a list.
pub open spec fn step_views(steps: Seq<Step>) -> Seq<(Seq<char>, ActionView)> {
    steps.map_values(|s: Step| s@)
}

/// Steps that run one after the other, with a scratch directory for the files
/// they hand on.
#[derive(Debug, PartialEq, Eq)]
pub struct SequenceJob {
    pub label: String,
    pub input: FilePath,
    pub steps: Vec<Step>,
    pub work_dir: FilePath,
    pub log_dir: FilePath,
}

} // verus!
