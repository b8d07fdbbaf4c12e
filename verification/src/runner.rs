//! The decisions of a worker's task runner.
//!
//! Running a task alternates work on the file system and the process table
//! with decisions about what to do next. The decisions are `task_run`: from
//! the current state and what just happened to the next state and the next
//! thing to do. The caller performs each action and reports back.

use vstd::prelude::*;
use vstd::string::StringExecFns;

verus! {

/// A decoded execution descriptor: the command line and the relative paths
/// of the declared inputs and outputs, in the order of the task's lists.
#[derive(Clone, Debug)]
pub struct TaskDescriptor {
    pub args: Vec<String>,
    pub input_paths: Vec<String>,
    pub output_paths: Vec<String>,
}

/// Why a run failed.
#[derive(Clone, Copy, PartialEq, Eq, Structural, Debug)]
pub enum RunError {
    /// The descriptor holds no program name.
    EmptyArguments,
    /// The process exited with this non-zero code.
    ExitCode(i32),
    /// The process was terminated by a signal.
    Signal,
    /// The process exited with zero but the output with this index is not
    /// at its declared path.
    OutputNotFound(usize),
    /// The process exited with zero but the descriptor declares another
    /// number of output paths than the task has outputs, so the run cannot
    /// produce exactly the task's outputs.
    OutputCountMismatch,
    /// The scratch directory, a file or the process could not be handled.
    Io,
    /// An event was reported that the state does not wait for.
    Unexpected,
}

/// How far a run has come.
#[derive(Clone, Copy, PartialEq, Eq, Structural, Debug)]
pub enum RunState {
    /// Nothing has been done yet.
    Start,
    /// The scratch directory is being made.
    MakingDir,
    /// The input with this index is being put at its path.
    MappingInput(usize),
    /// The capture files for standard output and error are being created.
    Capturing,
    /// The process runs.
    Running,
    /// The process failed, with this exit code or by a signal; its captured
    /// standard error is being read.
    ReadingStderr(Option<i32>),
    /// The output with this index is being claimed.
    Claiming(usize),
    /// The run is over and the scratch directory released.
    Finished,
}

/// What the caller reports.
#[derive(Clone, Copy, PartialEq, Eq, Structural, Debug)]
pub enum RunEvent {
    /// The run is asked to begin.
    Begin,
    /// The last action was carried out.
    Done,
    /// The process ended, with this exit code or by a signal.
    Exited(Option<i32>),
    /// The output to claim is not a file.
    Missing,
    /// The last action failed in the file system or the process table.
    IoError,
}

/// What the caller is to do next.
#[derive(Clone, Copy, PartialEq, Eq, Structural, Debug)]
pub enum RunAction {
    /// Make a fresh scratch directory.
    MakeTempDir,
    /// Put the payload of the input with this index at its path in the
    /// scratch directory.
    MapInput { index: usize },
    /// Create the two capture files in the scratch directory.
    CreateCapture,
    /// Start the process in the scratch directory; its standard input is
    /// the file of the input with index `stdin`, if there is one.
    Spawn { stdin: Option<usize> },
    /// Read the captured standard error; report `Done` if it was read and
    /// `IoError` if it could not be: the failure is reported either way.
    ReadStderr,
    /// Move the output with this index out of the scratch directory and
    /// write it to its data object; report `Missing` if it is not a file.
    ClaimOutput { index: usize },
    /// Release the scratch directory and report success.
    Succeed,
    /// Release the scratch directory and report this failure.
    Fail(RunError),
}

/// The path that names the process's standard input.
pub open spec fn stdin_name() -> Seq<char> {
    seq!['+', 'i', 'n']
}

pub open spec fn min_of(a: int, b: int) -> int {
    if a <= b {
        a
    } else {
        b
    }
}

impl TaskDescriptor {
    /// How many inputs are put in place: the declared paths and the task's
    /// inputs are paired as far as both reach.
    pub open spec fn mapped_inputs(&self, n_inputs: usize) -> int {
        min_of(self.input_paths@.len() as int, n_inputs as int)
    }

    /// The descriptor declares exactly one path for each output of the
    /// task. Only then can a run succeed.
    pub open spec fn outputs_agree(&self, n_outputs: usize) -> bool {
        self.output_paths@.len() == n_outputs
    }

    /// The input with index `i` is declared at the standard-input path.
    pub open spec fn is_stdin(&self, i: int) -> bool {
        self.input_paths@[i]@ == stdin_name()
    }

    /// The last of the first `m` inputs that is declared at the
    /// standard-input path.
    pub open spec fn stdin_source(&self, m: int) -> Option<usize>
        decreases m,
    {
        if m <= 0 {
            None
        } else if self.is_stdin(m - 1) {
            Some((m - 1) as usize)
        } else {
            self.stdin_source(m - 1)
        }
    }

    /// What follows once the inputs before `i` are in place.
    pub open spec fn after_inputs(&self, n_inputs: usize, i: int) -> (RunState, RunAction) {
        if i < self.mapped_inputs(n_inputs) {
            (RunState::MappingInput(i as usize), RunAction::MapInput { index: i as usize })
        } else {
            (RunState::Capturing, RunAction::CreateCapture)
        }
    }

    /// What follows once the outputs before `i` are claimed, for a task
    /// with `n_outputs` outputs whose paths are all declared.
    pub open spec fn after_outputs(&self, n_outputs: usize, i: int) -> (RunState, RunAction) {
        if i < n_outputs {
            (RunState::Claiming(i as usize), RunAction::ClaimOutput { index: i as usize })
        } else {
            (RunState::Finished, RunAction::Succeed)
        }
    }

    /// The transition of the runner: the next state and the action to take.
    pub open spec fn next(
        &self,
        n_inputs: usize,
        n_outputs: usize,
        state: RunState,
        event: RunEvent,
    ) -> (RunState, RunAction) {
        let stop = (RunState::Finished, RunAction::Fail(RunError::Unexpected));
        match (state, event) {
            (RunState::Finished, _) => stop,
            (RunState::ReadingStderr(code), RunEvent::IoError) => (
                RunState::Finished,
                RunAction::Fail(
                    match code {
                        Some(c) => RunError::ExitCode(c),
                        None => RunError::Signal,
                    },
                ),
            ),
            (_, RunEvent::IoError) => (RunState::Finished, RunAction::Fail(RunError::Io)),
            (RunState::Start, RunEvent::Begin) => if self.args@.len() == 0 {
                (RunState::Finished, RunAction::Fail(RunError::EmptyArguments))
            } else {
                (RunState::MakingDir, RunAction::MakeTempDir)
            },
            (RunState::MakingDir, RunEvent::Done) => self.after_inputs(n_inputs, 0),
            (RunState::MappingInput(i), RunEvent::Done) => if i < self.mapped_inputs(n_inputs) {
                self.after_inputs(n_inputs, i + 1)
            } else {
                stop
            },
            (RunState::Capturing, RunEvent::Done) => (
                RunState::Running,
                RunAction::Spawn { stdin: self.stdin_source(self.mapped_inputs(n_inputs)) },
            ),
            (RunState::Running, RunEvent::Exited(code)) => if code == Some(0i32) {
                if self.outputs_agree(n_outputs) {
                    self.after_outputs(n_outputs, 0)
                } else {
                    (RunState::Finished, RunAction::Fail(RunError::OutputCountMismatch))
                }
            } else {
                (RunState::ReadingStderr(code), RunAction::ReadStderr)
            },
            (RunState::ReadingStderr(code), RunEvent::Done) => (
                RunState::Finished,
                RunAction::Fail(
                    match code {
                        Some(c) => RunError::ExitCode(c),
                        None => RunError::Signal,
                    },
                ),
            ),
            (RunState::Claiming(i), RunEvent::Done) => if !self.outputs_agree(n_outputs) {
                (RunState::Finished, RunAction::Fail(RunError::OutputCountMismatch))
            } else if i < n_outputs {
                self.after_outputs(n_outputs, i + 1)
            } else {
                stop
            },
            (RunState::Claiming(i), RunEvent::Missing) => (
                RunState::Finished,
                RunAction::Fail(RunError::OutputNotFound(i)),
            ),
            _ => stop,
        }
    }

    /// The program to start: the first argument, if there is one.
    pub fn program(&self) -> (r: Option<&String>)
        ensures
            r.is_some() == (self.args@.len() > 0),
            r.is_some() ==> *r.unwrap() == self.args@[0],
    {
        if self.args.len() > 0 {
            Some(&self.args[0])
        } else {
            None
        }
    }

    /// The arguments handed to the program: all but the first.
    pub fn arguments(&self) -> (r: Vec<String>)
        ensures
            self.args@.len() > 0 ==> r@ == self.args@.skip(1),
            self.args@.len() == 0 ==> r@.len() == 0,
    {
        let mut r: Vec<String> = Vec::new();
        if self.args.len() == 0 {
            return r;
        }
        let mut i: usize = 1;
        while i < self.args.len()
            invariant
                1 <= i <= self.args.len(),
                r@ == self.args@.subrange(1, i as int),
            decreases self.args.len() - i,
        {
            r.push(self.args[i].clone());
            proof {
                assert(self.args@.subrange(1, i + 1) =~= self.args@.subrange(1, i as int).push(
                    self.args@[i as int],
                ));
            }
            i += 1;
        }
        proof {
            assert(self.args@.subrange(1, self.args@.len() as int) =~= self.args@.skip(1));
        }
        r
    }

    /// Whether the input with this index is declared and is to be the
    /// standard input.
    pub fn input_is_stdin(&self, index: usize) -> (r: bool)
        ensures
            r == (index < self.input_paths@.len() && self.is_stdin(index as int)),
    {
        if index >= self.input_paths.len() {
            return false;
        }
        let name = String::from_str("+in");
        proof {
            reveal_strlit("+in");
            assert(name@ =~= stdin_name());
        }
        self.input_paths[index] == name
    }

    fn count_inputs(&self, n_inputs: usize) -> (r: usize)
        ensures
            r == self.mapped_inputs(n_inputs),
    {
        if self.input_paths.len() <= n_inputs {
            self.input_paths.len()
        } else {
            n_inputs
        }
    }

    fn paths_match(&self, n_outputs: usize) -> (r: bool)
        ensures
            r == self.outputs_agree(n_outputs),
    {
        self.output_paths.len() == n_outputs
    }

    fn find_stdin(&self, m: usize) -> (r: Option<usize>)
        requires
            m <= self.input_paths@.len(),
        ensures
            r == self.stdin_source(m as int),
    {
        let mut r: Option<usize> = None;
        let mut i: usize = 0;
        while i < m
            invariant
                i <= m <= self.input_paths@.len(),
                r == self.stdin_source(i as int),
            decreases m - i,
        {
            if self.input_is_stdin(i) {
                r = Some(i);
            }
            i += 1;
        }
        r
    }

    fn step_inputs(&self, n_inputs: usize, i: usize) -> (r: (RunState, RunAction))
        ensures
            r == self.after_inputs(n_inputs, i as int),
    {
        if i < self.count_inputs(n_inputs) {
            (RunState::MappingInput(i), RunAction::MapInput { index: i })
        } else {
            (RunState::Capturing, RunAction::CreateCapture)
        }
    }

    fn step_outputs(&self, n_outputs: usize, i: usize) -> (r: (RunState, RunAction))
        ensures
            r == self.after_outputs(n_outputs, i as int),
    {
        if i < n_outputs {
            (RunState::Claiming(i), RunAction::ClaimOutput { index: i })
        } else {
            (RunState::Finished, RunAction::Succeed)
        }
    }
}

/// One decision of the runner for a task with `n_inputs` inputs and
/// `n_outputs` outputs: given the state and the event just reported, the
/// next state and the action that the caller carries out next.
///
/// A descriptor without arguments fails before anything is created. Inputs
/// are put in place before the process starts, and outputs are claimed only
/// after it exited with zero. A run succeeds only if it yields one output
/// for each output of the task: a descriptor that declares another number
/// of output paths fails the run after the process exited. Every path ends in `Succeed` or `Fail`, which
/// release the scratch directory.
pub fn task_run(
    descriptor: &TaskDescriptor,
    n_inputs: usize,
    n_outputs: usize,
    state: RunState,
    event: RunEvent,
) -> (r: (RunState, RunAction))
    ensures
        r == descriptor.next(n_inputs, n_outputs, state, event),
{
    let stop = (RunState::Finished, RunAction::Fail(RunError::Unexpected));
    match state {
        RunState::Finished => stop,
        RunState::Start => match event {
            RunEvent::IoError => (RunState::Finished, RunAction::Fail(RunError::Io)),
            RunEvent::Begin => {
                if descriptor.args.len() == 0 {
                    (RunState::Finished, RunAction::Fail(RunError::EmptyArguments))
                } else {
                    (RunState::MakingDir, RunAction::MakeTempDir)
                }
            },
            _ => stop,
        },
        RunState::MakingDir => match event {
            RunEvent::IoError => (RunState::Finished, RunAction::Fail(RunError::Io)),
            RunEvent::Done => descriptor.step_inputs(n_inputs, 0),
            _ => stop,
        },
        RunState::MappingInput(i) => match event {
            RunEvent::IoError => (RunState::Finished, RunAction::Fail(RunError::Io)),
            RunEvent::Done => {
                if i < descriptor.count_inputs(n_inputs) {
                    descriptor.step_inputs(n_inputs, i + 1)
                } else {
                    stop
                }
            },
            _ => stop,
        },
        RunState::Capturing => match event {
            RunEvent::IoError => (RunState::Finished, RunAction::Fail(RunError::Io)),
            RunEvent::Done => {
                let m = descriptor.count_inputs(n_inputs);
                (RunState::Running, RunAction::Spawn { stdin: descriptor.find_stdin(m) })
            },
            _ => stop,
        },
        RunState::Running => match event {
            RunEvent::IoError => (RunState::Finished, RunAction::Fail(RunError::Io)),
            RunEvent::Exited(code) => {
                let zero = match code {
                    Some(c) => c == 0,
                    None => false,
                };
                if zero {
                    if descriptor.paths_match(n_outputs) {
                        descriptor.step_outputs(n_outputs, 0)
                    } else {
                        (RunState::Finished, RunAction::Fail(RunError::OutputCountMismatch))
                    }
                } else {
                    (RunState::ReadingStderr(code), RunAction::ReadStderr)
                }
            },
            _ => stop,
        },
        RunState::ReadingStderr(code) => match event {
            RunEvent::Done | RunEvent::IoError => {
                let e = match code {
                    Some(c) => RunError::ExitCode(c),
                    None => RunError::Signal,
                };
                (RunState::Finished, RunAction::Fail(e))
            },
            _ => stop,
        },
        RunState::Claiming(i) => match event {
            RunEvent::IoError => (RunState::Finished, RunAction::Fail(RunError::Io)),
            RunEvent::Done => {
                if !descriptor.paths_match(n_outputs) {
                    (RunState::Finished, RunAction::Fail(RunError::OutputCountMismatch))
                } else if i < n_outputs {
                    descriptor.step_outputs(n_outputs, i + 1)
                } else {
                    stop
                }
            },
            RunEvent::Missing => (RunState::Finished, RunAction::Fail(RunError::OutputNotFound(i))),
            _ => stop,
        },
    }
}

/// The phases of a run come in order. No directory is made for a descriptor
/// without arguments. The process is started only from the state in which
/// the capture files were created, which is entered only once every paired
/// input is in place. An output is claimed only after an exit with zero, at
/// an index that both the descriptor and the task have. Success is reported
/// only if the descriptor declares exactly as many output paths as the task
/// has outputs and the last of them was claimed: a run that yields fewer
/// outputs than the task has, or that misses a file, never succeeds.
pub proof fn law_phases_in_order(
    d: TaskDescriptor,
    n_inputs: usize,
    n_outputs: usize,
    state: RunState,
    event: RunEvent,
)
    ensures
        d.args@.len() == 0 ==> d.next(n_inputs, n_outputs, RunState::Start, RunEvent::Begin)
            == (RunState::Finished, RunAction::Fail(RunError::EmptyArguments)),
        d.next(n_inputs, n_outputs, state, event).1 == RunAction::MakeTempDir ==> state
            == RunState::Start && d.args@.len() > 0,
        d.next(n_inputs, n_outputs, state, event).1 is Spawn ==> state == RunState::Capturing,
        d.next(n_inputs, n_outputs, state, event).0 == RunState::Capturing ==> (state
            == RunState::MakingDir && d.mapped_inputs(n_inputs) == 0) || (state
            == RunState::MappingInput((d.mapped_inputs(n_inputs) - 1) as usize) && d.mapped_inputs(
            n_inputs,
        ) > 0),
        d.next(n_inputs, n_outputs, state, event).1 is ClaimOutput ==> d.outputs_agree(n_outputs)
            && d.next(n_inputs, n_outputs, state, event).1->ClaimOutput_index < n_outputs && ((state
            == RunState::Running && event == RunEvent::Exited(Some(0i32))) || (state is Claiming
            && event == RunEvent::Done)),
        d.next(n_inputs, n_outputs, state, event).1 == RunAction::Succeed ==> d.outputs_agree(
            n_outputs,
        ) && ((state == RunState::Running && event == RunEvent::Exited(Some(0i32)) && n_outputs
            == 0) || (state == RunState::Claiming((n_outputs - 1) as usize) && event
            == RunEvent::Done && n_outputs > 0)),
        !d.outputs_agree(n_outputs) ==> d.next(
            n_inputs,
            n_outputs,
            RunState::Running,
            RunEvent::Exited(Some(0i32)),
        ) == (RunState::Finished, RunAction::Fail(RunError::OutputCountMismatch)),
        d.next(n_inputs, n_outputs, state, event).0 == RunState::Finished <==> (d.next(
            n_inputs,
            n_outputs,
            state,
            event,
        ).1 is Fail || d.next(n_inputs, n_outputs, state, event).1 == RunAction::Succeed),
{
}

} // verus!
