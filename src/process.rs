use vstd::prelude::*;
use crate::command::{has_space, is_first_space, parse_command, unquoted_tokens, views};

verus! {

/// Why a process ended without output being captured.
#[derive(Clone, Copy, Debug, PartialEq, Eq, Structural)]
pub enum Failure {
    /// The program could not be started.
    Spawn,
    /// The program exited but its output could not be read.
    ReadOutput,
}

/// Where a process stands in its life.
#[derive(Clone, Copy, Debug, PartialEq, Eq, Structural)]
pub enum Phase {
    /// Built, not yet spawned.
    Created,
    /// Spawned and not yet seen to exit.
    Running,
    /// Seen to exit, its output captured.
    Finished,
    /// Ended without captured output.
    Failed(Failure),
}

/// What came of asking the operating system to start a program.
pub enum SpawnOutcome {
    Started { pid: u32, at: u64 },
    Failed { at: u64 },
}

/// What one non-blocking check of a running process found.
pub enum PollEvent {
    /// Still running.
    Pending,
    /// The check itself failed; the process is checked again next time.
    WaitFailed,
    /// The process exited; `output` is everything it wrote to standard output.
    Exited { output: String, at: u64 },
    /// The process exited, and reading its output failed.
    ReadFailed { at: u64 },
}

pub open spec fn is_finished_phase(phase: Phase) -> bool {
    phase is Finished || phase is Failed
}

/// One tracked invocation of an external program.
pub struct Process {
    name: String,
    program: String,
    args: Vec<String>,
    output: String,
    pid: u32,
    started_at: u64,
    finished_at: u64,
    phase: Phase,
}

pub ghost struct ProcessView {
    pub name: Seq<char>,
    pub program: Seq<char>,
    pub args: Seq<Seq<char>>,
    pub output: Seq<char>,
    pub pid: u32,
    pub started_at: u64,
    pub finished_at: u64,
    pub phase: Phase,
}

impl View for Process {
    type V = ProcessView;

    closed spec fn view(&self) -> ProcessView {
        ProcessView {
            name: self.name@,
            program: self.program@,
            args: views(self.args@),
            output: self.output@,
            pid: self.pid,
            started_at: self.started_at,
            finished_at: self.finished_at,
            phase: self.phase,
        }
    }
}

impl ProcessView {
    pub open spec fn is_finished(self) -> bool {
        is_finished_phase(self.phase)
    }

    /// A process that has not been spawned yet.
    pub open spec fn created(name: Seq<char>, program: Seq<char>, args: Seq<Seq<char>>) -> ProcessView {
        ProcessView {
            name,
            program,
            args,
            output: Seq::empty(),
            pid: 0,
            started_at: 0,
            finished_at: 0,
            phase: Phase::Created,
        }
    }

    /// The state after a spawn attempt; only a created process is spawned.
    pub open spec fn started(self, outcome: SpawnOutcome) -> ProcessView {
        if self.phase is Created {
            match outcome {
                SpawnOutcome::Started { pid, at } => ProcessView {
                    pid,
                    started_at: at,
                    phase: Phase::Running,
                    ..self
                },
                SpawnOutcome::Failed { at } => ProcessView {
                    started_at: at,
                    finished_at: at,
                    phase: Phase::Failed(Failure::Spawn),
                    ..self
                },
            }
        } else {
            self
        }
    }

    /// The state after one check; only a running process changes, and only
    /// when it is seen to exit.
    pub open spec fn observed(self, event: PollEvent) -> ProcessView {
        if self.phase is Running {
            match event {
                PollEvent::Exited { output, at } => ProcessView {
                    output: output@,
                    finished_at: at,
                    phase: Phase::Finished,
                    ..self
                },
                PollEvent::ReadFailed { at } => ProcessView {
                    finished_at: at,
                    phase: Phase::Failed(Failure::ReadOutput),
                    ..self
                },
                _ => self,
            }
        } else {
            self
        }
    }

    /// The state after a re-invocation with the arguments `args`: same name
    /// and program, output cleared and the process back to created, to be
    /// spawned anew.
    pub open spec fn reset(self, args: Seq<Seq<char>>) -> ProcessView {
        ProcessView::created(self.name, self.program, args)
    }
}

/// The state of `p` after the checks `events`, in order.
pub open spec fn observed_all(p: ProcessView, events: Seq<PollEvent>) -> ProcessView
    decreases events.len(),
{
    if events.len() == 0 {
        p
    } else {
        observed_all(p, events.drop_last()).observed(events.last())
    }
}

/// The check `events[k]` takes `p` from unfinished to finished.
pub open spec fn finishes_at(p: ProcessView, events: Seq<PollEvent>, k: int) -> bool {
    &&& !observed_all(p, events.take(k)).is_finished()
    &&& observed_all(p, events.take(k + 1)).is_finished()
}

/// Finished is terminal: once a process has finished, no later check changes
/// it, neither its phase nor its captured output.
pub proof fn lemma_finished_is_final(p: ProcessView, events: Seq<PollEvent>, i: int, j: int)
    requires
        0 <= i <= j <= events.len(),
        observed_all(p, events.take(i)).is_finished(),
    ensures
        observed_all(p, events.take(j)) == observed_all(p, events.take(i)),
    decreases j - i,
{
    if j > i {
        lemma_finished_is_final(p, events, i, j - 1);
        assert(events.take(j).drop_last() =~= events.take(j - 1));
    }
}

/// Until a process finishes, checks leave its output as it was: a created or
/// newly started process holds none.
pub proof fn lemma_output_untouched_until_finished(p: ProcessView, events: Seq<PollEvent>, i: int)
    requires
        0 <= i <= events.len(),
        !observed_all(p, events.take(i)).is_finished(),
    ensures
        observed_all(p, events.take(i)).output == p.output,
    decreases i,
{
    if i > 0 {
        assert(events.take(i).drop_last() =~= events.take(i - 1));
        lemma_output_untouched_until_finished(p, events, i - 1);
    } else {
        assert(events.take(0) =~= Seq::<PollEvent>::empty());
    }
}

/// A process finishes at most once per spawn: two checks that each take it
/// from unfinished to finished are the same check. Where that check saw the
/// process exit, the output held from then on is exactly what it captured.
pub proof fn lemma_finishes_once(p: ProcessView, events: Seq<PollEvent>, k1: int, k2: int)
    requires
        0 <= k1 < events.len(),
        0 <= k2 < events.len(),
        finishes_at(p, events, k1),
        finishes_at(p, events, k2),
    ensures
        k1 == k2,
        events[k1] is Exited ==> observed_all(p, events.take(k1 + 1)).output
            == events[k1]->Exited_output@,
{
    if k1 < k2 {
        lemma_finished_is_final(p, events, k1 + 1, k2);
    } else if k2 < k1 {
        lemma_finished_is_final(p, events, k2 + 1, k1);
    }
    assert(events.take(k1 + 1).drop_last() =~= events.take(k1));
}

impl Process {
    /// A process for `program` with `args`, not yet spawned.
    pub fn new(name: String, program: String, args: Vec<String>) -> (p: Process)
        ensures
            p@ == ProcessView::created(name@, program@, views(args@)),
    {
        Process {
            name,
            program,
            args,
            output: String::new(),
            pid: 0,
            started_at: 0,
            finished_at: 0,
            phase: Phase::Created,
        }
    }

    /// A process, not yet spawned, for the command line `command`: the program
    /// and arguments that `parse_command` gives, named after the program.
    pub fn from_command(command: &str) -> (p: Process)
        ensures
            p@ == ProcessView::created(p@.program, p@.program, p@.args),
            !has_space(command@) ==> p@.program == command@ && p@.args.len() == 0,
            forall|k: int| #[trigger] is_first_space(command@, k) ==> {
                &&& p@.program == command@.take(k)
                &&& p@.args == unquoted_tokens(command@.skip(k + 1))
            },
    {
        let (program, args) = parse_command(command);
        let name = program.clone();
        Process::new(name, program, args)
    }

    /// Records the outcome of spawning this process. A failed spawn ends the
    /// process with `Failure::Spawn`; it does not concern any other process.
    pub fn start(&mut self, outcome: SpawnOutcome)
        ensures
            final(self)@ == old(self)@.started(outcome),
    {
        if let Phase::Created = self.phase {
            match outcome {
                SpawnOutcome::Started { pid, at } => {
                    self.pid = pid;
                    self.started_at = at;
                    self.phase = Phase::Running;
                },
                SpawnOutcome::Failed { at } => {
                    self.started_at = at;
                    self.finished_at = at;
                    self.phase = Phase::Failed(Failure::Spawn);
                },
            }
        }
    }

    /// Records what a check of the process found. Output is stored once, at
    /// the step into `Finished`; returns whether this call finished the process.
    pub fn observe(&mut self, event: PollEvent) -> (done: bool)
        ensures
            final(self)@ == old(self)@.observed(event),
            done == (!old(self)@.is_finished() && final(self)@.is_finished()),
    {
        if let Phase::Running = self.phase {
            match event {
                PollEvent::Exited { output, at } => {
                    self.output = output;
                    self.finished_at = at;
                    self.phase = Phase::Finished;
                    true
                },
                PollEvent::ReadFailed { at } => {
                    self.finished_at = at;
                    self.phase = Phase::Failed(Failure::ReadOutput);
                    true
                },
                _ => false,
            }
        } else {
            false
        }
    }

    /// Prepares the process to run again with the same program and arguments.
    pub fn invoke(&mut self)
        ensures
            final(self)@ == old(self)@.reset(old(self)@.args),
    {
        self.output = String::new();
        self.pid = 0;
        self.started_at = 0;
        self.finished_at = 0;
        self.phase = Phase::Created;
    }

    /// Prepares the process to run again with the same program and the new
    /// arguments `args` in place of the old ones.
    pub fn invoke_args(&mut self, args: Vec<String>)
        ensures
            final(self)@ == old(self)@.reset(views(args@)),
    {
        self.args = args;
        self.output = String::new();
        self.pid = 0;
        self.started_at = 0;
        self.finished_at = 0;
        self.phase = Phase::Created;
    }

    pub fn name(&self) -> (r: &str)
        ensures
            r@ == self@.name,
    {
        self.name.as_str()
    }

    pub fn program(&self) -> (r: &str)
        ensures
            r@ == self@.program,
    {
        self.program.as_str()
    }

    pub fn args(&self) -> (r: &Vec<String>)
        ensures
            views(r@) == self@.args,
    {
        &self.args
    }

    /// What the process wrote to standard output; empty until it finished.
    pub fn output(&self) -> (r: &str)
        ensures
            r@ == self@.output,
    {
        self.output.as_str()
    }

    pub fn pid(&self) -> (r: u32)
        ensures
            r == self@.pid,
    {
        self.pid
    }

    pub fn started_at(&self) -> (r: u64)
        ensures
            r == self@.started_at,
    {
        self.started_at
    }

    pub fn finished_at(&self) -> (r: u64)
        ensures
            r == self@.finished_at,
    {
        self.finished_at
    }

    pub fn phase(&self) -> (r: Phase)
        ensures
            r == self@.phase,
    {
        self.phase
    }

    pub fn is_finished(&self) -> (r: bool)
        ensures
            r == self@.is_finished(),
    {
        match self.phase {
            Phase::Finished => true,
            Phase::Failed(_) => true,
            _ => false,
        }
    }
}

} // verus!
