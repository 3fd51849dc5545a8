//! The decisions of a batch run: statements are executed one at a time, in
//! order, and the first failure halts the run.
//!
//! The caller executes each statement against the database and hands the
//! outcome to [`Driver::record`], which answers with the log records to emit
//! and says whether the run may go on. Once the statements are exhausted,
//! [`Driver::finish`] gives the result of the whole run.

use vstd::prelude::*;

verus! {

/// What executing one statement gave back: the number of affected rows, or
/// the description of the error.
pub enum Outcome {
    Rows(u64),
    Failed(String),
}

/// One entry for the log. `AffectedRows` is informational, `Succeeded` is a
/// debug entry that carries the statement text, `Failed` is an error entry
/// that carries the error description.
pub enum LogRecord {
    AffectedRows(u64),
    Succeeded(String),
    Failed(String),
}

/// What a log record says, with its text as characters.
pub ghost enum LogEntry {
    AffectedRows(u64),
    Succeeded(Seq<char>),
    Failed(Seq<char>),
}

impl View for LogRecord {
    type V = LogEntry;

    open spec fn view(&self) -> LogEntry {
        match self {
            LogRecord::AffectedRows(n) => LogEntry::AffectedRows(*n),
            LogRecord::Succeeded(s) => LogEntry::Succeeded(s@),
            LogRecord::Failed(e) => LogEntry::Failed(e@),
        }
    }
}

/// Where a run stands.
pub enum RunState {
    Running,
    Halted(String),
    Completed,
}

/// Where a run stands, with the halting error as characters.
pub ghost enum RunStatus {
    Running,
    Halted(Seq<char>),
    Completed,
}

/// A run as a value: how many statements were handed to the database, and
/// where it stands.
pub ghost struct RunModel {
    pub attempted: nat,
    pub status: RunStatus,
}

/// A run before its first statement.
pub open spec fn initial_run() -> RunModel {
    RunModel { attempted: 0, status: RunStatus::Running }
}

/// The run after one more statement was executed with this outcome. Once the
/// run has stopped, nothing more is executed.
pub open spec fn run_step(m: RunModel, outcome: Outcome) -> RunModel {
    match m.status {
        RunStatus::Running => match outcome {
            Outcome::Rows(_) => RunModel { attempted: m.attempted + 1, status: RunStatus::Running },
            Outcome::Failed(e) => RunModel { attempted: m.attempted + 1, status: RunStatus::Halted(e@) },
        },
        _ => m,
    }
}

/// The run after the statements were offered in order, with these outcomes
/// from the database for each.
pub open spec fn run_of(outcomes: Seq<Outcome>) -> RunModel
    decreases outcomes.len(),
{
    if outcomes.len() == 0 {
        initial_run()
    } else {
        run_step(run_of(outcomes.drop_last()), outcomes.last())
    }
}

/// The run once the statements are exhausted: a running run completes.
pub open spec fn run_finished(m: RunModel) -> RunModel {
    match m.status {
        RunStatus::Running => RunModel { attempted: m.attempted, status: RunStatus::Completed },
        _ => m,
    }
}

/// The log entries for a statement executed with this outcome: the count of
/// affected rows where it is above zero, then the confirmation with the
/// statement text; or the error description alone.
pub open spec fn log_entries(statement: Seq<char>, outcome: Outcome) -> Seq<LogEntry> {
    match outcome {
        Outcome::Rows(n) => if n > 0 {
            seq![LogEntry::AffectedRows(n), LogEntry::Succeeded(statement)]
        } else {
            seq![LogEntry::Succeeded(statement)]
        },
        Outcome::Failed(e) => seq![LogEntry::Failed(e@)],
    }
}

/// The decisions of one run, one statement after another.
pub struct Driver {
    attempted: usize,
    state: RunState,
}

impl View for Driver {
    type V = RunModel;

    closed spec fn view(&self) -> RunModel {
        RunModel {
            attempted: self.attempted as nat,
            status: match self.state {
                RunState::Running => RunStatus::Running,
                RunState::Halted(e) => RunStatus::Halted(e@),
                RunState::Completed => RunStatus::Completed,
            },
        }
    }
}

impl Driver {
    /// A run that has executed nothing yet.
    pub fn new() -> (r: Driver)
        ensures
            r@ == initial_run(),
    {
        Driver { attempted: 0, state: RunState::Running }
    }

    /// How many statements were handed to the database.
    pub fn attempted(&self) -> (r: usize)
        ensures
            r == self@.attempted,
    {
        self.attempted
    }

    /// Whether the next statement may be executed: no statement has failed
    /// and the run was not finished.
    pub fn may_execute(&self) -> (r: bool)
        ensures
            r == (self@.status is Running),
    {
        match self.state {
            RunState::Running => true,
            _ => false,
        }
    }

    /// Takes the outcome of executing `statement`, and returns what to log.
    /// A failure halts the run.
    pub fn record(&mut self, statement: &str, outcome: Outcome) -> (logs: Vec<LogRecord>)
        requires
            old(self)@.status is Running,
            old(self)@.attempted < usize::MAX,
        ensures
            final(self)@ == run_step(old(self)@, outcome),
            logs@.map_values(|r: LogRecord| r@) == log_entries(statement@, outcome),
    {
        let ghost given = outcome;
        self.attempted = self.attempted + 1;
        let mut logs: Vec<LogRecord> = Vec::new();
        match outcome {
            Outcome::Rows(n) => {
                if n > 0 {
                    logs.push(LogRecord::AffectedRows(n));
                }
                logs.push(LogRecord::Succeeded(statement.to_string()));
            },
            Outcome::Failed(e) => {
                let description = e.clone();
                logs.push(LogRecord::Failed(description));
                self.state = RunState::Halted(e);
            },
        }
        assert(logs@.map_values(|r: LogRecord| r@) =~= log_entries(statement@, given));
        logs
    }

    /// Ends the run once the statements are exhausted or it has halted: the
    /// number of statements executed, or the error that halted it.
    pub fn finish(&mut self) -> (r: Result<usize, String>)
        ensures
            final(self)@ == run_finished(old(self)@),
            match old(self)@.status {
                RunStatus::Halted(e) => r is Err && r->Err_0@ == e,
                _ => r is Ok && r->Ok_0 == old(self)@.attempted,
            },
    {
        match &self.state {
            RunState::Halted(e) => Err(e.clone()),
            _ => {
                self.state = RunState::Completed;
                Ok(self.attempted)
            },
        }
    }
}

/// While every statement succeeds the run goes on, having executed each of
/// them; once the statements are exhausted it completes.
pub proof fn lemma_run_without_failure(outcomes: Seq<Outcome>)
    requires
        forall|i: int| 0 <= i < outcomes.len() ==> (#[trigger] outcomes[i]) is Rows,
    ensures
        run_of(outcomes) == (RunModel { attempted: outcomes.len(), status: RunStatus::Running }),
        run_finished(run_of(outcomes)) == (RunModel {
            attempted: outcomes.len(),
            status: RunStatus::Completed,
        }),
    decreases outcomes.len(),
{
    if outcomes.len() > 0 {
        let prefix = outcomes.drop_last();
        assert forall|i: int| 0 <= i < prefix.len() implies (#[trigger] prefix[i]) is Rows by {
            assert(prefix[i] == outcomes[i]);
        }
        lemma_run_without_failure(prefix);
        assert(outcomes[outcomes.len() - 1] is Rows);
    }
}

/// The first failure halts the run: the statements before it were executed,
/// the failing one was attempted, none after it is, and the run ends with
/// that statement's error.
pub proof fn lemma_halts_at_first_failure(outcomes: Seq<Outcome>, k: int)
    requires
        0 <= k < outcomes.len(),
        outcomes[k] is Failed,
        forall|i: int| 0 <= i < k ==> (#[trigger] outcomes[i]) is Rows,
    ensures
        run_of(outcomes) == (RunModel {
            attempted: (k + 1) as nat,
            status: RunStatus::Halted(outcomes[k]->Failed_0@),
        }),
        run_finished(run_of(outcomes)) == run_of(outcomes),
    decreases outcomes.len(),
{
    let prefix = outcomes.drop_last();
    if outcomes.len() == k + 1 {
        assert forall|i: int| 0 <= i < prefix.len() implies (#[trigger] prefix[i]) is Rows by {
            assert(prefix[i] == outcomes[i]);
        }
        lemma_run_without_failure(prefix);
    } else {
        assert(prefix[k] == outcomes[k]);
        assert forall|i: int| 0 <= i < k implies (#[trigger] prefix[i]) is Rows by {
            assert(prefix[i] == outcomes[i]);
        }
        lemma_halts_at_first_failure(prefix, k);
    }
}

} // verus!
