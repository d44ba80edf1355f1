//! The states that the scheduler reports for a job.
use vstd::prelude::*;

use crate::text::owned;

verus! {

/// State of a job as `squeue` reports it.
#[allow(non_camel_case_types)]
#[derive(Clone, Debug)]
pub enum JobState {
    /// The job has an allocation.
    RUNNING,
    /// The job awaits an allocation.
    PENDING,
    /// The job is completing; some processes may still be active.
    COMPLETING,
    /// All processes ended with exit code zero.
    COMPLETED,
    /// The job was cancelled by its user or an administrator.
    CANCELLED,
    /// The job ended with a non-zero exit code or another failure.
    FAILED,
    /// The job reached its time limit.
    TIMEOUT,
    /// The job ran out of memory.
    OUT_OF_MEMORY,
    /// One of the job's nodes failed.
    NODE_FAIL,
    /// Any other state, by the name that `squeue` printed.
    OTHER(String),
}

/// What a `JobState` stands for.
pub enum StateModel {
    Running,
    Pending,
    Completing,
    Completed,
    Cancelled,
    Failed,
    Timeout,
    OutOfMemory,
    NodeFail,
    Other(Seq<char>),
}

impl View for JobState {
    type V = StateModel;

    open spec fn view(&self) -> StateModel {
        match self {
            JobState::RUNNING => StateModel::Running,
            JobState::PENDING => StateModel::Pending,
            JobState::COMPLETING => StateModel::Completing,
            JobState::COMPLETED => StateModel::Completed,
            JobState::CANCELLED => StateModel::Cancelled,
            JobState::FAILED => StateModel::Failed,
            JobState::TIMEOUT => StateModel::Timeout,
            JobState::OUT_OF_MEMORY => StateModel::OutOfMemory,
            JobState::NODE_FAIL => StateModel::NodeFail,
            JobState::OTHER(s) => StateModel::Other(s@),
        }
    }
}

/// The state that `squeue` means by the name `s`.
pub open spec fn state_of(s: Seq<char>) -> StateModel {
    if s == "RUNNING"@ {
        StateModel::Running
    } else if s == "PENDING"@ {
        StateModel::Pending
    } else if s == "COMPLETING"@ {
        StateModel::Completing
    } else if s == "COMPLETED"@ {
        StateModel::Completed
    } else if s == "CANCELLED"@ {
        StateModel::Cancelled
    } else if s == "FAILED"@ {
        StateModel::Failed
    } else if s == "TIMEOUT"@ {
        StateModel::Timeout
    } else if s == "OUT_OF_MEMORY"@ {
        StateModel::OutOfMemory
    } else if s == "NODE_FAIL"@ {
        StateModel::NodeFail
    } else {
        StateModel::Other(s)
    }
}

/// The name that `squeue` prints for a state.
pub open spec fn state_name(m: StateModel) -> Seq<char> {
    match m {
        StateModel::Running => "RUNNING"@,
        StateModel::Pending => "PENDING"@,
        StateModel::Completing => "COMPLETING"@,
        StateModel::Completed => "COMPLETED"@,
        StateModel::Cancelled => "CANCELLED"@,
        StateModel::Failed => "FAILED"@,
        StateModel::Timeout => "TIMEOUT"@,
        StateModel::OutOfMemory => "OUT_OF_MEMORY"@,
        StateModel::NodeFail => "NODE_FAIL"@,
        StateModel::Other(s) => s,
    }
}

/// `s` is the name of one of the states that have a variant of their own.
pub open spec fn is_known_name(s: Seq<char>) -> bool {
    !(state_of(s) is Other)
}

/// Why a state could not be read; no name is refused, every unknown name is
/// kept as `OTHER`.
#[derive(Clone, Copy, Debug, PartialEq, Eq, Structural)]
pub enum StateError {
    Unreadable,
}

fn is_name(s: &String, name: &str) -> (r: bool)
    ensures
        r == (s@ == name@),
{
    *s == owned(name)
}

impl JobState {
    /// Reads a state name as `squeue` prints it; an unknown name becomes
    /// `OTHER` with that name.
    pub fn from_str(s: &str) -> (r: Result<JobState, StateError>)
        ensures
            r matches Ok(st) && st@ == state_of(s@),
    {
        let t = owned(s);
        if is_name(&t, "RUNNING") {
            Ok(JobState::RUNNING)
        } else if is_name(&t, "PENDING") {
            Ok(JobState::PENDING)
        } else if is_name(&t, "COMPLETING") {
            Ok(JobState::COMPLETING)
        } else if is_name(&t, "COMPLETED") {
            Ok(JobState::COMPLETED)
        } else if is_name(&t, "CANCELLED") {
            Ok(JobState::CANCELLED)
        } else if is_name(&t, "FAILED") {
            Ok(JobState::FAILED)
        } else if is_name(&t, "TIMEOUT") {
            Ok(JobState::TIMEOUT)
        } else if is_name(&t, "OUT_OF_MEMORY") {
            Ok(JobState::OUT_OF_MEMORY)
        } else if is_name(&t, "NODE_FAIL") {
            Ok(JobState::NODE_FAIL)
        } else {
            Ok(JobState::OTHER(t))
        }
    }

    /// The name that `squeue` prints for this state.
    pub fn name(&self) -> (r: String)
        ensures
            r@ == state_name(self@),
    {
        match self {
            JobState::RUNNING => owned("RUNNING"),
            JobState::PENDING => owned("PENDING"),
            JobState::COMPLETING => owned("COMPLETING"),
            JobState::COMPLETED => owned("COMPLETED"),
            JobState::CANCELLED => owned("CANCELLED"),
            JobState::FAILED => owned("FAILED"),
            JobState::TIMEOUT => owned("TIMEOUT"),
            JobState::OUT_OF_MEMORY => owned("OUT_OF_MEMORY"),
            JobState::NODE_FAIL => owned("NODE_FAIL"),
            JobState::OTHER(s) => s.clone(),
        }
    }

    /// A copy of this state.
    pub fn duplicate(&self) -> (r: JobState)
        ensures
            r@ == self@,
    {
        match self {
            JobState::RUNNING => JobState::RUNNING,
            JobState::PENDING => JobState::PENDING,
            JobState::COMPLETING => JobState::COMPLETING,
            JobState::COMPLETED => JobState::COMPLETED,
            JobState::CANCELLED => JobState::CANCELLED,
            JobState::FAILED => JobState::FAILED,
            JobState::TIMEOUT => JobState::TIMEOUT,
            JobState::OUT_OF_MEMORY => JobState::OUT_OF_MEMORY,
            JobState::NODE_FAIL => JobState::NODE_FAIL,
            JobState::OTHER(s) => JobState::OTHER(s.clone()),
        }
    }

    /// Whether this is `PENDING`.
    pub fn is_pending(&self) -> (r: bool)
        ensures
            r == (self@ is Pending),
    {
        match self {
            JobState::PENDING => true,
            _ => false,
        }
    }

    /// Whether the two states are the same, comparing `OTHER` by name.
    pub fn same_as(&self, other: &JobState) -> (r: bool)
        ensures
            r == (self@ == other@),
    {
        match (self, other) {
            (JobState::RUNNING, JobState::RUNNING) => true,
            (JobState::PENDING, JobState::PENDING) => true,
            (JobState::COMPLETING, JobState::COMPLETING) => true,
            (JobState::COMPLETED, JobState::COMPLETED) => true,
            (JobState::CANCELLED, JobState::CANCELLED) => true,
            (JobState::FAILED, JobState::FAILED) => true,
            (JobState::TIMEOUT, JobState::TIMEOUT) => true,
            (JobState::OUT_OF_MEMORY, JobState::OUT_OF_MEMORY) => true,
            (JobState::NODE_FAIL, JobState::NODE_FAIL) => true,
            (JobState::OTHER(a), JobState::OTHER(b)) => *a == *b,
            _ => false,
        }
    }
}

/// The names of the states with a variant of their own differ pairwise.
proof fn lemma_state_names_differ()
    ensures
        "RUNNING"@.len() == 7 && "RUNNING"@[0] == 'R' && "RUNNING"@[1] == 'U',
        "PENDING"@.len() == 7 && "PENDING"@[0] == 'P' && "PENDING"@[1] == 'E',
        "COMPLETING"@.len() == 10 && "COMPLETING"@[0] == 'C' && "COMPLETING"@[1] == 'O',
        "COMPLETED"@.len() == 9 && "COMPLETED"@[0] == 'C' && "COMPLETED"@[1] == 'O',
        "CANCELLED"@.len() == 9 && "CANCELLED"@[0] == 'C' && "CANCELLED"@[1] == 'A',
        "FAILED"@.len() == 6 && "FAILED"@[0] == 'F' && "FAILED"@[1] == 'A',
        "TIMEOUT"@.len() == 7 && "TIMEOUT"@[0] == 'T' && "TIMEOUT"@[1] == 'I',
        "OUT_OF_MEMORY"@.len() == 13 && "OUT_OF_MEMORY"@[0] == 'O' && "OUT_OF_MEMORY"@[1] == 'U',
        "NODE_FAIL"@.len() == 9 && "NODE_FAIL"@[0] == 'N' && "NODE_FAIL"@[1] == 'O',
{
    reveal_strlit("RUNNING");
    reveal_strlit("PENDING");
    reveal_strlit("COMPLETING");
    reveal_strlit("COMPLETED");
    reveal_strlit("CANCELLED");
    reveal_strlit("FAILED");
    reveal_strlit("TIMEOUT");
    reveal_strlit("OUT_OF_MEMORY");
    reveal_strlit("NODE_FAIL");
}

/// Reading back the name of a state gives the same state, for every state
/// but an `OTHER` that carries the name of a state with a variant of its own.
pub proof fn lemma_state_round_trip(m: StateModel)
    requires
        m matches StateModel::Other(s) ==> !is_known_name(s),
    ensures
        state_of(state_name(m)) == m,
{
    lemma_state_names_differ();
}

} // verus!
