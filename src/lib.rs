//! Turns snapshots of a SLURM queue into an archive of per-job changes, and
//! replays that archive into an object-centric event log.
use vstd::prelude::*;

pub mod archive;
pub mod assemble;
pub mod connection;
pub mod delta;
pub mod duration;
pub mod extract;
pub mod index;
pub mod jobs;
pub mod ocel;
pub mod poll;
pub mod priority;
pub mod row;
pub mod state;
pub mod synth;
pub mod text;
pub mod time;

pub use archive::{parse_squeue_output, squeue_command, squeue_diff, ArchiveWrite, PollState, RoundPlan, SqueueMode};
pub use assemble::{assemble_ocel, OcelError};
pub use connection::{ConnectionAuth, ConnectionConfig};
pub use delta::FieldChange;
pub use duration::{format_duration, parse_slurm_duration, DurationError};
pub use extract::{classify_file, extract_ocel_from_slurm_diffs, ArchiveFile, JobArchive};
pub use jobs::{JobFilesToUpload, JobLocalForwarding, JobOptions, JobStatus};
pub use ocel::{AttrValue, EventTime, Ocel, OcelEvent, OcelObject};
pub use poll::{loop_step, LoopAction, LoopEvent, LoopState};
pub use priority::Priority;
pub use row::{RowError, SqueueRow};
pub use state::JobState;
pub use synth::{synthesize_job, JobTrace};
pub use time::{archive_stamp, extract_timestamp, SlurmTime, UtcInstant};

verus! {

} // verus!
