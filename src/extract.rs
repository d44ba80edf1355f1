//! The synthesizer's side of the archive: the kinds of file in a job's
//! directory, and the whole extraction from the jobs' archives to the log.
use vstd::prelude::*;

use crate::assemble::{assemble_ocel, assembly_result, OcelError};
use crate::delta::FieldChange;
use crate::ocel::Ocel;
use crate::row::SqueueRow;
use crate::synth::{
    delta_views, finish, initial_model, replay, synthesize_job, JobTrace, TraceView,
};
use crate::text::{chars_of, string_of};
use crate::time::{extract_timestamp, stamp_instant, UtcInstant};

verus! {

/// A file in a job's directory of the archive.
#[derive(Clone, Copy, Debug, PartialEq, Eq, Structural)]
pub enum ArchiveFile {
    /// The first snapshot, `{T}.json`, taken at `T`.
    Initial(UtcInstant),
    /// A delta, `DELTA-{T}.json`, taken at `T`.
    Delta(UtcInstant),
    /// Any other file, or one whose stamp is no time.
    Other,
}

pub open spec fn json_suffix() -> Seq<char> {
    ".json"@
}

pub open spec fn delta_prefix() -> Seq<char> {
    "DELTA-"@
}

/// What the file name `n` says of the file.
pub open spec fn file_kind(n: Seq<char>) -> ArchiveFile {
    if n.len() >= 5 && n.skip(n.len() - 5) == json_suffix() {
        let stem = n.take(n.len() - 5);
        if stem.len() >= 6 && stem.take(6) == delta_prefix() {
            match stamp_instant(stem.skip(6)) {
                Some(t) => ArchiveFile::Delta(t),
                None => ArchiveFile::Other,
            }
        } else {
            match stamp_instant(stem) {
                Some(t) => ArchiveFile::Initial(t),
                None => ArchiveFile::Other,
            }
        }
    } else {
        ArchiveFile::Other
    }
}

fn has_at(cs: &Vec<char>, at: usize, lit: &str) -> (r: bool)
    requires
        at <= cs@.len(),
    ensures
        r == (at + lit@.len() <= cs@.len() && cs@.subrange(at as int, at + lit@.len()) == lit@),
{
    let l = chars_of(lit);
    if l.len() > cs.len() - at {
        return false;
    }
    let mut k: usize = 0;
    let total = cs.len();
    while k < l.len()
        invariant
            total == cs@.len(),
            k <= l@.len(),
            l@ == lit@,
            at + l@.len() <= cs@.len(),
            forall|q: int| 0 <= q < k ==> cs@[at + q] == l@[q],
        decreases l@.len() - k,
    {
        if cs[at + k] != l[k] {
            assert(cs@.subrange(at as int, at + l@.len())[k as int] != l@[k as int]);
            assert(cs@.subrange(at as int, at + l@.len()) != lit@);
            return false;
        }
        k = k + 1;
    }
    assert(cs@.subrange(at as int, at + l@.len()) =~= l@);
    true
}

/// Tells a job directory's files apart by their names.
pub fn classify_file(name: &str) -> (r: ArchiveFile)
    ensures
        r == file_kind(name@),
{
    proof {
        reveal_strlit(".json");
        reveal_strlit("DELTA-");
    }
    let cs = chars_of(name);
    let n = cs.len();
    if n < 5 || !has_at(&cs, n - 5, ".json") {
        proof {
            if n >= 5 {
                assert(cs@.subrange(n - 5, n as int) =~= cs@.skip(n - 5));
            }
        }
        return ArchiveFile::Other;
    }
    assert(cs@.subrange(n - 5, n as int) =~= cs@.skip(n - 5));
    let ghost stem = cs@.take(n - 5);
    if n - 5 >= 6 && has_at(&cs, 0, "DELTA-") {
        assert(cs@.subrange(0, 6) =~= stem.take(6));
        let t = string_of(&cs, 6, n - 5);
        assert(cs@.subrange(6, n - 5) =~= stem.skip(6));
        match extract_timestamp(t.as_str()) {
            Some(i) => ArchiveFile::Delta(i),
            None => ArchiveFile::Other,
        }
    } else {
        proof {
            if n - 5 >= 6 {
                assert(cs@.subrange(0, 6) =~= stem.take(6));
            }
        }
        let t = string_of(&cs, 0, n - 5);
        assert(cs@.subrange(0, n - 5) =~= stem);
        match extract_timestamp(t.as_str()) {
            Some(i) => ArchiveFile::Initial(i),
            None => ArchiveFile::Other,
        }
    }
}

/// One job's archive, read: its first snapshot with the time it was taken,
/// and its deltas with theirs, in file name order.
#[derive(Debug)]
pub struct JobArchive {
    pub initial: SqueueRow,
    pub initial_time: UtcInstant,
    pub deltas: Vec<(UtcInstant, Vec<FieldChange>)>,
}

/// What replaying one job's archive yields.
pub open spec fn archive_trace(a: JobArchive) -> TraceView {
    finish(replay(initial_model(a.initial@, a.initial_time), delta_views(a.deltas@)))
}

/// The archive's snapshot and deltas carry real dates and times only, as
/// every row that `SqueueRow::parse_line` reads does.
pub open spec fn archive_times_valid(a: JobArchive) -> bool {
    crate::row::row_times_valid(a.initial@) && crate::synth::deltas_times_valid(delta_views(a.deltas@))
}

/// Extracts the log from the jobs' archives: replays each job, then puts
/// the jobs together; see `assemble_ocel`.
pub fn extract_ocel_from_slurm_diffs(jobs: Vec<JobArchive>, offset_secs: i32) -> (r: Result<
    Ocel,
    OcelError,
>)
    ensures
        assembly_result(jobs@.map_values(|a: JobArchive| archive_trace(a)), offset_secs as int, r),
        !(r matches Err(OcelError::DanglingRelationship(_))),
        !(r matches Err(OcelError::DuplicateEventId(_))),
        (forall|i: int| 0 <= i < jobs@.len() ==> archive_times_valid(#[trigger] jobs@[i])) ==> !(
        r matches Err(OcelError::Time(_))),
        (forall|i: int| 0 <= i < jobs@.len() ==> archive_times_valid(#[trigger] jobs@[i]))
            && crate::index::distinct(
            crate::assemble::object_ids(
                crate::assemble::log_objects(jobs@.map_values(|a: JobArchive| archive_trace(a))),
            ),
        ) ==> r is Ok,
{
    let ghost orig = jobs@;
    let n = jobs.len();
    let mut jobs = jobs;
    let mut traces: Vec<JobTrace> = Vec::new();
    let mut rev: Vec<JobTrace> = Vec::new();
    let mut i: usize = 0;
    while jobs.len() > 0
        invariant
            jobs@ == orig.take(jobs@.len() as int),
            rev@.len() + jobs@.len() == orig.len(),
            forall|k: int| 0 <= k < rev@.len() ==> (#[trigger] rev@[k])@ == archive_trace(orig[orig.len() - 1 - k]),
        decreases jobs@.len(),
    {
        let a = jobs.pop().unwrap();
        let ghost k = rev@.len();
        assert(a == orig[orig.len() - 1 - k]);
        let t = synthesize_job(a.initial, a.initial_time, &a.deltas);
        rev.push(t);
    }
    while rev.len() > 0
        invariant
            rev@.len() + traces@.len() == orig.len(),
            forall|k: int| 0 <= k < rev@.len() ==> (#[trigger] rev@[k])@ == archive_trace(orig[orig.len() - 1 - k]),
            forall|k: int| 0 <= k < traces@.len() ==> (#[trigger] traces@[k])@ == archive_trace(orig[k]),
        decreases rev@.len(),
    {
        let t = rev.pop().unwrap();
        traces.push(t);
    }
    let ghost tv = orig.map_values(|a: JobArchive| archive_trace(a));
    assert(crate::assemble::trace_views(traces@) =~= tv);
    proof {
        assert forall|i: int| 0 <= i < tv.len() implies crate::synth::trace_covered(#[trigger] tv[i]) by {
            crate::synth::lemma_finished_covered(
                orig[i].initial@,
                orig[i].initial_time,
                delta_views(orig[i].deltas@),
            );
        }
        crate::assemble::lemma_log_resolves(tv, offset_secs as int);
        if forall|i: int| 0 <= i < orig.len() ==> archive_times_valid(#[trigger] orig[i]) {
            assert forall|i: int| 0 <= i < tv.len() implies crate::assemble::local_times_valid(#[trigger] tv[i].events) by {
                assert(archive_times_valid(orig[i]));
                crate::synth::lemma_replay_times(
                    orig[i].initial@,
                    orig[i].initial_time,
                    delta_views(orig[i].deltas@),
                );
            }
            crate::assemble::lemma_log_times_valid(tv);
        }
        assert forall|i: int| 0 <= i < tv.len() implies crate::synth::trace_ids_ok(#[trigger] tv[i]) by {
            crate::synth::lemma_finished_ids(
                orig[i].initial@,
                orig[i].initial_time,
                delta_views(orig[i].deltas@),
            );
        }
        let logged = crate::assemble::log_objects(tv);
        let jobs = tv.map_values(|t: crate::synth::TraceView| t.object);
        if crate::index::distinct(crate::assemble::object_ids(logged)) {
            assert(crate::index::distinct(crate::assemble::object_ids(jobs))) by {
                let all = crate::assemble::object_ids(logged);
                let js = crate::assemble::object_ids(jobs);
                assert forall|a: int, b: int| 0 <= a < b < js.len() implies js[a] != js[b] by {
                    assert(logged[a] == jobs[a] && logged[b] == jobs[b]);
                    assert(all[a] == js[a] && all[b] == js[b]);
                }
            }
            crate::assemble::lemma_log_event_ids(tv);
        }
    }
    assemble_ocel(traces, offset_secs)
}

/// Replaying the same archive twice gives the same events, ids and all.
pub proof fn lemma_replay_deterministic(a: JobArchive, b: JobArchive)
    requires
        a.initial@ == b.initial@,
        a.initial_time == b.initial_time,
        delta_views(a.deltas@) == delta_views(b.deltas@),
    ensures
        archive_trace(a).events == archive_trace(b).events,
        archive_trace(a) == archive_trace(b),
{
}

} // verus!
