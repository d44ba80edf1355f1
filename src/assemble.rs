//! Puts the replayed jobs together into one log: the jobs, one object for
//! each account, group, partition and host they mention, the declared
//! types, and the checks that the log's ids are unique and that every
//! relationship reaches an object of the log.
use vstd::prelude::*;

use crate::index::{distinct, StringIndex};
use crate::ocel::{
    AttrType, EventModel, EventTime, Ocel, OcelEvent, OcelObject, OcelType, ObjectModel,
    Relationship, RelModel,
};
use crate::synth::{event_views, JobTrace, TraceView};
use crate::text::{concat, owned, views};
use crate::time::{civil_seconds, UtcInstant};

verus! {

/// Why the log could not be put together.
#[derive(Debug)]
pub enum OcelError {
    /// Two objects would carry this id.
    DuplicateObjectId(String),
    /// Two events would carry this id.
    DuplicateEventId(String),
    /// The time of the event with this id could not be converted to UTC.
    Time(String),
    /// A relationship names this id, which no object carries.
    DanglingRelationship(String),
}

/// `s` with its repetitions left out: each value where it first occurs.
pub open spec fn dedup(s: Seq<Seq<char>>) -> Seq<Seq<char>>
    decreases s.len(),
{
    if s.len() == 0 {
        Seq::empty()
    } else {
        let d = dedup(s.drop_last());
        if d.contains(s.last()) {
            d
        } else {
            d.push(s.last())
        }
    }
}

/// The ids of one kind that the traces mention, in order of first mention.
pub open spec fn all_of(traces: Seq<TraceView>, kind: int) -> Seq<Seq<char>>
    decreases traces.len(),
{
    if traces.len() == 0 {
        Seq::empty()
    } else {
        let t = traces.last();
        all_of(traces.drop_last(), kind) + if kind == 0 {
            t.accounts
        } else if kind == 1 {
            t.groups
        } else if kind == 2 {
            t.partitions
        } else {
            t.hosts
        }
    }
}

/// The object of an account, group, partition or host.
pub open spec fn plain_object(id: Seq<char>, ty: Seq<char>) -> ObjectModel {
    ObjectModel { id, object_type: ty, attributes: Seq::empty(), relationships: Seq::empty() }
}

/// The objects of one kind: one for each id the traces mention, in order of
/// first mention, its id prefixed.
pub open spec fn kind_objects(traces: Seq<TraceView>, kind: int, prefix: Seq<char>, ty: Seq<char>) -> Seq<ObjectModel> {
    dedup(all_of(traces, kind)).map_values(|x: Seq<char>| plain_object(prefix + x, ty))
}

/// The objects of the log: the jobs, then the accounts, groups, partitions
/// and hosts.
pub open spec fn log_objects(traces: Seq<TraceView>) -> Seq<ObjectModel> {
    traces.map_values(|t: TraceView| t.object) + kind_objects(traces, 0, "acc_"@, "Account"@)
        + kind_objects(traces, 1, "group_"@, "Group"@) + kind_objects(
        traces,
        2,
        "part_"@,
        "Partition"@,
    ) + kind_objects(traces, 3, "host_"@, "Host"@)
}

/// The events of the traces, one trace after another.
pub open spec fn all_events(traces: Seq<TraceView>) -> Seq<EventModel>
    decreases traces.len(),
{
    if traces.len() == 0 {
        Seq::empty()
    } else {
        all_events(traces.drop_last()) + traces.last().events
    }
}

/// The instant of an event time; a reading is taken on clocks `offset`
/// seconds ahead of UTC.
pub open spec fn utc_of(t: EventTime, offset: int) -> UtcInstant {
    match t {
        EventTime::Utc(u) => u,
        EventTime::Local(s) => UtcInstant {
            secs: (civil_seconds(
                s.year as int,
                s.month as int,
                s.day as int,
                s.hour as int,
                s.minute as int,
                s.second as int,
            ) - offset) as i64,
            nanos: 0,
        },
    }
}

/// The event as the log holds it: its time converted to UTC.
pub open spec fn in_utc(e: EventModel, offset: int) -> EventModel {
    EventModel { time: EventTime::Utc(utc_of(e.time, offset)), ..e }
}

pub open spec fn object_ids(objs: Seq<ObjectModel>) -> Seq<Seq<char>> {
    objs.map_values(|o: ObjectModel| o.id)
}

pub open spec fn event_ids(evs: Seq<EventModel>) -> Seq<Seq<char>> {
    evs.map_values(|e: EventModel| e.id)
}

/// Every relationship of the objects and events names an object's id.
pub open spec fn relationships_resolve(objs: Seq<ObjectModel>, evs: Seq<EventModel>) -> bool {
    &&& forall|i: int, k: int|
        0 <= i < objs.len() && 0 <= k < objs[i].relationships.len() ==> object_ids(objs).contains(
            #[trigger] objs[i].relationships[k].object_id,
        )
    &&& forall|i: int, k: int|
        0 <= i < evs.len() && 0 <= k < evs[i].relationships.len() ==> object_ids(objs).contains(
            #[trigger] evs[i].relationships[k].object_id,
        )
}

pub open spec fn trace_views(v: Seq<JobTrace>) -> Seq<TraceView> {
    v.map_values(|t: JobTrace| t@)
}

pub open spec fn ocel_objects(o: Ocel) -> Seq<ObjectModel> {
    o.objects@.map_values(|x: OcelObject| x@)
}

pub open spec fn ocel_events(o: Ocel) -> Seq<EventModel> {
    event_views(o.events@)
}

/// The attributes of a declared type, by name and type.
pub open spec fn type_attrs(t: OcelType) -> Seq<(Seq<char>, AttrType)> {
    t.attributes@.map_values(|a: (String, AttrType)| (a.0@, a.1))
}

pub open spec fn plain_type(t: OcelType, name: Seq<char>) -> bool {
    t.name@ == name && type_attrs(t).len() == 0
}

/// The object types: `Job` with its typed attributes, then `Account`,
/// `Group`, `Host` and `Partition` without attributes.
pub open spec fn declared_object_types(v: Seq<OcelType>) -> bool {
    &&& v.len() == 5
    &&& v[0].name@ == "Job"@
    &&& type_attrs(v[0]) == seq![
        ("state"@, AttrType::String),
        ("command"@, AttrType::String),
        ("work_dir"@, AttrType::String),
        ("cpus"@, AttrType::Integer),
        ("min_memory"@, AttrType::String),
        ("priority"@, AttrType::Float),
    ]
    &&& plain_type(v[1], "Account"@)
    &&& plain_type(v[2], "Group"@)
    &&& plain_type(v[3], "Host"@)
    &&& plain_type(v[4], "Partition"@)
}

/// The event types; only `Job Failed` has an attribute, its `reason`.
pub open spec fn declared_event_types(v: Seq<OcelType>) -> bool {
    &&& v.len() == 9
    &&& plain_type(v[0], "Submit Job"@)
    &&& plain_type(v[1], "Job Started"@)
    &&& plain_type(v[2], "Job Ending"@)
    &&& plain_type(v[3], "Job Completed"@)
    &&& plain_type(v[4], "Job Cancelled"@)
    &&& v[5].name@ == "Job Failed"@
    &&& type_attrs(v[5]) == seq![("reason"@, AttrType::String)]
    &&& plain_type(v[6], "Job Timeout"@)
    &&& plain_type(v[7], "Job Out Of Memory"@)
    &&& plain_type(v[8], "Job Node Fail"@)
}

fn type_decl(name: &str, attrs: Vec<(String, AttrType)>) -> (r: OcelType)
    ensures
        r.name@ == name@,
        type_attrs(r) == attrs@.map_values(|a: (String, AttrType)| (a.0@, a.1)),
{
    OcelType { name: owned(name), attributes: attrs }
}

fn attr_decl(name: &str, ty: AttrType) -> (r: (String, AttrType))
    ensures
        r.0@ == name@,
        r.1 == ty,
{
    (owned(name), ty)
}

fn plain_decl(name: &str) -> (r: OcelType)
    ensures
        plain_type(r, name@),
{
    let r = type_decl(name, Vec::new());
    assert(type_attrs(r) =~= Seq::<(Seq<char>, AttrType)>::empty());
    r
}

/// The declared object types.
pub fn object_types() -> (r: Vec<OcelType>)
    ensures
        declared_object_types(r@),
{
    let mut job_attrs: Vec<(String, AttrType)> = Vec::new();
    job_attrs.push(attr_decl("state", AttrType::String));
    job_attrs.push(attr_decl("command", AttrType::String));
    job_attrs.push(attr_decl("work_dir", AttrType::String));
    job_attrs.push(attr_decl("cpus", AttrType::Integer));
    job_attrs.push(attr_decl("min_memory", AttrType::String));
    job_attrs.push(attr_decl("priority", AttrType::Float));
    let job = type_decl("Job", job_attrs);
    assert(type_attrs(job) =~= seq![
        ("state"@, AttrType::String),
        ("command"@, AttrType::String),
        ("work_dir"@, AttrType::String),
        ("cpus"@, AttrType::Integer),
        ("min_memory"@, AttrType::String),
        ("priority"@, AttrType::Float),
    ]);
    let mut r: Vec<OcelType> = Vec::new();
    r.push(job);
    r.push(plain_decl("Account"));
    r.push(plain_decl("Group"));
    r.push(plain_decl("Host"));
    r.push(plain_decl("Partition"));
    r
}

/// The declared event types.
pub fn event_types() -> (r: Vec<OcelType>)
    ensures
        declared_event_types(r@),
{
    let mut failed_attrs: Vec<(String, AttrType)> = Vec::new();
    failed_attrs.push(attr_decl("reason", AttrType::String));
    let failed = type_decl("Job Failed", failed_attrs);
    assert(type_attrs(failed) =~= seq![("reason"@, AttrType::String)]);
    let mut r: Vec<OcelType> = Vec::new();
    r.push(plain_decl("Submit Job"));
    r.push(plain_decl("Job Started"));
    r.push(plain_decl("Job Ending"));
    r.push(plain_decl("Job Completed"));
    r.push(plain_decl("Job Cancelled"));
    r.push(failed);
    r.push(plain_decl("Job Timeout"));
    r.push(plain_decl("Job Out Of Memory"));
    r.push(plain_decl("Job Node Fail"));
    r
}

/// What putting the traces together gives: on success, the objects and the
/// events of the traces with every time in UTC, ids unique and every
/// relationship resolved; otherwise the first check that failed.
pub open spec fn assembly_result(tv: Seq<TraceView>, offset: int, r: Result<Ocel, OcelError>) -> bool {
    match r {
        Ok(o) => {
            &&& declared_object_types(o.object_types@)
            &&& declared_event_types(o.event_types@)
            &&& ocel_objects(o) == log_objects(tv)
            &&& ocel_events(o) == all_events(tv).map_values(|e: EventModel| in_utc(e, offset))
            &&& distinct(object_ids(ocel_objects(o)))
            &&& distinct(event_ids(ocel_events(o)))
            &&& relationships_resolve(ocel_objects(o), ocel_events(o))
        },
        Err(OcelError::DuplicateObjectId(_)) => !distinct(object_ids(log_objects(tv))),
        Err(OcelError::DuplicateEventId(_)) => distinct(object_ids(log_objects(tv))) && !distinct(
            event_ids(all_events(tv)),
        ),
        Err(OcelError::Time(_)) => distinct(object_ids(log_objects(tv))) && !local_times_valid(
            all_events(tv),
        ),
        Err(OcelError::DanglingRelationship(_)) => distinct(object_ids(log_objects(tv)))
            && distinct(event_ids(all_events(tv))) && !relationships_resolve(
            log_objects(tv),
            all_events(tv).map_values(|e: EventModel| in_utc(e, offset)),
        ),
    }
}

/// Every scheduler reading among the event times is a real date and time.
pub open spec fn local_times_valid(evs: Seq<EventModel>) -> bool {
    forall|k: int| 0 <= k < evs.len() ==> ((#[trigger] evs[k]).time matches EventTime::Local(s) ==> s.valid())
}

pub open spec fn kind_list(t: TraceView, kind: int) -> Seq<Seq<char>> {
    if kind == 0 {
        t.accounts
    } else if kind == 1 {
        t.groups
    } else if kind == 2 {
        t.partitions
    } else {
        t.hosts
    }
}

proof fn lemma_dedup_contains(s: Seq<Seq<char>>, x: Seq<char>)
    requires
        s.contains(x),
    ensures
        dedup(s).contains(x),
    decreases s.len(),
{
    let d = dedup(s.drop_last());
    if x == s.last() {
        if !d.contains(x) {
            assert(d.push(x)[d.len() as int] == x);
        }
    } else {
        let i = choose|i: int| 0 <= i < s.len() && s[i] == x;
        assert(s.drop_last()[i] == x);
        lemma_dedup_contains(s.drop_last(), x);
        if !d.contains(s.last()) {
            let j = choose|j: int| 0 <= j < d.len() && d[j] == x;
            assert(d.push(s.last())[j] == x);
        }
    }
}

proof fn lemma_all_of_contains(tv: Seq<TraceView>, kind: int, i: int, x: Seq<char>)
    requires
        0 <= i < tv.len(),
        kind_list(tv[i], kind).contains(x),
    ensures
        all_of(tv, kind).contains(x),
    decreases tv.len(),
{
    let before = all_of(tv.drop_last(), kind);
    let l = kind_list(tv.last(), kind);
    assert(all_of(tv, kind) == before + l);
    if i == tv.len() - 1 {
        let j = choose|j: int| 0 <= j < l.len() && l[j] == x;
        assert((before + l)[before.len() + j] == x);
    } else {
        assert(tv.drop_last()[i] == tv[i]);
        lemma_all_of_contains(tv.drop_last(), kind, i, x);
        let j = choose|j: int| 0 <= j < before.len() && before[j] == x;
        assert((before + l)[j] == x);
    }
}

proof fn lemma_kind_object_id(tv: Seq<TraceView>, kind: int, prefix: Seq<char>, ty: Seq<char>, x: Seq<char>)
    requires
        dedup(all_of(tv, kind)).contains(x),
    ensures
        object_ids(kind_objects(tv, kind, prefix, ty)).contains(prefix + x),
{
    let d = dedup(all_of(tv, kind));
    let j = choose|j: int| 0 <= j < d.len() && d[j] == x;
    assert(object_ids(kind_objects(tv, kind, prefix, ty))[j] == prefix + x);
}

proof fn lemma_ids_of_concat(a: Seq<ObjectModel>, b: Seq<ObjectModel>, id: Seq<char>)
    requires
        object_ids(a).contains(id) || object_ids(b).contains(id),
    ensures
        object_ids(a + b).contains(id),
{
    if object_ids(a).contains(id) {
        let j = choose|j: int| 0 <= j < object_ids(a).len() && object_ids(a)[j] == id;
        assert(object_ids(a + b)[j] == id);
    } else {
        let j = choose|j: int| 0 <= j < object_ids(b).len() && object_ids(b)[j] == id;
        assert(object_ids(a + b)[a.len() + j] == id);
    }
}

/// An id that trace `i` may relate to is an object id of the log.
proof fn lemma_known_in_log(tv: Seq<TraceView>, i: int, id: Seq<char>)
    requires
        0 <= i < tv.len(),
        crate::synth::known_target(tv[i].object.id, tv[i].accounts, tv[i].groups, tv[i].partitions, tv[i].hosts, id),
    ensures
        object_ids(log_objects(tv)).contains(id),
{
    let jobs = tv.map_values(|t: TraceView| t.object);
    let k0 = kind_objects(tv, 0, "acc_"@, "Account"@);
    let k1 = kind_objects(tv, 1, "group_"@, "Group"@);
    let k2 = kind_objects(tv, 2, "part_"@, "Partition"@);
    let k3 = kind_objects(tv, 3, "host_"@, "Host"@);
    assert(log_objects(tv) == jobs + k0 + k1 + k2 + k3);
    let t = tv[i];
    if id == t.object.id {
        assert(object_ids(jobs)[i] == id);
        lemma_ids_of_concat(jobs, k0, id);
        lemma_ids_of_concat(jobs + k0, k1, id);
        lemma_ids_of_concat(jobs + k0 + k1, k2, id);
        lemma_ids_of_concat(jobs + k0 + k1 + k2, k3, id);
    } else if crate::synth::prefixed("acc_"@, t.accounts).contains(id) {
        let j = choose|j: int| 0 <= j < t.accounts.len() && crate::synth::prefixed("acc_"@, t.accounts)[j] == id;
        let x = t.accounts[j];
        assert(t.accounts.contains(x));
        lemma_all_of_contains(tv, 0, i, x);
        lemma_dedup_contains(all_of(tv, 0), x);
        lemma_kind_object_id(tv, 0, "acc_"@, "Account"@, x);
        lemma_ids_of_concat(jobs, k0, id);
        lemma_ids_of_concat(jobs + k0, k1, id);
        lemma_ids_of_concat(jobs + k0 + k1, k2, id);
        lemma_ids_of_concat(jobs + k0 + k1 + k2, k3, id);
    } else if crate::synth::prefixed("group_"@, t.groups).contains(id) {
        let j = choose|j: int| 0 <= j < t.groups.len() && crate::synth::prefixed("group_"@, t.groups)[j] == id;
        let x = t.groups[j];
        assert(t.groups.contains(x));
        lemma_all_of_contains(tv, 1, i, x);
        lemma_dedup_contains(all_of(tv, 1), x);
        lemma_kind_object_id(tv, 1, "group_"@, "Group"@, x);
        lemma_ids_of_concat(jobs + k0, k1, id);
        lemma_ids_of_concat(jobs + k0 + k1, k2, id);
        lemma_ids_of_concat(jobs + k0 + k1 + k2, k3, id);
    } else if crate::synth::prefixed("part_"@, t.partitions).contains(id) {
        let j = choose|j: int| 0 <= j < t.partitions.len() && crate::synth::prefixed("part_"@, t.partitions)[j] == id;
        let x = t.partitions[j];
        assert(t.partitions.contains(x));
        lemma_all_of_contains(tv, 2, i, x);
        lemma_dedup_contains(all_of(tv, 2), x);
        lemma_kind_object_id(tv, 2, "part_"@, "Partition"@, x);
        lemma_ids_of_concat(jobs + k0 + k1, k2, id);
        lemma_ids_of_concat(jobs + k0 + k1 + k2, k3, id);
    } else {
        let j = choose|j: int| 0 <= j < t.hosts.len() && crate::synth::prefixed("host_"@, t.hosts)[j] == id;
        let x = t.hosts[j];
        assert(t.hosts.contains(x));
        lemma_all_of_contains(tv, 3, i, x);
        lemma_dedup_contains(all_of(tv, 3), x);
        lemma_kind_object_id(tv, 3, "host_"@, "Host"@, x);
        lemma_ids_of_concat(jobs + k0 + k1 + k2, k3, id);
    }
}

/// Each event of the log is an event of one of the traces.
proof fn lemma_event_origin(tv: Seq<TraceView>, e: int)
    requires
        0 <= e < all_events(tv).len(),
    ensures
        exists|i: int, j: int|
            0 <= i < tv.len() && 0 <= j < tv[i].events.len() && all_events(tv)[e] == #[trigger] tv[i].events[j],
    decreases tv.len(),
{
    let before = all_events(tv.drop_last());
    if e < before.len() {
        lemma_event_origin(tv.drop_last(), e);
        let (i, j) = choose|i: int, j: int|
            0 <= i < tv.drop_last().len() && 0 <= j < tv.drop_last()[i].events.len() && before[e] == #[trigger] tv.drop_last()[i].events[j];
        assert(tv.drop_last()[i] == tv[i]);
        assert(all_events(tv)[e] == tv[i].events[j]);
    } else {
        let i = tv.len() - 1;
        assert(all_events(tv)[e] == tv[i].events[e - before.len()]);
    }
}

/// Where every trace relates only to its job and the ids it collected, every
/// relationship of the log resolves.
pub proof fn lemma_log_resolves(tv: Seq<TraceView>, offset: int)
    requires
        forall|i: int| 0 <= i < tv.len() ==> crate::synth::trace_covered(#[trigger] tv[i]),
    ensures
        relationships_resolve(log_objects(tv), all_events(tv).map_values(|e: EventModel| in_utc(e, offset))),
{
    let objs = log_objects(tv);
    let evs = all_events(tv).map_values(|e: EventModel| in_utc(e, offset));
    let jobs = tv.map_values(|t: TraceView| t.object);
    let rest = kind_objects(tv, 0, "acc_"@, "Account"@) + kind_objects(tv, 1, "group_"@, "Group"@)
        + kind_objects(tv, 2, "part_"@, "Partition"@) + kind_objects(tv, 3, "host_"@, "Host"@);
    assert(objs =~= jobs + rest);
    assert forall|i: int, k: int|
        0 <= i < objs.len() && 0 <= k < objs[i].relationships.len() implies object_ids(objs).contains(
            #[trigger] objs[i].relationships[k].object_id,
        ) by {
        if i < jobs.len() {
            assert(objs[i] == tv[i].object);
            assert(crate::synth::trace_covered(tv[i]));
            lemma_known_in_log(tv, i, objs[i].relationships[k].object_id);
        } else {
            assert(objs[i] == rest[i - jobs.len()]);
            assert(rest[i - jobs.len()].relationships.len() == 0) by {
                let r = i - jobs.len();
                let a0 = kind_objects(tv, 0, "acc_"@, "Account"@);
                let a1 = kind_objects(tv, 1, "group_"@, "Group"@);
                let a2 = kind_objects(tv, 2, "part_"@, "Partition"@);
                let a3 = kind_objects(tv, 3, "host_"@, "Host"@);
                if r < a0.len() {
                } else if r < a0.len() + a1.len() {
                } else if r < a0.len() + a1.len() + a2.len() {
                } else {
                    assert(rest[r] == a3[r - a0.len() - a1.len() - a2.len()]);
                }
            }
        }
    }
    assert forall|e: int, k: int|
        0 <= e < evs.len() && 0 <= k < evs[e].relationships.len() implies object_ids(objs).contains(
            #[trigger] evs[e].relationships[k].object_id,
        ) by {
        lemma_event_origin(tv, e);
        let (i, j) = choose|i: int, j: int|
            0 <= i < tv.len() && 0 <= j < tv[i].events.len() && all_events(tv)[e] == #[trigger] tv[i].events[j];
        assert(evs[e].relationships == tv[i].events[j].relationships);
        assert(crate::synth::trace_covered(tv[i]));
        lemma_known_in_log(tv, i, evs[e].relationships[k].object_id);
    }
}

proof fn lemma_event_job(tv: Seq<TraceView>, e: int)
    requires
        0 <= e < all_events(tv).len(),
        forall|i: int| 0 <= i < tv.len() ==> crate::synth::trace_ids_ok(#[trigger] tv[i]),
    ensures
        exists|i: int|
            0 <= i < tv.len() && crate::synth::is_job_event_id(
                all_events(tv)[e].id,
                (#[trigger] tv[i]).object.id,
            ),
{
    lemma_event_origin(tv, e);
    let (i, j) = choose|i: int, j: int|
        0 <= i < tv.len() && 0 <= j < tv[i].events.len() && all_events(tv)[e] == #[trigger] tv[i].events[j];
    assert(crate::synth::trace_ids_ok(tv[i]));
    assert(crate::synth::is_job_event_id(tv[i].events[j].id, tv[i].object.id));
}

/// Where every trace's readings are real dates and times, so are the log's.
pub proof fn lemma_log_times_valid(tv: Seq<TraceView>)
    requires
        forall|i: int| 0 <= i < tv.len() ==> local_times_valid(#[trigger] tv[i].events),
    ensures
        local_times_valid(all_events(tv)),
{
    let evs = all_events(tv);
    assert forall|k: int| 0 <= k < evs.len() implies ((#[trigger] evs[k]).time matches EventTime::Local(s) ==> s.valid()) by {
        lemma_event_origin(tv, k);
        let (i, j) = choose|i: int, j: int|
            0 <= i < tv.len() && 0 <= j < tv[i].events.len() && all_events(tv)[k] == #[trigger] tv[i].events[j];
        assert(local_times_valid(tv[i].events));
    }
}

/// Where the jobs differ and each replay's event ids are its job's and all
/// different, no two events of the log share an id.
pub proof fn lemma_log_event_ids(tv: Seq<TraceView>)
    requires
        forall|i: int| 0 <= i < tv.len() ==> crate::synth::trace_ids_ok(#[trigger] tv[i]),
        distinct(object_ids(tv.map_values(|t: TraceView| t.object))),
    ensures
        distinct(event_ids(all_events(tv))),
    decreases tv.len(),
{
    if tv.len() > 0 {
        let init = tv.drop_last();
        let last = tv.last();
        let jobs = object_ids(tv.map_values(|t: TraceView| t.object));
        assert(distinct(object_ids(init.map_values(|t: TraceView| t.object)))) by {
            let ij = object_ids(init.map_values(|t: TraceView| t.object));
            assert forall|a: int, b: int| 0 <= a < b < ij.len() implies ij[a] != ij[b] by {
                assert(ij[a] == jobs[a] && ij[b] == jobs[b]);
            }
        }
        assert forall|i: int| 0 <= i < init.len() implies crate::synth::trace_ids_ok(#[trigger] init[i]) by {
            assert(init[i] == tv[i]);
        }
        lemma_log_event_ids(init);
        let a = all_events(init);
        let b = last.events;
        assert(all_events(tv) == a + b);
        assert(crate::synth::trace_ids_ok(tv[tv.len() - 1]));
        let ids = event_ids(a + b);
        assert forall|x: int, y: int| 0 <= x < y < ids.len() implies ids[x] != ids[y] by {
            if x < a.len() && y < a.len() {
                assert(ids[x] == event_ids(a)[x] && ids[y] == event_ids(a)[y]);
            } else if x >= a.len() {
                assert(ids[x] == crate::synth::ids_of(b)[x - a.len()]);
                assert(ids[y] == crate::synth::ids_of(b)[y - a.len()]);
            } else if ids[x] == ids[y] {
                lemma_event_job(init, x);
                let i = choose|i: int| 0 <= i < init.len() && crate::synth::is_job_event_id(a[x].id, (#[trigger] init[i]).object.id);
                let (pa, n1) = choose|p: Seq<char>, n: nat| crate::synth::is_id_prefix(p) && a[x].id == #[trigger] crate::synth::event_id(p, init[i].object.id, n);
                let yb = y - a.len();
                assert(crate::synth::is_job_event_id(b[yb].id, last.object.id));
                let (pb, n2) = choose|p: Seq<char>, n: nat| crate::synth::is_id_prefix(p) && b[yb].id == #[trigger] crate::synth::event_id(p, last.object.id, n);
                assert(ids[x] == a[x].id && ids[y] == b[yb].id);
                crate::synth::lemma_event_id_injective(pa, init[i].object.id, n1, pb, last.object.id, n2);
                assert(init[i] == tv[i]);
                assert(jobs[i] == tv[i].object.id && jobs[tv.len() - 1] == last.object.id);
            }
        }
    }
}

/// The elements of `v` in reverse order.
fn reversed<T>(v: Vec<T>) -> (r: Vec<T>)
    ensures
        r@ == v@.reverse(),
{
    let mut v = v;
    let ghost orig = v@;
    let mut r: Vec<T> = Vec::new();
    while v.len() > 0
        invariant
            orig == v@ + r@.reverse(),
        decreases v@.len(),
    {
        let ghost before_v = v@;
        let ghost before_r = r@;
        let x = v.pop().unwrap();
        r.push(x);
        assert(before_v == v@.push(x));
        assert(r@.reverse() =~= seq![x] + before_r.reverse());
        assert(orig =~= v@ + r@.reverse());
    }
    assert(orig =~= r@.reverse());
    assert(r@ =~= orig.reverse());
    r
}

proof fn lemma_reverse_pop<T>(s: Seq<T>, i: int)
    requires
        0 <= i < s.len(),
    ensures
        s.skip(i).reverse().len() == s.len() - i,
        s.skip(i).reverse().last() == s[i],
        s.skip(i).reverse().drop_last() == s.skip(i + 1).reverse(),
{
    assert(s.skip(i).reverse().drop_last() =~= s.skip(i + 1).reverse());
}

/// Adds every string of `v` to `idx`.
fn add_all(idx: &mut StringIndex, v: &Vec<String>, Ghost(base): Ghost<Seq<Seq<char>>>)
    requires
        old(idx).wf(),
        old(idx)@ == dedup(base),
    ensures
        final(idx).wf(),
        final(idx)@ == dedup(base + views(v@)),
{
    let mut j: usize = 0;
    while j < v.len()
        invariant
            idx.wf(),
            j <= v@.len(),
            idx@ == dedup(base + views(v@).take(j as int)),
        decreases v@.len() - j,
    {
        let ghost s = base + views(v@).take(j as int);
        idx.insert(v[j].clone());
        assert((base + views(v@).take(j + 1)).drop_last() =~= s);
        assert((base + views(v@).take(j + 1)).last() == v@[j as int]@);
        j = j + 1;
    }
    assert(views(v@).take(v@.len() as int) =~= views(v@));
}

proof fn lemma_not_distinct_prefix(s: Seq<Seq<char>>, t: Seq<Seq<char>>)
    requires
        !distinct(s),
    ensures
        !distinct(s + t),
{
    let (i, j) = choose|i: int, j: int| 0 <= i < j < s.len() && s[i] == s[j];
    assert((s + t)[i] == s[i] && (s + t)[j] == s[j]);
}

fn plain(id: String, ty: &str) -> (r: OcelObject)
    ensures
        r@ == plain_object(id@, ty@),
{
    let attributes = Vec::new();
    let relationships = Vec::new();
    let r = OcelObject { id, object_type: owned(ty), attributes, relationships };
    assert(r@.attributes =~= Seq::<crate::ocel::AttrModel>::empty());
    assert(r@.relationships =~= Seq::<RelModel>::empty());
    r
}

/// Adds one object per string of `idx`, its id prefixed, checking that no
/// object id repeats.
fn add_kind_objects(
    objects: &mut Vec<OcelObject>,
    ids: &mut StringIndex,
    idx: &StringIndex,
    prefix: &str,
    ty: &str,
) -> (ok: Result<(), OcelError>)
    requires
        old(ids).wf(),
        old(ids)@ == object_ids(old(objects)@.map_values(|x: OcelObject| x@)),
        distinct(old(ids)@),
    ensures
        final(ids).wf(),
        ok is Ok ==> {
            &&& final(objects)@.map_values(|x: OcelObject| x@) == old(objects)@.map_values(
                |x: OcelObject| x@,
            ) + idx@.map_values(|x: Seq<char>| plain_object(prefix@ + x, ty@))
            &&& final(ids)@ == object_ids(final(objects)@.map_values(|x: OcelObject| x@))
            &&& distinct(final(ids)@)
        },
        ok is Err ==> (ok matches Err(OcelError::DuplicateObjectId(_))) && !distinct(
            object_ids(
                old(objects)@.map_values(|x: OcelObject| x@) + idx@.map_values(
                    |x: Seq<char>| plain_object(prefix@ + x, ty@),
                ),
            ),
        ),
{
    let ghost start = old(objects)@.map_values(|x: OcelObject| x@);
    let ghost added = idx@.map_values(|x: Seq<char>| plain_object(prefix@ + x, ty@));
    let mut j: usize = 0;
    while j < idx.len()
        invariant
            ids.wf(),
            j <= idx@.len(),
            start == old(objects)@.map_values(|x: OcelObject| x@),
            added == idx@.map_values(|x: Seq<char>| plain_object(prefix@ + x, ty@)),
            objects@.map_values(|x: OcelObject| x@) == start + added.take(j as int),
            ids@ == object_ids(objects@.map_values(|x: OcelObject| x@)),
            distinct(ids@),
        decreases idx@.len() - j,
    {
        let id = concat(prefix, idx.get(j));
        let ghost before = ids@;
        let ghost cur = objects@.map_values(|x: OcelObject| x@);
        if !ids.insert(id.clone()) {
            proof {
                let k = choose|k: int| 0 <= k < before.len() && before[k] == id@;
                let all = start + added;
                assert(object_ids(all)[k] == before[k]) by {
                    assert(all[k] == cur[k]);
                }
                assert(object_ids(all)[start.len() + j] == id@);
            }
            return Err(OcelError::DuplicateObjectId(id));
        }
        let obj = plain(id, ty);
        assert(added[j as int] == obj@);
        objects.push(obj);
        assert(objects@.map_values(|x: OcelObject| x@) =~= cur.push(obj@));
        assert(added.take(j + 1) =~= added.take(j as int).push(added[j as int]));
        assert(objects@.map_values(|x: OcelObject| x@) =~= start + added.take(j + 1));
        assert(ids@ =~= object_ids(objects@.map_values(|x: OcelObject| x@)));
        j = j + 1;
    }
    assert(added.take(idx@.len() as int) =~= added);
    Ok(())
}

fn append_events(flat: &mut Vec<OcelEvent>, v: Vec<OcelEvent>)
    ensures
        event_views(final(flat)@) == event_views(old(flat)@) + event_views(v@),
{
    let ghost orig = v@;
    let n = v.len();
    let mut rest = reversed(v);
    let mut i: usize = 0;
    while rest.len() > 0
        invariant
            i + rest@.len() == n == orig.len(),
            rest@ == orig.skip(i as int).reverse(),
            event_views(flat@) == event_views(old(flat)@) + event_views(orig.take(i as int)),
        decreases rest@.len(),
    {
        proof {
            lemma_reverse_pop(orig, i as int);
        }
        let e = rest.pop().unwrap();
        let ghost before = flat@;
        flat.push(e);
        assert(event_views(flat@) =~= event_views(before).push(orig[i as int]@));
        assert(orig.take(i + 1) =~= orig.take(i as int).push(orig[i as int]));
        assert(event_views(orig.take(i + 1)) =~= event_views(orig.take(i as int)).push(orig[i as int]@));
        i = i + 1;
    }
    assert(orig.take(n as int) =~= orig);
}

fn to_log_time(t: EventTime, offset: i32) -> (r: Option<EventTime>)
    ensures
        r matches Some(x) ==> x == EventTime::Utc(utc_of(t, offset as int)),
        (t matches EventTime::Local(s) ==> s.valid()) ==> r is Some,
{
    match t {
        EventTime::Utc(u) => Some(EventTime::Utc(u)),
        EventTime::Local(st) => match st.to_utc(offset) {
            Some(u) => Some(EventTime::Utc(u)),
            None => None,
        },
    }
}

proof fn lemma_all_of_step(tv: Seq<TraceView>, i: int, kind: int)
    requires
        0 <= i < tv.len(),
    ensures
        all_of(tv.take(i + 1), kind) == all_of(tv.take(i), kind) + if kind == 0 {
            tv[i].accounts
        } else if kind == 1 {
            tv[i].groups
        } else if kind == 2 {
            tv[i].partitions
        } else {
            tv[i].hosts
        },
        all_events(tv.take(i + 1)) == all_events(tv.take(i)) + tv[i].events,
{
    assert(tv.take(i + 1).drop_last() =~= tv.take(i));
    assert(tv.take(i + 1).last() == tv[i]);
}

/// Puts the replayed jobs together into one log, with every time in UTC; a
/// scheduler reading is taken on clocks `offset_secs` seconds ahead of UTC.
/// The log is refused where two objects or two events would share an id, or
/// where a relationship names no object of the log.
pub fn assemble_ocel(traces: Vec<JobTrace>, offset_secs: i32) -> (r: Result<Ocel, OcelError>)
    ensures
        assembly_result(trace_views(traces@), offset_secs as int, r),
{
    let ghost orig = traces@;
    let ghost tv = trace_views(traces@);
    let n = traces.len();
    let mut rest = reversed(traces);
    let mut objects: Vec<OcelObject> = Vec::new();
    let mut flat: Vec<OcelEvent> = Vec::new();
    let mut ids = StringIndex::new();
    let mut accs = StringIndex::new();
    let mut groups = StringIndex::new();
    let mut parts = StringIndex::new();
    let mut hosts = StringIndex::new();
    let mut i: usize = 0;
    assert(tv.take(0) =~= Seq::<TraceView>::empty());
    assert(objects@.map_values(|x: OcelObject| x@) =~= tv.take(0).map_values(|t: TraceView| t.object));
    assert(ids@ =~= object_ids(objects@.map_values(|x: OcelObject| x@)));
    assert(event_views(flat@) =~= all_events(tv.take(0)));
    while rest.len() > 0
        invariant
            i + rest@.len() == n == orig.len(),
            tv == trace_views(orig),
            tv == trace_views(traces@),
            rest@ == orig.skip(i as int).reverse(),
            objects@.map_values(|x: OcelObject| x@) == tv.take(i as int).map_values(
                |t: TraceView| t.object,
            ),
            ids.wf(),
            ids@ == object_ids(objects@.map_values(|x: OcelObject| x@)),
            distinct(ids@),
            event_views(flat@) == all_events(tv.take(i as int)),
            accs.wf() && accs@ == dedup(all_of(tv.take(i as int), 0)),
            groups.wf() && groups@ == dedup(all_of(tv.take(i as int), 1)),
            parts.wf() && parts@ == dedup(all_of(tv.take(i as int), 2)),
            hosts.wf() && hosts@ == dedup(all_of(tv.take(i as int), 3)),
        decreases rest@.len(),
    {
        proof {
            lemma_reverse_pop(orig, i as int);
            lemma_all_of_step(tv, i as int, 0);
            lemma_all_of_step(tv, i as int, 1);
            lemma_all_of_step(tv, i as int, 2);
            lemma_all_of_step(tv, i as int, 3);
        }
        let t = rest.pop().unwrap();
        assert(t@ == tv[i as int]);
        add_all(&mut accs, &t.accounts, Ghost(all_of(tv.take(i as int), 0)));
        add_all(&mut groups, &t.groups, Ghost(all_of(tv.take(i as int), 1)));
        add_all(&mut parts, &t.partitions, Ghost(all_of(tv.take(i as int), 2)));
        add_all(&mut hosts, &t.hosts, Ghost(all_of(tv.take(i as int), 3)));
        let id = t.object.id.clone();
        let ghost before = ids@;
        let ghost cur = objects@.map_values(|x: OcelObject| x@);
        if !ids.insert(id.clone()) {
            proof {
                let k = choose|k: int| 0 <= k < before.len() && before[k] == id@;
                let jobs = tv.map_values(|t: TraceView| t.object);
                let others = kind_objects(tv, 0, "acc_"@, "Account"@) + kind_objects(tv, 1, "group_"@, "Group"@)
                    + kind_objects(tv, 2, "part_"@, "Partition"@) + kind_objects(tv, 3, "host_"@, "Host"@);
                assert(log_objects(tv) =~= jobs + others);
                let all = object_ids(log_objects(tv));
                assert(before.len() == i);
                assert(all[k] == before[k]) by {
                    assert(cur[k] == tv[k].object);
                    assert(log_objects(tv)[k] == jobs[k]);
                }
                assert(all[i as int] == id@) by {
                    assert(log_objects(tv)[i as int] == jobs[i as int]);
                }
                assert(k < i);
                assert(i < all.len());
                if distinct(all) {
                    assert(all[k] != all[i as int]);
                }
                assert(tv == trace_views(traces@));
            }
            return Err(OcelError::DuplicateObjectId(id));
        }
        let ghost obj = t.object@;
        objects.push(t.object);
        assert(objects@.map_values(|x: OcelObject| x@) =~= cur.push(obj));
        assert(tv.take(i + 1).map_values(|t: TraceView| t.object) =~= tv.take(i as int).map_values(
            |t: TraceView| t.object,
        ).push(tv[i as int].object));
        assert(ids@ =~= object_ids(objects@.map_values(|x: OcelObject| x@)));
        append_events(&mut flat, t.events);
        i = i + 1;
    }
    assert(tv.take(n as int) =~= tv);
    let ghost jobs = tv.map_values(|t: TraceView| t.object);
    let ghost k0 = kind_objects(tv, 0, "acc_"@, "Account"@);
    let ghost k1 = kind_objects(tv, 1, "group_"@, "Group"@);
    let ghost k2 = kind_objects(tv, 2, "part_"@, "Partition"@);
    let ghost k3 = kind_objects(tv, 3, "host_"@, "Host"@);
    assert(log_objects(tv) =~= jobs + k0 + k1 + k2 + k3);
    match add_kind_objects(&mut objects, &mut ids, &accs, "acc_", "Account") {
        Ok(()) => {},
        Err(e) => {
            proof {
                assert(object_ids(jobs + k0 + k1 + k2 + k3) =~= object_ids(jobs + k0) + object_ids(k1 + k2 + k3));
                lemma_not_distinct_prefix(object_ids(jobs + k0), object_ids(k1 + k2 + k3));
            }
            return Err(e);
        },
    }
    match add_kind_objects(&mut objects, &mut ids, &groups, "group_", "Group") {
        Ok(()) => {},
        Err(e) => {
            proof {
                assert(object_ids(jobs + k0 + k1 + k2 + k3) =~= object_ids(jobs + k0 + k1) + object_ids(k2 + k3));
                lemma_not_distinct_prefix(object_ids(jobs + k0 + k1), object_ids(k2 + k3));
            }
            return Err(e);
        },
    }
    match add_kind_objects(&mut objects, &mut ids, &parts, "part_", "Partition") {
        Ok(()) => {},
        Err(e) => {
            proof {
                assert(object_ids(jobs + k0 + k1 + k2 + k3) =~= object_ids(jobs + k0 + k1 + k2) + object_ids(k3));
                lemma_not_distinct_prefix(object_ids(jobs + k0 + k1 + k2), object_ids(k3));
            }
            return Err(e);
        },
    }
    match add_kind_objects(&mut objects, &mut ids, &hosts, "host_", "Host") {
        Ok(()) => {},
        Err(e) => {
            return Err(e);
        },
    }
    assert(objects@.map_values(|x: OcelObject| x@) == log_objects(tv));
    assert(distinct(object_ids(log_objects(tv))));
    let ghost evs = all_events(tv);
    let ghost want = evs.map_values(|e: EventModel| in_utc(e, offset_secs as int));
    let m = flat.len();
    let mut rest_events = reversed(flat);
    let mut events: Vec<OcelEvent> = Vec::new();
    let mut ev_ids = StringIndex::new();
    let mut j: usize = 0;
    assert(event_views(events@) =~= want.take(0));
    assert(ev_ids@ =~= event_ids(event_views(events@)));
    while rest_events.len() > 0
        invariant
            j + rest_events@.len() == m == evs.len(),
            tv == trace_views(traces@),
            evs == all_events(tv),
            distinct(object_ids(log_objects(tv))),
            event_views(rest_events@) == evs.skip(j as int).reverse(),
            want == evs.map_values(|e: EventModel| in_utc(e, offset_secs as int)),
            event_views(events@) == want.take(j as int),
            ev_ids.wf(),
            ev_ids@ == event_ids(event_views(events@)),
            distinct(ev_ids@),
        decreases rest_events@.len(),
    {
        proof {
            lemma_reverse_pop(evs, j as int);
            assert(event_views(rest_events@).last() == rest_events@.last()@);
        }
        let ghost before_rest = rest_events@;
        let mut e = rest_events.pop().unwrap();
        assert(event_views(rest_events@) =~= event_views(before_rest).drop_last());
        assert(e@ == evs[j as int]);
        let ghost eid = e.id@;
        let time = match to_log_time(e.time, offset_secs) {
            Some(t) => t,
            None => {
                assert(!local_times_valid(evs)) by {
                    assert(evs[j as int].time == e.time);
                }
                return Err(OcelError::Time(e.id));
            },
        };
        e.time = time;
        let ghost before = ev_ids@;
        let ghost cur = event_views(events@);
        if !ev_ids.insert(e.id.clone()) {
            proof {
                let k = choose|k: int| 0 <= k < before.len() && before[k] == e.id@;
                assert(before.len() == j);
                assert(event_ids(evs)[k] == before[k]) by {
                    assert(cur[k] == want[k]);
                    assert(want[k] == in_utc(evs[k], offset_secs as int));
                }
                assert(event_ids(evs)[j as int] == e.id@) by {
                    assert(eid == evs[j as int].id);
                }
                if distinct(event_ids(evs)) {
                    assert(event_ids(evs)[k] != event_ids(evs)[j as int]);
                }
            }
            return Err(OcelError::DuplicateEventId(e.id));
        }
        assert(e@ == want[j as int]);
        events.push(e);
        assert(event_views(events@) =~= cur.push(want[j as int]));
        assert(want.take(j + 1) =~= want.take(j as int).push(want[j as int]));
        assert(ev_ids@ =~= event_ids(event_views(events@)));
        j = j + 1;
    }
    assert(want.take(m as int) =~= want);
    assert(event_ids(want) =~= event_ids(evs));
    match check_relationships(&objects, &events, &ids) {
        Some(id) => {
            return Err(OcelError::DanglingRelationship(id));
        },
        None => {},
    }
    Ok(Ocel { object_types: object_types(), event_types: event_types(), objects, events })
}

fn rels_resolve(rels: &Vec<Relationship>, ids: &StringIndex) -> (r: Option<String>)
    requires
        ids.wf(),
    ensures
        match r {
            Some(_) => exists|k: int| 0 <= k < rels@.len() && !ids@.contains(#[trigger] rels@[k]@.object_id),
            None => forall|k: int| 0 <= k < rels@.len() ==> ids@.contains(#[trigger] rels@[k]@.object_id),
        },
{
    let mut k: usize = 0;
    while k < rels.len()
        invariant
            ids.wf(),
            k <= rels@.len(),
            forall|q: int| 0 <= q < k ==> ids@.contains(#[trigger] rels@[q]@.object_id),
        decreases rels@.len() - k,
    {
        match ids.position(&rels[k].object_id) {
            Some(p) => {
                assert(ids@[p as int] == rels@[k as int]@.object_id);
            },
            None => {
                assert(!ids@.contains(rels@[k as int]@.object_id));
                return Some(rels[k].object_id.clone());
            },
        }
        k = k + 1;
    }
    None
}

/// The id that a relationship names and no object carries, if there is one.
fn check_relationships(objects: &Vec<OcelObject>, events: &Vec<OcelEvent>, ids: &StringIndex) -> (r: Option<String>)
    requires
        ids.wf(),
        ids@ == object_ids(objects@.map_values(|x: OcelObject| x@)),
    ensures
        r is None <==> relationships_resolve(
            objects@.map_values(|x: OcelObject| x@),
            event_views(events@),
        ),
{
    let ghost objs = objects@.map_values(|x: OcelObject| x@);
    let ghost evs = event_views(events@);
    let mut i: usize = 0;
    while i < objects.len()
        invariant
            ids.wf(),
            i <= objects@.len(),
            objs == objects@.map_values(|x: OcelObject| x@),
            ids@ == object_ids(objs),
            forall|a: int, k: int|
                0 <= a < i && 0 <= k < objs[a].relationships.len() ==> object_ids(objs).contains(
                    #[trigger] objs[a].relationships[k].object_id,
                ),
        decreases objects@.len() - i,
    {
        match rels_resolve(&objects[i].relationships, ids) {
            Some(id) => {
                proof {
                    let k = choose|k: int| 0 <= k < objects@[i as int].relationships@.len() && !ids@.contains(#[trigger] objects@[i as int].relationships@[k]@.object_id);
                    assert(objs[i as int].relationships[k] == objects@[i as int].relationships@[k]@);
                }
                return Some(id);
            },
            None => {
                assert forall|k: int| 0 <= k < objs[i as int].relationships.len() implies object_ids(objs).contains(
                    #[trigger] objs[i as int].relationships[k].object_id,
                ) by {
                    assert(objs[i as int].relationships[k] == objects@[i as int].relationships@[k]@);
                }
            },
        }
        i = i + 1;
    }
    let mut i: usize = 0;
    while i < events.len()
        invariant
            ids.wf(),
            i <= events@.len(),
            objs == objects@.map_values(|x: OcelObject| x@),
            evs == event_views(events@),
            ids@ == object_ids(objs),
            forall|a: int, k: int|
                0 <= a < objs.len() && 0 <= k < objs[a].relationships.len() ==> object_ids(objs).contains(
                    #[trigger] objs[a].relationships[k].object_id,
                ),
            forall|a: int, k: int|
                0 <= a < i && 0 <= k < evs[a].relationships.len() ==> object_ids(objs).contains(
                    #[trigger] evs[a].relationships[k].object_id,
                ),
        decreases events@.len() - i,
    {
        match rels_resolve(&events[i].relationships, ids) {
            Some(id) => {
                proof {
                    let k = choose|k: int| 0 <= k < events@[i as int].relationships@.len() && !ids@.contains(#[trigger] events@[i as int].relationships@[k]@.object_id);
                    assert(evs[i as int].relationships[k] == events@[i as int].relationships@[k]@);
                }
                return Some(id);
            },
            None => {
                assert forall|k: int| 0 <= k < evs[i as int].relationships.len() implies object_ids(objs).contains(
                    #[trigger] evs[i as int].relationships[k].object_id,
                ) by {
                    assert(evs[i as int].relationships[k] == events@[i as int].relationships@[k]@);
                }
            },
        }
        i = i + 1;
    }
    None
}

} // verus!
