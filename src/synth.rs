//! Replays one job's archive, its first snapshot and then its deltas in
//! order, into the job's object, its lifecycle events and the ids of the
//! accounts, groups, partitions and hosts it mentions.
use vstd::prelude::*;

use crate::delta::{apply_changes, change_views, ChangeModel, FieldChange};
use crate::ocel::{
    AttrModel, AttrValue, EventAttribute, EventModel, EventTime, ObjectAttribute, ObjectModel,
    OcelEvent, OcelObject, RelModel, Relationship, ValueModel,
};
use crate::row::{opt_view, RowModel, SqueueRow};
use crate::state::{state_name, JobState, StateModel};
use crate::text::{
    after_last, after_last_of, concat, decimal, first_index, owned, push_char, push_decimal_usize,
};
use crate::time::{SlurmTime, UtcInstant};

verus! {

/// What the home-directory pattern matches: this text, then a path segment
/// that ends in `/`.
pub open spec fn home_prefix() -> Seq<char> {
    "/rwthfs/rz/cluster/home/"@
}

/// The regular expression that finds the account in a home directory path.
pub const HOME_PATTERN: &'static str = r"\/rwthfs\/rz\/cluster\/home\/([^\/]*)\/.*";

/// The pattern matches `w` at position `i`: the home prefix stands there and
/// a `/` follows somewhere after it.
pub open spec fn home_match_at(w: Seq<char>, i: int) -> bool {
    &&& 0 <= i
    &&& i + home_prefix().len() <= w.len()
    &&& w.subrange(i, i + home_prefix().len()) == home_prefix()
    &&& w.skip(i + home_prefix().len()).contains('/')
}

/// The leftmost position from `i` on where the pattern matches.
pub open spec fn home_match_from(w: Seq<char>, i: int) -> Option<int>
    decreases w.len() - i,
{
    if i < 0 || i >= w.len() || i + home_prefix().len() > w.len() {
        None
    } else if home_match_at(w, i) {
        Some(i)
    } else {
        home_match_from(w, i + 1)
    }
}

/// The first capture group of `HOME_PATTERN` in `w`: at the leftmost match,
/// the characters after the home prefix up to the next `/`.
pub open spec fn home_token(w: Seq<char>) -> Option<Seq<char>> {
    match home_match_from(w, 0) {
        Some(i) => {
            let rest = w.skip(i + home_prefix().len());
            Some(rest.take(first_index(rest, '/')))
        },
        None => None,
    }
}

/// Relies on regex's `Regex::new`, `Regex::captures` and `Captures::get`:
/// for `HOME_PATTERN`, the text of the first capture group at the leftmost
/// match.
#[verifier::external_body]
fn first_capture(pattern: &str, text: &str) -> (r: Option<String>)
    requires
        pattern@ == HOME_PATTERN@,
    ensures
        opt_view(r) == home_token(text@),
{
    let re = regex::Regex::new(pattern).ok()?;
    Some(re.captures(text)?.get(1)?.as_str().to_string())
}

/// The account that a job is charged to: its account, but for the account
/// `default`, the user name in a home directory `work_dir`, where there is a
/// non-empty one.
pub open spec fn account_of(row: RowModel) -> Seq<char> {
    if row.account == "default"@ {
        match home_token(row.work_dir) {
            Some(t) => if t.len() > 0 {
                t
            } else {
                "default"@
            },
            None => "default"@,
        }
    } else {
        row.account
    }
}

pub open spec fn event_id(prefix: Seq<char>, job: Seq<char>, n: nat) -> Seq<char> {
    prefix + job + seq!['-'] + decimal(n)
}

pub open spec fn rel(id: Seq<char>, q: Seq<char>) -> RelModel {
    RelModel { object_id: id, qualifier: q }
}

pub open spec fn attr(name: Seq<char>, value: ValueModel, time: UtcInstant) -> AttrModel {
    AttrModel { name, value, time }
}

pub open spec fn epoch() -> UtcInstant {
    UtcInstant { secs: 0, nanos: 0 }
}

/// The event type and id prefix of the event that entering a state emits;
/// `None` for the states that emit none (`RUNNING` has its start event from
/// the start time instead).
pub open spec fn state_event(s: StateModel) -> Option<(Seq<char>, Seq<char>)> {
    match s {
        StateModel::Completing => Some(("Job Ending"@, "ending-"@)),
        StateModel::Completed => Some(("Job Completed"@, "ended-"@)),
        StateModel::Cancelled => Some(("Job Cancelled"@, "cancelled-"@)),
        StateModel::Failed => Some(("Job Failed"@, "failed-"@)),
        StateModel::Timeout => Some(("Job Timeout"@, "timeout-"@)),
        StateModel::OutOfMemory => Some(("Job Out Of Memory"@, "oom-"@)),
        StateModel::NodeFail => Some(("Job Node Fail"@, "node-fail-"@)),
        _ => None,
    }
}

/// The replay so far.
pub struct TraceModel {
    pub row: RowModel,
    pub object: ObjectModel,
    pub events: Seq<EventModel>,
    pub start: Option<EventModel>,
    pub accounts: Seq<Seq<char>>,
    pub groups: Seq<Seq<char>>,
    pub partitions: Seq<Seq<char>>,
    pub hosts: Seq<Seq<char>>,
    pub last_time: UtcInstant,
    pub backwards: Seq<nat>,
    pub deltas_seen: nat,
}

/// The start event with sequence number `n`, at start time `st`: it relates
/// to the job, the job's group and, where known, its host.
pub open spec fn start_event(row: RowModel, job: Seq<char>, n: nat, st: SlurmTime) -> EventModel {
    EventModel {
        id: event_id("start-"@, job, n),
        event_type: "Job Started"@,
        time: EventTime::Local(st),
        attributes: Seq::empty(),
        relationships: seq![rel(job, "job"@), rel("group_"@ + row.group, "for"@)] + match row.exec_host {
            Some(h) => seq![rel("host_"@ + h, "host"@)],
            None => Seq::empty(),
        },
    }
}

/// The replay after the first snapshot `row`, taken at `t0`.
pub open spec fn initial_model(row: RowModel, t0: UtcInstant) -> TraceModel {
    let job = row.job_id;
    let acc = account_of(row);
    TraceModel {
        row,
        object: ObjectModel {
            id: job,
            object_type: "Job"@,
            attributes: seq![
                attr("command"@, ValueModel::Text(after_last(row.command, '/')), epoch()),
                attr("work_dir"@, ValueModel::Text(row.work_dir), epoch()),
                attr("cpus"@, ValueModel::Integer(row.cpus), epoch()),
                attr("min_memory"@, ValueModel::Text(row.min_memory), epoch()),
                attr("state"@, ValueModel::Text(state_name(row.state)), t0),
            ],
            relationships: seq![
                rel("acc_"@ + acc, "submitted by"@),
                rel("group_"@ + row.group, "submitted by group"@),
                rel("part_"@ + row.partition, "submitted on"@),
            ] + match row.exec_host {
                Some(h) => seq![rel("host_"@ + h, "executed on"@)],
                None => Seq::empty(),
            },
        },
        events: seq![
            EventModel {
                id: event_id("submit-"@, job, 0),
                event_type: "Submit Job"@,
                time: EventTime::Local(row.submit_time),
                attributes: Seq::empty(),
                relationships: seq![rel(job, "job"@), rel("acc_"@ + acc, "submitter"@)],
            },
        ],
        start: if !(row.state is Pending) && row.start_time is Some {
            Some(start_event(row, job, 1, row.start_time->0))
        } else {
            None
        },
        accounts: seq![acc],
        groups: seq![row.group],
        partitions: seq![row.partition],
        hosts: match row.exec_host {
            Some(h) => seq![h],
            None => Seq::empty(),
        },
        last_time: t0,
        backwards: Seq::empty(),
        deltas_seen: 0,
    }
}

/// The replay after the change `ch` of a delta taken at `t`; `m.row` holds
/// the job as the whole delta left it.
pub open spec fn change_step(m: TraceModel, ch: ChangeModel, t: UtcInstant) -> TraceModel {
    let job = m.object.id;
    let o = m.object;
    match ch {
        ChangeModel::Command(c) => TraceModel {
            object: ObjectModel {
                attributes: o.attributes.push(
                    attr("command"@, ValueModel::Text(after_last(c, '/')), t),
                ),
                ..o
            },
            ..m
        },
        ChangeModel::WorkDir(w) => TraceModel {
            object: ObjectModel {
                attributes: o.attributes.push(attr("work_dir"@, ValueModel::Text(w), t)),
                ..o
            },
            ..m
        },
        ChangeModel::MinMemory(x) => TraceModel {
            object: ObjectModel {
                attributes: o.attributes.push(attr("min_memory"@, ValueModel::Text(x), t)),
                ..o
            },
            ..m
        },
        ChangeModel::Priority(p) => TraceModel {
            object: ObjectModel {
                attributes: o.attributes.push(attr("priority"@, ValueModel::Decimal(p), t)),
                ..o
            },
            ..m
        },
        ChangeModel::ExecHost(Some(h)) => TraceModel {
            object: ObjectModel {
                relationships: o.relationships.push(rel("host_"@ + h, "executed on"@)),
                ..o
            },
            hosts: m.hosts.push(h),
            ..m
        },
        ChangeModel::Group(g) => TraceModel { groups: m.groups.push(g), ..m },
        ChangeModel::Partition(p) => TraceModel { partitions: m.partitions.push(p), ..m },
        // The submitter is fixed when the job is first seen: a later account
        // is collected as an object, and the job's `submitted by` and the
        // submit event keep the first one.
        ChangeModel::Account(a) => TraceModel { accounts: m.accounts.push(a), ..m },
        ChangeModel::State(s) => {
            let m1 = TraceModel {
                object: ObjectModel {
                    attributes: o.attributes.push(
                        attr("state"@, ValueModel::Text(state_name(m.row.state)), t),
                    ),
                    ..o
                },
                ..m
            };
            match state_event(s) {
                Some((ty, prefix)) => TraceModel {
                    events: m.events.push(
                        EventModel {
                            id: event_id(prefix, job, m.events.len()),
                            event_type: ty,
                            time: EventTime::Utc(t),
                            attributes: if s is Failed {
                                seq![("reason"@, m.row.reason)]
                            } else {
                                Seq::empty()
                            },
                            relationships: seq![rel(job, "job"@)],
                        },
                    ),
                    ..m1
                },
                None => m1,
            }
        },
        ChangeModel::StartTime(Some(st)) => if m.row.state is Pending {
            m
        } else {
            match m.start {
                Some(e) => TraceModel {
                    start: Some(EventModel { time: EventTime::Local(st), ..e }),
                    ..m
                },
                None => TraceModel {
                    start: Some(start_event(m.row, job, m.events.len(), st)),
                    groups: m.groups.push(m.row.group),
                    hosts: match m.row.exec_host {
                        Some(h) => m.hosts.push(h),
                        None => m.hosts,
                    },
                    ..m
                },
            }
        },
        _ => m,
    }
}

/// The replay after the changes of a delta taken at `t`, in order.
pub open spec fn changes_step(m: TraceModel, chs: Seq<ChangeModel>, t: UtcInstant) -> TraceModel
    decreases chs.len(),
{
    if chs.len() == 0 {
        m
    } else {
        change_step(changes_step(m, chs.drop_last(), t), chs.last(), t)
    }
}

/// The replay after one more delta, taken at `t`: a delta older than the one
/// before it is noted by its index, and replayed all the same.
pub open spec fn delta_step(m: TraceModel, t: UtcInstant, chs: Seq<ChangeModel>) -> TraceModel {
    let m1 = TraceModel {
        row: apply_changes(m.row, chs),
        last_time: t,
        backwards: if t.before(m.last_time) {
            m.backwards.push(m.deltas_seen)
        } else {
            m.backwards
        },
        deltas_seen: m.deltas_seen + 1,
        ..m
    };
    changes_step(m1, chs, t)
}

/// The replay after the deltas, in order.
pub open spec fn replay(m: TraceModel, deltas: Seq<(UtcInstant, Seq<ChangeModel>)>) -> TraceModel
    decreases deltas.len(),
{
    if deltas.len() == 0 {
        m
    } else {
        let last = deltas.last();
        delta_step(replay(m, deltas.drop_last()), last.0, last.1)
    }
}

/// The events of a finished replay: those emitted, then the start event.
pub open spec fn finished_events(m: TraceModel) -> Seq<EventModel> {
    match m.start {
        Some(e) => m.events.push(e),
        None => m.events,
    }
}

proof fn lemma_changes_step_keeps_order(m: TraceModel, chs: Seq<ChangeModel>, t: UtcInstant)
    ensures
        changes_step(m, chs, t).backwards == m.backwards,
        changes_step(m, chs, t).last_time == m.last_time,
        changes_step(m, chs, t).deltas_seen == m.deltas_seen,
    decreases chs.len(),
{
    if chs.len() > 0 {
        lemma_changes_step_keeps_order(m, chs.drop_last(), t);
    }
}

/// The indices of the deltas taken before the delta, or for the first one
/// the snapshot, that precedes them.
pub open spec fn backward_steps(t0: UtcInstant, times: Seq<UtcInstant>) -> Seq<nat>
    decreases times.len(),
{
    if times.len() == 0 {
        Seq::empty()
    } else {
        let before = backward_steps(t0, times.drop_last());
        let prev = if times.len() == 1 {
            t0
        } else {
            times[times.len() - 2]
        };
        if times.last().before(prev) {
            before.push((times.len() - 1) as nat)
        } else {
            before
        }
    }
}

/// A replay notes exactly the deltas whose time goes back behind the time
/// of the file before them, and replays every delta all the same.
pub proof fn lemma_backwards_reported(
    row: RowModel,
    t0: UtcInstant,
    deltas: Seq<(UtcInstant, Seq<ChangeModel>)>,
)
    ensures
        replay(initial_model(row, t0), deltas).backwards == backward_steps(
            t0,
            deltas.map_values(|d: (UtcInstant, Seq<ChangeModel>)| d.0),
        ),
        replay(initial_model(row, t0), deltas).deltas_seen == deltas.len(),
        replay(initial_model(row, t0), deltas).last_time == if deltas.len() == 0 {
            t0
        } else {
            deltas.last().0
        },
    decreases deltas.len(),
{
    let times = deltas.map_values(|d: (UtcInstant, Seq<ChangeModel>)| d.0);
    if deltas.len() > 0 {
        let init = deltas.drop_last();
        lemma_backwards_reported(row, t0, init);
        let m = replay(initial_model(row, t0), init);
        let last = deltas.last();
        let m1 = TraceModel {
            row: apply_changes(m.row, last.1),
            last_time: last.0,
            backwards: if last.0.before(m.last_time) {
                m.backwards.push(m.deltas_seen)
            } else {
                m.backwards
            },
            deltas_seen: m.deltas_seen + 1,
            ..m
        };
        lemma_changes_step_keeps_order(m1, last.1, last.0);
        assert(times.drop_last() =~= init.map_values(|d: (UtcInstant, Seq<ChangeModel>)| d.0));
        assert(times.last() == last.0);
        if deltas.len() >= 2 {
            assert(times[times.len() - 2] == init.last().0);
        }
    }
}

/// The ids `p` + `x` for each `x` of `ids`.
pub open spec fn prefixed(p: Seq<char>, ids: Seq<Seq<char>>) -> Seq<Seq<char>> {
    ids.map_values(|x: Seq<char>| p + x)
}

/// `id` names the job itself or one of the accounts, groups, partitions and
/// hosts that the lists hold.
pub open spec fn known_target(
    job: Seq<char>,
    accounts: Seq<Seq<char>>,
    groups: Seq<Seq<char>>,
    partitions: Seq<Seq<char>>,
    hosts: Seq<Seq<char>>,
    id: Seq<char>,
) -> bool {
    ||| id == job
    ||| prefixed("acc_"@, accounts).contains(id)
    ||| prefixed("group_"@, groups).contains(id)
    ||| prefixed("part_"@, partitions).contains(id)
    ||| prefixed("host_"@, hosts).contains(id)
}

pub open spec fn rels_known(m: TraceModel, rels: Seq<RelModel>) -> bool {
    forall|k: int|
        0 <= k < rels.len() ==> known_target(
            m.object.id,
            m.accounts,
            m.groups,
            m.partitions,
            m.hosts,
            #[trigger] rels[k].object_id,
        )
}

/// Every relationship of the replay names the job or an id that the replay
/// collected.
pub open spec fn covered(m: TraceModel) -> bool {
    &&& rels_known(m, m.object.relationships)
    &&& forall|e: int| 0 <= e < m.events.len() ==> rels_known(m, #[trigger] m.events[e].relationships)
    &&& (m.start matches Some(s) ==> rels_known(m, s.relationships))
}

pub open spec fn grows(a: Seq<Seq<char>>, b: Seq<Seq<char>>) -> bool {
    a.len() <= b.len() && forall|i: int| 0 <= i < a.len() ==> b[i] == a[i]
}

/// `m2` keeps the job and every id that `m1` collected.
pub open spec fn extends(m1: TraceModel, m2: TraceModel) -> bool {
    &&& m2.object.id == m1.object.id
    &&& grows(m1.accounts, m2.accounts)
    &&& grows(m1.groups, m2.groups)
    &&& grows(m1.partitions, m2.partitions)
    &&& grows(m1.hosts, m2.hosts)
}

proof fn lemma_prefixed_grows(p: Seq<char>, a: Seq<Seq<char>>, b: Seq<Seq<char>>, id: Seq<char>)
    requires
        grows(a, b),
        prefixed(p, a).contains(id),
    ensures
        prefixed(p, b).contains(id),
{
    let i = choose|i: int| 0 <= i < prefixed(p, a).len() && prefixed(p, a)[i] == id;
    assert(prefixed(p, b)[i] == id);
}

proof fn lemma_prefixed_last(p: Seq<char>, a: Seq<Seq<char>>, x: Seq<char>)
    ensures
        prefixed(p, a.push(x)).contains(p + x),
{
    assert(prefixed(p, a.push(x))[a.len() as int] == p + x);
}

proof fn lemma_known_grows(m1: TraceModel, m2: TraceModel, id: Seq<char>)
    requires
        extends(m1, m2),
        known_target(m1.object.id, m1.accounts, m1.groups, m1.partitions, m1.hosts, id),
    ensures
        known_target(m2.object.id, m2.accounts, m2.groups, m2.partitions, m2.hosts, id),
{
    if prefixed("acc_"@, m1.accounts).contains(id) {
        lemma_prefixed_grows("acc_"@, m1.accounts, m2.accounts, id);
    } else if prefixed("group_"@, m1.groups).contains(id) {
        lemma_prefixed_grows("group_"@, m1.groups, m2.groups, id);
    } else if prefixed("part_"@, m1.partitions).contains(id) {
        lemma_prefixed_grows("part_"@, m1.partitions, m2.partitions, id);
    } else if prefixed("host_"@, m1.hosts).contains(id) {
        lemma_prefixed_grows("host_"@, m1.hosts, m2.hosts, id);
    }
}

proof fn lemma_rels_grow(m1: TraceModel, m2: TraceModel, rels: Seq<RelModel>)
    requires
        extends(m1, m2),
        rels_known(m1, rels),
    ensures
        rels_known(m2, rels),
{
    assert forall|k: int| 0 <= k < rels.len() implies known_target(
        m2.object.id,
        m2.accounts,
        m2.groups,
        m2.partitions,
        m2.hosts,
        #[trigger] rels[k].object_id,
    ) by {
        lemma_known_grows(m1, m2, rels[k].object_id);
    }
}

proof fn lemma_extends_trans(a: TraceModel, b: TraceModel, c: TraceModel)
    requires
        extends(a, b),
        extends(b, c),
    ensures
        extends(a, c),
{
}

/// A change keeps every collected id and every relationship resolvable.
proof fn lemma_change_step_covered(m: TraceModel, ch: ChangeModel, t: UtcInstant)
    requires
        covered(m),
    ensures
        covered(change_step(m, ch, t)),
        extends(m, change_step(m, ch, t)),
{
    let m2 = change_step(m, ch, t);
    assert(extends(m, m2));
    lemma_rels_grow(m, m2, m.object.relationships);
    assert forall|e: int| 0 <= e < m.events.len() implies rels_known(m2, #[trigger] m.events[e].relationships) by {
        lemma_rels_grow(m, m2, m.events[e].relationships);
    }
    if let Some(s) = m.start {
        lemma_rels_grow(m, m2, s.relationships);
    }
    let job = m.object.id;
    match ch {
        ChangeModel::ExecHost(Some(h)) => {
            lemma_prefixed_last("host_"@, m.hosts, h);
            let rels = m2.object.relationships;
            assert forall|k: int| 0 <= k < rels.len() implies known_target(
                m2.object.id,
                m2.accounts,
                m2.groups,
                m2.partitions,
                m2.hosts,
                #[trigger] rels[k].object_id,
            ) by {
                if k < m.object.relationships.len() {
                    assert(rels[k] == m.object.relationships[k]);
                }
            }
        },
        ChangeModel::State(st) => {
            assert forall|e: int| 0 <= e < m2.events.len() implies rels_known(m2, #[trigger] m2.events[e].relationships) by {
                if e < m.events.len() {
                    assert(m2.events[e] == m.events[e]);
                }
            }
        },
        ChangeModel::StartTime(Some(st)) => {
            if !(m.row.state is Pending) && m.start is None {
                let ev = start_event(m.row, job, m.events.len(), st);
                lemma_prefixed_last("group_"@, m.groups, m.row.group);
                if let Some(h) = m.row.exec_host {
                    lemma_prefixed_last("host_"@, m.hosts, h);
                }
                assert(rels_known(m2, ev.relationships));
            }
        },
        _ => {},
    }
}

proof fn lemma_changes_step_covered(m: TraceModel, chs: Seq<ChangeModel>, t: UtcInstant)
    requires
        covered(m),
    ensures
        covered(changes_step(m, chs, t)),
        extends(m, changes_step(m, chs, t)),
    decreases chs.len(),
{
    if chs.len() > 0 {
        lemma_changes_step_covered(m, chs.drop_last(), t);
        let m1 = changes_step(m, chs.drop_last(), t);
        lemma_change_step_covered(m1, chs.last(), t);
        lemma_extends_trans(m, m1, changes_step(m, chs, t));
    }
}

/// Every relationship that a replay records names the job or an account,
/// group, partition or host that the replay collected.
pub proof fn lemma_replay_covered(row: RowModel, t0: UtcInstant, deltas: Seq<(UtcInstant, Seq<ChangeModel>)>)
    ensures
        covered(replay(initial_model(row, t0), deltas)),
    decreases deltas.len(),
{
    if deltas.len() == 0 {
        let m = initial_model(row, t0);
        lemma_prefixed_last("acc_"@, Seq::empty(), account_of(row));
        lemma_prefixed_last("group_"@, Seq::empty(), row.group);
        lemma_prefixed_last("part_"@, Seq::empty(), row.partition);
        assert(seq![account_of(row)] == Seq::<Seq<char>>::empty().push(account_of(row)));
        assert(seq![row.group] == Seq::<Seq<char>>::empty().push(row.group));
        assert(seq![row.partition] == Seq::<Seq<char>>::empty().push(row.partition));
        if let Some(h) = row.exec_host {
            lemma_prefixed_last("host_"@, Seq::empty(), h);
            assert(seq![h] == Seq::<Seq<char>>::empty().push(h));
        }
        assert(rels_known(m, m.object.relationships));
        assert(rels_known(m, m.events[0].relationships));
    } else {
        lemma_replay_covered(row, t0, deltas.drop_last());
        let m = replay(initial_model(row, t0), deltas.drop_last());
        let last = deltas.last();
        let m1 = TraceModel {
            row: apply_changes(m.row, last.1),
            last_time: last.0,
            backwards: if last.0.before(m.last_time) {
                m.backwards.push(m.deltas_seen)
            } else {
                m.backwards
            },
            deltas_seen: m.deltas_seen + 1,
            ..m
        };
        assert(extends(m, m1));
        lemma_rels_grow(m, m1, m.object.relationships);
        assert forall|e: int| 0 <= e < m1.events.len() implies rels_known(m1, #[trigger] m1.events[e].relationships) by {
            lemma_rels_grow(m, m1, m.events[e].relationships);
        }
        if let Some(s) = m.start {
            lemma_rels_grow(m, m1, s.relationships);
        }
        lemma_changes_step_covered(m1, last.1, last.0);
    }
}

/// Every scheduler reading among the replay's event times, the held-back
/// start event's included, is a real date and time.
pub open spec fn event_times_valid(m: TraceModel) -> bool {
    &&& crate::assemble::local_times_valid(m.events)
    &&& (m.start matches Some(e) ==> (e.time matches EventTime::Local(s) ==> s.valid()))
}

proof fn lemma_change_step_times(m: TraceModel, ch: ChangeModel, t: UtcInstant)
    requires
        event_times_valid(m),
        crate::delta::change_times_valid(ch),
    ensures
        event_times_valid(change_step(m, ch, t)),
{
    let m2 = change_step(m, ch, t);
    assert forall|k: int| 0 <= k < m2.events.len() implies ((#[trigger] m2.events[k]).time matches EventTime::Local(s) ==> s.valid()) by {
        if k < m.events.len() {
            assert(m2.events[k] == m.events[k]);
        }
    }
}

proof fn lemma_changes_step_times(m: TraceModel, chs: Seq<ChangeModel>, t: UtcInstant)
    requires
        event_times_valid(m),
        forall|j: int| 0 <= j < chs.len() ==> crate::delta::change_times_valid(#[trigger] chs[j]),
    ensures
        event_times_valid(changes_step(m, chs, t)),
    decreases chs.len(),
{
    if chs.len() > 0 {
        assert forall|j: int| 0 <= j < chs.drop_last().len() implies crate::delta::change_times_valid(
            #[trigger] chs.drop_last()[j],
        ) by {
            assert(chs.drop_last()[j] == chs[j]);
        }
        lemma_changes_step_times(m, chs.drop_last(), t);
        assert(crate::delta::change_times_valid(chs[chs.len() - 1]));
        lemma_change_step_times(changes_step(m, chs.drop_last(), t), chs.last(), t);
    }
}

/// The deltas carry real dates and times only.
pub open spec fn deltas_times_valid(deltas: Seq<(UtcInstant, Seq<ChangeModel>)>) -> bool {
    forall|i: int, j: int|
        0 <= i < deltas.len() && 0 <= j < deltas[i].1.len() ==> crate::delta::change_times_valid(
            #[trigger] deltas[i].1[j],
        )
}

/// A replay of real dates and times holds only real dates and times among
/// its events' readings.
pub proof fn lemma_replay_times(row: RowModel, t0: UtcInstant, deltas: Seq<(UtcInstant, Seq<ChangeModel>)>)
    requires
        crate::row::row_times_valid(row),
        deltas_times_valid(deltas),
    ensures
        event_times_valid(replay(initial_model(row, t0), deltas)),
        crate::assemble::local_times_valid(finish(replay(initial_model(row, t0), deltas)).events),
    decreases deltas.len(),
{
    if deltas.len() > 0 {
        let init = deltas.drop_last();
        assert forall|i: int, j: int| 0 <= i < init.len() && 0 <= j < init[i].1.len() implies crate::delta::change_times_valid(
            #[trigger] init[i].1[j],
        ) by {
            assert(init[i] == deltas[i]);
        }
        lemma_replay_times(row, t0, init);
        let m = replay(initial_model(row, t0), init);
        let last = deltas.last();
        let m1 = TraceModel {
            row: apply_changes(m.row, last.1),
            last_time: last.0,
            backwards: if last.0.before(m.last_time) {
                m.backwards.push(m.deltas_seen)
            } else {
                m.backwards
            },
            deltas_seen: m.deltas_seen + 1,
            ..m
        };
        assert forall|j: int| 0 <= j < last.1.len() implies crate::delta::change_times_valid(#[trigger] last.1[j]) by {
            assert(deltas[deltas.len() - 1].1[j] == last.1[j]);
        }
        lemma_changes_step_times(m1, last.1, last.0);
    } else {
        let m = initial_model(row, t0);
        assert(crate::assemble::local_times_valid(m.events));
    }
    let m = replay(initial_model(row, t0), deltas);
    let evs = finish(m).events;
    assert forall|k: int| 0 <= k < evs.len() implies ((#[trigger] evs[k]).time matches EventTime::Local(s) ==> s.valid()) by {
        if k < m.events.len() {
            assert(evs[k] == m.events[k]);
        }
    }
}

/// A replay in progress.
pub struct JobReplay {
    pub row: SqueueRow,
    pub object: OcelObject,
    pub events: Vec<OcelEvent>,
    pub start: Option<OcelEvent>,
    pub accounts: Vec<String>,
    pub groups: Vec<String>,
    pub partitions: Vec<String>,
    pub hosts: Vec<String>,
    pub last_time: UtcInstant,
    pub backwards: Vec<usize>,
    pub deltas_seen: usize,
}

pub open spec fn event_views(v: Seq<OcelEvent>) -> Seq<EventModel> {
    v.map_values(|e: OcelEvent| e@)
}

pub open spec fn opt_event_view(o: Option<OcelEvent>) -> Option<EventModel> {
    match o {
        Some(e) => Some(e@),
        None => None,
    }
}

pub open spec fn index_views(v: Seq<usize>) -> Seq<nat> {
    v.map_values(|i: usize| i as nat)
}

impl View for JobReplay {
    type V = TraceModel;

    open spec fn view(&self) -> TraceModel {
        TraceModel {
            row: self.row@,
            object: self.object@,
            events: event_views(self.events@),
            start: opt_event_view(self.start),
            accounts: crate::text::views(self.accounts@),
            groups: crate::text::views(self.groups@),
            partitions: crate::text::views(self.partitions@),
            hosts: crate::text::views(self.hosts@),
            last_time: self.last_time,
            backwards: index_views(self.backwards@),
            deltas_seen: self.deltas_seen as nat,
        }
    }
}

fn relationship(id: String, q: &str) -> (r: Relationship)
    ensures
        r@ == rel(id@, q@),
{
    Relationship { object_id: id, qualifier: owned(q) }
}

fn make_event_id(prefix: &str, job: &String, n: usize) -> (r: String)
    ensures
        r@ == event_id(prefix@, job@, n as nat),
{
    let mut r = concat(prefix, job);
    push_char(&mut r, '-');
    push_decimal_usize(&mut r, n);
    r
}

fn object_attribute(name: &str, value: AttrValue, time: UtcInstant) -> (r: ObjectAttribute)
    ensures
        r@ == attr(name@, value@, time),
{
    ObjectAttribute { name: owned(name), value, time }
}

fn host_relationships(host: &Option<String>, q: &str) -> (r: Vec<Relationship>)
    ensures
        r@.map_values(|x: Relationship| x@) == match opt_view(*host) {
            Some(h) => seq![rel("host_"@ + h, q@)],
            None => Seq::<RelModel>::empty(),
        },
{
    let mut r: Vec<Relationship> = Vec::new();
    match host {
        Some(h) => {
            r.push(relationship(concat("host_", h), q));
            assert(r@.map_values(|x: Relationship| x@) =~= seq![rel("host_"@ + h@, q@)]);
        },
        None => {
            assert(r@.map_values(|x: Relationship| x@) =~= Seq::<RelModel>::empty());
        },
    }
    r
}

fn append_relationships(a: &mut Vec<Relationship>, b: Vec<Relationship>)
    ensures
        final(a)@.map_values(|x: Relationship| x@) == old(a)@.map_values(|x: Relationship| x@)
            + b@.map_values(|x: Relationship| x@),
{
    let mut b = b;
    let ghost all = old(a)@.map_values(|x: Relationship| x@) + b@.map_values(|x: Relationship| x@);
    let mut rest: Vec<Relationship> = Vec::new();
    while b.len() > 0
        invariant
            all == old(a)@.map_values(|x: Relationship| x@) + b@.map_values(|x: Relationship| x@)
                + rest@.map_values(|x: Relationship| x@).reverse(),
            a@ == old(a)@,
        decreases b@.len(),
    {
        let ghost before_b = b@;
        let ghost before_rest = rest@;
        let x = b.pop().unwrap();
        rest.push(x);
        assert(before_b.map_values(|x: Relationship| x@) =~= b@.map_values(|x: Relationship| x@).push(x@));
        assert(rest@.map_values(|x: Relationship| x@).reverse() =~= seq![x@] + before_rest.map_values(|x: Relationship| x@).reverse());
        assert(all =~= old(a)@.map_values(|x: Relationship| x@) + b@.map_values(|x: Relationship| x@)
                + rest@.map_values(|x: Relationship| x@).reverse());
    }
    while rest.len() > 0
        invariant
            all == a@.map_values(|x: Relationship| x@) + rest@.map_values(|x: Relationship| x@).reverse(),
        decreases rest@.len(),
    {
        let ghost before_a = a@;
        let ghost before_rest = rest@;
        let x = rest.pop().unwrap();
        a.push(x);
        assert(a@.map_values(|x: Relationship| x@) =~= before_a.map_values(|x: Relationship| x@).push(x@));
        assert(before_rest.map_values(|x: Relationship| x@).reverse() =~= seq![x@] + rest@.map_values(|x: Relationship| x@).reverse());
        assert(all =~= a@.map_values(|x: Relationship| x@) + rest@.map_values(|x: Relationship| x@).reverse());
    }
    assert(all =~= a@.map_values(|x: Relationship| x@));
}

fn new_start_event(row: &SqueueRow, job: &String, n: usize, st: SlurmTime) -> (r: OcelEvent)
    ensures
        r@ == start_event(row@, job@, n as nat, st),
{
    let mut rels: Vec<Relationship> = Vec::new();
    rels.push(relationship(job.clone(), "job"));
    rels.push(relationship(concat("group_", &row.group), "for"));
    assert(rels@.map_values(|x: Relationship| x@) =~= seq![rel(job@, "job"@), rel("group_"@ + row.group@, "for"@)]);
    append_relationships(&mut rels, host_relationships(&row.exec_host, "host"));
    let attributes: Vec<EventAttribute> = Vec::new();
    let e = OcelEvent {
        id: make_event_id("start-", job, n),
        event_type: owned("Job Started"),
        time: EventTime::Local(st),
        attributes,
        relationships: rels,
    };
    assert(e@.attributes =~= Seq::<(Seq<char>, Seq<char>)>::empty());
    e
}

/// The account that a job is charged to: see `account_of`.
pub fn job_account(row: &SqueueRow) -> (r: String)
    ensures
        r@ == account_of(row@),
{
    if row.account == owned("default") {
        match first_capture(HOME_PATTERN, row.work_dir.as_str()) {
            Some(t) => {
                if t.as_str().is_empty() {
                    owned("default")
                } else {
                    t
                }
            },
            None => owned("default"),
        }
    } else {
        row.account.clone()
    }
}

fn state_event_names(s: &JobState) -> (r: Option<(&'static str, &'static str)>)
    ensures
        match r {
            Some((ty, prefix)) => state_event(s@) == Some((ty@, prefix@)),
            None => state_event(s@) is None,
        },
{
    match s {
        JobState::COMPLETING => Some(("Job Ending", "ending-")),
        JobState::COMPLETED => Some(("Job Completed", "ended-")),
        JobState::CANCELLED => Some(("Job Cancelled", "cancelled-")),
        JobState::FAILED => Some(("Job Failed", "failed-")),
        JobState::TIMEOUT => Some(("Job Timeout", "timeout-")),
        JobState::OUT_OF_MEMORY => Some(("Job Out Of Memory", "oom-")),
        JobState::NODE_FAIL => Some(("Job Node Fail", "node-fail-")),
        _ => None,
    }
}

impl JobReplay {
    /// The replay after the first snapshot `row`, taken at `t0`.
    pub fn new(row: SqueueRow, t0: UtcInstant) -> (r: JobReplay)
        ensures
            r@ == initial_model(row@, t0),
    {
        let job = row.job_id.clone();
        let acc = job_account(&row);
        let mut attributes: Vec<ObjectAttribute> = Vec::new();
        attributes.push(
            object_attribute(
                "command",
                AttrValue::Text(after_last_of(row.command.as_str(), '/')),
                UtcInstant::epoch(),
            ),
        );
        attributes.push(
            object_attribute("work_dir", AttrValue::Text(row.work_dir.clone()), UtcInstant::epoch()),
        );
        attributes.push(object_attribute("cpus", AttrValue::Integer(row.cpus), UtcInstant::epoch()));
        attributes.push(
            object_attribute(
                "min_memory",
                AttrValue::Text(row.min_memory.clone()),
                UtcInstant::epoch(),
            ),
        );
        attributes.push(object_attribute("state", AttrValue::Text(row.state.name()), t0));
        let ghost m = initial_model(row@, t0);
        assert(attributes@.map_values(|a: ObjectAttribute| a@) =~= m.object.attributes);
        let mut rels: Vec<Relationship> = Vec::new();
        rels.push(relationship(concat("acc_", &acc), "submitted by"));
        rels.push(relationship(concat("group_", &row.group), "submitted by group"));
        rels.push(relationship(concat("part_", &row.partition), "submitted on"));
        assert(rels@.map_values(|x: Relationship| x@) =~= seq![
            rel("acc_"@ + acc@, "submitted by"@),
            rel("group_"@ + row.group@, "submitted by group"@),
            rel("part_"@ + row.partition@, "submitted on"@),
        ]);
        append_relationships(&mut rels, host_relationships(&row.exec_host, "executed on"));
        let object = OcelObject {
            id: job.clone(),
            object_type: owned("Job"),
            attributes,
            relationships: rels,
        };
        let mut submit_rels: Vec<Relationship> = Vec::new();
        submit_rels.push(relationship(job.clone(), "job"));
        submit_rels.push(relationship(concat("acc_", &acc), "submitter"));
        let submit_attrs: Vec<EventAttribute> = Vec::new();
        let submit = OcelEvent {
            id: make_event_id("submit-", &job, 0),
            event_type: owned("Submit Job"),
            time: EventTime::Local(row.submit_time),
            attributes: submit_attrs,
            relationships: submit_rels,
        };
        assert(submit@ == m.events[0]) by {
            assert(submit@.attributes =~= Seq::<(Seq<char>, Seq<char>)>::empty());
            assert(submit@.relationships =~= seq![rel(job@, "job"@), rel("acc_"@ + acc@, "submitter"@)]);
        }
        let mut events: Vec<OcelEvent> = Vec::new();
        events.push(submit);
        assert(event_views(events@) =~= m.events);
        let start = match row.start_time {
            Some(st) => {
                if !row.state.is_pending() {
                    Some(new_start_event(&row, &job, 1, st))
                } else {
                    None
                }
            },
            None => None,
        };
        let mut accounts: Vec<String> = Vec::new();
        accounts.push(acc);
        let mut groups: Vec<String> = Vec::new();
        groups.push(row.group.clone());
        let mut partitions: Vec<String> = Vec::new();
        partitions.push(row.partition.clone());
        let mut hosts: Vec<String> = Vec::new();
        match &row.exec_host {
            Some(h) => {
                hosts.push(h.clone());
            },
            None => {},
        }
        let backwards: Vec<usize> = Vec::new();
        let r = JobReplay {
            row,
            object,
            events,
            start,
            accounts,
            groups,
            partitions,
            hosts,
            last_time: t0,
            backwards,
            deltas_seen: 0,
        };
        assert(r@.accounts =~= m.accounts);
        assert(r@.groups =~= m.groups);
        assert(r@.partitions =~= m.partitions);
        assert(r@.hosts =~= m.hosts);
        assert(r@.backwards =~= m.backwards);
        r
    }

    /// Records one change of a delta taken at `t`, as the table of changes
    /// says; `self.row` already holds the job as the whole delta left it.
    pub fn apply_one(&mut self, ch: &FieldChange, t: UtcInstant)
        ensures
            final(self)@ == change_step(old(self)@, ch@, t),
            final(self).deltas_seen == old(self).deltas_seen,
    {
        let ghost m = self@;
        match ch {
            FieldChange::Command(c) => {
                self.object.attributes.push(
                    object_attribute("command", AttrValue::Text(after_last_of(c.as_str(), '/')), t),
                );
                assert(self@.object.attributes =~= m.object.attributes.push(
                    attr("command"@, ValueModel::Text(after_last(c@, '/')), t),
                ));
            },
            FieldChange::WorkDir(w) => {
                self.object.attributes.push(
                    object_attribute("work_dir", AttrValue::Text(w.clone()), t),
                );
                assert(self@.object.attributes =~= m.object.attributes.push(
                    attr("work_dir"@, ValueModel::Text(w@), t),
                ));
            },
            FieldChange::MinMemory(x) => {
                self.object.attributes.push(
                    object_attribute("min_memory", AttrValue::Text(x.clone()), t),
                );
                assert(self@.object.attributes =~= m.object.attributes.push(
                    attr("min_memory"@, ValueModel::Text(x@), t),
                ));
            },
            FieldChange::Priority(p) => {
                self.object.attributes.push(object_attribute("priority", AttrValue::Decimal(*p), t));
                assert(self@.object.attributes =~= m.object.attributes.push(
                    attr("priority"@, ValueModel::Decimal(*p), t),
                ));
            },
            FieldChange::ExecHost(Some(h)) => {
                self.hosts.push(h.clone());
                self.object.relationships.push(relationship(concat("host_", h), "executed on"));
                assert(self@.hosts =~= m.hosts.push(h@));
                assert(self@.object.relationships =~= m.object.relationships.push(
                    rel("host_"@ + h@, "executed on"@),
                ));
            },
            FieldChange::Group(g) => {
                self.groups.push(g.clone());
                assert(self@.groups =~= m.groups.push(g@));
            },
            FieldChange::Partition(p) => {
                self.partitions.push(p.clone());
                assert(self@.partitions =~= m.partitions.push(p@));
            },
            FieldChange::Account(a) => {
                // The submitter stays the one of the first snapshot.
                self.accounts.push(a.clone());
                assert(self@.accounts =~= m.accounts.push(a@));
            },
            FieldChange::State(s) => {
                self.object.attributes.push(
                    object_attribute("state", AttrValue::Text(self.row.state.name()), t),
                );
                assert(self@.object.attributes =~= m.object.attributes.push(
                    attr("state"@, ValueModel::Text(state_name(m.row.state)), t),
                ));
                match state_event_names(s) {
                    Some((ty, prefix)) => {
                        let n = self.events.len();
                        let mut attrs: Vec<EventAttribute> = Vec::new();
                        if matches!(s, JobState::FAILED) {
                            attrs.push(
                                EventAttribute { name: owned("reason"), value: self.row.reason.clone() },
                            );
                        }
                        let mut rels: Vec<Relationship> = Vec::new();
                        rels.push(relationship(self.object.id.clone(), "job"));
                        let e = OcelEvent {
                            id: make_event_id(prefix, &self.object.id, n),
                            event_type: owned(ty),
                            time: EventTime::Utc(t),
                            attributes: attrs,
                            relationships: rels,
                        };
                        assert(e@.relationships =~= seq![rel(m.object.id, "job"@)]);
                        assert(e@.attributes =~= if s@ is Failed {
                            seq![("reason"@, m.row.reason)]
                        } else {
                            Seq::empty()
                        });
                        self.events.push(e);
                        assert(event_views(self.events@) =~= event_views(old(self).events@).push(e@));
                    },
                    None => {},
                }
            },
            FieldChange::StartTime(Some(st)) => {
                if !self.row.state.is_pending() {
                    match &mut self.start {
                        Some(e) => {
                            e.time = EventTime::Local(*st);
                        },
                        None => {},
                    }
                    if self.start.is_none() {
                        let n = self.events.len();
                        self.start = Some(new_start_event(&self.row, &self.object.id, n, *st));
                        self.groups.push(self.row.group.clone());
                        assert(self@.groups =~= m.groups.push(m.row.group));
                        match &self.row.exec_host {
                            Some(h) => {
                                self.hosts.push(h.clone());
                                assert(self@.hosts =~= m.hosts.push(h@));
                            },
                            None => {},
                        }
                    }
                }
            },
            _ => {},
        }
    }

    /// Replays one more delta, taken at `t`.
    pub fn apply_delta(&mut self, t: UtcInstant, chs: &Vec<FieldChange>)
        requires
            old(self).deltas_seen < usize::MAX,
        ensures
            final(self)@ == delta_step(old(self)@, t, change_views(chs@)),
            final(self).deltas_seen == old(self).deltas_seen + 1,
    {
        let ghost m = self@;
        if t.is_before(&self.last_time) {
            self.backwards.push(self.deltas_seen);
            assert(index_views(self.backwards@) =~= m.backwards.push(m.deltas_seen));
        }
        self.row.apply_mut(chs);
        self.last_time = t;
        self.deltas_seen = self.deltas_seen + 1;
        let ghost m1 = self@;
        let mut i: usize = 0;
        while i < chs.len()
            invariant
                i <= chs@.len(),
                self@ == changes_step(m1, change_views(chs@).take(i as int), t),
                self.deltas_seen == old(self).deltas_seen + 1,
            decreases chs@.len() - i,
        {
            self.apply_one(&chs[i], t);
            assert(change_views(chs@).take(i + 1).drop_last() =~= change_views(chs@).take(i as int));
            i = i + 1;
        }
        assert(change_views(chs@).take(chs@.len() as int) =~= change_views(chs@));
    }
}

/// What a job's replay yields.
#[derive(Debug)]
pub struct JobTrace {
    pub object: OcelObject,
    pub events: Vec<OcelEvent>,
    pub accounts: Vec<String>,
    pub groups: Vec<String>,
    pub partitions: Vec<String>,
    pub hosts: Vec<String>,
    /// The indices of the deltas taken before the delta or snapshot that
    /// precedes them.
    pub backwards: Vec<usize>,
}

pub struct TraceView {
    pub object: ObjectModel,
    pub events: Seq<EventModel>,
    pub accounts: Seq<Seq<char>>,
    pub groups: Seq<Seq<char>>,
    pub partitions: Seq<Seq<char>>,
    pub hosts: Seq<Seq<char>>,
    pub backwards: Seq<nat>,
}

impl View for JobTrace {
    type V = TraceView;

    open spec fn view(&self) -> TraceView {
        TraceView {
            object: self.object@,
            events: event_views(self.events@),
            accounts: crate::text::views(self.accounts@),
            groups: crate::text::views(self.groups@),
            partitions: crate::text::views(self.partitions@),
            hosts: crate::text::views(self.hosts@),
            backwards: index_views(self.backwards@),
        }
    }
}

/// What a finished replay yields.
pub open spec fn finish(m: TraceModel) -> TraceView {
    TraceView {
        object: m.object,
        events: finished_events(m),
        accounts: m.accounts,
        groups: m.groups,
        partitions: m.partitions,
        hosts: m.hosts,
        backwards: m.backwards,
    }
}

/// Every relationship of the replay's object and events names the job or
/// an id that the replay collected.
pub open spec fn trace_covered(tv: TraceView) -> bool {
    &&& forall|k: int|
        0 <= k < tv.object.relationships.len() ==> known_target(
            tv.object.id,
            tv.accounts,
            tv.groups,
            tv.partitions,
            tv.hosts,
            #[trigger] tv.object.relationships[k].object_id,
        )
    &&& forall|e: int, k: int|
        0 <= e < tv.events.len() && 0 <= k < tv.events[e].relationships.len() ==> known_target(
            tv.object.id,
            tv.accounts,
            tv.groups,
            tv.partitions,
            tv.hosts,
            #[trigger] tv.events[e].relationships[k].object_id,
        )
}

/// What a replay yields relates only to the job and to ids it collected.
pub proof fn lemma_finished_covered(row: RowModel, t0: UtcInstant, deltas: Seq<(UtcInstant, Seq<ChangeModel>)>)
    ensures
        trace_covered(finish(replay(initial_model(row, t0), deltas))),
{
    lemma_replay_covered(row, t0, deltas);
    let m = replay(initial_model(row, t0), deltas);
    let tv = finish(m);
    assert forall|e: int, k: int|
        0 <= e < tv.events.len() && 0 <= k < tv.events[e].relationships.len() implies known_target(
            tv.object.id,
            tv.accounts,
            tv.groups,
            tv.partitions,
            tv.hosts,
            #[trigger] tv.events[e].relationships[k].object_id,
        ) by {
        if e < m.events.len() {
            assert(tv.events[e] == m.events[e]);
            assert(rels_known(m, m.events[e].relationships));
        } else {
            assert(rels_known(m, m.start->0.relationships));
        }
    }
}

/// The event types that are emitted as they happen; only the start event is
/// held back until the replay ends.
pub open spec fn is_commit_type(ty: Seq<char>) -> bool {
    ty == "Submit Job"@
        || ty == "Job Ending"@
        || ty == "Job Completed"@
        || ty == "Job Cancelled"@
        || ty == "Job Failed"@
        || ty == "Job Timeout"@
        || ty == "Job Out Of Memory"@
        || ty == "Job Node Fail"@
}

/// The id prefix of an event type that is emitted as it happens.
pub open spec fn commit_prefix(ty: Seq<char>) -> Seq<char> {
    if ty == "Submit Job"@ {
        "submit-"@
    } else if ty == "Job Ending"@ {
        "ending-"@
    } else if ty == "Job Completed"@ {
        "ended-"@
    } else if ty == "Job Cancelled"@ {
        "cancelled-"@
    } else if ty == "Job Failed"@ {
        "failed-"@
    } else if ty == "Job Timeout"@ {
        "timeout-"@
    } else if ty == "Job Out Of Memory"@ {
        "oom-"@
    } else {
        "node-fail-"@
    }
}

/// The prefixes of event ids.
pub open spec fn is_id_prefix(p: Seq<char>) -> bool {
    p == "submit-"@
        || p == "start-"@
        || p == "ending-"@
        || p == "ended-"@
        || p == "cancelled-"@
        || p == "failed-"@
        || p == "timeout-"@
        || p == "oom-"@
        || p == "node-fail-"@
}

/// The number at the end of an event id.
pub open spec fn id_number(id: Seq<char>) -> nat {
    crate::text::digits_value(after_last(id, '-'))
}

proof fn lemma_event_literals()
    ensures
        "Submit Job"@.len() == 10 && "Submit Job"@[0] == 'S' && "Submit Job"@[4] == 'i' && "Submit Job"@[5] == 't',
        "Job Ending"@.len() == 10 && "Job Ending"@[0] == 'J' && "Job Ending"@[4] == 'E' && "Job Ending"@[5] == 'n',
        "Job Completed"@.len() == 13 && "Job Completed"@[0] == 'J' && "Job Completed"@[4] == 'C' && "Job Completed"@[5] == 'o',
        "Job Cancelled"@.len() == 13 && "Job Cancelled"@[0] == 'J' && "Job Cancelled"@[4] == 'C' && "Job Cancelled"@[5] == 'a',
        "Job Failed"@.len() == 10 && "Job Failed"@[0] == 'J' && "Job Failed"@[4] == 'F' && "Job Failed"@[5] == 'a',
        "Job Timeout"@.len() == 11 && "Job Timeout"@[0] == 'J' && "Job Timeout"@[4] == 'T' && "Job Timeout"@[5] == 'i',
        "Job Out Of Memory"@.len() == 17 && "Job Out Of Memory"@[0] == 'J' && "Job Out Of Memory"@[4] == 'O' && "Job Out Of Memory"@[5] == 'u',
        "Job Node Fail"@.len() == 13 && "Job Node Fail"@[0] == 'J' && "Job Node Fail"@[4] == 'N' && "Job Node Fail"@[5] == 'o',
        "submit-"@.len() == 7 && "submit-"@[0] == 's' && "submit-"@[1] == 'u' && "submit-"@[3] == 'm',
        "start-"@.len() == 6 && "start-"@[0] == 's' && "start-"@[1] == 't' && "start-"@[3] == 'r',
        "ending-"@.len() == 7 && "ending-"@[0] == 'e' && "ending-"@[1] == 'n' && "ending-"@[3] == 'i',
        "ended-"@.len() == 6 && "ended-"@[0] == 'e' && "ended-"@[1] == 'n' && "ended-"@[3] == 'e',
        "cancelled-"@.len() == 10 && "cancelled-"@[0] == 'c' && "cancelled-"@[1] == 'a' && "cancelled-"@[3] == 'c',
        "failed-"@.len() == 7 && "failed-"@[0] == 'f' && "failed-"@[1] == 'a' && "failed-"@[3] == 'l',
        "timeout-"@.len() == 8 && "timeout-"@[0] == 't' && "timeout-"@[1] == 'i' && "timeout-"@[3] == 'e',
        "oom-"@.len() == 4 && "oom-"@[0] == 'o' && "oom-"@[1] == 'o' && "oom-"@[3] == '-',
        "node-fail-"@.len() == 10 && "node-fail-"@[0] == 'n' && "node-fail-"@[1] == 'o' && "node-fail-"@[3] == 'e',
{
    reveal_strlit("Submit Job");
    reveal_strlit("Job Ending");
    reveal_strlit("Job Completed");
    reveal_strlit("Job Cancelled");
    reveal_strlit("Job Failed");
    reveal_strlit("Job Timeout");
    reveal_strlit("Job Out Of Memory");
    reveal_strlit("Job Node Fail");
    reveal_strlit("submit-");
    reveal_strlit("start-");
    reveal_strlit("ending-");
    reveal_strlit("ended-");
    reveal_strlit("cancelled-");
    reveal_strlit("failed-");
    reveal_strlit("timeout-");
    reveal_strlit("oom-");
    reveal_strlit("node-fail-");
}

proof fn lemma_state_event_prefix(s: StateModel)
    ensures
        state_event(s) matches Some((ty, p)) ==> is_commit_type(ty) && commit_prefix(ty) == p
            && is_id_prefix(p) && p != "start-"@,
{
    lemma_event_literals();
}

proof fn lemma_commit_prefix(ty: Seq<char>)
    requires
        is_commit_type(ty),
    ensures
        is_id_prefix(commit_prefix(ty)),
        commit_prefix(ty) != "start-"@,
{
    lemma_event_literals();
}

/// Two prefixes of event ids that begin the same text are the same.
proof fn lemma_prefix_free(pa: Seq<char>, x1: Seq<char>, pb: Seq<char>, x2: Seq<char>)
    requires
        is_id_prefix(pa),
        is_id_prefix(pb),
        pa + x1 == pb + x2,
    ensures
        pa == pb,
        x1 == x2,
{
    lemma_event_literals();
    assert((pa + x1)[0] == pa[0] && (pb + x2)[0] == pb[0]);
    assert((pa + x1)[1] == pa[1] && (pb + x2)[1] == pb[1]);
    assert((pa + x1)[3] == pa[3] && (pb + x2)[3] == pb[3]);
    assert(pa == pb);
    assert(x1 =~= (pa + x1).skip(pa.len() as int));
    assert(x2 =~= (pb + x2).skip(pb.len() as int));
}

proof fn lemma_after_last_suffix(a: Seq<char>, d: Seq<char>)
    requires
        !d.contains('-'),
    ensures
        after_last(a.push('-') + d, '-') == d,
    decreases d.len(),
{
    if d.len() == 0 {
        assert(a.push('-') + d =~= a.push('-'));
    } else {
        let d0 = d.drop_last();
        assert(!d0.contains('-')) by {
            assert forall|i: int| 0 <= i < d0.len() implies d0[i] != '-' by {
                assert(d0[i] == d[i]);
            }
        }
        lemma_after_last_suffix(a, d0);
        assert((a.push('-') + d).drop_last() =~= a.push('-') + d0);
        assert((a.push('-') + d).last() == d.last());
        assert(d.last() != '-') by {
            assert(d[d.len() - 1] == d.last());
        }
        assert(d0.push(d.last()) =~= d);
    }
}

/// An event id tells its prefix, its job and its number.
pub proof fn lemma_event_id_parts(p: Seq<char>, job: Seq<char>, n: nat)
    requires
        is_id_prefix(p),
    ensures
        after_last(event_id(p, job, n), '-') == decimal(n),
        id_number(event_id(p, job, n)) == n,
{
    crate::text::lemma_decimal(n);
    let d = decimal(n);
    assert(!d.contains('-')) by {
        assert forall|i: int| 0 <= i < d.len() implies d[i] != '-' by {
            assert(crate::text::is_digit(d[i]));
        }
    }
    assert(event_id(p, job, n) =~= (p + job).push('-') + d);
    lemma_after_last_suffix(p + job, d);
}

/// Equal event ids have equal prefixes, jobs and numbers.
pub proof fn lemma_event_id_injective(
    pa: Seq<char>,
    j1: Seq<char>,
    n1: nat,
    pb: Seq<char>,
    j2: Seq<char>,
    n2: nat,
)
    requires
        is_id_prefix(pa),
        is_id_prefix(pb),
        event_id(pa, j1, n1) == event_id(pb, j2, n2),
    ensures
        pa == pb,
        j1 == j2,
        n1 == n2,
{
    lemma_event_id_parts(pa, j1, n1);
    lemma_event_id_parts(pb, j2, n2);
    crate::text::lemma_decimal(n1);
    crate::text::lemma_decimal(n2);
    let id = event_id(pa, j1, n1);
    let d = decimal(n1);
    assert(pa + j1 =~= id.take(id.len() - d.len() - 1));
    assert(pb + j2 =~= id.take(id.len() - d.len() - 1));
    lemma_prefix_free(pa, j1, pb, j2);
}

/// The event ids of a replay: each emitted event carries its type's prefix,
/// the job and its position, and a held-back start event the prefix `start-`.
pub open spec fn ids_ok(m: TraceModel) -> bool {
    &&& forall|k: int|
        0 <= k < m.events.len() ==> is_commit_type(#[trigger] m.events[k].event_type)
            && m.events[k].id == event_id(commit_prefix(m.events[k].event_type), m.object.id, k as nat)
    &&& (m.start matches Some(s) ==> s.id == event_id("start-"@, m.object.id, id_number(s.id)))
}

proof fn lemma_change_step_ids(m: TraceModel, ch: ChangeModel, t: UtcInstant)
    requires
        ids_ok(m),
    ensures
        ids_ok(change_step(m, ch, t)),
{
    let m2 = change_step(m, ch, t);
    lemma_event_literals();
    match ch {
        ChangeModel::State(s) => {
            lemma_state_event_prefix(s);
            assert forall|k: int| 0 <= k < m2.events.len() implies is_commit_type(#[trigger] m2.events[k].event_type)
                && m2.events[k].id == event_id(commit_prefix(m2.events[k].event_type), m2.object.id, k as nat) by {
                if k < m.events.len() {
                    assert(m2.events[k] == m.events[k]);
                }
            }
        },
        ChangeModel::StartTime(Some(st)) => {
            if !(m.row.state is Pending) && m.start is None {
                lemma_event_id_parts("start-"@, m.object.id, m.events.len());
            }
        },
        _ => {},
    }
}

proof fn lemma_changes_step_ids(m: TraceModel, chs: Seq<ChangeModel>, t: UtcInstant)
    requires
        ids_ok(m),
    ensures
        ids_ok(changes_step(m, chs, t)),
        changes_step(m, chs, t).object.id == m.object.id,
    decreases chs.len(),
{
    if chs.len() > 0 {
        lemma_changes_step_ids(m, chs.drop_last(), t);
        lemma_change_step_ids(changes_step(m, chs.drop_last(), t), chs.last(), t);
        lemma_change_step_keeps_job(changes_step(m, chs.drop_last(), t), chs.last(), t);
    }
}

proof fn lemma_change_step_keeps_job(m: TraceModel, ch: ChangeModel, t: UtcInstant)
    ensures
        change_step(m, ch, t).object.id == m.object.id,
{
}

proof fn lemma_replay_ids(row: RowModel, t0: UtcInstant, deltas: Seq<(UtcInstant, Seq<ChangeModel>)>)
    ensures
        ids_ok(replay(initial_model(row, t0), deltas)),
        replay(initial_model(row, t0), deltas).object.id == row.job_id,
    decreases deltas.len(),
{
    lemma_event_literals();
    if deltas.len() == 0 {
        lemma_event_id_parts("start-"@, row.job_id, 1);
    } else {
        lemma_replay_ids(row, t0, deltas.drop_last());
        let m = replay(initial_model(row, t0), deltas.drop_last());
        let last = deltas.last();
        let m1 = TraceModel {
            row: apply_changes(m.row, last.1),
            last_time: last.0,
            backwards: if last.0.before(m.last_time) {
                m.backwards.push(m.deltas_seen)
            } else {
                m.backwards
            },
            deltas_seen: m.deltas_seen + 1,
            ..m
        };
        lemma_changes_step_ids(m1, last.1, last.0);
    }
}

/// Each event id of a finished replay is an event id of its job, and no two
/// are equal.
pub open spec fn trace_ids_ok(tv: TraceView) -> bool {
    &&& forall|e: int| 0 <= e < tv.events.len() ==> is_job_event_id((#[trigger] tv.events[e]).id, tv.object.id)
    &&& crate::index::distinct(ids_of(tv.events))
}

/// `id` is an event id of the job `job`.
pub open spec fn is_job_event_id(id: Seq<char>, job: Seq<char>) -> bool {
    exists|p: Seq<char>, n: nat| is_id_prefix(p) && id == #[trigger] event_id(p, job, n)
}

/// The ids of the events.
pub open spec fn ids_of(evs: Seq<EventModel>) -> Seq<Seq<char>> {
    evs.map_values(|x: EventModel| x.id)
}

/// The events of a replay carry ids of their job, all different.
pub proof fn lemma_finished_ids(row: RowModel, t0: UtcInstant, deltas: Seq<(UtcInstant, Seq<ChangeModel>)>)
    ensures
        trace_ids_ok(finish(replay(initial_model(row, t0), deltas))),
        finish(replay(initial_model(row, t0), deltas)).object.id == row.job_id,
{
    lemma_replay_ids(row, t0, deltas);
    lemma_event_literals();
    let m = replay(initial_model(row, t0), deltas);
    let tv = finish(m);
    let job = m.object.id;
    assert forall|e: int| 0 <= e < tv.events.len() implies is_job_event_id(
        (#[trigger] tv.events[e]).id,
        tv.object.id,
    ) by {
        if e < m.events.len() {
            assert(tv.events[e] == m.events[e]);
            let ty = m.events[e].event_type;
            assert(is_commit_type(ty));
            lemma_commit_prefix(ty);
            assert(is_id_prefix(commit_prefix(ty)) && tv.events[e].id == event_id(
                commit_prefix(ty),
                tv.object.id,
                e as nat,
            ));
        } else {
            let s = m.start->0;
            assert(tv.events[e] == s);
            assert(is_id_prefix("start-"@) && tv.events[e].id == event_id(
                "start-"@,
                tv.object.id,
                id_number(s.id),
            ));
        }
    }
    let ids = ids_of(tv.events);
    assert forall|a: int, b: int| 0 <= a < b < ids.len() implies ids[a] != ids[b] by {
        if ids[a] == ids[b] {
            assert(ids[a] == tv.events[a].id && ids[b] == tv.events[b].id);
            assert(tv.events[a] == m.events[a]);
            assert(is_commit_type(m.events[a].event_type));
            lemma_commit_prefix(m.events[a].event_type);
            if b < m.events.len() {
                assert(tv.events[b] == m.events[b]);
                assert(is_commit_type(m.events[b].event_type));
                lemma_commit_prefix(m.events[b].event_type);
                lemma_event_id_injective(
                    commit_prefix(m.events[a].event_type),
                    job,
                    a as nat,
                    commit_prefix(m.events[b].event_type),
                    job,
                    b as nat,
                );
            } else {
                let s = m.start->0;
                assert(tv.events[b] == s);
                lemma_event_id_injective(
                    commit_prefix(m.events[a].event_type),
                    job,
                    a as nat,
                    "start-"@,
                    job,
                    id_number(s.id),
                );
            }
        }
    }
}

pub open spec fn delta_views(d: Seq<(UtcInstant, Vec<FieldChange>)>) -> Seq<(UtcInstant, Seq<ChangeModel>)> {
    d.map_values(|x: (UtcInstant, Vec<FieldChange>)| (x.0, change_views(x.1@)))
}

/// Replays a job's archive: its first snapshot `initial`, taken at `t0`,
/// then its deltas with the times they were taken, in file name order.
pub fn synthesize_job(
    initial: SqueueRow,
    t0: UtcInstant,
    deltas: &Vec<(UtcInstant, Vec<FieldChange>)>,
) -> (r: JobTrace)
    ensures
        r@ == finish(replay(initial_model(initial@, t0), delta_views(deltas@))),
{
    let ghost m0 = initial_model(initial@, t0);
    let mut rp = JobReplay::new(initial, t0);
    let mut i: usize = 0;
    while i < deltas.len()
        invariant
            i <= deltas@.len(),
            rp@ == replay(m0, delta_views(deltas@).take(i as int)),
            rp.deltas_seen == i,
        decreases deltas@.len() - i,
    {
        rp.apply_delta(deltas[i].0, &deltas[i].1);
        assert(delta_views(deltas@).take(i + 1).drop_last() =~= delta_views(deltas@).take(i as int));
        i = i + 1;
    }
    assert(delta_views(deltas@).take(deltas@.len() as int) =~= delta_views(deltas@));
    let ghost m = rp@;
    let mut events = rp.events;
    match rp.start {
        Some(e) => {
            events.push(e);
        },
        None => {},
    }
    let r = JobTrace {
        object: rp.object,
        events,
        accounts: rp.accounts,
        groups: rp.groups,
        partitions: rp.partitions,
        hosts: rp.hosts,
        backwards: rp.backwards,
    };
    assert(r@.events =~= finished_events(m));
    r
}

} // verus!
