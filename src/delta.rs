//! Changes between two observations of one job: which diffable fields
//! differ, in a fixed field order, and how to replay them.
use vstd::prelude::*;

use crate::priority::Priority;
use crate::row::{opt_view, RowModel, SqueueRow};
use crate::state::{JobState, StateModel};
use crate::time::SlurmTime;

verus! {

/// The number of diffable fields: every field of a row but `time_left` and
/// `time`, which change on every poll.
pub const DIFFABLE_FIELDS: usize = 23;

/// A new value of one diffable field of a `SqueueRow`.
#[derive(Debug)]
pub enum FieldChange {
    Account(String),
    JobId(String),
    ExecHost(Option<String>),
    MinCpus(usize),
    Cpus(usize),
    Nodes(usize),
    EndTime(Option<SlurmTime>),
    Dependency(Option<String>),
    Features(String),
    ArrayJobId(String),
    Group(String),
    StepJobId((String, Option<String>)),
    TimeLimit(Option<u64>),
    Name(String),
    MinMemory(String),
    Priority(Priority),
    Partition(String),
    State(JobState),
    Reason(String),
    StartTime(Option<SlurmTime>),
    SubmitTime(SlurmTime),
    WorkDir(String),
    Command(String),
}

/// What a `FieldChange` stands for.
pub enum ChangeModel {
    Account(Seq<char>),
    JobId(Seq<char>),
    ExecHost(Option<Seq<char>>),
    MinCpus(usize),
    Cpus(usize),
    Nodes(usize),
    EndTime(Option<SlurmTime>),
    Dependency(Option<Seq<char>>),
    Features(Seq<char>),
    ArrayJobId(Seq<char>),
    Group(Seq<char>),
    StepJobId((Seq<char>, Option<Seq<char>>)),
    TimeLimit(Option<u64>),
    Name(Seq<char>),
    MinMemory(Seq<char>),
    Priority(Priority),
    Partition(Seq<char>),
    State(StateModel),
    Reason(Seq<char>),
    StartTime(Option<SlurmTime>),
    SubmitTime(SlurmTime),
    WorkDir(Seq<char>),
    Command(Seq<char>),
}

impl View for FieldChange {
    type V = ChangeModel;

    open spec fn view(&self) -> ChangeModel {
        match self {
            FieldChange::Account(v) => ChangeModel::Account((*v)@),
            FieldChange::JobId(v) => ChangeModel::JobId((*v)@),
            FieldChange::ExecHost(v) => ChangeModel::ExecHost(opt_view((*v))),
            FieldChange::MinCpus(v) => ChangeModel::MinCpus((*v)),
            FieldChange::Cpus(v) => ChangeModel::Cpus((*v)),
            FieldChange::Nodes(v) => ChangeModel::Nodes((*v)),
            FieldChange::EndTime(v) => ChangeModel::EndTime((*v)),
            FieldChange::Dependency(v) => ChangeModel::Dependency(opt_view((*v))),
            FieldChange::Features(v) => ChangeModel::Features((*v)@),
            FieldChange::ArrayJobId(v) => ChangeModel::ArrayJobId((*v)@),
            FieldChange::Group(v) => ChangeModel::Group((*v)@),
            FieldChange::StepJobId(v) => ChangeModel::StepJobId(((*v).0@, opt_view((*v).1))),
            FieldChange::TimeLimit(v) => ChangeModel::TimeLimit((*v)),
            FieldChange::Name(v) => ChangeModel::Name((*v)@),
            FieldChange::MinMemory(v) => ChangeModel::MinMemory((*v)@),
            FieldChange::Priority(v) => ChangeModel::Priority((*v)),
            FieldChange::Partition(v) => ChangeModel::Partition((*v)@),
            FieldChange::State(v) => ChangeModel::State((*v)@),
            FieldChange::Reason(v) => ChangeModel::Reason((*v)@),
            FieldChange::StartTime(v) => ChangeModel::StartTime((*v)),
            FieldChange::SubmitTime(v) => ChangeModel::SubmitTime((*v)),
            FieldChange::WorkDir(v) => ChangeModel::WorkDir((*v)@),
            FieldChange::Command(v) => ChangeModel::Command((*v)@),
        }
    }
}

/// The times that a change carries are real dates and times.
pub open spec fn change_times_valid(ch: ChangeModel) -> bool {
    match ch {
        ChangeModel::EndTime(Some(t)) => t.valid(),
        ChangeModel::StartTime(Some(t)) => t.valid(),
        ChangeModel::SubmitTime(t) => t.valid(),
        _ => true,
    }
}

/// The views of a sequence of changes.
pub open spec fn change_views(v: Seq<FieldChange>) -> Seq<ChangeModel> {
    v.map_values(|c: FieldChange| c@)
}

/// Field `i` of the diffable fields, in declaration order, is the same in
/// `a` and `b`.
pub open spec fn field_eq(a: RowModel, b: RowModel, i: nat) -> bool {
    if i == 0 {
        a.account == b.account
    } else if i == 1 {
        a.job_id == b.job_id
    } else if i == 2 {
        a.exec_host == b.exec_host
    } else if i == 3 {
        a.min_cpus == b.min_cpus
    } else if i == 4 {
        a.cpus == b.cpus
    } else if i == 5 {
        a.nodes == b.nodes
    } else if i == 6 {
        a.end_time == b.end_time
    } else if i == 7 {
        a.dependency == b.dependency
    } else if i == 8 {
        a.features == b.features
    } else if i == 9 {
        a.array_job_id == b.array_job_id
    } else if i == 10 {
        a.group == b.group
    } else if i == 11 {
        a.step_job_id == b.step_job_id
    } else if i == 12 {
        a.time_limit == b.time_limit
    } else if i == 13 {
        a.name == b.name
    } else if i == 14 {
        a.min_memory == b.min_memory
    } else if i == 15 {
        a.priority == b.priority
    } else if i == 16 {
        a.partition == b.partition
    } else if i == 17 {
        a.state == b.state
    } else if i == 18 {
        a.reason == b.reason
    } else if i == 19 {
        a.start_time == b.start_time
    } else if i == 20 {
        a.submit_time == b.submit_time
    } else if i == 21 {
        a.work_dir == b.work_dir
    } else {
        a.command == b.command
    }
}

/// `a` and `b` agree on every diffable field.
pub open spec fn same_diffable(a: RowModel, b: RowModel) -> bool {
    forall|i: nat| i < DIFFABLE_FIELDS ==> #[trigger] field_eq(a, b, i)
}

/// The change that sets diffable field `i` to its value in `c`.
pub open spec fn change_of(c: RowModel, i: nat) -> ChangeModel {
    if i == 0 {
        ChangeModel::Account(c.account)
    } else if i == 1 {
        ChangeModel::JobId(c.job_id)
    } else if i == 2 {
        ChangeModel::ExecHost(c.exec_host)
    } else if i == 3 {
        ChangeModel::MinCpus(c.min_cpus)
    } else if i == 4 {
        ChangeModel::Cpus(c.cpus)
    } else if i == 5 {
        ChangeModel::Nodes(c.nodes)
    } else if i == 6 {
        ChangeModel::EndTime(c.end_time)
    } else if i == 7 {
        ChangeModel::Dependency(c.dependency)
    } else if i == 8 {
        ChangeModel::Features(c.features)
    } else if i == 9 {
        ChangeModel::ArrayJobId(c.array_job_id)
    } else if i == 10 {
        ChangeModel::Group(c.group)
    } else if i == 11 {
        ChangeModel::StepJobId(c.step_job_id)
    } else if i == 12 {
        ChangeModel::TimeLimit(c.time_limit)
    } else if i == 13 {
        ChangeModel::Name(c.name)
    } else if i == 14 {
        ChangeModel::MinMemory(c.min_memory)
    } else if i == 15 {
        ChangeModel::Priority(c.priority)
    } else if i == 16 {
        ChangeModel::Partition(c.partition)
    } else if i == 17 {
        ChangeModel::State(c.state)
    } else if i == 18 {
        ChangeModel::Reason(c.reason)
    } else if i == 19 {
        ChangeModel::StartTime(c.start_time)
    } else if i == 20 {
        ChangeModel::SubmitTime(c.submit_time)
    } else if i == 21 {
        ChangeModel::WorkDir(c.work_dir)
    } else {
        ChangeModel::Command(c.command)
    }
}

/// `m` with the one field that `ch` names set to the value it carries.
pub open spec fn apply_change(m: RowModel, ch: ChangeModel) -> RowModel {
    match ch {
        ChangeModel::Account(v) => RowModel { account: v, ..m },
        ChangeModel::JobId(v) => RowModel { job_id: v, ..m },
        ChangeModel::ExecHost(v) => RowModel { exec_host: v, ..m },
        ChangeModel::MinCpus(v) => RowModel { min_cpus: v, ..m },
        ChangeModel::Cpus(v) => RowModel { cpus: v, ..m },
        ChangeModel::Nodes(v) => RowModel { nodes: v, ..m },
        ChangeModel::EndTime(v) => RowModel { end_time: v, ..m },
        ChangeModel::Dependency(v) => RowModel { dependency: v, ..m },
        ChangeModel::Features(v) => RowModel { features: v, ..m },
        ChangeModel::ArrayJobId(v) => RowModel { array_job_id: v, ..m },
        ChangeModel::Group(v) => RowModel { group: v, ..m },
        ChangeModel::StepJobId(v) => RowModel { step_job_id: v, ..m },
        ChangeModel::TimeLimit(v) => RowModel { time_limit: v, ..m },
        ChangeModel::Name(v) => RowModel { name: v, ..m },
        ChangeModel::MinMemory(v) => RowModel { min_memory: v, ..m },
        ChangeModel::Priority(v) => RowModel { priority: v, ..m },
        ChangeModel::Partition(v) => RowModel { partition: v, ..m },
        ChangeModel::State(v) => RowModel { state: v, ..m },
        ChangeModel::Reason(v) => RowModel { reason: v, ..m },
        ChangeModel::StartTime(v) => RowModel { start_time: v, ..m },
        ChangeModel::SubmitTime(v) => RowModel { submit_time: v, ..m },
        ChangeModel::WorkDir(v) => RowModel { work_dir: v, ..m },
        ChangeModel::Command(v) => RowModel { command: v, ..m },
    }
}

/// `m` with the changes applied in order.
pub open spec fn apply_changes(m: RowModel, chs: Seq<ChangeModel>) -> RowModel
    decreases chs.len(),
{
    if chs.len() == 0 {
        m
    } else {
        apply_change(apply_changes(m, chs.drop_last()), chs.last())
    }
}

/// The changes from `p` to `c` among the first `k` diffable fields, in field
/// order.
pub open spec fn diff_upto(p: RowModel, c: RowModel, k: nat) -> Seq<ChangeModel>
    decreases k,
{
    if k == 0 {
        Seq::empty()
    } else {
        let before = diff_upto(p, c, (k - 1) as nat);
        if field_eq(p, c, (k - 1) as nat) {
            before
        } else {
            before.push(change_of(c, (k - 1) as nat))
        }
    }
}

/// The changes from `p` to `c`: one for each diffable field that differs,
/// in field order.
pub open spec fn diff_model(p: RowModel, c: RowModel) -> Seq<ChangeModel> {
    diff_upto(p, c, DIFFABLE_FIELDS as nat)
}

/// Applying the change of field `i` sets that field to its value in `c` and
/// keeps every other field.
proof fn lemma_apply_change_of(m: RowModel, c: RowModel, i: nat)
    requires
        i < DIFFABLE_FIELDS,
    ensures
        field_eq(apply_change(m, change_of(c, i)), c, i),
        forall|j: nat| j < DIFFABLE_FIELDS && j != i ==> field_eq(apply_change(m, change_of(c, i)), m, j),
        apply_change(m, change_of(c, i)).time == m.time,
        apply_change(m, change_of(c, i)).time_left == m.time_left,
{
}

proof fn lemma_diff_upto(p: RowModel, c: RowModel, k: nat)
    requires
        k <= DIFFABLE_FIELDS,
    ensures
        forall|j: nat| j < k ==> field_eq(apply_changes(p, diff_upto(p, c, k)), c, j),
        forall|j: nat| k <= j < DIFFABLE_FIELDS ==> field_eq(apply_changes(p, diff_upto(p, c, k)), p, j),
        apply_changes(p, diff_upto(p, c, k)).time == p.time,
        apply_changes(p, diff_upto(p, c, k)).time_left == p.time_left,
    decreases k,
{
    if k > 0 {
        let i = (k - 1) as nat;
        lemma_diff_upto(p, c, i);
        let a = apply_changes(p, diff_upto(p, c, i));
        if field_eq(p, c, i) {
            assert(diff_upto(p, c, k) == diff_upto(p, c, i));
            assert forall|j: nat| j < k implies field_eq(a, c, j) by {
                if j == i {
                    lemma_field_eq_trans(a, p, c, i);
                }
            }
        } else {
            let d = diff_upto(p, c, i).push(change_of(c, i));
            assert(diff_upto(p, c, k) == d);
            assert(d.drop_last() == diff_upto(p, c, i));
            let b = apply_change(a, change_of(c, i));
            assert(apply_changes(p, d) == b);
            lemma_apply_change_of(a, c, i);
            assert forall|j: nat| j < k implies field_eq(b, c, j) by {
                if j != i {
                    lemma_field_eq_trans(b, a, c, j);
                }
            }
            assert forall|j: nat| k <= j < DIFFABLE_FIELDS implies field_eq(b, p, j) by {
                lemma_field_eq_trans(b, a, p, j);
            }
        }
    }
}

proof fn lemma_field_eq_trans(a: RowModel, b: RowModel, c: RowModel, i: nat)
    requires
        field_eq(a, b, i),
        field_eq(b, c, i),
    ensures
        field_eq(a, c, i),
{
}

/// Replaying the changes from `p` to `c` on `p` gives `c` on every diffable
/// field.
pub proof fn lemma_delta_sound(p: RowModel, c: RowModel)
    ensures
        same_diffable(apply_changes(p, diff_model(p, c)), c),
{
    lemma_diff_upto(p, c, DIFFABLE_FIELDS as nat);
}

proof fn lemma_diff_upto_empty(p: RowModel, c: RowModel, k: nat)
    requires
        k <= DIFFABLE_FIELDS,
        same_diffable(p, c),
    ensures
        diff_upto(p, c, k) == Seq::<ChangeModel>::empty(),
    decreases k,
{
    if k > 0 {
        lemma_diff_upto_empty(p, c, (k - 1) as nat);
        assert(field_eq(p, c, (k - 1) as nat));
    }
}

/// Two observations that agree on every diffable field have no changes
/// between them.
pub proof fn lemma_delta_empty(p: RowModel, c: RowModel)
    requires
        same_diffable(p, c),
    ensures
        diff_model(p, c).len() == 0,
{
    lemma_diff_upto_empty(p, c, DIFFABLE_FIELDS as nat);
}

/// Observations that differ in `time` and `time_left` alone have no changes
/// between them.
pub proof fn lemma_volatile_only(p: RowModel, c: RowModel)
    requires
        c == (RowModel { time: c.time, time_left: c.time_left, ..p }),
    ensures
        diff_model(p, c).len() == 0,
{
    assert forall|i: nat| i < DIFFABLE_FIELDS implies #[trigger] field_eq(p, c, i) by {}
    lemma_delta_empty(p, c);
}

fn same_opt_string(a: &Option<String>, b: &Option<String>) -> (r: bool)
    ensures
        r == (opt_view(*a) == opt_view(*b)),
{
    match (a, b) {
        (Some(x), Some(y)) => *x == *y,
        (None, None) => true,
        _ => false,
    }
}

fn same_opt_time(a: &Option<SlurmTime>, b: &Option<SlurmTime>) -> (r: bool)
    ensures
        r == (*a == *b),
{
    match (a, b) {
        (Some(x), Some(y)) => *x == *y,
        (None, None) => true,
        _ => false,
    }
}

fn same_opt_u64(a: &Option<u64>, b: &Option<u64>) -> (r: bool)
    ensures
        r == (*a == *b),
{
    match (a, b) {
        (Some(x), Some(y)) => *x == *y,
        (None, None) => true,
        _ => false,
    }
}

fn same_step(a: &(String, Option<String>), b: &(String, Option<String>)) -> (r: bool)
    ensures
        r == ((a.0@, opt_view(a.1)) == (b.0@, opt_view(b.1))),
{
    a.0 == b.0 && same_opt_string(&a.1, &b.1)
}

pub(crate) fn clone_opt_string(a: &Option<String>) -> (r: Option<String>)
    ensures
        opt_view(r) == opt_view(*a),
{
    match a {
        Some(x) => Some(x.clone()),
        None => None,
    }
}

fn clone_step(a: &(String, Option<String>)) -> (r: (String, Option<String>))
    ensures
        (r.0@, opt_view(r.1)) == (a.0@, opt_view(a.1)),
{
    (a.0.clone(), clone_opt_string(&a.1))
}

fn record(
    r: &mut Vec<FieldChange>,
    ch: Option<FieldChange>,
    Ghost(p): Ghost<RowModel>,
    Ghost(c): Ghost<RowModel>,
    Ghost(i): Ghost<nat>,
)
    requires
        change_views(old(r)@) == diff_upto(p, c, i),
        ch matches Some(x) ==> !field_eq(p, c, i) && x@ == change_of(c, i),
        ch is None ==> field_eq(p, c, i),
    ensures
        change_views(final(r)@) == diff_upto(p, c, i + 1),
{
    let ghost before = r@;
    match ch {
        Some(x) => {
            r.push(x);
            assert(change_views(r@) =~= change_views(before).push(change_of(c, i)));
        },
        None => {},
    }
}

impl SqueueRow {
    /// The changes from `self` to `other`: one for each diffable field whose
    /// value differs, carrying the value in `other`, in field order.
    pub fn diff(&self, other: &SqueueRow) -> (r: Vec<FieldChange>)
        ensures
            change_views(r@) == diff_model(self@, other@),
    {
        let mut r: Vec<FieldChange> = Vec::new();
        let ghost p = self@;
        let ghost c = other@;
        assert(change_views(r@) =~= diff_upto(p, c, 0));
        let ch = if self.account == other.account {
            None
        } else {
            Some(FieldChange::Account(other.account.clone()))
        };
        record(&mut r, ch, Ghost(p), Ghost(c), Ghost(0));
        let ch = if self.job_id == other.job_id {
            None
        } else {
            Some(FieldChange::JobId(other.job_id.clone()))
        };
        record(&mut r, ch, Ghost(p), Ghost(c), Ghost(1));
        let ch = if same_opt_string(&self.exec_host, &other.exec_host) {
            None
        } else {
            Some(FieldChange::ExecHost(clone_opt_string(&other.exec_host)))
        };
        record(&mut r, ch, Ghost(p), Ghost(c), Ghost(2));
        let ch = if self.min_cpus == other.min_cpus {
            None
        } else {
            Some(FieldChange::MinCpus(other.min_cpus))
        };
        record(&mut r, ch, Ghost(p), Ghost(c), Ghost(3));
        let ch = if self.cpus == other.cpus {
            None
        } else {
            Some(FieldChange::Cpus(other.cpus))
        };
        record(&mut r, ch, Ghost(p), Ghost(c), Ghost(4));
        let ch = if self.nodes == other.nodes {
            None
        } else {
            Some(FieldChange::Nodes(other.nodes))
        };
        record(&mut r, ch, Ghost(p), Ghost(c), Ghost(5));
        let ch = if same_opt_time(&self.end_time, &other.end_time) {
            None
        } else {
            Some(FieldChange::EndTime(other.end_time))
        };
        record(&mut r, ch, Ghost(p), Ghost(c), Ghost(6));
        let ch = if same_opt_string(&self.dependency, &other.dependency) {
            None
        } else {
            Some(FieldChange::Dependency(clone_opt_string(&other.dependency)))
        };
        record(&mut r, ch, Ghost(p), Ghost(c), Ghost(7));
        let ch = if self.features == other.features {
            None
        } else {
            Some(FieldChange::Features(other.features.clone()))
        };
        record(&mut r, ch, Ghost(p), Ghost(c), Ghost(8));
        let ch = if self.array_job_id == other.array_job_id {
            None
        } else {
            Some(FieldChange::ArrayJobId(other.array_job_id.clone()))
        };
        record(&mut r, ch, Ghost(p), Ghost(c), Ghost(9));
        let ch = if self.group == other.group {
            None
        } else {
            Some(FieldChange::Group(other.group.clone()))
        };
        record(&mut r, ch, Ghost(p), Ghost(c), Ghost(10));
        let ch = if same_step(&self.step_job_id, &other.step_job_id) {
            None
        } else {
            Some(FieldChange::StepJobId(clone_step(&other.step_job_id)))
        };
        record(&mut r, ch, Ghost(p), Ghost(c), Ghost(11));
        let ch = if same_opt_u64(&self.time_limit, &other.time_limit) {
            None
        } else {
            Some(FieldChange::TimeLimit(other.time_limit))
        };
        record(&mut r, ch, Ghost(p), Ghost(c), Ghost(12));
        let ch = if self.name == other.name {
            None
        } else {
            Some(FieldChange::Name(other.name.clone()))
        };
        record(&mut r, ch, Ghost(p), Ghost(c), Ghost(13));
        let ch = if self.min_memory == other.min_memory {
            None
        } else {
            Some(FieldChange::MinMemory(other.min_memory.clone()))
        };
        record(&mut r, ch, Ghost(p), Ghost(c), Ghost(14));
        let ch = if self.priority == other.priority {
            None
        } else {
            Some(FieldChange::Priority(other.priority))
        };
        record(&mut r, ch, Ghost(p), Ghost(c), Ghost(15));
        let ch = if self.partition == other.partition {
            None
        } else {
            Some(FieldChange::Partition(other.partition.clone()))
        };
        record(&mut r, ch, Ghost(p), Ghost(c), Ghost(16));
        let ch = if self.state.same_as(&other.state) {
            None
        } else {
            Some(FieldChange::State(other.state.duplicate()))
        };
        record(&mut r, ch, Ghost(p), Ghost(c), Ghost(17));
        let ch = if self.reason == other.reason {
            None
        } else {
            Some(FieldChange::Reason(other.reason.clone()))
        };
        record(&mut r, ch, Ghost(p), Ghost(c), Ghost(18));
        let ch = if same_opt_time(&self.start_time, &other.start_time) {
            None
        } else {
            Some(FieldChange::StartTime(other.start_time))
        };
        record(&mut r, ch, Ghost(p), Ghost(c), Ghost(19));
        let ch = if self.submit_time == other.submit_time {
            None
        } else {
            Some(FieldChange::SubmitTime(other.submit_time))
        };
        record(&mut r, ch, Ghost(p), Ghost(c), Ghost(20));
        let ch = if self.work_dir == other.work_dir {
            None
        } else {
            Some(FieldChange::WorkDir(other.work_dir.clone()))
        };
        record(&mut r, ch, Ghost(p), Ghost(c), Ghost(21));
        let ch = if self.command == other.command {
            None
        } else {
            Some(FieldChange::Command(other.command.clone()))
        };
        record(&mut r, ch, Ghost(p), Ghost(c), Ghost(22));
        r
    }

    /// Sets the one field that `ch` names to the value it carries.
    pub fn apply_change(&mut self, ch: &FieldChange)
        ensures
            final(self)@ == apply_change(old(self)@, ch@),
    {
        match ch {
            FieldChange::Account(v) => {
                self.account = v.clone();
            },
            FieldChange::JobId(v) => {
                self.job_id = v.clone();
            },
            FieldChange::ExecHost(v) => {
                self.exec_host = clone_opt_string(v);
            },
            FieldChange::MinCpus(v) => {
                self.min_cpus = *v;
            },
            FieldChange::Cpus(v) => {
                self.cpus = *v;
            },
            FieldChange::Nodes(v) => {
                self.nodes = *v;
            },
            FieldChange::EndTime(v) => {
                self.end_time = *v;
            },
            FieldChange::Dependency(v) => {
                self.dependency = clone_opt_string(v);
            },
            FieldChange::Features(v) => {
                self.features = v.clone();
            },
            FieldChange::ArrayJobId(v) => {
                self.array_job_id = v.clone();
            },
            FieldChange::Group(v) => {
                self.group = v.clone();
            },
            FieldChange::StepJobId(v) => {
                self.step_job_id = clone_step(v);
            },
            FieldChange::TimeLimit(v) => {
                self.time_limit = *v;
            },
            FieldChange::Name(v) => {
                self.name = v.clone();
            },
            FieldChange::MinMemory(v) => {
                self.min_memory = v.clone();
            },
            FieldChange::Priority(v) => {
                self.priority = *v;
            },
            FieldChange::Partition(v) => {
                self.partition = v.clone();
            },
            FieldChange::State(v) => {
                self.state = v.duplicate();
            },
            FieldChange::Reason(v) => {
                self.reason = v.clone();
            },
            FieldChange::StartTime(v) => {
                self.start_time = *v;
            },
            FieldChange::SubmitTime(v) => {
                self.submit_time = *v;
            },
            FieldChange::WorkDir(v) => {
                self.work_dir = v.clone();
            },
            FieldChange::Command(v) => {
                self.command = v.clone();
            },
        }
    }

    /// Applies the changes in order.
    pub fn apply_mut(&mut self, changes: &Vec<FieldChange>)
        ensures
            final(self)@ == apply_changes(old(self)@, change_views(changes@)),
    {
        let mut i: usize = 0;
        while i < changes.len()
            invariant
                i <= changes@.len(),
                self@ == apply_changes(old(self)@, change_views(changes@).take(i as int)),
            decreases changes@.len() - i,
        {
            self.apply_change(&changes[i]);
            assert(change_views(changes@).take(i + 1).drop_last() =~= change_views(changes@).take(i as int));
            i = i + 1;
        }
        assert(change_views(changes@).take(changes@.len() as int) =~= change_views(changes@));
    }
}

} // verus!
