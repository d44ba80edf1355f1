//! The poller's side of the archive: the `squeue` command, the reading of
//! its output, and what one round writes given the jobs remembered from the
//! round before.
use vstd::prelude::*;

use crate::assemble::dedup;
use crate::delta::{change_views, diff_model, ChangeModel, FieldChange};
use crate::index::StringIndex;
use crate::row::{row_of, RowError, RowModel, SqueueRow, SQUEUE_FORMAT_STR};
use crate::text::{
    chars_of, concat, join_on, join_strings, owned, push_str_of, split_chars, split_on, views,
};

verus! {

/// Which jobs `squeue` lists.
#[allow(non_camel_case_types)]
#[derive(Debug)]
pub enum SqueueMode {
    /// All jobs.
    ALL,
    /// The jobs of the user running the command.
    MINE,
    /// The jobs with these ids.
    JOBIDS(Vec<String>),
}

pub enum ModeModel {
    All,
    Mine,
    JobIds(Seq<Seq<char>>),
}

impl View for SqueueMode {
    type V = ModeModel;

    open spec fn view(&self) -> ModeModel {
        match self {
            SqueueMode::ALL => ModeModel::All,
            SqueueMode::MINE => ModeModel::Mine,
            SqueueMode::JOBIDS(ids) => ModeModel::JobIds(views(ids@)),
        }
    }
}

/// The filter argument of a mode: none, `--me`, or `-j` with the ids.
pub open spec fn mode_argument(m: ModeModel) -> Seq<char> {
    match m {
        ModeModel::All => Seq::empty(),
        ModeModel::Mine => "--me"@,
        ModeModel::JobIds(ids) => "-j "@ + join_on(ids, ','),
    }
}

/// The command that lists the jobs of a mode.
pub open spec fn command_text(m: ModeModel) -> Seq<char> {
    "squeue -h -a -M all -t all --format='"@ + SQUEUE_FORMAT_STR@ + "' "@ + mode_argument(m)
}

/// The `squeue` command for `mode`.
pub fn squeue_command(mode: &SqueueMode) -> (r: String)
    ensures
        r@ == command_text(mode@),
{
    let mut r = owned("squeue -h -a -M all -t all --format='");
    push_str_of(&mut r, &owned(SQUEUE_FORMAT_STR));
    push_str_of(&mut r, &owned("' "));
    match mode {
        SqueueMode::ALL => {
            assert(r@ =~= command_text(mode@));
        },
        SqueueMode::MINE => {
            push_str_of(&mut r, &owned("--me"));
        },
        SqueueMode::JOBIDS(ids) => {
            let arg = concat("-j ", &join_strings(ids, ','));
            push_str_of(&mut r, &arg);
            assert(r@ =~= command_text(mode@));
        },
    }
    r
}

/// The jobs that the non-empty lines describe, skipping lines that cannot be
/// read.
pub open spec fn rows_of_lines(lines: Seq<Seq<char>>) -> Seq<RowModel>
    decreases lines.len(),
{
    if lines.len() == 0 {
        Seq::empty()
    } else {
        let before = rows_of_lines(lines.drop_last());
        let l = lines.last();
        if l.len() == 0 {
            before
        } else {
            match row_of(split_on(l, '|')) {
                Ok(r) => before.push(r),
                Err(_) => before,
            }
        }
    }
}

/// The non-empty lines that cannot be read, each with the reason.
pub open spec fn bad_lines(lines: Seq<Seq<char>>) -> Seq<(Seq<char>, RowError)>
    decreases lines.len(),
{
    if lines.len() == 0 {
        Seq::empty()
    } else {
        let before = bad_lines(lines.drop_last());
        let l = lines.last();
        if l.len() == 0 {
            before
        } else {
            match row_of(split_on(l, '|')) {
                Ok(_) => before,
                Err(e) => before.push((l, e)),
            }
        }
    }
}

pub open spec fn row_views(v: Seq<SqueueRow>) -> Seq<RowModel> {
    v.map_values(|r: SqueueRow| r@)
}

pub open spec fn bad_views(v: Seq<(String, RowError)>) -> Seq<(Seq<char>, RowError)> {
    v.map_values(|x: (String, RowError)| (x.0@, x.1))
}

/// Reads the output of `squeue`: one job per non-empty line. A line that
/// cannot be read is set aside with the reason and does not stop the rest.
pub fn parse_squeue_output(out: &str) -> (r: (Vec<SqueueRow>, Vec<(String, RowError)>))
    ensures
        row_views(r.0@) == rows_of_lines(split_on(out@, '\n')),
        bad_views(r.1@) == bad_lines(split_on(out@, '\n')),
{
    let cs = chars_of(out);
    let lines = split_chars(&cs, '\n');
    let ghost ls = views(lines@);
    let mut rows: Vec<SqueueRow> = Vec::new();
    let mut bad: Vec<(String, RowError)> = Vec::new();
    let mut i: usize = 0;
    assert(ls.take(0) =~= Seq::<Seq<char>>::empty());
    assert(row_views(rows@) =~= Seq::<RowModel>::empty());
    assert(bad_views(bad@) =~= Seq::<(Seq<char>, RowError)>::empty());
    while i < lines.len()
        invariant
            i <= lines@.len(),
            ls == views(lines@),
            row_views(rows@) == rows_of_lines(ls.take(i as int)),
            bad_views(bad@) == bad_lines(ls.take(i as int)),
        decreases lines@.len() - i,
    {
        let ghost before_rows = row_views(rows@);
        let ghost before_bad = bad_views(bad@);
        assert(ls.take(i + 1).drop_last() =~= ls.take(i as int));
        assert(ls.take(i + 1).last() == lines@[i as int]@);
        let line = &lines[i];
        if !line.as_str().is_empty() {
            match SqueueRow::parse_line(line.as_str()) {
                Ok(row) => {
                    rows.push(row);
                    assert(row_views(rows@) =~= before_rows.push(rows@.last()@));
                },
                Err(e) => {
                    bad.push((line.clone(), e));
                    assert(bad_views(bad@) =~= before_bad.push((line@, e)));
                },
            }
        }
        i = i + 1;
    }
    assert(ls.take(lines@.len() as int) =~= ls);
    (rows, bad)
}

/// One file that a round writes.
#[derive(Debug)]
pub enum ArchiveWrite {
    /// The first snapshot of a job: the file `file_name` in the job's
    /// directory `job_id`, holding the whole record.
    NewJob { job_id: String, file_name: String, record: SqueueRow },
    /// The changes of a job since the round before: the file `file_name` in
    /// the job's directory `job_id`.
    Delta { job_id: String, file_name: String, changes: Vec<FieldChange> },
}

pub enum WriteModel {
    NewJob { job_id: Seq<char>, file_name: Seq<char>, record: RowModel },
    Delta { job_id: Seq<char>, file_name: Seq<char>, changes: Seq<ChangeModel> },
}

impl View for ArchiveWrite {
    type V = WriteModel;

    open spec fn view(&self) -> WriteModel {
        match self {
            ArchiveWrite::NewJob { job_id, file_name, record } => WriteModel::NewJob {
                job_id: job_id@,
                file_name: file_name@,
                record: record@,
            },
            ArchiveWrite::Delta { job_id, file_name, changes } => WriteModel::Delta {
                job_id: job_id@,
                file_name: file_name@,
                changes: change_views(changes@),
            },
        }
    }
}

/// The remembered record of the job `id`.
pub open spec fn known_row(known: Seq<RowModel>, id: Seq<char>) -> Option<RowModel>
    decreases known.len(),
{
    if known.len() == 0 {
        None
    } else if known.last().job_id == id {
        Some(known.last())
    } else {
        known_row(known.drop_last(), id)
    }
}

/// What a round taken at `stamp` writes for the row `r`: its first snapshot
/// where the job is not remembered, its changes where it is and something
/// changed, and nothing where nothing did.
pub open spec fn write_for(known: Seq<RowModel>, r: RowModel, stamp: Seq<char>) -> Seq<WriteModel> {
    match known_row(known, r.job_id) {
        Some(p) => if diff_model(p, r).len() > 0 {
            seq![
                WriteModel::Delta {
                    job_id: r.job_id,
                    file_name: "DELTA-"@ + stamp + ".json"@,
                    changes: diff_model(p, r),
                },
            ]
        } else {
            Seq::empty()
        },
        None => seq![
            WriteModel::NewJob { job_id: r.job_id, file_name: stamp + ".json"@, record: r },
        ],
    }
}

/// A remembered job whose new row agrees with the remembered one on every
/// diffable field gets no file in the round: no delta is written.
pub proof fn lemma_unchanged_job_writes_nothing(known: Seq<RowModel>, r: RowModel, stamp: Seq<char>)
    requires
        known_row(known, r.job_id) matches Some(p) && crate::delta::same_diffable(p, r),
    ensures
        write_for(known, r, stamp).len() == 0,
{
    crate::delta::lemma_delta_empty(known_row(known, r.job_id)->0, r);
}

/// What a round writes for all its rows, in order.
pub open spec fn round_writes(known: Seq<RowModel>, rows: Seq<RowModel>, stamp: Seq<char>) -> Seq<
    WriteModel,
>
    decreases rows.len(),
{
    if rows.len() == 0 {
        Seq::empty()
    } else {
        round_writes(known, rows.drop_last(), stamp) + write_for(known, rows.last(), stamp)
    }
}

/// The jobs that were not remembered but had been seen in an earlier round.
pub open spec fn reappeared(known: Seq<RowModel>, all_ids: Seq<Seq<char>>, rows: Seq<RowModel>) -> Seq<
    Seq<char>,
>
    decreases rows.len(),
{
    if rows.len() == 0 {
        Seq::empty()
    } else {
        let r = rows.last();
        reappeared(known, all_ids, rows.drop_last()) + if known_row(known, r.job_id) is None
            && all_ids.contains(r.job_id) {
            seq![r.job_id]
        } else {
            Seq::empty()
        }
    }
}

/// The records remembered after a round: each job of the round, by its last
/// row.
pub open spec fn remembered(rows: Seq<RowModel>) -> Seq<RowModel>
    decreases rows.len(),
{
    if rows.len() == 0 {
        Seq::empty()
    } else {
        let before = remembered(rows.drop_last());
        let r = rows.last();
        let k = job_position(before, r.job_id);
        if k >= 0 {
            before.update(k, r)
        } else {
            before.push(r)
        }
    }
}

/// Where the job `id` stands among `rows`, or -1.
pub open spec fn job_position(rows: Seq<RowModel>, id: Seq<char>) -> int
    decreases rows.len(),
{
    if rows.len() == 0 {
        -1
    } else if rows.last().job_id == id {
        rows.len() - 1
    } else {
        job_position(rows.drop_last(), id)
    }
}

pub open spec fn job_ids(rows: Seq<RowModel>) -> Seq<Seq<char>> {
    rows.map_values(|r: RowModel| r.job_id)
}

/// What the poller remembers between rounds: the records of the last round,
/// one per job, and every job id seen so far.
pub struct PollState {
    known: Vec<SqueueRow>,
    known_ids: StringIndex,
    all_ids: StringIndex,
}

impl PollState {
    pub closed spec fn known_view(&self) -> Seq<RowModel> {
        row_views(self.known@)
    }

    pub closed spec fn all_ids_view(&self) -> Seq<Seq<char>> {
        self.all_ids@
    }

    pub closed spec fn wf(&self) -> bool {
        &&& self.known_ids.wf()
        &&& self.all_ids.wf()
        &&& self.known_ids@ == job_ids(row_views(self.known@))
    }

    /// Nothing remembered yet.
    pub fn new() -> (r: PollState)
        ensures
            r.wf(),
            r.known_view() == Seq::<RowModel>::empty(),
            r.all_ids_view() == Seq::<Seq<char>>::empty(),
    {
        let r = PollState {
            known: Vec::new(),
            known_ids: StringIndex::new(),
            all_ids: StringIndex::new(),
        };
        assert(row_views(r.known@) =~= Seq::<RowModel>::empty());
        assert(job_ids(row_views(r.known@)) =~= Seq::<Seq<char>>::empty());
        r
    }
}

/// What one round writes, and what it noticed.
#[derive(Debug)]
pub struct RoundPlan {
    /// The file at the archive's root that lists the round's job ids.
    pub id_file: String,
    /// The round's job ids, each once.
    pub ids: Vec<String>,
    /// The files of the round's jobs, in the order of the rows.
    pub writes: Vec<ArchiveWrite>,
    /// Jobs that were not remembered but had been seen in an earlier round.
    pub reappeared: Vec<String>,
}

proof fn lemma_job_position(rows: Seq<RowModel>, id: Seq<char>)
    ensures
        -1 <= job_position(rows, id) < rows.len(),
        job_position(rows, id) >= 0 ==> rows[job_position(rows, id)].job_id == id,
        job_position(rows, id) >= 0 ==> known_row(rows, id) == Some(rows[job_position(rows, id)]),
        job_position(rows, id) < 0 ==> known_row(rows, id) is None && !job_ids(rows).contains(id),
    decreases rows.len(),
{
    if rows.len() > 0 {
        lemma_job_position(rows.drop_last(), id);
        if rows.last().job_id != id && job_position(rows, id) < 0 {
            assert forall|k: int| 0 <= k < rows.len() implies job_ids(rows)[k] != id by {
                if k < rows.len() - 1 {
                    assert(job_ids(rows.drop_last())[k] == job_ids(rows)[k]);
                }
            }
        }
    }
}

/// Where the job `id` stands among `known`, whose ids `ids` lists in order
/// and each once.
proof fn lemma_position_unique(rows: Seq<RowModel>, id: Seq<char>, k: int)
    requires
        0 <= k < rows.len(),
        rows[k].job_id == id,
        crate::index::distinct(job_ids(rows)),
    ensures
        job_position(rows, id) == k,
    decreases rows.len(),
{
    if k < rows.len() - 1 {
        assert(job_ids(rows)[k] == id);
        assert(job_ids(rows)[rows.len() - 1] == rows.last().job_id);
        assert(job_ids(rows.drop_last()) =~= job_ids(rows).drop_last());
        lemma_position_unique(rows.drop_last(), id, k);
    }
}

/// A sequence without repetitions is its own `dedup`.
pub proof fn lemma_dedup_distinct(s: Seq<Seq<char>>)
    requires
        crate::index::distinct(s),
    ensures
        dedup(s) == s,
    decreases s.len(),
{
    if s.len() > 0 {
        let init = s.drop_last();
        assert(crate::index::distinct(init)) by {
            assert forall|i: int, j: int| 0 <= i < j < init.len() implies init[i] != init[j] by {
                assert(init[i] == s[i] && init[j] == s[j]);
            }
        }
        lemma_dedup_distinct(init);
        assert(!init.contains(s.last())) by {
            assert forall|i: int| 0 <= i < init.len() implies init[i] != s.last() by {
                assert(init[i] == s[i]);
                assert(s.last() == s[s.len() - 1]);
            }
        }
        assert(init.push(s.last()) =~= s);
    }
}

/// Plans one round taken at `stamp`: which files it writes for `rows`, given
/// the jobs remembered from the round before, and what to remember for the
/// next round.
pub fn squeue_diff(state: &mut PollState, stamp: &String, rows: &Vec<SqueueRow>) -> (plan: RoundPlan)
    requires
        old(state).wf(),
    ensures
        final(state).wf(),
        plan.id_file@ == stamp@ + ".json"@,
        views(plan.ids@) == dedup(job_ids(row_views(rows@))),
        plan.writes@.map_values(|w: ArchiveWrite| w@) == round_writes(
            old(state).known_view(),
            row_views(rows@),
            stamp@,
        ),
        views(plan.reappeared@) == reappeared(
            old(state).known_view(),
            old(state).all_ids_view(),
            row_views(rows@),
        ),
        final(state).known_view() == remembered(row_views(rows@)),
        final(state).all_ids_view() == dedup(old(state).all_ids_view() + job_ids(row_views(rows@))),
{
    let ghost known = old(state).known_view();
    let ghost all = old(state).all_ids_view();
    let ghost rv = row_views(rows@);
    let delta_name = concat("DELTA-", stamp);
    let mut delta_name = delta_name;
    push_str_of(&mut delta_name, &owned(".json"));
    let mut snap_name = stamp.clone();
    push_str_of(&mut snap_name, &owned(".json"));
    let mut ids = StringIndex::new();
    let mut writes: Vec<ArchiveWrite> = Vec::new();
    let mut back: Vec<String> = Vec::new();
    let mut new_known: Vec<SqueueRow> = Vec::new();
    let mut new_ids = StringIndex::new();
    let mut i: usize = 0;
    assert(rv.take(0) =~= Seq::<RowModel>::empty());
    assert(job_ids(rv.take(0)) =~= Seq::<Seq<char>>::empty());
    assert(writes@.map_values(|w: ArchiveWrite| w@) =~= Seq::<WriteModel>::empty());
    assert(views(back@) =~= Seq::<Seq<char>>::empty());
    assert(row_views(new_known@) =~= Seq::<RowModel>::empty());
    while i < rows.len()
        invariant
            state.wf(),
            known == state.known_view(),
            all == state.all_ids_view(),
            rv == row_views(rows@),
            i <= rows@.len(),
            delta_name@ == "DELTA-"@ + stamp@ + ".json"@,
            snap_name@ == stamp@ + ".json"@,
            ids.wf(),
            ids@ == dedup(job_ids(rv.take(i as int))),
            writes@.map_values(|w: ArchiveWrite| w@) == round_writes(known, rv.take(i as int), stamp@),
            views(back@) == reappeared(known, all, rv.take(i as int)),
            new_ids.wf(),
            new_ids@ == job_ids(row_views(new_known@)),
            row_views(new_known@) == remembered(rv.take(i as int)),
        decreases rows@.len() - i,
    {
        let row = &rows[i];
        let ghost r = rv[i as int];
        assert(rv.take(i + 1).drop_last() =~= rv.take(i as int));
        assert(rv.take(i + 1).last() == r);
        assert(job_ids(rv.take(i + 1)) =~= job_ids(rv.take(i as int)).push(r.job_id));
        assert(job_ids(rv.take(i + 1)).drop_last() =~= job_ids(rv.take(i as int)));
        ids.insert(row.job_id.clone());
        let ghost before_writes = writes@.map_values(|w: ArchiveWrite| w@);
        let ghost before_back = views(back@);
        proof {
            state.known_ids.lemma_distinct();
            lemma_job_position(known, r.job_id);
        }
        match state.known_ids.position(&row.job_id) {
            Some(k) => {
                proof {
                    assert(job_ids(known)[k as int] == r.job_id);
                    lemma_position_unique(known, r.job_id, k as int);
                }
                let changes = state.known[k].diff(row);
                assert(state.known@[k as int]@ == known[k as int]);
                assert(known_row(known, r.job_id) == Some(known[k as int]));
                if changes.len() > 0 {
                    let w = ArchiveWrite::Delta {
                        job_id: row.job_id.clone(),
                        file_name: delta_name.clone(),
                        changes,
                    };
                    assert(write_for(known, r, stamp@) == seq![w@]);
                    writes.push(w);
                    assert(writes@.map_values(|w: ArchiveWrite| w@) =~= before_writes + write_for(known, r, stamp@));
                } else {
                    assert(writes@.map_values(|w: ArchiveWrite| w@) =~= before_writes + write_for(known, r, stamp@));
                }
                assert(views(back@) =~= before_back + Seq::<Seq<char>>::empty());
            },
            None => {
                proof {
                    let jp = job_position(known, r.job_id);
                    if jp >= 0 {
                        assert(job_ids(known)[jp] == r.job_id);
                    }
                }
                assert(known_row(known, r.job_id) is None);
                let w = ArchiveWrite::NewJob {
                    job_id: row.job_id.clone(),
                    file_name: snap_name.clone(),
                    record: row.duplicate(),
                };
                assert(write_for(known, r, stamp@) == seq![w@]);
                writes.push(w);
                assert(writes@.map_values(|w: ArchiveWrite| w@) =~= before_writes + write_for(known, r, stamp@));
                match state.all_ids.position(&row.job_id) {
                    Some(q) => {
                        assert(all[q as int] == r.job_id);
                        back.push(row.job_id.clone());
                        assert(views(back@) =~= before_back + seq![r.job_id]);
                    },
                    None => {
                        assert(views(back@) =~= before_back + Seq::<Seq<char>>::empty());
                    },
                }
            },
        }
        assert(reappeared(known, all, rv.take(i + 1)) == reappeared(known, all, rv.take(i as int)) + if known_row(known, r.job_id) is None && all.contains(r.job_id) {
            seq![r.job_id]
        } else {
            Seq::<Seq<char>>::empty()
        });
        assert(round_writes(known, rv.take(i + 1), stamp@) == round_writes(known, rv.take(i as int), stamp@) + write_for(known, r, stamp@));
        let ghost before_known = row_views(new_known@);
        proof {
            new_ids.lemma_distinct();
            lemma_job_position(before_known, r.job_id);
        }
        match new_ids.position(&row.job_id) {
            Some(k) => {
                proof {
                    assert(job_ids(before_known)[k as int] == r.job_id);
                    lemma_position_unique(before_known, r.job_id, k as int);
                }
                new_known.set(k, row.duplicate());
                assert(remembered(rv.take(i + 1)) == before_known.update(k as int, r));
                assert(row_views(new_known@) =~= before_known.update(k as int, r));
                assert(job_ids(row_views(new_known@)) =~= job_ids(before_known));
            },
            None => {
                proof {
                    let jp = job_position(before_known, r.job_id);
                    if jp >= 0 {
                        assert(job_ids(before_known)[jp] == r.job_id);
                    }
                }
                new_ids.insert(row.job_id.clone());
                new_known.push(row.duplicate());
                assert(row_views(new_known@) =~= before_known.push(r));
                assert(job_ids(row_views(new_known@)) =~= job_ids(before_known).push(r.job_id));
            },
        }
        i = i + 1;
    }
    assert(rv.take(rows@.len() as int) =~= rv);
    let mut ids_out: Vec<String> = Vec::new();
    let mut j: usize = 0;
    while j < ids.len()
        invariant
            ids.wf(),
            j <= ids@.len(),
            views(ids_out@) == ids@.take(j as int),
        decreases ids@.len() - j,
    {
        ids_out.push(ids.get(j).clone());
        assert(ids@.take(j + 1) =~= ids@.take(j as int).push(ids@[j as int]));
        assert(views(ids_out@) =~= ids@.take(j + 1));
        j = j + 1;
    }
    assert(ids@.take(ids@.len() as int) =~= ids@);
    proof {
        state.all_ids.lemma_distinct();
        lemma_dedup_distinct(all);
    }
    let mut j: usize = 0;
    while j < rows.len()
        invariant
            state.all_ids.wf(),
            state.known_ids.wf(),
            state.known_ids@ == job_ids(row_views(state.known@)),
            rv == row_views(rows@),
            j <= rows@.len(),
            state.all_ids@ == dedup(all + job_ids(rv).take(j as int)),
        decreases rows@.len() - j,
    {
        state.all_ids.insert(rows[j].job_id.clone());
        assert((all + job_ids(rv).take(j + 1)).drop_last() =~= all + job_ids(rv).take(j as int));
        assert((all + job_ids(rv).take(j + 1)).last() == rows@[j as int].job_id@);
        j = j + 1;
    }
    assert(job_ids(rv).take(rows@.len() as int) =~= job_ids(rv));
    state.known = new_known;
    state.known_ids = new_ids;
    RoundPlan { id_file: snap_name, ids: ids_out, writes, reappeared: back }
}

} // verus!
