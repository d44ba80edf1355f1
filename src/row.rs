//! One job as `squeue` lists it: the record, its meaning, and the reading
//! and writing of the pipe-delimited line.
use vstd::prelude::*;

use crate::duration::{duration_secs, format_duration, parse_slurm_duration};
use crate::priority::{priority_of, priority_text, priority_width, Priority};
use crate::state::{state_name, state_of, JobState, StateModel};
use crate::text::{
    chars_of, decimal, find_char, first_index, join_on, join_strings, lemma_concat_free,
    lemma_decimal, owned, parse_unsigned, parse_usize, split_chars, split_on, string_of, views,
};
use crate::time::{lemma_padded, padded, pow10, scheduler_time_of, slurm_time_text, SlurmTime};

verus! {

/// The number of fields in a line of `squeue` output.
pub const FIELD_COUNT: usize = 25;

/// The `squeue` format string whose fields a line holds, in order.
pub const SQUEUE_FORMAT_STR: &'static str =
    "%a|%A|%B|%c|%C|%D|%e|%E|%f|%F|%G|%i|%l|%L|%j|%m|%M|%p|%P|%T|%r|%S|%V|%Z|%o";

/// One job as `squeue` lists it.
#[derive(Debug)]
pub struct SqueueRow {
    pub account: String,
    pub job_id: String,
    /// Absent where `squeue` prints `n/a`.
    pub exec_host: Option<String>,
    pub min_cpus: usize,
    pub cpus: usize,
    pub nodes: usize,
    /// Absent where `squeue` prints `N/A`.
    pub end_time: Option<SlurmTime>,
    /// Absent where `squeue` prints `(null)`.
    pub dependency: Option<String>,
    pub features: String,
    pub array_job_id: String,
    pub group: String,
    /// The id before the first `_`, and what follows that `_` if there is one:
    /// `49848561`, `49869434_2` or `49616001_[3-10%1]`.
    pub step_job_id: (String, Option<String>),
    /// Seconds; absent where `squeue` prints `INVALID` or no duration.
    pub time_limit: Option<u64>,
    /// Seconds; changes on every poll, so no delta records it.
    pub time_left: Option<u64>,
    pub name: String,
    pub min_memory: String,
    /// Seconds used; changes on every poll, so no delta records it.
    pub time: Option<u64>,
    pub priority: Priority,
    pub partition: String,
    pub state: JobState,
    pub reason: String,
    /// Absent where `squeue` prints `N/A`.
    pub start_time: Option<SlurmTime>,
    pub submit_time: SlurmTime,
    pub work_dir: String,
    pub command: String,
}

/// What a `SqueueRow` holds, with strings as character sequences.
pub struct RowModel {
    pub account: Seq<char>,
    pub job_id: Seq<char>,
    pub exec_host: Option<Seq<char>>,
    pub min_cpus: usize,
    pub cpus: usize,
    pub nodes: usize,
    pub end_time: Option<SlurmTime>,
    pub dependency: Option<Seq<char>>,
    pub features: Seq<char>,
    pub array_job_id: Seq<char>,
    pub group: Seq<char>,
    pub step_job_id: (Seq<char>, Option<Seq<char>>),
    pub time_limit: Option<u64>,
    pub time_left: Option<u64>,
    pub name: Seq<char>,
    pub min_memory: Seq<char>,
    pub time: Option<u64>,
    pub priority: Priority,
    pub partition: Seq<char>,
    pub state: StateModel,
    pub reason: Seq<char>,
    pub start_time: Option<SlurmTime>,
    pub submit_time: SlurmTime,
    pub work_dir: Seq<char>,
    pub command: Seq<char>,
}

pub open spec fn opt_view(o: Option<String>) -> Option<Seq<char>> {
    match o {
        Some(s) => Some(s@),
        None => None,
    }
}

impl View for SqueueRow {
    type V = RowModel;

    open spec fn view(&self) -> RowModel {
        RowModel {
            account: self.account@,
            job_id: self.job_id@,
            exec_host: opt_view(self.exec_host),
            min_cpus: self.min_cpus,
            cpus: self.cpus,
            nodes: self.nodes,
            end_time: self.end_time,
            dependency: opt_view(self.dependency),
            features: self.features@,
            array_job_id: self.array_job_id@,
            group: self.group@,
            step_job_id: (self.step_job_id.0@, opt_view(self.step_job_id.1)),
            time_limit: self.time_limit,
            time_left: self.time_left,
            name: self.name@,
            min_memory: self.min_memory@,
            time: self.time,
            priority: self.priority,
            partition: self.partition@,
            state: self.state@,
            reason: self.reason@,
            start_time: self.start_time,
            submit_time: self.submit_time,
            work_dir: self.work_dir@,
            command: self.command@,
        }
    }
}

/// Why a line could not be read as a job.
#[derive(Clone, Copy, Debug, PartialEq, Eq, Structural)]
pub enum RowError {
    /// The line does not hold exactly 25 fields.
    FieldCount,
    /// `MIN_CPUS` is no `usize`.
    MinCpus,
    /// `CPUS` is no `usize`.
    Cpus,
    /// `NODES` is no `usize`.
    Nodes,
    /// `END_TIME` is neither `N/A` nor a time.
    EndTime,
    /// `PRIORITY` is no decimal number.
    Priority,
    /// `START_TIME` is neither `N/A` nor a time.
    StartTime,
    /// `SUBMIT_TIME` is no time.
    SubmitTime,
}

/// A field where one text stands for "absent".
pub open spec fn optional_text(s: Seq<char>, absent: Seq<char>) -> Option<Seq<char>> {
    if s == absent {
        None
    } else {
        Some(s)
    }
}

/// A time field where `N/A` stands for "absent"; `None` where it is neither.
pub open spec fn optional_time(s: Seq<char>) -> Option<Option<SlurmTime>> {
    if s == "N/A"@ {
        Some(None)
    } else {
        match scheduler_time_of(s) {
            Some(t) => Some(Some(t)),
            None => None,
        }
    }
}

/// A duration field: absent where it is `INVALID` or is no duration.
pub open spec fn optional_duration(s: Seq<char>) -> Option<u64> {
    if s == "INVALID"@ {
        None
    } else {
        match duration_secs(s) {
            Some(v) => Some(v as u64),
            None => None,
        }
    }
}

/// A step id: what comes before the first `_`, and what follows it.
pub open spec fn step_of(s: Seq<char>) -> (Seq<char>, Option<Seq<char>>) {
    let k = first_index(s, '_');
    if k < 0 {
        (s, None)
    } else {
        (s.take(k), Some(s.skip(k + 1)))
    }
}

pub open spec fn count_of(s: Seq<char>) -> Option<usize> {
    match parse_unsigned(s, usize::MAX as nat) {
        Some(v) => Some(v as usize),
        None => None,
    }
}

/// The job that the 25 fields of a line describe, or the first field, in
/// the line's order, that cannot be read.
pub open spec fn row_of(f: Seq<Seq<char>>) -> Result<RowModel, RowError> {
    if f.len() != 25 {
        Err(RowError::FieldCount)
    } else if count_of(f[3]) is None {
        Err(RowError::MinCpus)
    } else if count_of(f[4]) is None {
        Err(RowError::Cpus)
    } else if count_of(f[5]) is None {
        Err(RowError::Nodes)
    } else if optional_time(f[6]) is None {
        Err(RowError::EndTime)
    } else if priority_of(f[17]) is None {
        Err(RowError::Priority)
    } else if optional_time(f[21]) is None {
        Err(RowError::StartTime)
    } else if scheduler_time_of(f[22]) is None {
        Err(RowError::SubmitTime)
    } else {
        Ok(
            RowModel {
                account: f[0],
                job_id: f[1],
                exec_host: optional_text(f[2], "n/a"@),
                min_cpus: count_of(f[3])->0,
                cpus: count_of(f[4])->0,
                nodes: count_of(f[5])->0,
                end_time: optional_time(f[6])->0,
                dependency: optional_text(f[7], "(null)"@),
                features: f[8],
                array_job_id: f[9],
                group: f[10],
                step_job_id: step_of(f[11]),
                time_limit: optional_duration(f[12]),
                time_left: optional_duration(f[13]),
                name: f[14],
                min_memory: f[15],
                time: optional_duration(f[16]),
                priority: priority_of(f[17])->0,
                partition: f[18],
                state: state_of(f[19]),
                reason: f[20],
                start_time: optional_time(f[21])->0,
                submit_time: scheduler_time_of(f[22])->0,
                work_dir: f[23],
                command: f[24],
            },
        )
    }
}

fn clone_opt(a: &Option<String>) -> (r: Option<String>)
    ensures
        opt_view(r) == opt_view(*a),
{
    match a {
        Some(x) => Some(x.clone()),
        None => None,
    }
}

fn optional_string(s: &String, absent: &str) -> (r: Option<String>)
    ensures
        opt_view(r) == optional_text(s@, absent@),
{
    if *s == owned(absent) {
        None
    } else {
        Some(s.clone())
    }
}

fn read_optional_time(s: &String) -> (r: Option<Option<SlurmTime>>)
    ensures
        r == optional_time(s@),
{
    if *s == owned("N/A") {
        Some(None)
    } else {
        match SlurmTime::parse(s.as_str()) {
            Some(t) => Some(Some(t)),
            None => None,
        }
    }
}

fn read_optional_duration(s: &String) -> (r: Option<u64>)
    ensures
        r == optional_duration(s@),
{
    if *s == owned("INVALID") {
        None
    } else {
        match parse_slurm_duration(s.as_str()) {
            Ok(v) => Some(v),
            Err(_) => None,
        }
    }
}

fn read_step(s: &String) -> (r: (String, Option<String>))
    ensures
        (r.0@, opt_view(r.1)) == step_of(s@),
{
    let cs = chars_of(s.as_str());
    match find_char(&cs, '_') {
        Some(k) => {
            assert(k < cs.len());
            let head = string_of(&cs, 0, k);
            let tail = string_of(&cs, k + 1, cs.len());
            assert(cs@.subrange(0, k as int) =~= cs@.take(k as int));
            assert(cs@.subrange(k + 1, cs@.len() as int) =~= cs@.skip(k + 1));
            (head, Some(tail))
        },
        None => (s.clone(), None),
    }
}

/// The row's times are real dates and times.
pub open spec fn row_times_valid(m: RowModel) -> bool {
    &&& m.end_time matches Some(t) ==> t.valid()
    &&& m.start_time matches Some(t) ==> t.valid()
    &&& m.submit_time.valid()
}

/// What `row_of` reads holds real dates and times only.
pub proof fn lemma_read_times_valid(f: Seq<Seq<char>>)
    ensures
        row_of(f) matches Ok(m) ==> row_times_valid(m),
{
}

/// The text of an optional field, `absent` standing for "absent".
pub open spec fn text_or(o: Option<Seq<char>>, absent: Seq<char>) -> Seq<char> {
    match o {
        Some(s) => s,
        None => absent,
    }
}

/// The text of an optional time field.
pub open spec fn time_text_or_na(o: Option<SlurmTime>) -> Seq<char> {
    match o {
        Some(t) => slurm_time_text(t),
        None => "N/A"@,
    }
}

/// The text of an optional duration field.
pub open spec fn duration_text_or_invalid(o: Option<u64>) -> Seq<char> {
    match o {
        Some(d) => crate::duration::duration_text(d as nat),
        None => "INVALID"@,
    }
}

/// The text of a step id.
pub open spec fn step_text(s: (Seq<char>, Option<Seq<char>>)) -> Seq<char> {
    match s.1 {
        Some(b) => s.0.push('_') + b,
        None => s.0,
    }
}

/// The 25 fields that `squeue` prints for a job, in the order of
/// `SQUEUE_FORMAT_STR`.
pub open spec fn row_fields(m: RowModel) -> Seq<Seq<char>> {
    seq![
        m.account,
        m.job_id,
        text_or(m.exec_host, "n/a"@),
        decimal(m.min_cpus as nat),
        decimal(m.cpus as nat),
        decimal(m.nodes as nat),
        time_text_or_na(m.end_time),
        text_or(m.dependency, "(null)"@),
        m.features,
        m.array_job_id,
        m.group,
        step_text(m.step_job_id),
        duration_text_or_invalid(m.time_limit),
        duration_text_or_invalid(m.time_left),
        m.name,
        m.min_memory,
        duration_text_or_invalid(m.time),
        priority_text(m.priority),
        m.partition,
        state_name(m.state),
        m.reason,
        time_text_or_na(m.start_time),
        slurm_time_text(m.submit_time),
        m.work_dir,
        m.command,
    ]
}

fn text_or_exec(o: &Option<String>, absent: &str) -> (r: String)
    ensures
        r@ == text_or(opt_view(*o), absent@),
{
    match o {
        Some(s) => s.clone(),
        None => owned(absent),
    }
}

fn time_text_exec(o: &Option<SlurmTime>) -> (r: String)
    requires
        o matches Some(t) ==> t.valid(),
    ensures
        r@ == time_text_or_na(*o),
{
    match o {
        Some(t) => t.format(),
        None => owned("N/A"),
    }
}

fn duration_text_exec(o: &Option<u64>) -> (r: String)
    ensures
        r@ == duration_text_or_invalid(*o),
{
    match o {
        Some(d) => format_duration(*d),
        None => owned("INVALID"),
    }
}

fn decimal_exec(n: usize) -> (r: String)
    ensures
        r@ == decimal(n as nat),
{
    let mut r = String::new();
    crate::text::push_decimal_usize(&mut r, n);
    assert(r@ =~= decimal(n as nat));
    r
}

impl SqueueRow {
    /// The times of the row are real dates and times.
    pub open spec fn times_valid(&self) -> bool {
        row_times_valid(self@)
    }

    /// The 25 fields that `squeue` prints for this job.
    pub fn format_fields(&self) -> (r: Vec<String>)
        requires
            self.times_valid(),
        ensures
            views(r@) == row_fields(self@),
    {
        let mut f: Vec<String> = Vec::new();
        f.push(self.account.clone());
        f.push(self.job_id.clone());
        f.push(text_or_exec(&self.exec_host, "n/a"));
        f.push(decimal_exec(self.min_cpus));
        f.push(decimal_exec(self.cpus));
        f.push(decimal_exec(self.nodes));
        f.push(time_text_exec(&self.end_time));
        f.push(text_or_exec(&self.dependency, "(null)"));
        f.push(self.features.clone());
        f.push(self.array_job_id.clone());
        f.push(self.group.clone());
        let step = match &self.step_job_id.1 {
            Some(b) => {
                let mut x = self.step_job_id.0.clone();
                crate::text::push_char(&mut x, '_');
                crate::text::push_str_of(&mut x, b);
                x
            },
            None => self.step_job_id.0.clone(),
        };
        f.push(step);
        f.push(duration_text_exec(&self.time_limit));
        f.push(duration_text_exec(&self.time_left));
        f.push(self.name.clone());
        f.push(self.min_memory.clone());
        f.push(duration_text_exec(&self.time));
        f.push(self.priority.format());
        f.push(self.partition.clone());
        f.push(self.state.name());
        f.push(self.reason.clone());
        f.push(time_text_exec(&self.start_time));
        f.push(self.submit_time.format());
        f.push(self.work_dir.clone());
        f.push(self.command.clone());
        assert(views(f@) =~= row_fields(self@));
        f
    }

    /// The line that `squeue` prints for this job.
    pub fn format_line(&self) -> (r: String)
        requires
            self.times_valid(),
        ensures
            r@ == join_on(row_fields(self@), '|'),
    {
        join_strings(&self.format_fields(), '|')
    }

    /// Reads the 25 fields of a line of `squeue` output, in the order of
    /// `SQUEUE_FORMAT_STR`.
    pub fn parse_fields(f: &Vec<String>) -> (r: Result<SqueueRow, RowError>)
        ensures
            match r {
                Ok(row) => row_of(views(f@)) == Ok::<RowModel, RowError>(row@),
                Err(e) => row_of(views(f@)) == Err::<RowModel, RowError>(e),
            },
            r matches Ok(row) ==> row.times_valid(),
    {
        proof {
            lemma_read_times_valid(views(f@));
        }
        if f.len() != FIELD_COUNT {
            return Err(RowError::FieldCount);
        }
        let ghost v = views(f@);
        assert(forall|i: int| 0 <= i < 25 ==> v[i] == (#[trigger] f@[i])@);
        let min_cpus = match parse_usize(f[3].as_str()) {
            Some(n) => n,
            None => {
                return Err(RowError::MinCpus);
            },
        };
        let cpus = match parse_usize(f[4].as_str()) {
            Some(n) => n,
            None => {
                return Err(RowError::Cpus);
            },
        };
        let nodes = match parse_usize(f[5].as_str()) {
            Some(n) => n,
            None => {
                return Err(RowError::Nodes);
            },
        };
        let end_time = match read_optional_time(&f[6]) {
            Some(t) => t,
            None => {
                return Err(RowError::EndTime);
            },
        };
        let priority = match Priority::parse(f[17].as_str()) {
            Some(p) => p,
            None => {
                return Err(RowError::Priority);
            },
        };
        let start_time = match read_optional_time(&f[21]) {
            Some(t) => t,
            None => {
                return Err(RowError::StartTime);
            },
        };
        let submit_time = match SlurmTime::parse(f[22].as_str()) {
            Some(t) => t,
            None => {
                return Err(RowError::SubmitTime);
            },
        };
        let state = match JobState::from_str(f[19].as_str()) {
            Ok(st) => st,
            Err(_) => {
                return Err(RowError::FieldCount);
            },
        };
        let row = SqueueRow {
            account: f[0].clone(),
            job_id: f[1].clone(),
            exec_host: optional_string(&f[2], "n/a"),
            min_cpus,
            cpus,
            nodes,
            end_time,
            dependency: optional_string(&f[7], "(null)"),
            features: f[8].clone(),
            array_job_id: f[9].clone(),
            group: f[10].clone(),
            step_job_id: read_step(&f[11]),
            time_limit: read_optional_duration(&f[12]),
            time_left: read_optional_duration(&f[13]),
            name: f[14].clone(),
            min_memory: f[15].clone(),
            time: read_optional_duration(&f[16]),
            priority,
            partition: f[18].clone(),
            state,
            reason: f[20].clone(),
            start_time,
            submit_time,
            work_dir: f[23].clone(),
            command: f[24].clone(),
        };
        Ok(row)
    }

    /// A copy of this row.
    pub fn duplicate(&self) -> (r: SqueueRow)
        ensures
            r@ == self@,
    {
        SqueueRow {
            account: self.account.clone(),
            job_id: self.job_id.clone(),
            exec_host: clone_opt(&self.exec_host),
            min_cpus: self.min_cpus,
            cpus: self.cpus,
            nodes: self.nodes,
            end_time: self.end_time,
            dependency: clone_opt(&self.dependency),
            features: self.features.clone(),
            array_job_id: self.array_job_id.clone(),
            group: self.group.clone(),
            step_job_id: (self.step_job_id.0.clone(), clone_opt(&self.step_job_id.1)),
            time_limit: self.time_limit,
            time_left: self.time_left,
            name: self.name.clone(),
            min_memory: self.min_memory.clone(),
            time: self.time,
            priority: self.priority,
            partition: self.partition.clone(),
            state: self.state.duplicate(),
            reason: self.reason.clone(),
            start_time: self.start_time,
            submit_time: self.submit_time,
            work_dir: self.work_dir.clone(),
            command: self.command.clone(),
        }
    }

    /// Reads the fields that splitting a line of `squeue` output on `|` gave.
    pub fn parse_from_strs(vals: &[&str]) -> (r: Result<SqueueRow, RowError>)
        ensures
            match r {
                Ok(row) => row_of(vals@.map_values(|s: &str| s@)) == Ok::<RowModel, RowError>(
                    row@,
                ),
                Err(e) => row_of(vals@.map_values(|s: &str| s@)) == Err::<RowModel, RowError>(e),
            },
            r matches Ok(row) ==> row.times_valid(),
    {
        let mut f: Vec<String> = Vec::new();
        let mut i: usize = 0;
        while i < vals.len()
            invariant
                i <= vals@.len(),
                f@.len() == i,
                forall|j: int| 0 <= j < i ==> (#[trigger] f@[j])@ == vals@[j]@,
            decreases vals@.len() - i,
        {
            f.push(owned(vals[i]));
            i = i + 1;
        }
        assert(views(f@) =~= vals@.map_values(|s: &str| s@));
        SqueueRow::parse_fields(&f)
    }

    /// Reads one line of `squeue` output.
    pub fn parse_line(line: &str) -> (r: Result<SqueueRow, RowError>)
        ensures
            match r {
                Ok(row) => row_of(split_on(line@, '|')) == Ok::<RowModel, RowError>(row@),
                Err(e) => row_of(split_on(line@, '|')) == Err::<RowModel, RowError>(e),
            },
            r matches Ok(row) ==> row.times_valid(),
    {
        let cs = chars_of(line);
        let f = split_chars(&cs, '|');
        SqueueRow::parse_fields(&f)
    }
}

/// `s` holds no `|`, so it stays one field of a line.
pub open spec fn pipe_free(s: Seq<char>) -> bool {
    !s.contains('|')
}

/// A row that writing as a line and reading back keeps: no text holds a
/// `|`, no optional text is its field's word for "absent", the step id's base
/// holds no `_`, an `OTHER` state does not carry the name of a state of its
/// own, the times are real and the priority is in its shortest form.
pub open spec fn printable(m: RowModel) -> bool {
    &&& pipe_free(m.account)
    &&& pipe_free(m.job_id)
    &&& (m.exec_host matches Some(h) ==> pipe_free(h) && h != "n/a"@)
    &&& (m.end_time matches Some(t) ==> t.valid())
    &&& (m.dependency matches Some(d) ==> pipe_free(d) && d != "(null)"@)
    &&& pipe_free(m.features)
    &&& pipe_free(m.array_job_id)
    &&& pipe_free(m.group)
    &&& pipe_free(m.step_job_id.0)
    &&& !m.step_job_id.0.contains('_')
    &&& (m.step_job_id.1 matches Some(b) ==> pipe_free(b))
    &&& pipe_free(m.name)
    &&& pipe_free(m.min_memory)
    &&& pipe_free(m.partition)
    &&& (m.state matches StateModel::Other(x) ==> pipe_free(x) && !crate::state::is_known_name(x))
    &&& pipe_free(m.reason)
    &&& (m.start_time matches Some(t) ==> t.valid())
    &&& m.submit_time.valid()
    &&& pipe_free(m.work_dir)
    &&& pipe_free(m.command)
}

proof fn lemma_digits_pipe_free(s: Seq<char>)
    requires
        crate::text::all_digits(s),
    ensures
        pipe_free(s),
        !s.contains('_'),
{
    assert forall|i: int| 0 <= i < s.len() implies s[i] != '|' && s[i] != '_' by {
        assert(crate::text::is_digit(s[i]));
    }
}

proof fn lemma_literal_words()
    ensures
        pipe_free("n/a"@),
        pipe_free("N/A"@),
        pipe_free("(null)"@),
        pipe_free("INVALID"@),
        "N/A"@.len() == 3 && "N/A"@[0] == 'N',
        "INVALID"@.len() == 7 && "INVALID"@[0] == 'I',
{
    reveal_strlit("n/a");
    reveal_strlit("N/A");
    reveal_strlit("(null)");
    reveal_strlit("INVALID");
}

proof fn lemma_single_pipe_free(c: char)
    requires
        c != '|',
    ensures
        pipe_free(seq![c]),
{
    assert forall|i: int| 0 <= i < 1 implies seq![c][i] != '|' by {}
}

proof fn lemma_time_text(t: SlurmTime)
    requires
        t.valid(),
    ensures
        pipe_free(slurm_time_text(t)),
        slurm_time_text(t) != "N/A"@,
{
    assert(pow10(4) == 10000 && pow10(2) == 100) by {
        reveal_with_fuel(pow10, 5);
    }
    lemma_padded(t.year as nat, 4);
    lemma_padded(t.month as nat, 2);
    lemma_padded(t.day as nat, 2);
    lemma_padded(t.hour as nat, 2);
    lemma_padded(t.minute as nat, 2);
    lemma_padded(t.second as nat, 2);
    let y = padded(t.year as nat, 4);
    let mo = padded(t.month as nat, 2);
    let d = padded(t.day as nat, 2);
    let h = padded(t.hour as nat, 2);
    let mi = padded(t.minute as nat, 2);
    let se = padded(t.second as nat, 2);
    lemma_digits_pipe_free(y);
    lemma_digits_pipe_free(mo);
    lemma_digits_pipe_free(d);
    lemma_digits_pipe_free(h);
    lemma_digits_pipe_free(mi);
    lemma_digits_pipe_free(se);
    lemma_single_pipe_free('-');
    lemma_single_pipe_free('T');
    lemma_single_pipe_free(':');
    lemma_concat_free(y, seq!['-'], '|');
    lemma_concat_free(y + seq!['-'], mo, '|');
    lemma_concat_free(y + seq!['-'] + mo, seq!['-'], '|');
    lemma_concat_free(y + seq!['-'] + mo + seq!['-'], d, '|');
    lemma_concat_free(y + seq!['-'] + mo + seq!['-'] + d, seq!['T'], '|');
    lemma_concat_free(y + seq!['-'] + mo + seq!['-'] + d + seq!['T'], h, '|');
    lemma_concat_free(y + seq!['-'] + mo + seq!['-'] + d + seq!['T'] + h, seq![':'], '|');
    lemma_concat_free(y + seq!['-'] + mo + seq!['-'] + d + seq!['T'] + h + seq![':'], mi, '|');
    lemma_concat_free(
        y + seq!['-'] + mo + seq!['-'] + d + seq!['T'] + h + seq![':'] + mi,
        seq![':'],
        '|',
    );
    lemma_concat_free(
        y + seq!['-'] + mo + seq!['-'] + d + seq!['T'] + h + seq![':'] + mi + seq![':'],
        se,
        '|',
    );
    lemma_literal_words();
    assert(slurm_time_text(t)[0] == y[0]);
    assert(crate::text::is_digit(y[0]));
}

proof fn lemma_duration_text(x: u64)
    ensures
        pipe_free(crate::duration::duration_text(x as nat)),
        crate::duration::duration_text(x as nat) != "INVALID"@,
{
    let secs = x as nat;
    assert(pow10(2) == 100) by {
        reveal_with_fuel(pow10, 3);
    }
    let dd = decimal(secs / 86400);
    lemma_decimal(secs / 86400);
    lemma_padded((secs % 86400) / 3600, 2);
    lemma_padded((secs % 3600) / 60, 2);
    lemma_padded(secs % 60, 2);
    let h = padded((secs % 86400) / 3600, 2);
    let m = padded((secs % 3600) / 60, 2);
    let z = padded(secs % 60, 2);
    lemma_digits_pipe_free(dd);
    lemma_digits_pipe_free(h);
    lemma_digits_pipe_free(m);
    lemma_digits_pipe_free(z);
    lemma_single_pipe_free('-');
    lemma_single_pipe_free(':');
    assert(dd.push('-') =~= dd + seq!['-']);
    assert(h.push(':') =~= h + seq![':']);
    assert(m.push(':') =~= m + seq![':']);
    lemma_concat_free(dd, seq!['-'], '|');
    lemma_concat_free(h, seq![':'], '|');
    lemma_concat_free(m, seq![':'], '|');
    lemma_concat_free(dd.push('-'), h.push(':'), '|');
    lemma_concat_free(dd.push('-') + h.push(':'), m.push(':'), '|');
    lemma_concat_free(dd.push('-') + h.push(':') + m.push(':'), z, '|');
    lemma_literal_words();
    assert(crate::duration::duration_text(secs)[0] == dd[0]);
    assert(crate::text::is_digit(dd[0]));
}

proof fn lemma_priority_text(p: Priority)
    ensures
        pipe_free(priority_text(p)),
{
    let w = priority_width(p);
    let ds = padded(p.mantissa as nat, w);
    assert forall|i: int| 0 <= i < ds.len() implies ds[i] != '|' by {
        lemma_padded_chars(p.mantissa as nat, w, i);
    }
    lemma_padded_len(p.mantissa as nat, w);
    if p.scale != 0 {
        let a = ds.take(w - p.scale);
        let b = ds.skip(w - p.scale);
        assert forall|i: int| 0 <= i < a.len() implies a[i] != '|' by {
            assert(a[i] == ds[i]);
        }
        assert forall|i: int| 0 <= i < b.len() implies b[i] != '|' by {
            assert(b[i] == ds[i + w - p.scale]);
        }
        lemma_single_pipe_free('.');
        assert(a.push('.') =~= a + seq!['.']);
        lemma_concat_free(a, seq!['.'], '|');
        lemma_concat_free(a.push('.'), b, '|');
    }
}

proof fn lemma_padded_len(n: nat, w: nat)
    ensures
        padded(n, w).len() == w,
    decreases w,
{
    if w > 0 {
        lemma_padded_len(n / 10, (w - 1) as nat);
    }
}

proof fn lemma_padded_chars(n: nat, w: nat, i: int)
    requires
        0 <= i < crate::time::padded(n, w).len(),
    ensures
        crate::text::is_digit(crate::time::padded(n, w)[i]),
    decreases w,
{
    if w > 0 {
        let p = padded(n, w);
        crate::text::lemma_digit_char(n % 10);
        if i < p.len() - 1 {
            lemma_padded_chars(n / 10, (w - 1) as nat, i);
        }
    }
}

proof fn lemma_state_name_free(s: StateModel)
    requires
        s matches StateModel::Other(x) ==> pipe_free(x),
    ensures
        pipe_free(state_name(s)),
{
    reveal_strlit("RUNNING");
    reveal_strlit("PENDING");
    reveal_strlit("COMPLETING");
    reveal_strlit("COMPLETED");
    reveal_strlit("CANCELLED");
    reveal_strlit("FAILED");
    reveal_strlit("TIMEOUT");
    reveal_strlit("OUT_OF_MEMORY");
    reveal_strlit("NODE_FAIL");
}

proof fn lemma_step(st: (Seq<char>, Option<Seq<char>>))
    requires
        pipe_free(st.0),
        !st.0.contains('_'),
        st.1 matches Some(b) ==> pipe_free(b),
    ensures
        pipe_free(step_text(st)),
        step_of(step_text(st)) == st,
{
    let a = st.0;
    match st.1 {
        Some(b) => {
            let s = a.push('_') + b;
            crate::text::lemma_first_index(s, '_', a.len() as int);
            assert(s.take(a.len() as int) =~= a);
            assert(s.skip(a.len() as int + 1) =~= b);
            lemma_single_pipe_free('_');
            assert(a.push('_') =~= a + seq!['_']);
            crate::text::lemma_concat_free(a, seq!['_'], '|');
            crate::text::lemma_concat_free(a.push('_'), b, '|');
        },
        None => {
            crate::text::lemma_first_index(a, '_', a.len() as int);
        },
    }
}

proof fn lemma_count(n: usize)
    ensures
        count_of(decimal(n as nat)) == Some(n),
        pipe_free(decimal(n as nat)),
{
    crate::text::lemma_decimal(n as nat);
    assert(crate::text::unsigned_digits(decimal(n as nat)) == Some(decimal(n as nat)));
    lemma_digits_pipe_free(decimal(n as nat));
}

/// Writing a row as a line and reading the line back gives the same row,
/// for every row that `printable` admits: every field is the same, the
/// priority by its value, written in its shortest form. A row whose priority
/// is in that form already, as every row read from a line is, comes back
/// whole.
#[verifier::rlimit(60)]
pub proof fn lemma_row_round_trip(m: RowModel)
    requires
        printable(m),
    ensures
        row_of(split_on(join_on(row_fields(m), '|'), '|')) == Ok::<RowModel, RowError>(
            RowModel { priority: crate::priority::normal_of(m.priority), ..m },
        ),
        crate::priority::same_value(crate::priority::normal_of(m.priority), m.priority),
        m.priority.normal() ==> row_of(split_on(join_on(row_fields(m), '|'), '|')) == Ok::<
            RowModel,
            RowError,
        >(m),
{
    let f = row_fields(m);
    lemma_literal_words();
    lemma_count(m.min_cpus);
    lemma_count(m.cpus);
    lemma_count(m.nodes);
    if let Some(t) = m.end_time {
        lemma_time_text(t);
        crate::time::lemma_scheduler_time_round_trip(t);
    }
    if let Some(t) = m.start_time {
        lemma_time_text(t);
        crate::time::lemma_scheduler_time_round_trip(t);
    }
    lemma_time_text(m.submit_time);
    crate::time::lemma_scheduler_time_round_trip(m.submit_time);
    if let Some(d) = m.time_limit {
        lemma_duration_text(d);
        crate::duration::lemma_duration_round_trip(d as nat);
    }
    if let Some(d) = m.time_left {
        lemma_duration_text(d);
        crate::duration::lemma_duration_round_trip(d as nat);
    }
    if let Some(d) = m.time {
        lemma_duration_text(d);
        crate::duration::lemma_duration_round_trip(d as nat);
    }
    lemma_priority_text(m.priority);
    crate::priority::lemma_priority_round_trip(m.priority);
    lemma_state_name_free(m.state);
    crate::state::lemma_state_round_trip(m.state);
    lemma_step(m.step_job_id);
    assert forall|i: int| 0 <= i < f.len() implies !(#[trigger] f[i]).contains('|') by {}
    crate::text::lemma_split_join(f, '|');
    assert(optional_time(f[6]) == Some(m.end_time));
    assert(optional_time(f[21]) == Some(m.start_time));
    assert(optional_duration(f[12]) == m.time_limit);
    assert(optional_duration(f[13]) == m.time_left);
    assert(optional_duration(f[16]) == m.time);
    assert(optional_text(f[2], "n/a"@) == m.exec_host);
    assert(optional_text(f[7], "(null)"@) == m.dependency);
}

} // verus!
