use slurry::{
    parse_squeue_output, squeue_command, squeue_diff, ArchiveWrite, FieldChange, PollState,
    SqueueMode, SqueueRow,
};

fn fields() -> Vec<&'static str> {
    vec![
        "acc1",
        "100",
        "n/a",
        "1",
        "4",
        "1",
        "N/A",
        "(null)",
        "(null)",
        "100",
        "grp",
        "100",
        "1-00:00:00",
        "23:59:00",
        "job",
        "4G",
        "1:00",
        "0.00001234",
        "c23",
        "PENDING",
        "None",
        "N/A",
        "2025-01-04T00:50:00",
        "/home/u/run",
        "/home/u/run/job.sh",
    ]
}

fn row(changes: &[(usize, &str)]) -> SqueueRow {
    let mut f = fields();
    for (i, v) in changes {
        f[*i] = v;
    }
    SqueueRow::parse_line(&f.join("|")).unwrap()
}

#[test]
fn diff_lists_changed_fields_in_field_order() {
    let p = row(&[]);
    let c = row(&[(19, "RUNNING"), (2, "n001"), (21, "2025-01-04T01:10:00")]);
    let d = p.diff(&c);
    assert_eq!(d.len(), 3);
    assert!(matches!(&d[0], FieldChange::ExecHost(Some(h)) if h == "n001"));
    assert!(matches!(&d[1], FieldChange::State(slurry::JobState::RUNNING)));
    assert!(matches!(&d[2], FieldChange::StartTime(Some(_))));
}

#[test]
fn applying_the_diff_gives_the_new_row() {
    let p = row(&[]);
    let c = row(&[(0, "acc2"), (15, "8G"), (17, "0.5"), (19, "COMPLETED"), (24, "/bin/x")]);
    let mut q = p.duplicate();
    q.apply_mut(&p.diff(&c));
    assert!(q.diff(&c).is_empty());
    assert_eq!(q.account, "acc2");
    assert_eq!(q.min_memory, "8G");
    assert_eq!(q.command, "/bin/x");
}

#[test]
fn equal_rows_have_no_diff() {
    assert!(row(&[]).diff(&row(&[])).is_empty());
}

#[test]
fn volatile_fields_make_no_diff() {
    let p = row(&[]);
    let c = row(&[(13, "23:00:00"), (16, "1:00:00")]);
    assert!(p.diff(&c).is_empty());
}

#[test]
fn command_for_each_mode() {
    assert_eq!(
        squeue_command(&SqueueMode::ALL),
        "squeue -h -a -M all -t all --format='%a|%A|%B|%c|%C|%D|%e|%E|%f|%F|%G|%i|%l|%L|%j|%m|%M|%p|%P|%T|%r|%S|%V|%Z|%o' "
    );
    assert!(squeue_command(&SqueueMode::MINE).ends_with("' --me"));
    assert!(squeue_command(&SqueueMode::JOBIDS(vec!["1".to_string(), "2".to_string()]))
        .ends_with("' -j 1,2"));
}

#[test]
fn output_skips_empty_lines_and_sets_bad_ones_aside() {
    let out = format!("{}\n\nbad|line\n{}\n", fields().join("|"), fields().join("|"));
    let (rows, bad) = parse_squeue_output(&out);
    assert_eq!(rows.len(), 2);
    assert_eq!(bad.len(), 1);
    assert_eq!(bad[0].0, "bad|line");
}

#[test]
fn first_round_writes_snapshots() {
    let mut st = PollState::new();
    let plan = squeue_diff(&mut st, &"T0".to_string(), &vec![row(&[]), row(&[(1, "101")])]);
    assert_eq!(plan.id_file, "T0.json");
    assert_eq!(plan.ids, vec!["100".to_string(), "101".to_string()]);
    assert_eq!(plan.writes.len(), 2);
    match &plan.writes[0] {
        ArchiveWrite::NewJob { job_id, file_name, record } => {
            assert_eq!(job_id, "100");
            assert_eq!(file_name, "T0.json");
            assert_eq!(record.job_id, "100");
        },
        other => panic!("unexpected {:?}", other),
    }
    assert!(plan.reappeared.is_empty());
}

#[test]
fn unchanged_round_writes_no_delta() {
    let mut st = PollState::new();
    squeue_diff(&mut st, &"T0".to_string(), &vec![row(&[])]);
    let plan = squeue_diff(&mut st, &"T1".to_string(), &vec![row(&[(13, "22:00:00"), (16, "2:00")])]);
    assert!(plan.writes.is_empty());
    assert_eq!(plan.ids, vec!["100".to_string()]);
}

#[test]
fn changed_job_gets_a_delta_against_the_last_round() {
    let mut st = PollState::new();
    squeue_diff(&mut st, &"T0".to_string(), &vec![row(&[])]);
    squeue_diff(&mut st, &"T1".to_string(), &vec![row(&[(19, "RUNNING")])]);
    let plan = squeue_diff(&mut st, &"T2".to_string(), &vec![row(&[(19, "COMPLETED")])]);
    assert_eq!(plan.writes.len(), 1);
    match &plan.writes[0] {
        ArchiveWrite::Delta { job_id, file_name, changes } => {
            assert_eq!(job_id, "100");
            assert_eq!(file_name, "DELTA-T2.json");
            assert_eq!(changes.len(), 1);
            assert!(matches!(&changes[0], FieldChange::State(slurry::JobState::COMPLETED)));
        },
        other => panic!("unexpected {:?}", other),
    }
}

#[test]
fn empty_snapshot_lists_no_ids() {
    let mut st = PollState::new();
    let plan = squeue_diff(&mut st, &"T0".to_string(), &vec![]);
    assert_eq!(plan.id_file, "T0.json");
    assert!(plan.ids.is_empty());
    assert!(plan.writes.is_empty());
}

#[test]
fn job_seen_again_after_a_gap_is_noted() {
    let mut st = PollState::new();
    squeue_diff(&mut st, &"T0".to_string(), &vec![row(&[])]);
    squeue_diff(&mut st, &"T1".to_string(), &vec![]);
    let plan = squeue_diff(&mut st, &"T2".to_string(), &vec![row(&[])]);
    assert_eq!(plan.reappeared, vec!["100".to_string()]);
    assert!(matches!(&plan.writes[0], ArchiveWrite::NewJob { .. }));
}

#[test]
fn duplicate_rows_in_one_round_are_listed_once() {
    let mut st = PollState::new();
    let plan = squeue_diff(&mut st, &"T0".to_string(), &vec![row(&[]), row(&[])]);
    assert_eq!(plan.ids, vec!["100".to_string()]);
}
