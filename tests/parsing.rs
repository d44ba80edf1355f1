use slurry::duration::DurationError;
use slurry::{
    format_duration, parse_slurm_duration, JobState, Priority, RowError, SlurmTime, SqueueRow,
};

fn base_fields() -> Vec<&'static str> {
    vec![
        "acc1",
        "100",
        "n/a",
        "1",
        "4",
        "1",
        "N/A",
        "(null)",
        "(null)",
        "100",
        "grp",
        "100",
        "1-00:00:00",
        "INVALID",
        "job",
        "4G",
        "0:00",
        "0.00001234",
        "c23",
        "PENDING",
        "None",
        "N/A",
        "2025-01-04T00:50:00",
        "/home/u/run",
        "/home/u/run/job.sh",
    ]
}

fn line_with(changes: &[(usize, &str)]) -> String {
    let mut f = base_fields();
    for (i, v) in changes {
        f[*i] = v;
    }
    f.join("|")
}

#[test]
fn duration_with_days_hours_minutes_seconds() {
    assert_eq!(parse_slurm_duration("1-02:03:04"), Ok(93784));
}

#[test]
fn duration_hours_minutes_seconds_takes_seconds_from_third_part() {
    assert_eq!(parse_slurm_duration("1:02:03"), Ok(3723));
}

#[test]
fn duration_minutes_seconds() {
    assert_eq!(parse_slurm_duration("30:00"), Ok(1800));
}

#[test]
fn duration_bare_number_is_minutes() {
    assert_eq!(parse_slurm_duration("5"), Ok(300));
}

#[test]
fn duration_bare_number_after_days_is_hours() {
    assert_eq!(parse_slurm_duration("2-3"), Ok(2 * 86400 + 3 * 3600));
}

#[test]
fn duration_rejects_other_forms() {
    assert_eq!(parse_slurm_duration("UNLIMITED"), Err(DurationError::InvalidFormat));
    assert_eq!(parse_slurm_duration("1-2-3"), Err(DurationError::InvalidFormat));
    assert_eq!(parse_slurm_duration("1:2:3:4"), Err(DurationError::InvalidFormat));
    assert_eq!(parse_slurm_duration(""), Err(DurationError::InvalidFormat));
    assert_eq!(parse_slurm_duration("1-02:03"), Err(DurationError::InvalidFormat));
}

#[test]
fn duration_too_long_overflows() {
    assert_eq!(parse_slurm_duration("213503982334602-00:00:00"), Err(DurationError::Overflow));
}

#[test]
fn duration_writes_and_reads_back() {
    assert_eq!(format_duration(93784), "1-02:03:04");
    assert_eq!(parse_slurm_duration(&format_duration(93784)), Ok(93784));
    assert_eq!(format_duration(59), "0-00:00:59");
}

#[test]
fn state_names() {
    assert!(matches!(JobState::from_str("RUNNING"), Ok(JobState::RUNNING)));
    assert!(matches!(JobState::from_str("NODE_FAIL"), Ok(JobState::NODE_FAIL)));
    match JobState::from_str("PREEMPTED") {
        Ok(JobState::OTHER(s)) => assert_eq!(s, "PREEMPTED"),
        other => panic!("unexpected {:?}", other),
    }
    assert_eq!(JobState::OUT_OF_MEMORY.name(), "OUT_OF_MEMORY");
}

#[test]
fn scheduler_time_reads_and_writes() {
    let t = SlurmTime::parse("2025-01-04T00:50:00").unwrap();
    assert_eq!((t.year, t.month, t.day, t.hour, t.minute, t.second), (2025, 1, 4, 0, 50, 0));
    assert_eq!(t.format(), "2025-01-04T00:50:00");
    assert!(SlurmTime::parse("2025-02-30T00:00:00").is_none());
    assert!(SlurmTime::parse("2024-02-29T23:59:59").is_some());
    assert!(SlurmTime::parse("2025-01-04 00:50:00").is_none());
}

#[test]
fn scheduler_time_in_utc() {
    let t = SlurmTime::parse("2025-01-04T00:50:00").unwrap();
    let u = t.to_utc(3600).unwrap();
    assert_eq!(u.secs, 1735948200);
    assert_eq!(u.nanos, 0);
}

#[test]
fn priority_reads_exactly() {
    let p = Priority::parse("0.00001234").unwrap();
    assert_eq!((p.mantissa, p.scale), (1234, 8));
    assert_eq!(p.format(), "0.00001234");
    let q = Priority::parse("1.50").unwrap();
    assert_eq!((q.mantissa, q.scale), (15, 1));
    assert_eq!(Priority::parse("1.5"), Priority::parse("1.500"));
    assert_eq!(Priority::parse("7").unwrap().format(), "7");
    assert!(Priority::parse("abc").is_none());
    assert!(Priority::parse("1.2.3").is_none());
    assert!(Priority::parse("").is_none());
}

#[test]
fn row_reads_fields_and_sentinels() {
    let row = SqueueRow::parse_line(&line_with(&[])).unwrap();
    assert_eq!(row.account, "acc1");
    assert_eq!(row.job_id, "100");
    assert_eq!(row.exec_host, None);
    assert_eq!(row.cpus, 4);
    assert_eq!(row.end_time, None);
    assert_eq!(row.dependency, None);
    assert_eq!(row.time_limit, Some(86400));
    assert_eq!(row.time_left, None);
    assert_eq!(row.time, Some(0));
    assert!(matches!(row.state, JobState::PENDING));
    assert_eq!(row.start_time, None);
    assert_eq!(row.step_job_id, ("100".to_string(), None));
}

#[test]
fn row_reads_step_ids() {
    let row = SqueueRow::parse_line(&line_with(&[(11, "49616001_[3-10%1]")])).unwrap();
    assert_eq!(row.step_job_id, ("49616001".to_string(), Some("[3-10%1]".to_string())));
    let row = SqueueRow::parse_line(&line_with(&[(11, "49869434_2")])).unwrap();
    assert_eq!(row.step_job_id, ("49869434".to_string(), Some("2".to_string())));
}

#[test]
fn row_with_bad_duration_keeps_it_absent() {
    let row = SqueueRow::parse_line(&line_with(&[(12, "UNLIMITED")])).unwrap();
    assert_eq!(row.time_limit, None);
}

#[test]
fn row_errors_name_the_field() {
    assert_eq!(SqueueRow::parse_line("a|b|c").err(), Some(RowError::FieldCount));
    assert_eq!(SqueueRow::parse_line(&line_with(&[(3, "x")])).err(), Some(RowError::MinCpus));
    assert_eq!(SqueueRow::parse_line(&line_with(&[(4, "-1")])).err(), Some(RowError::Cpus));
    assert_eq!(SqueueRow::parse_line(&line_with(&[(5, "")])).err(), Some(RowError::Nodes));
    assert_eq!(SqueueRow::parse_line(&line_with(&[(6, "soon")])).err(), Some(RowError::EndTime));
    assert_eq!(SqueueRow::parse_line(&line_with(&[(17, "high")])).err(), Some(RowError::Priority));
    assert_eq!(SqueueRow::parse_line(&line_with(&[(21, "x")])).err(), Some(RowError::StartTime));
    assert_eq!(SqueueRow::parse_line(&line_with(&[(22, "N/A")])).err(), Some(RowError::SubmitTime));
}

#[test]
fn row_from_strs() {
    let f = base_fields();
    let row = SqueueRow::parse_from_strs(&f).unwrap();
    assert_eq!(row.group, "grp");
    assert_eq!(SqueueRow::parse_from_strs(&f[..24]).err(), Some(RowError::FieldCount));
}

#[test]
fn row_round_trip_through_line() {
    let line = line_with(&[
        (2, "n001"),
        (6, "2025-01-05T00:00:00"),
        (7, "afterok:99"),
        (11, "100_2"),
        (19, "RUNNING"),
        (21, "2025-01-04T01:10:00"),
    ]);
    let row = SqueueRow::parse_line(&line).unwrap();
    let again = SqueueRow::parse_line(&row.format_line()).unwrap();
    assert_eq!(again.exec_host, row.exec_host);
    assert_eq!(again.end_time, row.end_time);
    assert_eq!(again.dependency, row.dependency);
    assert_eq!(again.step_job_id, row.step_job_id);
    assert_eq!(again.time_limit, row.time_limit);
    assert_eq!(again.priority, row.priority);
    assert!(again.state.same_as(&row.state));
    assert_eq!(again.start_time, row.start_time);
    assert_eq!(again.submit_time, row.submit_time);
    assert!(row.diff(&again).is_empty());
}

#[test]
fn scheduler_time_accepts_what_chrono_reads() {
    let t = SlurmTime::parse("2025-1-4T0:5:0").unwrap();
    assert_eq!((t.year, t.month, t.day, t.hour, t.minute, t.second), (2025, 1, 4, 0, 5, 0));
    assert!(SlurmTime::parse("12025-01-04T00:00:00").is_none());
    assert!(t.is_valid());
    assert!(!SlurmTime { year: 2025, month: 2, day: 29, hour: 0, minute: 0, second: 0 }.is_valid());
}
