use slurry::assemble::OcelError;
use slurry::{
    assemble_ocel, classify_file, extract_ocel_from_slurm_diffs, extract_timestamp,
    synthesize_job, ArchiveFile, EventTime, JobArchive, Ocel, SlurmTime, SqueueRow, UtcInstant,
};

fn fields() -> Vec<&'static str> {
    vec![
        "acc1",
        "100",
        "n/a",
        "1",
        "4",
        "1",
        "N/A",
        "(null)",
        "(null)",
        "100",
        "grp",
        "100",
        "1-00:00:00",
        "INVALID",
        "job",
        "4G",
        "0:00",
        "0.00001234",
        "c23",
        "PENDING",
        "None",
        "N/A",
        "2025-01-04T00:50:00",
        "/home/u/run",
        "/home/u/run/job.sh",
    ]
}

fn row(changes: &[(usize, &str)]) -> SqueueRow {
    let mut f = fields();
    for (i, v) in changes {
        f[*i] = v;
    }
    SqueueRow::parse_line(&f.join("|")).unwrap()
}

fn at(secs: i64) -> UtcInstant {
    UtcInstant { secs, nanos: 0 }
}

fn utc(o: &Ocel, i: usize) -> i64 {
    match o.events[i].time {
        EventTime::Utc(u) => u.secs,
        EventTime::Local(_) => panic!("local time in the log"),
    }
}

fn archive(initial: SqueueRow, t0: i64, steps: Vec<(i64, SqueueRow)>) -> JobArchive {
    let mut deltas = Vec::new();
    let mut prev = initial.duplicate();
    for (t, r) in steps {
        deltas.push((at(t), prev.diff(&r)));
        prev = r;
    }
    JobArchive { initial, initial_time: at(t0), deltas }
}

fn has_object(o: &Ocel, id: &str) -> bool {
    o.objects.iter().any(|x| x.id == id)
}

#[test]
fn pending_only_job_has_a_submit_event() {
    let o = extract_ocel_from_slurm_diffs(vec![archive(row(&[]), 1000, vec![])], 3600).unwrap();
    assert_eq!(o.events.len(), 1);
    assert_eq!(o.events[0].event_type, "Submit Job");
    assert_eq!(o.events[0].id, "submit-100-0");
    assert_eq!(utc(&o, 0), 1735948200);
    assert!(has_object(&o, "100"));
    assert!(has_object(&o, "acc_acc1"));
    assert!(has_object(&o, "group_grp"));
    assert!(has_object(&o, "part_c23"));
}

#[test]
fn pending_running_completed_gives_three_events() {
    let r1 = row(&[(19, "RUNNING"), (21, "2025-01-04T01:10:00"), (2, "n001")]);
    let r2 = row(&[(19, "COMPLETED"), (21, "2025-01-04T01:10:00"), (2, "n001")]);
    let o = extract_ocel_from_slurm_diffs(vec![archive(row(&[]), 1000, vec![(2000, r1), (3000, r2)])], 3600)
        .unwrap();
    let types: Vec<&str> = o.events.iter().map(|e| e.event_type.as_str()).collect();
    assert_eq!(types, vec!["Submit Job", "Job Completed", "Job Started"]);
    let start = &o.events[2];
    assert_eq!(utc(&o, 2), 1735949400);
    assert!(start.relationships.iter().any(|r| r.object_id == "host_n001" && r.qualifier == "host"));
    assert_eq!(utc(&o, 1), 3000);
    assert_eq!(o.events[1].id, "ended-100-1");
    assert!(has_object(&o, "host_n001"));
}

#[test]
fn running_at_first_sight_starts_from_the_snapshot() {
    let r0 = row(&[(19, "RUNNING"), (21, "2025-01-04T01:00:00"), (2, "n012")]);
    let r1 = row(&[(19, "FAILED"), (21, "2025-01-04T01:00:00"), (2, "n012"), (20, "NonZeroExitCode")]);
    let o = extract_ocel_from_slurm_diffs(vec![archive(r0, 1000, vec![(2000, r1)])], 3600).unwrap();
    let types: Vec<&str> = o.events.iter().map(|e| e.event_type.as_str()).collect();
    assert_eq!(types, vec!["Submit Job", "Job Failed", "Job Started"]);
    assert_eq!(utc(&o, 2), 1735948800);
    assert_eq!(utc(&o, 1), 2000);
    assert_eq!(o.events[1].attributes[0].name, "reason");
    assert_eq!(o.events[1].attributes[0].value, "NonZeroExitCode");
    assert!(o.events[2].relationships.iter().any(|r| r.object_id == "host_n012"));
}

#[test]
fn host_appearing_later_is_related() {
    let r0 = row(&[(19, "RUNNING"), (21, "2025-01-04T01:00:00")]);
    let r1 = row(&[(19, "RUNNING"), (21, "2025-01-04T01:00:00"), (2, "n033")]);
    let o = extract_ocel_from_slurm_diffs(vec![archive(r0, 1000, vec![(2000, r1)])], 3600).unwrap();
    let job = o.objects.iter().find(|x| x.id == "100").unwrap();
    assert!(job.relationships.iter().any(|r| r.object_id == "host_n033" && r.qualifier == "executed on"));
    assert!(has_object(&o, "host_n033"));
}

#[test]
fn default_account_comes_from_the_home_directory() {
    let r0 = row(&[(0, "default"), (23, "/rwthfs/rz/cluster/home/xy001/runs/a")]);
    let o = extract_ocel_from_slurm_diffs(vec![archive(r0, 1000, vec![])], 3600).unwrap();
    assert!(o.events[0].relationships.iter().any(|r| r.object_id == "acc_xy001" && r.qualifier == "submitter"));
    assert!(has_object(&o, "acc_xy001"));
}

#[test]
fn default_account_stays_without_a_home_directory() {
    let r0 = row(&[(0, "default"), (23, "/rwthfs/rz/cluster/home/xy001")]);
    let t = synthesize_job(r0, at(1000), &vec![]);
    assert_eq!(t.accounts, vec!["default".to_string()]);
}

#[test]
fn backwards_delta_is_noted_and_replayed() {
    let r1 = row(&[(15, "8G")]);
    let r2 = row(&[(15, "16G")]);
    let a = archive(row(&[]), 5000, vec![(4000, r1), (6000, r2)]);
    let t = synthesize_job(a.initial, a.initial_time, &a.deltas);
    assert_eq!(t.backwards, vec![0]);
    let mems: Vec<_> = t.object.attributes.iter().filter(|x| x.name == "min_memory").collect();
    assert_eq!(mems.len(), 3);
}

#[test]
fn ordered_deltas_note_nothing() {
    let r1 = row(&[(15, "8G")]);
    let a = archive(row(&[]), 5000, vec![(6000, r1)]);
    let t = synthesize_job(a.initial, a.initial_time, &a.deltas);
    assert!(t.backwards.is_empty());
}

#[test]
fn replay_is_the_same_every_time() {
    let r1 = row(&[(19, "COMPLETING")]);
    let r2 = row(&[(19, "CANCELLED")]);
    let a = archive(row(&[]), 1, vec![(2, r1.duplicate()), (3, r2.duplicate())]);
    let b = archive(row(&[]), 1, vec![(2, r1), (3, r2)]);
    let ta = synthesize_job(a.initial, a.initial_time, &a.deltas);
    let tb = synthesize_job(b.initial, b.initial_time, &b.deltas);
    let ids_a: Vec<_> = ta.events.iter().map(|e| e.id.clone()).collect();
    let ids_b: Vec<_> = tb.events.iter().map(|e| e.id.clone()).collect();
    assert_eq!(ids_a, ids_b);
    assert_eq!(ids_a, vec!["submit-100-0", "ending-100-1", "cancelled-100-2"]);
}

#[test]
fn log_ids_are_unique_and_relationships_resolve() {
    let a = archive(row(&[]), 1, vec![(2, row(&[(19, "TIMEOUT")]))]);
    let b = archive(row(&[(1, "200"), (0, "acc2")]), 1, vec![(2, row(&[(1, "200"), (0, "acc2"), (19, "OUT_OF_MEMORY")]))]);
    let o = extract_ocel_from_slurm_diffs(vec![a, b], 3600).unwrap();
    let mut ids: Vec<_> = o.objects.iter().map(|x| x.id.clone()).collect();
    let n = ids.len();
    ids.sort();
    ids.dedup();
    assert_eq!(ids.len(), n);
    let mut evs: Vec<_> = o.events.iter().map(|x| x.id.clone()).collect();
    let m = evs.len();
    evs.sort();
    evs.dedup();
    assert_eq!(evs.len(), m);
    for x in o.objects.iter().flat_map(|x| x.relationships.iter()).chain(o.events.iter().flat_map(|e| e.relationships.iter())) {
        assert!(ids.contains(&x.object_id));
    }
    assert_eq!(o.object_types.len(), 5);
    assert_eq!(o.event_types.len(), 9);
}

#[test]
fn same_job_twice_is_refused() {
    let a = synthesize_job(row(&[]), at(1), &vec![]);
    let b = synthesize_job(row(&[]), at(1), &vec![]);
    assert!(matches!(assemble_ocel(vec![a, b], 3600), Err(OcelError::DuplicateObjectId(id)) if id == "100"));
}

#[test]
fn job_named_like_an_account_object_is_refused() {
    let a = synthesize_job(row(&[]), at(1), &vec![]);
    let b = synthesize_job(row(&[(1, "acc_acc1")]), at(1), &vec![]);
    assert!(matches!(assemble_ocel(vec![a, b], 3600), Err(OcelError::DuplicateObjectId(id)) if id == "acc_acc1"));
}

#[test]
fn archive_stamps_read_as_instants() {
    let t = extract_timestamp("2025-01-04T00_55_04.789009695+00_00").unwrap();
    assert_eq!(t.secs, 1735952104);
    assert_eq!(t.nanos, 789009695);
    assert!(extract_timestamp("yesterday").is_none());
    assert_eq!(slurry::archive_stamp(&at(1735952104)).unwrap(), "2025-01-04T00_55_04+00_00");
}

#[test]
fn archive_files_are_told_apart() {
    assert_eq!(classify_file("2025-01-04T00_55_04+00_00.json"), ArchiveFile::Initial(at(1735952104)));
    assert_eq!(classify_file("DELTA-2025-01-04T00_55_04+00_00.json"), ArchiveFile::Delta(at(1735952104)));
    assert_eq!(classify_file("notes.txt"), ArchiveFile::Other);
    assert_eq!(classify_file("DELTA-x.json"), ArchiveFile::Other);
}

#[test]
fn local_times_convert_with_the_offset() {
    let t = SlurmTime::parse("2025-01-04T00:00:00").unwrap();
    assert_eq!(t.to_utc(0).unwrap().secs, 1735948800);
    assert_eq!(t.to_utc(-3600).unwrap().secs, 1735952400);
}

fn bare_trace(id: &str, events: Vec<slurry::OcelEvent>, rels: Vec<slurry::ocel::Relationship>) -> slurry::JobTrace {
    slurry::JobTrace {
        object: slurry::OcelObject {
            id: id.to_string(),
            object_type: "Job".to_string(),
            attributes: vec![],
            relationships: rels,
        },
        events,
        accounts: vec![],
        groups: vec![],
        partitions: vec![],
        hosts: vec![],
        backwards: vec![],
    }
}

fn bare_event(id: &str, time: EventTime) -> slurry::OcelEvent {
    slurry::OcelEvent {
        id: id.to_string(),
        event_type: "Submit Job".to_string(),
        time,
        attributes: vec![],
        relationships: vec![],
    }
}

#[test]
fn repeated_event_id_is_refused() {
    let a = bare_trace("1", vec![bare_event("e", EventTime::Utc(at(1)))], vec![]);
    let b = bare_trace("2", vec![bare_event("e", EventTime::Utc(at(2)))], vec![]);
    assert!(matches!(assemble_ocel(vec![a, b], 0), Err(OcelError::DuplicateEventId(id)) if id == "e"));
}

#[test]
fn time_without_a_calendar_date_is_refused() {
    let bad = SlurmTime { year: 2025, month: 13, day: 1, hour: 0, minute: 0, second: 0 };
    let a = bare_trace("1", vec![bare_event("e", EventTime::Local(bad))], vec![]);
    assert!(matches!(assemble_ocel(vec![a], 0), Err(OcelError::Time(id)) if id == "e"));
}

#[test]
fn relationship_to_a_missing_object_is_refused() {
    let rel = slurry::ocel::Relationship { object_id: "acc_nobody".to_string(), qualifier: "submitted by".to_string() };
    let a = bare_trace("1", vec![], vec![rel]);
    assert!(matches!(assemble_ocel(vec![a], 0), Err(OcelError::DanglingRelationship(id)) if id == "acc_nobody"));
}

#[test]
fn empty_archive_gives_an_empty_log() {
    let o = extract_ocel_from_slurm_diffs(vec![], 3600).unwrap();
    assert!(o.objects.is_empty());
    assert!(o.events.is_empty());
    assert_eq!(o.object_types[0].name, "Job");
    assert_eq!(o.event_types[5].name, "Job Failed");
}

#[test]
fn declared_types_carry_their_attributes() {
    let o = extract_ocel_from_slurm_diffs(vec![], 3600).unwrap();
    let job: Vec<_> = o.object_types[0].attributes.iter().map(|(n, _)| n.as_str()).collect();
    assert_eq!(job, vec!["state", "command", "work_dir", "cpus", "min_memory", "priority"]);
    assert_eq!(o.event_types[5].attributes[0].0, "reason");
    assert!(o.event_types[0].attributes.is_empty());
}
