use slurry::index::StringIndex;
use slurry::jobs::{
    forwarding_command, job_id_from_sbatch, job_script_command, job_status_from_rows,
    mkdir_command, sbatch_command, upload_dir_command, upload_target,
};
use slurry::{
    loop_step, ConnectionAuth, ConnectionConfig, JobFilesToUpload, JobLocalForwarding,
    JobOptions, JobState, JobStatus, LoopAction, LoopEvent, LoopState, SqueueRow,
};

#[test]
fn loop_starts_sleeps_and_runs_again() {
    let (s, a) = loop_step(LoopState::Idle, LoopEvent::Start { interval: 2 });
    assert_eq!(a, LoopAction::RunRound);
    let (s, a) = loop_step(s, LoopEvent::RoundDone);
    assert_eq!(a, LoopAction::SleepOneSecond);
    assert_eq!(s, LoopState::Running { round: 1, interval: 2, slept: 0 });
    let (s, a) = loop_step(s, LoopEvent::SecondPassed);
    assert_eq!(a, LoopAction::SleepOneSecond);
    let (s, a) = loop_step(s, LoopEvent::SecondPassed);
    assert_eq!(a, LoopAction::RunRound);
    assert_eq!(s, LoopState::Running { round: 1, interval: 2, slept: 2 });
}

#[test]
fn loop_rejects_a_second_start() {
    let (s, _) = loop_step(LoopState::Idle, LoopEvent::Start { interval: 5 });
    let (s2, a) = loop_step(s, LoopEvent::Start { interval: 9 });
    assert_eq!(a, LoopAction::Reject);
    assert_eq!(s2, s);
}

#[test]
fn loop_stops_on_cancel_and_on_lost_session() {
    let (s, _) = loop_step(LoopState::Idle, LoopEvent::Start { interval: 5 });
    assert_eq!(loop_step(s, LoopEvent::Cancel), (LoopState::Idle, LoopAction::Stop));
    assert_eq!(loop_step(s, LoopEvent::FetcherGone), (LoopState::Idle, LoopAction::Stop));
    assert_eq!(loop_step(LoopState::Idle, LoopEvent::Cancel), (LoopState::Idle, LoopAction::Reject));
}

fn options() -> JobOptions {
    JobOptions {
        root_dir: "hpc_experiments".to_string(),
        files_to_upload: vec![JobFilesToUpload {
            local_path: "/tmp/server".to_string(),
            remote_subpath: "bin".to_string(),
            remote_file_name: "server".to_string(),
        }],
        num_cpus: 12,
        time: "0-00:01:00".to_string(),
        command: "./server".to_string(),
        local_forwarding: Some(JobLocalForwarding {
            local_port: 3000,
            relay_port: 3001,
            relay_addr: "login23-1".to_string(),
        }),
    }
}

#[test]
fn job_commands() {
    let o = options();
    let folder = "F".to_string();
    assert_eq!(mkdir_command(&o.root_dir, &folder), "mkdir -p 'hpc_experiments/F'");
    assert_eq!(upload_dir_command(&o.root_dir, &folder, &o.files_to_upload[0]), "mkdir -p 'hpc_experiments/F/bin'");
    assert_eq!(upload_target(&o.root_dir, &folder, &o.files_to_upload[0]), "hpc_experiments/F/bin/server");
    assert_eq!(forwarding_command(&o.local_forwarding), "ssh -N -f -R 3001:localhost:3000 login23-1");
    assert_eq!(forwarding_command(&None), "");
    assert_eq!(sbatch_command(&o.root_dir, &folder), "cd hpc_experiments/F && sbatch start.sh");
    let script = job_script_command(&o, &folder);
    assert!(script.starts_with("cd hpc_experiments/F &&\n    echo '#!/usr/bin/zsh\n"));
    assert!(script.contains("#SBATCH --cpus-per-task=12\n"));
    assert!(script.contains("#SBATCH --time=0-00:01:00\n"));
    assert!(script.contains("#SBATCH --job-name=F  # Sets the job name\n"));
    assert!(script.ends_with("ssh -N -f -R 3001:localhost:3000 login23-1\n./server' > start.sh && chmod +x start.sh"));
}

#[test]
fn job_id_is_the_last_word_of_the_answer() {
    assert_eq!(job_id_from_sbatch("Submitted batch job 12345"), "12345");
    assert_eq!(job_id_from_sbatch("nospace"), "nospace");
}

fn listed(state: &str) -> SqueueRow {
    let f = vec![
        "a", "7", "n/a", "1", "1", "1", "N/A", "(null)", "(null)", "7", "g", "7", "5", "INVALID",
        "n", "1G", "0:00", "1", "p", state, "None", "2025-01-04T01:00:00", "2025-01-04T00:50:00",
        "/w", "/c",
    ];
    SqueueRow::parse_line(&f.join("|")).unwrap()
}

#[test]
fn job_status_from_a_listing() {
    assert!(matches!(job_status_from_rows(&vec![]), JobStatus::NotFound));
    assert!(matches!(job_status_from_rows(&vec![listed("PENDING")]), JobStatus::PENDING { start_time: Some(_) }));
    assert!(matches!(job_status_from_rows(&vec![listed("RUNNING")]), JobStatus::RUNNING { start_time: Some(_), end_time: None }));
    assert!(matches!(job_status_from_rows(&vec![listed("FAILED")]), JobStatus::ENDED { state: JobState::FAILED }));
}

#[test]
fn connection_builders() {
    let c = ConnectionConfig::default();
    assert_eq!(c.host, (String::new(), 22));
    let c = c
        .with_host(("login".to_string(), 2222))
        .with_username("me".to_string())
        .with_auth(ConnectionAuth::SSHKey { path: "/k".to_string(), passphrase: None });
    assert_eq!(c.host.1, 2222);
    assert_eq!(c.username, "me");
    assert!(matches!(c.auth, ConnectionAuth::SSHKey { .. }));
    let d = ConnectionConfig::new(("h".to_string(), 22), "u".to_string(), ConnectionAuth::PasswordMFA { password: "p".to_string(), mfa_code: "1".to_string() });
    assert_eq!(d.username, "u");
}

#[test]
fn string_index_keeps_each_string_once() {
    let mut idx = StringIndex::new();
    assert!(idx.insert("a".to_string()));
    assert!(idx.insert("b".to_string()));
    assert!(!idx.insert("a".to_string()));
    assert_eq!(idx.len(), 2);
    assert_eq!(idx.position(&"b".to_string()), Some(1));
    assert_eq!(idx.position(&"c".to_string()), None);
}
