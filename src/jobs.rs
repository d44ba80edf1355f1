//! Submitting jobs: the commands that prepare a job's directory, its batch
//! script and its submission, the job id in `sbatch`'s answer, and a job's
//! status from a listing.
use vstd::prelude::*;

use crate::archive::row_views;
use crate::row::{RowModel, SqueueRow};
use crate::state::{JobState, StateModel};
use crate::text::{
    after_last, after_last_of, concat, decimal, owned, push_char, push_decimal, push_decimal_usize,
    push_str_of,
};
use crate::time::SlurmTime;

verus! {

/// A file to upload before a job starts.
#[derive(Debug, Clone, Hash, PartialEq, Eq)]
pub struct JobFilesToUpload {
    /// Where the file is on this machine.
    pub local_path: String,
    /// The directory under the job's folder to put it in; created as needed.
    pub remote_subpath: String,
    /// The name to give it there.
    pub remote_file_name: String,
}

/// A network port on the node that runs a job, forwarded to this machine via a
/// relay that SSH reaches.
#[derive(Debug, Clone, Hash, PartialEq, Eq)]
pub struct JobLocalForwarding {
    /// The port on this machine.
    pub local_port: u16,
    /// The port on the relay.
    pub relay_port: u16,
    /// The relay's address, such as the login node.
    pub relay_addr: String,
}

/// What a new job needs.
#[derive(Debug, Clone, PartialEq, Eq)]
pub struct JobOptions {
    /// The directory under which the job gets a folder of its own.
    pub root_dir: String,
    /// The files to upload first, each once.
    pub files_to_upload: Vec<JobFilesToUpload>,
    /// CPUs per task (`--cpus-per-task`).
    pub num_cpus: usize,
    /// The time limit (`--time`).
    pub time: String,
    /// The shell command to run.
    pub command: String,
    /// A port to forward, if any.
    pub local_forwarding: Option<JobLocalForwarding>,
}

/// `root/folder`.
pub open spec fn job_dir(root: Seq<char>, folder: Seq<char>) -> Seq<char> {
    root + seq!['/'] + folder
}

/// The command that creates the job's folder.
pub open spec fn mkdir_text(root: Seq<char>, folder: Seq<char>) -> Seq<char> {
    "mkdir -p '"@ + job_dir(root, folder) + "'"@
}

/// The command that creates the directory of an uploaded file.
pub open spec fn upload_dir_text(root: Seq<char>, folder: Seq<char>, sub: Seq<char>) -> Seq<char> {
    "mkdir -p '"@ + job_dir(root, folder) + seq!['/'] + sub + "'"@
}

/// Where an uploaded file goes.
pub open spec fn upload_target_text(
    root: Seq<char>,
    folder: Seq<char>,
    sub: Seq<char>,
    name: Seq<char>,
) -> Seq<char> {
    job_dir(root, folder) + seq!['/'] + sub + seq!['/'] + name
}

/// The command that forwards the port, or nothing.
pub open spec fn forwarding_text(local: u16, relay: u16, addr: Seq<char>) -> Seq<char> {
    "ssh -N -f -R "@ + decimal(relay as nat) + ":localhost:"@ + decimal(local as nat) + seq![' ']
        + addr
}

/// The command that writes the batch script `start.sh` in the job's folder.
pub open spec fn script_text(
    root: Seq<char>,
    folder: Seq<char>,
    cpus: nat,
    time: Seq<char>,
    forwarding: Seq<char>,
    command: Seq<char>,
) -> Seq<char> {
    "cd "@ + job_dir(root, folder) + " &&\n    echo '#!/usr/bin/zsh\n### Job Parameters\n#SBATCH --ntasks=1\n#SBATCH --cpus-per-task="@
        + decimal(cpus) + "\n#SBATCH --time="@ + time + "\n#SBATCH --job-name="@ + folder
        + "  # Sets the job name\n#SBATCH --output=stdout.txt     # redirects stdout and stderr to stdout.txt\n\n### Program Code\n"@
        + forwarding + seq!['\n'] + command + "' > start.sh && chmod +x start.sh"@
}

/// The command that submits the job.
pub open spec fn sbatch_text(root: Seq<char>, folder: Seq<char>) -> Seq<char> {
    "cd "@ + job_dir(root, folder) + " && sbatch start.sh"@
}

fn dir_of(root: &String, folder: &String) -> (r: String)
    ensures
        r@ == job_dir(root@, folder@),
{
    let mut r = root.clone();
    push_char(&mut r, '/');
    push_str_of(&mut r, folder);
    r
}

/// The command that creates the job's folder `root/folder`.
pub fn mkdir_command(root: &String, folder: &String) -> (r: String)
    ensures
        r@ == mkdir_text(root@, folder@),
{
    let mut r = concat("mkdir -p '", &dir_of(root, folder));
    push_str_of(&mut r, &owned("'"));
    r
}

/// The command that creates the directory that `file` goes to.
pub fn upload_dir_command(root: &String, folder: &String, file: &JobFilesToUpload) -> (r: String)
    ensures
        r@ == upload_dir_text(root@, folder@, file.remote_subpath@),
{
    let mut r = concat("mkdir -p '", &dir_of(root, folder));
    push_char(&mut r, '/');
    push_str_of(&mut r, &file.remote_subpath);
    push_str_of(&mut r, &owned("'"));
    r
}

/// The remote path that `file` is uploaded to.
pub fn upload_target(root: &String, folder: &String, file: &JobFilesToUpload) -> (r: String)
    ensures
        r@ == upload_target_text(root@, folder@, file.remote_subpath@, file.remote_file_name@),
{
    let mut r = dir_of(root, folder);
    push_char(&mut r, '/');
    push_str_of(&mut r, &file.remote_subpath);
    push_char(&mut r, '/');
    push_str_of(&mut r, &file.remote_file_name);
    r
}

/// The command that forwards the port, or an empty one.
pub fn forwarding_command(f: &Option<JobLocalForwarding>) -> (r: String)
    ensures
        r@ == match f {
            Some(x) => forwarding_text(x.local_port, x.relay_port, x.relay_addr@),
            None => Seq::<char>::empty(),
        },
{
    match f {
        Some(x) => {
            let mut r = owned("ssh -N -f -R ");
            push_decimal(&mut r, x.relay_port as u64);
            push_str_of(&mut r, &owned(":localhost:"));
            push_decimal(&mut r, x.local_port as u64);
            push_char(&mut r, ' ');
            push_str_of(&mut r, &x.relay_addr);
            r
        },
        None => String::new(),
    }
}

/// The command that writes the job's batch script into `root/folder`.
pub fn job_script_command(opts: &JobOptions, folder: &String) -> (r: String)
    ensures
        r@ == script_text(
            opts.root_dir@,
            folder@,
            opts.num_cpus as nat,
            opts.time@,
            match opts.local_forwarding {
                Some(x) => forwarding_text(x.local_port, x.relay_port, x.relay_addr@),
                None => Seq::<char>::empty(),
            },
            opts.command@,
        ),
{
    let mut r = concat("cd ", &dir_of(&opts.root_dir, folder));
    push_str_of(
        &mut r,
        &owned(
            " &&\n    echo '#!/usr/bin/zsh\n### Job Parameters\n#SBATCH --ntasks=1\n#SBATCH --cpus-per-task=",
        ),
    );
    push_decimal_usize(&mut r, opts.num_cpus);
    push_str_of(&mut r, &owned("\n#SBATCH --time="));
    push_str_of(&mut r, &opts.time);
    push_str_of(&mut r, &owned("\n#SBATCH --job-name="));
    push_str_of(&mut r, folder);
    push_str_of(
        &mut r,
        &owned(
            "  # Sets the job name\n#SBATCH --output=stdout.txt     # redirects stdout and stderr to stdout.txt\n\n### Program Code\n",
        ),
    );
    push_str_of(&mut r, &forwarding_command(&opts.local_forwarding));
    push_char(&mut r, '\n');
    push_str_of(&mut r, &opts.command);
    push_str_of(&mut r, &owned("' > start.sh && chmod +x start.sh"));
    r
}

/// The command that submits the job in `root/folder`.
pub fn sbatch_command(root: &String, folder: &String) -> (r: String)
    ensures
        r@ == sbatch_text(root@, folder@),
{
    let mut r = concat("cd ", &dir_of(root, folder));
    push_str_of(&mut r, &owned(" && sbatch start.sh"));
    r
}

/// The job id in `sbatch`'s answer: what follows its last space.
pub fn job_id_from_sbatch(stdout: &str) -> (r: String)
    ensures
        r@ == after_last(stdout@, ' '),
{
    after_last_of(stdout, ' ')
}

/// Where a submitted job stands.
#[allow(non_camel_case_types)]
#[derive(Debug)]
pub enum JobStatus {
    /// The job waits, with its expected start where known.
    PENDING { start_time: Option<SlurmTime> },
    /// The job runs.
    RUNNING { start_time: Option<SlurmTime>, end_time: Option<SlurmTime> },
    /// The job ended in this state.
    ENDED { state: JobState },
    /// The listing does not hold the job.
    NotFound,
}

pub enum StatusModel {
    Pending { start_time: Option<SlurmTime> },
    Running { start_time: Option<SlurmTime>, end_time: Option<SlurmTime> },
    Ended { state: StateModel },
    NotFound,
}

impl View for JobStatus {
    type V = StatusModel;

    open spec fn view(&self) -> StatusModel {
        match self {
            JobStatus::PENDING { start_time } => StatusModel::Pending { start_time: *start_time },
            JobStatus::RUNNING { start_time, end_time } => StatusModel::Running {
                start_time: *start_time,
                end_time: *end_time,
            },
            JobStatus::ENDED { state } => StatusModel::Ended { state: state@ },
            JobStatus::NotFound => StatusModel::NotFound,
        }
    }
}

/// The status that the first row of a listing gives.
pub open spec fn status_of(rows: Seq<RowModel>) -> StatusModel {
    if rows.len() == 0 {
        StatusModel::NotFound
    } else {
        let j = rows[0];
        match j.state {
            StateModel::Pending => StatusModel::Pending { start_time: j.start_time },
            StateModel::Running => StatusModel::Running {
                start_time: j.start_time,
                end_time: j.end_time,
            },
            s => StatusModel::Ended { state: s },
        }
    }
}

/// The status of a job from the listing of its id.
pub fn job_status_from_rows(rows: &Vec<SqueueRow>) -> (r: JobStatus)
    ensures
        r@ == status_of(row_views(rows@)),
{
    if rows.len() == 0 {
        return JobStatus::NotFound;
    }
    let j = &rows[0];
    match &j.state {
        JobState::PENDING => JobStatus::PENDING { start_time: j.start_time },
        JobState::RUNNING => JobStatus::RUNNING { start_time: j.start_time, end_time: j.end_time },
        s => JobStatus::ENDED { state: s.duplicate() },
    }
}

} // verus!
