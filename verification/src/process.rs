//! What a process is given, and what it leaves behind.
use vstd::prelude::*;

verus! {

/// How long a check of a command may take, in seconds.
pub const COMMAND_TIMEOUT: u64 = 15;

/// How long an operation may take, in seconds.
pub const OPERATION_TIMEOUT: u64 = 60;

/// The variable that tells Ansible where it may keep its own temporary files.
pub const WORK_DIRECTORY_VARIABLE: &'static str = "ANSIBLE_LOCAL_TEMP";

/// A list of variables as contracts speak of it.
pub open spec fn pairs(variables: Seq<(String, String)>) -> Seq<(Seq<char>, Seq<char>)> {
    Seq::new(variables.len(), |i: int| (variables[i].0@, variables[i].1@))
}

/// The variables that are set for a run of an Ansible command, given the directory
/// in which it may work.
pub open spec fn environment(work_directory: Seq<char>) -> Seq<(Seq<char>, Seq<char>)> {
    seq![(WORK_DIRECTORY_VARIABLE@, work_directory)]
}

/// The variables that are set for a run of an Ansible command: they say where it
/// may work, and nothing else.
pub fn variables(work_directory: &str) -> (r: Vec<(String, String)>)
    ensures
        pairs(r@) == environment(work_directory@),
{
    let mut out: Vec<(String, String)> = Vec::new();
    out.push((WORK_DIRECTORY_VARIABLE.to_string(), work_directory.to_string()));
    proof {
        assert(pairs(out@) =~= environment(work_directory@));
    }
    out
}

/// Whether a process succeeded, and what it wrote.
#[derive(Debug)]
pub struct ProcessOutput {
    pub success: bool,
    pub stdout: Vec<u8>,
    pub stderr: Vec<u8>,
}

/// What a process left behind, as contracts speak of it.
pub struct Left {
    pub success: bool,
    pub stdout: Seq<u8>,
    pub stderr: Seq<u8>,
}

impl View for ProcessOutput {
    type V = Left;

    open spec fn view(&self) -> Left {
        Left { success: self.success, stdout: self.stdout@, stderr: self.stderr@ }
    }
}

/// How long things may take: a check a quarter of a minute, an operation a whole one. Nothing
/// is set for a run but the directory that it may work in.
pub proof fn law_runs_are_limited(work_directory: Seq<char>)
    ensures
        COMMAND_TIMEOUT == 15,
        OPERATION_TIMEOUT == 60,
        environment(work_directory).len() == 1,
        environment(work_directory)[0].0 == "ANSIBLE_LOCAL_TEMP"@,
        environment(work_directory)[0].1 == work_directory,
{
}

} // verus!
