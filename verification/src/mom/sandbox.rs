//! Where the bot runs commands: on the host or inside a Docker container.

use vstd::prelude::*;

verus! {

broadcast use vstd::string::group_string_axioms;

/// The environment commands run in.
#[derive(Debug, Clone)]
pub enum SandboxConfig {
    /// Directly on the host.
    Host,
    /// Inside the running container `name`.
    Docker { name: String },
}

impl Default for SandboxConfig {
    /// Commands run on the host unless configured otherwise.
    fn default() -> (r: Self)
        ensures
            r is Host,
    {
        SandboxConfig::Host
    }
}

/// The program to start for a command and its arguments, and the directory
/// it runs in (on the host, the process's working directory; in Docker,
/// the container's).
pub struct SandboxCommand {
    pub program: String,
    pub args: Vec<String>,
    /// The working directory to start the program in, for a host command.
    pub current_dir: Option<String>,
}

/// The argument list of a Docker command: `exec -w <cwd> <name> bash -c <command>`.
pub open spec fn docker_args(name: Seq<char>, command: Seq<char>, cwd: Seq<char>) -> Seq<Seq<char>> {
    seq!["exec"@, "-w"@, cwd, name, "bash"@, "-c"@, command]
}

/// How a command is started in a sandbox: `bash -c <command>` in `cwd` on
/// the host, `docker exec -w <cwd> <name> bash -c <command>` in Docker.
pub fn sandbox_command(config: &SandboxConfig, command: &str, cwd: &str) -> (r: SandboxCommand)
    ensures
        match *config {
            SandboxConfig::Host => r.program@ == "bash"@ && crate::order::views_of(r.args@) == seq![
                "-c"@,
                command@,
            ] && crate::paths::opt_str_view(r.current_dir) == Some(cwd@),
            SandboxConfig::Docker { name } => r.program@ == "docker"@ && crate::order::views_of(r.args@)
                == docker_args(name@, command@, cwd@) && r.current_dir is None,
        },
{
    match config {
        SandboxConfig::Host => {
            let args = vec!["-c".to_string(), command.to_string()];
            assert(crate::order::views_of(args@) =~= seq!["-c"@, command@]);
            SandboxCommand { program: "bash".to_string(), args, current_dir: Some(cwd.to_string()) }
        },
        SandboxConfig::Docker { name } => {
            let args = vec![
                "exec".to_string(),
                "-w".to_string(),
                cwd.to_string(),
                name.as_str().to_string(),
                "bash".to_string(),
                "-c".to_string(),
                command.to_string(),
            ];
            assert(crate::order::views_of(args@) =~= docker_args(name@, command@, cwd@));
            SandboxCommand { program: "docker".to_string(), args, current_dir: None }
        },
    }
}

} // verus!
