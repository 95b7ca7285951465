use vstd::prelude::*;
use crate::chars::{chars_of, string_of};
use crate::markdown::append;
use crate::project::{Project, ProjectSource};

verus! {

/// Where the terminal of a project runs: a local shell in the project's
/// folder, or an SSH session on the project's host in its folder there.
#[derive(Clone, Debug, PartialEq, Eq)]
pub enum TerminalLaunch {
    Local { cwd: String },
    Remote { host: String, cwd: String },
}

impl TerminalLaunch {
    /// The terminal for a project: local projects open a local shell in
    /// their folder; remote ones an SSH session with `host` and `cwd`, the
    /// host and folder as the SSH validation accepted them, whose refusal is
    /// passed on.
    pub fn for_project(
        project: &Project,
        host: Result<String, String>,
        cwd: Result<String, String>,
    ) -> (launch: Result<TerminalLaunch, String>)
        ensures
            match project.source {
                ProjectSource::Local => launch matches Ok(TerminalLaunch::Local { cwd: c }) && c@ == project.path@,
                ProjectSource::Remote { .. } => match (host, cwd) {
                    (Err(e), _) => launch matches Err(x) && x@ == e@,
                    (Ok(_), Err(e)) => launch matches Err(x) && x@ == e@,
                    (Ok(h), Ok(c)) => launch matches Ok(TerminalLaunch::Remote { host: lh, cwd: lc })
                        && lh@ == h@ && lc@ == c@,
                },
            },
    {
        match &project.source {
            ProjectSource::Local => Ok(TerminalLaunch::Local { cwd: project.path.clone() }),
            ProjectSource::Remote { .. } => {
                let host = match host {
                    Ok(h) => h,
                    Err(e) => return Err(e),
                };
                let cwd = match cwd {
                    Ok(c) => c,
                    Err(e) => return Err(e),
                };
                Ok(TerminalLaunch::Remote { host, cwd })
            },
        }
    }

    /// Where the terminal runs, as the panel shows it: the folder, prefixed
    /// by the host and a colon for an SSH session.
    pub fn cwd_label(&self) -> (label: String)
        ensures
            label@ == match self {
                TerminalLaunch::Local { cwd } => cwd@,
                TerminalLaunch::Remote { host, cwd } => host@ + ":"@ + cwd@,
            },
    {
        match self {
            TerminalLaunch::Local { cwd } => cwd.clone(),
            TerminalLaunch::Remote { host, cwd } => {
                let mut out = chars_of(host.as_str());
                append(&mut out, &chars_of(":"));
                append(&mut out, &chars_of(cwd.as_str()));
                string_of(&out)
            },
        }
    }
}

/// The SSH invocation of a remote terminal: the program, its arguments
/// (`-tt`, the host, and a script that enters the folder, given already
/// quoted for the remote shell, and starts the user's login shell, `/bin/sh`
/// by default) and the label the panel shows.
pub open spec fn remote_terminal_command(host: Seq<char>, quoted_cwd: Seq<char>) -> (Seq<char>, Seq<Seq<char>>, Seq<char>) {
    (
        "ssh"@,
        seq!["-tt"@, host, "cd -- "@ + quoted_cwd + " && exec \"${SHELL:-/bin/sh}\" -l"@],
        "ssh "@ + host,
    )
}

/// The SSH invocation of a remote terminal (see `remote_terminal_command`).
pub fn remote_terminal_args(host: &str, quoted_cwd: &str) -> (command: (String, Vec<String>, String))
    ensures
        (command.0@, command.2@) == (remote_terminal_command(host@, quoted_cwd@).0, remote_terminal_command(host@, quoted_cwd@).2),
        command.1@.map_values(|a: String| a@) == remote_terminal_command(host@, quoted_cwd@).1,
{
    let mut script = chars_of("cd -- ");
    append(&mut script, &chars_of(quoted_cwd));
    append(&mut script, &chars_of(" && exec \"${SHELL:-/bin/sh}\" -l"));
    let mut args: Vec<String> = Vec::new();
    args.push(string_of(&chars_of("-tt")));
    args.push(string_of(&chars_of(host)));
    args.push(string_of(&script));
    let mut label = chars_of("ssh ");
    append(&mut label, &chars_of(host));
    assert(args@.map_values(|a: String| a@) =~= remote_terminal_command(host@, quoted_cwd@).1);
    (string_of(&chars_of("ssh")), args, string_of(&label))
}

} // verus!
