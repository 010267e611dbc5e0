//! Running the scripts that a package manifest declares.
use vstd::prelude::*;
use crate::report::{rv, Report, ReportView};
use crate::pm::{dep_list_view, Manifest};
use crate::text::{chars_eq, chars_of, signed_decimal, signed_decimal_string};

verus! {

/// What can go wrong while running a package script.
#[derive(Debug)]
pub enum JobError {
    ReadManifest { path: String, source: String },
    MissingScript { name: String },
    SpawnScript { name: String, command: String, source: String },
    ScriptFailed { name: String, command: String, status: String },
}

/// The report that describes an error.
pub open spec fn job_error_report(e: JobError) -> ReportView {
    match e {
        JobError::ReadManifest { path, source } => rv("failed to read package.json"@, seq!["path: "@ + path@, "cause: "@ + source@]),
        JobError::MissingScript { name } => rv("script `"@ + name@ + "` is not defined"@, seq!["add it to the `scripts` section in package.json"@]),
        JobError::SpawnScript { name, command, source } => rv("failed to start script `"@ + name@ + "`"@, seq!["command: "@ + command@, "cause: "@ + source@]),
        JobError::ScriptFailed { name, command, status } => rv("script `"@ + name@ + "` failed"@, seq!["command: "@ + command@, "status: "@ + status@]),
    }
}

impl JobError {
    /// The report that describes this error.
    pub fn report(&self) -> (r: Report)
        ensures
            r@ == job_error_report(*self),
    {
        match self {
            JobError::ReadManifest { path, source } => {
                let r = Report::new("failed to read package.json");
                let mut d0 = String::new();
                d0.append("path: ");
                d0.append(path.as_str());
                let r = r.detail(d0.as_str());
                let mut d1 = String::new();
                d1.append("cause: ");
                d1.append(source.as_str());
                let r = r.detail(d1.as_str());
                proof {
                    assert(r@.details =~= seq!["path: "@ + path@, "cause: "@ + source@]);
                }
                r
            },
            JobError::MissingScript { name } => {
                let mut s = String::new();
                s.append("script `");
                s.append(name.as_str());
                s.append("` is not defined");
                let r = Report::new(s.as_str());
                let r = r.detail("add it to the `scripts` section in package.json");
                proof {
                    assert(r@.details =~= seq!["add it to the `scripts` section in package.json"@]);
                }
                r
            },
            JobError::SpawnScript { name, command, source } => {
                let mut s = String::new();
                s.append("failed to start script `");
                s.append(name.as_str());
                s.append("`");
                let r = Report::new(s.as_str());
                let mut d0 = String::new();
                d0.append("command: ");
                d0.append(command.as_str());
                let r = r.detail(d0.as_str());
                let mut d1 = String::new();
                d1.append("cause: ");
                d1.append(source.as_str());
                let r = r.detail(d1.as_str());
                proof {
                    assert(r@.details =~= seq!["command: "@ + command@, "cause: "@ + source@]);
                }
                r
            },
            JobError::ScriptFailed { name, command, status } => {
                let mut s = String::new();
                s.append("script `");
                s.append(name.as_str());
                s.append("` failed");
                let r = Report::new(s.as_str());
                let mut d0 = String::new();
                d0.append("command: ");
                d0.append(command.as_str());
                let r = r.detail(d0.as_str());
                let mut d1 = String::new();
                d1.append("status: ");
                d1.append(status.as_str());
                let r = r.detail(d1.as_str());
                proof {
                    assert(r@.details =~= seq!["command: "@ + command@, "status: "@ + status@]);
                }
                r
            },
        }
    }
}


/// The first index at or after `i` of the script named `name`, or -1.
pub open spec fn script_index(scripts: Seq<(String, String)>, name: Seq<char>, i: int) -> int
    decreases scripts.len() - i,
{
    if i < 0 || i >= scripts.len() {
        -1
    } else if scripts[i].0@ == name {
        i
    } else {
        script_index(scripts, name, i + 1)
    }
}

/// The command of the manifest's script `name`; `MissingScript` when the
/// manifest has no scripts or none of that name.
#[verifier::loop_isolation(false)]
pub fn script_command(name: &str, manifest: &Manifest) -> (r: Result<String, JobError>)
    ensures
        ({
            let k = script_index(dep_list_view(manifest.scripts), name@, 0);
            match r {
                Ok(c) => k >= 0 && c@ == dep_list_view(manifest.scripts)[k].1@,
                Err(e) => k == -1 && (e matches JobError::MissingScript { name: n } && n@ == name@),
            }
        }),
{
    let scripts = match &manifest.scripts {
        Some(s) => s,
        None => {
            return Err(JobError::MissingScript { name: name.to_owned() });
        },
    };
    let want = chars_of(name);
    let mut i: usize = 0;
    while i < scripts.len()
        invariant
            i <= scripts@.len(),
            want@ == name@,
            script_index(scripts@, name@, 0) == script_index(scripts@, name@, i as int),
        decreases scripts@.len() - i,
    {
        let have = chars_of(scripts[i].0.as_str());
        if chars_eq(have.as_slice(), want.as_slice()) {
            return Ok(scripts[i].1.clone());
        }
        i = i + 1;
    }
    Err(JobError::MissingScript { name: name.to_owned() })
}

/// A program and its arguments.
pub struct ShellCommand {
    pub program: String,
    pub args: Vec<String>,
}

/// The shell that runs a script: `cmd /C command` on Windows, else
/// `sh -c command`.
pub fn shell_command(command: &str, windows: bool) -> (c: ShellCommand)
    ensures
        windows ==> c.program@ == "cmd"@ && c.args@.len() == 2 && c.args@[0]@ == "/C"@
            && c.args@[1]@ == command@,
        !windows ==> c.program@ == "sh"@ && c.args@.len() == 2 && c.args@[0]@ == "-c"@
            && c.args@[1]@ == command@,
{
    let mut args: Vec<String> = Vec::new();
    if windows {
        args.push("/C".to_owned());
        args.push(command.to_owned());
        ShellCommand { program: "cmd".to_owned(), args }
    } else {
        args.push("-c".to_owned());
        args.push(command.to_owned());
        ShellCommand { program: "sh".to_owned(), args }
    }
}

/// How an exit status is shown: its code when it has one, else the status
/// as the platform describes it.
pub open spec fn status_text_spec(code: Option<i32>, display: Seq<char>) -> Seq<char> {
    match code {
        Some(c) => signed_decimal(c as int),
        None => display,
    }
}

pub fn status_text(code: Option<i32>, display: &str) -> (s: String)
    ensures
        s@ == status_text_spec(code, display@),
{
    match code {
        Some(c) => signed_decimal_string(c),
        None => display.to_owned(),
    }
}

/// The outcome of a finished script: `ScriptFailed` with the status unless
/// it succeeded.
pub fn script_outcome(name: &str, command: &str, success: bool, code: Option<i32>, display: &str) -> (r:
    Result<(), JobError>)
    ensures
        success ==> r is Ok,
        !success ==> (r matches Err(JobError::ScriptFailed { name: n, command: c, status }) && n@
            == name@ && c@ == command@ && status@ == status_text_spec(code, display@)),
{
    if success {
        Ok(())
    } else {
        Err(
            JobError::ScriptFailed {
                name: name.to_owned(),
                command: command.to_owned(),
                status: status_text(code, display),
            },
        )
    }
}


proof fn lemma_script_index_from(scripts: Seq<(String, String)>, name: Seq<char>, i: int)
    requires
        0 <= i,
    ensures
        script_index(scripts, name, i) == -1 || (i <= script_index(scripts, name, i) < scripts.len()
            && scripts[script_index(scripts, name, i)].0@ == name),
        forall|j: int|
            i <= j < (if script_index(scripts, name, i) == -1 {
                scripts.len() as int
            } else {
                script_index(scripts, name, i)
            }) ==> #[trigger] scripts[j].0@ != name,
    decreases scripts.len() - i,
{
    if i < scripts.len() && scripts[i].0@ != name {
        lemma_script_index_from(scripts, name, i + 1);
    }
}

/// A script is looked up by its exact name: the script found is named
/// exactly `name` and is the first so named; when none is found, no script
/// has that name. A script whose name merely begins or ends with `name` is
/// never chosen.
pub proof fn law_script_lookup_exact(scripts: Seq<(String, String)>, name: Seq<char>)
    ensures
        script_index(scripts, name, 0) >= 0 ==> script_index(scripts, name, 0) < scripts.len()
            && scripts[script_index(scripts, name, 0)].0@ == name,
        forall|j: int|
            0 <= j < scripts.len() && #[trigger] scripts[j].0@ == name ==> 0 <= script_index(
                scripts,
                name,
                0,
            ) <= j,
        script_index(scripts, name, 0) == -1 <==> forall|j: int|
            0 <= j < scripts.len() ==> #[trigger] scripts[j].0@ != name,
{
    lemma_script_index_from(scripts, name, 0);
}

} // verus!
