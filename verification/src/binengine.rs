//! A JavaScript engine that is an executable: the script goes to the
//! binary on its command line, and what it prints is the result.
use vstd::prelude::*;
use vstd::utf8::{decode_utf8, valid_utf8};
use crate::buffer::{from_utf8_lossy, utf8_lossy};
use crate::error::{JSError, JSErrorKind, JSErrorView, JSResult};
use crate::report::{cat2, cat3};
use crate::text::{trim, trim_ws};

verus! {

/// What `String::from_utf8` reports for bytes that are not UTF-8.
pub uninterp spec fn utf8_error_text(bytes: Seq<u8>) -> Seq<char>;

/// Decodes bytes with `String::from_utf8`: text exactly when they are
/// UTF-8, else the error's `Display` (named `utf8_error_text`).
#[verifier::external_body]
fn string_from_utf8(bytes: Vec<u8>) -> (r: Result<String, String>)
    ensures
        r is Ok == valid_utf8(bytes@),
        r matches Ok(s) ==> s@ == decode_utf8(bytes@),
        r matches Err(m) ==> m@ == utf8_error_text(bytes@),
{
    match String::from_utf8(bytes) {
        Ok(s) => Ok(s),
        Err(e) => Err(e.to_string()),
    }
}

/// An engine run by an executable at `path`.
pub struct BinEngine {
    path: String,
}

/// The error of a run, with the script's file name and source attached.
pub open spec fn run_error(kind: JSErrorKind, msg: Seq<char>, filename: Seq<char>, code: Seq<char>) -> JSErrorView {
    JSErrorView { kind, msg, filename: Some(filename), snippet: Some(code) }
}

/// The message of a run whose binary failed: its trimmed error output, or
/// its exit status when that is empty.
pub open spec fn failure_message(path: Seq<char>, status: Seq<char>, stderr: Seq<u8>) -> Seq<char> {
    let t = trim_ws(utf8_lossy(stderr));
    if t.len() == 0 {
        "toolchain binary `"@ + path + "` exited with status "@ + status
    } else {
        "toolchain binary `"@ + path + "` failed: "@ + t
    }
}

impl BinEngine {
    pub closed spec fn path_view(&self) -> Seq<char> {
        self.path@
    }

    /// An engine that runs the binary at `path`.
    pub fn new(path: String) -> (e: BinEngine)
        ensures
            e.path_view() == path@,
    {
        BinEngine { path }
    }

    pub fn path(&self) -> (p: &str)
        ensures
            p@ == self.path_view(),
    {
        self.path.as_str()
    }

    /// The arguments the binary gets: `-c`, the file name, the source.
    pub fn command_args(&self, code: &str, filename: &str) -> (args: Vec<String>)
        ensures
            args@.len() == 3,
            args@[0]@ == "-c"@,
            args@[1]@ == filename@,
            args@[2]@ == code@,
    {
        let mut args: Vec<String> = Vec::new();
        args.push("-c".to_owned());
        args.push(filename.to_owned());
        args.push(code.to_owned());
        args
    }

    /// The error when the binary could not be started.
    pub fn spawn_error(&self, cause: &str, code: &str, filename: &str) -> (e: JSError)
        ensures
            e@ == run_error(
                JSErrorKind::Internal,
                "failed to execute toolchain binary `"@ + self.path_view() + "`: "@ + cause@,
                filename@,
                code@,
            ),
    {
        let head = cat3("failed to execute toolchain binary `", self.path.as_str(), "`: ");
        let msg = cat2(head.as_str(), cause);
        JSError::internal(msg.as_str()).with_filename(filename).with_source(code)
    }

    /// The outcome of a finished run: a runtime error when the binary
    /// failed (see `failure_message`), an internal error when its output
    /// is not UTF-8, else the output as text.
    pub fn finish(
        &self,
        code: &str,
        filename: &str,
        success: bool,
        status: &str,
        stderr: &[u8],
        stdout: Vec<u8>,
    ) -> (r: Result<JSResult, JSError>)
        ensures
            !success ==> (r matches Err(e) && e@ == run_error(
                JSErrorKind::Runtime,
                failure_message(self.path_view(), status@, stderr@),
                filename@,
                code@,
            )),
            success && valid_utf8(stdout@) ==> (r matches Ok(JSResult::String(s)) && s@
                == decode_utf8(stdout@)),
            success && !valid_utf8(stdout@) ==> (r matches Err(e) && e@ == run_error(
                JSErrorKind::Internal,
                "toolchain binary `"@ + self.path_view() + "` returned invalid UTF-8 output: "@
                    + utf8_error_text(stdout@),
                filename@,
                code@,
            )),
    {
        if !success {
            let err = from_utf8_lossy(stderr);
            let t = trim(err.as_str());
            let msg = if crate::text::chars_of(t.as_str()).len() == 0 {
                let head = cat3("toolchain binary `", self.path.as_str(), "` exited with status ");
                cat2(head.as_str(), status)
            } else {
                let head = cat3("toolchain binary `", self.path.as_str(), "` failed: ");
                cat2(head.as_str(), t.as_str())
            };
            return Err(JSError::runtime(msg.as_str()).with_filename(filename).with_source(code));
        }
        match string_from_utf8(stdout) {
            Ok(s) => Ok(JSResult::String(s)),
            Err(m) => {
                let head = cat3(
                    "toolchain binary `",
                    self.path.as_str(),
                    "` returned invalid UTF-8 output: ",
                );
                let msg = cat2(head.as_str(), m.as_str());
                Err(JSError::internal(msg.as_str()).with_filename(filename).with_source(code))
            },
        }
    }
}

} // verus!
