//! Errors raised while running JavaScript, and how they are rendered.
use vstd::prelude::*;
use crate::text::{chars_of, is_ws, string_of, trim_chars, trim_ws};

verus! {

/// What a script run produced.
pub enum JSResult {
    String(String),
}

/// The stage at which a script failed.
#[derive(Debug, Clone, Copy, PartialEq, Eq, Structural)]
pub enum JSErrorKind {
    Execution,
    Compile,
    Runtime,
    Internal,
}

/// A failure of a script run, with an optional file name and source snippet.
#[derive(Debug)]
pub struct JSError {
    kind: JSErrorKind,
    msg: String,
    filename: Option<String>,
    snippet: Option<String>,
}

pub open spec fn opt_view(o: Option<String>) -> Option<Seq<char>> {
    match o {
        Some(s) => Some(s@),
        None => None,
    }
}

/// The abstract content of a `JSError`.
pub struct JSErrorView {
    pub kind: JSErrorKind,
    pub msg: Seq<char>,
    pub filename: Option<Seq<char>>,
    pub snippet: Option<Seq<char>>,
}

impl View for JSError {
    type V = JSErrorView;

    closed spec fn view(&self) -> JSErrorView {
        JSErrorView {
            kind: self.kind,
            msg: self.msg@,
            filename: opt_view(self.filename),
            snippet: opt_view(self.snippet),
        }
    }
}

impl JSError {
    /// An execution error with the given message and nothing else.
    pub fn new(msg: &str) -> (e: JSError)
        ensures
            e@ == (JSErrorView { kind: JSErrorKind::Execution, msg: msg@, filename: None, snippet: None }),
    {
        JSError { kind: JSErrorKind::Execution, msg: msg.to_owned(), filename: None, snippet: None }
    }

    /// A compile error with the given message.
    pub fn compile(msg: &str) -> (e: JSError)
        ensures
            e@ == (JSErrorView { kind: JSErrorKind::Compile, msg: msg@, filename: None, snippet: None }),
    {
        Self::new(msg).with_kind(JSErrorKind::Compile)
    }

    /// A runtime error with the given message.
    pub fn runtime(msg: &str) -> (e: JSError)
        ensures
            e@ == (JSErrorView { kind: JSErrorKind::Runtime, msg: msg@, filename: None, snippet: None }),
    {
        Self::new(msg).with_kind(JSErrorKind::Runtime)
    }

    /// An internal error with the given message.
    pub fn internal(msg: &str) -> (e: JSError)
        ensures
            e@ == (JSErrorView { kind: JSErrorKind::Internal, msg: msg@, filename: None, snippet: None }),
    {
        Self::new(msg).with_kind(JSErrorKind::Internal)
    }

    /// The same error with another kind.
    pub fn with_kind(self, kind: JSErrorKind) -> (e: JSError)
        ensures
            e@ == (JSErrorView { kind: kind, ..self@ }),
    {
        let mut s = self;
        s.kind = kind;
        s
    }

    /// The same error naming the file it came from.
    pub fn with_filename(self, filename: &str) -> (e: JSError)
        ensures
            e@ == (JSErrorView { filename: Some(filename@), ..self@ }),
    {
        let mut s = self;
        s.filename = Some(filename.to_owned());
        s
    }

    /// The same error carrying the source it came from.
    pub fn with_source(self, source: &str) -> (e: JSError)
        ensures
            e@ == (JSErrorView { snippet: Some(source@), ..self@ }),
    {
        let mut s = self;
        s.snippet = Some(source.to_owned());
        s
    }

    pub fn kind(&self) -> (k: JSErrorKind)
        ensures
            k == self@.kind,
    {
        self.kind
    }

    pub fn message(&self) -> (m: &str)
        ensures
            m@ == self@.msg,
    {
        self.msg.as_str()
    }

    pub fn filename(&self) -> (f: Option<&str>)
        ensures
            match f {
                Some(s) => self@.filename == Some(s@),
                None => self@.filename is None,
            },
    {
        match &self.filename {
            Some(s) => Some(s.as_str()),
            None => None,
        }
    }

    pub fn source_snippet(&self) -> (f: Option<&str>)
        ensures
            match f {
                Some(s) => self@.snippet == Some(s@),
                None => self@.snippet is None,
            },
    {
        match &self.snippet {
            Some(s) => Some(s.as_str()),
            None => None,
        }
    }

    /// The error as it is shown to a user, coloured when `color` holds
    /// (see `render_spec`).
    pub fn render(&self, color: bool) -> (out: String)
        ensures
            out@ == render_spec(self@, color),
    {
        let mut out = String::new();
        out.append(ansi(color, Style::Red));
        out.append(kind_label(self.kind));
        out.append(ansi(color, Style::Reset));
        out.append(": ");
        out.append(self.msg.as_str());
        if let Some(filename) = &self.filename {
            out.append("\n");
            out.append(ansi(color, Style::Cyan));
            out.append("--> ");
            out.append(ansi(color, Style::Reset));
            out.append(filename.as_str());
        }
        if let Some(source) = &self.snippet {
            let cs = chars_of(source.as_str());
            let trimmed = trim_chars(cs.as_slice());
            if trimmed.len() > 0 {
                let short = shorten_chars(trimmed.as_slice(), 140);
                out.append("\n");
                out.append(ansi(color, Style::Dim));
                out.append(" |");
                out.append(ansi(color, Style::Reset));
                out.append(" ");
                out.append(ansi(color, Style::Yellow));
                out.append(string_of(short.as_slice()).as_str());
                out.append(ansi(color, Style::Reset));
            }
        }
        out
    }
}

/// The terminal styles used when rendering errors.
#[derive(Clone, Copy, PartialEq, Eq, Structural)]
pub enum Style {
    Reset,
    Red,
    Yellow,
    Cyan,
    Dim,
}

pub open spec fn ansi_spec(enabled: bool, style: Style) -> Seq<char> {
    if !enabled {
        ""@
    } else {
        match style {
            Style::Reset => "\x1b[0m"@,
            Style::Red => "\x1b[1;31m"@,
            Style::Yellow => "\x1b[1;33m"@,
            Style::Cyan => "\x1b[1;36m"@,
            Style::Dim => "\x1b[2m"@,
        }
    }
}

/// The escape sequence of a style, or nothing when colour is off.
pub fn ansi(enabled: bool, style: Style) -> (s: &'static str)
    ensures
        s@ == ansi_spec(enabled, style),
{
    if !enabled {
        return "";
    }
    match style {
        Style::Reset => "\x1b[0m",
        Style::Red => "\x1b[1;31m",
        Style::Yellow => "\x1b[1;33m",
        Style::Cyan => "\x1b[1;36m",
        Style::Dim => "\x1b[2m",
    }
}

pub open spec fn kind_label_spec(kind: JSErrorKind) -> Seq<char> {
    match kind {
        JSErrorKind::Execution => "Execution Error"@,
        JSErrorKind::Compile => "Compile Error"@,
        JSErrorKind::Runtime => "Runtime Error"@,
        JSErrorKind::Internal => "Internal Error"@,
    }
}

pub fn kind_label(kind: JSErrorKind) -> (s: &'static str)
    ensures
        s@ == kind_label_spec(kind),
{
    match kind {
        JSErrorKind::Execution => "Execution Error",
        JSErrorKind::Compile => "Compile Error",
        JSErrorKind::Runtime => "Runtime Error",
        JSErrorKind::Internal => "Internal Error",
    }
}

/// A line break becomes a space.
pub open spec fn flatten_char(c: char) -> char {
    if c == '\n' || c == '\r' { ' ' } else { c }
}

/// The first `max` characters of `s` with line breaks turned into spaces,
/// followed by `...` when `s` is longer than that.
pub open spec fn shorten_spec(s: Seq<char>, max: nat) -> Seq<char> {
    let head = s.take(if s.len() < max { s.len() as int } else { max as int });
    let flat = head.map_values(|c: char| flatten_char(c));
    if s.len() > max {
        flat + "..."@
    } else {
        flat
    }
}

/// See `shorten_spec`.
pub fn shorten_chars(s: &[char], max: usize) -> (out: Vec<char>)
    ensures
        out@ == shorten_spec(s@, max as nat),
{
    let n = if s.len() < max { s.len() } else { max };
    let mut out: Vec<char> = Vec::new();
    let mut i: usize = 0;
    while i < n
        invariant
            n <= s@.len(),
            i <= n,
            out@ == s@.take(i as int).map_values(|c: char| flatten_char(c)),
        decreases n - i,
    {
        let c = s[i];
        if c == '\n' || c == '\r' {
            out.push(' ');
        } else {
            out.push(c);
        }
        i = i + 1;
        proof {
            assert(s@.take(i as int).map_values(|c: char| flatten_char(c)) =~= s@.take(
                i - 1,
            ).map_values(|c: char| flatten_char(c)).push(flatten_char(s@[i - 1])));
        }
    }
    if s.len() > max {
        out.push('.');
        out.push('.');
        out.push('.');
        proof {
            reveal_strlit("...");
            assert(out@ =~= s@.take(n as int).map_values(|c: char| flatten_char(c)) + "..."@);
        }
    }
    out
}

/// Shortens text for display (see `shorten_spec`).
pub fn shorten(input: &str, max_chars: usize) -> (out: String)
    ensures
        out@ == shorten_spec(input@, max_chars as nat),
{
    let cs = chars_of(input);
    let r = shorten_chars(cs.as_slice(), max_chars);
    string_of(r.as_slice())
}

/// The rendered error: the coloured kind label and the message; then, when
/// known, the file name on a line starting with `--> `; then, when the
/// snippet is not blank, the trimmed snippet shortened to 140 characters on
/// a line starting with ` | `.
pub open spec fn render_spec(e: JSErrorView, color: bool) -> Seq<char> {
    let head = ansi_spec(color, Style::Red) + kind_label_spec(e.kind) + ansi_spec(color, Style::Reset)
        + ": "@ + e.msg;
    let with_file = match e.filename {
        Some(f) => head + "\n"@ + ansi_spec(color, Style::Cyan) + "--> "@ + ansi_spec(
            color,
            Style::Reset,
        ) + f,
        None => head,
    };
    match e.snippet {
        Some(s) => if trim_ws(s).len() > 0 {
            with_file + "\n"@ + ansi_spec(color, Style::Dim) + " |"@ + ansi_spec(color, Style::Reset)
                + " "@ + ansi_spec(color, Style::Yellow) + shorten_spec(trim_ws(s), 140)
                + ansi_spec(color, Style::Reset)
        } else {
            with_file
        },
        None => with_file,
    }
}

/// Something that runs JavaScript source.
pub trait JSEngine {
    fn run(&self, code: &str, filename: &str) -> Result<JSResult, JSError>;
}

/// Whether errors are rendered with colour: not when `NO_COLOR` is set,
/// nor when `TERM` is `dumb`.
pub fn use_color(no_color_set: bool, term: Option<&str>) -> (color: bool)
    ensures
        color == (!no_color_set && !(term matches Some(t) && t@ == "dumb"@)),
{
    if no_color_set {
        return false;
    }
    match term {
        Some(t) => {
            let a = chars_of(t);
            let b = chars_of("dumb");
            !crate::text::chars_eq(a.as_slice(), b.as_slice())
        },
        None => true,
    }
}

} // verus!
