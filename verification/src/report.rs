//! User-facing summaries of what happened, with detail lines.
use vstd::prelude::*;
use crate::text::views_of;

verus! {

/// A one-line summary with detail lines under it.
pub struct Report {
    summary: String,
    details: Vec<String>,
}

/// The content of a report: the summary and the detail lines.
pub struct ReportView {
    pub summary: Seq<char>,
    pub details: Seq<Seq<char>>,
}

impl View for Report {
    type V = ReportView;

    closed spec fn view(&self) -> ReportView {
        ReportView { summary: self.summary@, details: views_of(self.details@) }
    }
}

/// A report view from its summary and details.
pub open spec fn rv(summary: Seq<char>, details: Seq<Seq<char>>) -> ReportView {
    ReportView { summary, details }
}

pub open spec fn cyan() -> Seq<char> {
    "\x1b[36m"@
}

pub open spec fn red() -> Seq<char> {
    "\x1b[31m"@
}

pub open spec fn dim() -> Seq<char> {
    "\x1b[2m"@
}

pub open spec fn reset() -> Seq<char> {
    "\x1b[0m"@
}

/// A detail as it is printed.
pub open spec fn detail_line(d: Seq<char>) -> Seq<char> {
    dim() + "- "@ + d + reset()
}

/// The lines that show a report: the marked summary, then each detail.
pub open spec fn report_lines(head: Seq<char>, r: ReportView) -> Seq<Seq<char>> {
    seq![head + r.summary] + r.details.map_values(|d: Seq<char>| detail_line(d))
}

pub open spec fn print_head() -> Seq<char> {
    cyan() + "o-"@ + reset() + " "@
}

pub open spec fn error_head() -> Seq<char> {
    red() + "error"@ + reset() + " "@
}

impl Report {
    /// A report with the given summary and no details.
    pub fn new(summary: &str) -> (r: Report)
        ensures
            r@ == rv(summary@, seq![]),
    {
        let r = Report { summary: summary.to_owned(), details: Vec::new() };
        proof {
            assert(views_of(r.details@) =~= Seq::<Seq<char>>::empty());
        }
        r
    }

    /// The same report with one more detail line.
    pub fn detail(self, detail: &str) -> (r: Report)
        ensures
            r@ == rv(self@.summary, self@.details.push(detail@)),
    {
        let mut s = self;
        let ghost before = s.details@;
        s.details.push(detail.to_owned());
        proof {
            assert(views_of(s.details@) =~= views_of(before).push(detail@));
        }
        s
    }

    pub fn summary(&self) -> (s: &str)
        ensures
            s@ == self@.summary,
    {
        self.summary.as_str()
    }

    /// The lines that `print` writes: the summary after an `o-` mark, then
    /// each detail after a dash.
    pub fn print_lines(&self) -> (lines: Vec<String>)
        ensures
            views_of(lines@) == report_lines(print_head(), self@),
    {
        let mut head = String::new();
        head.append("\x1b[36m");
        head.append("o-");
        head.append("\x1b[0m");
        head.append(" ");
        self.lines_with(head)
    }

    /// The lines that `print_error` writes: the summary after an `error`
    /// mark, then each detail after a dash.
    pub fn error_lines(&self) -> (lines: Vec<String>)
        ensures
            views_of(lines@) == report_lines(error_head(), self@),
    {
        let mut head = String::new();
        head.append("\x1b[31m");
        head.append("error");
        head.append("\x1b[0m");
        head.append(" ");
        self.lines_with(head)
    }

    fn lines_with(&self, head: String) -> (lines: Vec<String>)
        ensures
            views_of(lines@) == report_lines(head@, self@),
    {
        let mut first = head;
        first.append(self.summary.as_str());
        let mut lines: Vec<String> = Vec::new();
        lines.push(first);
        let ghost ds = views_of(self.details@);
        let mut i: usize = 0;
        while i < self.details.len()
            invariant
                i <= self.details@.len(),
                ds == views_of(self.details@),
                views_of(lines@) == seq![head@ + self.summary@] + ds.take(i as int).map_values(
                    |d: Seq<char>| detail_line(d),
                ),
            decreases self.details@.len() - i,
        {
            let mut line = String::new();
            line.append("\x1b[2m");
            line.append("- ");
            line.append(self.details[i].as_str());
            line.append("\x1b[0m");
            let ghost before = lines@;
            lines.push(line);
            i = i + 1;
            proof {
                assert(ds.take(i as int) =~= ds.take(i - 1).push(ds[i - 1]));
                assert(views_of(lines@) =~= views_of(before).push(line@));
                assert(views_of(lines@) =~= seq![head@ + self.summary@] + ds.take(
                    i as int,
                ).map_values(|d: Seq<char>| detail_line(d)));
            }
        }
        proof {
            assert(ds.take(self.details@.len() as int) == ds);
        }
        lines
    }
}

/// `a` followed by `b`.
pub fn cat2(a: &str, b: &str) -> (s: String)
    ensures
        s@ == a@ + b@,
{
    let mut s = String::new();
    s.append(a);
    s.append(b);
    s
}

/// `a`, `b` and `c` one after another.
pub fn cat3(a: &str, b: &str, c: &str) -> (s: String)
    ensures
        s@ == a@ + b@ + c@,
{
    let mut s = String::new();
    s.append(a);
    s.append(b);
    s.append(c);
    s
}

} // verus!
