//! The console of the JavaScript runtime: what each call prints, given the
//! counters and the open groups it keeps.
use vstd::prelude::*;
use vstd::utf8::encode_utf8;
use crate::sorted::SortedMap;
use crate::text::{
    chars_of, decimal, decimal_string, extend_chars, join_strings, join_with, string_of, trim,
    trim_ws, views_of,
};

verus! {

/// The console's state: a counter per label and the stack of open groups
/// (with, apart, the labels of the groups opened collapsed).
pub struct ConsoleState {
    counts: SortedMap<u64>,
    group_stack: Vec<String>,
    group_collapsed: Vec<String>,
}

pub struct ConsoleView {
    pub counts: Map<Seq<char>, u64>,
    pub groups: Seq<Seq<char>>,
    pub collapsed: Seq<Seq<char>>,
}

impl View for ConsoleState {
    type V = ConsoleView;

    closed spec fn view(&self) -> ConsoleView {
        ConsoleView {
            counts: self.counts.map_view(),
            groups: views_of(self.group_stack@),
            collapsed: views_of(self.group_collapsed@),
        }
    }
}

impl ConsoleState {
    pub closed spec fn wf(&self) -> bool {
        self.counts.wf()
    }

    /// The number of open groups.
    pub fn depth(&self) -> (n: usize)
        ensures
            n == self@.groups.len(),
    {
        self.group_stack.len()
    }
}

impl Default for ConsoleState {
    fn default() -> (s: Self)
        ensures
            s.wf(),
            s@.counts == Map::<Seq<char>, u64>::empty(),
            s@.groups.len() == 0,
            s@.collapsed.len() == 0,
    {
        ConsoleState { counts: SortedMap::new(), group_stack: Vec::new(), group_collapsed: Vec::new() }
    }
}

/// Two spaces per open group.
pub open spec fn indent(n: nat) -> Seq<char>
    decreases n,
{
    if n == 0 {
        seq![]
    } else {
        indent((n - 1) as nat) + seq![' ', ' ']
    }
}

fn indent_chars(n: usize) -> (out: Vec<char>)
    ensures
        out@ == indent(n as nat),
{
    let mut out: Vec<char> = Vec::new();
    let mut i: usize = 0;
    while i < n
        invariant
            i <= n,
            out@ == indent(i as nat),
        decreases n - i,
    {
        out.push(' ');
        out.push(' ');
        i = i + 1;
        proof {
            assert(out@ =~= indent(i as nat));
        }
    }
    out
}

/// The arguments joined with single spaces.
pub open spec fn message(args: Seq<String>) -> Seq<char> {
    join_with(views_of(args), " "@)
}

/// A plain line: the indentation and the message, trimmed (so the
/// indentation does not survive).
pub open spec fn plain_line(depth: nat, args: Seq<String>) -> Seq<char> {
    trim_ws(indent(depth) + message(args))
}

/// A marked line: the indentation, the mark, a space and the message, trimmed.
pub open spec fn prefixed_line(depth: nat, prefix: Seq<char>, args: Seq<String>) -> Seq<char> {
    trim_ws(indent(depth) + prefix + " "@ + message(args))
}

fn print_plain(state: &ConsoleState, args: &[String]) -> (line: String)
    ensures
        line@ == plain_line(state@.groups.len(), args@),
{
    let mut out = indent_chars(state.depth());
    let m = join_strings(args, " ");
    extend_chars(&mut out, chars_of(m.as_str()).as_slice());
    let s = string_of(out.as_slice());
    trim(s.as_str())
}

fn print_with_prefix(state: &ConsoleState, prefix: &str, args: &[String]) -> (line: String)
    ensures
        line@ == prefixed_line(state@.groups.len(), prefix@, args@),
{
    let mut out = indent_chars(state.depth());
    extend_chars(&mut out, chars_of(prefix).as_slice());
    out.push(' ');
    let m = join_strings(args, " ");
    extend_chars(&mut out, chars_of(m.as_str()).as_slice());
    proof {
        reveal_strlit(" ");
        assert(out@ =~= indent(state@.groups.len()) + prefix@ + " "@ + message(args@));
    }
    let s = string_of(out.as_slice());
    trim(s.as_str())
}

/// The line `console.log` prints.
pub fn log(state: &ConsoleState, args: &[String]) -> (line: String)
    ensures
        line@ == plain_line(state@.groups.len(), args@),
{
    print_plain(state, args)
}

/// The line `console.info` prints, marked ℹ️.
pub fn info(state: &ConsoleState, args: &[String]) -> (line: String)
    ensures
        line@ == prefixed_line(state@.groups.len(), "ℹ️"@, args@),
{
    print_with_prefix(state, "ℹ️", args)
}

/// The line `console.warn` prints, marked ⚠️.
pub fn warn(state: &ConsoleState, args: &[String]) -> (line: String)
    ensures
        line@ == prefixed_line(state@.groups.len(), "⚠️"@, args@),
{
    print_with_prefix(state, "⚠️", args)
}

/// The line `console.error` prints, marked ❌.
pub fn error(state: &ConsoleState, args: &[String]) -> (line: String)
    ensures
        line@ == prefixed_line(state@.groups.len(), "❌"@, args@),
{
    print_with_prefix(state, "❌", args)
}

/// The line `console.debug` prints, marked 🐛.
pub fn debug(state: &ConsoleState, args: &[String]) -> (line: String)
    ensures
        line@ == prefixed_line(state@.groups.len(), "🐛"@, args@),
{
    print_with_prefix(state, "🐛", args)
}

/// The line `print` writes: the same as `console.log`.
pub fn print(state: &ConsoleState, args: &[String]) -> (line: String)
    ensures
        line@ == plain_line(state@.groups.len(), args@),
{
    print_plain(state, args)
}

/// The line `println` writes: the same as `console.log`.
pub fn println(state: &ConsoleState, args: &[String]) -> (line: String)
    ensures
        line@ == plain_line(state@.groups.len(), args@),
{
    print_plain(state, args)
}

/// `console.assert`: nothing when the condition holds, else an ❌ line
/// with the arguments, or with `Assertion failed` when there are none.
pub fn assert_line(state: &ConsoleState, condition: bool, args: &[String]) -> (line: Option<String>)
    ensures
        condition ==> line is None,
        !condition && args@.len() > 0 ==> (line matches Some(l) && l@ == prefixed_line(
            state@.groups.len(),
            "❌"@,
            args@,
        )),
        !condition && args@.len() == 0 ==> (line matches Some(l) && l@ == trim_ws(
            indent(state@.groups.len()) + "❌"@ + " "@ + "Assertion failed"@,
        )),
{
    if condition {
        return None;
    }
    if args.len() > 0 {
        Some(print_with_prefix(state, "❌", args))
    } else {
        let mut fallback: Vec<String> = Vec::new();
        fallback.push("Assertion failed".to_owned());
        let l = print_with_prefix(state, "❌", fallback.as_slice());
        proof {
            assert(views_of(fallback@) =~= seq!["Assertion failed"@]);
        }
        Some(l)
    }
}

/// `console.trace`: a `Trace:` line, then each argument with its index.
pub open spec fn trace_lines(depth: nat, args: Seq<String>) -> Seq<Seq<char>> {
    seq![indent(depth) + "Trace:"@] + Seq::new(
        args.len(),
        |i: int| indent(depth) + "  "@ + decimal(i as nat) + ": "@ + args[i]@,
    )
}

pub fn trace(state: &ConsoleState, args: &[String]) -> (lines: Vec<String>)
    ensures
        views_of(lines@) == trace_lines(state@.groups.len(), args@),
{
    let ind = indent_chars(state.depth());
    let ghost depth = state@.groups.len();
    let mut head = crate::text::copy_chars(&ind);
    extend_chars(&mut head, chars_of("Trace:").as_slice());
    let mut lines: Vec<String> = Vec::new();
    lines.push(string_of(head.as_slice()));
    let mut i: usize = 0;
    while i < args.len()
        invariant
            i <= args@.len(),
            ind@ == indent(depth),
            depth == state@.groups.len(),
            views_of(lines@) == trace_lines(depth, args@).take(i + 1),
        decreases args@.len() - i,
    {
        let mut l = crate::text::copy_chars(&ind);
        l.push(' ');
        l.push(' ');
        let num = decimal_string(i as u64);
        extend_chars(&mut l, chars_of(num.as_str()).as_slice());
        l.push(':');
        l.push(' ');
        extend_chars(&mut l, chars_of(args[i].as_str()).as_slice());
        let ghost before = lines@;
        lines.push(string_of(l.as_slice()));
        proof {
            reveal_strlit("  ");
            reveal_strlit(": ");
            assert(l@ =~= indent(depth) + "  "@ + decimal(i as nat) + ": "@ + args@[i as int]@);
            assert(views_of(lines@) =~= views_of(before).push(l@));
            assert(trace_lines(depth, args@).take(i + 2) =~= trace_lines(depth, args@).take(i + 1).push(
                l@,
            ));
        }
        i = i + 1;
    }
    proof {
        assert(trace_lines(depth, args@).take(args@.len() as int + 1) =~= trace_lines(depth, args@));
    }
    lines
}

/// The counter of a label (zero when it has none).
pub open spec fn count_of(v: ConsoleView, label: Seq<char>) -> nat {
    if v.counts.dom().contains(label) {
        v.counts[label] as nat
    } else {
        0
    }
}

/// `console.count`: adds one to the label's counter and prints `label: n`.
pub fn count(state: &mut ConsoleState, label: &str) -> (line: String)
    requires
        old(state).wf(),
        count_of(old(state)@, label@) < u64::MAX,
    ensures
        final(state).wf(),
        final(state)@.counts == old(state)@.counts.insert(
            label@,
            (count_of(old(state)@, label@) + 1) as u64,
        ),
        final(state)@.groups == old(state)@.groups,
        final(state)@.collapsed == old(state)@.collapsed,
        line@ == label@ + ": "@ + decimal(count_of(old(state)@, label@) + 1),
{
    let current: u64 = match state.counts.get(label) {
        Some(c) => *c,
        None => 0,
    };
    let next = current + 1;
    state.counts.insert(label.to_owned(), next);
    let n = decimal_string(next);
    crate::report::cat3(label, ": ", n.as_str())
}

/// `console.countReset`: forgets the label's counter and prints `label: 0`.
pub fn count_reset(state: &mut ConsoleState, label: &str) -> (line: String)
    requires
        old(state).wf(),
    ensures
        final(state).wf(),
        final(state)@.counts == old(state)@.counts.remove(label@),
        final(state)@.groups == old(state)@.groups,
        final(state)@.collapsed == old(state)@.collapsed,
        line@ == label@ + ": 0"@,
{
    state.counts.remove(label);
    crate::report::cat2(label, ": 0")
}

/// Forgets every counter.
pub fn count_all_reset(state: &mut ConsoleState)
    requires
        old(state).wf(),
    ensures
        final(state).wf(),
        final(state)@.counts == Map::<Seq<char>, u64>::empty(),
        final(state)@.groups == old(state)@.groups,
        final(state)@.collapsed == old(state)@.collapsed,
{
    state.counts.clear();
}

/// `console.group`: prints the label at the current depth, then opens a group.
pub fn group(state: &mut ConsoleState, label: &str) -> (line: String)
    ensures
        final(state).wf() == old(state).wf(),
        final(state)@.counts == old(state)@.counts,
        final(state)@.groups == old(state)@.groups.push(label@),
        final(state)@.collapsed == old(state)@.collapsed,
        line@ == indent(old(state)@.groups.len()) + label@,
{
    let mut out = indent_chars(state.depth());
    extend_chars(&mut out, chars_of(label).as_slice());
    let ghost before = state.group_stack@;
    state.group_stack.push(label.to_owned());
    proof {
        assert(views_of(state.group_stack@) =~= views_of(before).push(label@));
    }
    string_of(out.as_slice())
}

/// `console.groupCollapsed`: as `group`, with ` (collapsed)` after the label.
pub fn group_collapsed(state: &mut ConsoleState, label: &str) -> (line: String)
    ensures
        final(state).wf() == old(state).wf(),
        final(state)@.counts == old(state)@.counts,
        final(state)@.groups == old(state)@.groups.push(label@),
        final(state)@.collapsed == old(state)@.collapsed.push(label@),
        line@ == indent(old(state)@.groups.len()) + label@ + " (collapsed)"@,
{
    let mut out = indent_chars(state.depth());
    extend_chars(&mut out, chars_of(label).as_slice());
    extend_chars(&mut out, chars_of(" (collapsed)").as_slice());
    let ghost before = state.group_stack@;
    let ghost before_c = state.group_collapsed@;
    state.group_stack.push(label.to_owned());
    state.group_collapsed.push(label.to_owned());
    proof {
        assert(views_of(state.group_stack@) =~= views_of(before).push(label@));
        assert(views_of(state.group_collapsed@) =~= views_of(before_c).push(label@));
    }
    string_of(out.as_slice())
}

/// `console.groupEnd`: closes the innermost group; with none open it
/// prints `No group to end`.
pub fn group_end(state: &mut ConsoleState) -> (line: Option<String>)
    ensures
        final(state).wf() == old(state).wf(),
        final(state)@.counts == old(state)@.counts,
        final(state)@.collapsed == old(state)@.collapsed,
        old(state)@.groups.len() > 0 ==> final(state)@.groups == old(state)@.groups.drop_last()
            && line is None,
        old(state)@.groups.len() == 0 ==> final(state)@.groups == old(state)@.groups && (
        line matches Some(l) && l@ == "No group to end"@),
{
    let ghost before = state.group_stack@;
    match state.group_stack.pop() {
        Some(_) => {
            proof {
                assert(views_of(state.group_stack@) =~= views_of(before).drop_last());
            }
            None
        },
        None => Some("No group to end".to_owned()),
    }
}

/// The line `console.profile` prints.
pub fn profile(label: &str) -> (line: String)
    ensures
        line@ == "Profile '"@ + label@ + "' started"@,
{
    crate::report::cat3("Profile '", label, "' started")
}

/// The line `console.profileEnd` prints.
pub fn profile_end(label: &str) -> (line: String)
    ensures
        line@ == "Profile '"@ + label@ + "' ended"@,
{
    crate::report::cat3("Profile '", label, "' ended")
}

/// The line `console.time` prints when it starts a timer.
pub fn time_started(label: &str) -> (line: String)
    ensures
        line@ == label@ + ": timer started"@,
{
    crate::report::cat2(label, ": timer started")
}

/// The line `console.timeLog` (or, with `ended`, `console.timeEnd`) prints:
/// the elapsed milliseconds of the label's timer, or that it has none.
pub fn time_line(label: &str, elapsed_ms: Option<u64>, ended: bool) -> (line: String)
    ensures
        match elapsed_ms {
            Some(ms) => line@ == label@ + ": "@ + decimal(ms as nat) + (if ended {
                "ms - timer ended"@
            } else {
                "ms"@
            }),
            None => line@ == "Timer '"@ + label@ + "' does not exist"@,
        },
{
    match elapsed_ms {
        Some(ms) => {
            let n = decimal_string(ms);
            let head = crate::report::cat3(label, ": ", n.as_str());
            if ended {
                crate::report::cat2(head.as_str(), "ms - timer ended")
            } else {
                crate::report::cat2(head.as_str(), "ms")
            }
        },
        None => crate::report::cat3("Timer '", label, "' does not exist"),
    }
}

/// The line `console.timeStamp` prints for a time in milliseconds.
pub fn time_stamp(label: &str, now_ms: u64) -> (line: String)
    ensures
        line@ == label@ + ": "@ + decimal(now_ms as nat) + "ms"@,
{
    let n = decimal_string(now_ms);
    let head = crate::report::cat3(label, ": ", n.as_str());
    crate::report::cat2(head.as_str(), "ms")
}

/// The length of text in UTF-8 bytes, as `str::len` returns it.
pub open spec fn byte_len(s: Seq<char>) -> nat {
    (encode_utf8(s).len() as usize) as nat
}

/// The header row followed by the data rows.
pub open spec fn all_rows(headers: Seq<String>, rows: Seq<Vec<String>>) -> Seq<Seq<String>> {
    seq![headers] + rows.map_values(|r: Vec<String>| r@)
}

/// The width of column `i`: the greatest byte length of its cells.
pub open spec fn col_width(rows: Seq<Seq<String>>, i: int) -> nat
    decreases rows.len(),
{
    if rows.len() == 0 {
        0
    } else {
        let w = col_width(rows.drop_last(), i);
        let r = rows.last();
        if 0 <= i < r.len() && byte_len(r[i]@) > w {
            byte_len(r[i]@)
        } else {
            w
        }
    }
}

pub open spec fn spaces(n: nat) -> Seq<char> {
    Seq::new(n, |i: int| ' ')
}

/// A cell padded with spaces to `w` characters (`{:<w}`).
pub open spec fn pad(cell: Seq<char>, w: nat) -> Seq<char> {
    if cell.len() < w {
        cell + spaces((w - cell.len()) as nat)
    } else {
        cell
    }
}

/// One line of a table: the indentation, then the row's cells padded to
/// their column widths and separated by ` | `.
pub open spec fn table_line(depth: nat, all: Seq<Seq<String>>, row: Seq<String>) -> Seq<char> {
    indent(depth) + join_with(Seq::new(row.len(), |j: int| pad(row[j]@, col_width(all, j))), " | "@)
}

/// `console.table`: one line for the headers, then one per row.
pub open spec fn table_lines(depth: nat, headers: Seq<String>, rows: Seq<Vec<String>>) -> Seq<
    Seq<char>,
> {
    let all = all_rows(headers, rows);
    all.map_values(|r: Seq<String>| table_line(depth, all, r))
}

fn pad_cell(cell: &str, w: usize) -> (out: String)
    ensures
        out@ == pad(cell@, w as nat),
{
    let mut out = chars_of(cell);
    let n = out.len();
    if n >= w {
        return string_of(out.as_slice());
    }
    let mut k: usize = n;
    while k < w
        invariant
            n <= k <= w,
            n == cell@.len(),
            out@ == cell@ + spaces((k - n) as nat),
        decreases w - k,
    {
        out.push(' ');
        k = k + 1;
        proof {
            assert(out@ =~= cell@ + spaces((k - n) as nat));
        }
    }
    string_of(out.as_slice())
}

/// Column widths after one more row: each column takes the row's cell
/// when it is longer in bytes.
fn widen(widths: &mut Vec<usize>, row: &[String])
    requires
        row@.len() <= old(widths)@.len(),
    ensures
        final(widths)@.len() == old(widths)@.len(),
        forall|c: int|
            0 <= c < old(widths)@.len() ==> #[trigger] final(widths)@[c] == if c < row@.len()
                && byte_len(row@[c]@) > old(widths)@[c] {
                byte_len(row@[c]@) as usize
            } else {
                old(widths)@[c]
            },
{
    let ghost before = widths@;
    let mut j: usize = 0;
    while j < row.len()
        invariant
            j <= row@.len(),
            row@.len() <= before.len(),
            widths@.len() == before.len(),
            forall|c: int|
                0 <= c < before.len() ==> #[trigger] widths@[c] == if c < j && byte_len(row@[c]@)
                    > before[c] {
                    byte_len(row@[c]@) as usize
                } else {
                    before[c]
                },
        decreases row@.len() - j,
    {
        let n = row[j].as_str().len();
        if n > widths[j] {
            widths.set(j, n);
        }
        j = j + 1;
    }
}

/// One table line from the widths of the columns.
fn row_line(ind: &Vec<char>, row: &[String], widths: &Vec<usize>) -> (line: String)
    requires
        row@.len() <= widths@.len(),
    ensures
        line@ == ind@ + join_with(
            Seq::new(row@.len(), |j: int| pad(row@[j]@, widths@[j] as nat)),
            " | "@,
        ),
{
    let ghost cells = Seq::new(row@.len(), |j: int| pad(row@[j]@, widths@[j] as nat));
    let mut pieces: Vec<String> = Vec::new();
    let mut j: usize = 0;
    while j < row.len()
        invariant
            j <= row@.len(),
            row@.len() <= widths@.len(),
            cells == Seq::new(row@.len(), |j: int| pad(row@[j]@, widths@[j] as nat)),
            views_of(pieces@) == cells.take(j as int),
        decreases row@.len() - j,
    {
        let p = pad_cell(row[j].as_str(), widths[j]);
        let ghost before = pieces@;
        pieces.push(p);
        proof {
            assert(views_of(pieces@) =~= views_of(before).push(p@));
            assert(cells.take(j + 1) =~= cells.take(j as int).push(cells[j as int]));
        }
        j = j + 1;
    }
    proof {
        assert(cells.take(row@.len() as int) =~= cells);
    }
    let joined = join_strings(pieces.as_slice(), " | ");
    let mut out = crate::text::copy_chars(ind);
    extend_chars(&mut out, chars_of(joined.as_str()).as_slice());
    string_of(out.as_slice())
}

proof fn lemma_col_width_step(all: Seq<Seq<String>>, r: int, c: int)
    requires
        0 <= r < all.len(),
    ensures
        col_width(all.take(r + 1), c) == if 0 <= c < all[r].len() && byte_len(all[r][c]@)
            > col_width(all.take(r), c) {
            byte_len(all[r][c]@)
        } else {
            col_width(all.take(r), c)
        },
{
    assert(all.take(r + 1).drop_last() =~= all.take(r));
    assert(all.take(r + 1).last() == all[r]);
}

/// The lines `console.table` prints. Every row has at most as many cells
/// as there are headers.
pub fn table(state: &ConsoleState, headers: &[String], rows: &[Vec<String>]) -> (lines: Vec<String>)
    requires
        forall|r: int| 0 <= r < rows@.len() ==> #[trigger] rows@[r]@.len() <= headers@.len(),
    ensures
        views_of(lines@) == table_lines(state@.groups.len(), headers@, rows@),
{
    let ghost all = all_rows(headers@, rows@);
    let hlen = headers.len();
    let mut widths: Vec<usize> = Vec::new();
    let mut j: usize = 0;
    while j < hlen
        invariant
            j <= hlen,
            hlen == headers@.len(),
            widths@.len() == j,
            forall|c: int| 0 <= c < j ==> #[trigger] widths@[c] == 0,
        decreases hlen - j,
    {
        widths.push(0);
        j = j + 1;
    }
    proof {
        assert(all[0] == headers@);
        assert(all.take(0).len() == 0);
    }
    widen(&mut widths, headers);
    proof {
        assert forall|c: int| 0 <= c < hlen implies #[trigger] widths@[c] == col_width(all.take(1), c) by {
            lemma_col_width_step(all, 0, c);
        }
    }
    let mut q: usize = 0;
    while q < rows.len()
        invariant
            q <= rows@.len(),
            all == all_rows(headers@, rows@),
            hlen == headers@.len(),
            widths@.len() == hlen,
            forall|x: int| 0 <= x < rows@.len() ==> #[trigger] rows@[x]@.len() <= headers@.len(),
            forall|c: int| 0 <= c < hlen ==> #[trigger] widths@[c] == col_width(all.take(q + 1), c),
        decreases rows@.len() - q,
    {
        proof {
            assert(all[q + 1] == rows@[q as int]@);
        }
        let ghost wq = widths@;
        widen(&mut widths, rows[q].as_slice());
        proof {
            assert forall|c: int| 0 <= c < hlen implies #[trigger] widths@[c] == col_width(
                all.take(q + 2),
                c,
            ) by {
                lemma_col_width_step(all, q + 1, c);
                assert(wq[c] == col_width(all.take(q + 1), c));
            }
        }
        q = q + 1;
    }
    proof {
        assert(all.take(rows@.len() as int + 1) =~= all);
    }
    let ind = indent_chars(state.depth());
    let ghost depth = state@.groups.len();
    let ghost expected = table_lines(depth, headers@, rows@);
    let mut lines: Vec<String> = Vec::new();
    let first = row_line(&ind, headers, &widths);
    proof {
        assert(Seq::new(headers@.len(), |j: int| pad(headers@[j]@, widths@[j] as nat)) =~= Seq::new(
            all[0].len(),
            |j: int| pad(all[0][j]@, col_width(all, j)),
        ));
    }
    lines.push(first);
    let mut q: usize = 0;
    while q < rows.len()
        invariant
            q <= rows@.len(),
            all == all_rows(headers@, rows@),
            ind@ == indent(depth),
            depth == state@.groups.len(),
            expected == table_lines(depth, headers@, rows@),
            expected.len() == rows@.len() + 1,
            hlen == headers@.len(),
            widths@.len() == hlen,
            forall|x: int| 0 <= x < rows@.len() ==> #[trigger] rows@[x]@.len() <= headers@.len(),
            forall|c: int| 0 <= c < hlen ==> #[trigger] widths@[c] == col_width(all, c),
            views_of(lines@) == expected.take(q + 1),
        decreases rows@.len() - q,
    {
        let l = row_line(&ind, rows[q].as_slice(), &widths);
        proof {
            assert(all[q + 1] == rows@[q as int]@);
            assert(Seq::new(rows@[q as int]@.len(), |j: int| pad(rows@[q as int]@[j]@, widths@[j] as nat))
                =~= Seq::new(all[q + 1].len(), |j: int| pad(all[q + 1][j]@, col_width(all, j))));
            assert(l@ == expected[q + 1]);
        }
        let ghost before = lines@;
        lines.push(l);
        proof {
            assert(views_of(lines@) =~= views_of(before).push(l@));
            assert(expected.take(q + 2) =~= expected.take(q + 1).push(expected[q + 1]));
        }
        q = q + 1;
    }
    proof {
        assert(expected.take(rows@.len() as int + 1) =~= expected);
    }
    lines
}

/// `console.group` followed by `console.groupEnd` leaves the open groups
/// as they were.
pub proof fn law_group_then_end(groups: Seq<Seq<char>>, label: Seq<char>)
    ensures
        groups.push(label).len() > 0,
        groups.push(label).drop_last() == groups,
{
    assert(groups.push(label).drop_last() =~= groups);
}

/// Counting a label that has no counter, twice, prints `1` then `2`.
pub proof fn law_count_twice(v0: ConsoleView, v1: ConsoleView, v2: ConsoleView, label: Seq<char>)
    requires
        !v0.counts.dom().contains(label),
        v1.counts == v0.counts.insert(label, (count_of(v0, label) + 1) as u64),
        v2.counts == v1.counts.insert(label, (count_of(v1, label) + 1) as u64),
    ensures
        count_of(v0, label) + 1 == 1,
        count_of(v1, label) + 1 == 2,
        count_of(v2, label) == 2,
{
}

} // verus!
