//! POSIX path manipulation in the manner of Node's `path` module, over the
//! component model of `std::path` on Unix.
//!
//! A path's components are encoded as character sequences: the root as `/`,
//! a leading current-directory marker as `.`, a parent step as `..`, and any
//! other piece as itself (such a piece is never empty and holds no `/`).
use vstd::prelude::*;
use crate::text::{copy_chars, ends_with, extend_chars, join_with, sub_chars};

verus! {

pub open spec fn dot() -> Seq<char> {
    seq!['.']
}

pub open spec fn dotdot() -> Seq<char> {
    seq!['.', '.']
}

pub open spec fn slash() -> Seq<char> {
    seq!['/']
}

pub open spec fn vviews(v: Seq<Vec<char>>) -> Seq<Seq<char>> {
    v.map_values(|x: Vec<char>| x@)
}

/// The path starts at the root.
pub open spec fn has_root(p: Seq<char>) -> bool {
    p.len() > 0 && p[0] == '/'
}

/// A relative path that begins with a current-directory marker (`.` alone or `./...`).
pub open spec fn has_cur_dir(p: Seq<char>) -> bool {
    !has_root(p) && p.len() > 0 && p[0] == '.' && (p.len() == 1 || p[1] == '/')
}

/// The length of what precedes the body of the path: the root or the
/// leading current-directory marker.
pub open spec fn lead_len(p: Seq<char>) -> int {
    if has_root(p) || has_cur_dir(p) { 1 } else { 0 }
}

/// Adds the piece read so far to the parts, unless it is empty or `.`.
pub open spec fn flush(done: Seq<Seq<char>>, cur: Seq<char>) -> Seq<Seq<char>> {
    if cur.len() == 0 || cur == dot() {
        done
    } else {
        done.push(cur)
    }
}

/// Reads `b` left to right: the finished parts and the piece being read.
pub open spec fn scan(b: Seq<char>) -> (Seq<Seq<char>>, Seq<char>)
    decreases b.len(),
{
    if b.len() == 0 {
        (seq![], seq![])
    } else {
        let prev = scan(b.drop_last());
        if b.last() == '/' {
            (flush(prev.0, prev.1), seq![])
        } else {
            (prev.0, prev.1.push(b.last()))
        }
    }
}

/// The pieces of `b` between separators, without empty pieces and `.`.
pub open spec fn body_parts(b: Seq<char>) -> Seq<Seq<char>> {
    flush(scan(b).0, scan(b).1)
}

/// The components of a path, as `Path::components` yields them on Unix.
pub open spec fn components(p: Seq<char>) -> Seq<Seq<char>> {
    let head: Seq<Seq<char>> = if has_root(p) {
        seq![slash()]
    } else if has_cur_dir(p) {
        seq![dot()]
    } else {
        seq![]
    };
    head + body_parts(p.skip(lead_len(p)))
}

/// A component that names an entry (neither root, `.`, nor `..`).
pub open spec fn is_normal(c: Seq<char>) -> bool {
    c != slash() && c != dot() && c != dotdot()
}

/// One step of normalisation: a name is pushed; `..` removes the last name,
/// is kept at the start of a relative path, and is dropped after another `..`
/// or at the root.
pub open spec fn norm_step(stack: Seq<Seq<char>>, part: Seq<char>, abs: bool) -> Seq<Seq<char>> {
    if part == dotdot() {
        if stack.len() > 0 && stack.last() == dotdot() {
            stack
        } else if stack.len() > 0 {
            stack.drop_last()
        } else if !abs {
            stack.push(dotdot())
        } else {
            stack
        }
    } else {
        stack.push(part)
    }
}

pub open spec fn norm_stack(parts: Seq<Seq<char>>, abs: bool) -> Seq<Seq<char>>
    decreases parts.len(),
{
    if parts.len() == 0 {
        seq![]
    } else {
        norm_step(norm_stack(parts.drop_last(), abs), parts.last(), abs)
    }
}

/// The normal form of a path: `.` and empty pieces dropped, `..` folded
/// into the preceding name, pieces joined by `/`, a leading `/` kept, and
/// `.` for an empty relative result.
pub open spec fn normalize_spec(p: Seq<char>) -> Seq<char> {
    let abs = has_root(p);
    let r = join_with(norm_stack(body_parts(p.skip(lead_len(p))), abs), slash());
    if abs {
        slash() + r
    } else if r.len() == 0 {
        dot()
    } else {
        r
    }
}

fn is_dotdot(x: &[char]) -> (r: bool)
    ensures
        r == (x@ == dotdot()),
{
    let r = x.len() == 2 && x[0] == '.' && x[1] == '.';
    proof {
        if x@.len() == 2 && x@[0] == '.' && x@[1] == '.' {
            assert(x@ =~= dotdot());
        }
    }
    r
}

fn is_dot(x: &[char]) -> (r: bool)
    ensures
        r == (x@ == dot()),
{
    let r = x.len() == 1 && x[0] == '.';
    proof {
        if x@.len() == 1 && x@[0] == '.' {
            assert(x@ =~= dot());
        }
    }
    r
}

fn lead_len_exec(p: &[char]) -> (n: usize)
    ensures
        n == lead_len(p@),
{
    if p.len() > 0 && p[0] == '/' {
        1
    } else if p.len() > 0 && p[0] == '.' && (p.len() == 1 || p[1] == '/') {
        1
    } else {
        0
    }
}

fn flush_exec(done: &mut Vec<Vec<char>>, cur: Vec<char>)
    ensures
        vviews(final(done)@) == flush(vviews(old(done)@), cur@),
{
    if cur.len() == 0 || is_dot(cur.as_slice()) {
    } else {
        done.push(cur);
        proof {
            assert(vviews(done@) =~= vviews(old(done)@).push(cur@));
        }
    }
}

/// The pieces of `p[from..]` between separators, without empty pieces and `.`.
fn body_parts_exec(p: &[char], from: usize) -> (out: Vec<Vec<char>>)
    requires
        from <= p@.len(),
    ensures
        vviews(out@) == body_parts(p@.skip(from as int)),
{
    let mut done: Vec<Vec<char>> = Vec::new();
    let mut cur: Vec<char> = Vec::new();
    let mut i: usize = from;
    while i < p.len()
        invariant
            from <= i <= p@.len(),
            (vviews(done@), cur@) == scan(p@.subrange(from as int, i as int)),
        decreases p@.len() - i,
    {
        proof {
            let b = p@.subrange(from as int, i + 1);
            assert(b.drop_last() == p@.subrange(from as int, i as int));
            assert(b.last() == p@[i as int]);
        }
        if p[i] == '/' {
            let piece = cur;
            cur = Vec::new();
            flush_exec(&mut done, piece);
        } else {
            cur.push(p[i]);
        }
        i = i + 1;
    }
    proof {
        assert(p@.subrange(from as int, p@.len() as int) == p@.skip(from as int));
    }
    flush_exec(&mut done, cur);
    done
}

/// The components of `p`, as `components` encodes them.
pub fn components_exec(p: &[char]) -> (out: Vec<Vec<char>>)
    ensures
        vviews(out@) == components(p@),
{
    let lead = lead_len_exec(p);
    let body = body_parts_exec(p, lead);
    let mut out: Vec<Vec<char>> = Vec::new();
    if p.len() > 0 && p[0] == '/' {
        let mut r: Vec<char> = Vec::new();
        r.push('/');
        out.push(r);
    } else if lead == 1 {
        let mut r: Vec<char> = Vec::new();
        r.push('.');
        out.push(r);
    }
    proof {
        assert(vviews(out@) =~= (if has_root(p@) {
            seq![slash()]
        } else if has_cur_dir(p@) {
            seq![dot()]
        } else {
            seq![]
        }));
    }
    let ghost head = vviews(out@);
    let mut i: usize = 0;
    while i < body.len()
        invariant
            i <= body@.len(),
            vviews(out@) == head + vviews(body@).take(i as int),
        decreases body@.len() - i,
    {
        let c = copy_chars(&body[i]);
        let ghost before = out@;
        out.push(c);
        proof {
            assert(vviews(out@) =~= vviews(before).push(c@));
            assert(vviews(body@).take(i + 1) =~= vviews(body@).take(i as int).push(body@[i as int]@));
        }
        i = i + 1;
    }
    proof {
        assert(vviews(body@).take(body@.len() as int) == vviews(body@));
    }
    out
}

/// Joins character pieces with a separator character.
pub fn join_chars(pieces: &[Vec<char>], sep: char) -> (out: Vec<char>)
    ensures
        out@ == join_with(vviews(pieces@), seq![sep]),
{
    let mut out: Vec<char> = Vec::new();
    let ghost vs = vviews(pieces@);
    let mut i: usize = 0;
    while i < pieces.len()
        invariant
            i <= pieces@.len(),
            vs == vviews(pieces@),
            out@ == join_with(vs.take(i as int), seq![sep]),
        decreases pieces@.len() - i,
    {
        proof {
            assert(vs.take(i + 1).drop_last() == vs.take(i as int));
            assert(vs.take(i + 1).last() == pieces@[i as int]@);
        }
        if i > 0 {
            out.push(sep);
            proof {
                assert(out@ == join_with(vs.take(i as int), seq![sep]) + seq![sep]);
            }
        }
        extend_chars(&mut out, pieces[i].as_slice());
        i = i + 1;
    }
    proof {
        assert(vs.take(pieces@.len() as int) == vs);
    }
    out
}

fn normalize_chars(p: &[char]) -> (out: Vec<char>)
    ensures
        out@ == normalize_spec(p@),
{
    let abs = p.len() > 0 && p[0] == '/';
    let lead = lead_len_exec(p);
    let parts = body_parts_exec(p, lead);
    let ghost ps = vviews(parts@);
    let mut stack: Vec<Vec<char>> = Vec::new();
    let mut i: usize = 0;
    while i < parts.len()
        invariant
            i <= parts@.len(),
            ps == vviews(parts@),
            abs == has_root(p@),
            vviews(stack@) == norm_stack(ps.take(i as int), abs),
        decreases parts@.len() - i,
    {
        proof {
            assert(ps.take(i + 1).drop_last() == ps.take(i as int));
            assert(ps.take(i + 1).last() == parts@[i as int]@);
        }
        let part = &parts[i];
        if is_dotdot(part.as_slice()) {
            let n = stack.len();
            if n > 0 && is_dotdot(stack[n - 1].as_slice()) {
            } else if n > 0 {
                let ghost before = stack@;
                stack.pop();
                proof {
                    assert(vviews(stack@) =~= vviews(before).drop_last());
                }
            } else if !abs {
                let mut up: Vec<char> = Vec::new();
                up.push('.');
                up.push('.');
                proof {
                    assert(up@ =~= dotdot());
                }
                let ghost before = stack@;
                stack.push(up);
                proof {
                    assert(vviews(stack@) =~= vviews(before).push(dotdot()));
                }
            }
        } else {
            let ghost before = stack@;
            stack.push(copy_chars(part));
            proof {
                assert(vviews(stack@) =~= vviews(before).push(ps[i as int]));
            }
        }
        i = i + 1;
    }
    proof {
        assert(ps.take(parts@.len() as int) == ps);
    }
    let joined = join_chars(stack.as_slice(), '/');
    if abs {
        let mut out: Vec<char> = Vec::new();
        out.push('/');
        extend_chars(&mut out, joined.as_slice());
        out
    } else if joined.len() == 0 {
        let mut out: Vec<char> = Vec::new();
        out.push('.');
        out
    } else {
        joined
    }
}

} // verus!

verus! {

/// The index of the last separator in `p[l..e]`, or -1 when there is none.
pub open spec fn last_sep(p: Seq<char>, l: int, e: int) -> int
    decreases e - l,
{
    if e <= l {
        -1
    } else if p[e - 1] == '/' {
        e - 1
    } else {
        last_sep(p, l, e - 1)
    }
}

pub proof fn lemma_last_sep_bounds(p: Seq<char>, l: int, e: int)
    ensures
        last_sep(p, l, e) == -1 || (l <= last_sep(p, l, e) < e && p[last_sep(p, l, e)] == '/'),
        forall|j: int| last_sep(p, l, e) < j < e && l <= j ==> p[j] != '/',
    decreases e - l,
{
    if e > l && p[e - 1] != '/' {
        lemma_last_sep_bounds(p, l, e - 1);
    }
}

/// Where the last piece of `p[..e]` starts (the body starts at `l`).
pub open spec fn piece_start(p: Seq<char>, l: int, e: int) -> int {
    if last_sep(p, l, e) >= 0 { last_sep(p, l, e) + 1 } else { l }
}

/// The end of `p[..e]` once its last piece and the separator before it are removed.
pub open spec fn piece_cut(p: Seq<char>, l: int, e: int) -> int {
    if last_sep(p, l, e) >= 0 { last_sep(p, l, e) } else { l }
}

/// Whether the last piece of `p[..e]` is empty or `.` (no component).
pub open spec fn piece_is_blank(p: Seq<char>, l: int, e: int) -> bool {
    let s = piece_start(p, l, e);
    e == s || (e == s + 1 && p[s] == '.')
}

/// The end of `p[..e]` after trailing separators and `.` pieces are dropped.
pub open spec fn trim_end(p: Seq<char>, l: int, e: int) -> int
    decreases e - l,
{
    if e > l && piece_is_blank(p, l, e) {
        proof {
            lemma_last_sep_bounds(p, l, e);
        }
        trim_end(p, l, piece_cut(p, l, e))
    } else {
        e
    }
}

pub proof fn lemma_trim_end_bounds(p: Seq<char>, l: int, e: int)
    requires
        l <= e,
    ensures
        l <= trim_end(p, l, e) <= e,
    decreases e - l,
{
    if e > l && piece_is_blank(p, l, e) {
        lemma_last_sep_bounds(p, l, e);
        lemma_trim_end_bounds(p, l, piece_cut(p, l, e));
    }
}

/// The last component of the path when it names an entry, as `Path::file_name`.
pub open spec fn file_name_spec(p: Seq<char>) -> Option<Seq<char>> {
    let l = lead_len(p);
    let e = trim_end(p, l, p.len() as int);
    if e > l {
        let c = p.subrange(piece_start(p, l, e), e);
        if c == dotdot() {
            None
        } else {
            Some(c)
        }
    } else {
        None
    }
}

/// The path without its last component, as `Path::parent`.
pub open spec fn parent_spec(p: Seq<char>) -> Option<Seq<char>> {
    let l = lead_len(p);
    let e = trim_end(p, l, p.len() as int);
    if e > l {
        Some(p.take(trim_end(p, l, piece_cut(p, l, e))))
    } else if e > 0 && !has_root(p) {
        Some(seq![])
    } else {
        None
    }
}

/// The directory part of a path: its parent, or `.` when that is missing or empty.
pub open spec fn dirname_spec(p: Seq<char>) -> Seq<char> {
    match parent_spec(p) {
        Some(d) => if d.len() == 0 { dot() } else { d },
        None => dot(),
    }
}

/// The last path component (empty when there is none), without `ext`
/// when it ends with a non-empty `ext`.
pub open spec fn basename_spec(p: Seq<char>, ext: Option<Seq<char>>) -> Seq<char> {
    let name = match file_name_spec(p) {
        Some(n) => n,
        None => seq![],
    };
    match ext {
        Some(x) => if x.len() > 0 && ends_with(name, x) {
            name.take(name.len() - x.len())
        } else {
            name
        },
        None => name,
    }
}

/// The index of the last `.` in `s[..e]`, or -1.
pub open spec fn last_dot(s: Seq<char>, e: int) -> int
    decreases e,
{
    if e <= 0 {
        -1
    } else if s[e - 1] == '.' {
        e - 1
    } else {
        last_dot(s, e - 1)
    }
}

pub proof fn lemma_last_dot_bounds(s: Seq<char>, e: int)
    requires
        e <= s.len(),
    ensures
        last_dot(s, e) == -1 || (0 <= last_dot(s, e) < e && s[last_dot(s, e)] == '.'),
    decreases e,
{
    if e > 0 && s[e - 1] != '.' {
        lemma_last_dot_bounds(s, e - 1);
    }
}

/// The extension of the last component: `.` and what follows the last dot,
/// when that dot is not the component's first character; otherwise empty.
pub open spec fn extname_spec(p: Seq<char>) -> Seq<char> {
    match file_name_spec(p) {
        Some(n) => {
            let k = last_dot(n, n.len() as int);
            if k > 0 {
                dot() + n.skip(k + 1)
            } else {
                seq![]
            }
        },
        None => seq![],
    }
}

fn last_sep_exec(p: &[char], l: usize, e: usize) -> (r: Option<usize>)
    requires
        l <= e <= p@.len(),
    ensures
        match r {
            Some(i) => i as int == last_sep(p@, l as int, e as int),
            None => last_sep(p@, l as int, e as int) == -1,
        },
{
    let mut k: usize = e;
    while k > l
        invariant
            l <= k <= e <= p@.len(),
            last_sep(p@, l as int, e as int) == last_sep(p@, l as int, k as int),
        decreases k - l,
    {
        if p[k - 1] == '/' {
            assert(last_sep(p@, l as int, k as int) == k - 1);
            return Some(k - 1);
        }
        k = k - 1;
    }
    None
}

fn piece_start_exec(p: &[char], l: usize, e: usize) -> (r: usize)
    requires
        l <= e <= p@.len(),
    ensures
        r == piece_start(p@, l as int, e as int),
        l <= r <= e,
{
    proof {
        lemma_last_sep_bounds(p@, l as int, e as int);
    }
    match last_sep_exec(p, l, e) {
        Some(s) => s + 1,
        None => l,
    }
}

fn piece_cut_exec(p: &[char], l: usize, e: usize) -> (r: usize)
    requires
        l <= e <= p@.len(),
    ensures
        r == piece_cut(p@, l as int, e as int),
        l <= r <= e,
        e > l ==> r < e,
{
    proof {
        lemma_last_sep_bounds(p@, l as int, e as int);
    }
    match last_sep_exec(p, l, e) {
        Some(s) => s,
        None => l,
    }
}

fn trim_end_exec(p: &[char], l: usize, e: usize) -> (r: usize)
    requires
        l <= e <= p@.len(),
    ensures
        r == trim_end(p@, l as int, e as int),
        l <= r <= e,
{
    let mut k: usize = e;
    while k > l
        invariant
            l <= k <= e <= p@.len(),
                trim_end(p@, l as int, e as int) == trim_end(p@, l as int, k as int),
        decreases k,
    {
        let s = piece_start_exec(p, l, k);
        let blank = k == s || (k == s + 1 && p[s] == '.');
        if !blank {
            return k;
        }
        let c = piece_cut_exec(p, l, k);
        proof {
            lemma_last_sep_bounds(p@, l as int, k as int);
        }
        k = c;
    }
    k
}

/// `Some(component)` as `file_name_spec` gives it, over characters.
fn file_name_chars(p: &[char]) -> (r: Option<Vec<char>>)
    requires
    ensures
        match r {
            Some(v) => file_name_spec(p@) == Some(v@),
            None => file_name_spec(p@) is None,
        },
{
    let l = lead_len_exec(p);
    let e = trim_end_exec(p, l, p.len());
    if e > l {
        let s = piece_start_exec(p, l, e);
        let c = sub_chars(p, s, e);
        if is_dotdot(c.as_slice()) {
            None
        } else {
            Some(c)
        }
    } else {
        None
    }
}

fn dirname_chars(p: &[char]) -> (r: Vec<char>)
    requires
    ensures
        r@ == dirname_spec(p@),
{
    let l = lead_len_exec(p);
    let e = trim_end_exec(p, l, p.len());
    let mut dot_only: Vec<char> = Vec::new();
    dot_only.push('.');
    proof {
        assert(dot_only@ =~= dot());
    }
    if e > l {
        let c = piece_cut_exec(p, l, e);
        let e2 = trim_end_exec(p, l, c);
        if e2 == 0 {
            proof {
                assert(p@.take(0) =~= Seq::<char>::empty());
            }
            dot_only
        } else {
            let d = sub_chars(p, 0, e2);
            proof {
                assert(d@ =~= p@.take(e2 as int));
            }
            d
        }
    } else {
        dot_only
    }
}

} // verus!

verus! {

pub open spec fn str_views(ps: Seq<&str>) -> Seq<Seq<char>> {
    ps.map_values(|s: &str| s@)
}

/// Appends `q` to `r` as `PathBuf::push` does on Unix: an absolute `q`
/// replaces `r`; otherwise a `/` goes between them unless `r` is empty or
/// already ends with one.
pub open spec fn push_path(r: Seq<char>, q: Seq<char>) -> Seq<char> {
    if has_root(q) {
        q
    } else if r.len() == 0 || r.last() == '/' {
        r + q
    } else {
        r.push('/') + q
    }
}

/// The path that `resolve` builds before normalising it: each non-empty
/// argument pushed in turn.
pub open spec fn resolve_raw(ps: Seq<Seq<char>>) -> Seq<char>
    decreases ps.len(),
{
    if ps.len() == 0 {
        seq![]
    } else if ps.last().len() == 0 {
        resolve_raw(ps.drop_last())
    } else {
        push_path(resolve_raw(ps.drop_last()), ps.last())
    }
}

pub open spec fn resolve_spec(ps: Seq<Seq<char>>) -> Seq<char> {
    let r = resolve_raw(ps);
    if r.len() == 0 {
        dot()
    } else {
        normalize_spec(r)
    }
}

/// The path that `join` builds before normalising it: the pieces glued with
/// `/`, where an empty or `.` prefix is replaced by the next piece.
pub open spec fn join_raw(base: Seq<char>, ps: Seq<Seq<char>>) -> Seq<char>
    decreases ps.len(),
{
    if ps.len() == 0 {
        base
    } else {
        let r = join_raw(base, ps.drop_last());
        if r.len() == 0 || r == dot() {
            ps.last()
        } else {
            r.push('/') + ps.last()
        }
    }
}

/// Resolves a sequence of paths into a normalised path: later absolute
/// paths replace what came before, empty arguments are skipped, and `.` is
/// the result when nothing is left.
pub fn resolve(paths: &[&str]) -> (out: String)
    ensures
        out@ == resolve_spec(str_views(paths@)),
{
    let ghost ps = str_views(paths@);
    let mut r: Vec<char> = Vec::new();
    let mut i: usize = 0;
    while i < paths.len()
        invariant
            i <= paths@.len(),
            ps == str_views(paths@),
            r@ == resolve_raw(ps.take(i as int)),
        decreases paths@.len() - i,
    {
        proof {
            assert(ps.take(i + 1).drop_last() == ps.take(i as int));
            assert(ps.take(i + 1).last() == paths@[i as int]@);
        }
        let q = crate::text::chars_of(paths[i]);
        if q.len() == 0 {
        } else if q[0] == '/' {
            r = q;
        } else {
            if r.len() > 0 && r[r.len() - 1] != '/' {
                r.push('/');
            }
            extend_chars(&mut r, q.as_slice());
        }
        i = i + 1;
    }
    proof {
        assert(ps.take(paths@.len() as int) == ps);
    }
    if r.len() == 0 {
        let mut d: Vec<char> = Vec::new();
        d.push('.');
        proof {
            assert(d@ =~= dot());
        }
        return crate::text::string_of(d.as_slice());
    }
    let n = normalize_chars(r.as_slice());
    crate::text::string_of(n.as_slice())
}

/// Normalises a path (see `normalize_spec`).
pub fn normalize(path: &str) -> (out: String)
    ensures
        out@ == normalize_spec(path@),
{
    let p = crate::text::chars_of(path);
    let n = normalize_chars(p.as_slice());
    crate::text::string_of(n.as_slice())
}

/// Joins `base` and the `paths` with `/` and normalises the result.
pub fn join(base: &str, paths: &[&str]) -> (out: String)
    ensures
        out@ == normalize_spec(join_raw(base@, str_views(paths@))),
{
    let ghost ps = str_views(paths@);
    let mut r = crate::text::chars_of(base);
    let mut i: usize = 0;
    while i < paths.len()
        invariant
            i <= paths@.len(),
            ps == str_views(paths@),
            r@ == join_raw(base@, ps.take(i as int)),
        decreases paths@.len() - i,
    {
        proof {
            assert(ps.take(i + 1).drop_last() == ps.take(i as int));
            assert(ps.take(i + 1).last() == paths@[i as int]@);
        }
        let q = crate::text::chars_of(paths[i]);
        if r.len() == 0 || is_dot(r.as_slice()) {
            r = q;
        } else {
            r.push('/');
            extend_chars(&mut r, q.as_slice());
        }
        i = i + 1;
    }
    proof {
        assert(ps.take(paths@.len() as int) == ps);
    }
    let n = normalize_chars(r.as_slice());
    crate::text::string_of(n.as_slice())
}

/// `base` with `part` appended as `Path::join` does on Unix (see `push_path`).
pub fn push(base: &str, part: &str) -> (out: String)
    ensures
        out@ == push_path(base@, part@),
{
    let mut r = crate::text::chars_of(base);
    let q = crate::text::chars_of(part);
    if q.len() > 0 && q[0] == '/' {
        return crate::text::string_of(q.as_slice());
    }
    if r.len() > 0 && r[r.len() - 1] != '/' {
        r.push('/');
    }
    extend_chars(&mut r, q.as_slice());
    crate::text::string_of(r.as_slice())
}

/// The parent of a path as `Path::parent` gives it (see `parent_spec`).
pub fn parent(path: &str) -> (out: Option<String>)
    ensures
        match out {
            Some(d) => parent_spec(path@) == Some(d@),
            None => parent_spec(path@) is None,
        },
{
    let p = crate::text::chars_of(path);
    let l = lead_len_exec(p.as_slice());
    let e = trim_end_exec(p.as_slice(), l, p.len());
    if e > l {
        let c = piece_cut_exec(p.as_slice(), l, e);
        let e2 = trim_end_exec(p.as_slice(), l, c);
        let d = sub_chars(p.as_slice(), 0, e2);
        proof {
            assert(d@ =~= p@.take(e2 as int));
        }
        Some(crate::text::string_of(d.as_slice()))
    } else if e > 0 && !(p.len() > 0 && p[0] == '/') {
        Some(String::new())
    } else {
        None
    }
}

/// The directory part of a path (see `dirname_spec`).
pub fn dirname(path: &str) -> (out: String)
    ensures
        out@ == dirname_spec(path@),
{
    let p = crate::text::chars_of(path);
    let d = dirname_chars(p.as_slice());
    crate::text::string_of(d.as_slice())
}

/// The last component of a path, without `ext` when it ends with it.
pub fn basename(path: &str, ext: Option<&str>) -> (out: String)
    ensures
        out@ == basename_spec(path@, match ext {
            Some(x) => Some(x@),
            None => None,
        }),
{
    let p = crate::text::chars_of(path);
    let name = match file_name_chars(p.as_slice()) {
        Some(n) => n,
        None => Vec::new(),
    };
    proof {
        if file_name_spec(p@) is None {
            assert(name@ =~= Seq::<char>::empty());
        }
    }
    if let Some(suffix) = ext {
        let sx = crate::text::chars_of(suffix);
        if sx.len() > 0 && crate::text::has_suffix(name.as_slice(), sx.as_slice()) {
            let cut = sub_chars(name.as_slice(), 0, name.len() - sx.len());
            return crate::text::string_of(cut.as_slice());
        }
    }
    crate::text::string_of(name.as_slice())
}

fn last_dot_exec(s: &[char]) -> (r: Option<usize>)
    ensures
        match r {
            Some(k) => k as int == last_dot(s@, s@.len() as int),
            None => last_dot(s@, s@.len() as int) == -1,
        },
{
    let mut k: usize = s.len();
    while k > 0
        invariant
            k <= s@.len(),
            last_dot(s@, s@.len() as int) == last_dot(s@, k as int),
        decreases k,
    {
        if s[k - 1] == '.' {
            assert(last_dot(s@, k as int) == k - 1);
            return Some(k - 1);
        }
        k = k - 1;
    }
    None
}

fn extname_chars(p: &[char]) -> (out: Vec<char>)
    ensures
        out@ == extname_spec(p@),
{
    match file_name_chars(p) {
        Some(n) => {
            proof {
                lemma_last_dot_bounds(n@, n@.len() as int);
            }
            match last_dot_exec(n.as_slice()) {
                Some(k) => {
                    if k > 0 {
                        assert(k < n@.len());
                        let mut out: Vec<char> = Vec::new();
                        out.push('.');
                        let tail = sub_chars(n.as_slice(), k + 1, n.len());
                        extend_chars(&mut out, tail.as_slice());
                        proof {
                            assert(tail@ =~= n@.skip(k + 1));
                            assert(out@ =~= dot() + n@.skip(k + 1));
                        }
                        out
                    } else {
                        Vec::new()
                    }
                },
                None => Vec::new(),
            }
        },
        None => Vec::new(),
    }
}

/// The extension of the last component (see `extname_spec`).
pub fn extname(path: &str) -> (out: String)
    ensures
        out@ == extname_spec(path@),
{
    let p = crate::text::chars_of(path);
    let e = extname_chars(p.as_slice());
    crate::text::string_of(e.as_slice())
}

/// Whether the path starts at the root.
pub fn is_absolute(path: &str) -> (r: bool)
    ensures
        r == has_root(path@),
{
    let p = crate::text::chars_of(path);
    p.len() > 0 && p[0] == '/'
}

} // verus!

verus! {

/// The number of leading components that `a` and `b` share, counting from `i`.
pub open spec fn common_len(a: Seq<Seq<char>>, b: Seq<Seq<char>>, i: int) -> int
    decreases a.len() - i,
{
    if 0 <= i < a.len() && i < b.len() && a[i] == b[i] {
        common_len(a, b, i + 1)
    } else {
        i
    }
}

/// `r` followed by `n` parent steps, each after a `/` unless `r` is empty.
pub open spec fn push_ups(r: Seq<char>, n: nat) -> Seq<char>
    decreases n,
{
    if n == 0 {
        r
    } else {
        let prev = push_ups(r, (n - 1) as nat);
        (if prev.len() > 0 { prev.push('/') } else { prev }) + dotdot()
    }
}

/// `r` followed by the components `ts`: a `/` before each one unless the
/// text so far is empty, and the component itself only when it names an entry.
pub open spec fn push_tail(r: Seq<char>, ts: Seq<Seq<char>>) -> Seq<char>
    decreases ts.len(),
{
    if ts.len() == 0 {
        r
    } else {
        let prev = push_tail(r, ts.drop_last());
        let sep = if prev.len() > 0 { prev.push('/') } else { prev };
        if is_normal(ts.last()) {
            sep + ts.last()
        } else {
            sep
        }
    }
}

/// The way from `from` to `to`: empty when both have the same components;
/// otherwise a `..` for each component of `from` past the shared prefix,
/// then the rest of `to`, and `.` when that comes out empty.
pub open spec fn relative_spec(from: Seq<char>, to: Seq<char>) -> Seq<char> {
    let a = components(from);
    let b = components(to);
    if a == b {
        seq![]
    } else {
        let k = common_len(a, b, 0);
        let r = push_tail(push_ups(seq![], (a.len() - k) as nat), b.skip(k));
        if r.len() == 0 {
            dot()
        } else {
            r
        }
    }
}

pub proof fn lemma_common_len_bounds(a: Seq<Seq<char>>, b: Seq<Seq<char>>, i: int)
    requires
        0 <= i <= a.len(),
        i <= b.len(),
    ensures
        i <= common_len(a, b, i) <= a.len(),
        common_len(a, b, i) <= b.len(),
    decreases a.len() - i,
{
    if 0 <= i < a.len() && i < b.len() && a[i] == b[i] {
        lemma_common_len_bounds(a, b, i + 1);
    }
}

fn components_eq(a: &Vec<Vec<char>>, b: &Vec<Vec<char>>) -> (r: bool)
    ensures
        r == (vviews(a@) == vviews(b@)),
{
    if a.len() != b.len() {
        proof {
            assert(vviews(a@).len() != vviews(b@).len());
        }
        return false;
    }
    let mut i: usize = 0;
    while i < a.len()
        invariant
            a@.len() == b@.len(),
            i <= a@.len(),
            forall|j: int| 0 <= j < i ==> a@[j]@ == b@[j]@,
        decreases a@.len() - i,
    {
        if !crate::text::chars_eq(a[i].as_slice(), b[i].as_slice()) {
            proof {
                assert(vviews(a@)[i as int] != vviews(b@)[i as int]);
            }
            return false;
        }
        i = i + 1;
    }
    proof {
        assert(vviews(a@) =~= vviews(b@));
    }
    true
}

fn relative_chars(from: &[char], to: &[char]) -> (out: Vec<char>)
    ensures
        out@ == relative_spec(from@, to@),
{
    let a = components_exec(from);
    let b = components_exec(to);
    let ghost av = vviews(a@);
    let ghost bv = vviews(b@);
    if components_eq(&a, &b) {
        return Vec::new();
    }
    let mut k: usize = 0;
    let min = if a.len() < b.len() { a.len() } else { b.len() };
    let mut differ = false;
    while !differ && k < min
        invariant
            min <= a@.len(),
            min <= b@.len(),
            min == a@.len() || min == b@.len(),
            k <= min,
            av == vviews(a@),
            bv == vviews(b@),
            common_len(av, bv, 0) == common_len(av, bv, k as int),
            differ ==> k < min && av[k as int] != bv[k as int],
        decreases min - k, (if differ { 0int } else { 1int }),
    {
        if !crate::text::chars_eq(a[k].as_slice(), b[k].as_slice()) {
            differ = true;
        } else {
            k = k + 1;
        }
    }
    proof {
        assert(common_len(av, bv, k as int) == k);
        lemma_common_len_bounds(av, bv, 0);
    }
    let mut r: Vec<char> = Vec::new();
    let mut i: usize = k;
    while i < a.len()
        invariant
            k <= i <= a@.len(),
            r@ == push_ups(seq![], (i - k) as nat),
        decreases a@.len() - i,
    {
        if r.len() > 0 {
            r.push('/');
        }
        r.push('.');
        r.push('.');
        i = i + 1;
        proof {
            let prev = push_ups(seq![], (i - 1 - k) as nat);
            assert(r@ =~= (if prev.len() > 0 { prev.push('/') } else { prev }) + dotdot());
        }
    }
    let ghost base = r@;
    let ghost tail = bv.skip(k as int);
    let mut j: usize = k;
    while j < b.len()
        invariant
            k <= j <= b@.len(),
            bv == vviews(b@),
            tail == bv.skip(k as int),
            r@ == push_tail(base, tail.take(j - k)),
        decreases b@.len() - j,
    {
        proof {
            assert(tail.take(j + 1 - k).drop_last() == tail.take(j - k));
            assert(tail.take(j + 1 - k).last() == b@[j as int]@);
        }
        if r.len() > 0 {
            r.push('/');
        }
        let c = &b[j];
        let normal = !(c.len() == 1 && (c[0] == '/' || c[0] == '.')) && !is_dotdot(c.as_slice());
        proof {
            if c@.len() == 1 && c@[0] == '/' {
                assert(c@ =~= slash());
            }
            if c@.len() == 1 && c@[0] == '.' {
                assert(c@ =~= dot());
            }
            assert(normal == is_normal(c@));
        }
        if normal {
            extend_chars(&mut r, c.as_slice());
        }
        j = j + 1;
    }
    proof {
        assert(tail.take(b@.len() - k) == tail);
    }
    if r.len() == 0 {
        let mut d: Vec<char> = Vec::new();
        d.push('.');
        proof {
            assert(d@ =~= dot());
        }
        d
    } else {
        r
    }
}

/// The relative way from one path to another, computed on the paths as
/// given. Canonicalizing them (resolving `.`, `..` and symbolic links
/// against the file system) is the caller's job and is done first.
pub fn relative(from: &str, to: &str) -> (out: String)
    ensures
        out@ == relative_spec(from@, to@),
{
    let f = crate::text::chars_of(from);
    let t = crate::text::chars_of(to);
    let r = relative_chars(f.as_slice(), t.as_slice());
    crate::text::string_of(r.as_slice())
}

/// The parts of a path, as `parse` splits it.
pub struct ParsedPath {
    pub root: String,
    pub dir: String,
    pub base: String,
    pub ext: String,
    pub name: String,
}

/// `root` is `/` for an absolute path, `dir` its directory part, `base` the
/// last component, `ext` its extension, and `name` the last component
/// without the extension.
pub open spec fn parsed_as(p: Seq<char>, out: ParsedPath) -> bool {
    &&& out.root@ == (if has_root(p) { slash() } else { seq![] })
    &&& out.dir@ == dirname_spec(p)
    &&& out.base@ == basename_spec(p, None)
    &&& out.ext@ == extname_spec(p)
    &&& out.name@ == (if extname_spec(p).len() > 0 {
        basename_spec(p, None).take(basename_spec(p, None).len() - extname_spec(p).len())
    } else {
        basename_spec(p, None)
    })
}

/// Splits a path into root, directory, base name, extension and name.
pub fn parse(path: &str) -> (out: ParsedPath)
    ensures
        parsed_as(path@, out),
        ends_with(out.base@, out.ext@),
{
    let p = crate::text::chars_of(path);
    let root_chars: Vec<char> = if p.len() > 0 && p[0] == '/' {
        let mut v: Vec<char> = Vec::new();
        v.push('/');
        proof {
            assert(v@ =~= slash());
        }
        v
    } else {
        Vec::new()
    };
    let dir = dirname_chars(p.as_slice());
    let base = match file_name_chars(p.as_slice()) {
        Some(n) => n,
        None => Vec::new(),
    };
    proof {
        if file_name_spec(p@) is None {
            assert(base@ =~= Seq::<char>::empty());
        }
        assert(base@ == basename_spec(p@, None));
    }
    let ext = extname_chars(p.as_slice());
    proof {
        match file_name_spec(p@) {
            Some(n) => {
                lemma_last_dot_bounds(n, n.len() as int);
                let k = last_dot(n, n.len() as int);
                if k > 0 {
                    assert(n.subrange(n.len() - ext@.len(), n.len() as int) =~= ext@);
                }
            },
            None => {},
        }
        if ext@.len() == 0 {
            assert(base@.subrange(base@.len() as int, base@.len() as int) =~= ext@);
        }
    }
    let name = if ext.len() > 0 {
        sub_chars(base.as_slice(), 0, base.len() - ext.len())
    } else {
        copy_chars(&base)
    };
    proof {
        if ext@.len() > 0 {
            assert(name@ =~= base@.take(base@.len() - ext@.len()));
        }
    }
    ParsedPath {
        root: crate::text::string_of(root_chars.as_slice()),
        dir: crate::text::string_of(dir.as_slice()),
        base: crate::text::string_of(base.as_slice()),
        ext: crate::text::string_of(ext.as_slice()),
        name: crate::text::string_of(name.as_slice()),
    }
}

/// Puts parsed parts back together: `dir/base` when there is a directory,
/// else `root` followed by `base`.
pub open spec fn format_spec(parsed: ParsedPath) -> Seq<char> {
    if parsed.dir@.len() > 0 {
        parsed.dir@.push('/') + parsed.base@
    } else if parsed.root@.len() > 0 {
        parsed.root@ + parsed.base@
    } else {
        parsed.base@
    }
}

pub fn format(parsed: &ParsedPath) -> (out: String)
    ensures
        out@ == format_spec(*parsed),
{
    let mut out = String::new();
    if !parsed.dir.as_str().is_empty() {
        out.append(parsed.dir.as_str());
        out.push('/');
    } else if !parsed.root.as_str().is_empty() {
        out.append(parsed.root.as_str());
    }
    out.append(parsed.base.as_str());
    out
}

pub const SEP: &'static str = "/";

pub const DELIMITER: &'static str = ":";

} // verus!

verus! {

/// `b` without leading separators and `.` pieces.
pub open spec fn skip_blank(b: Seq<char>) -> Seq<char>
    decreases b.len(),
{
    if b.len() > 0 && (b[0] == '/' || (b[0] == '.' && (b.len() == 1 || b[1] == '/'))) {
        skip_blank(b.skip(1))
    } else {
        b
    }
}

/// The index of the first separator in `t`, or its length.
pub open spec fn first_sep(t: Seq<char>, i: int) -> int
    decreases t.len() - i,
{
    if 0 <= i < t.len() && t[i] != '/' {
        first_sep(t, i + 1)
    } else {
        i
    }
}

/// `t` without its first piece and the separator after it.
pub open spec fn drop_piece(t: Seq<char>) -> Seq<char> {
    let k = first_sep(t, 0);
    if k < t.len() {
        t.skip(k + 1)
    } else {
        seq![]
    }
}

/// The body text left after `c` components are read from its front.
pub open spec fn skip_comps(b: Seq<char>, c: nat) -> Seq<char>
    decreases c,
{
    if c == 0 {
        b
    } else {
        skip_comps(drop_piece(skip_blank(b)), (c - 1) as nat)
    }
}

/// What `Path::strip_prefix` leaves of `path` once `base` is removed: `None`
/// when the components of `base` do not begin those of `path`; otherwise the
/// rest of the text of `path`, without separators and `.` pieces at either end.
pub open spec fn strip_prefix_spec(base: Seq<char>, path: Seq<char>) -> Option<Seq<char>> {
    let bc = components(base);
    let pc = components(path);
    if bc.len() <= pc.len() && pc.take(bc.len() as int) == bc {
        if bc.len() == 0 {
            Some(path.take(trim_end(path, lead_len(path), path.len() as int)))
        } else {
            let n = body_parts(base.skip(lead_len(base))).len();
            let rest = skip_blank(skip_comps(path.skip(lead_len(path)), n));
            Some(rest.take(trim_end(rest, 0, rest.len() as int)))
        }
    } else {
        None
    }
}

pub proof fn lemma_first_sep_bounds(t: Seq<char>, i: int)
    requires
        0 <= i <= t.len(),
    ensures
        i <= first_sep(t, i) <= t.len(),
    decreases t.len() - i,
{
    if i < t.len() && t[i] != '/' {
        lemma_first_sep_bounds(t, i + 1);
    }
}

/// The index in `p` (from `i` on) where `skip_blank` leaves off.
fn skip_blank_at(p: &[char], i: usize) -> (j: usize)
    requires
        i <= p@.len(),
    ensures
        i <= j <= p@.len(),
        p@.skip(j as int) == skip_blank(p@.skip(i as int)),
{
    let mut j: usize = i;
    while j < p.len() && (p[j] == '/' || (p[j] == '.' && (j + 1 == p.len() || p[j + 1] == '/')))
        invariant
            i <= j <= p@.len(),
            skip_blank(p@.skip(i as int)) == skip_blank(p@.skip(j as int)),
        decreases p@.len() - j,
    {
        proof {
            assert(p@.skip(j as int).skip(1) == p@.skip(j + 1));
        }
        j = j + 1;
    }
    j
}

/// The index in `p` (from `i` on) where `drop_piece` leaves off.
fn drop_piece_at(p: &[char], i: usize) -> (j: usize)
    requires
        i <= p@.len(),
    ensures
        i <= j <= p@.len(),
        p@.skip(j as int) == drop_piece(p@.skip(i as int)),
{
    let ghost t = p@.skip(i as int);
    let mut k: usize = i;
    while k < p.len() && p[k] != '/'
        invariant
            i <= k <= p@.len(),
            t == p@.skip(i as int),
            first_sep(t, 0) == first_sep(t, k - i),
        decreases p@.len() - k,
    {
        k = k + 1;
    }
    proof {
        lemma_first_sep_bounds(t, 0);
    }
    if k < p.len() {
        proof {
            assert(t.skip(k - i + 1) == p@.skip(k + 1));
        }
        k + 1
    } else {
        proof {
            assert(p@.skip(k as int) =~= Seq::<char>::empty());
        }
        k
    }
}

/// What is left of `path` once the components of `base` are removed from
/// its front (see `strip_prefix_spec`).
pub fn strip_prefix(base: &str, path: &str) -> (out: Option<String>)
    ensures
        match out {
            Some(s) => strip_prefix_spec(base@, path@) == Some(s@),
            None => strip_prefix_spec(base@, path@) is None,
        },
{
    let b = crate::text::chars_of(base);
    let p = crate::text::chars_of(path);
    let bc = components_exec(b.as_slice());
    let pc = components_exec(p.as_slice());
    let ghost bv = vviews(bc@);
    let ghost pv = vviews(pc@);
    proof {
        assert(bv.len() == bc@.len() && pv.len() == pc@.len());
    }
    if bc.len() > pc.len() {
        proof {
            assert(bv == components(base@));
            assert(pv == components(path@));
            assert(!(bv.len() <= pv.len()));
            assert(strip_prefix_spec(base@, path@) is None);
        }
        return None;
    }
    let mut i: usize = 0;
    while i < bc.len()
        invariant
            bc@.len() <= pc@.len(),
            i <= bc@.len(),
            bv == vviews(bc@),
            pv == vviews(pc@),
            bv == components(base@),
            pv == components(path@),
            forall|j: int| 0 <= j < i ==> bv[j] == pv[j],
        decreases bc@.len() - i,
    {
        if !crate::text::chars_eq(bc[i].as_slice(), pc[i].as_slice()) {
            proof {
                assert(pv.take(bv.len() as int)[i as int] != bv[i as int]);
            }
            return None;
        }
        i = i + 1;
    }
    proof {
        assert(pv.take(bv.len() as int) =~= bv);
    }
    if bc.len() == 0 {
        let l = lead_len_exec(p.as_slice());
        let e = trim_end_exec(p.as_slice(), l, p.len());
        let out = sub_chars(p.as_slice(), 0, e);
        proof {
            assert(out@ =~= p@.take(e as int));
        }
        return Some(crate::text::string_of(out.as_slice()));
    }
    let bl = lead_len_exec(b.as_slice());
    let base_body = body_parts_exec(b.as_slice(), bl);
    let n = base_body.len();
    let pl = lead_len_exec(p.as_slice());
    let mut pos: usize = pl;
    let mut c: usize = 0;
    proof {
        assert(vviews(base_body@).len() == base_body@.len());
    }
    while c < n
        invariant
            pl <= pos <= p@.len(),
            c <= n,
            skip_comps(p@.skip(pl as int), n as nat) == skip_comps(p@.skip(pos as int), (n - c) as nat),
        decreases n - c,
    {
        let s = skip_blank_at(p.as_slice(), pos);
        let d = drop_piece_at(p.as_slice(), s);
        pos = d;
        c = c + 1;
    }
    let s = skip_blank_at(p.as_slice(), pos);
    let rest = sub_chars(p.as_slice(), s, p.len());
    proof {
        assert(rest@ =~= p@.skip(s as int));
    }
    let e = trim_end_exec(rest.as_slice(), 0, rest.len());
    let out = sub_chars(rest.as_slice(), 0, e);
    proof {
        assert(out@ =~= rest@.take(e as int));
    }
    Some(crate::text::string_of(out.as_slice()))
}

} // verus!

verus! {

/// A piece of a path between separators: not empty, no `/`, not `.`.
pub open spec fn is_piece(x: Seq<char>) -> bool {
    x.len() > 0 && x != dot() && forall|i: int| 0 <= i < x.len() ==> #[trigger] x[i] != '/'
}

/// A normalised stack: pieces, where `..` stands only first, and only in a
/// relative path.
pub open spec fn stack_ok(st: Seq<Seq<char>>, abs: bool) -> bool {
    forall|i: int|
        0 <= i < st.len() ==> is_piece(#[trigger] st[i]) && (st[i] == dotdot() ==> i == 0 && !abs)
}

proof fn lemma_scan_pieces(b: Seq<char>)
    ensures
        forall|i: int| 0 <= i < scan(b).0.len() ==> is_piece(#[trigger] scan(b).0[i]),
        forall|i: int| 0 <= i < scan(b).1.len() ==> #[trigger] scan(b).1[i] != '/',
    decreases b.len(),
{
    if b.len() > 0 {
        lemma_scan_pieces(b.drop_last());
        let prev = scan(b.drop_last());
        if b.last() != '/' {
            assert forall|i: int| 0 <= i < scan(b).1.len() implies #[trigger] scan(b).1[i] != '/' by {
                if i < prev.1.len() {
                    assert(scan(b).1[i] == prev.1[i]);
                }
            }
        } else {
            assert forall|i: int| 0 <= i < scan(b).0.len() implies is_piece(#[trigger] scan(b).0[i]) by {
                if i < prev.0.len() {
                    assert(scan(b).0[i] == prev.0[i]);
                }
            }
        }
    }
}

proof fn lemma_body_parts_pieces(b: Seq<char>)
    ensures
        forall|i: int| 0 <= i < body_parts(b).len() ==> is_piece(#[trigger] body_parts(b)[i]),
{
    lemma_scan_pieces(b);
    let s = scan(b);
    assert forall|i: int| 0 <= i < body_parts(b).len() implies is_piece(#[trigger] body_parts(b)[i]) by {
        if i < s.0.len() {
            assert(body_parts(b)[i] == s.0[i]);
        }
    }
}

proof fn lemma_norm_stack_ok(parts: Seq<Seq<char>>, abs: bool)
    requires
        forall|i: int| 0 <= i < parts.len() ==> is_piece(#[trigger] parts[i]),
    ensures
        stack_ok(norm_stack(parts, abs), abs),
    decreases parts.len(),
{
    if parts.len() > 0 {
        let pre = parts.drop_last();
        assert forall|i: int| 0 <= i < pre.len() implies is_piece(#[trigger] pre[i]) by {
            assert(pre[i] == parts[i]);
        }
        lemma_norm_stack_ok(pre, abs);
        let st = norm_stack(pre, abs);
        let part = parts.last();
        assert(is_piece(parts[parts.len() - 1]));
        let next = norm_step(st, part, abs);
        assert forall|i: int| 0 <= i < next.len() implies is_piece(#[trigger] next[i]) && (next[i]
            == dotdot() ==> i == 0 && !abs) by {
            if i < st.len() {
                assert(next[i] == st[i]);
            } else if part == dotdot() {
                assert(dotdot().len() == 2 && dotdot() != dot());
            }
        }
    }
}

proof fn lemma_norm_stack_fixed(st: Seq<Seq<char>>, abs: bool)
    requires
        stack_ok(st, abs),
    ensures
        norm_stack(st, abs) == st,
    decreases st.len(),
{
    if st.len() > 0 {
        let pre = st.drop_last();
        assert(stack_ok(pre, abs)) by {
            assert forall|i: int| 0 <= i < pre.len() implies is_piece(#[trigger] pre[i]) && (pre[i]
                == dotdot() ==> i == 0 && !abs) by {
                assert(pre[i] == st[i]);
            }
        }
        lemma_norm_stack_fixed(pre, abs);
        assert(st[st.len() - 1] == st.last());
        if st.last() == dotdot() {
            assert(pre.len() == 0);
            assert(seq![dotdot()] =~= st);
        } else {
            assert(pre.push(st.last()) =~= st);
        }
    }
}

proof fn lemma_scan_no_sep(x: Seq<char>, w: Seq<char>)
    requires
        forall|i: int| 0 <= i < w.len() ==> #[trigger] w[i] != '/',
    ensures
        scan(x + w) == (scan(x).0, scan(x).1 + w),
    decreases w.len(),
{
    if w.len() == 0 {
        assert(x + w =~= x);
        assert(scan(x).1 + w =~= scan(x).1);
    } else {
        let w2 = w.drop_last();
        lemma_scan_no_sep(x, w2);
        assert((x + w).drop_last() =~= x + w2);
        assert((x + w).last() == w[w.len() - 1]);
        assert((scan(x).1 + w2).push(w.last()) =~= scan(x).1 + w);
    }
}

proof fn lemma_scan_join(st: Seq<Seq<char>>)
    requires
        st.len() > 0,
        forall|i: int| 0 <= i < st.len() ==> is_piece(#[trigger] st[i]),
    ensures
        scan(join_with(st, slash())) == (st.drop_last(), st.last()),
    decreases st.len(),
{
    assert(is_piece(st[st.len() - 1]));
    if st.len() == 1 {
        lemma_scan_no_sep(seq![], st[0]);
        assert(seq![] + st[0] =~= st[0]);
        assert(st.drop_last() =~= Seq::<Seq<char>>::empty());
        assert(Seq::<char>::empty() + st[0] =~= st[0]);
    } else {
        let pre = st.drop_last();
        assert forall|i: int| 0 <= i < pre.len() implies is_piece(#[trigger] pre[i]) by {
            assert(pre[i] == st[i]);
        }
        lemma_scan_join(pre);
        let j = join_with(pre, slash());
        assert(is_piece(pre[pre.len() - 1]));
        let js = j + slash();
        assert(js.drop_last() =~= j);
        assert(scan(js) == (flush(pre.drop_last(), pre.last()), Seq::<char>::empty()));
        assert(flush(pre.drop_last(), pre.last()) =~= pre);
        lemma_scan_no_sep(js, st.last());
        assert(join_with(st, slash()) =~= js + st.last());
        assert(Seq::<char>::empty() + st.last() =~= st.last());
    }
}

proof fn lemma_body_parts_join(st: Seq<Seq<char>>)
    requires
        forall|i: int| 0 <= i < st.len() ==> is_piece(#[trigger] st[i]),
    ensures
        body_parts(join_with(st, slash())) == st,
{
    if st.len() == 0 {
        assert(join_with(st, slash()) =~= Seq::<char>::empty());
    } else {
        lemma_scan_join(st);
        assert(is_piece(st[st.len() - 1]));
        assert(st.drop_last().push(st.last()) =~= st);
    }
}

proof fn lemma_join_first(st: Seq<Seq<char>>)
    requires
        st.len() > 0,
        forall|i: int| 0 <= i < st.len() ==> is_piece(#[trigger] st[i]),
    ensures
        join_with(st, slash()).len() >= st[0].len(),
        forall|i: int| 0 <= i < st[0].len() ==> #[trigger] join_with(st, slash())[i] == st[0][i],
    decreases st.len(),
{
    if st.len() > 1 {
        let pre = st.drop_last();
        assert forall|i: int| 0 <= i < pre.len() implies is_piece(#[trigger] pre[i]) by {
            assert(pre[i] == st[i]);
        }
        lemma_join_first(pre);
        assert(pre[0] == st[0]);
    }
}

/// Normalising is idempotent: a normalised path is its own normal form.
pub proof fn law_normalize_idempotent(p: Seq<char>)
    ensures
        normalize_spec(normalize_spec(p)) == normalize_spec(p),
{
    let abs = has_root(p);
    let parts = body_parts(p.skip(lead_len(p)));
    lemma_body_parts_pieces(p.skip(lead_len(p)));
    lemma_norm_stack_ok(parts, abs);
    let st = norm_stack(parts, abs);
    assert forall|i: int| 0 <= i < st.len() implies is_piece(#[trigger] st[i]) by {}
    let r = join_with(st, slash());
    let q = normalize_spec(p);
    lemma_body_parts_join(st);
    lemma_norm_stack_fixed(st, abs);
    if abs {
        assert(q == slash() + r);
        assert(has_root(q));
        assert(q.skip(1) =~= r);
    } else if r.len() == 0 {
        assert(q == dot());
        assert(has_cur_dir(q));
        assert(q.skip(1) =~= Seq::<char>::empty());
        assert(body_parts(Seq::<char>::empty()) =~= Seq::<Seq<char>>::empty());
        assert(norm_stack(Seq::<Seq<char>>::empty(), false) =~= Seq::<Seq<char>>::empty());
        assert(join_with(Seq::<Seq<char>>::empty(), slash()) =~= Seq::<char>::empty());
    } else {
        assert(q == r);
        assert(st.len() > 0);
        lemma_join_first(st);
        assert(is_piece(st[0]));
        assert(r[0] == st[0][0]);
        assert(r[0] != '/');
        if st[0].len() >= 2 {
            assert(r[1] == st[0][1]);
        } else {
            assert(st[0] != dot());
            assert(st[0] =~= seq![st[0][0]]);
            assert(st[0][0] != '.');
        }
        assert(!has_cur_dir(q));
        assert(q.skip(0) =~= q);
    }
}

} // verus!

verus! {

/// Names only: pieces that are not `..`.
pub open spec fn names_ok(ns: Seq<Seq<char>>) -> bool {
    forall|i: int| 0 <= i < ns.len() ==> is_piece(#[trigger] ns[i]) && ns[i] != dotdot()
}

/// An absolute path whose pieces are all names (no `.` and no `..`), as a
/// canonical path is.
pub open spec fn is_canonical(p: Seq<char>) -> bool {
    has_root(p) && names_ok(body_parts(p.skip(1)))
}

proof fn lemma_scan_after_sep(z: Seq<char>, y: Seq<char>)
    requires
        scan(z).1.len() == 0,
    ensures
        scan(z + y) == (scan(z).0 + scan(y).0, scan(y).1),
    decreases y.len(),
{
    if y.len() == 0 {
        assert(z + y =~= z);
        assert(scan(z).0 + scan(y).0 =~= scan(z).0);
        assert(scan(z).1 =~= scan(y).1);
    } else {
        lemma_scan_after_sep(z, y.drop_last());
        assert((z + y).drop_last() =~= z + y.drop_last());
        assert((z + y).last() == y.last());
        let sy = scan(y.drop_last());
        if y.last() == '/' {
            if sy.1.len() == 0 || sy.1 == dot() {
            } else {
                assert((scan(z).0 + sy.0).push(sy.1) =~= scan(z).0 + sy.0.push(sy.1));
            }
        }
    }
}

/// The pieces of `x/y` are those of `x` followed by those of `y`.
proof fn lemma_body_parts_sep(x: Seq<char>, y: Seq<char>)
    ensures
        body_parts(x + seq!['/'] + y) == body_parts(x) + body_parts(y),
{
    let z = x + seq!['/'];
    assert(z.drop_last() =~= x);
    assert(z.last() == '/');
    assert(scan(z) == (body_parts(x), Seq::<char>::empty()));
    lemma_scan_after_sep(z, y);
    let sy = scan(y);
    if sy.1.len() == 0 || sy.1 == dot() {
    } else {
        assert((body_parts(x) + sy.0).push(sy.1) =~= body_parts(x) + sy.0.push(sy.1));
    }
}

/// `n` parent steps.
pub open spec fn ups(n: nat) -> Seq<Seq<char>> {
    Seq::new(n, |i: int| dotdot())
}

proof fn lemma_join_nonempty(l: Seq<Seq<char>>)
    requires
        l.len() > 0,
        forall|i: int| 0 <= i < l.len() ==> #[trigger] l[i].len() > 0,
    ensures
        join_with(l, slash()).len() > 0,
    decreases l.len(),
{
    if l.len() > 1 {
        lemma_join_nonempty(l.drop_last());
    }
}

proof fn lemma_push_ups_join(n: nat)
    ensures
        push_ups(seq![], n) == join_with(ups(n), slash()),
    decreases n,
{
    if n > 0 {
        lemma_push_ups_join((n - 1) as nat);
        assert(ups(n).drop_last() =~= ups((n - 1) as nat));
        if n == 1 {
            assert(push_ups(seq![], 0) =~= Seq::<char>::empty());
            assert(Seq::<char>::empty() + dotdot() =~= dotdot());
        } else {
            lemma_join_nonempty(ups((n - 1) as nat));
        }
    }
}

proof fn lemma_push_tail_join(l: Seq<Seq<char>>, ts: Seq<Seq<char>>)
    requires
        forall|i: int| 0 <= i < l.len() ==> #[trigger] l[i].len() > 0,
        names_ok(ts),
    ensures
        push_tail(join_with(l, slash()), ts) == join_with(l + ts, slash()),
    decreases ts.len(),
{
    if ts.len() == 0 {
        assert(l + ts =~= l);
    } else {
        let pre = ts.drop_last();
        assert(names_ok(pre)) by {
            assert forall|i: int| 0 <= i < pre.len() implies is_piece(#[trigger] pre[i]) && pre[i]
                != dotdot() by {
                assert(pre[i] == ts[i]);
            }
        }
        lemma_push_tail_join(l, pre);
        let last = ts.last();
        assert(is_piece(ts[ts.len() - 1]) && ts[ts.len() - 1] != dotdot());
        assert(last != slash()) by {
            if last == slash() {
                assert(last[0] == '/');
            }
        }
        assert(is_normal(last));
        let lt = l + ts;
        assert(lt.drop_last() =~= l + pre);
        assert(lt.last() == last);
        if join_with(l + pre, slash()).len() == 0 {
            if (l + pre).len() > 0 {
                assert forall|i: int| 0 <= i < (l + pre).len() implies #[trigger] (l + pre)[i].len()
                    > 0 by {
                    if i < l.len() {
                        assert((l + pre)[i] == l[i]);
                    } else {
                        assert((l + pre)[i] == pre[i - l.len()]);
                        assert(is_piece(pre[i - l.len()]));
                    }
                }
                lemma_join_nonempty(l + pre);
            }
            assert((l + pre).len() == 0);
            assert(lt =~= seq![last]);
            assert(Seq::<char>::empty() + last =~= last);
        }
    }
}

/// Normalisation as a fold from a given stack.
pub open spec fn norm_fold(st: Seq<Seq<char>>, parts: Seq<Seq<char>>, abs: bool) -> Seq<Seq<char>>
    decreases parts.len(),
{
    if parts.len() == 0 {
        st
    } else {
        norm_step(norm_fold(st, parts.drop_last(), abs), parts.last(), abs)
    }
}

proof fn lemma_norm_stack_fold(parts: Seq<Seq<char>>, abs: bool)
    ensures
        norm_stack(parts, abs) == norm_fold(seq![], parts, abs),
    decreases parts.len(),
{
    if parts.len() > 0 {
        lemma_norm_stack_fold(parts.drop_last(), abs);
    }
}

proof fn lemma_norm_fold_concat(st: Seq<Seq<char>>, a: Seq<Seq<char>>, b: Seq<Seq<char>>, abs: bool)
    ensures
        norm_fold(st, a + b, abs) == norm_fold(norm_fold(st, a, abs), b, abs),
    decreases b.len(),
{
    if b.len() == 0 {
        assert(a + b =~= a);
    } else {
        lemma_norm_fold_concat(st, a, b.drop_last(), abs);
        assert((a + b).drop_last() =~= a + b.drop_last());
        assert((a + b).last() == b.last());
    }
}

proof fn lemma_norm_fold_ups(st: Seq<Seq<char>>, n: nat)
    requires
        n <= st.len(),
        names_ok(st),
    ensures
        norm_fold(st, ups(n), true) == st.take(st.len() - n),
    decreases n,
{
    if n == 0 {
        assert(st.take(st.len() as int) =~= st);
    } else {
        lemma_norm_fold_ups(st, (n - 1) as nat);
        assert(ups(n).drop_last() =~= ups((n - 1) as nat));
        assert(ups(n).last() == dotdot());
        let cur = st.take(st.len() - (n - 1));
        assert(cur.len() > 0);
        assert(cur.last() == st[st.len() - n]);
        assert(cur.last() != dotdot());
        assert(cur.drop_last() =~= st.take(st.len() - n));
    }
}

proof fn lemma_norm_fold_names(st: Seq<Seq<char>>, ts: Seq<Seq<char>>, abs: bool)
    requires
        names_ok(ts),
    ensures
        norm_fold(st, ts, abs) == st + ts,
    decreases ts.len(),
{
    if ts.len() == 0 {
        assert(st + ts =~= st);
    } else {
        let pre = ts.drop_last();
        assert(names_ok(pre)) by {
            assert forall|i: int| 0 <= i < pre.len() implies is_piece(#[trigger] pre[i]) && pre[i]
                != dotdot() by {
                assert(pre[i] == ts[i]);
            }
        }
        lemma_norm_fold_names(st, pre, abs);
        assert(ts[ts.len() - 1] != dotdot());
        assert((st + pre).push(ts.last()) =~= st + ts);
    }
}

proof fn lemma_common_prefix(a: Seq<Seq<char>>, b: Seq<Seq<char>>, i: int)
    requires
        0 <= i <= a.len(),
        i <= b.len(),
        a.take(i) == b.take(i),
    ensures
        a.take(common_len(a, b, i)) == b.take(common_len(a, b, i)),
        common_len(a, b, i) < a.len() && common_len(a, b, i) < b.len() ==> a[common_len(a, b, i)]
            != b[common_len(a, b, i)],
    decreases a.len() - i,
{
    if 0 <= i < a.len() && i < b.len() && a[i] == b[i] {
        assert(a.take(i + 1) =~= a.take(i).push(a[i]));
        assert(b.take(i + 1) =~= b.take(i).push(b[i]));
        lemma_common_prefix(a, b, i + 1);
    }
}

/// Following the relative path from `from` leads to `to`: for canonical
/// paths, joining `from` with `relative(from, to)` and normalising gives
/// `to` normalised.
pub proof fn law_relative_leads_to_target(from: Seq<char>, to: Seq<char>)
    requires
        is_canonical(from),
        is_canonical(to),
    ensures
        normalize_spec(join_raw(from, seq![relative_spec(from, to)])) == normalize_spec(to),
{
    let nf = body_parts(from.skip(1));
    let nt = body_parts(to.skip(1));
    let a = components(from);
    let b = components(to);
    assert(lead_len(from) == 1 && lead_len(to) == 1);
    assert(a == seq![slash()] + nf);
    assert(b == seq![slash()] + nt);
    assert forall|i: int| 0 <= i < nf.len() implies #[trigger] nf[i].len() > 0 by {
        assert(is_piece(nf[i]));
    }
    assert forall|i: int| 0 <= i < nt.len() implies #[trigger] nt[i].len() > 0 by {
        assert(is_piece(nt[i]));
    }
    assert(stack_ok(nf, true));
    assert(stack_ok(nt, true));
    lemma_norm_stack_fixed(nf, true);
    lemma_norm_stack_fixed(nt, true);
    let r = relative_spec(from, to);
    let ps = seq![r];
    assert(ps.drop_last() =~= Seq::<Seq<char>>::empty());
    assert(join_raw(from, ps.drop_last()) == from);
    assert(from != dot());
    let joined = join_raw(from, ps);
    assert(joined == from.push('/') + r);
    assert(has_root(joined));
    assert(lead_len(joined) == 1);
    assert(joined.skip(1) =~= from.skip(1) + seq!['/'] + r);
    lemma_body_parts_sep(from.skip(1), r);
    if a == b {
        assert(nf =~= a.skip(1));
        assert(nt =~= b.skip(1));
        assert(r.len() == 0);
        assert(body_parts(r) =~= Seq::<Seq<char>>::empty());
        assert(body_parts(joined.skip(1)) =~= nf);
    } else {
        lemma_common_len_bounds(a, b, 0);
        assert(a[0] == b[0]);
        assert(a.take(1) =~= b.take(1));
        lemma_common_len_bounds(a, b, 1);
        assert(common_len(a, b, 0) == common_len(a, b, 1));
        let k = common_len(a, b, 0);
        lemma_common_prefix(a, b, 1);
        let m = (a.len() - k) as nat;
        let tail = b.skip(k);
        assert(tail =~= nt.skip(k - 1));
        assert(names_ok(tail)) by {
            assert forall|i: int| 0 <= i < tail.len() implies is_piece(#[trigger] tail[i]) && tail[i]
                != dotdot() by {
                assert(tail[i] == nt[i + k - 1]);
            }
        }
        lemma_push_ups_join(m);
        assert forall|i: int| 0 <= i < ups(m).len() implies #[trigger] ups(m)[i].len() > 0 by {}
        lemma_push_tail_join(ups(m), tail);
        let list = ups(m) + tail;
        let raw = push_tail(push_ups(seq![], m), tail);
        assert(raw == join_with(list, slash()));
        assert(list.len() > 0) by {
            if list.len() == 0 {
                assert(m == 0 && tail.len() == 0);
                assert(k == a.len() && k == b.len());
                assert(a =~= a.take(k));
                assert(b =~= b.take(k));
            }
        }
        assert forall|i: int| 0 <= i < list.len() implies is_piece(#[trigger] list[i]) by {
            if i < m {
                assert(list[i] == dotdot());
                assert(dotdot().len() == 2 && dotdot() != dot());
            } else {
                assert(list[i] == tail[i - m]);
            }
        }
        assert forall|i: int| 0 <= i < list.len() implies #[trigger] list[i].len() > 0 by {
            assert(is_piece(list[i]));
        }
        lemma_join_nonempty(list);
        assert(r == raw);
        lemma_body_parts_join(list);
        let parts = nf + (ups(m) + tail);
        assert(body_parts(joined.skip(1)) == parts);
        lemma_norm_stack_fold(parts, true);
        lemma_norm_fold_concat(seq![], nf, ups(m) + tail, true);
        lemma_norm_stack_fold(nf, true);
        lemma_norm_fold_concat(nf, ups(m), tail, true);
        assert(names_ok(nf));
        lemma_norm_fold_ups(nf, m);
        let kept = nf.take(nf.len() - m);
        assert(kept.len() == k - 1);
        lemma_norm_fold_names(kept, tail, true);
        assert(a.take(k) == b.take(k));
        assert(kept =~= nt.take(k - 1)) by {
            assert forall|i: int| 0 <= i < k - 1 implies kept[i] == nt.take(k - 1)[i] by {
                assert(a.take(k)[i + 1] == b.take(k)[i + 1]);
            }
        }
        assert(kept + tail =~= nt);
        assert(norm_stack(parts, true) == nt);
    }
}

} // verus!

verus! {

proof fn lemma_last_sep_skip(q: Seq<char>, l: int, s: int, e: int)
    requires
        l <= s <= e,
        forall|j: int| s <= j < e ==> q[j] != '/',
    ensures
        last_sep(q, l, e) == last_sep(q, l, s),
    decreases e - s,
{
    if e > s {
        lemma_last_sep_skip(q, l, s, e - 1);
    }
}

/// The piece of `q` that ends at `e` starts at `s` (at the start of the
/// body, or just after a separator): it is found as the last piece, and
/// when it is a name, nothing is trimmed there.
proof fn lemma_piece_ends_at(q: Seq<char>, l: int, s: int, e: int)
    requires
        0 <= l <= s < e <= q.len(),
        forall|j: int| s <= j < e ==> q[j] != '/',
        s == l || q[s - 1] == '/',
        q.subrange(s, e) != dot(),
    ensures
        piece_start(q, l, e) == s,
        piece_cut(q, l, e) == if s == l { l } else { s - 1 },
        trim_end(q, l, e) == e,
{
    lemma_last_sep_skip(q, l, s, e);
    if s > l {
        assert(last_sep(q, l, s) == s - 1);
    } else {
        assert(last_sep(q, l, s) == -1);
    }
    if e == s + 1 && q[s] == '.' {
        assert(q.subrange(s, e) =~= dot());
    }
    assert(!piece_is_blank(q, l, e));
}

/// The last piece of `q` from `s` to its end is a name and a separator stands
/// just before it; the piece before that ends at the separator.
proof fn lemma_join_tail(st: Seq<Seq<char>>)
    requires
        st.len() >= 1,
        forall|i: int| 0 <= i < st.len() ==> is_piece(#[trigger] st[i]),
    ensures
        join_with(st, slash()).len() >= st.last().len(),
        join_with(st, slash()).subrange(
            join_with(st, slash()).len() - st.last().len(),
            join_with(st, slash()).len() as int,
        ) == st.last(),
        st.len() == 1 ==> join_with(st, slash()) == st[0],
        st.len() >= 2 ==> join_with(st, slash()) == join_with(st.drop_last(), slash()) + slash()
            + st.last(),
        st.len() >= 2 ==> join_with(st.drop_last(), slash()).len() > 0,
{
    let j = join_with(st, slash());
    if st.len() >= 2 {
        let pre = st.drop_last();
        assert forall|i: int| 0 <= i < pre.len() implies #[trigger] pre[i].len() > 0 by {
            assert(pre[i] == st[i]);
            assert(is_piece(st[i]));
        }
        lemma_join_nonempty(pre);
        assert(j.subrange(j.len() - st.last().len(), j.len() as int) =~= st.last());
    } else {
        assert(st.last() == st[0]);
        assert(j.subrange(0, j.len() as int) =~= j);
    }
}

/// Formatting the parts of a normalised path gives the path back, when its
/// directory part is neither `.` nor `/`.
#[verifier::rlimit(40)]
#[verifier::spinoff_prover]
pub proof fn law_format_parse(p: Seq<char>, parsed: ParsedPath)
    requires
        normalize_spec(p) == p,
        parsed_as(p, parsed),
        dirname_spec(p) != dot(),
        dirname_spec(p) != slash(),
    ensures
        format_spec(parsed) == p,
{
    let abs = has_root(p);
    let parts = body_parts(p.skip(lead_len(p)));
    lemma_body_parts_pieces(p.skip(lead_len(p)));
    lemma_norm_stack_ok(parts, abs);
    let st = norm_stack(parts, abs);
    let r = join_with(st, slash());
    let q = normalize_spec(p);
    let n = st.len();
    let off: int = if abs { 1 } else { 0 };
    assert(q == p);
    if n == 0 {
        assert(r =~= Seq::<char>::empty());
        if abs {
            assert(q =~= slash());
            assert(lead_len(q) == 1);
            assert(trim_end(q, 1, 1) == 1);
            assert(parent_spec(q) is None);
        } else {
            assert(q == dot());
            assert(lead_len(q) == 1);
            assert(trim_end(q, 1, 1) == 1);
            assert(parent_spec(q) == Some(Seq::<char>::empty()));
        }
        assert(false);
    }
    lemma_join_tail(st);
    lemma_join_first(st);
    let last = st.last();
    assert(is_piece(st[n - 1]));
    assert(r.len() > 0);
    if abs {
        assert(q == slash() + r);
    } else {
        assert(q == r);
    }
    assert(q.len() == off + r.len());
    assert forall|i: int| 0 <= i < r.len() implies #[trigger] q[off + i] == r[i] by {}
    // the lead of q
    if !abs {
        assert(r[0] == st[0][0]);
        assert(is_piece(st[0]));
        assert(r[0] != '/');
        if st[0].len() >= 2 {
            assert(r[1] == st[0][1]);
        } else {
            assert(st[0] =~= seq![st[0][0]]);
        }
        assert(!has_cur_dir(q));
    }
    assert(lead_len(q) == off);
    let l = off;
    let e0 = q.len() as int;
    let s = e0 - last.len();
    // the last piece
    assert forall|j: int| s <= j < e0 implies q[j] != '/' by {
        assert(q[j] == r[j - off]);
        assert(r.subrange(r.len() - last.len(), r.len() as int)[j - off - (r.len() - last.len())]
            == last[j - s]);
    }
    assert(q.subrange(s, e0) =~= last);
    if n == 1 {
        assert(s == l);
        lemma_piece_ends_at(q, l, s, e0);
        assert(trim_end(q, l, l) == l);
        if abs {
            assert(q.take(1) =~= slash());
            assert(parent_spec(q) == Some(slash()));
        } else {
            assert(q.take(0) =~= Seq::<char>::empty());
            assert(parent_spec(q) == Some(Seq::<char>::empty()));
        }
        assert(false);
    }
    let pre = st.drop_last();
    let x = join_with(pre, slash());
    let k = off + x.len();
    assert(r == x + slash() + last);
    assert(s == k + 1);
    assert(q[k] == r[x.len() as int]);
    assert(q[s - 1] == '/');
    lemma_piece_ends_at(q, l, s, e0);
    // the piece before it
    assert forall|i: int| 0 <= i < pre.len() implies is_piece(#[trigger] pre[i]) by {
        assert(pre[i] == st[i]);
    }
    lemma_join_tail(pre);
    let prev = pre.last();
    assert(prev == st[n - 2]);
    assert(is_piece(st[n - 2]));
    let s2 = k - prev.len();
    assert forall|j: int| s2 <= j < k implies q[j] != '/' by {
        assert(q[j] == r[j - off]);
        assert(r[j - off] == x[j - off]);
        assert(x.subrange(x.len() - prev.len(), x.len() as int)[j - off - (x.len() - prev.len())]
            == prev[j - s2]);
    }
    assert(q.subrange(s2, k) =~= prev);
    if pre.len() == 1 {
        assert(x == pre[0]);
        assert(s2 == l);
    } else {
        lemma_join_tail(pre);
        let y = join_with(pre.drop_last(), slash());
        assert(x == y + slash() + prev);
        assert(q[s2 - 1] == r[off + y.len() - off]);
        assert(r[y.len() as int] == x[y.len() as int]);
        assert(s2 > l);
    }
    lemma_piece_ends_at(q, l, s2, k);
    assert(parent_spec(q) == Some(q.take(k)));
    assert(dirname_spec(q) == q.take(k));
    // the name
    assert(last != dotdot());
    assert(file_name_spec(q) == Some(last));
    assert(parsed.dir@ == q.take(k));
    assert(parsed.base@ == last);
    assert(parsed.dir@.len() > 0);
    assert(q.take(k).push('/') + last =~= q);
}

/// An absolute path that is its own normal form is canonical: normalising
/// an absolute path folds every `..` away.
pub proof fn lemma_normalized_absolute_canonical(p: Seq<char>)
    requires
        has_root(p),
        normalize_spec(p) == p,
    ensures
        is_canonical(p),
{
    let parts = body_parts(p.skip(lead_len(p)));
    lemma_body_parts_pieces(p.skip(lead_len(p)));
    lemma_norm_stack_ok(parts, true);
    let st = norm_stack(parts, true);
    assert forall|i: int| 0 <= i < st.len() implies is_piece(#[trigger] st[i]) by {}
    lemma_body_parts_join(st);
    let r = join_with(st, slash());
    assert(p == slash() + r);
    assert(p.skip(1) =~= r);
    assert forall|i: int| 0 <= i < st.len() implies is_piece(#[trigger] st[i]) && st[i]
        != dotdot() by {}
}

/// Following the relative path from `from` leads to `to`, for absolute
/// paths in normal form: joining `from` with `relative(from, to)` and
/// normalising gives `to` back.
pub proof fn law_relative_on_normalized(from: Seq<char>, to: Seq<char>)
    requires
        has_root(from),
        normalize_spec(from) == from,
        has_root(to),
        normalize_spec(to) == to,
    ensures
        normalize_spec(join_raw(from, seq![relative_spec(from, to)])) == to,
{
    lemma_normalized_absolute_canonical(from);
    lemma_normalized_absolute_canonical(to);
    law_relative_leads_to_target(from, to);
}


/// `basename` with a suffix drops exactly that suffix: when the last
/// component `n` of the path ends with a non-empty `x`, the result is `n`
/// without its last `x.len()` characters, whatever `x` holds and wherever
/// the dots of `n` are; otherwise it is `n` itself.
pub proof fn law_basename_drops_suffix(p: Seq<char>, x: Seq<char>)
    ensures
        ({
            let n = basename_spec(p, None);
            &&& x.len() > 0 && x.len() <= n.len() && n.subrange(n.len() - x.len(), n.len() as int)
                == x ==> basename_spec(p, Some(x)) == n.subrange(0, n.len() - x.len())
            &&& !(x.len() > 0 && x.len() <= n.len() && n.subrange(n.len() - x.len(), n.len() as int)
                == x) ==> basename_spec(p, Some(x)) == n
        }),
{
    let n = basename_spec(p, None);
    assert(n.take(n.len() - x.len()) =~= n.subrange(0, n.len() - x.len()));
}

/// `format` joins the directory and the base with `/`; with no directory,
/// the root (kept whole, so an absolute root stays) comes before the base.
pub proof fn law_format_root_and_dir(parsed: ParsedPath)
    ensures
        parsed.dir@.len() > 0 ==> format_spec(parsed) == parsed.dir@ + seq!['/'] + parsed.base@,
        parsed.dir@.len() == 0 ==> format_spec(parsed) == parsed.root@ + parsed.base@,
        parsed.dir@.len() == 0 && parsed.root@ == seq!['/'] ==> format_spec(parsed).len() > 0
            && format_spec(parsed)[0] == '/',
{
    if parsed.dir@.len() > 0 {
        assert(parsed.dir@.push('/') =~= parsed.dir@ + seq!['/']);
    } else if parsed.root@.len() == 0 {
        assert(parsed.root@ + parsed.base@ =~= parsed.base@);
    }
}

} // verus!
