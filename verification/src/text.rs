//! Character-level helpers shared by the modules that build or inspect text.
use vstd::prelude::*;

verus! {

/// `String::push`, as std documents it: the character is appended.
pub assume_specification[ std::string::String::push ](s: &mut std::string::String, ch: char)
    ensures
        final(s)@ == old(s)@.push(ch),
;

/// The characters of a string slice, in order.
pub fn chars_of(s: &str) -> (out: Vec<char>)
    ensures
        out@ == s@,
{
    let mut out: Vec<char> = Vec::new();
    for c in it: s.chars()
        invariant
            out@ == it.seq().take(it.index() as int),
            it.seq() == s@,
    {
        out.push(c);
    }
    out
}

/// A string holding exactly the given characters.
pub fn string_of(cs: &[char]) -> (out: String)
    ensures
        out@ == cs@,
{
    let mut out = String::new();
    let mut i: usize = 0;
    while i < cs.len()
        invariant
            i <= cs@.len(),
            out@ == cs@.take(i as int),
        decreases cs@.len() - i,
    {
        out.push(cs[i]);
        i = i + 1;
        proof {
            assert(cs@.take(i as int) == cs@.take(i - 1).push(cs@[i - 1]));
        }
    }
    proof {
        assert(cs@.take(cs@.len() as int) == cs@);
    }
    out
}

/// Appends the characters of `tail` to `out`.
pub fn extend_chars(out: &mut Vec<char>, tail: &[char])
    ensures
        final(out)@ == old(out)@ + tail@,
{
    let mut i: usize = 0;
    while i < tail.len()
        invariant
            i <= tail@.len(),
            out@ == old(out)@ + tail@.take(i as int),
        decreases tail@.len() - i,
    {
        out.push(tail[i]);
        i = i + 1;
        proof {
            assert(tail@.take(i as int) == tail@.take(i - 1).push(tail@[i - 1]));
        }
    }
    proof {
        assert(tail@.take(tail@.len() as int) == tail@);
    }
}

/// Whether two character sequences are equal.
pub fn chars_eq(a: &[char], b: &[char]) -> (r: bool)
    ensures
        r == (a@ == b@),
{
    if a.len() != b.len() {
        return false;
    }
    let mut i: usize = 0;
    while i < a.len()
        invariant
            a@.len() == b@.len(),
            i <= a@.len(),
            forall|j: int| 0 <= j < i ==> a@[j] == b@[j],
        decreases a@.len() - i,
    {
        if a[i] != b[i] {
            return false;
        }
        i = i + 1;
    }
    proof {
        assert(a@ =~= b@);
    }
    true
}

/// Whether `s` equals the given string literal, char by char.
pub fn chars_eq_str(a: &[char], b: &str) -> (r: bool)
    ensures
        r == (a@ == b@),
{
    let bv = chars_of(b);
    chars_eq(a, bv.as_slice())
}

/// `s` ends with `suffix`.
pub open spec fn ends_with(s: Seq<char>, suffix: Seq<char>) -> bool {
    suffix.len() <= s.len() && s.subrange(s.len() - suffix.len(), s.len() as int) == suffix
}

/// `s` starts with `prefix`.
pub open spec fn starts_with(s: Seq<char>, prefix: Seq<char>) -> bool {
    prefix.len() <= s.len() && s.take(prefix.len() as int) == prefix
}

pub fn has_suffix(s: &[char], suffix: &[char]) -> (r: bool)
    ensures
        r == ends_with(s@, suffix@),
{
    if suffix.len() > s.len() {
        return false;
    }
    let off = s.len() - suffix.len();
    let mut i: usize = 0;
    while i < suffix.len()
        invariant
            off + suffix@.len() == s@.len(),
            s@.len() == s.len(),
            i <= suffix@.len(),
            forall|j: int| 0 <= j < i ==> s@[off + j] == suffix@[j],
        decreases suffix@.len() - i,
    {
        if s[off + i] != suffix[i] {
            proof {
                assert(s@.subrange(off as int, s@.len() as int)[i as int] != suffix@[i as int]);
            }
            return false;
        }
        i = i + 1;
    }
    proof {
        assert(s@.subrange(off as int, s@.len() as int) =~= suffix@);
    }
    true
}

pub fn has_prefix(s: &[char], prefix: &[char]) -> (r: bool)
    ensures
        r == starts_with(s@, prefix@),
{
    if prefix.len() > s.len() {
        return false;
    }
    let mut i: usize = 0;
    while i < prefix.len()
        invariant
            prefix@.len() <= s@.len(),
            i <= prefix@.len(),
            forall|j: int| 0 <= j < i ==> s@[j] == prefix@[j],
        decreases prefix@.len() - i,
    {
        if s[i] != prefix[i] {
            proof {
                assert(s@.take(prefix@.len() as int)[i as int] != prefix@[i as int]);
            }
            return false;
        }
        i = i + 1;
    }
    proof {
        assert(s@.take(prefix@.len() as int) =~= prefix@);
    }
    true
}

/// The characters `s[from..to]`.
pub fn sub_chars(s: &[char], from: usize, to: usize) -> (out: Vec<char>)
    requires
        from <= to <= s@.len(),
    ensures
        out@ == s@.subrange(from as int, to as int),
{
    let mut out: Vec<char> = Vec::new();
    let mut i: usize = from;
    while i < to
        invariant
            from <= i <= to <= s@.len(),
            out@ == s@.subrange(from as int, i as int),
        decreases to - i,
    {
        out.push(s[i]);
        i = i + 1;
        proof {
            assert(s@.subrange(from as int, i as int) == s@.subrange(from as int, i - 1).push(
                s@[i - 1],
            ));
        }
    }
    out
}

/// The decimal digits of `n`, most significant first, without leading zeros
/// (zero itself is the single digit `0`).
pub open spec fn decimal(n: nat) -> Seq<char>
    decreases n,
{
    if n < 10 {
        seq![digit(n)]
    } else {
        decimal(n / 10).push(digit(n % 10))
    }
}

pub open spec fn digit(d: nat) -> char {
    if d == 0 { '0' }
    else if d == 1 { '1' }
    else if d == 2 { '2' }
    else if d == 3 { '3' }
    else if d == 4 { '4' }
    else if d == 5 { '5' }
    else if d == 6 { '6' }
    else if d == 7 { '7' }
    else if d == 8 { '8' }
    else { '9' }
}

fn digit_char(d: u64) -> (c: char)
    requires
        d < 10,
    ensures
        c == digit(d as nat),
{
    if d == 0 { '0' }
    else if d == 1 { '1' }
    else if d == 2 { '2' }
    else if d == 3 { '3' }
    else if d == 4 { '4' }
    else if d == 5 { '5' }
    else if d == 6 { '6' }
    else if d == 7 { '7' }
    else if d == 8 { '8' }
    else { '9' }
}

/// The decimal rendering of `n`, as `{}` formats an unsigned integer.
pub fn decimal_chars(n: u64) -> (out: Vec<char>)
    ensures
        out@ == decimal(n as nat),
    decreases n,
{
    if n < 10 {
        let mut out: Vec<char> = Vec::new();
        out.push(digit_char(n));
        out
    } else {
        let mut out = decimal_chars(n / 10);
        out.push(digit_char(n % 10));
        out
    }
}

pub fn decimal_string(n: u64) -> (out: String)
    ensures
        out@ == decimal(n as nat),
{
    let cs = decimal_chars(n);
    string_of(cs.as_slice())
}

/// Joins the pieces with `sep` between neighbours.
pub open spec fn join_with(pieces: Seq<Seq<char>>, sep: Seq<char>) -> Seq<char>
    decreases pieces.len(),
{
    if pieces.len() == 0 {
        seq![]
    } else if pieces.len() == 1 {
        pieces[0]
    } else {
        join_with(pieces.drop_last(), sep) + sep + pieces.last()
    }
}

pub open spec fn views_of(v: Seq<String>) -> Seq<Seq<char>> {
    v.map_values(|s: String| s@)
}

/// Joins strings with a separator, as `[String]::join` does.
pub fn join_strings(pieces: &[String], sep: &str) -> (out: String)
    ensures
        out@ == join_with(views_of(pieces@), sep@),
{
    let mut out = String::new();
    let ghost vs = views_of(pieces@);
    let mut i: usize = 0;
    while i < pieces.len()
        invariant
            i <= pieces@.len(),
            vs == views_of(pieces@),
            out@ == join_with(vs.take(i as int), sep@),
        decreases pieces@.len() - i,
    {
        proof {
            assert(vs.take(i + 1).drop_last() == vs.take(i as int));
            assert(vs.take(i + 1).last() == pieces@[i as int]@);
        }
        if i > 0 {
            out.append(sep);
        }
        out.append(pieces[i].as_str());
        i = i + 1;
    }
    proof {
        assert(vs.take(pieces@.len() as int) == vs);
    }
    out
}

} // verus!

verus! {

/// A fresh copy of a character vector.
pub fn copy_chars(x: &Vec<char>) -> (r: Vec<char>)
    ensures
        r@ == x@,
{
    let r = x.clone();
    proof {
        assert(r@ =~= x@);
    }
    r
}

} // verus!

verus! {

/// The characters that `char::is_whitespace` accepts (Unicode White_Space).
pub open spec fn is_ws(c: char) -> bool {
    let u = c as u32;
    (0x9 <= u && u <= 0xd) || u == 0x20 || u == 0x85 || u == 0xa0 || u == 0x1680 || (0x2000 <= u
        && u <= 0x200a) || u == 0x2028 || u == 0x2029 || u == 0x202f || u == 0x205f || u == 0x3000
}

pub fn is_ws_exec(c: char) -> (r: bool)
    ensures
        r == is_ws(c),
{
    let u = c as u32;
    (0x9 <= u && u <= 0xd) || u == 0x20 || u == 0x85 || u == 0xa0 || u == 0x1680 || (0x2000 <= u
        && u <= 0x200a) || u == 0x2028 || u == 0x2029 || u == 0x202f || u == 0x205f || u == 0x3000
}

/// The index of the first non-whitespace character of `s` at or after `i`.
pub open spec fn first_non_ws(s: Seq<char>, i: int) -> int
    decreases s.len() - i,
{
    if 0 <= i < s.len() && is_ws(s[i]) {
        first_non_ws(s, i + 1)
    } else {
        i
    }
}

/// The end of `s[lo..e]` once trailing whitespace is dropped.
pub open spec fn end_non_ws(s: Seq<char>, lo: int, e: int) -> int
    decreases e - lo,
{
    if e > lo && is_ws(s[e - 1]) {
        end_non_ws(s, lo, e - 1)
    } else {
        e
    }
}

/// `s` without leading and trailing whitespace, as `str::trim`.
pub open spec fn trim_ws(s: Seq<char>) -> Seq<char> {
    let a = first_non_ws(s, 0);
    s.subrange(a, end_non_ws(s, a, s.len() as int))
}

pub proof fn lemma_first_non_ws_bounds(s: Seq<char>, i: int)
    requires
        0 <= i <= s.len(),
    ensures
        i <= first_non_ws(s, i) <= s.len(),
    decreases s.len() - i,
{
    if i < s.len() && is_ws(s[i]) {
        lemma_first_non_ws_bounds(s, i + 1);
    }
}

pub proof fn lemma_end_non_ws_bounds(s: Seq<char>, lo: int, e: int)
    requires
        0 <= lo <= e <= s.len(),
    ensures
        lo <= end_non_ws(s, lo, e) <= e,
    decreases e - lo,
{
    if e > lo && is_ws(s[e - 1]) {
        lemma_end_non_ws_bounds(s, lo, e - 1);
    }
}

/// Text without whitespace is its own trimmed form.
pub proof fn lemma_trim_no_ws(s: Seq<char>)
    requires
        forall|i: int| 0 <= i < s.len() ==> !is_ws(#[trigger] s[i]),
    ensures
        trim_ws(s) == s,
{
    assert(first_non_ws(s, 0) == 0);
    assert(end_non_ws(s, 0, s.len() as int) == s.len());
    assert(s.subrange(0, s.len() as int) =~= s);
}

/// The characters of `s` without leading and trailing whitespace.
pub fn trim_chars(s: &[char]) -> (out: Vec<char>)
    ensures
        out@ == trim_ws(s@),
{
    let mut a: usize = 0;
    while a < s.len() && is_ws_exec(s[a])
        invariant
            a <= s@.len(),
            first_non_ws(s@, 0) == first_non_ws(s@, a as int),
        decreases s@.len() - a,
    {
        a = a + 1;
    }
    let mut e: usize = s.len();
    while e > a && is_ws_exec(s[e - 1])
        invariant
            a <= e <= s@.len(),
            a == first_non_ws(s@, 0),
            end_non_ws(s@, a as int, s@.len() as int) == end_non_ws(s@, a as int, e as int),
        decreases e,
    {
        e = e - 1;
    }
    sub_chars(s, a, e)
}

/// A string slice without leading and trailing whitespace.
pub fn trim(s: &str) -> (out: String)
    ensures
        out@ == trim_ws(s@),
{
    let cs = chars_of(s);
    let t = trim_chars(cs.as_slice());
    string_of(t.as_slice())
}

} // verus!

verus! {

/// The first index at or after `i` where `s` holds `c`, or -1.
pub open spec fn find_from(s: Seq<char>, c: char, i: int) -> int
    decreases s.len() - i,
{
    if i < 0 || i >= s.len() {
        -1
    } else if s[i] == c {
        i
    } else {
        find_from(s, c, i + 1)
    }
}

/// The last index before `e` where `s` holds `c`, or -1.
pub open spec fn rfind_before(s: Seq<char>, c: char, e: int) -> int
    decreases e,
{
    if e <= 0 || e > s.len() {
        -1
    } else if s[e - 1] == c {
        e - 1
    } else {
        rfind_before(s, c, e - 1)
    }
}

/// The first position of `c` in `s` (see `find_from`).
pub fn find_char(s: &[char], c: char) -> (r: Option<usize>)
    ensures
        match r {
            Some(i) => i == find_from(s@, c, 0) && i < s@.len() && s@[i as int] == c,
            None => find_from(s@, c, 0) == -1,
        },
{
    let mut i: usize = 0;
    while i < s.len()
        invariant
            i <= s@.len(),
            find_from(s@, c, 0) == find_from(s@, c, i as int),
        decreases s@.len() - i,
    {
        if s[i] == c {
            return Some(i);
        }
        i = i + 1;
    }
    None
}

/// The last position of `c` in `s` (see `rfind_before`).
pub fn rfind_char(s: &[char], c: char) -> (r: Option<usize>)
    ensures
        match r {
            Some(i) => i == rfind_before(s@, c, s@.len() as int) && i < s@.len() && s@[i as int]
                == c,
            None => rfind_before(s@, c, s@.len() as int) == -1,
        },
{
    let mut e: usize = s.len();
    while e > 0
        invariant
            e <= s@.len(),
            rfind_before(s@, c, s@.len() as int) == rfind_before(s@, c, e as int),
        decreases e,
    {
        if s[e - 1] == c {
            return Some(e - 1);
        }
        e = e - 1;
    }
    None
}

/// The decimal rendering of a signed integer, as `{}` formats it.
pub open spec fn signed_decimal(n: int) -> Seq<char> {
    if n < 0 {
        seq!['-'] + decimal((-n) as nat)
    } else {
        decimal(n as nat)
    }
}

pub fn signed_decimal_string(n: i32) -> (out: String)
    ensures
        out@ == signed_decimal(n as int),
{
    if n < 0 {
        let m: u64 = (0i64 - (n as i64)) as u64;
        let mut out: Vec<char> = Vec::new();
        out.push('-');
        let d = decimal_chars(m);
        extend_chars(&mut out, d.as_slice());
        string_of(out.as_slice())
    } else {
        decimal_string(n as u64)
    }
}

/// The last `c` before `e` is at `k` when `s[k]` is `c` and nothing after
/// it (before `e`) is.
pub proof fn lemma_rfind_at(s: Seq<char>, c: char, k: int, e: int)
    requires
        0 <= k < e <= s.len(),
        s[k] == c,
        forall|j: int| k < j < e ==> s[j] != c,
    ensures
        rfind_before(s, c, e) == k,
    decreases e,
{
    if e - 1 != k {
        lemma_rfind_at(s, c, k, e - 1);
    }
}

/// There is no `c` before `e` when no index before it holds one.
pub proof fn lemma_rfind_none(s: Seq<char>, c: char, e: int)
    requires
        0 <= e <= s.len(),
        forall|j: int| 0 <= j < e ==> s[j] != c,
    ensures
        rfind_before(s, c, e) == -1,
    decreases e,
{
    if e > 0 {
        lemma_rfind_none(s, c, e - 1);
    }
}

/// The first `c` from `i` on is found, no later than an index that holds it.
pub proof fn lemma_find_before(s: Seq<char>, c: char, i: int, j: int)
    requires
        0 <= i <= j < s.len(),
        s[j] == c,
    ensures
        i <= find_from(s, c, i) <= j,
    decreases j - i,
{
    if s[i] != c {
        lemma_find_before(s, c, i + 1, j);
    }
}

} // verus!
