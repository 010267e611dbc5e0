//! A growable byte buffer with Node-style encodings.
use vstd::prelude::*;
use vstd::utf8::{decode_utf8, encode_utf8, is_char_boundary, valid_utf8};
use crate::codec::{
    b64_decode, b64_encode, decode_base64, decode_hex_bytes, decode_latin1, decode_utf16le,
    encode_base64, encode_hex, encode_utf16le, hex_decode, hex_encode, latin1_decode,
    utf16le_decode, utf16le_encode,
};
use crate::text::{chars_eq_str, chars_of, string_of, trim, trim_ws};

verus! {

/// What `String::from_utf8_lossy` makes of a byte sequence.
pub uninterp spec fn utf8_lossy(bytes: Seq<u8>) -> Seq<char>;

/// Decodes bytes as UTF-8 with `String::from_utf8_lossy`: the result is
/// named `utf8_lossy`; on valid UTF-8 it is the decoded text.
#[verifier::external_body]
pub(crate) fn from_utf8_lossy(bytes: &[u8]) -> (s: String)
    ensures
        s@ == utf8_lossy(bytes@),
        valid_utf8(bytes@) ==> s@ == decode_utf8(bytes@),
{
    String::from_utf8_lossy(bytes).into_owned()
}

/// A sequence of bytes.
#[derive(Debug, Clone)]
pub struct Buffer {
    data: Vec<u8>,
}

impl View for Buffer {
    type V = Seq<u8>;

    closed spec fn view(&self) -> Seq<u8> {
        self.data@
    }
}

/// The encodings that `from_string` and `to_string` read by name.
pub open spec fn is_utf16_name(e: Seq<char>) -> bool {
    e == "utf16le"@ || e == "ucs2"@ || e == "utf16"@
}

/// Text that `hex` decoding accepts without failing: once trimmed, its
/// UTF-8 bytes have even length and a character boundary at every even offset.
pub open spec fn hex_input_ok(s: Seq<char>) -> bool {
    let b = encode_utf8(trim_ws(s));
    b.len() % 2 == 0 && forall|i: int| 0 <= i <= b.len() && i % 2 == 0 ==> is_char_boundary(b, i)
}

/// The bytes of `s` under the named encoding: `hex` reads digit pairs of
/// the trimmed text, `base64` decodes, the UTF-16 names encode UTF-16LE, and
/// anything else (or no name) takes the UTF-8 bytes.
pub open spec fn from_string_spec(s: Seq<char>, enc: Option<Seq<char>>) -> Seq<u8> {
    match enc {
        Some(e) => if e == "hex"@ {
            hex_decode(encode_utf8(trim_ws(s)))
        } else if e == "base64"@ {
            b64_decode(s)
        } else if is_utf16_name(e) {
            utf16le_encode(s)
        } else {
            encode_utf8(s)
        },
        None => encode_utf8(s),
    }
}

/// The text of `d` under the named encoding: `hex` and `base64` encode,
/// the UTF-16 names decode UTF-16LE, `latin1` maps each byte to the
/// character with that code, and anything else decodes UTF-8 leniently.
pub open spec fn to_string_spec(d: Seq<u8>, enc: Option<Seq<char>>) -> Seq<char> {
    match enc {
        Some(e) => if e == "hex"@ {
            hex_encode(d)
        } else if e == "base64"@ {
            b64_encode(d)
        } else if is_utf16_name(e) {
            utf16le_decode(d)
        } else if e == "latin1"@ {
            latin1_decode(d)
        } else {
            utf8_lossy(d)
        },
        None => utf8_lossy(d),
    }
}

/// Whether an encoding name (or none) reads the bytes as UTF-8.
pub open spec fn decodes_utf8(enc: Option<Seq<char>>) -> bool {
    match enc {
        Some(e) => !(e == "hex"@ || e == "base64"@ || is_utf16_name(e) || e == "latin1"@),
        None => true,
    }
}

pub open spec fn opt_str_view(o: Option<&str>) -> Option<Seq<char>> {
    match o {
        Some(s) => Some(s@),
        None => None,
    }
}

/// The contents of `b` after `copy_within(target, start, end)`.
pub open spec fn copy_within_spec(b: Seq<u8>, target: int, start: int, end: int) -> Seq<u8> {
    let len = end - start;
    if target + len <= b.len() && end <= b.len() {
        Seq::new(
            b.len(),
            |j: int| if target <= j < target + len { b[start + j - target] } else { b[j] },
        )
    } else {
        b
    }
}

pub open spec fn clamp_start(start: int, len: int) -> int {
    if start >= len { len } else { start }
}

pub open spec fn clamp_end(end: int, len: int) -> int {
    if end > len { len } else { end }
}

/// The contents of `b` after `fill(value, start, end)`.
pub open spec fn fill_spec(b: Seq<u8>, value: u8, start: int, end: int) -> Seq<u8> {
    Seq::new(
        b.len(),
        |j: int| if start <= j < clamp_end(end, b.len() as int) { value } else { b[j] },
    )
}

pub open spec fn buffer_views(bs: Seq<Buffer>) -> Seq<Seq<u8>> {
    bs.map_values(|b: Buffer| b@)
}

pub open spec fn total_len(bs: Seq<Seq<u8>>) -> nat
    decreases bs.len(),
{
    if bs.len() == 0 {
        0
    } else {
        total_len(bs.drop_last()) + bs.last().len()
    }
}

pub open spec fn flatten(bs: Seq<Seq<u8>>) -> Seq<u8>
    decreases bs.len(),
{
    if bs.len() == 0 {
        seq![]
    } else {
        flatten(bs.drop_last()) + bs.last()
    }
}

/// Lexicographic comparison from index `i` on: -1, 0 or 1.
pub open spec fn compare_from(a: Seq<u8>, b: Seq<u8>, i: int) -> int
    decreases a.len() - i,
{
    if 0 <= i < a.len() && i < b.len() {
        if a[i] < b[i] {
            -1
        } else if a[i] > b[i] {
            1
        } else {
            compare_from(a, b, i + 1)
        }
    } else if a.len() < b.len() {
        -1
    } else if a.len() > b.len() {
        1
    } else {
        0
    }
}

/// The first index at or after `from` that holds `value`.
pub open spec fn index_from(d: Seq<u8>, value: u8, from: int) -> Option<usize>
    decreases d.len() - from,
{
    if from < 0 || from >= d.len() {
        None
    } else if d[from] == value {
        Some(from as usize)
    } else {
        index_from(d, value, from + 1)
    }
}

impl Buffer {
    /// A buffer of `size` zero bytes.
    pub fn new(size: usize) -> (b: Buffer)
        ensures
            b@ == Seq::new(size as nat, |i: int| 0u8),
    {
        let mut data: Vec<u8> = Vec::new();
        let mut i: usize = 0;
        while i < size
            invariant
                i <= size,
                data@ == Seq::new(i as nat, |j: int| 0u8),
            decreases size - i,
        {
            data.push(0);
            i = i + 1;
            proof {
                assert(data@ =~= Seq::new(i as nat, |j: int| 0u8));
            }
        }
        Buffer { data }
    }

    /// A buffer holding a copy of `data`.
    pub fn from_slice(data: &[u8]) -> (b: Buffer)
        ensures
            b@ == data@,
    {
        let mut v: Vec<u8> = Vec::new();
        let mut i: usize = 0;
        while i < data.len()
            invariant
                i <= data@.len(),
                v@ == data@.take(i as int),
            decreases data@.len() - i,
        {
            v.push(data[i]);
            i = i + 1;
            proof {
                assert(v@ =~= data@.take(i as int));
            }
        }
        proof {
            assert(data@.take(data@.len() as int) == data@);
        }
        Buffer { data: v }
    }

    /// A buffer holding `s` in the named encoding (see `from_string_spec`).
    pub fn from_string(s: &str, encoding: Option<&str>) -> (b: Buffer)
        requires
            opt_str_view(encoding) == Some("hex"@) ==> hex_input_ok(s@),
        ensures
            b@ == from_string_spec(s@, opt_str_view(encoding)),
    {
        let utf16 = match encoding {
            Some(e) => {
                let ec = chars_of(e);
                chars_eq_str(ec.as_slice(), "utf16le") || chars_eq_str(ec.as_slice(), "ucs2")
                    || chars_eq_str(ec.as_slice(), "utf16")
            },
            None => false,
        };
        match encoding {
            Some(e) => {
                let ec = chars_of(e);
                if chars_eq_str(ec.as_slice(), "hex") {
                    let t = trim(s);
                    let bytes = t.as_str().as_bytes();
                    return Buffer { data: decode_hex_bytes(bytes) };
                } else if chars_eq_str(ec.as_slice(), "base64") {
                    let cs = chars_of(s);
                    return Buffer { data: decode_base64(cs.as_slice()) };
                } else if utf16 {
                    let cs = chars_of(s);
                    return Buffer { data: encode_utf16le(cs.as_slice()) };
                }
            },
            None => {},
        }
        Self::from_slice(s.as_bytes())
    }

    /// The number of bytes.
    pub fn len(&self) -> (n: usize)
        ensures
            n == self@.len(),
    {
        self.data.len()
    }

    pub fn is_empty(&self) -> (r: bool)
        ensures
            r == (self@.len() == 0),
    {
        self.data.len() == 0
    }

    /// The byte at `index`, if there is one.
    pub fn get(&self, index: usize) -> (r: Option<u8>)
        ensures
            index < self@.len() ==> r == Some(self@[index as int]),
            index >= self@.len() ==> r is None,
    {
        if index < self.data.len() {
            Some(self.data[index])
        } else {
            None
        }
    }

    /// Sets the byte at `index`; an index past the end changes nothing.
    pub fn set(&mut self, index: usize, value: u8)
        ensures
            index < old(self)@.len() ==> final(self)@ == old(self)@.update(index as int, value),
            index >= old(self)@.len() ==> final(self)@ == old(self)@,
    {
        if index < self.data.len() {
            self.data.set(index, value);
        }
    }

    /// The bytes, writable in place: what is written through the slice is
    /// the buffer's content afterwards.
    pub fn as_mut_slice(&mut self) -> (s: &mut [u8])
        ensures
            s@ == old(self)@,
            final(s)@ == final(self)@,
    {
        self.data.as_mut_slice()
    }

    pub fn as_slice(&self) -> (s: &[u8])
        ensures
            s@ == self@,
    {
        self.data.as_slice()
    }

    pub fn to_vec(&self) -> (v: Vec<u8>)
        ensures
            v@ == self@,
    {
        let b = Self::from_slice(self.data.as_slice());
        b.data
    }

    /// The bytes as text in the named encoding (see `to_string_spec`).
    pub fn to_string(&self, encoding: Option<&str>) -> (s: String)
        ensures
            s@ == to_string_spec(self@, opt_str_view(encoding)),
            decodes_utf8(opt_str_view(encoding)) && valid_utf8(self@) ==> s@ == decode_utf8(self@),
    {
        match encoding {
            Some(e) => {
                let ec = chars_of(e);
                let utf16 = chars_eq_str(ec.as_slice(), "utf16le") || chars_eq_str(
                    ec.as_slice(),
                    "ucs2",
                ) || chars_eq_str(ec.as_slice(), "utf16");
                if chars_eq_str(ec.as_slice(), "hex") {
                    let cs = encode_hex(self.data.as_slice());
                    string_of(cs.as_slice())
                } else if chars_eq_str(ec.as_slice(), "base64") {
                    let cs = encode_base64(self.data.as_slice());
                    string_of(cs.as_slice())
                } else if utf16 {
                    let cs = decode_utf16le(self.data.as_slice());
                    string_of(cs.as_slice())
                } else if chars_eq_str(ec.as_slice(), "latin1") {
                    let cs = decode_latin1(self.data.as_slice());
                    string_of(cs.as_slice())
                } else {
                    from_utf8_lossy(self.data.as_slice())
                }
            },
            None => from_utf8_lossy(self.data.as_slice()),
        }
    }

    /// Copies `self[start..end]` to `target` when both ranges lie inside the
    /// buffer; otherwise leaves it unchanged.
    pub fn copy_within(&mut self, target: usize, start: usize, end: usize)
        requires
            start <= end,
            target + (end - start) <= usize::MAX,
        ensures
            final(self)@ == copy_within_spec(old(self)@, target as int, start as int, end as int),
    {
        let len = end - start;
        if target + len <= self.data.len() && end <= self.data.len() {
            let src = Self::from_slice(self.data.as_slice());
            let ghost orig = self.data@;
            let mut i: usize = 0;
            while i < len
                invariant
                    len == end - start,
                    target + len <= orig.len(),
                    end <= orig.len(),
                    src.data@ == orig,
                    self.data@.len() == orig.len(),
                    self.data.len() == orig.len(),
                    i <= len,
                    forall|j: int|
                        0 <= j < orig.len() ==> self.data@[j] == (if target <= j < target + i {
                            orig[start + j - target]
                        } else {
                            orig[j]
                        }),
                decreases len - i,
            {
                self.data.set(target + i, src.data[start + i]);
                i = i + 1;
            }
            proof {
                assert(self.data@ =~= copy_within_spec(
                    orig,
                    target as int,
                    start as int,
                    end as int,
                ));
            }
        }
    }

    /// A new buffer with the bytes from `start` to `end`, both cut back to
    /// the length.
    pub fn slice(&self, start: usize, end: usize) -> (b: Buffer)
        requires
            clamp_start(start as int, self@.len() as int) <= clamp_end(end as int, self@.len() as int),
        ensures
            b@ == self@.subrange(
                clamp_start(start as int, self@.len() as int),
                clamp_end(end as int, self@.len() as int),
            ),
    {
        let n = self.data.len();
        let s = if start >= n { n } else { start };
        let e = if end > n { n } else { end };
        let mut v: Vec<u8> = Vec::new();
        let mut i: usize = s;
        while i < e
            invariant
                s <= i <= e <= n,
                n == self.data@.len(),
                v@ == self.data@.subrange(s as int, i as int),
            decreases e - i,
        {
            v.push(self.data[i]);
            i = i + 1;
            proof {
                assert(v@ =~= self.data@.subrange(s as int, i as int));
            }
        }
        Buffer { data: v }
    }

    /// Sets the bytes from `start` to `end` (cut back to the length) to `value`.
    pub fn fill(&mut self, value: u8, start: usize, end: usize)
        ensures
            final(self)@ == fill_spec(old(self)@, value, start as int, end as int),
    {
        let n = self.data.len();
        let e = if end > n { n } else { end };
        let ghost orig = self.data@;
        let mut i: usize = start;
        while i < e
            invariant
                n == orig.len(),
                e <= n,
                self.data@.len() == n,
                start <= i,
                i <= e || i == start,
                forall|j: int|
                    0 <= j < n ==> self.data@[j] == (if start <= j < i { value } else { orig[j] }),
            decreases e - i,
        {
            self.data.set(i, value);
            i = i + 1;
        }
        proof {
            assert(self.data@ =~= fill_spec(orig, value, start as int, end as int));
        }
    }

    /// All the buffers' bytes, one after another.
    pub fn concat(buffers: &[Buffer]) -> (b: Buffer)
        requires
            total_len(buffer_views(buffers@)) <= usize::MAX,
        ensures
            b@ == flatten(buffer_views(buffers@)),
    {
        let ghost bv = buffer_views(buffers@);
        let mut data: Vec<u8> = Vec::new();
        let mut i: usize = 0;
        while i < buffers.len()
            invariant
                i <= buffers@.len(),
                bv == buffer_views(buffers@),
                data@ == flatten(bv.take(i as int)),
            decreases buffers@.len() - i,
        {
            proof {
                assert(bv.take(i + 1).drop_last() == bv.take(i as int));
                assert(bv.take(i + 1).last() == buffers@[i as int]@);
            }
            let src = buffers[i].as_slice();
            let mut j: usize = 0;
            let ghost before = data@;
            while j < src.len()
                invariant
                    j <= src@.len(),
                    data@ == before + src@.take(j as int),
                decreases src@.len() - j,
            {
                data.push(src[j]);
                j = j + 1;
                proof {
                    assert(data@ =~= before + src@.take(j as int));
                }
            }
            proof {
                assert(src@.take(src@.len() as int) == src@);
            }
            i = i + 1;
        }
        proof {
            assert(bv.take(buffers@.len() as int) == bv);
        }
        Buffer { data }
    }

    /// Whether both buffers hold the same bytes.
    pub fn equals(&self, other: &Buffer) -> (r: bool)
        ensures
            r == (self@ == other@),
    {
        self.compare(other) == 0
    }

    /// Byte-wise lexicographic comparison: -1, 0 or 1.
    pub fn compare(&self, other: &Buffer) -> (r: i32)
        ensures
            r as int == compare_from(self@, other@, 0),
            (r == 0) == (self@ == other@),
    {
        let a = &self.data;
        let b = &other.data;
        let min = if a.len() < b.len() { a.len() } else { b.len() };
        let mut i: usize = 0;
        while i < min
            invariant
                min <= a@.len(),
                min <= b@.len(),
                min == a@.len() || min == b@.len(),
                i <= min,
                a@ == self@,
                b@ == other@,
                compare_from(a@, b@, 0) == compare_from(a@, b@, i as int),
                forall|j: int| 0 <= j < i ==> a@[j] == b@[j],
            decreases min - i,
        {
            if a[i] < b[i] {
                assert(compare_from(a@, b@, i as int) == -1);
                assert(a@[i as int] != b@[i as int]);
                return -1;
            } else if a[i] > b[i] {
                assert(compare_from(a@, b@, i as int) == 1);
                assert(a@[i as int] != b@[i as int]);
                return 1;
            }
            i = i + 1;
        }
        if a.len() < b.len() {
            -1
        } else if a.len() > b.len() {
            1
        } else {
            proof {
                assert(a@ =~= b@);
            }
            0
        }
    }

    /// The first index at or after `start` (0 when absent) holding `value`.
    pub fn index_of(&self, value: u8, start: Option<usize>) -> (r: Option<usize>)
        ensures
            r == index_from(self@, value, match start {
                Some(s) => s as int,
                None => 0,
            }),
    {
        let s = match start {
            Some(s) => s,
            None => 0,
        };
        let mut i: usize = s;
        while i < self.data.len()
            invariant
                s <= i,
                s as int == (match start {
                    Some(s) => s as int,
                    None => 0,
                }),
                index_from(self.data@, value, s as int) == index_from(self.data@, value, i as int),
            decreases self.data@.len() - i,
        {
            if self.data[i] == value {
                assert(index_from(self.data@, value, i as int) == Some(i));
                return Some(i);
            }
            i = i + 1;
        }
        None
    }

    /// Whether `value` occurs at or after `start`.
    pub fn includes(&self, value: u8, start: Option<usize>) -> (r: bool)
        ensures
            r == (index_from(self@, value, match start {
                Some(s) => s as int,
                None => 0,
            }) is Some),
    {
        self.index_of(value, start).is_some()
    }
}

/// What `to_string("hex")` writes, `from_string(_, "hex")` reads back
/// (and accepts): hexadecimal text round-trips to the same bytes.
pub proof fn law_hex_roundtrip(d: Seq<u8>)
    ensures
        hex_input_ok(to_string_spec(d, Some("hex"@))),
        from_string_spec(to_string_spec(d, Some("hex"@)), Some("hex"@)) == d,
{
    let h = hex_encode(d);
    assert(to_string_spec(d, Some("hex"@)) == h);
    crate::codec::lemma_hex_roundtrip(d);
    crate::codec::lemma_hex_encode_at(d);
    crate::text::lemma_trim_no_ws(h);
    let b = encode_utf8(h);
    vstd::utf8::encode_utf8_valid_utf8(h);
    vstd::utf8::is_char_boundary_start_end_of_seq(b);
    assert forall|i: int| 0 <= i <= b.len() && i % 2 == 0 implies is_char_boundary(b, i) by {
        if i < b.len() {
            vstd::utf8::is_char_boundary_iff_not_is_continuation_byte(b, i);
            assert(i < h.len());
            assert(encode_utf8(hex_encode(d))[i] < 128);
        }
    }
}

/// Text stored with `from_string` and no encoding comes back unchanged from
/// `to_string` with no encoding: its UTF-8 bytes are stored, and they are
/// valid UTF-8 that decodes to the text.
pub proof fn law_utf8_roundtrip(s: Seq<char>)
    ensures
        from_string_spec(s, None) == encode_utf8(s),
        decodes_utf8(None),
        valid_utf8(encode_utf8(s)),
        decode_utf8(encode_utf8(s)) == s,
{
    vstd::utf8::encode_utf8_valid_utf8(s);
    vstd::utf8::encode_utf8_decode_utf8(s);
}

/// What `to_string("base64")` writes, `from_string(_, "base64")` reads
/// back: base64 text round-trips to the same bytes.
pub proof fn law_base64_roundtrip(d: Seq<u8>)
    ensures
        from_string_spec(to_string_spec(d, Some("base64"@)), Some("base64"@)) == d,
{
    reveal_strlit("base64");
    reveal_strlit("hex");
    assert("base64"@.len() == 6);
    assert("hex"@.len() == 3);
    assert("base64"@ != "hex"@);
    crate::codec::lemma_base64_roundtrip(d);
}

/// Comparison is antisymmetric: swapping the buffers negates the result.
pub proof fn law_compare_antisymmetric(a: Seq<u8>, b: Seq<u8>, i: int)
    requires
        0 <= i,
    ensures
        compare_from(a, b, i) == -compare_from(b, a, i),
    decreases a.len() - i,
{
    if i < a.len() && i < b.len() && a[i] == b[i] {
        law_compare_antisymmetric(a, b, i + 1);
    }
}

/// After `set` at an index inside the buffer, `get` there reads the value
/// and every other index reads what it did before.
pub proof fn law_get_after_set(before: Seq<u8>, after: Seq<u8>, index: int, value: u8)
    requires
        0 <= index < before.len(),
        after == before.update(index, value),
    ensures
        after.len() == before.len(),
        after[index] == value,
        forall|j: int| 0 <= j < before.len() && j != index ==> after[j] == before[j],
{
}

/// Text stored with `from_string(_, "utf16le")` comes back unchanged from
/// `to_string("utf16le")`.
pub proof fn law_utf16le_roundtrip(s: Seq<char>)
    ensures
        to_string_spec(from_string_spec(s, Some("utf16le"@)), Some("utf16le"@)) == s,
{
    reveal_strlit("utf16le");
    reveal_strlit("hex");
    reveal_strlit("base64");
    assert("utf16le"@.len() == 7 && "hex"@.len() == 3 && "base64"@.len() == 6);
    assert("utf16le"@ != "hex"@ && "utf16le"@ != "base64"@);
    assert(is_utf16_name("utf16le"@));
    crate::codec::lemma_utf16le_roundtrip(s);
}

/// Slicing a buffer at any point and concatenating the two slices gives
/// the buffer back.
pub proof fn law_slices_concat(d: Seq<u8>, k: int)
    requires
        0 <= k <= d.len(),
    ensures
        ({
            let n = d.len() as int;
            let left = d.subrange(clamp_start(0, n), clamp_end(k, n));
            let right = d.subrange(clamp_start(k, n), clamp_end(n, n));
            flatten(seq![left, right]) == d && total_len(seq![left, right]) == d.len()
        }),
{
    let n = d.len() as int;
    let left = d.subrange(0, k);
    let right = d.subrange(k, n);
    let parts = seq![left, right];
    let one = seq![left];
    assert(parts.drop_last() =~= one);
    assert(parts.last() == right);
    assert(one.drop_last() =~= Seq::<Seq<u8>>::empty());
    assert(one.last() == left);
    assert(flatten(Seq::<Seq<u8>>::empty()) =~= Seq::<u8>::empty());
    assert(flatten(one) =~= Seq::<u8>::empty() + left);
    assert(flatten(one) =~= left);
    assert(flatten(parts) == flatten(one) + right);
    assert(left + right =~= d);
    assert(total_len(one) == total_len(Seq::<Seq<u8>>::empty()) + left.len());
}


proof fn lemma_compare_equal_run(a: Seq<u8>, b: Seq<u8>, i: int, k: int)
    requires
        0 <= i <= k,
        k <= a.len(),
        k <= b.len(),
        forall|j: int| i <= j < k ==> a[j] == b[j],
    ensures
        compare_from(a, b, i) == compare_from(b, a, i) * -1 && compare_from(a, b, i)
            == compare_from(a, b, k),
    decreases k - i,
{
    law_compare_antisymmetric(a, b, i);
    if i < k {
        lemma_compare_equal_run(a, b, i + 1, k);
    }
}

/// Comparison is lexicographic: at the first index where the two buffers
/// differ, the greater byte decides, whatever the lengths; when one buffer
/// is a proper prefix of the other, the shorter comes first; equal buffers
/// compare 0.
pub proof fn law_compare_lexicographic(a: Seq<u8>, b: Seq<u8>, k: int)
    requires
        0 <= k <= a.len(),
        k <= b.len(),
        forall|j: int| 0 <= j < k ==> a[j] == b[j],
    ensures
        k < a.len() && k < b.len() && a[k] > b[k] ==> compare_from(a, b, 0) == 1,
        k < a.len() && k < b.len() && a[k] < b[k] ==> compare_from(a, b, 0) == -1,
        k == a.len() && a.len() < b.len() ==> compare_from(a, b, 0) == -1,
        k == b.len() && b.len() < a.len() ==> compare_from(a, b, 0) == 1,
        k == a.len() && k == b.len() ==> compare_from(a, b, 0) == 0,
{
    lemma_compare_equal_run(a, b, 0, k);
}

} // verus!
