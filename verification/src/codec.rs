//! Byte/text encodings used by `Buffer`: hex, base64, UTF-16LE, Latin-1.
use vstd::prelude::*;
use vstd::utf8::{encode_utf8, is_ascii_chars, is_ascii_chars_encode_utf8, is_scalar};

verus! {

/// `char::from_u32`, as std documents it: the character with that code
/// when it is a Unicode scalar value, else `None`.
pub assume_specification[ std::char::from_u32 ](i: u32) -> (r: Option<char>)
    ensures
        is_scalar(i) ==> r == Some(i as char),
        !is_scalar(i) ==> r is None,
;

// ---------------------------------------------------------------- hex

/// The lowercase hexadecimal digit of a nibble.
pub open spec fn hex_digit(v: nat) -> char {
    if v < 10 {
        (48 + v) as char
    } else {
        (87 + v) as char
    }
}

/// Two lowercase hexadecimal digits per byte, as `{:02x}` renders it.
pub open spec fn hex_encode(data: Seq<u8>) -> Seq<char>
    decreases data.len(),
{
    if data.len() == 0 {
        seq![]
    } else {
        hex_encode(data.drop_last()) + seq![
            hex_digit((data.last() / 16) as nat),
            hex_digit((data.last() % 16) as nat),
        ]
    }
}

fn nibble_char(v: u8) -> (c: char)
    requires
        v < 16,
    ensures
        c == hex_digit(v as nat),
{
    if v < 10 {
        let b: u8 = 48 + v;
        b as char
    } else {
        let b: u8 = 87 + v;
        b as char
    }
}

pub fn encode_hex(data: &[u8]) -> (out: Vec<char>)
    ensures
        out@ == hex_encode(data@),
{
    let mut out: Vec<char> = Vec::new();
    let mut i: usize = 0;
    while i < data.len()
        invariant
            i <= data@.len(),
            out@ == hex_encode(data@.take(i as int)),
        decreases data@.len() - i,
    {
        proof {
            assert(data@.take(i + 1).drop_last() == data@.take(i as int));
        }
        let b = data[i];
        out.push(nibble_char(b / 16));
        out.push(nibble_char(b % 16));
        i = i + 1;
        proof {
            assert(out@ =~= hex_encode(data@.take(i as int)));
        }
    }
    proof {
        assert(data@.take(data@.len() as int) == data@);
    }
    out
}

/// The hexadecimal text of `d` has two digits per byte: the high nibble,
/// then the low one.
pub proof fn lemma_hex_encode_at(d: Seq<u8>)
    ensures
        hex_encode(d).len() == 2 * d.len(),
        forall|k: int|
            0 <= k < d.len() ==> hex_encode(d)[2 * k] == hex_digit((d[k] / 16) as nat) && hex_encode(
                d,
            )[2 * k + 1] == hex_digit((d[k] % 16) as nat),
    decreases d.len(),
{
    if d.len() > 0 {
        lemma_hex_encode_at(d.drop_last());
        assert forall|k: int| 0 <= k < d.len() implies hex_encode(d)[2 * k] == hex_digit(
            (d[k] / 16) as nat,
        ) && hex_encode(d)[2 * k + 1] == hex_digit((d[k] % 16) as nat) by {
            if k < d.len() - 1 {
                assert(d.drop_last()[k] == d[k]);
            }
        }
    }
}

/// A digit's character code, read back as a digit, gives the nibble.
proof fn lemma_hex_digit_value(v: nat)
    requires
        v < 16,
    ensures
        '0' <= hex_digit(v) <= 'f',
        (hex_digit(v) as u8) < 128,
        hex_value(hex_digit(v) as u8) == Some(v as u8),
        !crate::text::is_ws(hex_digit(v)),
{
    if v < 10 {
        assert(hex_digit(v) as u32 == 48 + v);
    } else {
        assert(hex_digit(v) as u32 == 87 + v);
    }
}

/// The value of an ASCII hexadecimal digit (either case), if it is one.
pub open spec fn hex_value(b: u8) -> Option<u8> {
    if 48 <= b <= 57 {
        Some((b - 48) as u8)
    } else if 97 <= b <= 102 {
        Some((b - 87) as u8)
    } else if 65 <= b <= 70 {
        Some((b - 55) as u8)
    } else {
        None
    }
}

/// What `u8::from_str_radix(_, 16)` makes of two bytes: two digits, or a
/// `+` sign followed by one digit; anything else is rejected.
pub open spec fn hex_pair(b1: u8, b2: u8) -> Option<u8> {
    match (hex_value(b1), hex_value(b2)) {
        (Some(x), Some(y)) => Some((x * 16 + y) as u8),
        (None, Some(y)) => if b1 == 43 { Some(y) } else { None },
        _ => None,
    }
}

/// The accepted pairs of `bytes`, read two at a time from the start;
/// rejected pairs are skipped.
pub open spec fn hex_decode(bytes: Seq<u8>) -> Seq<u8>
    decreases bytes.len(),
{
    if bytes.len() < 2 {
        seq![]
    } else {
        let rest = hex_decode(bytes.skip(2));
        match hex_pair(bytes[0], bytes[1]) {
            Some(v) => seq![v] + rest,
            None => rest,
        }
    }
}

/// Bytes whose pairs are the digit codes of `d`'s nibbles decode to `d`.
proof fn lemma_hex_decode_pairs(b: Seq<u8>, d: Seq<u8>)
    requires
        b.len() == 2 * d.len(),
        forall|k: int|
            0 <= k < d.len() ==> b[2 * k] == hex_digit((d[k] / 16) as nat) as u8 && b[2 * k + 1]
                == hex_digit((d[k] % 16) as nat) as u8,
    ensures
        hex_decode(b) == d,
    decreases d.len(),
{
    if d.len() > 0 {
        let b2 = b.skip(2);
        let d2 = d.skip(1);
        assert forall|k: int| 0 <= k < d2.len() implies b2[2 * k] == hex_digit((d2[k] / 16) as nat) as u8
            && b2[2 * k + 1] == hex_digit((d2[k] % 16) as nat) as u8 by {
            assert(b2[2 * k] == b[2 * (k + 1)]);
            assert(b2[2 * k + 1] == b[2 * (k + 1) + 1]);
            assert(d2[k] == d[k + 1]);
        }
        lemma_hex_decode_pairs(b2, d2);
        let hi = (d[0] / 16) as nat;
        let lo = (d[0] % 16) as nat;
        lemma_hex_digit_value(hi);
        lemma_hex_digit_value(lo);
        assert(b[0] == hex_digit(hi) as u8);
        assert(b[1] == hex_digit(lo) as u8);
        assert(hex_pair(b[0], b[1]) == Some((hi * 16 + lo) as u8));
        assert(hi * 16 + lo == d[0]);
        assert(d =~= seq![d[0]] + d2);
    }
}

/// Hexadecimal text decodes back to the bytes it was made from.
pub proof fn lemma_hex_roundtrip(d: Seq<u8>)
    ensures
        is_ascii_chars(hex_encode(d)),
        forall|i: int| 0 <= i < hex_encode(d).len() ==> !crate::text::is_ws(#[trigger] hex_encode(d)[i]),
        encode_utf8(hex_encode(d)).len() == 2 * d.len(),
        forall|i: int| 0 <= i < hex_encode(d).len() ==> (#[trigger] encode_utf8(hex_encode(d))[i]) < 128,
        hex_decode(encode_utf8(hex_encode(d))) == d,
{
    let h = hex_encode(d);
    lemma_hex_encode_at(d);
    assert forall|i: int| 0 <= i < h.len() implies '\0' <= #[trigger] h[i] <= '\u{7f}' && !crate::text::is_ws(h[i]) && (h[i] as u8) < 128 by {
        let k = i / 2;
        if i % 2 == 0 {
            assert(i == 2 * k);
            lemma_hex_digit_value((d[k] / 16) as nat);
        } else {
            assert(i == 2 * k + 1);
            lemma_hex_digit_value((d[k] % 16) as nat);
        }
    }
    assert(is_ascii_chars(h));
    is_ascii_chars_encode_utf8(h);
    let b = encode_utf8(h);
    assert forall|k: int| 0 <= k < d.len() implies b[2 * k] == hex_digit((d[k] / 16) as nat) as u8
        && b[2 * k + 1] == hex_digit((d[k] % 16) as nat) as u8 by {
        assert(h[2 * k] as u8 == b[2 * k]);
        assert(h[2 * k + 1] as u8 == b[2 * k + 1]);
    }
    assert forall|i: int| 0 <= i < h.len() implies (#[trigger] b[i]) < 128 by {
        assert(h[i] as u8 == b[i]);
    }
    lemma_hex_decode_pairs(b, d);
}

fn hex_value_exec(b: u8) -> (r: Option<u8>)
    ensures
        r == hex_value(b),
{
    if 48 <= b && b <= 57 {
        Some(b - 48)
    } else if 97 <= b && b <= 102 {
        Some(b - 87)
    } else if 65 <= b && b <= 70 {
        Some(b - 55)
    } else {
        None
    }
}

fn hex_pair_exec(b1: u8, b2: u8) -> (r: Option<u8>)
    ensures
        r == hex_pair(b1, b2),
{
    match (hex_value_exec(b1), hex_value_exec(b2)) {
        (Some(x), Some(y)) => Some(x * 16 + y),
        (None, Some(y)) => if b1 == 43 { Some(y) } else { None },
        _ => None,
    }
}

pub fn decode_hex_bytes(bytes: &[u8]) -> (out: Vec<u8>)
    ensures
        out@ == hex_decode(bytes@),
{
    let mut out: Vec<u8> = Vec::new();
    let mut i: usize = 0;
    proof {
        assert(bytes@.skip(0) =~= bytes@);
        assert(out@ + hex_decode(bytes@) =~= hex_decode(bytes@));
    }
    while i < bytes.len() && bytes.len() - i >= 2
        invariant
            i <= bytes@.len(),
            hex_decode(bytes@) == out@ + hex_decode(bytes@.skip(i as int)),
        decreases bytes@.len() - i,
    {
        let ghost rest = bytes@.skip(i as int);
        let ghost before = out@;
        proof {
            assert(rest.skip(2) == bytes@.skip(i + 2));
            assert(rest[0] == bytes@[i as int] && rest[1] == bytes@[i + 1]);
        }
        match hex_pair_exec(bytes[i], bytes[i + 1]) {
            Some(v) => {
                out.push(v);
                proof {
                    assert(out@ + hex_decode(bytes@.skip(i + 2)) =~= before + (seq![v]
                        + hex_decode(bytes@.skip(i + 2))));
                }
            },
            None => {},
        }
        i = i + 2;
    }
    proof {
        assert(hex_decode(bytes@.skip(i as int)) == Seq::<u8>::empty());
        assert(out@ + Seq::<u8>::empty() == out@);
    }
    out
}

// ---------------------------------------------------------------- base64

/// The base64 alphabet.
pub open spec fn b64_char(v: nat) -> char {
    if v < 26 {
        (65 + v) as char
    } else if v < 52 {
        (71 + v) as char
    } else if v < 62 {
        (v - 4) as char
    } else if v == 62 {
        '+'
    } else {
        '/'
    }
}

/// The base64 text of a chunk of one to three bytes, padded with `=`.
pub open spec fn b64_chunk(c: Seq<u8>) -> Seq<char> {
    let b0 = c[0] as nat;
    let b1 = if c.len() > 1 { c[1] as nat } else { 0nat };
    let b2 = if c.len() > 2 { c[2] as nat } else { 0nat };
    seq![
        b64_char(b0 / 4),
        b64_char((b0 % 4) * 16 + b1 / 16),
        if c.len() > 1 { b64_char((b1 % 16) * 4 + b2 / 64) } else { '=' },
        if c.len() > 2 { b64_char(b2 % 64) } else { '=' },
    ]
}

/// The number of three-byte chunks (the last may be shorter) in `n` bytes.
pub open spec fn chunk_count(n: nat) -> nat {
    (n + 2) / 3
}

/// The chunk with index `k`.
pub open spec fn chunk_of(d: Seq<u8>, k: nat) -> Seq<u8> {
    d.subrange((3 * k) as int, if 3 * k + 3 < d.len() { (3 * k + 3) as int } else { d.len() as int })
}

/// The base64 text of the first `k` chunks.
pub open spec fn b64_prefix(d: Seq<u8>, k: nat) -> Seq<char>
    decreases k,
{
    if k == 0 {
        seq![]
    } else {
        b64_prefix(d, (k - 1) as nat) + b64_chunk(chunk_of(d, (k - 1) as nat))
    }
}

/// Standard base64 with `=` padding.
pub open spec fn b64_encode(d: Seq<u8>) -> Seq<char> {
    b64_prefix(d, chunk_count(d.len()))
}

fn b64_char_exec(v: u8) -> (c: char)
    requires
        v < 64,
    ensures
        c == b64_char(v as nat),
{
    if v < 26 {
        let b: u8 = 65 + v;
        b as char
    } else if v < 52 {
        let b: u8 = 71 + v;
        b as char
    } else if v < 62 {
        let b: u8 = v - 4;
        b as char
    } else if v == 62 {
        '+'
    } else {
        '/'
    }
}

pub fn encode_base64(data: &[u8]) -> (out: Vec<char>)
    ensures
        out@ == b64_encode(data@),
{
    let mut out: Vec<char> = Vec::new();
    let mut k: usize = 0;
    let n = data.len();
    let chunks: usize = n / 3 + if n % 3 > 0 { 1 } else { 0 };
    while k < chunks
        invariant
            n == data@.len(),
            chunks == chunk_count(n as nat),
            k <= chunk_count(n as nat),
            out@ == b64_prefix(data@, k as nat),
        decreases chunk_count(n as nat) - k,
    {
        let start = 3 * k;
        let len = if start + 3 <= n { 3 } else { n - start };
        let b0 = data[start];
        let b1: u8 = if len > 1 { data[start + 1] } else { 0 };
        let b2: u8 = if len > 2 { data[start + 2] } else { 0 };
        let ghost c = chunk_of(data@, k as nat);
        proof {
            assert(c.len() == len);
            assert(c[0] == b0);
            assert(len > 1 ==> c[1] == b1);
            assert(len > 2 ==> c[2] == b2);
        }
        out.push(b64_char_exec(b0 / 4));
        out.push(b64_char_exec((b0 % 4) * 16 + b1 / 16));
        if len > 1 {
            out.push(b64_char_exec((b1 % 16) * 4 + b2 / 64));
        } else {
            out.push('=');
        }
        if len > 2 {
            out.push(b64_char_exec(b2 % 64));
        } else {
            out.push('=');
        }
        k = k + 1;
        proof {
            assert(out@ =~= b64_prefix(data@, k as nat));
        }
    }
    out
}

/// The six-bit value of a base64 character, if it is one.
pub open spec fn b64_value(c: char) -> Option<u8> {
    let u = c as u32;
    if 65 <= u <= 90 {
        Some((u - 65) as u8)
    } else if 97 <= u <= 122 {
        Some((u - 71) as u8)
    } else if 48 <= u <= 57 {
        Some((u + 4) as u8)
    } else if u == 43 {
        Some(62u8)
    } else if u == 47 {
        Some(63u8)
    } else {
        None
    }
}

/// The six-bit values of the base64 characters of `s`, other characters skipped.
pub open spec fn sextets(s: Seq<char>) -> Seq<u8>
    decreases s.len(),
{
    if s.len() == 0 {
        seq![]
    } else {
        match b64_value(s.last()) {
            Some(v) => sextets(s.drop_last()).push(v),
            None => sextets(s.drop_last()),
        }
    }
}

/// The bytes that a run of six-bit values packs into: every eight bits in
/// order, a trailing remainder of fewer than eight bits dropped.
pub open spec fn unpack_sextets(v: Seq<u8>) -> Seq<u8>
    decreases v.len(),
{
    if v.len() < 2 {
        seq![]
    } else {
        let s0 = v[0] as nat;
        let s1 = v[1] as nat;
        let first = ((s0 * 4 + s1 / 16) % 256) as u8;
        if v.len() == 2 {
            seq![first]
        } else {
            let s2 = v[2] as nat;
            let second = (((s1 % 16) * 16 + s2 / 4) % 256) as u8;
            if v.len() == 3 {
                seq![first, second]
            } else {
                let s3 = v[3] as nat;
                let third = (((s2 % 4) * 64 + s3) % 256) as u8;
                seq![first, second, third] + unpack_sextets(v.skip(4))
            }
        }
    }
}

/// Base64 decoding that skips characters outside the alphabet (padding
/// included) and drops incomplete trailing bits.
pub open spec fn b64_decode(s: Seq<char>) -> Seq<u8> {
    unpack_sextets(sextets(s))
}

fn b64_value_exec(c: char) -> (r: Option<u8>)
    ensures
        r == b64_value(c),
        r matches Some(v) ==> v < 64,
{
    let u = c as u32;
    if 65 <= u && u <= 90 {
        Some((u - 65) as u8)
    } else if 97 <= u && u <= 122 {
        Some((u - 71) as u8)
    } else if 48 <= u && u <= 57 {
        Some((u + 4) as u8)
    } else if u == 43 {
        Some(62)
    } else if u == 47 {
        Some(63)
    } else {
        None
    }
}

proof fn lemma_b64_char_value(v: nat)
    requires
        v < 64,
    ensures
        b64_value(b64_char(v)) == Some(v as u8),
{
    if v < 26 {
        assert(b64_char(v) as u32 == 65 + v);
    } else if v < 52 {
        assert(b64_char(v) as u32 == 71 + v);
    } else if v < 62 {
        assert(b64_char(v) as u32 == v - 4);
    }
}

proof fn lemma_sextets_concat(a: Seq<char>, b: Seq<char>)
    ensures
        sextets(a + b) == sextets(a) + sextets(b),
    decreases b.len(),
{
    if b.len() == 0 {
        assert(a + b =~= a);
        assert(sextets(a) + sextets(b) =~= sextets(a));
    } else {
        lemma_sextets_concat(a, b.drop_last());
        assert((a + b).drop_last() =~= a + b.drop_last());
        assert((a + b).last() == b.last());
        match b64_value(b.last()) {
            Some(v) => {
                assert(sextets(a) + sextets(b) =~= (sextets(a) + sextets(b.drop_last())).push(v));
            },
            None => {},
        }
    }
}

proof fn lemma_unpack_concat(x: Seq<u8>, y: Seq<u8>)
    requires
        x.len() % 4 == 0,
    ensures
        unpack_sextets(x + y) == unpack_sextets(x) + unpack_sextets(y),
    decreases x.len(),
{
    if x.len() == 0 {
        assert(x + y =~= y);
        assert(unpack_sextets(x) + unpack_sextets(y) =~= unpack_sextets(y));
    } else {
        lemma_unpack_concat(x.skip(4), y);
        assert((x + y).skip(4) =~= x.skip(4) + y);
        assert((x + y)[0] == x[0] && (x + y)[1] == x[1] && (x + y)[2] == x[2] && (x + y)[3] == x[3]);
    }
}

/// The six-bit values of a chunk's text, padding skipped.
pub open spec fn chunk_sextets(c: Seq<u8>) -> Seq<u8> {
    let b0 = c[0] as nat;
    let b1 = if c.len() > 1 { c[1] as nat } else { 0nat };
    let b2 = if c.len() > 2 { c[2] as nat } else { 0nat };
    let s0 = (b0 / 4) as u8;
    let s1 = ((b0 % 4) * 16 + b1 / 16) as u8;
    let s2 = ((b1 % 16) * 4 + b2 / 64) as u8;
    let s3 = (b2 % 64) as u8;
    if c.len() == 1 {
        seq![s0, s1]
    } else if c.len() == 2 {
        seq![s0, s1, s2]
    } else {
        seq![s0, s1, s2, s3]
    }
}

proof fn lemma_chunk_sextets(c: Seq<u8>)
    requires
        1 <= c.len() <= 3,
    ensures
        sextets(b64_chunk(c)) == chunk_sextets(c),
        unpack_sextets(chunk_sextets(c)) == c,
{
    let b0 = c[0] as nat;
    let b1 = if c.len() > 1 { c[1] as nat } else { 0nat };
    let b2 = if c.len() > 2 { c[2] as nat } else { 0nat };
    assert(b0 < 256 && b1 < 256 && b2 < 256);
    let v0 = b0 / 4;
    let v1 = (b0 % 4) * 16 + b1 / 16;
    let v2 = (b1 % 16) * 4 + b2 / 64;
    let v3 = b2 % 64;
    assert(v0 < 64 && v1 < 64 && v2 < 64 && v3 < 64) by (nonlinear_arith)
        requires
            b0 < 256,
            b1 < 256,
            b2 < 256,
            v0 == b0 / 4,
            v1 == (b0 % 4) * 16 + b1 / 16,
            v2 == (b1 % 16) * 4 + b2 / 64,
            v3 == b2 % 64,
    ;
    lemma_b64_char_value(v0);
    lemma_b64_char_value(v1);
    lemma_b64_char_value(v2);
    lemma_b64_char_value(v3);
    assert(b64_value('=') is None);
    let t = b64_chunk(c);
    reveal_with_fuel(sextets, 5);
    assert(t.drop_last().drop_last().drop_last().drop_last() =~= Seq::<char>::empty());
    assert(sextets(t) =~= chunk_sextets(c));
    assert((v0 * 4 + v1 / 16) % 256 == b0) by (nonlinear_arith)
        requires
            b0 < 256,
            b1 < 256,
            v0 == b0 / 4,
            v1 == (b0 % 4) * 16 + b1 / 16,
    ;
    assert(((v1 % 16) * 16 + v2 / 4) % 256 == b1) by (nonlinear_arith)
        requires
            b0 < 256,
            b1 < 256,
            b2 < 256,
            v1 == (b0 % 4) * 16 + b1 / 16,
            v2 == (b1 % 16) * 4 + b2 / 64,
    ;
    assert(((v2 % 4) * 64 + v3) % 256 == b2) by (nonlinear_arith)
        requires
            b1 < 256,
            b2 < 256,
            v2 == (b1 % 16) * 4 + b2 / 64,
            v3 == b2 % 64,
    ;
    let cs = chunk_sextets(c);
    reveal_with_fuel(unpack_sextets, 2);
    if c.len() == 3 {
        assert(cs.skip(4) =~= Seq::<u8>::empty());
        assert(unpack_sextets(cs) =~= c);
    } else if c.len() == 2 {
        assert(unpack_sextets(cs) =~= c);
    } else {
        assert(unpack_sextets(cs) =~= c);
    }
}

proof fn lemma_b64_prefix(d: Seq<u8>, k: nat)
    requires
        3 * k <= d.len(),
    ensures
        sextets(b64_prefix(d, k)).len() == 4 * k,
        unpack_sextets(sextets(b64_prefix(d, k))) == d.take((3 * k) as int),
    decreases k,
{
    if k == 0 {
        assert(d.take(0) =~= Seq::<u8>::empty());
    } else {
        let j = (k - 1) as nat;
        lemma_b64_prefix(d, j);
        let c = chunk_of(d, j);
        assert(c =~= d.subrange((3 * j) as int, (3 * j + 3) as int));
        lemma_chunk_sextets(c);
        lemma_sextets_concat(b64_prefix(d, j), b64_chunk(c));
        lemma_unpack_concat(sextets(b64_prefix(d, j)), chunk_sextets(c));
        assert(d.take((3 * j) as int) + c =~= d.take((3 * k) as int));
    }
}

/// Base64 text decodes back to the bytes it was made from.
pub proof fn lemma_base64_roundtrip(d: Seq<u8>)
    ensures
        b64_decode(b64_encode(d)) == d,
{
    let n = chunk_count(d.len());
    if n == 0 {
        assert(d.len() == 0);
        assert(d =~= Seq::<u8>::empty());
    } else {
        let j = (n - 1) as nat;
        assert(3 * j <= d.len());
        lemma_b64_prefix(d, j);
        let c = chunk_of(d, j);
        assert(3 * j < d.len());
        lemma_chunk_sextets(c);
        lemma_sextets_concat(b64_prefix(d, j), b64_chunk(c));
        lemma_unpack_concat(sextets(b64_prefix(d, j)), chunk_sextets(c));
        assert(d.take((3 * j) as int) + c =~= d);
    }
}

pub fn decode_base64(s: &[char]) -> (out: Vec<u8>)
    ensures
        out@ == b64_decode(s@),
{
    let mut vals: Vec<u8> = Vec::new();
    let mut i: usize = 0;
    while i < s.len()
        invariant
            i <= s@.len(),
            vals@ == sextets(s@.take(i as int)),
            forall|j: int| 0 <= j < vals@.len() ==> vals@[j] < 64,
        decreases s@.len() - i,
    {
        proof {
            assert(s@.take(i + 1).drop_last() == s@.take(i as int));
        }
        match b64_value_exec(s[i]) {
            Some(v) => vals.push(v),
            None => {},
        }
        i = i + 1;
    }
    proof {
        assert(s@.take(s@.len() as int) == s@);
    }
    let mut out: Vec<u8> = Vec::new();
    let mut k: usize = 0;
    proof {
        assert(vals@.skip(0) =~= vals@);
        assert(out@ + unpack_sextets(vals@) =~= unpack_sextets(vals@));
    }
    while k < vals.len() && vals.len() - k >= 4
        invariant
            k <= vals@.len(),
            forall|j: int| 0 <= j < vals@.len() ==> vals@[j] < 64,
            unpack_sextets(vals@) == out@ + unpack_sextets(vals@.skip(k as int)),
        decreases vals@.len() - k,
    {
        let ghost rest = vals@.skip(k as int);
        let ghost before = out@;
        let s0 = vals[k];
        let s1 = vals[k + 1];
        let s2 = vals[k + 2];
        let s3 = vals[k + 3];
        let first: u8 = ((s0 as u32 * 4 + s1 as u32 / 16) % 256) as u8;
        let second: u8 = (((s1 as u32 % 16) * 16 + s2 as u32 / 4) % 256) as u8;
        let third: u8 = (((s2 as u32 % 4) * 64 + s3 as u32) % 256) as u8;
        out.push(first);
        out.push(second);
        out.push(third);
        proof {
            assert(rest.skip(4) =~= vals@.skip(k + 4));
            assert(rest[0] == s0 && rest[1] == s1 && rest[2] == s2 && rest[3] == s3);
            assert(unpack_sextets(rest) == seq![first, second, third] + unpack_sextets(rest.skip(4)));
            assert(out@ + unpack_sextets(vals@.skip(k + 4)) =~= before + (seq![first, second, third]
                + unpack_sextets(vals@.skip(k + 4))));
        }
        k = k + 4;
    }
    let ghost rest = vals@.skip(k as int);
    let ghost before = out@;
    let left = vals.len() - k;
    if left >= 2 {
        let s0 = vals[k];
        let s1 = vals[k + 1];
        let first: u8 = ((s0 as u32 * 4 + s1 as u32 / 16) % 256) as u8;
        out.push(first);
        if left == 3 {
            let s2 = vals[k + 2];
            let second: u8 = (((s1 as u32 % 16) * 16 + s2 as u32 / 4) % 256) as u8;
            out.push(second);
            proof {
                assert(rest[0] == s0 && rest[1] == s1 && rest[2] == s2);
                assert(unpack_sextets(rest) == seq![first, second]);
                assert(out@ =~= before + seq![first, second]);
            }
        } else {
            proof {
                assert(rest[0] == s0 && rest[1] == s1);
                assert(unpack_sextets(rest) == seq![first]);
                assert(out@ =~= before + seq![first]);
            }
        }
    } else {
        proof {
            assert(unpack_sextets(rest) == Seq::<u8>::empty());
            assert(out@ =~= before + Seq::<u8>::empty());
        }
    }
    out
}

// ---------------------------------------------------------------- UTF-16

/// The little-endian bytes of a 16-bit unit.
pub open spec fn unit_le(u: nat) -> Seq<u8> {
    seq![(u % 256) as u8, ((u / 256) % 256) as u8]
}

/// The UTF-16 code units of a character, little-endian.
pub open spec fn utf16le_char(c: char) -> Seq<u8> {
    let u = c as u32 as nat;
    if u < 0x10000 {
        unit_le(u)
    } else {
        let v = (u - 0x10000) as nat;
        unit_le(0xD800 + v / 1024) + unit_le(0xDC00 + v % 1024)
    }
}

/// UTF-16LE encoding of a character sequence.
pub open spec fn utf16le_encode(s: Seq<char>) -> Seq<u8>
    decreases s.len(),
{
    if s.len() == 0 {
        seq![]
    } else {
        utf16le_encode(s.drop_last()) + utf16le_char(s.last())
    }
}

fn push_unit(out: &mut Vec<u8>, u: u32)
    requires
        u < 0x10000,
    ensures
        final(out)@ == old(out)@ + unit_le(u as nat),
{
    out.push((u % 256) as u8);
    out.push((u / 256) as u8);
    proof {
        assert(final(out)@ =~= old(out)@ + unit_le(u as nat));
    }
}

pub fn encode_utf16le(s: &[char]) -> (out: Vec<u8>)
    ensures
        out@ == utf16le_encode(s@),
{
    let mut out: Vec<u8> = Vec::new();
    let mut i: usize = 0;
    while i < s.len()
        invariant
            i <= s@.len(),
            out@ == utf16le_encode(s@.take(i as int)),
        decreases s@.len() - i,
    {
        proof {
            assert(s@.take(i + 1).drop_last() == s@.take(i as int));
        }
        let u = s[i] as u32;
        proof {
            vstd::utf8::char_is_scalar(s@[i as int]);
        }
        if u < 0x10000 {
            push_unit(&mut out, u);
        } else {
            let v = u - 0x10000;
            push_unit(&mut out, 0xD800 + v / 1024);
            push_unit(&mut out, 0xDC00 + v % 1024);
        }
        i = i + 1;
        proof {
            assert(out@ =~= utf16le_encode(s@.take(i as int)));
        }
    }
    proof {
        assert(s@.take(s@.len() as int) == s@);
    }
    out
}

/// The 16-bit units read little-endian from `bytes` (an odd last byte left out).
pub open spec fn units_le(bytes: Seq<u8>) -> Seq<u16> {
    Seq::new(bytes.len() / 2, |k: int| (bytes[2 * k] as nat + 256 * bytes[2 * k + 1] as nat) as u16)
}

pub open spec fn is_high(u: u16) -> bool {
    0xD800 <= u <= 0xDBFF
}

pub open spec fn is_low(u: u16) -> bool {
    0xDC00 <= u <= 0xDFFF
}

pub open spec fn replacement() -> char {
    '\u{FFFD}'
}

/// UTF-16 decoding that turns each unpaired surrogate into U+FFFD, as
/// `String::from_utf16_lossy`.
pub open spec fn utf16_lossy(us: Seq<u16>) -> Seq<char>
    decreases us.len(),
{
    if us.len() == 0 {
        seq![]
    } else {
        let u = us[0];
        if !is_high(u) && !is_low(u) {
            seq![u as char] + utf16_lossy(us.skip(1))
        } else if is_high(u) && us.len() >= 2 && is_low(us[1]) {
            let c = (0x10000 + (u - 0xD800) * 1024 + (us[1] - 0xDC00)) as char;
            seq![c] + utf16_lossy(us.skip(2))
        } else {
            seq![replacement()] + utf16_lossy(us.skip(1))
        }
    }
}

/// The text of UTF-16LE bytes: the lossy decoding of the whole units, then
/// an odd last byte as the character with that code.
pub open spec fn utf16le_decode(bytes: Seq<u8>) -> Seq<char> {
    let body = utf16_lossy(units_le(bytes));
    if bytes.len() % 2 == 1 {
        body.push(bytes.last() as char)
    } else {
        body
    }
}

/// The UTF-16 code units of a character: itself below U+10000, else a
/// surrogate pair.
pub open spec fn char_units(c: char) -> Seq<u16> {
    let u = c as u32 as nat;
    if u < 0x10000 {
        seq![u as u16]
    } else {
        let v = (u - 0x10000) as nat;
        seq![(0xD800 + v / 1024) as u16, (0xDC00 + v % 1024) as u16]
    }
}

/// The UTF-16 code units of a character sequence.
pub open spec fn units_of(s: Seq<char>) -> Seq<u16>
    decreases s.len(),
{
    if s.len() == 0 {
        seq![]
    } else {
        units_of(s.drop_last()) + char_units(s.last())
    }
}

proof fn lemma_units_le_concat(a: Seq<u8>, b: Seq<u8>)
    requires
        a.len() % 2 == 0,
    ensures
        units_le(a + b) == units_le(a) + units_le(b),
{
    let ab = a + b;
    assert(ab.len() / 2 == a.len() / 2 + b.len() / 2);
    assert forall|k: int| 0 <= k < ab.len() / 2 implies #[trigger] units_le(ab)[k] == (units_le(a)
        + units_le(b))[k] by {
        if k < a.len() / 2 {
            assert(ab[2 * k] == a[2 * k]);
            assert(ab[2 * k + 1] == a[2 * k + 1]);
        } else {
            let m = k - a.len() / 2;
            assert(2 * k == a.len() + 2 * m);
            assert(ab[2 * k] == b[2 * m]);
            assert(ab[2 * k + 1] == b[2 * m + 1]);
        }
    }
    assert(units_le(ab) =~= units_le(a) + units_le(b));
}

proof fn lemma_units_le_unit(u: nat)
    requires
        u < 0x10000,
    ensures
        units_le(unit_le(u)) == seq![u as u16],
{
    let lo = u % 256;
    let hi = (u / 256) % 256;
    assert(lo + 256 * hi == u) by (nonlinear_arith)
        requires
            u < 0x10000,
            lo == u % 256,
            hi == (u / 256) % 256,
    ;
    assert(units_le(unit_le(u)) =~= seq![u as u16]);
}

proof fn lemma_encode_units(s: Seq<char>)
    ensures
        utf16le_encode(s).len() == 2 * units_of(s).len(),
        units_le(utf16le_encode(s)) == units_of(s),
    decreases s.len(),
{
    if s.len() > 0 {
        lemma_encode_units(s.drop_last());
        let c = s.last();
        let u = c as u32 as nat;
        vstd::utf8::char_is_scalar(c);
        lemma_units_le_concat(utf16le_encode(s.drop_last()), utf16le_char(c));
        if u < 0x10000 {
            lemma_units_le_unit(u);
        } else {
            let v = (u - 0x10000) as nat;
            assert(v < 0x100000);
            assert(v / 1024 < 1024) by (nonlinear_arith)
                requires
                    v < 0x100000,
            ;
            lemma_units_le_concat(unit_le(0xD800 + v / 1024), unit_le(0xDC00 + v % 1024));
            lemma_units_le_unit(0xD800 + v / 1024);
            lemma_units_le_unit(0xDC00 + v % 1024);
        }
    }
}

proof fn lemma_units_of_front(c: char, rest: Seq<char>)
    ensures
        units_of(seq![c] + rest) == char_units(c) + units_of(rest),
    decreases rest.len(),
{
    let s = seq![c] + rest;
    if rest.len() == 0 {
        assert(s =~= seq![c]);
        assert(s.drop_last() =~= Seq::<char>::empty());
        assert(s.last() == c);
        assert(units_of(s.drop_last()) =~= Seq::<u16>::empty());
        assert(units_of(s) == units_of(s.drop_last()) + char_units(s.last()));
        assert(units_of(rest) =~= Seq::<u16>::empty());
        assert(units_of(s) =~= char_units(c) + units_of(rest));
    } else {
        lemma_units_of_front(c, rest.drop_last());
        assert(s.drop_last() =~= seq![c] + rest.drop_last());
        assert(s.last() == rest.last());
        assert(units_of(s) == units_of(s.drop_last()) + char_units(s.last()));
        assert(units_of(rest) == units_of(rest.drop_last()) + char_units(rest.last()));
        assert(units_of(s) =~= char_units(c) + units_of(rest));
    }
}

proof fn lemma_lossy_char(c: char, rest: Seq<u16>)
    ensures
        utf16_lossy(char_units(c) + rest) == seq![c] + utf16_lossy(rest),
{
    let u = c as u32 as nat;
    vstd::utf8::char_is_scalar(c);
    let us = char_units(c) + rest;
    if u < 0x10000 {
        assert(us[0] == u as u16);
        assert(!is_high(us[0]) && !is_low(us[0]));
        assert(us.skip(1) =~= rest);
        assert((us[0] as char) == c);
    } else {
        let v = (u - 0x10000) as nat;
        assert(v < 0x100000);
        assert(v / 1024 < 1024 && v % 1024 < 1024) by (nonlinear_arith)
            requires
                v < 0x100000,
        ;
        let h = (0xD800 + v / 1024) as u16;
        let l = (0xDC00 + v % 1024) as u16;
        assert(us[0] == h && us[1] == l);
        assert(is_high(h) && is_low(l));
        assert(us.skip(2) =~= rest);
        assert(0x10000 + (h - 0xD800) * 1024 + (l - 0xDC00) == u) by (nonlinear_arith)
            requires
                h == 0xD800 + v / 1024,
                l == 0xDC00 + v % 1024,
                v == u - 0x10000,
        ;
        assert(((0x10000 + (h - 0xD800) * 1024 + (l - 0xDC00)) as char) == c);
    }
}

proof fn lemma_lossy_units(s: Seq<char>)
    ensures
        utf16_lossy(units_of(s)) == s,
    decreases s.len(),
{
    if s.len() > 0 {
        let rest = s.drop_first();
        assert(s =~= seq![s[0]] + rest);
        lemma_units_of_front(s[0], rest);
        lemma_lossy_char(s[0], units_of(rest));
        lemma_lossy_units(rest);
    } else {
        assert(units_of(s) =~= Seq::<u16>::empty());
    }
}

/// Text encoded as UTF-16LE decodes back to the same text.
pub proof fn lemma_utf16le_roundtrip(s: Seq<char>)
    ensures
        utf16le_decode(utf16le_encode(s)) == s,
{
    lemma_encode_units(s);
    lemma_lossy_units(s);
}

pub fn decode_utf16le(bytes: &[u8]) -> (out: Vec<char>)
    ensures
        out@ == utf16le_decode(bytes@),
{
    let mut units: Vec<u16> = Vec::new();
    let mut k: usize = 0;
    while k < bytes.len() / 2
        invariant
            k <= bytes@.len() / 2,
            units@ == units_le(bytes@).take(k as int),
        decreases bytes@.len() / 2 - k,
    {
        let u: u16 = bytes[2 * k] as u16 + 256 * (bytes[2 * k + 1] as u16);
        units.push(u);
        k = k + 1;
        proof {
            assert(units@ =~= units_le(bytes@).take(k as int));
        }
    }
    proof {
        assert(units@ =~= units_le(bytes@));
    }
    let mut out: Vec<char> = Vec::new();
    let mut i: usize = 0;
    while i < units.len()
        invariant
            i <= units@.len(),
            utf16_lossy(units@) == out@ + utf16_lossy(units@.skip(i as int)),
        decreases units@.len() - i,
    {
        let ghost rest = units@.skip(i as int);
        let u = units[i];
        if u < 0xD800 || u > 0xDFFF {
            let c = std::char::from_u32(u as u32);
            let c = match c {
                Some(c) => c,
                None => replacement_char(),
            };
            out.push(c);
            proof {
                assert(rest.skip(1) == units@.skip(i + 1));
            }
            i = i + 1;
        } else if u <= 0xDBFF && i + 1 < units.len() && units[i + 1] >= 0xDC00 && units[i + 1]
            <= 0xDFFF {
            let lo = units[i + 1];
            let code: u32 = 0x10000 + (u as u32 - 0xD800) * 1024 + (lo as u32 - 0xDC00);
            let c = std::char::from_u32(code);
            let c = match c {
                Some(c) => c,
                None => replacement_char(),
            };
            out.push(c);
            proof {
                assert(rest.skip(2) == units@.skip(i + 2));
            }
            i = i + 2;
        } else {
            out.push(replacement_char());
            proof {
                assert(rest.skip(1) == units@.skip(i + 1));
            }
            i = i + 1;
        }
    }
    proof {
        assert(utf16_lossy(units@.skip(i as int)) == Seq::<char>::empty());
    }
    if bytes.len() % 2 == 1 {
        let b = bytes[bytes.len() - 1];
        out.push(b as char);
    }
    proof {
        assert(out@ =~= utf16le_decode(bytes@));
    }
    out
}

fn replacement_char() -> (c: char)
    ensures
        c == replacement(),
{
    '\u{FFFD}'
}

// ---------------------------------------------------------------- Latin-1

/// Each byte as the character with that code.
pub open spec fn latin1_decode(bytes: Seq<u8>) -> Seq<char> {
    bytes.map_values(|b: u8| b as char)
}

pub fn decode_latin1(bytes: &[u8]) -> (out: Vec<char>)
    ensures
        out@ == latin1_decode(bytes@),
{
    let mut out: Vec<char> = Vec::new();
    let mut i: usize = 0;
    while i < bytes.len()
        invariant
            i <= bytes@.len(),
            out@ == latin1_decode(bytes@.take(i as int)),
        decreases bytes@.len() - i,
    {
        out.push(bytes[i] as char);
        i = i + 1;
        proof {
            assert(out@ =~= latin1_decode(bytes@.take(i as int)));
        }
    }
    proof {
        assert(bytes@.take(bytes@.len() as int) == bytes@);
    }
    out
}

} // verus!
