//! Text encodings: UTF-8, UTF-16 and Windows-1252.
use crate::text::string_of;
use vstd::prelude::*;
use vstd::utf8::{decode_utf8, valid_utf8};

verus! {

/// Whether `u` is the code point of a character.
pub open spec fn scalar(u: int) -> bool {
    0 <= u <= 0x10ffff && !(0xd800 <= u <= 0xdfff)
}

/// `char::from_u32` gives the character with that code point, and nothing where
/// there is none: above the range, or a surrogate.
pub assume_specification[ char::from_u32 ](u: u32) -> (r: Option<char>)
    ensures
        match r {
            Some(c) => scalar(u as int) && c == u as char,
            None => !scalar(u as int),
        },
;

/// `String::from_utf8` takes exactly the byte sequences that are valid UTF-8,
/// and decodes them.
#[verifier::external_body]
pub(crate) fn text_of_utf8(bytes: &[u8]) -> (r: Option<String>)
    ensures
        match r {
            Some(s) => valid_utf8(bytes@) && s@ == decode_utf8(bytes@),
            None => !valid_utf8(bytes@),
        },
{
    String::from_utf8(bytes.to_vec()).ok()
}

/// The first half of a surrogate pair.
pub open spec fn high_surrogate(u: u16) -> bool {
    0xd800 <= u <= 0xdbff
}

/// The second half of a surrogate pair.
pub open spec fn low_surrogate(u: u16) -> bool {
    0xdc00 <= u <= 0xdfff
}

/// The character that a surrogate pair stands for.
pub open spec fn pair_char(h: u16, l: u16) -> char {
    (0x10000 + (h - 0xd800) * 0x400 + (l - 0xdc00)) as char
}

/// The text of UTF-16 code units from `i` on; none where a surrogate stands
/// alone.
pub open spec fn utf16_from(u: Seq<u16>, i: int) -> Option<Seq<char>>
    decreases u.len() - i,
{
    if i < 0 || i >= u.len() {
        Some(Seq::empty())
    } else if high_surrogate(u[i]) {
        if i + 1 < u.len() && low_surrogate(u[i + 1]) {
            match utf16_from(u, i + 2) {
                Some(s) => Some(seq![pair_char(u[i], u[i + 1])] + s),
                None => None,
            }
        } else {
            None
        }
    } else if low_surrogate(u[i]) {
        None
    } else {
        match utf16_from(u, i + 1) {
            Some(s) => Some(seq![u[i] as char] + s),
            None => None,
        }
    }
}

/// The text of UTF-16 code units.
pub open spec fn utf16_text(u: Seq<u16>) -> Option<Seq<char>> {
    utf16_from(u, 0)
}

/// The text of UTF-16 code units; none where a surrogate stands alone.
pub fn decode_utf16(u: &Vec<u16>) -> (r: Option<String>)
    ensures
        crate::text::opt_view(r) == utf16_text(u@),
{
    let n: usize = u.len();
    let mut out: Vec<char> = Vec::new();
    let mut i: usize = 0;
    proof {
        if let Some(s) = utf16_from(u@, 0) {
            assert(Seq::<char>::empty() + s =~= s);
        }
    }
    while i < n
        invariant
            n == u@.len(),
            i <= n,
            utf16_text(u@) == (match utf16_from(u@, i as int) {
                Some(s) => Some(out@ + s),
                None => None,
            }),
        decreases n - i,
    {
        let a: u16 = u[i];
        let ghost before = out@;
        if 0xd800 <= a && a <= 0xdbff {
            if i + 1 >= n {
                return None;
            }
            let b: u16 = u[i + 1];
            if !(0xdc00 <= b && b <= 0xdfff) {
                return None;
            }
            let code: u32 = 0x10000 + ((a - 0xd800) as u32) * 0x400 + ((b - 0xdc00) as u32);
            match char::from_u32(code) {
                Some(c) => {
                    out.push(c);
                    proof {
                        assert(c == pair_char(a, b));
                        if let Some(s) = utf16_from(u@, i + 2) {
                            assert(before + (seq![c] + s) =~= out@ + s);
                        }
                    }
                },
                None => {
                    return None;
                },
            }
            i = i + 2;
        } else if 0xdc00 <= a && a <= 0xdfff {
            return None;
        } else {
            match char::from_u32(a as u32) {
                Some(c) => {
                    out.push(c);
                    proof {
                        assert(c == a as char);
                        if let Some(s) = utf16_from(u@, i + 1) {
                            assert(before + (seq![c] + s) =~= out@ + s);
                        }
                    }
                },
                None => {
                    return None;
                },
            }
            i = i + 1;
        }
    }
    assert(out@ + Seq::<char>::empty() =~= out@);
    Some(string_of(&out))
}

/// The code units of one character.
pub open spec fn utf16_units(c: char) -> Seq<u16> {
    let u = c as u32;
    if u < 0x10000 {
        seq![u as u16]
    } else {
        seq![(0xd800 + (u - 0x10000) / 0x400) as u16, (0xdc00 + (u - 0x10000) % 0x400) as u16]
    }
}

/// A text in UTF-16.
pub open spec fn utf16_of(s: Seq<char>) -> Seq<u16>
    decreases s.len(),
{
    if s.len() == 0 {
        Seq::empty()
    } else {
        utf16_of(s.drop_last()) + utf16_units(s.last())
    }
}

/// A text in UTF-16 with a zero after it, as the clipboard wants it.
pub fn wide_text(s: &str) -> (r: Vec<u16>)
    ensures
        r@ == utf16_of(s@).push(0),
{
    let v: Vec<char> = crate::text::chars_of(s);
    let n: usize = v.len();
    let mut out: Vec<u16> = Vec::new();
    for i in 0..n
        invariant
            n == v@.len(),
            out@ == utf16_of(v@.take(i as int)),
    {
        let u: u32 = v[i] as u32;
        let ghost before = out@;
        proof {
            let t = v@.take(i + 1);
            assert(t.drop_last() =~= v@.take(i as int));
            assert(t.last() == v@[i as int]);
        }
        if u < 0x10000 {
            out.push(u as u16);
            assert(out@ =~= before + utf16_units(v@[i as int]));
        } else {
            out.push((0xd800 + (u - 0x10000) / 0x400) as u16);
            out.push((0xdc00 + (u - 0x10000) % 0x400) as u16);
            assert(out@ =~= before + utf16_units(v@[i as int]));
        }
    }
    assert(v@.take(n as int) =~= s@);
    out.push(0);
    out
}

proof fn lemma_utf16_after(s: Seq<char>, tail: Seq<u16>)
    ensures
        utf16_text(utf16_of(s) + tail) == (match utf16_text(tail) {
            Some(t) => Some(s + t),
            None => None,
        }),
    decreases s.len(),
{
    if s.len() == 0 {
        assert(utf16_of(s) + tail =~= tail);
        if let Some(t) = utf16_text(tail) {
            assert(s + t =~= t);
        }
    } else {
        let p = s.drop_last();
        let c = s.last();
        let w = utf16_units(c) + tail;
        assert(utf16_of(s) + tail =~= utf16_of(p) + w);
        lemma_utf16_after(p, w);
        lemma_utf16_one(c, tail);
        if let Some(t) = utf16_text(tail) {
            assert(p + (seq![c] + t) =~= s + t);
        }
    }
}

proof fn lemma_utf16_one(c: char, tail: Seq<u16>)
    ensures
        utf16_text(utf16_units(c) + tail) == (match utf16_text(tail) {
            Some(t) => Some(seq![c] + t),
            None => None,
        }),
{
    let u = c as u32;
    let w = utf16_units(c) + tail;
    let k = utf16_units(c).len() as int;
    lemma_utf16_shift(w, k, 0);
    assert(w.skip(k) =~= tail);
    if u < 0x10000 {
        assert(w[0] == u as u16);
        assert(w[0] as char == c);
    } else {
        let h = w[0];
        let l = w[1];
        assert(high_surrogate(h));
        assert(low_surrogate(l));
        assert(pair_char(h, l) == c);
    }
}

proof fn lemma_utf16_shift(u: Seq<u16>, k: int, i: int)
    requires
        0 <= k <= u.len(),
        0 <= i,
    ensures
        utf16_from(u, k + i) == utf16_from(u.skip(k), i),
    decreases u.len() - k - i,
{
    let v = u.skip(k);
    if i < v.len() {
        assert(v[i] == u[k + i]);
        if i + 1 < v.len() {
            assert(v[i + 1] == u[k + i + 1]);
            lemma_utf16_shift(u, k, i + 2);
        }
        lemma_utf16_shift(u, k, i + 1);
    }
}

/// Decoding the UTF-16 form of a text gives the text back.
pub proof fn law_utf16_round_trip(s: Seq<char>)
    ensures
        utf16_text(utf16_of(s)) == Some(s),
{
    let none = Seq::<u16>::empty();
    lemma_utf16_after(s, none);
    assert(utf16_of(s) + none =~= utf16_of(s));
    assert(s + Seq::<char>::empty() =~= s);
}

/// The little-endian code units of a run of bytes.
pub open spec fn little_endian_units(b: Seq<u8>) -> Seq<u16> {
    Seq::new((b.len() / 2) as nat, |k: int| (b[2 * k] + 256 * b[2 * k + 1]) as u16)
}

/// The big-endian code units of a run of bytes.
pub open spec fn big_endian_units(b: Seq<u8>) -> Seq<u16> {
    Seq::new((b.len() / 2) as nat, |k: int| (256 * b[2 * k] + b[2 * k + 1]) as u16)
}

/// The text of little-endian UTF-16 bytes; none where a byte is left over.
pub open spec fn utf16le_text(b: Seq<u8>) -> Option<Seq<char>> {
    if b.len() % 2 != 0 {
        None
    } else {
        utf16_text(little_endian_units(b))
    }
}

fn units_of(b: &Vec<u8>, from: usize, little: bool) -> (r: Vec<u16>)
    requires
        from <= b@.len(),
    ensures
        r@ == (if little {
            little_endian_units(b@.skip(from as int))
        } else {
            big_endian_units(b@.skip(from as int))
        }),
{
    let n: usize = (b.len() - from) / 2;
    let mut out: Vec<u16> = Vec::new();
    let ghost s = b@.skip(from as int);
    for k in 0..n
        invariant
            n == (b@.len() - from) / 2,
            from <= b@.len() <= usize::MAX,
            s == b@.skip(from as int),
            out@.len() == k,
            forall|j: int|
                0 <= j < k ==> #[trigger] out@[j] == (if little {
                    little_endian_units(s)[j]
                } else {
                    big_endian_units(s)[j]
                }),
    {
        let x: u16 = b[from + 2 * k] as u16;
        let y: u16 = b[from + 2 * k + 1] as u16;
        assert(s[2 * k as int] == b@[from + 2 * k]);
        assert(s[2 * k + 1] == b@[from + 2 * k + 1]);
        if little {
            out.push(x + 256 * y);
        } else {
            out.push(256 * x + y);
        }
    }
    assert(out@ =~= if little {
        little_endian_units(s)
    } else {
        big_endian_units(s)
    });
    out
}

/// The text of the little-endian UTF-16 bytes from `from` on; none where a byte
/// is left over or a surrogate stands alone.
pub fn decode_utf16le(b: &Vec<u8>, from: usize) -> (r: Option<String>)
    requires
        from <= b@.len(),
    ensures
        crate::text::opt_view(r) == utf16le_text(b@.skip(from as int)),
{
    if (b.len() - from) % 2 != 0 {
        return None;
    }
    let u: Vec<u16> = units_of(b, from, true);
    decode_utf16(&u)
}

/// The character of a Windows-1252 byte. Only 0x80 to 0x9f differ from Latin-1;
/// the five bytes without a character stand for U+FFFD.
pub open spec fn windows_1252(b: u8) -> char {
    if b == 0x80 {
        '\u{20AC}'
    } else if b == 0x82 {
        '\u{201A}'
    } else if b == 0x83 {
        '\u{0192}'
    } else if b == 0x84 {
        '\u{201E}'
    } else if b == 0x85 {
        '\u{2026}'
    } else if b == 0x86 {
        '\u{2020}'
    } else if b == 0x87 {
        '\u{2021}'
    } else if b == 0x88 {
        '\u{02C6}'
    } else if b == 0x89 {
        '\u{2030}'
    } else if b == 0x8a {
        '\u{0160}'
    } else if b == 0x8b {
        '\u{2039}'
    } else if b == 0x8c {
        '\u{0152}'
    } else if b == 0x8e {
        '\u{017D}'
    } else if b == 0x91 {
        '\u{2018}'
    } else if b == 0x92 {
        '\u{2019}'
    } else if b == 0x93 {
        '\u{201C}'
    } else if b == 0x94 {
        '\u{201D}'
    } else if b == 0x95 {
        '\u{2022}'
    } else if b == 0x96 {
        '\u{2013}'
    } else if b == 0x97 {
        '\u{2014}'
    } else if b == 0x98 {
        '\u{02DC}'
    } else if b == 0x99 {
        '\u{2122}'
    } else if b == 0x9a {
        '\u{0161}'
    } else if b == 0x9b {
        '\u{203A}'
    } else if b == 0x9c {
        '\u{0153}'
    } else if b == 0x9e {
        '\u{017E}'
    } else if b == 0x9f {
        '\u{0178}'
    } else if b == 0x81 || b == 0x8d || b == 0x8f || b == 0x90 || b == 0x9d {
        '\u{FFFD}'
    } else {
        b as char
    }
}

/// The text of Windows-1252 bytes.
pub open spec fn windows_1252_text(b: Seq<u8>) -> Seq<char> {
    Seq::new(b.len(), |i: int| windows_1252(b[i]))
}

/// The character of a Windows-1252 byte.
pub fn windows_1252_char(b: u8) -> (r: char)
    ensures
        r == windows_1252(b),
{
    if b < 0x80 || b > 0x9f {
        return b as char;
    }
    let table: [char; 32] = [
        '\u{20AC}', '\u{FFFD}', '\u{201A}', '\u{0192}', '\u{201E}', '\u{2026}', '\u{2020}',
        '\u{2021}', '\u{02C6}', '\u{2030}', '\u{0160}', '\u{2039}', '\u{0152}', '\u{FFFD}',
        '\u{017D}', '\u{FFFD}', '\u{FFFD}', '\u{2018}', '\u{2019}', '\u{201C}', '\u{201D}',
        '\u{2022}', '\u{2013}', '\u{2014}', '\u{02DC}', '\u{2122}', '\u{0161}', '\u{203A}',
        '\u{0153}', '\u{FFFD}', '\u{017E}', '\u{0178}',
    ];
    table[(b - 0x80) as usize]
}

/// The text of the Windows-1252 bytes from `from` on. Every byte stands for a
/// character.
pub fn decode_windows_1252(b: &Vec<u8>, from: usize) -> (r: String)
    requires
        from <= b@.len(),
    ensures
        r@ == windows_1252_text(b@.skip(from as int)),
{
    let n: usize = b.len();
    let mut out: String = String::new();
    let ghost s = b@.skip(from as int);
    for i in from..n
        invariant
            n == b@.len(),
            from <= n,
            s == b@.skip(from as int),
            out@ =~= windows_1252_text(s).take(i - from),
    {
        out.push(windows_1252_char(b[i]));
        assert(s[i - from] == b@[i as int]);
        assert(windows_1252_text(s).take(i - from + 1) =~= windows_1252_text(s).take(
            i - from,
        ).push(windows_1252_text(s)[i - from]));
    }
    assert(windows_1252_text(s).take(n - from) =~= windows_1252_text(s));
    out
}

/// How many zero bytes stand at the positions of `b` with this remainder by two.
pub open spec fn zeros_at(b: Seq<u8>, parity: int) -> nat
    decreases b.len(),
{
    if b.len() == 0 {
        0
    } else {
        zeros_at(b.drop_last(), parity) + (if b.last() == 0 && (b.len() - 1) % 2 == parity {
            1nat
        } else {
            0nat
        })
    }
}

/// Whether bytes without a mark look like little-endian UTF-16: an even number of
/// them, and zeros in more than half of the odd places and more than in the even
/// ones.
pub open spec fn looks_like_utf16le(b: Seq<u8>) -> bool {
    &&& b.len() >= 2
    &&& b.len() % 2 == 0
    &&& zeros_at(b, 1) > b.len() / 4
    &&& zeros_at(b, 1) > zeros_at(b, 0)
}

/// What bytes without a UTF-16 mark say: little-endian UTF-16 where they look
/// like it and are, UTF-8 where they are, else Windows-1252.
pub open spec fn unmarked_text(b: Seq<u8>) -> Seq<char> {
    if looks_like_utf16le(b) && utf16le_text(b) is Some {
        utf16le_text(b)->0
    } else if valid_utf8(b) {
        decode_utf8(b)
    } else {
        windows_1252_text(b)
    }
}

/// What a run of bytes says, by its byte order mark or its shape; none where it
/// is empty, or marked as UTF-16 that it is not.
pub open spec fn bytes_text(b: Seq<u8>) -> Option<Seq<char>> {
    if b.len() == 0 {
        None
    } else if b.len() >= 2 && b[0] == 0xff && b[1] == 0xfe {
        utf16le_text(b.skip(2))
    } else if b.len() >= 2 && b[0] == 0xfe && b[1] == 0xff {
        utf16_text(big_endian_units(b.skip(2)))
    } else if b.len() >= 3 && b[0] == 0xef && b[1] == 0xbb && b[2] == 0xbf {
        Some(unmarked_text(b.skip(3)))
    } else {
        Some(unmarked_text(b))
    }
}

fn count_zeros(b: &Vec<u8>, from: usize) -> (r: (usize, usize))
    requires
        from <= b@.len(),
    ensures
        r.0 == zeros_at(b@.skip(from as int), 0),
        r.1 == zeros_at(b@.skip(from as int), 1),
{
    let n: usize = b.len();
    let mut even: usize = 0;
    let mut odd: usize = 0;
    let ghost s = b@.skip(from as int);
    for i in from..n
        invariant
            n == b@.len(),
            from <= n,
            s == b@.skip(from as int),
            even == zeros_at(s.take(i - from), 0),
            odd == zeros_at(s.take(i - from), 1),
            even + odd <= i - from,
    {
        proof {
            let t = s.take(i - from + 1);
            assert(t.drop_last() =~= s.take(i - from));
            assert(t.last() == b@[i as int]);
        }
        if b[i] == 0 {
            if (i - from) % 2 == 0 {
                even = even + 1;
            } else {
                odd = odd + 1;
            }
        }
    }
    assert(s.take(n - from) =~= s);
    (even, odd)
}

fn decode_unmarked(b: &Vec<u8>, from: usize) -> (r: String)
    requires
        from <= b@.len(),
    ensures
        r@ == unmarked_text(b@.skip(from as int)),
{
    let n: usize = b.len() - from;
    let ghost s = b@.skip(from as int);
    if n >= 2 && n % 2 == 0 {
        let (even, odd) = count_zeros(b, from);
        if odd > n / 4 && odd > even {
            if let Some(t) = decode_utf16le(b, from) {
                return t;
            }
        }
    }
    let mut rest: Vec<u8> = Vec::new();
    let len: usize = b.len();
    for i in from..len
        invariant
            len == b@.len(),
            from <= len,
            rest@ =~= b@.subrange(from as int, i as int),
    {
        rest.push(b[i]);
    }
    assert(rest@ =~= s);
    match text_of_utf8(rest.as_slice()) {
        Some(t) => t,
        None => decode_windows_1252(b, from),
    }
}

/// What a run of bytes says: UTF-16 with a mark, UTF-8 with or without one,
/// UTF-16 without a mark where the zeros give it away, else Windows-1252.
pub fn decode_bytes(b: &Vec<u8>) -> (r: Option<String>)
    ensures
        crate::text::opt_view(r) == bytes_text(b@),
{
    let n: usize = b.len();
    if n == 0 {
        return None;
    }
    if n >= 2 && b[0] == 0xff && b[1] == 0xfe {
        return decode_utf16le(b, 2);
    }
    if n >= 2 && b[0] == 0xfe && b[1] == 0xff {
        let u: Vec<u16> = units_of(b, 2, false);
        return decode_utf16(&u);
    }
    if n >= 3 && b[0] == 0xef && b[1] == 0xbb && b[2] == 0xbf {
        return Some(decode_unmarked(b, 3));
    }
    assert(b@.skip(0) =~= b@);
    Some(decode_unmarked(b, 0))
}

/// The byte that stands for a character in Windows-1252: that of the euro sign, of the
/// typographic marks and letters, and of Latin-1; none for other characters.
pub open spec fn windows_1252_byte(c: char) -> Option<u8> {
    if c as u32 <= 0x7f || 0xa0 <= c as u32 <= 0xff {
        Some(c as u8)
    } else if c == '\u{20AC}' {
        Some(0x80u8)
    } else if c == '\u{201A}' {
        Some(0x82u8)
    } else if c == '\u{0192}' {
        Some(0x83u8)
    } else if c == '\u{201E}' {
        Some(0x84u8)
    } else if c == '\u{2026}' {
        Some(0x85u8)
    } else if c == '\u{2020}' {
        Some(0x86u8)
    } else if c == '\u{2021}' {
        Some(0x87u8)
    } else if c == '\u{02C6}' {
        Some(0x88u8)
    } else if c == '\u{2030}' {
        Some(0x89u8)
    } else if c == '\u{0160}' {
        Some(0x8au8)
    } else if c == '\u{2039}' {
        Some(0x8bu8)
    } else if c == '\u{0152}' {
        Some(0x8cu8)
    } else if c == '\u{017D}' {
        Some(0x8eu8)
    } else if c == '\u{2018}' {
        Some(0x91u8)
    } else if c == '\u{2019}' {
        Some(0x92u8)
    } else if c == '\u{201C}' {
        Some(0x93u8)
    } else if c == '\u{201D}' {
        Some(0x94u8)
    } else if c == '\u{2022}' {
        Some(0x95u8)
    } else if c == '\u{2013}' {
        Some(0x96u8)
    } else if c == '\u{2014}' {
        Some(0x97u8)
    } else if c == '\u{02DC}' {
        Some(0x98u8)
    } else if c == '\u{2122}' {
        Some(0x99u8)
    } else if c == '\u{0161}' {
        Some(0x9au8)
    } else if c == '\u{203A}' {
        Some(0x9bu8)
    } else if c == '\u{0153}' {
        Some(0x9cu8)
    } else if c == '\u{017E}' {
        Some(0x9eu8)
    } else if c == '\u{0178}' {
        Some(0x9fu8)
    } else {
        None
    }
}

/// A character that Windows-1252 has a byte for is read back from it, and the five bytes
/// without a character are read as the replacement character.
pub proof fn law_windows_1252_reads_back(c: char)
    ensures
        windows_1252_byte(c) matches Some(b) ==> windows_1252(b) == c,
        windows_1252(0x81) == '\u{FFFD}',
        windows_1252(0x8d) == '\u{FFFD}',
        windows_1252(0x8f) == '\u{FFFD}',
        windows_1252(0x90) == '\u{FFFD}',
        windows_1252(0x9d) == '\u{FFFD}',
{
}

/// Code units as bytes, the low byte of each first.
pub open spec fn low_first(u: Seq<u16>) -> Seq<u8>
    decreases u.len(),
{
    if u.len() == 0 {
        Seq::empty()
    } else {
        low_first(u.drop_last()).push((u.last() % 256) as u8).push((u.last() / 256) as u8)
    }
}

/// Code units as bytes, the high byte of each first.
pub open spec fn high_first(u: Seq<u16>) -> Seq<u8>
    decreases u.len(),
{
    if u.len() == 0 {
        Seq::empty()
    } else {
        high_first(u.drop_last()).push((u.last() / 256) as u8).push((u.last() % 256) as u8)
    }
}

proof fn lemma_units_read_back(u: Seq<u16>)
    ensures
        low_first(u).len() == 2 * u.len(),
        high_first(u).len() == 2 * u.len(),
        little_endian_units(low_first(u)) == u,
        big_endian_units(high_first(u)) == u,
    decreases u.len(),
{
    if u.len() == 0 {
        assert(little_endian_units(low_first(u)) =~= u);
        assert(big_endian_units(high_first(u)) =~= u);
    } else {
        let t = u.drop_last();
        lemma_units_read_back(t);
        let a = low_first(u);
        let b = high_first(u);
        let n = t.len() as int;
        assert forall|k: int| 0 <= k < u.len() implies little_endian_units(a)[k] == u[k]
            && big_endian_units(b)[k] == u[k] by {
            if k < n {
                assert(a[2 * k] == low_first(t)[2 * k]);
                assert(a[2 * k + 1] == low_first(t)[2 * k + 1]);
                assert(b[2 * k] == high_first(t)[2 * k]);
                assert(b[2 * k + 1] == high_first(t)[2 * k + 1]);
                assert(little_endian_units(low_first(t))[k] == t[k]);
                assert(big_endian_units(high_first(t))[k] == t[k]);
            } else {
                assert(a[2 * n] == (u.last() % 256) as u8);
                assert(a[2 * n + 1] == (u.last() / 256) as u8);
                assert(b[2 * n] == (u.last() / 256) as u8);
                assert(b[2 * n + 1] == (u.last() % 256) as u8);
            }
        }
        assert(little_endian_units(a) =~= u);
        assert(big_endian_units(b) =~= u);
    }
}

/// A text in UTF-16 behind its byte order mark is read back, in either order of bytes.
pub proof fn law_marked_utf16_reads_back(s: Seq<char>)
    ensures
        bytes_text(seq![0xffu8, 0xfe] + low_first(utf16_of(s))) == Some(s),
        bytes_text(seq![0xfeu8, 0xff] + high_first(utf16_of(s))) == Some(s),
{
    let u = utf16_of(s);
    lemma_units_read_back(u);
    law_utf16_round_trip(s);
    assert((seq![0xffu8, 0xfe] + low_first(u)).skip(2) =~= low_first(u));
    assert((seq![0xfeu8, 0xff] + high_first(u)).skip(2) =~= high_first(u));
}

proof fn lemma_no_zeros(b: Seq<u8>, parity: int)
    requires
        forall|i: int| 0 <= i < b.len() ==> #[trigger] b[i] != 0,
    ensures
        zeros_at(b, parity) == 0,
    decreases b.len(),
{
    if b.len() > 0 {
        let t = b.drop_last();
        assert forall|i: int| 0 <= i < t.len() implies #[trigger] t[i] != 0 by {
            assert(t[i] == b[i]);
        }
        assert(b[b.len() - 1] != 0);
        lemma_no_zeros(t, parity);
    }
}

/// Bytes without a zero and without a mark of UTF-16 are read as UTF-8 where they are UTF-8,
/// with or without the mark of UTF-8, and as Windows-1252 where they are not.
pub proof fn law_plain_bytes_are_read(b: Seq<u8>)
    requires
        b.len() > 0,
        forall|i: int| 0 <= i < b.len() ==> #[trigger] b[i] != 0,
    ensures
        valid_utf8(b) ==> bytes_text(seq![0xefu8, 0xbb, 0xbf] + b) == Some(decode_utf8(b)),
        !valid_utf8(b) ==> bytes_text(seq![0xefu8, 0xbb, 0xbf] + b) == Some(
            Seq::new(b.len(), |i: int| windows_1252(b[i])),
        ),
        b[0] != 0xff && b[0] != 0xfe && b[0] != 0xef && valid_utf8(b) ==> bytes_text(b) == Some(
            decode_utf8(b),
        ),
        b[0] != 0xff && b[0] != 0xfe && b[0] != 0xef && !valid_utf8(b) ==> bytes_text(b) == Some(
            Seq::new(b.len(), |i: int| windows_1252(b[i])),
        ),
        bytes_text(Seq::empty()) is None,
{
    lemma_no_zeros(b, 0);
    lemma_no_zeros(b, 1);
    let m = seq![0xefu8, 0xbb, 0xbf] + b;
    assert(m.skip(3) =~= b);
    assert(windows_1252_text(b) =~= Seq::new(b.len(), |i: int| windows_1252(b[i])));
}

proof fn lemma_ascii_units(s: Seq<char>)
    requires
        forall|i: int| 0 <= i < s.len() ==> 0 < #[trigger] s[i] as u32 <= 0x7f,
    ensures
        utf16_of(s).len() == s.len(),
        zeros_at(low_first(utf16_of(s)), 1) == s.len(),
        zeros_at(low_first(utf16_of(s)), 0) == 0,
        s.len() > 0 ==> 0 < low_first(utf16_of(s))[0] <= 0x7f,
    decreases s.len(),
{
    if s.len() > 0 {
        let t = s.drop_last();
        assert forall|i: int| 0 <= i < t.len() implies 0 < #[trigger] t[i] as u32 <= 0x7f by {
            assert(t[i] == s[i]);
        }
        lemma_ascii_units(t);
        lemma_units_read_back(utf16_of(t));
        let u = utf16_of(s);
        let x = s[s.len() - 1] as u32;
        assert(utf16_units(s.last()) =~= seq![x as u16]);
        assert(u.drop_last() =~= utf16_of(t));
        assert(u.last() == x as u16);
        let b = low_first(utf16_of(t));
        let lo = b.push((x % 256) as u8);
        let all = lo.push(0u8);
        assert((u.last() / 256) as u8 == 0);
        assert(low_first(u) =~= all);
        assert(all.drop_last() =~= lo);
        assert(lo.drop_last() =~= b);
        assert(zeros_at(lo, 1) == zeros_at(b, 1));
        assert(zeros_at(lo, 0) == zeros_at(b, 0));
        assert(zeros_at(all, 1) == zeros_at(lo, 1) + 1);
        assert(zeros_at(all, 0) == zeros_at(lo, 0));
        if t.len() == 0 {
            assert(all[0] == (x % 256) as u8);
        } else {
            assert(all[0] == b[0]);
        }
    }
}

/// Plain text in UTF-16 without a mark is known by its zeros, and read.
pub proof fn law_unmarked_utf16_is_known_by_its_zeros(s: Seq<char>)
    requires
        s.len() > 0,
        forall|i: int| 0 <= i < s.len() ==> 0 < #[trigger] s[i] as u32 <= 0x7f,
    ensures
        bytes_text(low_first(utf16_of(s))) == Some(s),
{
    lemma_ascii_units(s);
    lemma_units_read_back(utf16_of(s));
    law_utf16_round_trip(s);
    assert(0 < s[0] as u32 <= 0x7f);
}

} // verus!
