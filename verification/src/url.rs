//! Text in the query part of a URL.
use vstd::prelude::*;
use vstd::utf8::encode_utf8;

verus! {

/// Whether a byte stands in a URL as it is: letters, digits, `-`, `.`, `_`, `~`.
pub open spec fn unreserved(b: u8) -> bool {
    0x30 <= b <= 0x39 || 0x41 <= b <= 0x5a || 0x61 <= b <= 0x7a || b == 0x2d || b == 0x2e || b
        == 0x5f || b == 0x7e
}

/// A digit of sixteen, in upper case.
pub open spec fn hex_digit(d: int) -> char {
    if d < 10 {
        (0x30 + d) as char
    } else {
        (0x41 + d - 10) as char
    }
}

/// Bytes as they stand in a URL: those that cannot stand as they are become a
/// percent sign and two digits.
pub open spec fn percent_encoded(b: Seq<u8>) -> Seq<char>
    decreases b.len(),
{
    if b.len() == 0 {
        Seq::empty()
    } else {
        let before = percent_encoded(b.drop_last());
        let c = b.last();
        if unreserved(c) {
            before.push(c as char)
        } else {
            before.push('%').push(hex_digit(c as int / 16)).push(hex_digit(c as int % 16))
        }
    }
}

/// `urlencoding::encode` writes the UTF-8 bytes of a text so that they can stand
/// in a URL: every byte but letters, digits and `-`, `.`, `_`, `~` becomes a
/// percent sign and two upper-case digits of sixteen.
#[verifier::external_body]
pub(crate) fn url_encode(s: &str) -> (r: String)
    ensures
        r@ == percent_encoded(encode_utf8(s@)),
{
    urlencoding::encode(s).into_owned()
}

/// The value of a digit of a number in base sixteen.
pub open spec fn digit_value(c: char) -> int {
    if '0' <= c <= '9' {
        c as int - '0' as int
    } else if 'A' <= c <= 'F' {
        c as int - 'A' as int + 10
    } else {
        -1
    }
}

/// In an address letters, digits and the signs `-`, `.`, `_` and `~` stand for themselves, and
/// any other byte is written as `%` and its two digits in base sixteen. Each byte is written
/// for itself.
pub proof fn law_bytes_are_written_one_by_one(b: Seq<u8>, c: u8)
    ensures
        percent_encoded(Seq::empty()).len() == 0,
        ({
            let kept = 'a' as int <= c <= 'z' as int || 'A' as int <= c <= 'Z' as int || '0' as int
                <= c <= '9' as int || c == '-' as int || c == '.' as int || c == '_' as int || c
                == '~' as int;
            let before = percent_encoded(b);
            let w = percent_encoded(b.push(c));
            &&& before.is_prefix_of(w)
            &&& kept ==> w.len() == before.len() + 1 && w.last() as int == c
            &&& !kept ==> w.len() == before.len() + 3 && w[before.len() as int] == '%'
                && digit_value(w[before.len() as int + 1]) * 16 + digit_value(
                w[before.len() as int + 2],
            ) == c
        }),
{
    assert(b.push(c).drop_last() =~= b);
    assert(b.push(c).last() == c);
    let hi = c as int / 16;
    let lo = c as int % 16;
    assert(0 <= hi < 16 && 0 <= lo < 16 && hi * 16 + lo == c);
    assert(digit_value(hex_digit(hi)) == hi);
    assert(digit_value(hex_digit(lo)) == lo);
}

} // verus!
