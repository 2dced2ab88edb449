//! Text as sequences of characters: the operations on strings that the rest of
//! the library is written with, each with its meaning over `Seq<char>`.
use vstd::prelude::*;

verus! {

/// `String::push` appends one character to the end of the string.
pub assume_specification[ String::push ](s: &mut String, c: char)
    ensures
        final(s)@ == old(s)@.push(c),
;

/// `String::push_str` appends a string slice to the end of the string.
pub assume_specification[ String::push_str ](s: &mut String, t: &str)
    ensures
        final(s)@ == old(s)@ + t@,
;

/// What `str::to_lowercase` makes of a text. The mapping is Unicode's, final
/// sigma included, so it is not a mapping of single characters.
pub uninterp spec fn lowercase_text(s: Seq<char>) -> Seq<char>;

/// `str::to_lowercase`: its result is named, not described.
#[verifier::external_body]
pub(crate) fn str_to_lowercase(s: &str) -> (r: String)
    ensures
        r@ == lowercase_text(s@),
{
    s.to_lowercase()
}

/// What `str::to_uppercase` makes of a text.
pub uninterp spec fn uppercase_text(s: Seq<char>) -> Seq<char>;

/// `str::to_uppercase`: its result is named, not described.
#[verifier::external_body]
pub(crate) fn str_to_uppercase(s: &str) -> (r: String)
    ensures
        r@ == uppercase_text(s@),
{
    s.to_uppercase()
}

/// The lower-case form of one character, as `char::to_lowercase` gives it.
pub uninterp spec fn lowercase_char(c: char) -> Seq<char>;

/// `char::to_lowercase`: the characters it yields are named. There is at least
/// one of them.
#[verifier::external_body]
pub(crate) fn char_to_lowercase(c: char) -> (r: Vec<char>)
    ensures
        r@ == lowercase_char(c),
        r@.len() >= 1,
{
    c.to_lowercase().collect()
}

/// The upper-case form of one character, as `char::to_uppercase` gives it.
pub uninterp spec fn uppercase_char(c: char) -> Seq<char>;

/// `char::to_uppercase`: the characters it yields are named.
#[verifier::external_body]
pub(crate) fn char_to_uppercase(c: char) -> (r: Vec<char>)
    ensures
        r@ == uppercase_char(c),
{
    c.to_uppercase().collect()
}

/// Unicode's `White_Space` property.
pub open spec fn white_space(c: char) -> bool {
    let u = c as u32;
    ||| 0x9 <= u <= 0xd
    ||| u == 0x20
    ||| u == 0x85
    ||| u == 0xa0
    ||| u == 0x1680
    ||| 0x2000 <= u <= 0x200a
    ||| u == 0x2028
    ||| u == 0x2029
    ||| u == 0x202f
    ||| u == 0x205f
    ||| u == 0x3000
}

/// Whether `c` is white space.
pub fn is_whitespace(c: char) -> (r: bool)
    ensures
        r == white_space(c),
{
    let u: u32 = c as u32;
    (0x9 <= u && u <= 0xd) || u == 0x20 || u == 0x85 || u == 0xa0 || u == 0x1680 || (0x2000 <= u
        && u <= 0x200a) || u == 0x2028 || u == 0x2029 || u == 0x202f || u == 0x205f || u == 0x3000
}

/// Unicode's general category `Cc`.
pub open spec fn control_code(c: char) -> bool {
    let u = c as u32;
    u <= 0x1f || 0x7f <= u <= 0x9f
}

/// Whether `c` is a control code.
pub fn is_control(c: char) -> (r: bool)
    ensures
        r == control_code(c),
{
    let u: u32 = c as u32;
    u <= 0x1f || (0x7f <= u && u <= 0x9f)
}

/// How many bytes a character takes up in UTF-8.
pub open spec fn utf8_width(c: char) -> nat {
    let u = c as u32;
    if u < 0x80 {
        1
    } else if u < 0x800 {
        2
    } else if u < 0x10000 {
        3
    } else {
        4
    }
}

/// How many bytes a character takes up in UTF-8.
pub fn char_bytes(c: char) -> (r: usize)
    ensures
        r == utf8_width(c),
{
    let u: u32 = c as u32;
    if u < 0x80 {
        1
    } else if u < 0x800 {
        2
    } else if u < 0x10000 {
        3
    } else {
        4
    }
}

/// How many bytes a text takes up in UTF-8.
pub open spec fn byte_count(s: Seq<char>) -> nat
    decreases s.len(),
{
    if s.len() == 0 {
        0
    } else {
        byte_count(s.drop_last()) + utf8_width(s.last())
    }
}

/// The contents of a list of strings.
pub open spec fn views(v: Seq<String>) -> Seq<Seq<char>> {
    Seq::new(v.len(), |i: int| v[i]@)
}

/// The contents of an optional string.
pub open spec fn opt_view(s: Option<String>) -> Option<Seq<char>> {
    match s {
        Some(t) => Some(t@),
        None => None,
    }
}

/// The contents of an optional borrowed string.
pub open spec fn opt_str_view(s: Option<&str>) -> Option<Seq<char>> {
    match s {
        Some(t) => Some(t@),
        None => None,
    }
}

pub proof fn lemma_views_push(v: Seq<String>, s: String)
    ensures
        views(v.push(s)) == views(v).push(s@),
{
    assert(views(v.push(s)) =~= views(v).push(s@));
}

pub proof fn lemma_views_take_succ(v: Seq<String>, i: int)
    requires
        0 <= i < v.len(),
    ensures
        views(v).take(i + 1) == views(v).take(i).push(v[i]@),
{
    assert(views(v).take(i + 1) =~= views(v).take(i).push(v[i]@));
}

/// The characters of a string, in order.
pub fn chars_of(s: &str) -> (r: Vec<char>)
    ensures
        r@ == s@,
{
    let mut out: Vec<char> = Vec::new();
    for c in it: s.chars()
        invariant
            it.seq() == s@,
            out@ == s@.take(it.index() as int),
    {
        out.push(c);
    }
    assert(s@.take(s@.len() as int) == s@);
    out
}

/// The string of the characters from `from` up to `to`.
pub fn text_between(v: &Vec<char>, from: usize, to: usize) -> (r: String)
    requires
        from <= to <= v@.len(),
    ensures
        r@ == v@.subrange(from as int, to as int),
{
    let mut out: String = String::new();
    assert(out@ =~= v@.subrange(from as int, from as int));
    for i in from..to
        invariant
            from <= to <= v@.len(),
            out@ == v@.subrange(from as int, i as int),
    {
        out.push(v[i]);
        assert(out@ =~= v@.subrange(from as int, i + 1));
    }
    out
}

/// The string of these characters.
pub fn string_of(v: &Vec<char>) -> (r: String)
    ensures
        r@ == v@,
{
    let n: usize = v.len();
    let r = text_between(v, 0, n);
    assert(v@.subrange(0, v@.len() as int) =~= v@);
    r
}

/// Whether a string takes up at least `n` bytes in UTF-8.
pub fn at_least_bytes(s: &str, n: usize) -> (r: bool)
    ensures
        r == (byte_count(s@) >= n),
{
    let v: Vec<char> = chars_of(s);
    let len: usize = v.len();
    let mut left: usize = n;
    assert(v@.take(0) =~= Seq::<char>::empty());
    for i in 0..len
        invariant
            len == v@.len(),
            v@ == s@,
            left <= n,
            left > 0 ==> byte_count(v@.take(i as int)) + left == n,
            left == 0 ==> byte_count(v@.take(i as int)) >= n,
    {
        let w: usize = char_bytes(v[i]);
        proof {
            let t = v@.take(i + 1);
            assert(t.drop_last() =~= v@.take(i as int));
            assert(t.last() == v@[i as int]);
        }
        if left > w {
            left = left - w;
        } else {
            left = 0;
        }
    }
    assert(v@.take(len as int) =~= s@);
    left == 0
}

/// A copy of a string.
pub fn copy_text(s: &str) -> (r: String)
    ensures
        r@ == s@,
{
    s.to_owned()
}

/// A copy of an optional string.
pub fn copy_opt(s: &Option<String>) -> (r: Option<String>)
    ensures
        opt_view(r) == opt_view(*s),
{
    match s {
        Some(t) => Some(copy_text(t.as_str())),
        None => None,
    }
}

/// A copy of a list of strings.
pub fn copy_texts(v: &Vec<String>) -> (r: Vec<String>)
    ensures
        views(r@) == views(v@),
{
    let mut out: Vec<String> = Vec::new();
    let n: usize = v.len();
    for i in 0..n
        invariant
            n == v@.len(),
            views(out@) == views(v@).take(i as int),
    {
        let s = copy_text(v[i].as_str());
        proof {
            lemma_views_push(out@, s);
            lemma_views_take_succ(v@, i as int);
        }
        out.push(s);
    }
    assert(views(v@).take(v@.len() as int) =~= views(v@));
    out
}

/// Adds a string to a list.
pub fn push_text(l: &mut Vec<String>, s: String)
    ensures
        views(final(l)@) == views(old(l)@).push(s@),
{
    proof {
        lemma_views_push(l@, s);
    }
    l.push(s);
}

/// Adds copies of strings to a list.
pub fn append_texts(l: &mut Vec<String>, more: &Vec<String>)
    ensures
        views(final(l)@) == views(old(l)@) + views(more@),
{
    let n: usize = more.len();
    let ghost before = views(l@);
    assert(before + views(more@).take(0) =~= before);
    for i in 0..n
        invariant
            n == more@.len(),
            views(l@) == before + views(more@).take(i as int),
    {
        let s = copy_text(more[i].as_str());
        push_text(l, s);
        assert(before + views(more@).take(i + 1) =~= (before + views(more@).take(i as int)).push(
            more@[i as int]@,
        ));
    }
    assert(views(more@).take(n as int) =~= views(more@));
}

/// Whether two strings hold the same text.
pub fn same_text(a: &str, b: &str) -> (r: bool)
    ensures
        r == (a@ == b@),
{
    let x: Vec<char> = chars_of(a);
    let y: Vec<char> = chars_of(b);
    if x.len() != y.len() {
        return false;
    }
    let n: usize = x.len();
    for i in 0..n
        invariant
            n == x@.len() == y@.len(),
            x@ == a@,
            y@ == b@,
            forall|j: int| 0 <= j < i ==> x@[j] == y@[j],
    {
        if x[i] != y[i] {
            assert(a@[i as int] != b@[i as int]);
            return false;
        }
    }
    assert(a@ =~= b@);
    true
}

/// Whether `s` is one of `list`.
pub fn is_one_of(s: &str, list: &Vec<String>) -> (r: bool)
    ensures
        r == views(list@).contains(s@),
{
    let n: usize = list.len();
    for i in 0..n
        invariant
            n == list@.len(),
            forall|j: int| 0 <= j < i ==> views(list@)[j] != s@,
    {
        if same_text(list[i].as_str(), s) {
            assert(views(list@)[i as int] == s@);
            return true;
        }
    }
    false
}

} // verus!
