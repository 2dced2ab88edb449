//! Decimal numbers as text.
use crate::text::{chars_of, text_between};
use vstd::prelude::*;

verus! {

/// The digit character of `d`, for `d < 10`.
pub open spec fn digit(d: nat) -> char {
    (('0' as u32) + d) as char
}

/// `n` in decimal, without leading zeros.
pub open spec fn decimal(n: nat) -> Seq<char>
    decreases n,
{
    if n < 10 {
        seq![digit(n)]
    } else {
        decimal(n / 10).push(digit(n % 10))
    }
}

/// `n` in decimal, with a minus sign where it is negative.
pub open spec fn decimal_int(n: int) -> Seq<char> {
    if n < 0 {
        seq!['-'] + decimal((-n) as nat)
    } else {
        decimal(n as nat)
    }
}

fn digit_of(d: u8) -> (r: char)
    requires
        d < 10,
    ensures
        r == digit(d as nat),
{
    (48 + d) as char
}

/// `n` in decimal.
pub fn nat_text(n: u128) -> (r: String)
    ensures
        r@ == decimal(n as nat),
    decreases n,
{
    if n < 10 {
        let mut out: String = String::new();
        out.push(digit_of(n as u8));
        out
    } else {
        let mut out: String = nat_text(n / 10);
        out.push(digit_of((n % 10) as u8));
        out
    }
}

/// `n` in decimal, with a minus sign where it is negative.
pub fn int_text(n: i128) -> (r: String)
    requires
        n > i128::MIN,
    ensures
        r@ == decimal_int(n as int),
{
    if n < 0 {
        let mut out: String = "-".to_owned();
        let m = nat_text((-n) as u128);
        out.push_str(m.as_str());
        proof {
            reveal_strlit("-");
            assert("-"@ =~= seq!['-']);
        }
        out
    } else {
        nat_text(n as u128)
    }
}

/// A count in decimal.
pub fn count_text(n: usize) -> (r: String)
    ensures
        r@ == decimal(n as nat),
{
    nat_text(n as u128)
}

/// A signed number in decimal.
pub fn i64_text(n: i64) -> (r: String)
    ensures
        r@ == decimal_int(n as int),
{
    int_text(n as i128)
}

/// Whether `c` is one of the ten decimal digits.
pub open spec fn is_digit(c: char) -> bool {
    '0' <= c <= '9'
}

/// The number that a digit character stands for.
pub open spec fn digit_value(c: char) -> nat {
    (c as u32 - '0' as u32) as nat
}

/// The number that a run of digits stands for.
pub open spec fn digits_value(s: Seq<char>) -> nat
    decreases s.len(),
{
    if s.len() == 0 {
        0
    } else {
        digits_value(s.drop_last()) * 10 + digit_value(s.last())
    }
}

/// A decimal number is made of digits only.
pub proof fn lemma_decimal_digits(n: nat)
    ensures
        decimal(n).len() >= 1,
        forall|i: int| 0 <= i < decimal(n).len() ==> is_digit(#[trigger] decimal(n)[i]),
    decreases n,
{
    if n >= 10 {
        lemma_decimal_digits(n / 10);
        assert forall|i: int| 0 <= i < decimal(n).len() implies is_digit(
            #[trigger] decimal(n)[i],
        ) by {
            if i < decimal(n / 10).len() {
                assert(decimal(n)[i] == decimal(n / 10)[i]);
            }
        }
    }
}

/// Reading a decimal number back gives the number.
pub proof fn law_decimal_reads_back(n: nat)
    ensures
        digits_value(decimal(n)) == n,
    decreases n,
{
    if n < 10 {
        assert(decimal(n).drop_last() =~= Seq::<char>::empty());
        assert(digits_value(Seq::<char>::empty()) == 0);
    } else {
        law_decimal_reads_back(n / 10);
        assert(decimal(n).drop_last() =~= decimal(n / 10));
    }
}

/// Two numbers with the same decimal text are the same number.
pub proof fn law_decimal_int_injective(a: int, b: int)
    requires
        decimal_int(a) == decimal_int(b),
    ensures
        a == b,
{
    let (p, q) = (if a < 0 { -a } else { a }, if b < 0 { -b } else { b });
    lemma_decimal_digits(p as nat);
    lemma_decimal_digits(q as nat);
    law_decimal_reads_back(p as nat);
    law_decimal_reads_back(q as nat);
    if a < 0 {
        assert(decimal_int(a)[0] == '-');
        if b >= 0 {
            assert(is_digit(decimal(q as nat)[0]));
        }
        assert((seq!['-'] + decimal(p as nat)).skip(1) =~= decimal(p as nat));
        assert((seq!['-'] + decimal(q as nat)).skip(1) =~= decimal(q as nat));
    } else if b < 0 {
        assert(decimal_int(b)[0] == '-');
        assert(is_digit(decimal(p as nat)[0]));
    }
}

/// The digits of `s` in groups of three from the right, with commas between.
pub open spec fn grouped(s: Seq<char>) -> Seq<char>
    decreases s.len(),
{
    if s.len() <= 3 {
        s
    } else {
        grouped(s.take(s.len() - 3)) + seq![','] + s.skip(s.len() - 3)
    }
}

/// `n` in decimal with commas as thousands separators.
pub open spec fn thousands(n: int) -> Seq<char> {
    if n < 0 {
        seq!['-'] + grouped(decimal((-n) as nat))
    } else {
        grouped(decimal(n as nat))
    }
}

fn group_digits(v: &Vec<char>, n: usize) -> (r: String)
    requires
        n <= v@.len(),
    ensures
        r@ == grouped(v@.take(n as int)),
    decreases n,
{
    if n <= 3 {
        assert(v@.subrange(0, n as int) =~= v@.take(n as int));
        text_between(v, 0, n)
    } else {
        let mut out: String = group_digits(v, n - 3);
        out.push(',');
        let tail = text_between(v, n - 3, n);
        proof {
            let s = v@.take(n as int);
            assert(s.take(n - 3) =~= v@.take(n - 3));
            assert(s.skip(n - 3) =~= v@.subrange(n - 3, n as int));
            assert(grouped(s.take(n - 3)).push(',') =~= grouped(s.take(n - 3)) + seq![',']);
        }
        out.push_str(tail.as_str());
        out
    }
}

/// `n` in decimal with commas as thousands separators.
pub fn thousands_text(n: i128) -> (r: String)
    requires
        n > i128::MIN,
    ensures
        r@ == thousands(n as int),
{
    let m: u128 = if n < 0 { (-n) as u128 } else { n as u128 };
    let plain = nat_text(m);
    let v: Vec<char> = chars_of(plain.as_str());
    let len: usize = v.len();
    let body = group_digits(&v, len);
    assert(v@.take(len as int) =~= plain@);
    if n < 0 {
        let mut out: String = String::new();
        out.push('-');
        out.push_str(body.as_str());
        assert(out@ =~= thousands(n as int));
        out
    } else {
        body
    }
}

/// `n` with commas as thousands separators, such as `1,234,567`.
pub fn format_thousands(n: i64) -> (r: String)
    ensures
        r@ == thousands(n as int),
{
    thousands_text(n as i128)
}

/// `s` without its commas.
pub open spec fn without_commas(s: Seq<char>) -> Seq<char> {
    s.filter(|c: char| c != ',')
}

/// Taking the separators out gives the plain decimal number.
pub proof fn law_thousands_only_adds_commas(n: int)
    ensures
        without_commas(thousands(n)) == decimal_int(n),
{
    let m = (if n < 0 { -n } else { n }) as nat;
    lemma_decimal_digits(m);
    lemma_grouped_filter(decimal(m));
    if n < 0 {
        let p = |c: char| c != ',';
        Seq::<char>::filter_distributes_over_add(seq!['-'], grouped(decimal(m)), p);
        assert(seq!['-'].filter(p) =~= seq!['-']) by {
            reveal(Seq::filter);
            assert(seq!['-'].drop_last() =~= Seq::<char>::empty());
            assert(Seq::<char>::empty().filter(p) =~= Seq::<char>::empty());
        }
    }
}

proof fn lemma_grouped_filter(s: Seq<char>)
    requires
        forall|i: int| 0 <= i < s.len() ==> is_digit(#[trigger] s[i]),
    ensures
        without_commas(grouped(s)) == s,
    decreases s.len(),
{
    let p = |c: char| c != ',';
    if s.len() <= 3 {
        lemma_filter_all(s, p);
    } else {
        let a = s.take(s.len() - 3);
        let b = s.skip(s.len() - 3);
        lemma_grouped_filter(a);
        lemma_filter_all(b, p);
        Seq::<char>::filter_distributes_over_add(grouped(a) + seq![','], b, p);
        Seq::<char>::filter_distributes_over_add(grouped(a), seq![','], p);
        assert(seq![','].filter(p) =~= Seq::<char>::empty()) by {
            reveal(Seq::filter);
            assert(seq![','].drop_last() =~= Seq::<char>::empty());
            assert(Seq::<char>::empty().filter(p) =~= Seq::<char>::empty());
        }
        assert(a + Seq::<char>::empty() + b =~= s);
    }
}

pub proof fn lemma_filter_all(s: Seq<char>, p: spec_fn(char) -> bool)
    requires
        forall|i: int| 0 <= i < s.len() ==> p(#[trigger] s[i]),
    ensures
        s.filter(p) == s,
    decreases s.len(),
{
    reveal(Seq::filter);
    if s.len() > 0 {
        lemma_filter_all(s.drop_last(), p);
        assert(s.drop_last().push(s.last()) =~= s);
    } else {
        assert(s.filter(p) =~= s);
    }
}

/// The commas of a number part its digits in groups of three, counted from the end.
pub proof fn law_commas_part_groups_of_three(n: nat, i: int)
    requires
        0 <= i < thousands(n as int).len(),
    ensures
        thousands(n as int)[i] == ',' <==> (thousands(n as int).len() - i) % 4 == 0,
        thousands(-(n as int)) == if n == 0 {
            thousands(0)
        } else {
            seq!['-'] + thousands(n as int)
        },
{
    lemma_decimal_digits(n);
    lemma_grouped_commas(decimal(n), i);
}

proof fn lemma_grouped_commas(s: Seq<char>, i: int)
    requires
        forall|k: int| 0 <= k < s.len() ==> is_digit(#[trigger] s[k]),
        0 <= i < grouped(s).len(),
    ensures
        grouped(s)[i] == ',' <==> (grouped(s).len() - i) % 4 == 0,
    decreases s.len(),
{
    let g = grouped(s);
    if s.len() <= 3 {
        assert(is_digit(s[i]));
    } else {
        let t = s.take(s.len() - 3);
        let h = grouped(t);
        assert forall|k: int| 0 <= k < t.len() implies is_digit(#[trigger] t[k]) by {
            assert(t[k] == s[k]);
        }
        assert(g.len() == h.len() + 4);
        if i < h.len() {
            lemma_grouped_commas(t, i);
            assert(g[i] == h[i]);
        } else if i > h.len() {
            assert(g[i] == s[s.len() - 3 + (i - h.len() - 1)]);
            assert(is_digit(s[s.len() - 3 + (i - h.len() - 1)]));
        }
    }
}

} // verus!
