//! Whole numbers and their decimal texts.

use vstd::prelude::*;

use crate::text::chars_of;

verus! {

/// Whether a character is one of `0` to `9`.
pub open spec fn is_digit(c: char) -> bool {
    '0' <= c <= '9'
}

/// The value of a digit.
pub open spec fn digit_value(c: char) -> int {
    c as int - '0' as int
}

/// Whether every character is a digit.
pub open spec fn all_digits(s: Seq<char>) -> bool {
    forall|i: int| 0 <= i < s.len() ==> is_digit(#[trigger] s[i])
}

/// The number that a string of digits writes.
pub open spec fn digits_value(s: Seq<char>) -> int
    decreases s.len(),
{
    if s.len() == 0 {
        0
    } else {
        digits_value(s.drop_last()) * 10 + digit_value(s.last())
    }
}

/// The number that a text writes: one digit or more, after an optional `+`.
pub open spec fn unsigned_value(s: Seq<char>) -> Option<int> {
    let d = if s.len() > 0 && s[0] == '+' {
        s.skip(1)
    } else {
        s
    };
    if d.len() > 0 && all_digits(d) {
        Some(digits_value(d))
    } else {
        None
    }
}

/// The number that a text writes, where it is at most `max`.
pub open spec fn value_up_to(s: Seq<char>, max: int) -> Option<int> {
    match unsigned_value(s) {
        Some(v) => if v <= max {
            Some(v)
        } else {
            None
        },
        None => None,
    }
}

/// The number that a text writes: one digit or more, after an optional `+` or
/// `-`, where it lies between `min` and `max`.
pub open spec fn signed_value(s: Seq<char>, min: int, max: int) -> Option<int> {
    let d = if s.len() > 0 && (s[0] == '+' || s[0] == '-') {
        s.skip(1)
    } else {
        s
    };
    let v = if s.len() > 0 && s[0] == '-' {
        -digits_value(d)
    } else {
        digits_value(d)
    };
    if d.len() > 0 && all_digits(d) && min <= v <= max {
        Some(v)
    } else {
        None
    }
}

/// Whether a character is one of `0` to `9`.
pub fn is_ascii_digit(c: char) -> (r: bool)
    ensures
        r == is_digit(c),
{
    '0' <= c && c <= '9'
}

proof fn lemma_digits_value_grows(s: Seq<char>, i: int)
    requires
        all_digits(s),
        0 <= i <= s.len(),
    ensures
        0 <= digits_value(s.take(i)) <= digits_value(s),
    decreases s.len(),
{
    if i == s.len() {
        assert(s.take(i) =~= s);
        if s.len() > 0 {
            lemma_digits_value_grows(s.drop_last(), 0);
            assert(s.drop_last().take(0) =~= Seq::<char>::empty());
        }
    } else {
        lemma_digits_value_grows(s.drop_last(), i);
        assert(s.drop_last().take(i) =~= s.take(i));
    }
}

/// The number that the digits of `cs` from `from` on write, where there is at
/// least one, there is nothing else, and the number is at most `max`.
fn parse_digits(cs: &Vec<char>, from: usize, max: u64) -> (r: Option<u64>)
    requires
        from <= cs@.len(),
    ensures
        r == ({
            let d = cs@.skip(from as int);
            if d.len() > 0 && all_digits(d) && digits_value(d) <= max {
                Some(digits_value(d) as u64)
            } else {
                None
            }
        }),
{
    let ghost d = cs@.skip(from as int);
    if from == cs.len() {
        return None;
    }
    let mut acc: u64 = 0;
    let n: usize = cs.len();
    assert(d.take(0) =~= Seq::<char>::empty());
    for i in from..n
        invariant
            n == cs@.len(),
            from <= n,
            d == cs@.skip(from as int),
            forall|j: int| 0 <= j < i - from ==> is_digit(#[trigger] d[j]),
            acc == digits_value(d.take(i - from)),
            acc <= max,
    {
        let c = cs[i];
        assert(c == d[i - from]);
        if !is_ascii_digit(c) {
            return None;
        }
        let v: u128 = (acc as u128) * 10 + ((c as u32) - ('0' as u32)) as u128;
        proof {
            let t = d.take(i - from + 1);
            assert(t.drop_last() =~= d.take(i - from));
            assert(v == digits_value(t));
            if all_digits(d) {
                lemma_digits_value_grows(d, i - from + 1);
            }
        }
        if v > max as u128 {
            return None;
        }
        acc = v as u64;
    }
    assert(d.take(n - from) =~= d);
    Some(acc)
}

/// The `u64` that a text writes, as `str::parse` reads it.
pub fn parse_u64(s: &str) -> (r: Option<u64>)
    ensures
        value_up_to(s@, u64::MAX as int) == (match r {
            Some(v) => Some(v as int),
            None => None::<int>,
        }),
{
    let cs = chars_of(s);
    parse_up_to(&cs, u64::MAX)
}

/// The number that a text writes, where it is at most `max`.
fn parse_up_to(cs: &Vec<char>, max: u64) -> (r: Option<u64>)
    ensures
        value_up_to(cs@, max as int) == (match r {
            Some(v) => Some(v as int),
            None => None::<int>,
        }),
{
    proof {
        if all_digits(cs@) {
            lemma_digits_value_grows(cs@, 0);
        }
        if cs@.len() > 0 && all_digits(cs@.skip(1)) {
            lemma_digits_value_grows(cs@.skip(1), 0);
        }
        assert(cs@.skip(0) =~= cs@);
    }
    if cs.len() > 0 && cs[0] == '+' {
        parse_digits(cs, 1, max)
    } else {
        parse_digits(cs, 0, max)
    }
}

/// The `u32` that a text writes, as `str::parse` reads it.
pub fn parse_u32(s: &str) -> (r: Option<u32>)
    ensures
        value_up_to(s@, u32::MAX as int) == (match r {
            Some(v) => Some(v as int),
            None => None::<int>,
        }),
{
    let cs = chars_of(s);
    match parse_up_to(&cs, u32::MAX as u64) {
        Some(v) => Some(v as u32),
        None => None,
    }
}

/// The `usize` that a text writes, as `str::parse` reads it.
pub fn parse_usize(s: &str) -> (r: Option<usize>)
    ensures
        value_up_to(s@, usize::MAX as int) == (match r {
            Some(v) => Some(v as int),
            None => None::<int>,
        }),
{
    let cs = chars_of(s);
    match parse_up_to(&cs, usize::MAX as u64) {
        Some(v) => Some(v as usize),
        None => None,
    }
}

/// The `i64` that a text writes, as `str::parse` reads it.
pub fn parse_i64(s: &str) -> (r: Option<i64>)
    ensures
        signed_value(s@, i64::MIN as int, i64::MAX as int) == (match r {
            Some(v) => Some(v as int),
            None => None::<int>,
        }),
{
    let cs = chars_of(s);
    proof {
        if all_digits(cs@) {
            lemma_digits_value_grows(cs@, 0);
        }
        if cs@.len() > 0 && all_digits(cs@.skip(1)) {
            lemma_digits_value_grows(cs@.skip(1), 0);
        }
        assert(cs@.skip(0) =~= cs@);
    }
    if cs.len() > 0 && cs[0] == '-' {
        match parse_digits(&cs, 1, 0x8000_0000_0000_0000) {
            Some(v) => if v == 0x8000_0000_0000_0000 {
                Some(i64::MIN)
            } else {
                Some(-(v as i64))
            },
            None => None,
        }
    } else if cs.len() > 0 && cs[0] == '+' {
        match parse_digits(&cs, 1, 0x7fff_ffff_ffff_ffff) {
            Some(v) => Some(v as i64),
            None => None,
        }
    } else {
        match parse_digits(&cs, 0, 0x7fff_ffff_ffff_ffff) {
            Some(v) => Some(v as i64),
            None => None,
        }
    }
}

/// The character that writes the digit `d`.
pub open spec fn digit_char(d: int) -> char {
    ('0' as int + d) as char
}

/// The decimal text of a number, without leading zeros.
pub open spec fn decimal_text(n: int) -> Seq<char>
    decreases n,
{
    if n < 10 {
        seq![digit_char(n)]
    } else {
        decimal_text(n / 10).push(digit_char(n % 10))
    }
}

/// The decimal text of a number, with a `-` before a negative one.
pub open spec fn integer_text(n: int) -> Seq<char> {
    if n < 0 {
        seq!['-'] + decimal_text(-n)
    } else {
        decimal_text(n)
    }
}

/// The text of exactly three digits of a number below a thousand.
pub open spec fn three_digits(n: int) -> Seq<char> {
    seq![digit_char(n / 100), digit_char(n / 10 % 10), digit_char(n % 10)]
}

/// The text of exactly two digits of a number below a hundred.
pub open spec fn two_digits(n: int) -> Seq<char> {
    seq![digit_char(n / 10), digit_char(n % 10)]
}

/// The decimal text of a number with a `,` before every group of three digits
/// but the first.
pub open spec fn thousands_text(n: int) -> Seq<char>
    decreases n,
{
    if n < 1000 {
        decimal_text(n)
    } else {
        thousands_text(n / 1000).push(',') + three_digits(n % 1000)
    }
}

/// Appends the digit `d`.
fn push_digit(out: &mut String, d: u64)
    requires
        d < 10,
    ensures
        final(out)@ == old(out)@.push(digit_char(d as int)),
{
    let c: char = (48u8 + d as u8) as char;
    out.push(c);
}

/// Appends the decimal text of `n`.
pub fn push_decimal(out: &mut String, n: u64)
    ensures
        final(out)@ == old(out)@ + decimal_text(n as int),
    decreases n,
{
    if n < 10 {
        push_digit(out, n);
        assert(out@ =~= old(out)@ + decimal_text(n as int));
    } else {
        push_decimal(out, n / 10);
        push_digit(out, n % 10);
        assert(out@ =~= old(out)@ + decimal_text(n as int));
    }
}

/// The decimal text of `n`.
pub fn decimal(n: u64) -> (r: String)
    ensures
        r@ == decimal_text(n as int),
{
    let mut out = String::new();
    push_decimal(&mut out, n);
    assert(out@ =~= decimal_text(n as int));
    out
}

/// The decimal text of a signed number.
pub fn integer(n: i64) -> (r: String)
    ensures
        r@ == integer_text(n as int),
{
    let mut out = String::new();
    if n < 0 {
        out.push('-');
        let m: u64 = if n == i64::MIN {
            0x8000_0000_0000_0000
        } else {
            (-n) as u64
        };
        push_decimal(&mut out, m);
        assert(out@ =~= integer_text(n as int));
    } else {
        push_decimal(&mut out, n as u64);
        assert(out@ =~= integer_text(n as int));
    }
    out
}

/// Appends the text of `n` with its thousands set off by commas.
fn push_thousands(out: &mut String, n: u64)
    ensures
        final(out)@ == old(out)@ + thousands_text(n as int),
    decreases n,
{
    if n < 1000 {
        push_decimal(out, n);
    } else {
        push_thousands(out, n / 1000);
        out.push(',');
        let m: u64 = n % 1000;
        push_digit(out, m / 100);
        push_digit(out, m / 10 % 10);
        push_digit(out, m % 10);
        assert(out@ =~= old(out)@ + thousands_text(n as int));
    }
}

/// The decimal text of `n` with its thousands set off by commas.
pub fn format_thousands(n: u64) -> (r: String)
    ensures
        r@ == thousands_text(n as int),
{
    let mut out = String::new();
    push_thousands(&mut out, n);
    assert(out@ =~= thousands_text(n as int));
    out
}

/// A decimal text is made of digits and writes the number that it is the text of.
pub proof fn law_decimal_text_writes_its_number(n: int)
    requires
        0 <= n,
    ensures
        decimal_text(n).len() > 0,
        all_digits(decimal_text(n)),
        digits_value(decimal_text(n)) == n,
        unsigned_value(decimal_text(n)) == Some(n),
    decreases n,
{
    let t = decimal_text(n);
    if n < 10 {
        assert(t.drop_last() =~= Seq::<char>::empty());
        assert(digits_value(t.drop_last()) == 0);
    } else {
        law_decimal_text_writes_its_number(n / 10);
        assert(t.drop_last() =~= decimal_text(n / 10));
    }
}

/// Reading the text of a number gives the number back.
pub proof fn law_integer_text_reads_back(n: int, min: int, max: int)
    requires
        min <= n <= max,
    ensures
        signed_value(integer_text(n), min, max) == Some(n),
{
    if n < 0 {
        law_decimal_text_writes_its_number(-n);
        assert(integer_text(n).skip(1) =~= decimal_text(-n));
    } else {
        law_decimal_text_writes_its_number(n);
        assert(is_digit(decimal_text(n)[0]));
    }
}

/// Two numbers with the same text are the same number.
pub proof fn law_integer_text_is_injective(a: int, b: int)
    requires
        integer_text(a) == integer_text(b),
    ensures
        a == b,
{
    let lo = if a < b {
        a
    } else {
        b
    };
    let hi = if a < b {
        b
    } else {
        a
    };
    law_integer_text_reads_back(a, lo, hi);
    law_integer_text_reads_back(b, lo, hi);
}

/// The characters of a text that are no comma.
pub open spec fn without_commas(s: Seq<char>) -> Seq<char> {
    s.filter(|c: char| c != ',')
}

/// Without its commas, the text with thousands set off is the decimal text.
pub proof fn law_thousands_text_without_commas(n: int)
    requires
        0 <= n,
    ensures
        without_commas(thousands_text(n)) == decimal_text(n),
    decreases n,
{
    let p = |c: char| c != ',';
    if n < 1000 {
        law_decimal_text_writes_its_number(n);
        lemma_filter_keeps_all(decimal_text(n), p);
    } else {
        let a = thousands_text(n / 1000);
        let b = three_digits(n % 1000);
        law_thousands_text_without_commas(n / 1000);
        assert(a.push(',').filter(p) == a.filter(p)) by {
            reveal(Seq::filter);
            assert(a.push(',').drop_last() =~= a);
        }
        Seq::filter_distributes_over_add(a.push(','), b, p);
        lemma_filter_keeps_all(b, p);
        assert(decimal_text(n) =~= decimal_text(n / 1000) + b) by {
            assert(n / 10 >= 10 && n / 100 >= 10);
            assert(n / 10 / 10 == n / 100);
            assert(n / 100 / 10 == n / 1000);
            assert(decimal_text(n) == decimal_text(n / 10).push(digit_char(n % 10)));
            assert(decimal_text(n / 10) == decimal_text(n / 100).push(digit_char(n / 10 % 10)));
            assert(decimal_text(n / 100) == decimal_text(n / 1000).push(digit_char(n / 100 % 10)));
            assert((n % 1000) / 100 == n / 100 % 10);
            assert((n % 1000) / 10 % 10 == n / 10 % 10);
            assert((n % 1000) % 10 == n % 10);
        }
    }
}

proof fn lemma_filter_keeps_all(s: Seq<char>, p: spec_fn(char) -> bool)
    requires
        forall|i: int| 0 <= i < s.len() ==> p(#[trigger] s[i]),
    ensures
        s.filter(p) == s,
    decreases s.len(),
{
    reveal(Seq::filter);
    if s.len() > 0 {
        let t = s.drop_last();
        assert forall|i: int| 0 <= i < t.len() implies p(#[trigger] t[i]) by {
            assert(t[i] == s[i]);
        }
        lemma_filter_keeps_all(t, p);
        assert(p(s[s.len() - 1]));
        assert(s =~= t.push(s.last()));
    } else {
        assert(s.filter(p) =~= s);
    }
}

/// A decimal text has no leading zero but for that of 0, and a number below ten
/// is written by one digit, any other by one digit more than its tenth.
pub proof fn law_decimal_text_has_no_leading_zero(n: int)
    requires
        0 <= n,
    ensures
        n > 0 ==> decimal_text(n)[0] != '0',
        n < 10 ==> decimal_text(n).len() == 1,
        n >= 10 ==> decimal_text(n).len() == decimal_text(n / 10).len() + 1,
    decreases n,
{
    law_decimal_text_writes_its_number(n);
    if n >= 10 {
        law_decimal_text_has_no_leading_zero(n / 10);
        law_decimal_text_writes_its_number(n / 10);
        assert(decimal_text(n)[0] == decimal_text(n / 10)[0]);
    }
}

/// A text with thousands set off begins with a digit, and every fourth character
/// from its end, and no other, is a comma; all others are digits.
pub proof fn law_thousands_are_grouped(n: int)
    requires
        0 <= n,
    ensures
        ({
            let t = thousands_text(n);
            &&& t.len() > 0
            &&& is_digit(t[0])
            &&& forall|i: int|
                0 <= i < t.len() ==> (#[trigger] t[i] == ',' <==> (t.len() - i) % 4 == 0)
            &&& forall|i: int| 0 <= i < t.len() ==> is_digit(#[trigger] t[i]) || t[i] == ','
        }),
    decreases n,
{
    let t = thousands_text(n);
    if n < 1000 {
        law_decimal_text_writes_its_number(n);
        law_decimal_text_has_no_leading_zero(n);
        if n >= 10 {
            law_decimal_text_has_no_leading_zero(n / 10);
            if n >= 100 {
                law_decimal_text_has_no_leading_zero(n / 10 / 10);
            }
        }
        assert(t.len() <= 3);
        assert forall|i: int| 0 <= i < t.len() implies (#[trigger] t[i] == ',' <==> (t.len() - i)
            % 4 == 0) by {
            assert(is_digit(t[i]));
        }
    } else {
        law_thousands_are_grouped(n / 1000);
        let a = thousands_text(n / 1000);
        let b = three_digits(n % 1000);
        assert(t.len() == a.len() + 4);
        assert forall|i: int| 0 <= i < t.len() implies (#[trigger] t[i] == ',' <==> (t.len() - i)
            % 4 == 0) && (is_digit(t[i]) || t[i] == ',') by {
            if i < a.len() {
                assert(t[i] == a[i]);
            } else if i > a.len() {
                assert(t[i] == b[i - a.len() - 1]);
            }
        }
        assert(t[0] == a[0]);
    }
}

/// Only a text of digits, after an optional sign, is read as a number, and the
/// number is that of its digits.
pub proof fn law_only_digits_are_numbers(s: Seq<char>, max: int)
    ensures
        s.len() == 0 ==> value_up_to(s, max) is None,
        value_up_to(s, max) matches Some(v) ==> 0 <= v <= max,
        (exists|i: int| 0 < i < s.len() && !is_digit(#[trigger] s[i])) ==> value_up_to(s, max)
            is None,
        s.len() > 0 && !is_digit(s[0]) && s[0] != '+' ==> value_up_to(s, max) is None,
        all_digits(s) && s.len() > 0 && digits_value(s) <= max ==> value_up_to(s, max) == Some(
            digits_value(s),
        ),
        all_digits(s) && s.len() > 0 && digits_value(s) > max ==> value_up_to(s, max) is None,
{
    if all_digits(s) {
        lemma_digits_value_grows(s, 0);
    }
    if s.len() > 0 && all_digits(s.skip(1)) {
        lemma_digits_value_grows(s.skip(1), 0);
    }
    assert forall|i: int| 0 < i < s.len() && !is_digit(#[trigger] s[i]) implies value_up_to(s, max)
        is None by {
        assert(s.skip(1)[i - 1] == s[i]);
    }
}

/// A plus sign before a number does not count, and a minus sign gives the
/// opposite number, where numbers below zero are read.
pub proof fn law_signs_are_read(n: int, max: int)
    requires
        0 <= n <= max,
    ensures
        value_up_to(seq!['+'] + decimal_text(n), max) == Some(n),
        value_up_to(seq!['-'] + decimal_text(n), max) is None,
        signed_value(seq!['+'] + decimal_text(n), -max, max) == Some(n),
        signed_value(seq!['-'] + decimal_text(n), -max, max) == Some(-n),
{
    let d = decimal_text(n);
    law_decimal_text_writes_its_number(n);
    assert((seq!['+'] + d).skip(1) =~= d);
    assert((seq!['-'] + d).skip(1) =~= d);
    assert((seq!['+'] + d)[0] == '+');
    assert((seq!['-'] + d)[0] == '-');
}

} // verus!
