//! Building strings: characters, slices of text, and numbers in decimal.

use vstd::prelude::*;

verus! {

/// Relies on `String::push`: it appends one character.
#[verifier::external_body]
pub fn push_char(s: &mut String, c: char)
    ensures
        final(s)@ == old(s)@.push(c),
{
    s.push(c);
}

/// Relies on `String::push_str`: it appends the characters of `t`.
#[verifier::external_body]
pub fn push_str(s: &mut String, t: &str)
    ensures
        final(s)@ == old(s)@ + t@,
{
    s.push_str(t);
}

/// Appends the characters of `t`.
pub fn push_chars(s: &mut String, t: &[char])
    ensures
        final(s)@ == old(s)@ + t@,
{
    let mut i: usize = 0;
    while i < t.len()
        invariant
            i <= t@.len(),
            s@ == old(s)@ + t@.subrange(0, i as int),
        decreases t@.len() - i,
    {
        push_char(s, t[i]);
        i = i + 1;
        assert(t@.subrange(0, i as int) =~= t@.subrange(0, i - 1).push(t@[i - 1]));
    }
    assert(t@.subrange(0, i as int) =~= t@);
}

/// A string holding the characters of `t`.
pub fn string_of(t: &[char]) -> (r: String)
    ensures
        r@ == t@,
{
    let mut s = String::new();
    push_chars(&mut s, t);
    assert(s@ =~= t@);
    s
}

/// The decimal digits of `n`, most significant first.
pub open spec fn decimal(n: nat) -> Seq<char>
    decreases n,
{
    if n < 10 {
        seq![digit_char(n)]
    } else {
        decimal(n / 10).push(digit_char(n % 10))
    }
}

pub open spec fn digit_char(d: nat) -> char {
    if d == 0 {
        '0'
    } else if d == 1 {
        '1'
    } else if d == 2 {
        '2'
    } else if d == 3 {
        '3'
    } else if d == 4 {
        '4'
    } else if d == 5 {
        '5'
    } else if d == 6 {
        '6'
    } else if d == 7 {
        '7'
    } else if d == 8 {
        '8'
    } else {
        '9'
    }
}

fn digit(d: usize) -> (r: char)
    requires
        d < 10,
    ensures
        r == digit_char(d as nat),
{
    if d == 0 {
        '0'
    } else if d == 1 {
        '1'
    } else if d == 2 {
        '2'
    } else if d == 3 {
        '3'
    } else if d == 4 {
        '4'
    } else if d == 5 {
        '5'
    } else if d == 6 {
        '6'
    } else if d == 7 {
        '7'
    } else if d == 8 {
        '8'
    } else {
        '9'
    }
}

/// Appends `n` in decimal.
pub fn push_decimal(s: &mut String, n: usize)
    ensures
        final(s)@ == old(s)@ + decimal(n as nat),
    decreases n,
{
    if n < 10 {
        push_char(s, digit(n));
        assert(old(s)@.push(digit_char(n as nat)) =~= old(s)@ + decimal(n as nat));
    } else {
        push_decimal(s, n / 10);
        push_char(s, digit(n % 10));
        assert((old(s)@ + decimal((n / 10) as nat)).push(digit_char((n % 10) as nat)) =~= old(s)@
            + decimal(n as nat));
    }
}

/// A decimal digit.
pub open spec fn decimal_digit(c: char) -> bool {
    '0' <= c && c <= '9'
}

pub open spec fn digit_value(c: char) -> int {
    (c as u32) - ('0' as u32)
}

/// The number that a run of decimal digits writes.
pub open spec fn digits_value(s: Seq<char>) -> int
    decreases s.len(),
{
    if s.len() == 0 {
        0
    } else {
        digits_value(s.drop_last()) * 10 + digit_value(s.last())
    }
}

/// The digits of an unsigned integer: what follows an optional `+`.
pub open spec fn unsigned_digits(s: Seq<char>) -> Seq<char> {
    if s.len() > 0 && s[0] == '+' {
        s.drop_first()
    } else {
        s
    }
}

/// One or more decimal digits whose number is at most `max`.
pub open spec fn digits_ok(d: Seq<char>, max: int) -> bool {
    &&& d.len() > 0
    &&& forall|i: int| 0 <= i < d.len() ==> decimal_digit(#[trigger] d[i])
    &&& digits_value(d) <= max
}

/// What `str::parse` reads as an unsigned integer of at most `max`: an
/// optional `+`, then one or more decimal digits whose number is at most
/// `max`.
pub open spec fn parse_unsigned(s: Seq<char>, max: int) -> Option<int> {
    if digits_ok(unsigned_digits(s), max) {
        Some(digits_value(unsigned_digits(s)))
    } else {
        None
    }
}

proof fn lemma_digits_value_grows(s: Seq<char>, k: int)
    requires
        0 <= k <= s.len(),
        forall|i: int| 0 <= i < s.len() ==> decimal_digit(#[trigger] s[i]),
    ensures
        digits_value(s.subrange(0, k)) <= digits_value(s),
        0 <= digits_value(s.subrange(0, k)),
    decreases s.len(),
{
    if s.len() == 0 {
    } else if k == s.len() {
        assert(s.subrange(0, k) =~= s);
        lemma_digits_value_grows(s.drop_last(), s.len() - 1);
        assert(s.drop_last().subrange(0, s.len() - 1) =~= s.drop_last());
    } else {
        lemma_digits_value_grows(s.drop_last(), k);
        assert(s.drop_last().subrange(0, k) =~= s.subrange(0, k));
        lemma_digits_value_grows(s.drop_last(), s.len() - 1);
        assert(s.drop_last().subrange(0, s.len() - 1) =~= s.drop_last());
    }
}

/// Reads an unsigned integer as `str::parse::<usize>` does.
pub fn parse_usize(s: &[char]) -> (r: Option<usize>)
    ensures
        match parse_unsigned(s@, usize::MAX as int) {
            Some(n) => r matches Some(x) && x == n,
            None => r is None,
        },
{
    let start: usize = if s.len() > 0 && s[0] == '+' {
        1
    } else {
        0
    };
    let ghost d = unsigned_digits(s@);
    assert(d =~= s@.subrange(start as int, s@.len() as int));
    if start >= s.len() {
        return None;
    }
    let mut value: usize = 0;
    let mut i: usize = start;
    while i < s.len()
        invariant
            start <= i <= s@.len(),
            start < s@.len(),
            d == unsigned_digits(s@),
            d =~= s@.subrange(start as int, s@.len() as int),
            forall|k: int| 0 <= k < i - start ==> decimal_digit(#[trigger] d[k]),
            value == digits_value(d.subrange(0, i - start)),
        decreases s@.len() - i,
    {
        let c = s[i];
        if !(c >= '0' && c <= '9') {
            assert(!decimal_digit(d[i - start]));
            assert(!digits_ok(d, usize::MAX as int));
            return None;
        }
        let digit = (c as u32 - '0' as u32) as usize;
        assert(d.subrange(0, i - start + 1).drop_last() =~= d.subrange(0, i - start));
        match value.checked_mul(10) {
            Some(v) => match v.checked_add(digit) {
                Some(w) => {
                    value = w;
                },
                None => {
                    proof {
                        lemma_rest_digits(d, i - start + 1);
                    }
                    return None;
                },
            },
            None => {
                proof {
                    lemma_rest_digits(d, i - start + 1);
                }
                return None;
            },
        }
        i = i + 1;
    }
    assert(d.subrange(0, d.len() as int) =~= d);
    Some(value)
}

/// Once a prefix of the digits is over the limit, so is the whole run, if
/// it is all digits.
proof fn lemma_rest_digits(d: Seq<char>, k: int)
    requires
        0 <= k <= d.len(),
        digits_value(d.subrange(0, k)) > usize::MAX,
    ensures
        !digits_ok(d, usize::MAX as int),
{
    if forall|i: int| 0 <= i < d.len() ==> decimal_digit(#[trigger] d[i]) {
        lemma_digits_value_grows(d, k);
    }
}


/// Whether `s` begins with `prefix`.
pub fn starts_with(s: &[char], prefix: &str) -> (r: bool)
    ensures
        r == (prefix@.len() <= s@.len() && s@.subrange(0, prefix@.len() as int) == prefix@),
{
    let p = crate::lexer::chars_of(prefix);
    if p.len() > s.len() {
        return false;
    }
    let mut i: usize = 0;
    while i < p.len()
        invariant
            p@ == prefix@,
            p@.len() <= s@.len(),
            i <= p@.len(),
            forall|k: int| 0 <= k < i ==> s@[k] == p@[k],
        decreases p@.len() - i,
    {
        if s[i] != p[i] {
            assert(s@.subrange(0, p@.len() as int)[i as int] != p@[i as int]);
            return false;
        }
        i = i + 1;
    }
    assert(s@.subrange(0, p@.len() as int) =~= p@);
    true
}

/// The parts of `s` between the characters `sep`.
pub open spec fn split_on(s: Seq<char>, sep: char) -> Seq<Seq<char>>
    decreases s.len(),
{
    if s.len() == 0 {
        seq![Seq::empty()]
    } else {
        let rest = split_on(s.drop_last(), sep);
        if s.last() == sep {
            rest.push(Seq::empty())
        } else {
            rest.update(rest.len() - 1, rest.last().push(s.last()))
        }
    }
}

/// The parts of `s` between the characters `sep`.
pub fn split_chars(s: &Vec<char>, sep: char) -> (r: Vec<Vec<char>>)
    ensures
        r@.len() == split_on(s@, sep).len(),
        forall|k: int| 0 <= k < r@.len() ==> #[trigger] r@[k]@ == split_on(s@, sep)[k],
{
    let mut done: Vec<Vec<char>> = Vec::new();
    let mut part: Vec<char> = Vec::new();
    let mut i: usize = 0;
    assert(s@.subrange(0, 0) =~= Seq::<char>::empty());
    while i < s.len()
        invariant
            i <= s@.len(),
            split_on(s@.subrange(0, i as int), sep).len() == done@.len() + 1,
            forall|k: int|
                0 <= k < done@.len() ==> #[trigger] split_on(s@.subrange(0, i as int), sep)[k]
                    == done@[k]@,
            split_on(s@.subrange(0, i as int), sep)[done@.len() as int] == part@,
        decreases s@.len() - i,
    {
        let c = s[i];
        assert(s@.subrange(0, i + 1).drop_last() =~= s@.subrange(0, i as int));
        if c == sep {
            done.push(part);
            part = Vec::new();
        } else {
            part.push(c);
        }
        i = i + 1;
    }
    assert(s@.subrange(0, s@.len() as int) =~= s@);
    done.push(part);
    done
}

} // verus!
