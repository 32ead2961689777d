//! Reading the identity server's HTTP answer: the status code of the
//! `HTTP/1.1` status line, the `Content-Length` header, and the body.
//!
//! Header lines end at a carriage return followed by one more byte (the
//! line feed); an empty line ends the headers. Other header lines are
//! skipped, and so is a status or length line that does not read as one.

use vstd::prelude::*;

verus! {

/// The first carriage return at or after `i`.
pub open spec fn line_end_at(b: Seq<u8>, i: int) -> Option<int>
    decreases b.len() - i,
{
    if i < 0 || i >= b.len() {
        None
    } else if b[i] == 13 {
        Some(i)
    } else {
        line_end_at(b, i + 1)
    }
}

/// The first byte at or after `i`, before `end`, that is no space.
pub open spec fn skip_spaces(b: Seq<u8>, i: int, end: int) -> int
    decreases end - i,
{
    if 0 <= i < end && i < b.len() && b[i] == 32 {
        skip_spaces(b, i + 1, end)
    } else {
        i
    }
}

/// `lit` stands in `b` at `i`, before `end`.
pub open spec fn stands_at(b: Seq<u8>, i: int, end: int, lit: Seq<u8>) -> bool {
    0 <= i && i + lit.len() <= end && end <= b.len() && b.subrange(i, i + lit.len()) == lit
}

pub open spec fn ascii_digit(c: u8) -> bool {
    48 <= c <= 57
}

/// The number of the run of digits from `i` to `j`.
pub open spec fn number(b: Seq<u8>, i: int, j: int) -> int
    decreases j - i,
{
    if j <= i {
        0
    } else {
        number(b, i, j - 1) * 10 + (b[j - 1] - 48)
    }
}

/// The end of the run of digits that starts at `i`, before `end`.
pub open spec fn digits_end(b: Seq<u8>, i: int, end: int) -> int
    decreases end - i,
{
    if 0 <= i < end && i < b.len() && ascii_digit(b[i]) {
        digits_end(b, i + 1, end)
    } else {
        i
    }
}

pub open spec fn status_prefix() -> Seq<u8> {
    seq![72u8, 84, 84, 80, 47, 49, 46, 49, 32]
}

pub open spec fn length_prefix() -> Seq<u8> {
    seq![67u8, 111, 110, 116, 101, 110, 116, 45, 76, 101, 110, 103, 116, 104, 58]
}

/// The status code and content length after the header line from `lb`
/// to `le`.
pub open spec fn header_line(b: Seq<u8>, lb: int, le: int, code: nat, length: nat) -> (nat, nat) {
    let c = skip_spaces(b, lb, le);
    if stands_at(b, c, le, status_prefix()) {
        let d = skip_spaces(b, c + 9, le);
        if d + 3 <= le && ascii_digit(b[d]) && ascii_digit(b[d + 1]) && ascii_digit(b[d + 2]) {
            (number(b, d, d + 3) as nat, length)
        } else {
            (code, length)
        }
    } else if stands_at(b, c, le, length_prefix()) {
        let d = skip_spaces(b, c + 15, le);
        let e = digits_end(b, d, le);
        if number(b, d, e) <= usize::MAX {
            (code, number(b, d, e) as nat)
        } else {
            (code, length)
        }
    } else {
        (code, length)
    }
}

/// The status code and the bounds of the body, once the answer from `i` on
/// is complete.
pub open spec fn scan_answer(b: Seq<u8>, i: int, code: nat, length: nat) -> Option<(nat, int, int)>
    decreases b.len() - i,
{
    if i < 0 || i >= b.len() {
        None
    } else {
        match line_end_at(b, i) {
            None => None,
            Some(e) => if e == i {
                if b.len() >= e + 2 + length {
                    Some((code, e + 2, e + 2 + length))
                } else {
                    None
                }
            } else if i < e + 2 && e + 2 <= b.len() {
                let (c, l) = header_line(b, i, e, code, length);
                scan_answer(b, e + 2, c, l)
            } else {
                None
            },
        }
    }
}

/// The status code and the body of a complete answer; `None` while it is
/// incomplete.
pub open spec fn http_answer(b: Seq<u8>) -> Option<(nat, Seq<u8>)> {
    match scan_answer(b, 0, 0, 0) {
        Some((code, s, e)) => Some((code, b.subrange(s, e))),
        None => None,
    }
}

fn find_cr(b: &[u8], i: usize) -> (r: Option<usize>)
    ensures
        match line_end_at(b@, i as int) {
            Some(e) => r == Some(e as usize) && i <= e < b@.len(),
            None => r is None,
        },
{
    let mut k = i;
    while k < b.len()
        invariant
            i <= k,
            line_end_at(b@, i as int) == line_end_at(b@, k as int),
        decreases b@.len() - k,
    {
        if b[k] == 13 {
            return Some(k);
        }
        k = k + 1;
    }
    None
}

fn skip_sp(b: &[u8], i: usize, end: usize) -> (r: usize)
    requires
        end <= b@.len(),
    ensures
        r == skip_spaces(b@, i as int, end as int),
        i <= r,
        i <= end ==> r <= end,
{
    let mut k = i;
    while k < end && b[k] == 32
        invariant
            i <= k,
            end <= b@.len(),
            i <= end ==> k <= end,
            skip_spaces(b@, i as int, end as int) == skip_spaces(b@, k as int, end as int),
        decreases end - k,
    {
        k = k + 1;
    }
    k
}

fn stands(b: &[u8], i: usize, end: usize, lit: &Vec<u8>) -> (r: bool)
    requires
        end <= b@.len(),
    ensures
        r == stands_at(b@, i as int, end as int, lit@),
{
    if i > end || lit.len() > end - i {
        return false;
    }
    let mut k: usize = 0;
    while k < lit.len()
        invariant
            i + lit@.len() <= end,
            end <= b@.len(),
            k <= lit@.len(),
            forall|j: int| 0 <= j < k ==> b@[i + j] == lit@[j],
        decreases lit@.len() - k,
    {
        if b[i + k] != lit[k] {
            assert(b@.subrange(i as int, i + lit@.len())[k as int] != lit@[k as int]);
            return false;
        }
        k = k + 1;
    }
    assert(b@.subrange(i as int, i + lit@.len()) =~= lit@);
    true
}

fn status_bytes() -> (r: Vec<u8>)
    ensures
        r@ == status_prefix(),
{
    let mut r: Vec<u8> = Vec::new();
    r.push(72);
    r.push(84);
    r.push(84);
    r.push(80);
    r.push(47);
    r.push(49);
    r.push(46);
    r.push(49);
    r.push(32);
    assert(r@ =~= status_prefix());
    r
}

fn length_bytes() -> (r: Vec<u8>)
    ensures
        r@ == length_prefix(),
{
    let mut r: Vec<u8> = Vec::new();
    r.push(67);
    r.push(111);
    r.push(110);
    r.push(116);
    r.push(101);
    r.push(110);
    r.push(116);
    r.push(45);
    r.push(76);
    r.push(101);
    r.push(110);
    r.push(103);
    r.push(116);
    r.push(104);
    r.push(58);
    assert(r@ =~= length_prefix());
    r
}

proof fn lemma_number_grows(b: Seq<u8>, i: int, j: int, k: int)
    requires
        i <= j <= k,
        forall|x: int| i <= x < k ==> ascii_digit(#[trigger] b[x]),
    ensures
        0 <= number(b, i, j) <= number(b, i, k),
    decreases k - j,
{
    if j < k {
        lemma_number_grows(b, i, j, k - 1);
        lemma_number_nonneg(b, i, k - 1);
    } else {
        lemma_number_nonneg(b, i, j);
    }
}

proof fn lemma_number_nonneg(b: Seq<u8>, i: int, j: int)
    requires
        forall|x: int| i <= x < j ==> ascii_digit(#[trigger] b[x]),
    ensures
        0 <= number(b, i, j),
    decreases j - i,
{
    if j > i {
        lemma_number_nonneg(b, i, j - 1);
    }
}

/// The number of the digits from `i` to `j`, if a `usize` holds it.
fn read_number(b: &[u8], i: usize, j: usize) -> (r: Option<usize>)
    requires
        i <= j <= b@.len(),
        forall|x: int| i <= x < j ==> ascii_digit(#[trigger] b@[x]),
    ensures
        number(b@, i as int, j as int) <= usize::MAX ==> r == Some(
            number(b@, i as int, j as int) as usize,
        ),
        number(b@, i as int, j as int) > usize::MAX ==> r is None,
{
    let mut v: usize = 0;
    let mut k = i;
    while k < j
        invariant
            i <= k <= j,
            j <= b@.len(),
            forall|x: int| i <= x < j ==> ascii_digit(#[trigger] b@[x]),
            v == number(b@, i as int, k as int),
        decreases j - k,
    {
        let d = (b[k] - 48) as usize;
        match v.checked_mul(10) {
            Some(m) => match m.checked_add(d) {
                Some(n) => {
                    v = n;
                },
                None => {
                    proof {
                        lemma_number_grows(b@, i as int, k + 1, j as int);
                    }
                    return None;
                },
            },
            None => {
                proof {
                    lemma_number_grows(b@, i as int, k + 1, j as int);
                }
                return None;
            },
        }
        k = k + 1;
    }
    Some(v)
}

fn read_header_line(b: &[u8], lb: usize, le: usize, code: usize, length: usize) -> (r: (usize, usize))
    requires
        lb <= le < b@.len(),
    ensures
        (r.0 as nat, r.1 as nat) == header_line(b@, lb as int, le as int, code as nat, length as nat),
{
    let c = skip_sp(b, lb, le);
    if stands(b, c, le, &status_bytes()) {
        let d = skip_sp(b, c + 9, le);
        if d <= le && le - d >= 3 && b[d] >= 48 && b[d] <= 57 && b[d + 1] >= 48 && b[d + 1] <= 57
            && b[d + 2] >= 48 && b[d + 2] <= 57 {
            let n = (b[d] - 48) as usize * 100 + (b[d + 1] - 48) as usize * 10 + (b[d + 2] - 48) as usize;
            assert(number(b@, d as int, d + 3) == n) by {
                reveal_with_fuel(number, 4);
            }
            (n, length)
        } else {
            (code, length)
        }
    } else if stands(b, c, le, &length_bytes()) {
        let d = skip_sp(b, c + 15, le);
        let mut e = d;
        while e < le && b[e] >= 48 && b[e] <= 57
            invariant
                d <= e,
                d <= le ==> e <= le,
                le < b@.len(),
                digits_end(b@, d as int, le as int) == digits_end(b@, e as int, le as int),
                forall|x: int| d <= x < e ==> ascii_digit(#[trigger] b@[x]),
            decreases le - e,
        {
            e = e + 1;
        }
        assert(digits_end(b@, e as int, le as int) == e as int);
        assert(e as int == digits_end(b@, d as int, le as int));
        proof {
            lemma_number_nonneg(b@, d as int, e as int);
        }
        match read_number(b, d, e) {
            Some(n) => {
                (code, n)
            },
            None => (code, length),
        }
    } else {
        (code, length)
    }
}

/// The status code and the body of a complete answer in `b`; `None`
/// while the answer is incomplete.
pub fn readAnswer(b: &[u8]) -> (r: Option<(usize, Vec<u8>)>)
    ensures
        match http_answer(b@) {
            Some((code, body)) => r matches Some((c, v)) && c == code && v@ == body,
            None => r is None,
        },
{
    let mut i: usize = 0;
    let mut code: usize = 0;
    let mut length: usize = 0;
    loop
        invariant
            scan_answer(b@, i as int, code as nat, length as nat) == scan_answer(b@, 0, 0, 0),
            i <= b@.len(),
        decreases b@.len() - i,
    {
        if i >= b.len() {
            return None;
        }
        let e = match find_cr(b, i) {
            Some(e) => e,
            None => {
                return None;
            },
        };
        if e == i {
            if b.len() - e >= 2 && b.len() - e - 2 >= length {
                let body = vstd::slice::slice_to_vec(
                    vstd::slice::slice_subrange(b, e + 2, e + 2 + length),
                );
                return Some((code, body));
            }
            return None;
        }
        if b.len() - e < 2 {
            return None;
        }
        let (c, l) = read_header_line(b, i, e, code, length);
        code = c;
        length = l;
        i = e + 2;
    }
}

} // verus!
