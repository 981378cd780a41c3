//! Character-level helpers over strings, each stated over `Seq<char>`.
use vstd::prelude::*;
use vstd::string::*;

verus! {

/// A path separator `::` starts at position `i` of `s`.
pub open spec fn is_sep_at(s: Seq<char>, i: int) -> bool {
    0 <= i && i + 1 < s.len() && s[i] == ':' && s[i + 1] == ':'
}

pub open spec fn is_first_sep(s: Seq<char>, i: int) -> bool {
    is_sep_at(s, i) && forall|j: int| 0 <= j < i ==> !is_sep_at(s, j)
}

pub open spec fn is_last_sep(s: Seq<char>, i: int) -> bool {
    is_sep_at(s, i) && forall|j: int| i < j < s.len() ==> !is_sep_at(s, j)
}

/// Start of the leftmost separator of `s`, if any.
pub open spec fn first_sep(s: Seq<char>) -> Option<int> {
    if exists|i: int| is_first_sep(s, i) {
        Some(choose|i: int| is_first_sep(s, i))
    } else {
        None
    }
}

/// Start of the rightmost separator of `s`, if any.
pub open spec fn last_sep(s: Seq<char>) -> Option<int> {
    if exists|i: int| is_last_sep(s, i) {
        Some(choose|i: int| is_last_sep(s, i))
    } else {
        None
    }
}

pub open spec fn has_sep(s: Seq<char>) -> bool {
    exists|i: int| is_sep_at(s, i)
}

/// `t` occurs in `s` starting at position `i`.
pub open spec fn occurs_at(s: Seq<char>, t: Seq<char>, i: int) -> bool {
    0 <= i && i + t.len() <= s.len() && s.subrange(i, i + t.len()) == t
}

pub open spec fn contains(s: Seq<char>, t: Seq<char>) -> bool {
    exists|i: int| occurs_at(s, t, i)
}

pub open spec fn ends_with(s: Seq<char>, t: Seq<char>) -> bool {
    t.len() <= s.len() && s.subrange(s.len() - t.len(), s.len() as int) == t
}

/// `s` with every space character removed.
pub open spec fn without_spaces(s: Seq<char>) -> Seq<char>
    decreases s.len(),
{
    if s.len() == 0 {
        s
    } else if s.last() == ' ' {
        without_spaces(s.drop_last())
    } else {
        without_spaces(s.drop_last()).push(s.last())
    }
}

pub open spec fn digit_char(d: int) -> char {
    if d == 0 { '0' }
    else if d == 1 { '1' }
    else if d == 2 { '2' }
    else if d == 3 { '3' }
    else if d == 4 { '4' }
    else if d == 5 { '5' }
    else if d == 6 { '6' }
    else if d == 7 { '7' }
    else if d == 8 { '8' }
    else { '9' }
}

/// Decimal digits of a natural number, without leading zeros.
pub open spec fn nat_digits(n: nat) -> Seq<char>
    decreases n,
{
    if n < 10 {
        seq![digit_char(n as int)]
    } else {
        nat_digits(n / 10).push(digit_char((n % 10) as int))
    }
}

/// Decimal rendering of an integer, with a leading `-` when negative.
pub open spec fn decimal(n: int) -> Seq<char> {
    if n < 0 {
        seq!['-'] + nat_digits((-n) as nat)
    } else {
        nat_digits(n as nat)
    }
}

pub open spec fn is_digit(c: char) -> bool {
    '0' <= c <= '9'
}

/// Value of a string of decimal digits.
pub open spec fn digits_value(s: Seq<char>) -> int
    decreases s.len(),
{
    if s.len() == 0 {
        0
    } else {
        digits_value(s.drop_last()) * 10 + (s.last() as int - '0' as int)
    }
}

pub open spec fn all_digits(d: Seq<char>) -> bool {
    forall|i: int| 0 <= i < d.len() ==> is_digit(#[trigger] d[i])
}

/// `s` without its leading sign, if it has one.
pub open spec fn unsigned_part(s: Seq<char>) -> Seq<char> {
    if s.len() > 0 && (s[0] == '-' || s[0] == '+') { s.drop_first() } else { s }
}

/// The `i32` that a string denotes: an optional sign, then one or more
/// decimal digits, with a value in range.
pub open spec fn i32_value_of(s: Seq<char>) -> Option<int> {
    let d = unsigned_part(s);
    let v = if s.len() > 0 && s[0] == '-' { -digits_value(d) } else { digits_value(d) };
    if d.len() > 0 && all_digits(d) && i32::MIN <= v <= i32::MAX {
        Some(v)
    } else {
        None
    }
}

/// Relies on `String::push`: the character is added at the end.
#[verifier::external_body]
pub(crate) fn push_char(s: &mut String, c: char)
    ensures
        final(s)@ == old(s)@.push(c),
{
    s.push(c)
}

/// A new string holding characters `from..to` of `s`.
pub fn sub_string(s: &str, from: usize, to: usize) -> (r: String)
    requires
        from <= to <= s@.len(),
    ensures
        r@ == s@.subrange(from as int, to as int),
{
    String::from_str(s.substring_char(from, to))
}

/// Position of the leftmost `::` in `s`.
pub fn find_sep(s: &str) -> (r: Option<usize>)
    ensures
        match r {
            Some(i) => first_sep(s@) == Some(i as int),
            None => first_sep(s@) is None,
        },
        r.is_none() <==> !has_sep(s@),
        r.is_some() ==> is_first_sep(s@, r.unwrap() as int),
{
    let n = s.unicode_len();
    let mut i: usize = 0;
    while n >= 1 && i < n - 1
        invariant
            n == s@.len(),
            0 <= i <= n,
            forall|j: int| 0 <= j < i ==> !is_sep_at(s@, j),
        decreases n - i,
    {
        if s.get_char(i) == ':' && s.get_char(i + 1) == ':' {
            assert(is_first_sep(s@, i as int));
            assert(first_sep(s@) == Some(i as int));
            return Some(i);
        }
        i = i + 1;
    }
    assert(!has_sep(s@));
    None
}

/// Position of the rightmost `::` in `s`.
pub fn rfind_sep(s: &str) -> (r: Option<usize>)
    ensures
        match r {
            Some(i) => last_sep(s@) == Some(i as int),
            None => last_sep(s@) is None,
        },
        r.is_none() <==> !has_sep(s@),
        r.is_some() ==> is_last_sep(s@, r.unwrap() as int),
{
    let n = s.unicode_len();
    let mut i: usize = n;
    while i >= 2
        invariant
            n == s@.len(),
            0 <= i <= n,
            forall|j: int| i - 1 <= j < n ==> !is_sep_at(s@, j),
        decreases i,
    {
        if s.get_char(i - 2) == ':' && s.get_char(i - 1) == ':' {
            assert(is_last_sep(s@, i - 2));
            assert(last_sep(s@) == Some(i - 2));
            return Some(i - 2);
        }
        i = i - 1;
    }
    assert(!has_sep(s@));
    None
}

/// Whether `t` occurs anywhere in `s`.
pub fn str_contains(s: &str, t: &str) -> (r: bool)
    ensures
        r == contains(s@, t@),
{
    let n = s.unicode_len();
    let m = t.unicode_len();
    if m > n {
        return false;
    }
    let mut i: usize = 0;
    while i <= n - m
        invariant
            n == s@.len(),
            m == t@.len(),
            m <= n,
            0 <= i <= n - m + 1,
            forall|j: int| 0 <= j < i ==> !occurs_at(s@, t@, j),
        decreases n - m + 1 - i,
    {
        let mut k: usize = 0;
        let mut same = true;
        while k < m
            invariant
                n == s@.len(),
                m == t@.len(),
                i + m <= n,
                0 <= k <= m,
                same == (forall|q: int| 0 <= q < k ==> s@[i + q] == t@[q]),
            decreases m - k,
        {
            if s.get_char(i + k) != t.get_char(k) {
                same = false;
            }
            k = k + 1;
        }
        if same {
            assert(s@.subrange(i as int, i + m) =~= t@);
            assert(occurs_at(s@, t@, i as int));
            return true;
        }
        assert(!occurs_at(s@, t@, i as int)) by {
            if occurs_at(s@, t@, i as int) {
                assert forall|q: int| 0 <= q < m implies s@[i + q] == t@[q] by {
                    assert(s@.subrange(i as int, i + m)[q] == s@[i + q]);
                }
            }
        }
        i = i + 1;
    }
    false
}

/// Whether `s` ends with `t`.
pub fn str_ends_with(s: &str, t: &str) -> (r: bool)
    ensures
        r == ends_with(s@, t@),
{
    let n = s.unicode_len();
    let m = t.unicode_len();
    if m > n {
        return false;
    }
    let base = n - m;
    let mut k: usize = 0;
    while k < m
        invariant
            n == s@.len(),
            m == t@.len(),
            base == n - m,
            0 <= k <= m,
            forall|q: int| 0 <= q < k ==> s@[base + q] == t@[q],
        decreases m - k,
    {
        if s.get_char(base + k) != t.get_char(k) {
            assert(s@.subrange(base as int, n as int)[k as int] == s@[base + k]);
            return false;
        }
        k = k + 1;
    }
    assert(s@.subrange(base as int, n as int) =~= t@);
    true
}


pub open spec fn is_first_of(s: Seq<char>, c: char, i: int) -> bool {
    0 <= i < s.len() && s[i] == c && forall|j: int| 0 <= j < i ==> s[j] != c
}

/// Position of the first occurrence of `c` in `s`, if any.
pub open spec fn first_of(s: Seq<char>, c: char) -> Option<int> {
    if exists|i: int| is_first_of(s, c, i) {
        Some(choose|i: int| is_first_of(s, c, i))
    } else {
        None
    }
}

/// A call-site origin `"<path>,<line>[,...]"` split into its path and its
/// line; a line field that is not an `i32` reads as -1. `None` when `s` holds
/// no comma.
pub open spec fn origin_parts(s: Seq<char>) -> Option<(Seq<char>, int)> {
    match first_of(s, ',') {
        None => None,
        Some(c1) => {
            let rest = s.subrange(c1 + 1, s.len() as int);
            let field = match first_of(rest, ',') {
                Some(c2) => rest.subrange(0, c2),
                None => rest,
            };
            let line = match i32_value_of(field) {
                Some(v) => v,
                None => -1,
            };
            Some((s.subrange(0, c1), line))
        },
    }
}

/// `s` without its spaces.
pub fn remove_spaces(s: &str) -> (r: String)
    ensures
        r@ == without_spaces(s@),
{
    let n = s.unicode_len();
    let mut r = String::new();
    let mut i: usize = 0;
    while i < n
        invariant
            n == s@.len(),
            0 <= i <= n,
            r@ == without_spaces(s@.subrange(0, i as int)),
        decreases n - i,
    {
        let c = s.get_char(i);
        assert(s@.subrange(0, i + 1).drop_last() =~= s@.subrange(0, i as int));
        if c != ' ' {
            push_char(&mut r, c);
        }
        i = i + 1;
    }
    assert(s@.subrange(0, n as int) =~= s@);
    r
}

fn digit_of(d: u64) -> (c: char)
    requires
        d < 10,
    ensures
        c == digit_char(d as int),
{
    if d == 0 { '0' }
    else if d == 1 { '1' }
    else if d == 2 { '2' }
    else if d == 3 { '3' }
    else if d == 4 { '4' }
    else if d == 5 { '5' }
    else if d == 6 { '6' }
    else if d == 7 { '7' }
    else if d == 8 { '8' }
    else { '9' }
}

fn push_nat_digits(out: &mut String, n: u64)
    ensures
        final(out)@ == old(out)@ + nat_digits(n as nat),
    decreases n,
{
    let ghost start = out@;
    if n >= 10 {
        push_nat_digits(out, n / 10);
    }
    push_char(out, digit_of(n % 10));
    assert(out@ =~= start + nat_digits(n as nat));
}

/// Appends the decimal rendering of `n`.
pub fn push_decimal(out: &mut String, n: i32)
    ensures
        final(out)@ == old(out)@ + decimal(n as int),
{
    let ghost start = out@;
    if n < 0 {
        push_char(out, '-');
        let m: i64 = -(n as i64);
        push_nat_digits(out, m as u64);
    } else {
        push_nat_digits(out, n as u64);
    }
    assert(out@ =~= start + decimal(n as int));
}

/// Reads `s` as an `i32`: an optional sign followed by decimal digits.
pub fn parse_i32(s: &str) -> (r: Option<i32>)
    ensures
        match r {
            Some(v) => i32_value_of(s@) == Some(v as int),
            None => i32_value_of(s@) is None,
        },
{
    let n = s.unicode_len();
    if n == 0 {
        return None;
    }
    let c0 = s.get_char(0);
    let neg = c0 == '-';
    let start: usize = if c0 == '-' || c0 == '+' { 1 } else { 0 };
    let ghost d = unsigned_part(s@);
    assert(d =~= s@.subrange(start as int, n as int));
    if start >= n {
        return None;
    }
    let mut acc: i64 = 0;
    let mut big = false;
    let mut i: usize = start;
    while i < n
        invariant
            n == s@.len(),
            start <= i <= n,
            d == s@.subrange(start as int, n as int),
            d == unsigned_part(s@),
            neg == (s@.len() > 0 && s@[0] == '-'),
            forall|q: int| start <= q < i ==> is_digit(#[trigger] s@[q]),
            !big ==> 0 <= acc <= 2147483648 && acc == digits_value(s@.subrange(start as int, i as int)),
            big ==> digits_value(s@.subrange(start as int, i as int)) > 2147483648,
        decreases n - i,
    {
        let c = s.get_char(i);
        if !('0' <= c && c <= '9') {
            assert(d[i - start] == s@[i as int]);
            assert(!is_digit(d[i - start]));
            assert(!all_digits(d));
            return None;
        }
        let ghost pre = s@.subrange(start as int, i as int);
        assert(s@.subrange(start as int, i + 1).drop_last() =~= pre);
        let dv: i64 = (c as u32 - '0' as u32) as i64;
        if !big {
            let nv = acc * 10 + dv;
            if nv > 2147483648 {
                big = true;
            } else {
                acc = nv;
            }
        }
        i = i + 1;
    }
    assert(s@.subrange(start as int, n as int) == d);
    assert forall|q: int| 0 <= q < d.len() implies is_digit(#[trigger] d[q]) by {
        assert(d[q] == s@[start + q]);
    }
    assert(all_digits(d));
    if big {
        return None;
    }
    let v: i64 = if neg { -acc } else { acc };
    if v < -2147483648 || v > 2147483647 {
        None
    } else {
        Some(v as i32)
    }
}

/// Position of the first `c` in `s`.
pub fn find_char(s: &str, c: char) -> (r: Option<usize>)
    ensures
        match r {
            Some(i) => first_of(s@, c) == Some(i as int) && is_first_of(s@, c, i as int),
            None => first_of(s@, c) is None,
        },
{
    let n = s.unicode_len();
    let mut i: usize = 0;
    while i < n
        invariant
            n == s@.len(),
            0 <= i <= n,
            forall|j: int| 0 <= j < i ==> s@[j] != c,
        decreases n - i,
    {
        if s.get_char(i) == c {
            assert(is_first_of(s@, c, i as int));
            assert(first_of(s@, c) == Some(i as int));
            return Some(i);
        }
        i = i + 1;
    }
    None
}

/// Splits a call-site origin `"<path>,<line>"` into its path and its line.
pub fn split_origin(s: &str) -> (r: Option<(String, i32)>)
    ensures
        match r {
            Some((p, l)) => origin_parts(s@) == Some((p@, l as int)),
            None => origin_parts(s@) is None,
        },
{
    let n = s.unicode_len();
    match find_char(s, ',') {
        None => None,
        Some(c1) => {
            let path = sub_string(s, 0, c1);
            let rest = sub_string(s, c1 + 1, n);
            let field = match find_char(rest.as_str(), ',') {
                Some(c2) => sub_string(rest.as_str(), 0, c2),
                None => rest,
            };
            let line = match parse_i32(field.as_str()) {
                Some(v) => v,
                None => -1,
            };
            Some((path, line))
        },
    }
}

} // verus!
