//! The text format of a numeric control file: a decimal integer, optionally
//! signed, surrounded by whitespace when read, and followed by a single
//! newline when written. Contents are UTF-8; whitespace is any character of
//! Unicode's White_Space property.
use vstd::prelude::*;

verus! {

/// Why the contents of a control file are not an `i32`.
#[derive(Clone, Copy, Debug, PartialEq, Eq, Structural)]
pub enum NumericError {
    /// The contents are whitespace only.
    Empty,
    /// A byte that is not a decimal digit, or a sign with no digits after it.
    InvalidDigit,
    /// The number is above `i32::MAX`.
    PosOverflow,
    /// The number is below `i32::MIN`.
    NegOverflow,
}

/// The whitespace characters below U+0080, one byte each.
pub open spec fn is_ascii_space(b: u8) -> bool {
    b == 0x20 || b == 0x09 || b == 0x0a || b == 0x0b || b == 0x0c || b == 0x0d
}

/// The two-byte encodings of whitespace: U+0085 and U+00A0.
pub open spec fn is_space2(a: u8, b: u8) -> bool {
    a == 0xc2 && (b == 0x85 || b == 0xa0)
}

/// The three-byte encodings of whitespace: U+1680, U+2000 to U+200A,
/// U+2028, U+2029, U+202F, U+205F and U+3000.
pub open spec fn is_space3(a: u8, b: u8, c: u8) -> bool {
    ||| a == 0xe1 && b == 0x9a && c == 0x80
    ||| a == 0xe2 && b == 0x80 && ((0x80 <= c <= 0x8a) || c == 0xa8 || c == 0xa9 || c == 0xaf)
    ||| a == 0xe2 && b == 0x81 && c == 0x9f
    ||| a == 0xe3 && b == 0x80 && c == 0x80
}

/// The length of the whitespace character that `s` starts with, or 0.
pub open spec fn leading_space_len(s: Seq<u8>) -> int {
    if s.len() >= 1 && is_ascii_space(s[0]) {
        1
    } else if s.len() >= 2 && is_space2(s[0], s[1]) {
        2
    } else if s.len() >= 3 && is_space3(s[0], s[1], s[2]) {
        3
    } else {
        0
    }
}

/// The length of the whitespace character that `s` ends with, or 0.
pub open spec fn trailing_space_len(s: Seq<u8>) -> int {
    let n = s.len() as int;
    if n >= 1 && is_ascii_space(s[n - 1]) {
        1
    } else if n >= 2 && is_space2(s[n - 2], s[n - 1]) {
        2
    } else if n >= 3 && is_space3(s[n - 3], s[n - 2], s[n - 1]) {
        3
    } else {
        0
    }
}

pub open spec fn is_digit(b: u8) -> bool {
    0x30 <= b <= 0x39
}

pub open spec fn trim_start(s: Seq<u8>) -> Seq<u8>
    decreases s.len(),
{
    let k = leading_space_len(s);
    if k > 0 {
        trim_start(s.subrange(k, s.len() as int))
    } else {
        s
    }
}

pub open spec fn trim_end(s: Seq<u8>) -> Seq<u8>
    decreases s.len(),
{
    let k = trailing_space_len(s);
    if k > 0 {
        trim_end(s.subrange(0, s.len() - k))
    } else {
        s
    }
}

/// `s` without its leading and trailing whitespace.
pub open spec fn trim(s: Seq<u8>) -> Seq<u8> {
    trim_end(trim_start(s))
}

pub open spec fn all_digits(s: Seq<u8>) -> bool {
    forall|i: int| 0 <= i < s.len() ==> is_digit(#[trigger] s[i])
}

/// The value of a string of decimal digits, most significant first.
pub open spec fn digits_value(s: Seq<u8>) -> nat
    decreases s.len(),
{
    if s.len() == 0 {
        0
    } else {
        digits_value(s.drop_last()) * 10 + (s.last() - 0x30) as nat
    }
}

pub open spec fn has_sign(t: Seq<u8>) -> bool {
    t.len() > 0 && (t[0] == 0x2d || t[0] == 0x2b)
}

pub open spec fn unsigned_part(t: Seq<u8>) -> Seq<u8> {
    if has_sign(t) {
        t.drop_first()
    } else {
        t
    }
}

/// Reads the digits `d` of a number from left to right, negated when `neg`.
/// The first byte that is not a digit, or the first digit that takes the
/// number out of the range of `i32`, decides the error.
pub open spec fn read_digits(d: Seq<u8>, neg: bool) -> Result<int, NumericError>
    decreases d.len(),
{
    if d.len() == 0 {
        Ok(0)
    } else {
        match read_digits(d.drop_last(), neg) {
            Err(e) => Err(e),
            Ok(_) => {
                let v = if neg {
                    -(digits_value(d) as int)
                } else {
                    digits_value(d) as int
                };
                if !is_digit(d.last()) {
                    Err(NumericError::InvalidDigit)
                } else if v > 2147483647 {
                    Err(NumericError::PosOverflow)
                } else if v < -2147483648 {
                    Err(NumericError::NegOverflow)
                } else {
                    Ok(v)
                }
            },
        }
    }
}

/// What the contents `s` of a control file read as.
pub open spec fn parse_numeric(s: Seq<u8>) -> Result<int, NumericError> {
    let t = trim(s);
    let d = unsigned_part(t);
    if t.len() == 0 {
        Err(NumericError::Empty)
    } else if d.len() == 0 {
        Err(NumericError::InvalidDigit)
    } else {
        read_digits(d, t[0] == 0x2d)
    }
}

/// The decimal digits of `n`, without leading zeros.
pub open spec fn decimal(n: nat) -> Seq<u8>
    decreases n,
{
    if n < 10 {
        seq![(n + 0x30) as u8]
    } else {
        decimal(n / 10).push((n % 10 + 0x30) as u8)
    }
}

/// The text written to a control file to store `v`.
pub open spec fn numeric_line(v: int) -> Seq<u8> {
    let digits = if v < 0 {
        seq![0x2du8] + decimal((-v) as nat)
    } else {
        decimal(v as nat)
    };
    digits.push(0x0a)
}

fn is_ascii_space_byte(b: u8) -> (r: bool)
    ensures
        r == is_ascii_space(b),
{
    b == 0x20 || b == 0x09 || b == 0x0a || b == 0x0b || b == 0x0c || b == 0x0d
}

fn is_space2_bytes(a: u8, b: u8) -> (r: bool)
    ensures
        r == is_space2(a, b),
{
    a == 0xc2 && (b == 0x85 || b == 0xa0)
}

fn is_space3_bytes(a: u8, b: u8, c: u8) -> (r: bool)
    ensures
        r == is_space3(a, b, c),
{
    (a == 0xe1 && b == 0x9a && c == 0x80) || (a == 0xe2 && b == 0x80 && ((0x80 <= c && c
        <= 0x8a) || c == 0xa8 || c == 0xa9 || c == 0xaf)) || (a == 0xe2 && b == 0x81 && c
        == 0x9f) || (a == 0xe3 && b == 0x80 && c == 0x80)
}

/// The length of the whitespace character at the start of `s[i..end]`.
fn leading_space_at(s: &[u8], i: usize, end: usize) -> (r: usize)
    requires
        i <= end <= s@.len(),
    ensures
        r as int == leading_space_len(s@.subrange(i as int, end as int)),
        r <= end - i,
{
    let ghost t = s@.subrange(i as int, end as int);
    if end - i >= 1 && is_ascii_space_byte(s[i]) {
        1
    } else if end - i >= 2 && is_space2_bytes(s[i], s[i + 1]) {
        assert(t[0] == s@[i as int] && t[1] == s@[i + 1]);
        2
    } else if end - i >= 3 && is_space3_bytes(s[i], s[i + 1], s[i + 2]) {
        assert(t[0] == s@[i as int] && t[1] == s@[i + 1] && t[2] == s@[i + 2]);
        3
    } else {
        proof {
            if end - i >= 2 {
                assert(t[0] == s@[i as int] && t[1] == s@[i + 1]);
            }
            if end - i >= 3 {
                assert(t[2] == s@[i + 2]);
            }
        }
        0
    }
}

/// The length of the whitespace character at the end of `s[start..j]`.
fn trailing_space_at(s: &[u8], start: usize, j: usize) -> (r: usize)
    requires
        start <= j <= s@.len(),
    ensures
        r as int == trailing_space_len(s@.subrange(start as int, j as int)),
        r <= j - start,
{
    let ghost t = s@.subrange(start as int, j as int);
    let ghost n = t.len() as int;
    if j - start >= 1 && is_ascii_space_byte(s[j - 1]) {
        1
    } else if j - start >= 2 && is_space2_bytes(s[j - 2], s[j - 1]) {
        assert(t[n - 2] == s@[j - 2] && t[n - 1] == s@[j - 1]);
        2
    } else if j - start >= 3 && is_space3_bytes(s[j - 3], s[j - 2], s[j - 1]) {
        assert(t[n - 3] == s@[j - 3] && t[n - 2] == s@[j - 2] && t[n - 1] == s@[j - 1]);
        3
    } else {
        proof {
            if j - start >= 2 {
                assert(t[n - 2] == s@[j - 2] && t[n - 1] == s@[j - 1]);
            }
            if j - start >= 3 {
                assert(t[n - 3] == s@[j - 3]);
            }
        }
        0
    }
}

fn is_digit_byte(b: u8) -> (r: bool)
    ensures
        r == is_digit(b),
{
    0x30 <= b && b <= 0x39
}

/// Once reading a prefix of the digits has failed, reading any longer
/// prefix fails in the same way.
proof fn lemma_read_digits_error_sticks(d: Seq<u8>, neg: bool, i: int, j: int)
    requires
        0 <= i <= j <= d.len(),
        read_digits(d.take(i), neg) is Err,
    ensures
        read_digits(d.take(j), neg) == read_digits(d.take(i), neg),
    decreases j - i,
{
    if i < j {
        lemma_read_digits_error_sticks(d, neg, i, j - 1);
        assert(d.take(j).drop_last() =~= d.take(j - 1));
    }
}

/// Reads the integer that a control file holds, from the file's contents.
pub fn i32_from_smc_file(contents: &[u8]) -> (r: Result<i32, NumericError>)
    ensures
        match r {
            Ok(v) => parse_numeric(contents@) == Ok::<int, NumericError>(v as int),
            Err(e) => parse_numeric(contents@) == Err::<int, NumericError>(e),
        },
{
    let s = contents;
    let n = s.len();
    let mut start: usize = 0;
    assert(s@.subrange(0, n as int) =~= s@);
    let mut k = leading_space_at(s, start, n);
    while k > 0
        invariant
            n == s@.len(),
            s@ == contents@,
            start <= n,
            k <= n - start,
            k as int == leading_space_len(s@.subrange(start as int, n as int)),
            trim_start(s@) == trim_start(s@.subrange(start as int, n as int)),
        decreases n - start,
    {
        assert(s@.subrange(start as int, n as int).subrange(k as int, n - start) =~= s@.subrange(
            start + k,
            n as int,
        ));
        start += k;
        k = leading_space_at(s, start, n);
    }
    assert(trim_start(s@) == s@.subrange(start as int, n as int));
    let mut end: usize = n;
    k = trailing_space_at(s, start, end);
    while k > 0
        invariant
            n == s@.len(),
            s@ == contents@,
            start <= end <= n,
            k <= end - start,
            k as int == trailing_space_len(s@.subrange(start as int, end as int)),
            trim(s@) == trim_end(s@.subrange(start as int, end as int)),
        decreases end,
    {
        assert(s@.subrange(start as int, end as int).subrange(0, end - start - k) =~= s@.subrange(
            start as int,
            end - k,
        ));
        end -= k;
        k = trailing_space_at(s, start, end);
    }
    let ghost t = s@.subrange(start as int, end as int);
    assert(trim(s@) == t);
    if start == end {
        return Err(NumericError::Empty);
    }
    let neg = s[start] == 0x2d;
    let first: usize = if neg || s[start] == 0x2b {
        start + 1
    } else {
        start
    };
    let ghost d = s@.subrange(first as int, end as int);
    assert(unsigned_part(t) =~= d);
    if first == end {
        return Err(NumericError::InvalidDigit);
    }
    let limit: u64 = if neg {
        2147483648
    } else {
        2147483647
    };
    let mut acc: u64 = 0;
    let mut i: usize = first;
    assert(d.take(0) =~= Seq::<u8>::empty());
    while i < end
        invariant
            n == s@.len(),
            s@ == contents@,
            first <= i <= end <= n,
            d == s@.subrange(first as int, end as int),
            trim(s@) == t,
            t.len() > 0,
            d.len() > 0,
            unsigned_part(t) == d,
            neg == (t[0] == 0x2d),
            acc == digits_value(d.take(i - first)),
            acc <= limit,
            limit == (if neg { 2147483648u64 } else { 2147483647u64 }),
            read_digits(d.take(i - first), neg) == Ok::<int, NumericError>(
                if neg {
                    -(acc as int)
                } else {
                    acc as int
                },
            ),
        decreases end - i,
    {
        let ghost p = d.take(i - first + 1);
        assert(p.drop_last() =~= d.take(i - first));
        assert(p.last() == s@[i as int]);
        if !is_digit_byte(s[i]) {
            proof {
                lemma_read_digits_error_sticks(d, neg, i - first + 1, d.len() as int);
                assert(d.take(d.len() as int) =~= d);
            }
            return Err(NumericError::InvalidDigit);
        }
        let next = acc * 10 + (s[i] - 0x30) as u64;
        assert(next == digits_value(p));
        if next > limit {
            proof {
                lemma_read_digits_error_sticks(d, neg, i - first + 1, d.len() as int);
                assert(d.take(d.len() as int) =~= d);
            }
            if neg {
                return Err(NumericError::NegOverflow);
            } else {
                return Err(NumericError::PosOverflow);
            }
        }
        acc = next;
        i += 1;
    }
    assert(d.take(i - first) =~= d);
    if neg {
        Ok((0 - acc as i64) as i32)
    } else {
        Ok(acc as i32)
    }
}

proof fn lemma_decimal(n: nat)
    ensures
        decimal(n).len() > 0,
        all_digits(decimal(n)),
        digits_value(decimal(n)) == n,
    decreases n,
{
    if n >= 10 {
        lemma_decimal(n / 10);
        assert(decimal(n).drop_last() =~= decimal(n / 10));
        assert(decimal(n).last() == (n % 10 + 0x30) as u8);
        assert(n == (n / 10) * 10 + n % 10);
        assert(digits_value(decimal(n)) == digits_value(decimal(n / 10)) * 10 + n % 10);
    } else {
        assert(decimal(n).drop_last() =~= Seq::<u8>::empty());
        assert(digits_value(Seq::<u8>::empty()) == 0);
        assert(digits_value(decimal(n)) == n);
    }
}

/// Digits whose value is within the range of `i32` once signed read as that
/// value.
proof fn lemma_read_digits_in_range(d: Seq<u8>, neg: bool)
    requires
        all_digits(d),
        neg ==> digits_value(d) <= 2147483648,
        !neg ==> digits_value(d) <= 2147483647,
    ensures
        read_digits(d, neg) == Ok::<int, NumericError>(
            if neg {
                -(digits_value(d) as int)
            } else {
                digits_value(d) as int
            },
        ),
    decreases d.len(),
{
    if d.len() > 0 {
        let e = d.drop_last();
        assert(all_digits(e)) by {
            assert forall|i: int| 0 <= i < e.len() implies is_digit(#[trigger] e[i]) by {
                assert(e[i] == d[i]);
            }
        }
        assert(is_digit(d[d.len() - 1]));
        lemma_read_digits_in_range(e, neg);
    }
}

/// Writing an `i32` to a control file and reading the file back gives the
/// same `i32`.
pub proof fn lemma_numeric_round_trip(v: i32)
    ensures
        parse_numeric(numeric_line(v as int)) == Ok::<int, NumericError>(v as int),
{
    let m: nat = if v < 0 {
        (-v) as nat
    } else {
        v as nat
    };
    lemma_decimal(m);
    let dec = decimal(m);
    let pre = if v < 0 {
        seq![0x2du8] + dec
    } else {
        dec
    };
    let line = numeric_line(v as int);
    assert(line == pre.push(0x0a));
    assert(pre.len() > 0);
    assert(is_digit(dec[0]));
    assert(leading_space_len(line) == 0);
    assert(trim_start(line) == line);
    assert(line.subrange(0, line.len() - 1) =~= pre);
    assert(pre.last() == dec.last());
    assert(is_digit(dec[dec.len() - 1]));
    assert(trailing_space_len(pre) == 0);
    assert(trim_end(pre) == pre);
    assert(trim(line) == pre);
    if v < 0 {
        assert(pre.drop_first() =~= dec);
    }
    assert(unsigned_part(pre) == dec);
    lemma_read_digits_in_range(dec, v < 0);
}

fn push_decimal(n: u64, out: &mut Vec<u8>)
    ensures
        final(out)@ == old(out)@ + decimal(n as nat),
    decreases n,
{
    if n >= 10 {
        push_decimal(n / 10, out);
    }
    out.push((n % 10) as u8 + 0x30);
    assert(final(out)@ =~= old(out)@ + decimal(n as nat));
}

/// The contents to write to a control file to store `v`.
pub fn numeric_file_text(v: i32) -> (r: Vec<u8>)
    ensures
        r@ == numeric_line(v as int),
{
    let mut out: Vec<u8> = Vec::new();
    if v < 0 {
        out.push(0x2d);
        push_decimal((0 - v as i64) as u64, &mut out);
    } else {
        push_decimal(v as u64, &mut out);
    }
    out.push(0x0a);
    assert(out@ =~= numeric_line(v as int));
    out
}

} // verus!
