//! Numbers written as text and read back: decimal, zero-padded decimal and
//! lower-case hexadecimal.
use crate::text::{chars_of, string_of};
use vstd::prelude::*;

verus! {

// ---------------------------------------------------------------------------
// Digits
// ---------------------------------------------------------------------------

/// The character of a digit in any base up to sixteen.
pub open spec fn digit(d: int) -> char {
    if d < 10 {
        ('0' as u32 + d) as char
    } else {
        ('a' as u32 + (d - 10)) as char
    }
}

/// Whether a character is one of `0` to `9`.
pub open spec fn is_decimal(c: char) -> bool {
    '0' <= c <= '9'
}

/// The value of a decimal digit.
pub open spec fn decimal_value(c: char) -> int {
    c as u32 - '0' as u32
}

/// The character of a digit below sixteen.
pub fn digit_char(d: u8) -> (c: char)
    requires
        d < 16,
    ensures
        c == digit(d as int),
{
    if d < 10 {
        (48u8 + d) as char
    } else {
        (87u8 + d) as char
    }
}

/// The digits of `n` in base ten, without leading zeros.
pub open spec fn decimal(n: nat) -> Seq<char>
    decreases n,
{
    if n < 10 {
        seq![digit(n as int)]
    } else {
        decimal(n / 10).push(digit((n % 10) as int))
    }
}

/// The digits of `n` in base ten as characters.
pub fn decimal_chars(n: u64) -> (r: Vec<char>)
    ensures
        r@ == decimal(n as nat),
    decreases n,
{
    if n < 10 {
        let mut v: Vec<char> = Vec::new();
        v.push(digit_char(n as u8));
        assert(v@ =~= decimal(n as nat));
        v
    } else {
        let mut v = decimal_chars(n / 10);
        v.push(digit_char((n % 10) as u8));
        v
    }
}

/// The decimal text of `n`.
pub fn decimal_text(n: u64) -> (r: String)
    ensures
        r@ == decimal(n as nat),
{
    string_of(&decimal_chars(n))
}

pub proof fn lemma_decimal_digits(n: nat)
    ensures
        decimal(n).len() >= 1,
        forall|i: int| 0 <= i < decimal(n).len() ==> is_decimal(#[trigger] decimal(n)[i]),
    decreases n,
{
    if n >= 10 {
        lemma_decimal_digits(n / 10);
    }
}

/// `width` zeros.
pub open spec fn zeros(width: nat) -> Seq<char> {
    Seq::new(width, |i: int| '0')
}

/// `n` in base ten, filled up with leading zeros to `width` characters.
pub open spec fn padded_decimal(n: nat, width: nat) -> Seq<char> {
    if decimal(n).len() >= width {
        decimal(n)
    } else {
        zeros((width - decimal(n).len()) as nat) + decimal(n)
    }
}

/// The decimal digits of `n`, filled up with leading zeros.
pub fn padded_decimal_chars(n: u64, width: usize) -> (r: Vec<char>)
    ensures
        r@ == padded_decimal(n as nat, width as nat),
{
    let digits = decimal_chars(n);
    if digits.len() >= width {
        return digits;
    }
    let fill: usize = width - digits.len();
    let mut v: Vec<char> = Vec::new();
    let mut i: usize = 0;
    while i < fill
        invariant
            i <= fill,
            v@ =~= zeros(i as nat),
        decreases fill - i,
    {
        v.push('0');
        i += 1;
    }
    let mut k: usize = 0;
    while k < digits.len()
        invariant
            k <= digits@.len(),
            v@ =~= zeros(fill as nat) + digits@.take(k as int),
        decreases digits@.len() - k,
    {
        v.push(digits[k]);
        k += 1;
    }
    assert(digits@.take(digits@.len() as int) =~= digits@);
    v
}

/// The decimal text of `n`, filled up with leading zeros.
pub fn padded_decimal_text(n: u64, width: usize) -> (r: String)
    ensures
        r@ == padded_decimal(n as nat, width as nat),
{
    string_of(&padded_decimal_chars(n, width))
}

// ---------------------------------------------------------------------------
// Hexadecimal
// ---------------------------------------------------------------------------

/// A byte as two lower-case hexadecimal digits.
pub open spec fn hex_byte(b: u8) -> Seq<char> {
    seq![digit(b as int / 16), digit(b as int % 16)]
}

/// Bytes as lower-case hexadecimal, two digits each.
pub open spec fn hex(bytes: Seq<u8>) -> Seq<char>
    decreases bytes.len(),
{
    if bytes.len() == 0 {
        Seq::empty()
    } else {
        hex(bytes.drop_last()) + hex_byte(bytes.last())
    }
}

pub proof fn lemma_hex_len(bytes: Seq<u8>)
    ensures
        hex(bytes).len() == 2 * bytes.len(),
    decreases bytes.len(),
{
    if bytes.len() > 0 {
        lemma_hex_len(bytes.drop_last());
    }
}

/// Writes bytes as lower-case hexadecimal.
pub fn hex_text(bytes: &[u8]) -> (r: String)
    ensures
        r@ == hex(bytes@),
{
    let mut v: Vec<char> = Vec::new();
    let mut i: usize = 0;
    while i < bytes.len()
        invariant
            i <= bytes@.len(),
            v@ == hex(bytes@.take(i as int)),
        decreases bytes@.len() - i,
    {
        let b: u8 = bytes[i];
        v.push(digit_char(b / 16));
        v.push(digit_char(b % 16));
        proof {
            assert(bytes@.take(i + 1).drop_last() =~= bytes@.take(i as int));
            assert(v@ =~= hex(bytes@.take(i as int)) + hex_byte(b));
        }
        i += 1;
    }
    assert(bytes@.take(i as int) =~= bytes@);
    string_of(&v)
}

/// Sixteen bits as four lower-case hexadecimal digits.
pub open spec fn hex_u16(n: u16) -> Seq<char> {
    hex_byte((n / 256) as u8) + hex_byte((n % 256) as u8)
}

/// Writes sixteen bits as four hexadecimal digits.
pub fn hex_u16_text(n: u16) -> (r: String)
    ensures
        r@ == hex_u16(n),
{
    let hi: u8 = (n / 256) as u8;
    let lo: u8 = (n % 256) as u8;
    let mut v: Vec<char> = Vec::new();
    v.push(digit_char(hi / 16));
    v.push(digit_char(hi % 16));
    v.push(digit_char(lo / 16));
    v.push(digit_char(lo % 16));
    assert(v@ =~= hex_u16(n));
    string_of(&v)
}

// ---------------------------------------------------------------------------
// Reading numbers
// ---------------------------------------------------------------------------

/// Whether every character is a decimal digit.
pub open spec fn all_decimal(s: Seq<char>) -> bool {
    forall|i: int| 0 <= i < s.len() ==> is_decimal(#[trigger] s[i])
}

/// The number that a sequence of decimal digits stands for.
pub open spec fn value_of(s: Seq<char>) -> int
    decreases s.len(),
{
    if s.len() == 0 {
        0
    } else {
        value_of(s.drop_last()) * 10 + decimal_value(s.last())
    }
}

/// A number without its optional leading plus sign.
pub open spec fn unsigned_part(s: Seq<char>) -> Seq<char> {
    if s.len() > 0 && s[0] == '+' {
        s.drop_first()
    } else {
        s
    }
}

/// The unsigned number at most `max` that a text stands for: an optional plus
/// sign, then one or more decimal digits and nothing else.
pub open spec fn parsed(s: Seq<char>, max: nat) -> Option<nat> {
    let t = unsigned_part(s);
    if t.len() > 0 && all_decimal(t) && value_of(t) <= max {
        Some(value_of(t) as nat)
    } else {
        None
    }
}

pub proof fn lemma_value_nonneg(s: Seq<char>)
    requires
        all_decimal(s),
    ensures
        value_of(s) >= 0,
    decreases s.len(),
{
    if s.len() > 0 {
        assert(all_decimal(s.drop_last()));
        lemma_value_nonneg(s.drop_last());
    }
}

/// A prefix of a number stands for no more than the number.
pub proof fn lemma_value_prefix(s: Seq<char>, n: int)
    requires
        all_decimal(s),
        0 <= n <= s.len(),
    ensures
        value_of(s.take(n)) <= value_of(s),
    decreases s.len() - n,
{
    if n < s.len() {
        lemma_value_prefix(s, n + 1);
        assert(s.take(n + 1).drop_last() =~= s.take(n));
        lemma_value_nonneg(s.take(n));
    } else {
        assert(s.take(n) =~= s);
    }
}

/// What is written in base ten is read back as the same number.
pub proof fn decimal_reads_back(n: nat, max: nat)
    requires
        n <= max,
    ensures
        parsed(decimal(n), max) == Some(n),
{
    lemma_decimal_digits(n);
    lemma_value_of_decimal(n);
    assert(is_decimal(decimal(n)[0]));
    assert(unsigned_part(decimal(n)) == decimal(n));
}

pub proof fn lemma_value_of_decimal(n: nat)
    ensures
        value_of(decimal(n)) == n,
    decreases n,
{
    if n < 10 {
        reveal_with_fuel(value_of, 2);
        assert(decimal(n).drop_last() =~= Seq::<char>::empty());
        assert(decimal(n).last() == digit(n as int));
    } else {
        lemma_value_of_decimal(n / 10);
        assert(decimal(n).drop_last() =~= decimal(n / 10));
    }
}

/// Reads an unsigned number of at most `max`.
pub fn parse_unsigned(s: &[char], max: u64) -> (r: Option<u64>)
    ensures
        match r {
            Some(n) => n <= max && parsed(s@, max as nat) == Some(n as nat),
            None => parsed(s@, max as nat) is None,
        },
{
    let start: usize = if s.len() > 0 && s[0] == '+' {
        1
    } else {
        0
    };
    let ghost t = unsigned_part(s@);
    assert(t =~= s@.skip(start as int));
    if start == s.len() {
        return None;
    }
    let mut acc: u64 = 0;
    let mut i: usize = start;
    while i < s.len()
        invariant
            start <= i <= s@.len(),
            t == s@.skip(start as int),
            t == unsigned_part(s@),
            all_decimal(t.take(i - start)),
            acc == value_of(t.take(i - start)),
            acc <= max,
        decreases s@.len() - i,
    {
        let c: char = s[i];
        if !('0' <= c && c <= '9') {
            assert(t[i - start] == c);
            return None;
        }
        let d: u64 = (c as u32 - 48) as u64;
        proof {
            assert(t.take(i + 1 - start).drop_last() =~= t.take(i - start));
            assert(t.take(i + 1 - start).last() == c);
            if all_decimal(t) {
                lemma_value_prefix(t, i + 1 - start);
            }
        }
        if d > max || acc > max / 10 || acc * 10 > max - d {
            assert(value_of(t.take(i + 1 - start)) > max);
            return None;
        }
        acc = acc * 10 + d;
        i += 1;
    }
    assert(t.take(i - start) =~= t);
    Some(acc)
}

/// Reads an unsigned number of at most `max` from a text.
pub fn parse_text(s: &str, max: u64) -> (r: Option<u64>)
    ensures
        match r {
            Some(n) => n <= max && parsed(s@, max as nat) == Some(n as nat),
            None => parsed(s@, max as nat) is None,
        },
{
    let v = chars_of(s);
    parse_unsigned(&v, max)
}

} // verus!
