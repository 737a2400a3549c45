//! What taking texts apart comes to: the parts, put together again, are the text.
use crate::num_text::{
    decimal, decimal_reads_back, digit, hex, hex_byte, hex_u16, is_decimal, lemma_decimal_digits,
    lemma_value_nonneg, lemma_value_of_decimal, padded_decimal, parsed, unsigned_part, value_of,
    zeros,
};
use crate::text::{
    ascii_lower, ascii_lower_char, first_of, lemma_first_of, lemma_first_of_unique, lines_of,
    split_at_char, split_once_at, stripped_end, stripped_start, trimmed, trimmed_end,
    trimmed_start, white, without_cr, without_prefix, without_suffix, word_len, words_of,
};
use vstd::prelude::*;

verus! {

/// Whether `t` is what stands in `s` from `a` to `b`, with blanks before and
/// behind it and none at its own ends.
pub open spec fn between_blanks(s: Seq<char>, t: Seq<char>, a: int, b: int) -> bool {
    &&& 0 <= a <= b <= s.len()
    &&& t == s.subrange(a, b)
    &&& forall|i: int| 0 <= i < a || b <= i < s.len() ==> white(#[trigger] s[i])
    &&& t.len() > 0 ==> !white(t[0]) && !white(t.last())
}

proof fn lemma_start(s: Seq<char>) -> (k: int)
    ensures
        0 <= k <= s.len(),
        trimmed_start(s) == s.skip(k),
        forall|i: int| 0 <= i < k ==> white(#[trigger] s[i]),
        k < s.len() ==> !white(s[k]),
    decreases s.len(),
{
    if s.len() > 0 && white(s[0]) {
        let t = s.drop_first();
        let k = lemma_start(t);
        assert(t.skip(k) =~= s.skip(k + 1));
        assert forall|i: int| 0 <= i < k + 1 implies white(#[trigger] s[i]) by {
            if i > 0 {
                assert(t[i - 1] == s[i]);
            }
        }
        if k < t.len() {
            assert(t[k] == s[k + 1]);
        }
        k + 1
    } else {
        assert(s.skip(0) =~= s);
        0
    }
}

proof fn lemma_end(s: Seq<char>) -> (k: int)
    ensures
        0 <= k <= s.len(),
        trimmed_end(s) == s.take(k),
        forall|i: int| k <= i < s.len() ==> white(#[trigger] s[i]),
        k > 0 ==> !white(s[k - 1]),
    decreases s.len(),
{
    if s.len() > 0 && white(s.last()) {
        let t = s.drop_last();
        let k = lemma_end(t);
        assert(t.take(k) =~= s.take(k));
        assert forall|i: int| k <= i < s.len() implies white(#[trigger] s[i]) by {
            if i < t.len() {
                assert(t[i] == s[i]);
            }
        }
        if k > 0 {
            assert(t[k - 1] == s[k - 1]);
        }
        k
    } else {
        assert(s.take(s.len() as int) =~= s);
        s.len() as int
    }
}

/// Trimming takes away the blanks at both ends and nothing else.
pub proof fn trimming_takes_the_blanks_away(s: Seq<char>)
    ensures
        exists|a: int, b: int| between_blanks(s, trimmed(s), a, b),
{
    let a = lemma_start(s);
    let t = trimmed_start(s);
    let k = lemma_end(t);
    let b = a + k;
    assert(trimmed(s) =~= s.subrange(a, b));
    assert forall|i: int| 0 <= i < a || b <= i < s.len() implies white(#[trigger] s[i]) by {
        if i >= b {
            assert(t[i - a] == s[i]);
        }
    }
    if k > 0 {
        assert(t[k - 1] == s[b - 1]);
        assert(trimmed(s).last() == s[b - 1]);
        assert(trimmed(s)[0] == s[a]);
    }
    assert(between_blanks(s, trimmed(s), a, b));
}

/// Taking a character off the start takes all of it that stands there, and
/// nothing else.
pub proof fn stripping_the_start(s: Seq<char>, c: char) -> (k: int)
    ensures
        0 <= k <= s.len(),
        stripped_start(s, c) == s.skip(k),
        forall|i: int| 0 <= i < k ==> #[trigger] s[i] == c,
        k < s.len() ==> s[k] != c,
    decreases s.len(),
{
    if s.len() > 0 && s[0] == c {
        let t = s.drop_first();
        let k = stripping_the_start(t, c);
        assert(t.skip(k) =~= s.skip(k + 1));
        assert forall|i: int| 0 <= i < k + 1 implies #[trigger] s[i] == c by {
            if i > 0 {
                assert(t[i - 1] == s[i]);
            }
        }
        if k < t.len() {
            assert(t[k] == s[k + 1]);
        }
        k + 1
    } else {
        assert(s.skip(0) =~= s);
        0
    }
}

/// Taking a character off the end takes all of it that stands there, and nothing
/// else.
pub proof fn stripping_the_end(s: Seq<char>, c: char) -> (k: int)
    ensures
        0 <= k <= s.len(),
        stripped_end(s, c) == s.take(k),
        forall|i: int| k <= i < s.len() ==> #[trigger] s[i] == c,
        k > 0 ==> s[k - 1] != c,
    decreases s.len(),
{
    if s.len() > 0 && s.last() == c {
        let t = s.drop_last();
        let k = stripping_the_end(t, c);
        assert(t.take(k) =~= s.take(k));
        assert forall|i: int| k <= i < s.len() implies #[trigger] s[i] == c by {
            if i < t.len() {
                assert(t[i] == s[i]);
            }
        }
        if k > 0 {
            assert(t[k - 1] == s[k - 1]);
        }
        k
    } else {
        assert(s.take(s.len() as int) =~= s);
        s.len() as int
    }
}

/// Texts with a character between each two of them.
pub open spec fn with_between(parts: Seq<Seq<char>>, c: char) -> Seq<char>
    decreases parts.len(),
{
    if parts.len() == 0 {
        Seq::empty()
    } else if parts.len() == 1 {
        parts[0]
    } else {
        parts[0] + seq![c] + with_between(parts.skip(1), c)
    }
}

/// The parts of a text that was split at a character do not hold it, and with it
/// between them they are the text.
pub proof fn split_parts_make_the_text(s: Seq<char>, c: char)
    ensures
        split_at_char(s, c).len() >= 1,
        forall|i: int|
            0 <= i < split_at_char(s, c).len() ==> !(#[trigger] split_at_char(s, c)[i]).contains(c),
        with_between(split_at_char(s, c), c) == s,
    decreases s.len(),
{
    lemma_first_of(s, c);
    let i = first_of(s, c);
    let all = split_at_char(s, c);
    if i < s.len() {
        let rest = s.skip(i + 1);
        split_parts_make_the_text(rest, c);
        let parts = split_at_char(rest, c);
        assert(all.skip(1) =~= parts);
        assert forall|k: int| 0 <= k < all.len() implies !(#[trigger] all[k]).contains(c) by {
            if k > 0 {
                assert(all[k] == parts[k - 1]);
            } else {
                assert(all[0] =~= s.take(i));
            }
        }
        assert(s.take(i) + seq![c] + rest =~= s);
    } else {
        assert(all =~= seq![s]);
        assert(!s.contains(c));
    }
}

/// A text that is cut at the first of a character is what stands before it, the
/// character, and what stands behind; without it there is nothing to cut.
pub proof fn cutting_at_the_first_of_a_character(s: Seq<char>, c: char, a: Seq<char>, b: Seq<char>)
    ensures
        split_once_at(s, c) == Some((a, b)) <==> s == a + seq![c] + b && !a.contains(c),
        split_once_at(s, c) is None <==> !s.contains(c),
{
    lemma_first_of(s, c);
    let i = first_of(s, c);
    if s == a + seq![c] + b && !a.contains(c) {
        let n = a.len() as int;
        assert(s[n] == c);
        assert forall|k: int| 0 <= k < n implies s[k] != c by {
            assert(s[k] == a[k]);
        }
        lemma_first_of_unique(s, c, n);
        assert(s.take(n) =~= a);
        assert(s.skip(n + 1) =~= b);
    }
    if i < s.len() {
        assert(s[i] == c);
        assert(s =~= s.take(i) + seq![c] + s.skip(i + 1));
        assert forall|k: int| 0 <= k < i implies s.take(i)[k] != c by {
            assert(s.take(i)[k] == s[k]);
        }
        assert(!s.take(i).contains(c));
    }
}

/// Lines, each with its end.
pub open spec fn with_ends(ls: Seq<Seq<char>>) -> Seq<char>
    decreases ls.len(),
{
    if ls.len() == 0 {
        Seq::empty()
    } else {
        ls[0] + seq!['\n'] + with_ends(ls.skip(1))
    }
}

/// The lines of a text are what was written as lines.
pub proof fn lines_are_read_back(ls: Seq<Seq<char>>)
    requires
        forall|i: int|
            0 <= i < ls.len() ==> !(#[trigger] ls[i]).contains('\n') && (ls[i].len() > 0
                ==> ls[i].last() != '\r'),
    ensures
        lines_of(with_ends(ls)) == ls,
    decreases ls.len(),
{
    if ls.len() > 0 {
        let rest = ls.skip(1);
        assert forall|i: int| 0 <= i < rest.len() implies !(#[trigger] rest[i]).contains('\n') && (
        rest[i].len() > 0 ==> rest[i].last() != '\r') by {
            assert(rest[i] == ls[i + 1]);
        }
        lines_are_read_back(rest);
        lemma_line(ls[0], with_ends(rest));
        assert(seq![ls[0]] + rest =~= ls);
    }
}

proof fn lemma_line(a: Seq<char>, rest: Seq<char>)
    requires
        !a.contains('\n'),
    ensures
        lines_of(a + seq!['\n'] + rest) == seq![without_cr(a)] + lines_of(rest),
{
    let s = a + seq!['\n'] + rest;
    let n = a.len() as int;
    assert(s[n] == '\n');
    assert forall|k: int| 0 <= k < n implies s[k] != '\n' by {
        assert(s[k] == a[k]);
    }
    lemma_first_of_unique(s, '\n', n);
    assert(s.take(n) =~= a);
    assert(s.skip(n + 1) =~= rest);
}

/// A line may end with a carriage return too, and the last one needs no end.
pub proof fn other_ends_of_lines(a: Seq<char>, rest: Seq<char>)
    requires
        !a.contains('\n'),
    ensures
        a.len() > 0 ==> lines_of(a) == seq![a],
        lines_of(a + seq!['\r', '\n'] + rest) == seq![a] + lines_of(rest),
        lines_of(Seq::empty()).len() == 0,
{
    if a.len() > 0 {
        assert forall|k: int| 0 <= k < a.len() implies a[k] != '\n' by {}
        lemma_first_of_unique(a, '\n', a.len() as int);
    }
    let b = a.push('\r');
    assert(!b.contains('\n')) by {
        assert forall|k: int| 0 <= k < b.len() implies b[k] != '\n' by {
            if k < a.len() {
                assert(b[k] == a[k]);
            }
        }
    }
    lemma_line(b, rest);
    assert(a + seq!['\r', '\n'] + rest =~= b + seq!['\n'] + rest);
    assert(b.drop_last() =~= a);
}

proof fn lemma_word(w: Seq<char>, rest: Seq<char>)
    requires
        w.len() > 0,
        forall|i: int| 0 <= i < w.len() ==> !white(#[trigger] w[i]),
        rest.len() > 0 ==> white(rest[0]),
    ensures
        word_len(w + rest) == w.len(),
        trimmed_start(w + rest) == w + rest,
    decreases w.len(),
{
    let s = w + rest;
    assert(s[0] == w[0]);
    assert(!white(w[0]));
    assert(trimmed_start(s) == s);
    let v = w.drop_first();
    assert(s.drop_first() =~= v + rest);
    assert(word_len(s) == 1 + word_len(v + rest));
    if v.len() > 0 {
        assert forall|i: int| 0 <= i < v.len() implies !white(#[trigger] v[i]) by {
            assert(v[i] == w[i + 1]);
        }
        lemma_word(v, rest);
    } else {
        assert(v + rest =~= rest);
        assert(word_len(rest) == 0);
    }
}

/// The words of a text are what was written with blanks between.
pub proof fn words_are_read_back(ws: Seq<Seq<char>>, c: char)
    requires
        white(c),
        forall|i: int| 0 <= i < ws.len() ==> (#[trigger] ws[i]).len() > 0,
        forall|i: int, j: int|
            0 <= i < ws.len() && 0 <= j < ws[i].len() ==> !white(#[trigger] ws[i][j]),
    ensures
        words_of(with_between(ws, c)) == ws,
    decreases ws.len(),
{
    let s = with_between(ws, c);
    if ws.len() == 0 {
        assert(trimmed_start(s) == s);
        assert(words_of(s) =~= ws);
    } else {
        let w = ws[0];
        let rest = ws.skip(1);
        assert forall|i: int| 0 <= i < rest.len() implies (#[trigger] rest[i]).len() > 0 by {
            assert(rest[i] == ws[i + 1]);
        }
        assert forall|i: int, j: int| 0 <= i < rest.len() && 0 <= j < rest[i].len() implies !white(
            #[trigger] rest[i][j],
        ) by {
            assert(rest[i][j] == ws[i + 1][j]);
        }
        words_are_read_back(rest, c);
        assert(ws[0][0] == w[0]);
        assert forall|j: int| 0 <= j < w.len() implies !white(#[trigger] w[j]) by {
            assert(w[j] == ws[0][j]);
        }
        let tail = if ws.len() == 1 {
            Seq::empty()
        } else {
            seq![c] + with_between(rest, c)
        };
        assert(s =~= w + tail);
        lemma_word(w, tail);
        assert(s.take(w.len() as int) =~= w);
        assert(s.skip(w.len() as int) =~= tail);
        if ws.len() > 1 {
            assert(tail.drop_first() =~= with_between(rest, c));
            assert(trimmed_start(tail) == trimmed_start(with_between(rest, c)));
            assert(words_of(tail) == words_of(with_between(rest, c)));
        } else {
            assert(trimmed_start(tail) == tail);
            assert(words_of(tail) =~= rest);
        }
        assert(seq![w] + rest =~= ws);
    }
}

/// The letters from A to Z become small, and nothing else changes.
pub proof fn letters_become_small(s: Seq<char>, i: int)
    requires
        0 <= i < s.len(),
    ensures
        ascii_lower(s).len() == s.len(),
        'A' <= s[i] <= 'Z' ==> 'a' <= ascii_lower(s)[i] <= 'z' && ascii_lower(s)[i] as int
            - s[i] as int == 'a' as int - 'A' as int,
        !('A' <= s[i] <= 'Z') ==> ascii_lower(s)[i] == s[i],
        ascii_lower(ascii_lower(s)) == ascii_lower(s),
{
    assert forall|k: int| 0 <= k < s.len() implies ascii_lower(ascii_lower(s))[k]
        == #[trigger] ascii_lower(s)[k] by {
        assert(ascii_lower(s)[k] == ascii_lower_char(s[k]));
    }
    assert(ascii_lower(ascii_lower(s)) =~= ascii_lower(s));
}

/// What is taken off a text and put before or behind the rest makes the text.
pub proof fn what_is_taken_off_can_be_put_back(s: Seq<char>, p: Seq<char>, r: Seq<char>)
    ensures
        without_prefix(s, p) == Some(r) <==> s == p + r,
        without_suffix(s, p) == Some(r) <==> s == r + p,
{
    if p.is_prefix_of(s) {
        assert(s =~= p + s.skip(p.len() as int)) by {
            assert(p =~= s.subrange(0, p.len() as int));
        }
    }
    if s == p + r {
        assert(p =~= s.subrange(0, p.len() as int));
        assert(s.skip(p.len() as int) =~= r);
    }
    if p.is_suffix_of(s) {
        let n = s.len() - p.len();
        assert(s =~= s.take(n) + p) by {
            assert(p =~= s.subrange(n, s.len() as int));
        }
    }
    if s == r + p {
        let n = s.len() - p.len();
        assert(p =~= s.subrange(n, s.len() as int));
        assert(s.take(n) =~= r);
    }
}

// ---------------------------------------------------------------------------
// Numbers
// ---------------------------------------------------------------------------

proof fn lemma_zeros_count_nothing(k: nat, s: Seq<char>)
    ensures
        value_of(zeros(k) + s) == value_of(s),
    decreases k, s.len(),
{
    let t = zeros(k) + s;
    if s.len() > 0 {
        assert(t.drop_last() =~= zeros(k) + s.drop_last());
        lemma_zeros_count_nothing(k, s.drop_last());
    } else if k > 0 {
        assert(t.drop_last() =~= zeros((k - 1) as nat) + s);
        assert(t.last() == '0');
        lemma_zeros_count_nothing((k - 1) as nat, s);
    }
}

/// A number that is padded has the same value and at least the width; it is made
/// of digits, and no longer than it must be.
pub proof fn padding_keeps_the_value(n: nat, width: nat)
    ensures
        value_of(padded_decimal(n, width)) == n,
        padded_decimal(n, width).len() >= width,
        padded_decimal(n, width).len() == width || padded_decimal(n, width) == decimal(n),
        forall|i: int|
            0 <= i < padded_decimal(n, width).len() ==> is_decimal(
                #[trigger] padded_decimal(n, width)[i],
            ),
{
    lemma_decimal_digits(n);
    lemma_value_of_decimal(n);
    let d = decimal(n);
    if d.len() < width {
        let k = (width - d.len()) as nat;
        lemma_zeros_count_nothing(k, d);
        let p = padded_decimal(n, width);
        assert forall|i: int| 0 <= i < p.len() implies is_decimal(#[trigger] p[i]) by {
            if i >= k {
                assert(p[i] == d[i - k]);
            }
        }
    }
}

/// Each byte is written as its two digits in base sixteen, in order.
pub proof fn bytes_are_written_in_hex(bytes: Seq<u8>, i: int)
    requires
        0 <= i < bytes.len(),
    ensures
        hex(bytes).len() == 2 * bytes.len(),
        hex(bytes)[2 * i] == digit(bytes[i] as int / 16),
        hex(bytes)[2 * i + 1] == digit(bytes[i] as int % 16),
    decreases bytes.len(),
{
    let most = bytes.drop_last();
    crate::num_text::lemma_hex_len(most);
    crate::num_text::lemma_hex_len(bytes);
    if i < most.len() {
        bytes_are_written_in_hex(most, i);
        assert(hex(bytes)[2 * i] == hex(most)[2 * i]);
        assert(hex(bytes)[2 * i + 1] == hex(most)[2 * i + 1]);
    } else {
        assert(hex(bytes)[2 * i] == hex_byte(bytes.last())[0]);
        assert(hex(bytes)[2 * i + 1] == hex_byte(bytes.last())[1]);
    }
}

/// A text is a number where it is digits alone, with a plus sign before them or
/// not, and the number is not too large.
pub proof fn numbers_are_digits(n: nat, max: nat, s: Seq<char>)
    ensures
        n <= max ==> parsed(decimal(n), max) == Some(n) && parsed(seq!['+'] + decimal(n), max)
            == Some(n),
        n > max ==> parsed(decimal(n), max) is None,
        parsed(Seq::empty(), max) is None,
        parsed(s, max) is Some ==> parsed(s, max)->0 <= max && forall|k: int|
            0 < k < s.len() ==> is_decimal(#[trigger] s[k]),
{
    lemma_decimal_digits(n);
    lemma_value_of_decimal(n);
    let d = decimal(n);
    assert(is_decimal(d[0]));
    assert((seq!['+'] + d).drop_first() =~= d);
    if n <= max {
        decimal_reads_back(n, max);
    }
    if parsed(s, max) is Some {
        lemma_value_nonneg(unsigned_part(s));
        assert forall|k: int| 0 < k < s.len() implies is_decimal(#[trigger] s[k]) by {
            if s[0] == '+' {
                assert(s.drop_first()[k - 1] == s[k]);
            }
        }
    }
}

/// Blanks are the characters that separate words or lines in some script, and no
/// letter, digit or mark of ASCII is one.
pub proof fn blanks_are_known_by_their_number(c: char)
    ensures
        ({
            let n = c as u32;
            white(c) <==> n == 32 || (9 <= n && n <= 13) || n == 133 || n == 160 || n == 5760 || (
            8192 <= n && n <= 8202) || n == 8232 || n == 8233 || n == 8239 || n == 8287 || n
                == 12288
        }),
        c == ' ' || c == '\n' || c == '\r' || c == '\t' ==> white(c),
        '!' <= c <= '~' ==> !white(c),
{
}

/// A number of two bytes is written with four digits in base sixteen, the highest
/// first.
pub proof fn two_bytes_are_written_with_four_digits(n: u16)
    ensures
        hex_u16(n).len() == 4,
        hex_u16(n)[0] == digit(n as int / 4096),
        hex_u16(n)[1] == digit(n as int / 256 % 16),
        hex_u16(n)[2] == digit(n as int / 16 % 16),
        hex_u16(n)[3] == digit(n as int % 16),
{
    assert(n as int / 256 / 16 == n as int / 4096);
    assert(n as int % 256 / 16 == n as int / 16 % 16);
    assert(n as int % 256 % 16 == n as int % 16);
}

} // verus!
