//! What is shown of sizes, times, permissions and media.
use crate::calendar::{
    date_of, dated, dates_are_unique, day_number, is_date, leap, month_start, mtime_text, wrap_i32,
    year_text, FileTime,
};
use crate::format_util::{
    fixed_point, grain, kind_of, nearest_double, round_half_even, size_text, unit_bytes, unit_for,
    unit_symbol,
};
use crate::local_fs::owner_permissions;
use crate::media_meta::{
    cleaned, duration_text, exif_label, exif_rows, media_kind, media_rows, mime_media,
    picture_rows, rate_text, some_row, sound_rows, tag_value, tenths_khz, ImageFacts, MediaKind,
    TagFacts,
};
use crate::num_text::{decimal, decimal_value, padded_decimal};
use crate::picking::{exactly_those, lemma_picked, lemma_picked_none};
use crate::properties::{added_upto, bits_of, folders_upto, octal, sized, TopLevel};
use crate::text::{stripped_start, trimmed};
use crate::text_laws::{stripping_the_end, stripping_the_start};
use crate::types::EntryView;
use vstd::arithmetic::div_mod::lemma_div_denominator;
use vstd::prelude::*;

verus! {

// ---------------------------------------------------------------------------
// Permissions and counts
// ---------------------------------------------------------------------------

/// A number for a truth.
pub open spec fn as_bit(b: bool) -> int {
    if b {
        1
    } else {
        0
    }
}

/// The nine permissions are the last nine bits of the mode, those of the owner
/// first, and within each reading, writing and executing.
pub proof fn permissions_are_the_bits_of_the_mode(m: u32)
    ensures
        ({
            let b = bits_of(m);
            256 * as_bit(b.or) + 128 * as_bit(b.ow) + 64 * as_bit(b.ox) + 32 * as_bit(b.gr) + 16
                * as_bit(b.gw) + 8 * as_bit(b.gx) + 4 * as_bit(b.tr) + 2 * as_bit(b.tw) + as_bit(
                b.tx,
            ) == m as int % 512
        }),
        owner_permissions(m).mode == m,
        owner_permissions(m).readable == bits_of(m).or,
        owner_permissions(m).writable == bits_of(m).ow,
        owner_permissions(m).executable == bits_of(m).ox,
{
    let n = m as int;
    lemma_halved(n, 1);
    lemma_halved(n, 2);
    lemma_halved(n, 4);
    lemma_halved(n, 8);
    lemma_halved(n, 16);
    lemma_halved(n, 32);
    lemma_halved(n, 64);
    lemma_halved(n, 128);
    lemma_halved(n, 256);
    lemma_bits_add_up(n);
}

proof fn lemma_halved(n: int, p: int)
    requires
        n >= 0,
        p >= 1,
    ensures
        n / p == 2 * (n / (2 * p)) + n / p % 2,
        0 <= n / p % 2 <= 1,
{
    lemma_div_denominator(n, p, 2);
    assert(2 * p == p * 2);
}

proof fn lemma_bits_add_up(n: int)
    requires
        n >= 0,
        n == 2 * (n / 2) + n % 2,
        n / 2 == 2 * (n / 4) + n / 2 % 2,
        n / 4 == 2 * (n / 8) + n / 4 % 2,
        n / 8 == 2 * (n / 16) + n / 8 % 2,
        n / 16 == 2 * (n / 32) + n / 16 % 2,
        n / 32 == 2 * (n / 64) + n / 32 % 2,
        n / 64 == 2 * (n / 128) + n / 64 % 2,
        n / 128 == 2 * (n / 256) + n / 128 % 2,
        n / 256 == 2 * (n / 512) + n / 256 % 2,
    ensures
        256 * (n / 256 % 2) + 128 * (n / 128 % 2) + 64 * (n / 64 % 2) + 32 * (n / 32 % 2) + 16 * (n
            / 16 % 2) + 8 * (n / 8 % 2) + 4 * (n / 4 % 2) + 2 * (n / 2 % 2) + n % 2 == n % 512,
{
    let sum = 256 * (n / 256 % 2) + 128 * (n / 128 % 2) + 64 * (n / 64 % 2) + 32 * (n / 32 % 2)
        + 16 * (n / 16 % 2) + 8 * (n / 8 % 2) + 4 * (n / 4 % 2) + 2 * (n / 2 % 2) + n % 2;
    assert(n == 512 * (n / 512) + sum);
    assert(n == 512 * (n / 512) + n % 512);
}

/// A mode is shown by its four last digits in base eight.
pub proof fn a_mode_is_shown_in_base_eight(m: u32)
    ensures
        octal(m).len() == 4,
        ({
            let v = |i: int| decimal_value(octal(m)[i]);
            &&& 0 <= v(0) < 8
            &&& 0 <= v(1) < 8
            &&& 0 <= v(2) < 8
            &&& 0 <= v(3) < 8
            &&& 512 * v(0) + 64 * v(1) + 8 * v(2) + v(3) == m as int % 4096
        }),
{
    let v = |i: int| decimal_value(octal(m)[i]);
    assert(v(0) == m as int / 512 % 8);
    assert(v(1) == m as int / 64 % 8);
    assert(v(2) == m as int / 8 % 8);
    assert(v(3) == m as int % 8);
    let n = m as int;
    lemma_div_denominator(n, 8, 8);
    lemma_div_denominator(n, 64, 8);
    lemma_div_denominator(n, 512, 8);
    lemma_eighths_add_up(n);
}

proof fn lemma_eighths_add_up(n: int)
    requires
        n >= 0,
        n / 64 == n / 8 / 8,
        n / 512 == n / 64 / 8,
        n / 4096 == n / 512 / 8,
    ensures
        512 * (n / 512 % 8) + 64 * (n / 64 % 8) + 8 * (n / 8 % 8) + n % 8 == n % 4096,
{
    let a = n / 8;
    let b = n / 64;
    let c = n / 512;
    let d = n / 4096;
    assert(n == 8 * a + n % 8);
    assert(a == 8 * b + a % 8);
    assert(b == 8 * c + b % 8);
    assert(c == 8 * d + c % 8);
    let sum = 512 * (c % 8) + 64 * (b % 8) + 8 * (a % 8) + n % 8;
    assert(n == 4096 * d + sum);
    assert(n == 4096 * d + n % 4096);
}

/// What is chosen adds up: a folder to itself and what is in it, another entry to
/// one file with its size.
pub proof fn what_is_chosen_adds_up(v: Seq<TopLevel>, x: TopLevel)
    ensures
        ({
            let n = v.len() as int;
            let a = added_upto(v, n);
            let b = added_upto(v.push(x), n + 1);
            &&& x matches TopLevel::Directory(s) ==> b == (
                a.0 + s.files,
                a.1 + s.folders + 1,
                a.2 + s.bytes,
            )
            &&& x matches TopLevel::Other(size) ==> b == (a.0 + 1, a.1, a.2 + size)
            &&& x is Unreadable ==> b == a
        }),
        added_upto(v, 0) == (0int, 0int, 0int),
{
    lemma_added_of_more(v, x, v.len() as int);
}

proof fn lemma_added_of_more(v: Seq<TopLevel>, x: TopLevel, n: int)
    requires
        0 <= n <= v.len(),
    ensures
        added_upto(v.push(x), n) == added_upto(v, n),
    decreases n,
{
    if n > 0 {
        lemma_added_of_more(v, x, n - 1);
    }
}

/// Each folder among several entries counts once, and no other entry.
pub proof fn folders_count_once(es: Seq<EntryView>, e: EntryView, i: int, n: int)
    requires
        0 <= n <= es.len(),
        0 <= i < es.len(),
        !(es[i].file_type is Directory),
        e.file_type is Directory,
    ensures
        folders_upto(es.update(i, e), n) == folders_upto(es, n) + if i < n {
            1int
        } else {
            0int
        },
        (forall|k: int| 0 <= k < n ==> !((#[trigger] es[k]).file_type is Directory))
            ==> folders_upto(es, n) == 0,
    decreases n,
{
    if n > 0 {
        folders_count_once(es, e, i, n - 1);
    }
}

// ---------------------------------------------------------------------------
// Sizes
// ---------------------------------------------------------------------------

/// Rounding leads to the nearest whole number, and between two of them to the
/// even one.
pub proof fn rounding_leads_to_the_nearest(a: int, b: int)
    requires
        a >= 0,
        b >= 1,
    ensures
        -b <= 2 * (round_half_even(a, b) * b - a) <= b,
        2 * (round_half_even(a, b) * b - a) == b || 2 * (round_half_even(a, b) * b - a) == -b
            ==> round_half_even(a, b) % 2 == 0,
{
    let q = a / b;
    let r = a % b;
    assert(a == q * b + r && 0 <= r < b) by (nonlinear_arith)
        requires
            q == a / b,
            r == a % b,
            b >= 1,
    ;
    assert((q + 1) * b == q * b + b) by (nonlinear_arith);
}

/// Each unit is a thousand and twenty-four of the one before, and has its letter.
pub proof fn units_follow_each_other(i: int)
    requires
        0 <= i < 5,
    ensures
        unit_bytes(0) == 1,
        unit_bytes(i + 1) == 1024 * unit_bytes(i),
        unit_symbol(0) == seq!['B'],
        unit_symbol(1) == seq!['K', 'B'],
        unit_symbol(2) == seq!['M', 'B'],
        unit_symbol(3) == seq!['G', 'B'],
        unit_symbol(4) == seq!['T', 'B'],
        unit_symbol(5) == seq!['P', 'B'],
{
    reveal_strlit("B");
    reveal_strlit("KB");
    reveal_strlit("MB");
    reveal_strlit("GB");
    reveal_strlit("TB");
    reveal_strlit("PB");
    assert("B"@ =~= seq!['B']);
    assert("KB"@ =~= seq!['K', 'B']);
    assert("MB"@ =~= seq!['M', 'B']);
    assert("GB"@ =~= seq!['G', 'B']);
    assert("TB"@ =~= seq!['T', 'B']);
    assert("PB"@ =~= seq!['P', 'B']);
}

/// The unit of a size is the largest one that the size holds at least once.
pub proof fn the_unit_is_the_largest_that_fits(m: int)
    requires
        m >= 1,
    ensures
        0 <= unit_for(m) <= 5,
        unit_bytes(unit_for(m)) <= m,
        unit_for(m) < 5 ==> m < unit_bytes(unit_for(m) + 1),
{
}

/// Small numbers are counted exactly, and larger ones to sixteen digits or so: to
/// at most half of what two neighbours of them differ by.
pub proof fn large_sizes_are_nearly_exact(n: int)
    requires
        0 <= n < 0x1_0000_0000_0000_0000,
    ensures
        n < 0x20_0000_0000_0000 ==> nearest_double(n) == n,
        -2048 <= 2 * (nearest_double(n) - n) <= 2048,
        n >= 0x20_0000_0000_0000 ==> -n <= 0x20_0000_0000_0000 * (nearest_double(n) - n) <= n,
{
    let g = grain(n);
    rounding_leads_to_the_nearest(n, g);
    if g == 1 {
        assert(n / 1 == n && n % 1 == 0);
    }
}

/// Whether a text shows a fraction with some digits behind the point: the whole
/// number of those smallest parts that is nearest to it.
pub open spec fn shows_fraction(t: Seq<char>, a: int, b: int, digits: int, n: int) -> bool {
    let scale: int = if digits == 0 {
        1
    } else if digits == 1 {
        10
    } else {
        100
    };
    &&& -b <= 2 * (n * b - a * scale) <= b
    &&& n >= 0
    &&& t == if digits == 0 {
        decimal(n as nat)
    } else {
        decimal((n / scale) as nat) + seq!['.'] + padded_decimal((n % scale) as nat, digits as nat)
    }
}

proof fn lemma_fixed_point(a: int, b: int, digits: int) -> (n: int)
    requires
        a >= 0,
        b >= 1,
        0 <= digits <= 2,
    ensures
        shows_fraction(fixed_point(a, b, digits), a, b, digits, n),
{
    reveal_strlit(".");
    assert("."@ =~= seq!['.']);
    let scale: int = if digits == 0 {
        1
    } else if digits == 1 {
        10
    } else {
        100
    };
    rounding_leads_to_the_nearest(a * scale, b);
    let n = round_half_even(a * scale, b);
    assert(n >= 0) by {
        assert((a * scale) / b >= 0) by (nonlinear_arith)
            requires
                a >= 0,
                b >= 1,
                scale >= 1,
        ;
    }
    n
}

/// A size is shown in bytes below a thousand and twenty-four, and otherwise in
/// the largest unit that it holds, with two digits behind the point below ten,
/// one below a hundred and none above.
pub proof fn sizes_are_shown_in_their_unit(bytes: u64)
    ensures
        bytes < 1024 ==> size_text(bytes as nat) == decimal(bytes as nat) + seq![' ', 'B'],
        bytes >= 1024 ==> {
            let m = nearest_double(bytes as int);
            let i = unit_for(m);
            let b = unit_bytes(i);
            exists|t: Seq<char>, digits: int, n: int|
                #[trigger] shows_fraction(t, m, b, digits, n) && size_text(bytes as nat) == t
                    + seq![' '] + unit_symbol(i) && digits == if m >= 100 * b {
                    0int
                } else if m >= 10 * b {
                    1
                } else {
                    2
                }
        },
{
    reveal_strlit(" B");
    reveal_strlit(" ");
    assert(" B"@ =~= seq![' ', 'B']);
    assert(" "@ =~= seq![' ']);
    if bytes >= 1024 {
        let m = nearest_double(bytes as int);
        let i = unit_for(m);
        let b = unit_bytes(i);
        let digits: int = if m >= 100 * b {
            0
        } else if m >= 10 * b {
            1
        } else {
            2
        };
        large_sizes_are_nearly_exact(bytes as int);
        assert(m >= 0);
        let n = lemma_fixed_point(m, b, digits);
        let t = fixed_point(m, b, digits);
        assert(shows_fraction(t, m, b, digits, n));
    }
}

/// A size in full is the short one and the number of bytes.
pub proof fn a_size_in_full_says_the_bytes(bytes: nat)
    ensures
        size_text(bytes).is_prefix_of(sized(bytes)),
        " bytes)"@.is_suffix_of(sized(bytes)),
        ({
            let from = size_text(bytes).len() as int + 2;
            sized(bytes).subrange(from, from + decimal(bytes).len()) == decimal(bytes)
        }),
{
    reveal_strlit(" (");
    let t = sized(bytes);
    let s = size_text(bytes);
    let from = s.len() as int + 2;
    assert(s =~= t.subrange(0, s.len() as int));
    let end = " bytes)"@;
    assert(end =~= t.subrange(t.len() - end.len(), t.len() as int));
    assert(t.subrange(from, from + decimal(bytes).len()) =~= decimal(bytes));
}

/// The kind of a file is its MIME type; a folder is one whatever its type.
pub proof fn the_kind_is_the_type(m: Seq<char>, other: Option<Seq<char>>)
    ensures
        kind_of(Some(m), false) == m,
        kind_of(Some(m), true) == kind_of(other, true),
        kind_of(other, true) == "Folder"@,
        kind_of(None, false) == "File"@,
{
}

// ---------------------------------------------------------------------------
// Times
// ---------------------------------------------------------------------------

/// The months have the lengths that they have, February by the leap years: every
/// fourth, but of the full centuries only every fourth.
pub proof fn months_have_their_lengths(y: int, m: int)
    requires
        1 <= m <= 12,
    ensures
        month_start(y, m + 1) - month_start(y, m) == if m == 2 {
            if y % 400 == 0 || (y % 4 == 0 && y % 100 != 0) {
                29int
            } else {
                28
            }
        } else if m == 4 || m == 6 || m == 9 || m == 11 {
            30
        } else {
            31
        },
        month_start(y, 1) == 0,
{
}

/// A time is shown as its date and its time of day.
pub proof fn times_are_shown_by_date_and_hour(
    t: FileTime,
    y: int,
    m: int,
    d: int,
    h: int,
    mi: int,
    s: int,
)
    requires
        is_date(y, m, d),
        0 <= y <= 0x7fff_ffff,
        0 <= h < 24,
        0 <= mi < 60,
        0 <= s < 60,
        t.secs >= 0,
        t.secs == day_number(y, m, d) * 86_400 + h * 3600 + mi * 60 + s,
    ensures
        mtime_text(t) == padded_decimal(y as nat, 4) + seq!['-'] + padded_decimal(m as nat, 2)
            + seq!['-'] + padded_decimal(d as nat, 2) + seq![' '] + padded_decimal(h as nat, 2)
            + seq![':'] + padded_decimal(mi as nat, 2),
{
    reveal_strlit("-");
    reveal_strlit(" ");
    reveal_strlit(":");
    assert("-"@ =~= seq!['-']);
    assert(" "@ =~= seq![' ']);
    assert(":"@ =~= seq![':']);
    let n = day_number(y, m, d);
    let secs = t.secs as int;
    assert(secs / 86_400 == n && secs % 86_400 == h * 3600 + mi * 60 + s);
    assert(secs % 86_400 / 3600 == h);
    assert(secs % 3600 / 60 == mi);
    assert(dated((y, m, d), n));
    let u = date_of(n);
    assert(dated(u, n));
    dates_are_unique(y, m, d, u.0, u.1, u.2);
    assert(wrap_i32(y) == y);
}

/// A time before the first one that is counted is not shown.
pub proof fn times_before_the_first_are_not_shown(t: FileTime)
    requires
        t.secs < 0,
    ensures
        mtime_text(t).len() == 0,
{
}

// ---------------------------------------------------------------------------
// Media
// ---------------------------------------------------------------------------

/// A length is shown as minutes and seconds, with the hours before them where
/// there are some.
pub proof fn lengths_are_shown_in_minutes(h: int, m: int, s: int)
    requires
        h >= 0,
        0 <= m < 60,
        0 <= s < 60,
    ensures
        h == 0 ==> duration_text(m * 60 + s) == decimal(m as nat) + seq![':'] + padded_decimal(
            s as nat,
            2,
        ),
        h > 0 ==> duration_text(h * 3600 + m * 60 + s) == decimal(h as nat) + seq![':']
            + padded_decimal(m as nat, 2) + seq![':'] + padded_decimal(s as nat, 2),
{
    reveal_strlit(":");
    assert(":"@ =~= seq![':']);
    let total = h * 3600 + m * 60 + s;
    assert(total / 3600 == h && total % 3600 / 60 == m && total % 60 == s);
}

/// A rate is shown to the nearest tenth of a kilohertz.
pub proof fn rates_are_shown_to_a_tenth(rate: int)
    requires
        rate >= 0,
    ensures
        -50 <= 100 * tenths_khz(rate) - rate <= 50,
        ({
            let n = tenths_khz(rate);
            rate_text(rate) == decimal((n / 10) as nat) + seq!['.'] + decimal((n % 10) as nat)
                + seq![' ', 'k', 'H', 'z']
        }),
{
    reveal_strlit(".");
    reveal_strlit(" kHz");
    assert("."@ =~= seq!['.']);
    assert(" kHz"@ =~= seq![' ', 'k', 'H', 'z']);
}

/// The type of a file decides which medium it is; only where it says none does
/// the guess by its name.
pub proof fn the_type_says_the_medium(rest: Seq<char>, guess: Option<Seq<char>>, m: Seq<char>)
    ensures
        media_kind(Some("image/"@ + rest), guess) == MediaKind::Image,
        media_kind(Some("audio/"@ + rest), guess) == MediaKind::Audio,
        media_kind(Some("video/"@ + rest), guess) == MediaKind::Video,
        media_kind(None, Some(m)) == mime_media(m),
        mime_media(m) is NoMedia ==> media_kind(Some(m), guess) == media_kind(None, guess),
        media_kind(None, None) is NoMedia,
{
    reveal_strlit("image/");
    reveal_strlit("audio/");
    reveal_strlit("video/");
    let i = "image/"@ + rest;
    let a = "audio/"@ + rest;
    let v = "video/"@ + rest;
    assert("image/"@ =~= i.subrange(0, 6));
    assert("audio/"@ =~= a.subrange(0, 6));
    assert("video/"@ =~= v.subrange(0, 6));
    if "image/"@.is_prefix_of(a) {
        assert("image/"@ =~= a.subrange(0, 6));
        assert("image/"@[0] == a[0]);
    }
    if "image/"@.is_prefix_of(v) {
        assert("image/"@ =~= v.subrange(0, 6));
        assert("image/"@[0] == v[0]);
    }
    if "audio/"@.is_prefix_of(v) {
        assert("audio/"@ =~= v.subrange(0, 6));
        assert("audio/"@[0] == v[0]);
    }
}

/// Each note in a picture that is not blank gives a row with its label, in order.
pub proof fn notes_of_pictures_are_shown(exif: Seq<Option<String>>, n: int)
    requires
        0 <= n <= exif.len(),
    ensures
        exactly_those(
            exif_rows(exif, n),
            n,
            |i: int| exif[i] is Some && cleaned(exif[i]->0@).len() > 0,
            |i: int| (exif_label(i), cleaned(exif[i]->0@)),
        ),
    decreases n,
{
    let keep = |i: int| exif[i] is Some && cleaned(exif[i]->0@).len() > 0;
    let item = |i: int| (exif_label(i), cleaned(exif[i]->0@));
    if n > 0 {
        notes_of_pictures_are_shown(exif, n - 1);
        lemma_picked(exif_rows(exif, n - 1), n - 1, keep, item);
    } else {
        lemma_picked_none(keep, item);
    }
}

/// A picture is shown with its width before its height, and then its notes.
pub proof fn pictures_are_shown_with_their_size(f: ImageFacts)
    ensures
        f.dimensions is None ==> picture_rows(f) == exif_rows(f.exif@, f.exif@.len() as int),
        f.dimensions matches Some((w, h)) ==> {
            let rows = picture_rows(f);
            &&& rows.len() == 1 + exif_rows(f.exif@, f.exif@.len() as int).len()
            &&& rows.skip(1) == exif_rows(f.exif@, f.exif@.len() as int)
            &&& decimal(w as nat).is_prefix_of(rows[0].1)
            &&& decimal(h as nat).is_suffix_of(rows[0].1)
        },
{
    let rest = exif_rows(f.exif@, f.exif@.len() as int);
    let rows = picture_rows(f);
    match f.dimensions {
        Some((w, h)) => {
            assert(rows.skip(1) =~= rest);
            let t = rows[0].1;
            let a = decimal(w as nat);
            let b = decimal(h as nat);
            assert(a =~= t.subrange(0, a.len() as int));
            assert(b =~= t.subrange(t.len() - b.len(), t.len() as int));
        },
        None => {
            assert(rows =~= rest);
        },
    }
}

/// A tag is shown without the blanks around it, and a blank one not at all.
pub proof fn tags_are_shown_trimmed(v: Option<String>)
    ensures
        tag_value(v) is Some <==> v is Some && trimmed(v->0@).len() > 0,
        tag_value(v) matches Some(t) ==> t == trimmed(v->0@),
{
}

/// Of a file of sound each known fact gives one row under its label, and an
/// unknown one none.
pub proof fn facts_of_sounds_are_shown(f: TagFacts)
    ensures
        sound_rows(f).len() == as_bit(f.length_secs is Some) + as_bit(f.bitrate is Some) + as_bit(
            f.sample_rate is Some,
        ) + as_bit(f.channels is Some) + as_bit(tag_value(f.title) is Some) + as_bit(
            tag_value(f.artist) is Some,
        ) + as_bit(tag_value(f.album) is Some) + as_bit(tag_value(f.genre) is Some),
        f.length_secs matches Some(n) ==> sound_rows(f).contains(
            ("Length"@, duration_text(n as int)),
        ),
        f.sample_rate matches Some(n) ==> sound_rows(f).contains(
            ("Sample rate"@, rate_text(n as int)),
        ),
        f.channels matches Some(n) ==> sound_rows(f).contains(("Channels"@, decimal(n as nat))),
        tag_value(f.title) matches Some(t) ==> sound_rows(f).contains(("Title"@, t)),
        tag_value(f.artist) matches Some(t) ==> sound_rows(f).contains(("Artist"@, t)),
        tag_value(f.album) matches Some(t) ==> sound_rows(f).contains(("Album"@, t)),
        tag_value(f.genre) matches Some(t) ==> sound_rows(f).contains(("Genre"@, t)),
{
    let length = match f.length_secs {
        Some(n) => Some(duration_text(n as int)),
        None => None,
    };
    let bitrate = match f.bitrate {
        Some(n) => Some(decimal(n as nat) + " kbps"@),
        None => None,
    };
    let rate = match f.sample_rate {
        Some(n) => Some(rate_text(n as int)),
        None => None,
    };
    let channels = match f.channels {
        Some(n) => Some(decimal(n as nat)),
        None => None,
    };
    lemma_sum_of_rows(
        some_row("Length"@, length),
        some_row("Bitrate"@, bitrate),
        some_row("Sample rate"@, rate),
        some_row("Channels"@, channels),
        some_row("Title"@, tag_value(f.title)),
        some_row("Artist"@, tag_value(f.artist)),
        some_row("Album"@, tag_value(f.album)),
        some_row("Genre"@, tag_value(f.genre)),
    );
    assert(f.length_secs matches Some(n) ==> some_row("Length"@, length)[0] == (
        "Length"@,
        duration_text(n as int),
    ));
}

proof fn lemma_sum_of_rows(
    a: Seq<(Seq<char>, Seq<char>)>,
    b: Seq<(Seq<char>, Seq<char>)>,
    c: Seq<(Seq<char>, Seq<char>)>,
    d: Seq<(Seq<char>, Seq<char>)>,
    e: Seq<(Seq<char>, Seq<char>)>,
    f: Seq<(Seq<char>, Seq<char>)>,
    g: Seq<(Seq<char>, Seq<char>)>,
    h: Seq<(Seq<char>, Seq<char>)>,
)
    ensures
        ({
            let all = a + b + c + d + e + f + g + h;
            &&& all.len() == a.len() + b.len() + c.len() + d.len() + e.len() + f.len() + g.len()
                + h.len()
            &&& a.len() > 0 ==> all.contains(a[0])
            &&& b.len() > 0 ==> all.contains(b[0])
            &&& c.len() > 0 ==> all.contains(c[0])
            &&& d.len() > 0 ==> all.contains(d[0])
            &&& e.len() > 0 ==> all.contains(e[0])
            &&& f.len() > 0 ==> all.contains(f[0])
            &&& g.len() > 0 ==> all.contains(g[0])
            &&& h.len() > 0 ==> all.contains(h[0])
        }),
{
    let all = a + b + c + d + e + f + g + h;
    let i = a.len() as int;
    let j = i + b.len();
    let k = j + c.len();
    let l = k + d.len();
    let m = l + e.len();
    let n = m + f.len();
    let o = n + g.len();
    if a.len() > 0 {
        assert(all[0] == a[0]);
    }
    if b.len() > 0 {
        assert(all[i] == b[0]);
    }
    if c.len() > 0 {
        assert(all[j] == c[0]);
    }
    if d.len() > 0 {
        assert(all[k] == d[0]);
    }
    if e.len() > 0 {
        assert(all[l] == e[0]);
    }
    if f.len() > 0 {
        assert(all[m] == f[0]);
    }
    if g.len() > 0 {
        assert(all[n] == g[0]);
    }
    if h.len() > 0 {
        assert(all[o] == h[0]);
    }
}

/// Pictures are shown by their notes, sounds and films by their tags, and what is
/// no medium not at all.
pub proof fn media_are_shown_by_their_kind(image: ImageFacts, tags: Option<TagFacts>)
    ensures
        media_rows(MediaKind::Image, image, tags) == picture_rows(image),
        tags matches Some(t) ==> media_rows(MediaKind::Audio, image, tags) == sound_rows(t)
            && media_rows(MediaKind::Video, image, tags) == sound_rows(t),
        tags is None ==> media_rows(MediaKind::Audio, image, tags).len() == 0 && media_rows(
            MediaKind::Video,
            image,
            tags,
        ).len() == 0,
        media_rows(MediaKind::NoMedia, image, tags).len() == 0,
{
}

/// A year takes four places, the sign of an early one among them.
pub proof fn years_take_four_places(y: int)
    ensures
        -1000 < y < 10_000 ==> year_text(y).len() == 4,
        y < 0 ==> year_text(y) == seq!['-'] + padded_decimal((-y) as nat, 3),
        y >= 0 ==> year_text(y) == padded_decimal(y as nat, 4),
{
    reveal_strlit("-");
    assert("-"@ =~= seq!['-']);
    reveal_with_fuel(decimal, 5);
    if -1000 < y < 0 {
        assert(decimal((-y) as nat).len() <= 3);
    }
    if 0 <= y < 10_000 {
        assert(decimal(y as nat).len() <= 4);
    }
}

/// The notes of a picture are labelled by what they tell, in a fixed order.
pub proof fn notes_are_labelled_by_what_they_tell()
    ensures
        exif_label(0) == "Camera make"@,
        exif_label(1) == "Camera model"@,
        exif_label(2) == "Lens"@,
        exif_label(3) == "Taken"@,
        exif_label(4) == "Exposure"@,
        exif_label(5) == "Aperture"@,
        exif_label(6) == "ISO"@,
        exif_label(7) == "Focal length"@,
        exif_label(8) == "Orientation"@,
        exif_label(9) == "Software"@,
{
}

/// A note is shown without blanks and without quotes around it.
pub proof fn quotes_around_a_note_are_taken_off(v: Seq<char>)
    ensures
        cleaned(v).len() > 0 ==> cleaned(v)[0] != '"' && cleaned(v).last() != '"',
        cleaned(v).len() <= trimmed(v).len(),
        trimmed(v).len() > 0 && trimmed(v)[0] != '"' && trimmed(v).last() != '"' ==> cleaned(v)
            == trimmed(v),
{
    let t = trimmed(v);
    let a = stripping_the_start(t, '"');
    let u = stripped_start(t, '"');
    let b = stripping_the_end(u, '"');
}

} // verus!
