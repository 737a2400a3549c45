//! The order in which a listing shows its files.
use crate::calendar::{earlier, FileTime};
use crate::num_text::{all_decimal, is_decimal, value_of};
use crate::text::{chars_of, opt_view};
use crate::types::{entry_views, EntryView, FileEntry, FileType};
use core::cmp::Ordering;
use vstd::prelude::*;
use vstd::string::*;

verus! {

/// What a listing is sorted by.
#[derive(Clone, Copy, Debug, PartialEq, Eq, Structural)]
pub enum SortKey {
    Name,
    Size,
    Mtime,
    Kind,
}

/// The direction in which a listing is sorted.
#[derive(Clone, Copy, Debug, PartialEq, Eq, Structural)]
pub enum SortOrder {
    Ascending,
    Descending,
}

/// The key and direction after a click on a column: the direction turns on the
/// column that is sorted by, any other column begins ascending.
pub fn sort_by(current_key: SortKey, current_order: SortOrder, key: SortKey) -> (r: (
    SortKey,
    SortOrder,
))
    ensures
        r.0 == key,
        r.1 == if current_key == key && current_order == SortOrder::Ascending {
            SortOrder::Descending
        } else {
            SortOrder::Ascending
        },
{
    if current_key == key {
        match current_order {
            SortOrder::Ascending => (key, SortOrder::Descending),
            SortOrder::Descending => (key, SortOrder::Ascending),
        }
    } else {
        (key, SortOrder::Ascending)
    }
}

// ---------------------------------------------------------------------------
// Names
// ---------------------------------------------------------------------------

/// What `lexical_sort::iter::iterate_lexical` makes of a text: lower case, with
/// letters and digits of all scripts transliterated to ASCII.
pub uninterp spec fn lexical(s: Seq<char>) -> Seq<char>;

/// How `lexical_sort::natural_lexical_cmp` orders two texts.
pub uninterp spec fn natural_order(a: Seq<char>, b: Seq<char>) -> Ordering;

/// Whether no run of decimal digits has more than nineteen, so that each run is
/// a number of 64 bits.
pub open spec fn short_runs(t: Seq<char>) -> bool {
    forall|i: int|
        0 <= i && i + 20 <= t.len() ==> !all_decimal(#[trigger] t.subrange(i, i + 20))
}

/// Whether two texts agree up to position `i`, both go on with `n` digits there,
/// and these make a number beyond 64 bits in one of them.
pub open spec fn meet_at(s: Seq<char>, t: Seq<char>, i: int, n: int) -> bool {
    &&& 0 <= i
    &&& 0 <= n
    &&& i + n <= s.len()
    &&& i + n <= t.len()
    &&& s.take(i) == t.take(i)
    &&& all_decimal(s.subrange(i, i + n))
    &&& all_decimal(t.subrange(i, i + n))
    &&& value_of(s.subrange(i, i + n)) > u64::MAX || value_of(t.subrange(i, i + n)) > u64::MAX
}

/// Whether comparing two texts leads to numbers that do not fit into 64 bits.
pub open spec fn meet(s: Seq<char>, t: Seq<char>) -> bool {
    exists|i: int, n: int| #[trigger] meet_at(s, t, i, n)
}

/// Whether two names cannot be ordered: they agree up to numbers that are too
/// large to compare.
pub open spec fn clash(a: Seq<char>, b: Seq<char>) -> bool {
    meet(lexical(a), lexical(b))
}

/// Collects `lexical_sort::iter::iterate_lexical`. The result depends on the
/// text alone; the transliteration tables are not restated.
#[verifier::external_body]
fn lexical_form(s: &str) -> (r: String)
    ensures
        r@ == lexical(s@),
{
    lexical_sort::iter::iterate_lexical(s).collect()
}

/// Calls `lexical_sort::natural_lexical_cmp`. It walks both texts for as long as
/// they agree and, where both have digits, reads these into numbers of 64 bits
/// for as long as both have some, so neither number may pass 64 bits.
/// It compares piece by piece, a run of digits being one piece, then the texts
/// themselves: equal texts alone compare equal, the opposite call gives the
/// opposite answer, and for three texts that can be compared with one another
/// the answers chain.
#[verifier::external_body]
fn natural_lexical_cmp(a: &str, b: &str) -> (r: Ordering)
    requires
        !clash(a@, b@),
    ensures
        r == natural_order(a@, b@),
        r == Ordering::Equal <==> a@ == b@,
        r == Ordering::Less <==> natural_order(b@, a@) == Ordering::Greater,
        r == Ordering::Greater <==> natural_order(b@, a@) == Ordering::Less,
        r == Ordering::Less ==> forall|c: Seq<char>|
            !clash(a@, c) && !clash(b@, c) && #[trigger] natural_order(b@, c) != Ordering::Greater
                ==> natural_order(a@, c) == Ordering::Less,
        r == Ordering::Greater ==> forall|c: Seq<char>|
            !clash(a@, c) && !clash(b@, c) && #[trigger] natural_order(b@, c) != Ordering::Less
                ==> natural_order(a@, c) == Ordering::Greater,
        r == Ordering::Greater ==> forall|c: Seq<char>|
            !clash(a@, c) && !clash(b@, c) && #[trigger] natural_order(a@, c) != Ordering::Greater
                ==> natural_order(b@, c) == Ordering::Less,
        r == Ordering::Less ==> forall|c: Seq<char>|
            !clash(a@, c) && !clash(b@, c) && #[trigger] natural_order(a@, c) != Ordering::Less
                ==> natural_order(b@, c) == Ordering::Greater,
{
    lexical_sort::natural_lexical_cmp(a, b)
}

/// Compares two names regardless of case, numbers in them by value.
pub fn natural_cmp(a: &str, b: &str) -> (r: Ordering)
    requires
        !clash(a@, b@),
    ensures
        r == natural_order(a@, b@),
        r == Ordering::Equal <==> a@ == b@,
        r == Ordering::Less <==> natural_order(b@, a@) == Ordering::Greater,
        r == Ordering::Greater <==> natural_order(b@, a@) == Ordering::Less,
        r == Ordering::Less ==> forall|c: Seq<char>|
            !clash(a@, c) && !clash(b@, c) && #[trigger] natural_order(b@, c) != Ordering::Greater
                ==> natural_order(a@, c) == Ordering::Less,
        r == Ordering::Greater ==> forall|c: Seq<char>|
            !clash(a@, c) && !clash(b@, c) && #[trigger] natural_order(b@, c) != Ordering::Less
                ==> natural_order(a@, c) == Ordering::Greater,
        r == Ordering::Greater ==> forall|c: Seq<char>|
            !clash(a@, c) && !clash(b@, c) && #[trigger] natural_order(a@, c) != Ordering::Greater
                ==> natural_order(b@, c) == Ordering::Less,
        r == Ordering::Less ==> forall|c: Seq<char>|
            !clash(a@, c) && !clash(b@, c) && #[trigger] natural_order(a@, c) != Ordering::Less
                ==> natural_order(b@, c) == Ordering::Greater,
{
    natural_lexical_cmp(a, b)
}

/// Whether a text has no run of more than nineteen decimal digits.
pub fn has_short_runs(t: &str) -> (r: bool)
    ensures
        r == short_runs(t@),
{
    let v = chars_of(t);
    let mut run: usize = 0;
    let mut i: usize = 0;
    while i < v.len()
        invariant
            i <= v@.len(),
            v@ == t@,
            run <= i,
            run < 20,
            forall|k: int| i - run <= k < i ==> is_decimal(v@[k]),
            run < i ==> !is_decimal(v@[i - run - 1]),
            forall|k: int|
                0 <= k && k + 20 <= i ==> !all_decimal(#[trigger] v@.subrange(k, k + 20)),
        decreases v@.len() - i,
    {
        let digit: bool = '0' <= v[i] && v[i] <= '9';
        if digit {
            run += 1;
        } else {
            run = 0;
        }
        i += 1;
        if run == 20 {
            proof {
                let s = v@.subrange(i - 20, i as int);
                assert(all_decimal(s));
                assert(t@.subrange(i - 20, i - 20 + 20) == s);
            }
            return false;
        }
        proof {
            assert forall|k: int| 0 <= k && k + 20 <= i implies !all_decimal(
                #[trigger] v@.subrange(k, k + 20),
            ) by {
                if k + 20 == i {
                    let s = v@.subrange(k, k + 20);
                    let gap = i - run - 1 - k;
                    assert(s[gap] == v@[i - run - 1]);
                    assert(!is_decimal(s[gap]));
                }
            }
        }
    }
    true
}

/// Whether the digits that two texts have in common from a position on make a
/// number beyond 64 bits in one of them.
fn passes_64_bits(s: &Vec<char>, t: &Vec<char>, i: usize) -> (r: bool)
    requires
        i <= s@.len(),
        i <= t@.len(),
        s@.take(i as int) == t@.take(i as int),
    ensures
        r == exists|n: int| #[trigger] meet_at(s@, t@, i as int, n),
{
    let limit: u128 = 0xffff_ffff_ffff_ffff;
    let mut a: u128 = 0;
    let mut b: u128 = 0;
    let mut k: usize = i;
    assert(s@.subrange(i as int, i as int) =~= Seq::empty());
    assert(t@.subrange(i as int, i as int) =~= Seq::empty());
    while k < s.len() && k < t.len() && '0' <= s[k] && s[k] <= '9' && '0' <= t[k] && t[k] <= '9'
        invariant
            i <= k <= s@.len(),
            k <= t@.len(),
            limit == u64::MAX,
            s@.take(i as int) == t@.take(i as int),
            all_decimal(s@.subrange(i as int, k as int)),
            all_decimal(t@.subrange(i as int, k as int)),
            a == value_of(s@.subrange(i as int, k as int)),
            b == value_of(t@.subrange(i as int, k as int)),
            a <= limit,
            b <= limit,
            forall|n: int| n <= k - i ==> !#[trigger] meet_at(s@, t@, i as int, n),
        decreases s@.len() - k,
    {
        let ghost x = s@.subrange(i as int, k + 1);
        let ghost y = t@.subrange(i as int, k + 1);
        assert(x.drop_last() =~= s@.subrange(i as int, k as int));
        assert(y.drop_last() =~= t@.subrange(i as int, k as int));
        a = a * 10 + (s[k] as u32 - 48) as u128;
        b = b * 10 + (t[k] as u32 - 48) as u128;
        proof {
            assert(all_decimal(x)) by {
                assert forall|m: int| 0 <= m < x.len() implies is_decimal(#[trigger] x[m]) by {
                    if m < k - i {
                        assert(x[m] == s@.subrange(i as int, k as int)[m]);
                    }
                }
            }
            assert(all_decimal(y)) by {
                assert forall|m: int| 0 <= m < y.len() implies is_decimal(#[trigger] y[m]) by {
                    if m < k - i {
                        assert(y[m] == t@.subrange(i as int, k as int)[m]);
                    }
                }
            }
            assert(a == value_of(x));
            assert(b == value_of(y));
        }
        if a > limit || b > limit {
            assert(meet_at(s@, t@, i as int, k + 1 - i));
            return true;
        }
        assert(!meet_at(s@, t@, i as int, k + 1 - i));
        k += 1;
    }
    assert forall|n: int| !#[trigger] meet_at(s@, t@, i as int, n) by {
        if n > k - i && meet_at(s@, t@, i as int, n) {
            assert(s@.subrange(i as int, i + n)[k - i] == s@[k as int]);
            assert(t@.subrange(i as int, i + n)[k - i] == t@[k as int]);
        }
    }
    false
}

fn do_meet(s: &Vec<char>, t: &Vec<char>) -> (r: bool)
    ensures
        r == meet(s@, t@),
{
    let mut i: usize = 0;
    while i < s.len() && i < t.len()
        invariant
            i <= s@.len(),
            i <= t@.len(),
            s@.take(i as int) == t@.take(i as int),
            forall|k: int, n: int| k < i ==> !#[trigger] meet_at(s@, t@, k, n),
        decreases s@.len() - i,
    {
        if passes_64_bits(s, t, i) {
            return true;
        }
        if s[i] != t[i] {
            assert forall|k: int, n: int| !#[trigger] meet_at(s@, t@, k, n) by {
                if meet_at(s@, t@, k, n) && k > i {
                    assert(s@.take(k)[i as int] == s@[i as int]);
                    assert(t@.take(k)[i as int] == t@[i as int]);
                }
            }
            return false;
        }
        assert(s@.take(i + 1) =~= s@.take(i as int).push(s@[i as int]));
        assert(t@.take(i + 1) =~= t@.take(i as int).push(t@[i as int]));
        i += 1;
    }
    assert forall|k: int, n: int| !#[trigger] meet_at(s@, t@, k, n) by {
        if k >= i && meet_at(s@, t@, k, n) {
            assert(n == 0);
            assert(s@.subrange(k, k + n) =~= Seq::empty());
            assert(t@.subrange(k, k + n) =~= Seq::empty());
        }
    }
    false
}

/// Whether two names cannot be ordered.
pub fn names_clash(a: &str, b: &str) -> (r: bool)
    ensures
        r == clash(a@, b@),
{
    do_meet(&chars_of(lexical_form(a).as_str()), &chars_of(lexical_form(b).as_str()))
}

// ---------------------------------------------------------------------------
// Entries
// ---------------------------------------------------------------------------

/// Whether text `a` comes before `b` by its characters.
pub open spec fn text_before(a: Seq<char>, b: Seq<char>) -> bool
    decreases a.len(),
{
    if b.len() == 0 {
        false
    } else if a.len() == 0 {
        true
    } else {
        a[0] < b[0] || (a[0] == b[0] && text_before(a.skip(1), b.skip(1)))
    }
}

/// How two numbers compare: negative, zero or positive.
pub open spec fn number_sign(a: int, b: int) -> int {
    if a < b {
        -1
    } else if a == b {
        0
    } else {
        1
    }
}

/// How two times compare.
pub open spec fn time_sign(a: FileTime, b: FileTime) -> int {
    if earlier(a, b) {
        -1
    } else if earlier(b, a) {
        1
    } else {
        0
    }
}

/// How two optional texts compare: a missing one comes first.
pub open spec fn opt_sign(a: Option<Seq<char>>, b: Option<Seq<char>>) -> int {
    match (a, b) {
        (None, None) => 0,
        (None, Some(_)) => -1,
        (Some(_), None) => 1,
        (Some(x), Some(y)) => if text_before(x, y) {
            -1
        } else if x == y {
            0
        } else {
            1
        },
    }
}

/// How two names compare.
pub open spec fn name_sign(a: Seq<char>, b: Seq<char>) -> int {
    match natural_order(a, b) {
        Ordering::Less => -1,
        Ordering::Equal => 0,
        Ordering::Greater => 1,
    }
}

/// How two entries compare by a key.
pub open spec fn key_sign(a: EntryView, b: EntryView, key: SortKey) -> int {
    match key {
        SortKey::Name => name_sign(a.display_name, b.display_name),
        SortKey::Size => number_sign(a.size as int, b.size as int),
        SortKey::Mtime => time_sign(a.mtime, b.mtime),
        SortKey::Kind => opt_sign(a.mime, b.mime),
    }
}

/// How two entries compare: directories come first whatever the key and
/// direction.
pub open spec fn entry_sign(a: EntryView, b: EntryView, key: SortKey, order: SortOrder) -> int {
    let da = a.file_type == FileType::Directory;
    let db = b.file_type == FileType::Directory;
    if da && !db {
        -1
    } else if db && !da {
        1
    } else if order == SortOrder::Descending {
        -key_sign(a, b, key)
    } else {
        key_sign(a, b, key)
    }
}

/// Whether two entries can be compared by a key: their names can be ordered, or
/// do not matter.
pub open spec fn comparable(a: EntryView, b: EntryView, key: SortKey) -> bool {
    let da = a.file_type == FileType::Directory;
    let db = b.file_type == FileType::Directory;
    key == SortKey::Name && da == db ==> !clash(a.display_name, b.display_name)
}

/// Whether what is known of `a` and `b` chains with every third entry.
pub open spec fn chains(a: EntryView, b: EntryView, r: int, key: SortKey, order: SortOrder) -> bool {
    forall|c: EntryView|
        comparable(a, c, key) && comparable(b, c, key) ==> {
            &&& r < 0 && #[trigger] entry_sign(b, c, key, order) <= 0 ==> entry_sign(
                a,
                c,
                key,
                order,
            ) < 0
            &&& r == 0 ==> entry_sign(a, c, key, order) == entry_sign(b, c, key, order)
            &&& r > 0 && entry_sign(a, c, key, order) <= 0 ==> entry_sign(b, c, key, order) < 0
        }
}

pub proof fn lemma_text_order(a: Seq<char>, b: Seq<char>, c: Seq<char>)
    ensures
        text_before(a, b) ==> !text_before(b, a) && a != b,
        a != b && !text_before(a, b) ==> text_before(b, a),
        text_before(a, b) && text_before(b, c) ==> text_before(a, c),
    decreases a.len(),
{
    if a.len() > 0 && b.len() > 0 {
        let x = a.skip(1);
        let y = b.skip(1);
        if c.len() > 0 {
            lemma_text_order(x, y, c.skip(1));
        } else {
            lemma_text_order(x, y, c);
        }
        if a[0] == b[0] && x == y {
            assert(a =~= seq![a[0]] + x);
            assert(b =~= seq![b[0]] + y);
        }
    } else if a.len() == 0 && b.len() == 0 {
        assert(a =~= b);
    }
}

fn text_sign(a: &str, b: &str) -> (r: i8)
    ensures
        r == if text_before(a@, b@) {
            -1int
        } else if a@ == b@ {
            0
        } else {
            1
        },
{
    let x = chars_of(a);
    let y = chars_of(b);
    let mut i: usize = 0;
    assert(a@.skip(0) =~= a@);
    assert(b@.skip(0) =~= b@);
    while i < x.len() && i < y.len() && x[i] == y[i]
        invariant
            i <= x@.len(),
            i <= y@.len(),
            x@ == a@,
            y@ == b@,
            text_before(a@, b@) == text_before(a@.skip(i as int), b@.skip(i as int)),
            a@.take(i as int) == b@.take(i as int),
        decreases x@.len() - i,
    {
        proof {
            assert(a@.skip(i as int).skip(1) =~= a@.skip(i + 1));
            assert(b@.skip(i as int).skip(1) =~= b@.skip(i + 1));
            assert(a@.take(i + 1) =~= a@.take(i as int).push(a@[i as int]));
            assert(b@.take(i + 1) =~= b@.take(i as int).push(b@[i as int]));
        }
        i += 1;
    }
    if i < y.len() && (i == x.len() || x[i] < y[i]) {
        -1
    } else if i == x.len() && i == y.len() {
        assert(a@.take(i as int) =~= a@);
        assert(b@.take(i as int) =~= b@);
        proof {
            lemma_text_order(a@, b@, a@);
        }
        0
    } else {
        1
    }
}

fn compare_numbers(a: u64, b: u64) -> (r: i8)
    ensures
        r == number_sign(a as int, b as int),
{
    if a < b {
        -1
    } else if a == b {
        0
    } else {
        1
    }
}

/// Whether what is known of two names chains with every third name.
pub open spec fn names_chain(a: Seq<char>, b: Seq<char>, r: int) -> bool {
    &&& r == 0 ==> a == b
    &&& r < 0 ==> forall|c: Seq<char>|
        !clash(a, c) && !clash(b, c) && #[trigger] name_sign(b, c) <= 0 ==> name_sign(a, c) < 0
    &&& r > 0 ==> forall|c: Seq<char>|
        !clash(a, c) && !clash(b, c) && #[trigger] name_sign(b, c) >= 0 ==> name_sign(a, c) > 0
    &&& r > 0 ==> forall|c: Seq<char>|
        !clash(a, c) && !clash(b, c) && #[trigger] name_sign(a, c) <= 0 ==> name_sign(b, c) < 0
    &&& r < 0 ==> forall|c: Seq<char>|
        !clash(a, c) && !clash(b, c) && #[trigger] name_sign(a, c) >= 0 ==> name_sign(b, c) > 0
}

fn compare_names(a: &str, b: &str) -> (r: i8)
    requires
        !clash(a@, b@),
    ensures
        r == name_sign(a@, b@),
        name_sign(b@, a@) == -r,
        names_chain(a@, b@, name_sign(a@, b@)),
{
    match natural_cmp(a, b) {
        Ordering::Less => -1,
        Ordering::Equal => 0,
        Ordering::Greater => 1,
    }
}

fn compare_times(a: FileTime, b: FileTime) -> (r: i8)
    ensures
        r == time_sign(a, b),
{
    if a.before(&b) {
        -1
    } else if b.before(&a) {
        1
    } else {
        0
    }
}

fn compare_kinds(a: &Option<String>, b: &Option<String>) -> (r: i8)
    ensures
        r == opt_sign(opt_view(*a), opt_view(*b)),
        opt_sign(opt_view(*b), opt_view(*a)) == -r,
{
    proof {
        if a is Some && b is Some {
            lemma_text_order(a->0@, b->0@, a->0@);
            lemma_text_order(b->0@, a->0@, b->0@);
        }
    }
    match (a, b) {
        (None, None) => 0,
        (None, Some(_)) => -1,
        (Some(_), None) => 1,
        (Some(x), Some(y)) => text_sign(x.as_str(), y.as_str()),
    }
}

/// Compares two entries.
pub fn compare_entries(a: &FileEntry, b: &FileEntry, key: SortKey, order: SortOrder) -> (r: i8)
    requires
        comparable(a@, b@, key),
    ensures
        r == entry_sign(a@, b@, key, order),
        entry_sign(b@, a@, key, order) == -r,
        chains(a@, b@, r as int, key, order),
{
    let da: bool = a.is_dir();
    let db: bool = b.is_dir();
    let r: i8 = if da && !db {
        -1
    } else if db && !da {
        1
    } else {
        let base: i8 = match key {
            SortKey::Name => compare_names(a.display_name.as_str(), b.display_name.as_str()),
            SortKey::Size => compare_numbers(a.size, b.size),
            SortKey::Mtime => compare_times(a.mtime, b.mtime),
            SortKey::Kind => compare_kinds(&a.mime, &b.mime),
        };
        if order == SortOrder::Descending {
            -base
        } else {
            base
        }
    };
    proof {
        lemma_chains(a@, b@, r as int, key, order);
    }
    r
}

proof fn lemma_chains(a: EntryView, b: EntryView, r: int, key: SortKey, order: SortOrder)
    requires
        r == entry_sign(a, b, key, order),
        key == SortKey::Name && (a.file_type == FileType::Directory) == (b.file_type
            == FileType::Directory) ==> names_chain(
            a.display_name,
            b.display_name,
            key_sign(a, b, key),
        ),
    ensures
        chains(a, b, r, key, order),
{
    assert forall|c: EntryView| comparable(a, c, key) && comparable(b, c, key) implies {
        &&& r < 0 && #[trigger] entry_sign(b, c, key, order) <= 0 ==> entry_sign(a, c, key, order)
            < 0
        &&& r == 0 ==> entry_sign(a, c, key, order) == entry_sign(b, c, key, order)
        &&& r > 0 && entry_sign(a, c, key, order) <= 0 ==> entry_sign(b, c, key, order) < 0
    } by {
        match key {
            SortKey::Name => {
                let x = name_sign(a.display_name, c.display_name);
                let y = name_sign(b.display_name, c.display_name);
            },
            SortKey::Size => {},
            SortKey::Mtime => {},
            SortKey::Kind => {
                if a.mime is Some && b.mime is Some && c.mime is Some {
                    lemma_text_order(a.mime->0, b.mime->0, c.mime->0);
                    lemma_text_order(b.mime->0, c.mime->0, a.mime->0);
                    lemma_text_order(c.mime->0, a.mime->0, b.mime->0);
                    lemma_text_order(b.mime->0, a.mime->0, c.mime->0);
                    lemma_text_order(a.mime->0, c.mime->0, b.mime->0);
                    lemma_text_order(c.mime->0, b.mime->0, a.mime->0);
                }
            },
        }
    }
}

// ---------------------------------------------------------------------------
// Sorting
// ---------------------------------------------------------------------------

/// Whether the row at position `p` comes before the one at position `q`: by the
/// order of the entries, and by position where that does not decide.
pub open spec fn comes_before(
    es: Seq<EntryView>,
    rows: Seq<usize>,
    key: SortKey,
    order: SortOrder,
    p: usize,
    q: usize,
) -> bool {
    let s = entry_sign(es[rows[p as int] as int], es[rows[q as int] as int], key, order);
    s < 0 || (s == 0 && p < q)
}

/// Whether each position comes before all later ones of a list.
pub open spec fn in_order(
    es: Seq<EntryView>,
    rows: Seq<usize>,
    key: SortKey,
    order: SortOrder,
    v: Seq<usize>,
) -> bool {
    forall|k: int, l: int|
        0 <= k < l < v.len() ==> comes_before(es, rows, key, order, #[trigger] v[k], #[trigger] v[l])
}

/// Whether all rows name entries.
pub open spec fn rows_exist(es: Seq<EntryView>, rows: Seq<usize>) -> bool {
    forall|k: int| 0 <= k < rows.len() ==> (#[trigger] rows[k]) < es.len()
}

/// Whether any two rows name entries that can be compared.
pub open spec fn sortable(es: Seq<EntryView>, rows: Seq<usize>, key: SortKey) -> bool {
    &&& rows_exist(es, rows)
    &&& forall|k: int, l: int|
        0 <= k < rows.len() && 0 <= l < rows.len() && k != l ==> comparable(
            es[#[trigger] rows[k] as int],
            es[#[trigger] rows[l] as int],
            key,
        )
}

/// Whether `after` are the rows `before` in order, those that compare equal as
/// they stood: `moved` says from which position each row came.
pub open spec fn sorted_from(
    es: Seq<EntryView>,
    before: Seq<usize>,
    after: Seq<usize>,
    key: SortKey,
    order: SortOrder,
    moved: Seq<usize>,
) -> bool {
    &&& after.len() == before.len()
    &&& moved.len() == before.len()
    &&& moved.no_duplicates()
    &&& forall|k: int|
        0 <= k < moved.len() ==> (#[trigger] moved[k]) < before.len() && after[k]
            == before[moved[k] as int]
    &&& in_order(es, before, key, order, moved)
}

proof fn lemma_pushed(s: Seq<usize>, t: Seq<usize>, u: Seq<usize>, p: usize)
    requires
        forall|x: usize| #[trigger] s.contains(x) <==> t.contains(x) || u.contains(x),
        s.no_duplicates(),
        !t.contains(p),
        !u.contains(p),
    ensures
        s.push(p).no_duplicates(),
        forall|x: usize| #[trigger]
            s.push(p).contains(x) <==> t.push(p).contains(x) || u.contains(x),
{
    assert forall|x: usize| #[trigger]
        s.push(p).contains(x) <==> t.push(p).contains(x) || u.contains(x) by {
        vstd::seq_lib::lemma_seq_contains_after_push(s, p, x);
        vstd::seq_lib::lemma_seq_contains_after_push(t, p, x);
        assert(s.contains(x) <==> t.contains(x) || u.contains(x));
    }
    assert(!s.contains(p));
    let r = s.push(p);
    assert forall|i: int, j: int| 0 <= i < r.len() && 0 <= j < r.len() && i != j implies r[i]
        != r[j] by {
        if i < s.len() {
            assert(s.contains(s[i]));
        }
        if j < s.len() {
            assert(s.contains(s[j]));
        }
    }
}

fn merge(
    entries: &Vec<FileEntry>,
    rows: &Vec<usize>,
    key: SortKey,
    order: SortOrder,
    a: &Vec<usize>,
    b: &Vec<usize>,
) -> (out: Vec<usize>)
    requires
        sortable(entry_views(entries@), rows@, key),
        in_order(entry_views(entries@), rows@, key, order, a@),
        in_order(entry_views(entries@), rows@, key, order, b@),
        a@.no_duplicates(),
        b@.no_duplicates(),
        forall|k: int| 0 <= k < a@.len() ==> (#[trigger] a@[k]) < rows@.len(),
        forall|k: int| 0 <= k < b@.len() ==> (#[trigger] b@[k]) < rows@.len(),
        forall|k: int, l: int|
            0 <= k < a@.len() && 0 <= l < b@.len() ==> #[trigger] a@[k] < #[trigger] b@[l],
        a@.len() + b@.len() <= usize::MAX,
    ensures
        in_order(entry_views(entries@), rows@, key, order, out@),
        out@.no_duplicates(),
        out@.len() == a@.len() + b@.len(),
        forall|x: usize| #[trigger] out@.contains(x) <==> a@.contains(x) || b@.contains(x),
{
    let ghost es = entry_views(entries@);
    let mut out: Vec<usize> = Vec::new();
    let mut i: usize = 0;
    let mut j: usize = 0;
    while i < a.len() || j < b.len()
        invariant
            es == entry_views(entries@),
            i <= a@.len(),
            j <= b@.len(),
            a@.len() + b@.len() <= usize::MAX,
            sortable(es, rows@, key),
            in_order(es, rows@, key, order, a@),
            in_order(es, rows@, key, order, b@),
            a@.no_duplicates(),
            b@.no_duplicates(),
            forall|k: int| 0 <= k < a@.len() ==> (#[trigger] a@[k]) < rows@.len(),
            forall|k: int| 0 <= k < b@.len() ==> (#[trigger] b@[k]) < rows@.len(),
            forall|k: int, l: int|
                0 <= k < a@.len() && 0 <= l < b@.len() ==> #[trigger] a@[k] < #[trigger] b@[l],
            out@.len() == i + j,
            in_order(es, rows@, key, order, out@),
            out@.no_duplicates(),
            forall|x: usize| #[trigger]
                out@.contains(x) <==> a@.take(i as int).contains(x) || b@.take(j as int).contains(
                    x,
                ),
            forall|k: int, l: int|
                0 <= k < out@.len() && i <= l < a@.len() ==> comes_before(
                    es,
                    rows@,
                    key,
                    order,
                    #[trigger] out@[k],
                    #[trigger] a@[l],
                ),
            forall|k: int, l: int|
                0 <= k < out@.len() && j <= l < b@.len() ==> comes_before(
                    es,
                    rows@,
                    key,
                    order,
                    #[trigger] out@[k],
                    #[trigger] b@[l],
                ),
        decreases a@.len() - i + b@.len() - j,
    {
        let ghost before = out@;
        let from_a: bool = if i == a.len() {
            false
        } else if j == b.len() {
            true
        } else {
            let p: usize = a[i];
            let q: usize = b[j];
            let x: usize = rows[p];
            let y: usize = rows[q];
            assert(es[x as int] == entries@[x as int]@);
            assert(es[y as int] == entries@[y as int]@);
            let s: i8 = compare_entries(&entries[x], &entries[y], key, order);
            proof {
                if s <= 0 {
                    assert forall|l: int| j <= l < b@.len() implies comes_before(
                        es,
                        rows@,
                        key,
                        order,
                        p,
                        #[trigger] b@[l],
                    ) by {
                        if l > j {
                            assert(comes_before(es, rows@, key, order, b@[j as int], b@[l]));
                            let c = es[rows@[b@[l] as int] as int];
                            assert(comparable(es[x as int], c, key));
                            assert(comparable(es[y as int], c, key));
                            assert(entry_sign(es[y as int], c, key, order) <= 0);
                            assert(a@[i as int] < b@[l]);
                        }
                    }
                } else {
                    assert forall|l: int| i <= l < a@.len() implies comes_before(
                        es,
                        rows@,
                        key,
                        order,
                        q,
                        #[trigger] a@[l],
                    ) by {
                        let c = es[rows@[a@[l] as int] as int];
                        if l > i {
                            assert(comparable(es[x as int], c, key));
                            assert(comparable(es[y as int], c, key));
                            assert(comes_before(es, rows@, key, order, a@[i as int], a@[l]));
                            assert(entry_sign(es[x as int], c, key, order) <= 0);
                            assert(entry_sign(es[y as int], c, key, order) < 0);
                        } else {
                            assert(entry_sign(es[y as int], es[x as int], key, order) < 0);
                        }
                    }
                }
            }
            s <= 0
        };
        if from_a {
            let p: usize = a[i];
            out.push(p);
            proof {
                assert(a@.take(i + 1) =~= a@.take(i as int).push(p));
                assert(!a@.take(i as int).contains(p));
                assert(!b@.take(j as int).contains(p));
                lemma_pushed(before, a@.take(i as int), b@.take(j as int), p);
                assert(out@ =~= before.push(p));
            }
            i += 1;
        } else {
            let q: usize = b[j];
            out.push(q);
            proof {
                assert(b@.take(j + 1) =~= b@.take(j as int).push(q));
                assert(!b@.take(j as int).contains(q));
                assert(!a@.take(i as int).contains(q));
                lemma_pushed(before, b@.take(j as int), a@.take(i as int), q);
                assert(out@ =~= before.push(q));
            }
            j += 1;
        }
    }
    assert(a@.take(a@.len() as int) =~= a@);
    assert(b@.take(b@.len() as int) =~= b@);
    out
}

fn sort_positions(
    entries: &Vec<FileEntry>,
    rows: &Vec<usize>,
    key: SortKey,
    order: SortOrder,
    lo: usize,
    hi: usize,
) -> (out: Vec<usize>)
    requires
        sortable(entry_views(entries@), rows@, key),
        lo <= hi <= rows@.len(),
    ensures
        in_order(entry_views(entries@), rows@, key, order, out@),
        out@.no_duplicates(),
        out@.len() == hi - lo,
        forall|x: usize| #[trigger] out@.contains(x) <==> lo <= x < hi,
    decreases hi - lo,
{
    if hi - lo <= 1 {
        let mut v: Vec<usize> = Vec::new();
        if lo < hi {
            v.push(lo);
            assert(v@[0] == lo);
        }
        return v;
    }
    let mid: usize = lo + (hi - lo) / 2;
    let a = sort_positions(entries, rows, key, order, lo, mid);
    let b = sort_positions(entries, rows, key, order, mid, hi);
    proof {
        assert forall|k: int| 0 <= k < a@.len() implies lo <= #[trigger] a@[k] < mid by {
            assert(a@.contains(a@[k]));
        }
        assert forall|k: int| 0 <= k < b@.len() implies mid <= #[trigger] b@[k] < hi by {
            assert(b@.contains(b@[k]));
        }
    }
    merge(entries, rows, key, order, &a, &b)
}

/// Sorts rows by the entries they name. Directories come first, and rows that
/// compare equal stay as they stood.
pub fn sort_indices(
    indices: &mut Vec<usize>,
    entries: &Vec<FileEntry>,
    key: SortKey,
    order: SortOrder,
)
    requires
        sortable(entry_views(entries@), old(indices)@, key),
    ensures
        exists|moved: Seq<usize>|
            sorted_from(
                entry_views(entries@),
                old(indices)@,
                final(indices)@,
                key,
                order,
                moved,
            ),
{
    let n: usize = indices.len();
    let moved = sort_positions(entries, indices, key, order, 0, n);
    let mut out: Vec<usize> = Vec::new();
    let mut k: usize = 0;
    let ghost before = indices@;
    assert forall|m: int| 0 <= m < moved@.len() implies (#[trigger] moved@[m]) < n by {
        assert(moved@.contains(moved@[m]));
    }
    while k < n
        invariant
            k <= n,
            n == indices@.len(),
            indices@ == before,
            moved@.len() == n,
            forall|m: int| 0 <= m < moved@.len() ==> (#[trigger] moved@[m]) < n,
            out@.len() == k,
            forall|m: int| 0 <= m < k ==> out@[m] == before[moved@[m] as int],
        decreases n - k,
    {
        out.push(indices[moved[k]]);
        k += 1;
    }
    *indices = out;
    assert(sorted_from(entry_views(entries@), before, indices@, key, order, moved@));
}

/// Where a name with long runs of digits stands, with what is compared of it.
struct LongName {
    row: usize,
    dir: bool,
    form: Vec<char>,
}

/// Whether a long name is the one at its row.
spec fn is_long_name(es: Seq<EntryView>, rows: Seq<usize>, n: LongName) -> bool {
    &&& n.row < rows.len()
    &&& rows[n.row as int] < es.len()
    &&& n.dir == (es[rows[n.row as int] as int].file_type == FileType::Directory)
    &&& n.form@ == lexical(es[rows[n.row as int] as int].display_name)
}

/// Whether the name at row `i` can be compared with those of the rows before
/// `upto`.
spec fn no_clash_with(es: Seq<EntryView>, rows: Seq<usize>, i: int, upto: int) -> bool {
    forall|k: int|
        0 <= k < upto ==> comparable(
            es[#[trigger] rows[k] as int],
            es[rows[i] as int],
            SortKey::Name,
        )
}

spec fn ten_to(n: int) -> int
    decreases n,
{
    if n <= 0 {
        1
    } else {
        10 * ten_to(n - 1)
    }
}

proof fn lemma_few_digits(s: Seq<char>)
    requires
        all_decimal(s),
    ensures
        value_of(s) < ten_to(s.len() as int),
    decreases s.len(),
{
    if s.len() > 0 {
        assert(all_decimal(s.drop_last()));
        lemma_few_digits(s.drop_last());
        assert(is_decimal(s[s.len() - 1]));
    }
}

proof fn lemma_ten_to_grows(n: int, m: int)
    requires
        n <= m,
    ensures
        1 <= ten_to(n) <= ten_to(m),
    decreases m,
{
    if m > 0 {
        lemma_ten_to_grows(if n < m { n } else { m - 1 }, m - 1);
    }
}

proof fn lemma_passing_takes_twenty(s: Seq<char>, i: int, n: int)
    requires
        0 <= i,
        0 <= n,
        i + n <= s.len(),
        all_decimal(s.subrange(i, i + n)),
        value_of(s.subrange(i, i + n)) > u64::MAX,
    ensures
        n >= 20,
{
    lemma_few_digits(s.subrange(i, i + n));
    if n < 20 {
        lemma_ten_to_grows(n, 19);
        reveal_with_fuel(ten_to, 20);
    }
}

pub proof fn lemma_short_runs_never_meet(s: Seq<char>, t: Seq<char>)
    requires
        short_runs(s) || short_runs(t),
    ensures
        !meet(s, t),
        !meet(t, s),
{
    assert forall|i: int, n: int| !#[trigger] meet_at(s, t, i, n) by {
        if meet_at(s, t, i, n) {
            let x = s.subrange(i, i + n);
            let y = t.subrange(i, i + n);
            if value_of(x) > u64::MAX {
                lemma_passing_takes_twenty(s, i, n);
            } else {
                lemma_passing_takes_twenty(t, i, n);
            }
            assert(all_decimal(s.subrange(i, i + 20))) by {
                assert forall|m: int| 0 <= m < 20 implies is_decimal(
                    #[trigger] s.subrange(i, i + 20)[m],
                ) by {
                    assert(is_decimal(x[m]));
                }
            }
            assert(all_decimal(t.subrange(i, i + 20))) by {
                assert forall|m: int| 0 <= m < 20 implies is_decimal(
                    #[trigger] t.subrange(i, i + 20)[m],
                ) by {
                    assert(is_decimal(y[m]));
                }
            }
        }
    }
    lemma_meet_either_way(s, t);
}

/// Whether any two of the rows name entries that can be compared by the key.
pub fn all_comparable(entries: &Vec<FileEntry>, rows: &Vec<usize>, key: SortKey) -> (r: bool)
    requires
        rows_exist(entry_views(entries@), rows@),
    ensures
        r == sortable(entry_views(entries@), rows@, key),
{
    let ghost es = entry_views(entries@);
    if key != SortKey::Name {
        return true;
    }
    let mut long: Vec<LongName> = Vec::new();
    let mut i: usize = 0;
    while i < rows.len()
        invariant
            i <= rows@.len(),
            es == entry_views(entries@),
            key == SortKey::Name,
            rows_exist(es, rows@),
            forall|m: int|
                0 <= m < long@.len() ==> is_long_name(es, rows@, #[trigger] long@[m])
                    && long@[m].row < i,
            forall|k: int|
                0 <= k < i ==> short_runs(lexical(es[#[trigger] rows@[k] as int].display_name))
                    || exists|m: int| 0 <= m < long@.len() && (#[trigger] long@[m]).row == k,
            forall|k: int| 0 <= k < i ==> #[trigger] no_clash_with(es, rows@, k, k),
        decreases rows@.len() - i,
    {
        let x: usize = rows[i];
        let e = &entries[x];
        assert(es[x as int] == e@);
        let form = lexical_form(e.display_name.as_str());
        if has_short_runs(form.as_str()) {
            assert forall|k: int| 0 <= k < i implies comparable(
                es[#[trigger] rows@[k] as int],
                es[rows@[i as int] as int],
                SortKey::Name,
            ) by {
                lemma_short_runs_never_meet(
                    lexical(es[rows@[k] as int].display_name),
                    lexical(e@.display_name),
                );
            }
            assert(no_clash_with(es, rows@, i as int, i as int));
        } else {
            let name = LongName { row: i, dir: e.is_dir(), form: chars_of(form.as_str()) };
            let mut j: usize = 0;
            while j < long.len()
                invariant
                    j <= long@.len(),
                    i < rows@.len(),
                    x == rows@[i as int],
                    es == entry_views(entries@),
                    key == SortKey::Name,
                    rows_exist(es, rows@),
                    is_long_name(es, rows@, name),
                    name.row == i,
                    forall|m: int|
                        0 <= m < long@.len() ==> is_long_name(es, rows@, #[trigger] long@[m])
                            && long@[m].row < i,
                    forall|m: int|
                        0 <= m < j ==> comparable(
                            es[rows@[(#[trigger] long@[m]).row as int] as int],
                            es[x as int],
                            SortKey::Name,
                        ),
                decreases long@.len() - j,
            {
                let other = &long[j];
                let ghost k = other.row as int;
                assert(is_long_name(es, rows@, long@[j as int]));
                if other.dir == name.dir && do_meet(&other.form, &name.form) {
                    assert(!comparable(es[rows@[k] as int], es[rows@[i as int] as int], key));
                    assert(!sortable(es, rows@, key));
                    return false;
                }
                j += 1;
            }
            assert forall|k: int| 0 <= k < i implies comparable(
                es[#[trigger] rows@[k] as int],
                es[rows@[i as int] as int],
                SortKey::Name,
            ) by {
                let s = lexical(es[rows@[k] as int].display_name);
                if short_runs(s) {
                    lemma_short_runs_never_meet(s, lexical(e@.display_name));
                } else {
                    let m = choose|m: int| 0 <= m < long@.len() && (#[trigger] long@[m]).row == k;
                    assert(comparable(es[rows@[long@[m].row as int] as int], es[x as int], SortKey::Name));
                }
            }
            assert(no_clash_with(es, rows@, i as int, i as int));
            let ghost before = long@;
            long.push(name);
            proof {
                assert forall|k: int| 0 <= k < i + 1 implies short_runs(
                    lexical(es[#[trigger] rows@[k] as int].display_name),
                ) || exists|m: int| 0 <= m < long@.len() && (#[trigger] long@[m]).row == k by {
                    if k == i {
                        assert(long@[before.len() as int].row == k);
                    } else if !short_runs(lexical(es[rows@[k] as int].display_name)) {
                        let m = choose|m: int|
                            0 <= m < before.len() && (#[trigger] before[m]).row == k;
                        assert(long@[m].row == k);
                    }
                }
            }
        }
        i += 1;
    }
    proof {
        assert forall|k: int, l: int|
            0 <= k < rows@.len() && 0 <= l < rows@.len() && k != l implies comparable(
            es[#[trigger] rows@[k] as int],
            es[#[trigger] rows@[l] as int],
            key,
        ) by {
            if k < l {
                assert(no_clash_with(es, rows@, l, l));
            } else {
                assert(no_clash_with(es, rows@, k, k));
                lemma_meet_either_way(
                    lexical(es[rows@[k] as int].display_name),
                    lexical(es[rows@[l] as int].display_name),
                );
            }
        }
    }
    true
}

proof fn lemma_meet_either_way(s: Seq<char>, t: Seq<char>)
    ensures
        meet(s, t) == meet(t, s),
{
    if meet(s, t) {
        let (i, n) = choose|i: int, n: int| #[trigger] meet_at(s, t, i, n);
        assert(meet_at(t, s, i, n));
    }
    if meet(t, s) {
        let (i, n) = choose|i: int, n: int| #[trigger] meet_at(t, s, i, n);
        assert(meet_at(s, t, i, n));
    }
}

/// Rows that were sorted have the folders before everything else.
pub proof fn folders_come_first(
    es: Seq<EntryView>,
    before: Seq<usize>,
    after: Seq<usize>,
    key: SortKey,
    order: SortOrder,
    moved: Seq<usize>,
    i: int,
    j: int,
)
    requires
        sorted_from(es, before, after, key, order, moved),
        0 <= i < j < after.len(),
        es[after[j] as int].file_type == FileType::Directory,
    ensures
        es[after[i] as int].file_type == FileType::Directory,
{
    assert(comes_before(es, before, key, order, moved[i], moved[j]));
    assert(after[i] == before[moved[i] as int]);
    assert(after[j] == before[moved[j] as int]);
}

/// Sorting keeps every row: the sorted rows are the rows that were there.
pub proof fn sorting_keeps_the_rows(
    es: Seq<EntryView>,
    before: Seq<usize>,
    after: Seq<usize>,
    key: SortKey,
    order: SortOrder,
    moved: Seq<usize>,
)
    requires
        sorted_from(es, before, after, key, order, moved),
        before.len() <= usize::MAX,
    ensures
        after.to_set() == before.to_set(),
        before.no_duplicates() ==> after.no_duplicates(),
{
    let n = before.len() as int;
    let full = Set::new(|x: usize| x < n);
    let got = moved.to_set();
    assert(got.subset_of(full)) by {
        assert forall|x: usize| got.contains(x) implies full.contains(x) by {
            let k = choose|k: int| 0 <= k < moved.len() && moved[k] == x;
            assert(moved[k] < before.len());
        }
    }
    lemma_below_len(n);
    moved.unique_seq_to_set();
    vstd::set_lib::lemma_subset_equality(got, full);
    assert forall|x: usize| before.to_set().contains(x) implies after.to_set().contains(x) by {
        let p = choose|p: int| 0 <= p < before.len() && before[p] == x;
        assert(full.contains(p as usize));
        assert(got.contains(p as usize));
        let k = choose|k: int| 0 <= k < moved.len() && moved[k] == p as usize;
        assert(after[k] == before[moved[k] as int]);
    }
    assert forall|x: usize| after.to_set().contains(x) implies before.to_set().contains(x) by {
        let k = choose|k: int| 0 <= k < after.len() && after[k] == x;
        assert(after[k] == before[moved[k] as int]);
    }
    assert(after.to_set() =~= before.to_set());
    if before.no_duplicates() {
        assert forall|i: int, j: int|
            0 <= i < after.len() && 0 <= j < after.len() && i != j implies after[i] != after[j] by {
            assert(moved[i] != moved[j]);
            assert(after[i] == before[moved[i] as int]);
            assert(after[j] == before[moved[j] as int]);
        }
    }
}

proof fn lemma_below_len(n: int)
    requires
        0 <= n <= usize::MAX,
    ensures
        Set::new(|x: usize| x < n).finite(),
        Set::new(|x: usize| x < n).len() == n,
    decreases n,
{
    let s = Set::new(|x: usize| x < n);
    if n == 0 {
        assert(s =~= Set::empty());
    } else {
        lemma_below_len(n - 1);
        let t = Set::new(|x: usize| x < n - 1);
        assert(s =~= t.insert((n - 1) as usize));
    }
}

} // verus!
