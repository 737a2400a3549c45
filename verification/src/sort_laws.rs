//! What a sorted listing looks like, by what the entries themselves say.
use crate::sort_select::{
    comes_before, entry_sign, lemma_text_order, natural_order, sorted_from, text_before, SortKey,
    SortOrder,
};
use crate::types::{EntryView, FileType};
use core::cmp::Ordering;
use vstd::prelude::*;

verus! {

/// Whether the rows at `i` and `j` are in the same group: both are folders, or
/// neither is.
pub open spec fn same_group(es: Seq<EntryView>, rows: Seq<usize>, i: int, j: int) -> bool {
    (es[rows[i] as int].file_type == FileType::Directory) == (es[rows[j] as int].file_type
        == FileType::Directory)
}

/// The name that the row at `i` shows.
pub open spec fn row_name(es: Seq<EntryView>, rows: Seq<usize>, i: int) -> Seq<char> {
    es[rows[i] as int].display_name
}

proof fn lemma_row_order(
    es: Seq<EntryView>,
    before: Seq<usize>,
    after: Seq<usize>,
    key: SortKey,
    order: SortOrder,
    moved: Seq<usize>,
    i: int,
    j: int,
)
    requires
        sorted_from(es, before, after, key, order, moved),
        0 <= i < j < after.len(),
    ensures
        ({
            let s = entry_sign(es[after[i] as int], es[after[j] as int], key, order);
            s < 0 || (s == 0 && moved[i] < moved[j])
        }),
{
    assert(comes_before(es, before, key, order, moved[i], moved[j]));
    assert(after[i] == before[moved[i] as int]);
    assert(after[j] == before[moved[j] as int]);
}

/// Rows sorted by modification time run from the earliest time to the latest, or
/// the other way round, folders and the rest each for themselves. Rows of the
/// same time stay as they stood.
pub proof fn sorting_by_time_orders_the_times(
    es: Seq<EntryView>,
    before: Seq<usize>,
    after: Seq<usize>,
    order: SortOrder,
    moved: Seq<usize>,
    i: int,
    j: int,
)
    requires
        sorted_from(es, before, after, SortKey::Mtime, order, moved),
        0 <= i < j < after.len(),
        same_group(es, after, i, j),
    ensures
        ({
            let a = es[after[i] as int].mtime;
            let b = es[after[j] as int].mtime;
            &&& order == SortOrder::Ascending ==> a.secs < b.secs || (a.secs == b.secs && a.nanos
                <= b.nanos)
            &&& order == SortOrder::Descending ==> a.secs > b.secs || (a.secs == b.secs && a.nanos
                >= b.nanos)
            &&& a.secs == b.secs && a.nanos == b.nanos ==> moved[i] < moved[j]
        }),
{
    lemma_row_order(es, before, after, SortKey::Mtime, order, moved, i, j);
}

/// Rows sorted by size run from the smallest to the largest, or the other way
/// round, folders and the rest each for themselves. Rows of the same size stay as
/// they stood.
pub proof fn sorting_by_size_orders_the_sizes(
    es: Seq<EntryView>,
    before: Seq<usize>,
    after: Seq<usize>,
    order: SortOrder,
    moved: Seq<usize>,
    i: int,
    j: int,
)
    requires
        sorted_from(es, before, after, SortKey::Size, order, moved),
        0 <= i < j < after.len(),
        same_group(es, after, i, j),
    ensures
        ({
            let a = es[after[i] as int].size;
            let b = es[after[j] as int].size;
            &&& order == SortOrder::Ascending ==> a <= b
            &&& order == SortOrder::Descending ==> a >= b
            &&& a == b ==> moved[i] < moved[j]
        }),
{
    lemma_row_order(es, before, after, SortKey::Size, order, moved, i, j);
}

/// Rows sorted by name are in the natural order of their names, or the other way
/// round, folders and the rest each for themselves. Rows of the same name stay as
/// they stood.
pub proof fn sorting_by_name_orders_the_names(
    es: Seq<EntryView>,
    before: Seq<usize>,
    after: Seq<usize>,
    order: SortOrder,
    moved: Seq<usize>,
    i: int,
    j: int,
)
    requires
        sorted_from(es, before, after, SortKey::Name, order, moved),
        0 <= i < j < after.len(),
        same_group(es, after, i, j),
    ensures
        ({
            let o = natural_order(row_name(es, after, i), row_name(es, after, j));
            &&& order == SortOrder::Ascending ==> o != Ordering::Greater
            &&& order == SortOrder::Descending ==> o != Ordering::Less
            &&& o == Ordering::Equal ==> moved[i] < moved[j]
        }),
{
    lemma_row_order(es, before, after, SortKey::Name, order, moved, i, j);
}

/// Whether two texts are the same up to a position, and there the first one ends
/// or has the smaller character.
pub open spec fn before_at(a: Seq<char>, b: Seq<char>, k: int) -> bool {
    &&& 0 <= k <= a.len()
    &&& k < b.len()
    &&& forall|i: int| 0 <= i < k ==> #[trigger] a[i] == b[i]
    &&& k == a.len() || a[k] < b[k]
}

/// Whether a text comes before another one in a dictionary.
pub open spec fn stands_before(a: Seq<char>, b: Seq<char>) -> bool {
    exists|k: int| before_at(a, b, k)
}

proof fn lemma_before_at(a: Seq<char>, b: Seq<char>) -> (k: int)
    requires
        text_before(a, b),
    ensures
        before_at(a, b, k),
    decreases a.len(),
{
    if a.len() == 0 || a[0] < b[0] {
        0
    } else {
        let x = a.skip(1);
        let y = b.skip(1);
        let k = lemma_before_at(x, y);
        assert forall|i: int| 0 <= i < k + 1 implies #[trigger] a[i] == b[i] by {
            if i > 0 {
                assert(x[i - 1] == a[i]);
                assert(y[i - 1] == b[i]);
            }
        }
        if k < x.len() {
            assert(x[k] == a[k + 1]);
            assert(y[k] == b[k + 1]);
        }
        k + 1
    }
}

/// Rows sorted by kind are in the order of their MIME types, those without one
/// first, or the other way round, folders and the rest each for themselves. Rows
/// of the same kind stay as they stood.
pub proof fn sorting_by_kind_orders_the_types(
    es: Seq<EntryView>,
    before: Seq<usize>,
    after: Seq<usize>,
    order: SortOrder,
    moved: Seq<usize>,
    i: int,
    j: int,
)
    requires
        sorted_from(es, before, after, SortKey::Kind, order, moved),
        0 <= i < j < after.len(),
        same_group(es, after, i, j),
    ensures
        ({
            let (a, b) = if order == SortOrder::Ascending {
                (es[after[i] as int].mime, es[after[j] as int].mime)
            } else {
                (es[after[j] as int].mime, es[after[i] as int].mime)
            };
            &&& b is None ==> a is None
            &&& a is Some && b is Some && a->0 != b->0 ==> stands_before(a->0, b->0)
            &&& a == b ==> moved[i] < moved[j]
        }),
{
    lemma_row_order(es, before, after, SortKey::Kind, order, moved, i, j);
    let (a, b) = if order == SortOrder::Ascending {
        (es[after[i] as int].mime, es[after[j] as int].mime)
    } else {
        (es[after[j] as int].mime, es[after[i] as int].mime)
    };
    if a is Some && b is Some {
        lemma_text_order(a->0, b->0, a->0);
        lemma_text_order(b->0, a->0, b->0);
        if a->0 != b->0 {
            let k = lemma_before_at(a->0, b->0);
            assert(before_at(a->0, b->0, k));
        }
    }
}

/// Turning the order round turns every comparison round within a group, so what
/// came strictly before comes strictly behind.
pub proof fn descending_is_ascending_turned_round(a: EntryView, b: EntryView, key: SortKey)
    requires
        (a.file_type == FileType::Directory) == (b.file_type == FileType::Directory),
    ensures
        entry_sign(a, b, key, SortOrder::Descending) == -entry_sign(
            a,
            b,
            key,
            SortOrder::Ascending,
        ),
{
}

} // verus!
