//! What file operations count, and which names they come to.
use crate::copy_progress::{with_file, Totals};
use crate::file_actions::{
    conflicts_upto, first_parent, hits_none, hits_other, repeated, shown_names, successes,
    BulkRenameRow,
};
use crate::file_ops::{
    adds, all_taken, answered, candidate_name, candidate_path, counted, deleted, error_text,
    first_free, is_unique_destination, name_parts, prunes, reports_upto, tally_upto, totals_of,
    valid_name, DeepCountStats, DeleteStep, FileOpError, MAX_CANDIDATES, Visited,
};
use crate::num_text::decimal;
use crate::picking::{exactly_those, lemma_picked, lemma_picked_none};
use crate::text::{last_of, lemma_last_of};
use crate::types::EntryView;
use crate::unix_path::{components, joined, lossy, parent, UnixPath};
use vstd::prelude::*;
use vstd::utf8::*;

verus! {

/// Every row that conflicts counts once, and no other.
pub proof fn conflicts_count_once(rows: Seq<BulkRenameRow>, worse: BulkRenameRow, i: int, n: int)
    requires
        0 <= n <= rows.len(),
        0 <= i < rows.len(),
        !rows[i].conflict,
        worse.conflict,
    ensures
        conflicts_upto(rows.update(i, worse), n) == conflicts_upto(rows, n) + if i < n {
            1int
        } else {
            0int
        },
        (forall|k: int| 0 <= k < n ==> !(#[trigger] rows[k]).conflict) ==> conflicts_upto(rows, n)
            == 0,
    decreases n,
{
    if n > 0 {
        conflicts_count_once(rows, worse, i, n - 1);
    }
}

/// Every success counts once, and no failure.
pub proof fn successes_count_once(results: Seq<bool>, i: int, n: int)
    requires
        0 <= n <= results.len(),
        0 <= i < results.len(),
        !results[i],
    ensures
        successes(results.update(i, true), n) == successes(results, n) + if i < n {
            1int
        } else {
            0int
        },
        (forall|k: int| 0 <= k < n ==> !#[trigger] results[k]) ==> successes(results, n) == 0,
        successes(results, n) <= n,
    decreases n,
{
    if n > 0 {
        successes_count_once(results, i, n - 1);
    }
}

/// What was deleted is everything but what was gone already.
pub proof fn deleting_counts_what_was_there(steps: Seq<DeleteStep>, s: DeleteStep)
    ensures
        deleted(Seq::empty()) == 0,
        s is Nothing ==> deleted(steps.push(s)) == deleted(steps),
        !(s is Nothing) ==> deleted(steps.push(s)) == deleted(steps) + 1,
{
    assert(steps.push(s).drop_last() =~= steps);
}

/// A name is its stem, a dot and its extension, which holds no dot; a name
/// without a dot, or with one at its start alone, is a stem.
pub proof fn a_name_is_its_stem_and_extension(name: Seq<char>)
    ensures
        ({
            let (stem, ext) = name_parts(name);
            ||| stem == name && ext.len() == 0 && forall|k: int|
                0 < k < name.len() ==> #[trigger] name[k] != '.'
            ||| name == stem.push('.') + ext && stem.len() > 0 && !ext.contains('.')
        }),
{
    lemma_last_of(name, '.');
    let i = last_of(name, '.');
    let (stem, ext) = name_parts(name);
    if i > 0 {
        assert(name =~= stem.push('.') + ext);
        assert forall|k: int| 0 <= k < ext.len() implies #[trigger] ext[k] != '.' by {
            assert(ext[k] == name[i + 1 + k]);
        }
    }
}

proof fn lemma_parts_of(stem: Seq<char>, ext: Seq<char>)
    requires
        stem.len() > 0,
        !ext.contains('.'),
    ensures
        name_parts(stem.push('.') + ext) == (stem, ext),
{
    let name = stem.push('.') + ext;
    lemma_last_of(name, '.');
    let i = last_of(name, '.');
    assert(name[stem.len() as int] == '.');
    if i > stem.len() {
        assert(name[i] == ext[i - stem.len() - 1]);
        assert(ext.contains('.'));
    }
    assert(i == stem.len());
    assert(name.take(i) =~= stem);
    assert(name.skip(i + 1) =~= ext);
}

/// The first candidate for a name is the name itself. Each further one has the
/// same extension, and its stem is the stem of the name with the number behind it
/// in brackets.
pub proof fn candidates_number_the_stem(name: Seq<char>, n: nat)
    ensures
        candidate_name(name, 0) == name,
        n > 0 && name_parts(name).1.len() > 0 ==> name_parts(candidate_name(name, n)) == (
            name_parts(name).0 + seq![' ', '('] + decimal(n) + seq![')'],
            name_parts(name).1,
        ),
        n > 0 && name_parts(name).1.len() == 0 ==> candidate_name(name, n) == name_parts(name).0
            + seq![' ', '('] + decimal(n) + seq![')'],
{
    reveal_strlit(" (");
    reveal_strlit(")");
    reveal_strlit(").");
    a_name_is_its_stem_and_extension(name);
    let (stem, ext) = name_parts(name);
    let numbered = stem + seq![' ', '('] + decimal(n) + seq![')'];
    if n > 0 {
        if ext.len() > 0 {
            assert(candidate_name(name, n) =~= numbered.push('.') + ext);
            lemma_parts_of(numbered, ext);
        } else {
            assert(candidate_name(name, n) =~= numbered);
        }
    }
}

/// Where nothing was found in the way, the destination has the name itself; what
/// was found to be free is taken before all later candidates.
pub proof fn the_first_free_name_is_taken<F: Fn(&UnixPath) -> bool>(
    occupied: F,
    dir: Seq<u8>,
    name: Seq<char>,
    p: Seq<u8>,
)
    requires
        is_unique_destination(occupied, dir, name, p),
    ensures
        !answered(occupied, joined(dir, encode_utf8(name)), true) ==> p == joined(
            dir,
            encode_utf8(name),
        ),
        exists|n: nat| p == #[trigger] candidate_path(dir, name, n) && forall|k: nat|
            k < n ==> answered(occupied, #[trigger] candidate_path(dir, name, k), true),
        answered(occupied, p, false) || forall|k: nat|
            k < 1_000_000 ==> answered(occupied, #[trigger] candidate_path(dir, name, k), true),
{
    assert(candidate_path(dir, name, 0) == joined(dir, encode_utf8(name)));
    if exists|n: nat| first_free(occupied, dir, name, n, p) {
        let n = choose|n: nat| first_free(occupied, dir, name, n, p);
        assert(p == candidate_path(dir, name, n));
    } else {
        assert(all_taken(occupied, dir, name, MAX_CANDIDATES as nat));
        assert(p == candidate_path(dir, name, 0));
    }
}

/// Every name is valid that is not empty, holds no slash and is neither of the
/// two names that folders have for themselves and what they lie in.
pub proof fn names_are_valid(name: Seq<char>)
    ensures
        name.len() > 2 ==> (valid_name(name) <==> forall|k: int|
            0 <= k < name.len() ==> #[trigger] name[k] != '/'),
        name.len() == 0 ==> !valid_name(name),
        name.len() == 1 ==> (valid_name(name) <==> name[0] != '/' && name[0] != '.'),
        name.len() == 2 ==> (valid_name(name) <==> name[0] != '/' && name[1] != '/' && (name[0]
            != '.' || name[1] != '.')),
{
    reveal_strlit(".");
    reveal_strlit("..");
    if name.len() == 1 {
        assert(name.contains('/') <==> name[0] == '/');
        assert(name[0] == '.' ==> name =~= "."@);
    }
    if name.len() == 2 {
        assert(name[0] == '.' && name[1] == '.' ==> name =~= ".."@);
        if name.contains('/') {
            let k = choose|k: int| 0 <= k < name.len() && name[k] == '/';
            assert(k == 0 || k == 1);
        }
        assert(name[0] == '/' ==> name.contains('/'));
        assert(name[1] == '/' ==> name.contains('/'));
    }
    if name.len() > 2 {
        if forall|k: int| 0 <= k < name.len() ==> #[trigger] name[k] != '/' {
            assert(!name.contains('/'));
        }
    }
}

/// Nothing is left out of a count but the two folders of the system right below
/// the root.
pub proof fn only_system_folders_are_left_out(dir: Seq<u8>, name: Seq<u8>)
    ensures
        components(dir) != components(encode_utf8("/"@)) ==> !prunes(dir, name),
        name != encode_utf8("proc"@) && name != encode_utf8("sys"@) ==> !prunes(dir, name),
        components(dir) == components(encode_utf8("/"@)) ==> prunes(dir, encode_utf8("proc"@))
            && prunes(dir, encode_utf8("sys"@)),
{
}

/// A count adds one for each folder below the one that is counted, and for each
/// file one and its size; nothing else counts.
pub proof fn folders_and_files_are_counted(v: Seq<Visited>, x: Visited, len: u64)
    ensures
        ({
            let n = v.len() as int;
            let a = tally_upto(v, n);
            let b = tally_upto(v.push(x), n + 1);
            &&& x is Directory ==> b == (a.0, a.1 + 1, a.2)
            &&& x == Visited::File(Some(len)) ==> b == (a.0 + 1, a.1, a.2 + len)
            &&& x == Visited::File(None) ==> b == (a.0 + 1, a.1, a.2)
            &&& x is Root || x is Other || x is Unreadable ==> b == a
        }),
        tally_upto(v, 0) == (0int, 0int, 0int),
{
    lemma_tally_of_more(v, x, v.len() as int);
}

proof fn lemma_tally_of_more(v: Seq<Visited>, x: Visited, n: int)
    requires
        0 <= n <= v.len(),
    ensures
        tally_upto(v.push(x), n) == tally_upto(v, n),
    decreases n,
{
    if n > 0 {
        lemma_tally_of_more(v, x, n - 1);
    }
}

/// Counting entry by entry comes to the same as counting all at once.
pub proof fn counting_goes_on(s: DeepCountStats, x: Visited, len: u64)
    requires
        s.files < u64::MAX,
        s.folders < u64::MAX,
        s.bytes + len <= u64::MAX,
    ensures
        x is Directory ==> totals_of(counted(s, x)) == (
            s.files as int,
            s.folders + 1,
            s.bytes as int,
        ),
        x == Visited::File(Some(len)) ==> totals_of(counted(s, x)) == (
            s.files + 1,
            s.folders as int,
            s.bytes + len,
        ),
        x == Visited::File(None) ==> totals_of(counted(s, x)) == (
            s.files + 1,
            s.folders as int,
            s.bytes as int,
        ),
        x is Root || x is Other || x is Unreadable ==> counted(s, x) == s,
{
}

/// A count reports its totals so far at each entry below the folder that comes
/// at least a hundred and twenty milliseconds after the last report.
pub proof fn totals_are_reported(v: Seq<Visited>, since_ms: Seq<u64>, n: int)
    requires
        0 <= n <= v.len(),
        since_ms.len() == v.len(),
    ensures
        exactly_those(
            reports_upto(v, since_ms, n),
            n,
            |i: int| !(v[i] is Root) && !(v[i] is Unreadable) && since_ms[i] >= 120,
            |i: int| tally_upto(v, i + 1),
        ),
    decreases n,
{
    let keep = |i: int| !(v[i] is Root) && !(v[i] is Unreadable) && since_ms[i] >= 120;
    let item = |i: int| tally_upto(v, i + 1);
    if n > 0 {
        totals_are_reported(v, since_ms, n - 1);
        lemma_picked(reports_upto(v, since_ms, n - 1), n - 1, keep, item);
    } else {
        lemma_picked_none(keep, item);
    }
}

/// A file adds one and its size to what is to be copied.
pub proof fn files_add_to_the_totals(t: Totals, len: u64)
    requires
        t.files < u64::MAX,
        t.bytes + len <= u64::MAX,
    ensures
        with_file(t, len).files == t.files + 1,
        with_file(t, len).bytes == t.bytes + len,
{
}

/// An error is told with the path, the name or the reason that it is about.
pub proof fn errors_say_what_they_are_about(e: FileOpError)
    ensures
        (match e {
            FileOpError::DestExists(p) => lossy(p@),
            FileOpError::InvalidName(n) => n@,
            FileOpError::SourceGone(p) => lossy(p@),
            FileOpError::Io(m) => m@,
            FileOpError::Trash(m) => m@,
            FileOpError::Walk(m) => m@,
        }).is_suffix_of(error_text(e)),
        (match e {
            FileOpError::DestExists(_) => "path exists at destination: "@,
            FileOpError::InvalidName(_) => "invalid name (contains '/' or empty): "@,
            FileOpError::SourceGone(_) => "source path is gone: "@,
            FileOpError::Io(_) => "io: "@,
            FileOpError::Trash(_) => "trash: "@,
            FileOpError::Walk(_) => "walkdir: "@,
        }).is_prefix_of(error_text(e)),
{
    let lead = match e {
        FileOpError::DestExists(_) => "path exists at destination: "@,
        FileOpError::InvalidName(_) => "invalid name (contains '/' or empty): "@,
        FileOpError::SourceGone(_) => "source path is gone: "@,
        FileOpError::Io(_) => "io: "@,
        FileOpError::Trash(_) => "trash: "@,
        FileOpError::Walk(_) => "walkdir: "@,
    };
    assert(error_text(e).subrange(0, lead.len() as int) =~= lead);
    let x = match e {
        FileOpError::DestExists(p) => lossy(p@),
        FileOpError::InvalidName(n) => n@,
        FileOpError::SourceGone(p) => lossy(p@),
        FileOpError::Io(m) => m@,
        FileOpError::Trash(m) => m@,
        FileOpError::Walk(m) => m@,
    };
    let t = error_text(e);
    assert(t.subrange(t.len() - x.len(), t.len() as int) =~= x);
}

/// A new name hits another entry where that is there already and is not one of
/// those that are renamed.
pub proof fn names_hit_what_is_there<F: Fn(&UnixPath) -> bool>(
    exists_at: F,
    dir: Seq<u8>,
    name: Seq<char>,
    originals: Seq<Seq<char>>,
)
    ensures
        originals.contains(name) ==> !hits_other(exists_at, Some(dir), name, originals)
            && hits_none(exists_at, Some(dir), name, originals),
        !originals.contains(name) ==> {
            &&& hits_other(exists_at, Some(dir), name, originals) <==> answered(
                exists_at,
                joined(dir, encode_utf8(name)),
                true,
            )
            &&& hits_none(exists_at, Some(dir), name, originals) <==> answered(
                exists_at,
                joined(dir, encode_utf8(name)),
                false,
            )
        },
        !hits_other(exists_at, None, name, originals),
        hits_none(exists_at, None, name, originals),
{
}

/// A name is repeated where another one is the same.
pub proof fn repeated_names_come_in_pairs(names: Seq<Seq<char>>, i: int, j: int)
    requires
        0 <= i < names.len(),
        0 <= j < names.len(),
        i != j,
        names[i] == names[j],
    ensures
        repeated(names, i),
        repeated(names, j),
{
    assert(names[j] == names[i]);
    assert(names[i] == names[j]);
}

/// Names that all differ are not repeated.
pub proof fn different_names_are_not_repeated(names: Seq<Seq<char>>, i: int)
    requires
        0 <= i < names.len(),
        names.no_duplicates(),
    ensures
        !repeated(names, i),
{
}

/// Several entries are renamed in the folder of the first one, by the names that
/// are shown.
pub proof fn entries_are_renamed_where_they_are(es: Seq<EntryView>, i: int)
    requires
        0 <= i < es.len(),
    ensures
        first_parent(es) == parent(es[0].path),
        shown_names(es).len() == es.len(),
        shown_names(es)[i] == es[i].display_name,
{
}

} // verus!
