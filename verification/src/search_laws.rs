//! What a search finds and what it shows, by the names and types of what there
//! is.
use crate::calendar::{mtime_text, wrap_i32};
use crate::format_util::{kind_of, size_text};
use crate::icon_map::{mime_icon, user_dir_icon};
use crate::local_fs::Stat;
use crate::mime::path_mime;
use crate::picking::{exactly_those, lemma_picked, lemma_picked_none};
use crate::search::{
    delivered, fitting, found_matches, found_mime, hit_of, hit_paths, hit_row, hit_rows,
    hits_are_limited, in_step, msg_hits, outdated, thumbnailed_upto, walk_reach, walked_hits,
    HitView, MAX_RESULTS, SearchMsg, SearchResults,
};
use crate::state::AppState;
use crate::text::{lowercase, occurs_at};
use crate::thumb_queue::thumbnailable_ext;
use crate::thumbnails::mime_kind;
use crate::types::FileType;
use crate::unix_path::{file_name, lossy, UnixPath};
use crate::user_dirs::UserDirs;
use vstd::prelude::*;

verus! {

/// Whether a text stands in another one at a position.
pub open spec fn stands_at(name: Seq<char>, query: Seq<char>, k: int) -> bool {
    &&& 0 <= k
    &&& k + query.len() <= name.len()
    &&& forall|j: int| 0 <= j < query.len() ==> name[k + j] == #[trigger] query[j]
}

/// Whether an entry has to be found: it could be examined, and somewhere in its
/// name, in lower case, stands what is searched for.
pub open spec fn has_to_be_found(p: Seq<u8>, s: Option<Stat>, query_lower: Seq<char>) -> bool {
    &&& s is Some
    &&& file_name(p) is Some
    &&& exists|k: int| stands_at(lowercase(lossy(file_name(p)->0)), query_lower, k)
}

/// Whether a hit stands for an entry.
pub open spec fn stands_for(h: HitView, p: Seq<u8>, s: Stat) -> bool {
    &&& h.path == p
    &&& h.is_dir == s.is_dir
    &&& h.is_symlink == s.is_symlink
    &&& h.size == s.len
    &&& s.modified matches Some(t) ==> h.mtime == t
    &&& s.modified is None ==> h.mtime.secs == 0 && h.mtime.nanos == 0
    &&& file_name(p) matches Some(n) ==> h.display_name == lossy(n) && h.is_hidden == (
    lossy(n).len() > 0 && lossy(n)[0] == '.')
}

proof fn lemma_found(p: Seq<u8>, s: Option<Stat>, query_lower: Seq<char>)
    ensures
        has_to_be_found(p, s, query_lower) <==> s is Some && found_matches(
            query_lower,
            p,
        ),
{
    if file_name(p) is Some {
        let name = lowercase(lossy(file_name(p)->0));
        if s is Some && found_matches(query_lower, p) {
            let k = choose|k: int| occurs_at(name, query_lower, k);
            assert forall|j: int| 0 <= j < query_lower.len() implies name[k + j]
                == #[trigger] query_lower[j] by {
                assert(name.subrange(k, k + query_lower.len())[j] == query_lower[j]);
            }
            assert(stands_at(name, query_lower, k));
        }
        if has_to_be_found(p, s, query_lower) {
            let k = choose|k: int| stands_at(name, query_lower, k);
            assert(name.subrange(k, k + query_lower.len()) =~= query_lower);
            assert(occurs_at(name, query_lower, k));
        }
    }
}

/// Every entry whose name contains what is searched for is found, whatever its
/// type, unless as many hits as are shown were found already.
pub proof fn matching_entries_are_found(
    tree: Seq<(UnixPath, Option<Stat>)>,
    query_lower: Seq<char>,
    dirs: UserDirs,
    n: int,
    i: int,
)
    requires
        0 <= i < n <= tree.len(),
        has_to_be_found(tree[i].0@, tree[i].1, query_lower),
    ensures
        walked_hits(tree, query_lower, dirs, n).len() == 5000 || exists|k: int|
            0 <= k < walked_hits(tree, query_lower, dirs, n).len() && stands_for(
                #[trigger] walked_hits(tree, query_lower, dirs, n)[k],
                tree[i].0@,
                tree[i].1->0,
            ),
    decreases n,
{
    let before = walked_hits(tree, query_lower, dirs, n - 1);
    let all = walked_hits(tree, query_lower, dirs, n);
    lemma_found(tree[n - 1].0@, tree[n - 1].1, query_lower);
    hits_are_limited(tree, query_lower, dirs, n - 1);
    if i == n - 1 {
        if before.len() < MAX_RESULTS {
            assert(stands_for(all[before.len() as int], tree[i].0@, tree[i].1->0));
        }
    } else {
        matching_entries_are_found(tree, query_lower, dirs, n - 1, i);
        if before.len() < 5000 {
            let k = choose|k: int|
                0 <= k < before.len() && stands_for(
                    #[trigger] before[k],
                    tree[i].0@,
                    tree[i].1->0,
                );
            assert(all[k] == before[k]);
        }
    }
}

/// Whatever is found is an entry whose name contains what is searched for.
pub proof fn only_matching_entries_are_found(
    tree: Seq<(UnixPath, Option<Stat>)>,
    query_lower: Seq<char>,
    dirs: UserDirs,
    n: int,
    k: int,
)
    requires
        0 <= n <= tree.len(),
        0 <= k < walked_hits(tree, query_lower, dirs, n).len(),
    ensures
        exists|i: int|
            0 <= i < n && has_to_be_found(
                (#[trigger] tree[i]).0@,
                tree[i].1,
                query_lower,
            ) && stands_for(
                walked_hits(tree, query_lower, dirs, n)[k],
                tree[i].0@,
                tree[i].1->0,
            ),
    decreases n,
{
    if n > 0 {
        let before = walked_hits(tree, query_lower, dirs, n - 1);
        lemma_found(tree[n - 1].0@, tree[n - 1].1, query_lower);
        if k < before.len() {
            only_matching_entries_are_found(tree, query_lower, dirs, n - 1, k);
            let i = choose|i: int|
                0 <= i < n - 1 && has_to_be_found(
                    (#[trigger] tree[i]).0@,
                    tree[i].1,
                    query_lower,
                ) && stands_for(before[k], tree[i].0@, tree[i].1->0);
            assert(has_to_be_found(tree[i].0@, tree[i].1, query_lower));
        } else {
            assert(has_to_be_found(tree[n - 1].0@, tree[n - 1].1, query_lower));
        }
    }
}

/// Each entry is found once at most, and the hits come in the order of the walk:
/// going on with a walk adds at most one hit per entry behind those found.
pub proof fn hits_come_in_the_order_of_the_walk(
    tree: Seq<(UnixPath, Option<Stat>)>,
    query_lower: Seq<char>,
    dirs: UserDirs,
    n: int,
    m: int,
)
    requires
        0 <= n <= m <= tree.len(),
    ensures
        walked_hits(tree, query_lower, dirs, n).is_prefix_of(
            walked_hits(tree, query_lower, dirs, m),
        ),
        walked_hits(tree, query_lower, dirs, m).len() <= walked_hits(
            tree,
            query_lower,
            dirs,
            n,
        ).len() + (m - n),
    decreases m,
{
    let a = walked_hits(tree, query_lower, dirs, n);
    if n < m {
        hits_come_in_the_order_of_the_walk(tree, query_lower, dirs, n, m - 1);
        let b = walked_hits(tree, query_lower, dirs, m - 1);
        let c = walked_hits(tree, query_lower, dirs, m);
        assert(a =~= c.subrange(0, a.len() as int)) by {
            assert(a =~= b.subrange(0, a.len() as int));
        }
    } else {
        assert(a =~= a.subrange(0, a.len() as int));
    }
}

/// A walk over one entry finds it, or nothing: it alone decides.
pub proof fn one_entry_is_found_or_not(
    tree: Seq<(UnixPath, Option<Stat>)>,
    query_lower: Seq<char>,
    dirs: UserDirs,
)
    requires
        tree.len() == 1,
    ensures
        has_to_be_found(tree[0].0@, tree[0].1, query_lower) ==> {
            let hits = walked_hits(tree, query_lower, dirs, 1);
            hits.len() == 1 && stands_for(hits[0], tree[0].0@, tree[0].1->0)
        },
        !has_to_be_found(tree[0].0@, tree[0].1, query_lower) ==> walked_hits(
            tree,
            query_lower,
            dirs,
            1,
        ).len() == 0,
{
    reveal_with_fuel(walked_hits, 2);
    lemma_found(tree[0].0@, tree[0].1, query_lower);
}

/// The messages of a search bring the hits of all their batches, in order, and
/// nothing else.
pub proof fn messages_bring_all_their_hits(msgs: Seq<SearchMsg>, i: int, k: int)
    requires
        0 <= i < msgs.len(),
        msgs[i] matches SearchMsg::Batch { hits, .. } && 0 <= k < hits@.len(),
    ensures
        ({
            let at = delivered(msgs.take(i)).len();
            let all = delivered(msgs);
            &&& at + k < all.len()
            &&& all[at + k] == (msgs[i]->hits)@[k]@
            &&& delivered(msgs.take(i + 1)).len() == at + (msgs[i]->hits)@.len()
        }),
    decreases msgs.len(),
{
    let rest = msgs.drop_last();
    if i == msgs.len() - 1 {
        assert(msgs.take(i) =~= rest);
        assert(msgs.take(i + 1) =~= msgs);
        assert(msg_hits(msgs[i])[k] == (msgs[i]->hits)@[k]@);
    } else {
        messages_bring_all_their_hits(rest, i, k);
        assert(rest.take(i) =~= msgs.take(i));
        assert(rest.take(i + 1) =~= msgs.take(i + 1));
        assert(rest[i] == msgs[i]);
    }
}

/// Messages without hits bring none.
pub proof fn the_end_of_a_search_brings_no_hits(msgs: Seq<SearchMsg>, m: SearchMsg)
    requires
        !(m is Batch),
    ensures
        delivered(msgs.push(m)) == delivered(msgs),
{
    assert(msgs.push(m).drop_last() =~= msgs);
    assert(delivered(msgs) + Seq::<HitView>::empty() =~= delivered(msgs));
}

/// Of a batch as much is shown as there is room for: all of it, or up to the
/// limit.
pub proof fn the_limit_is_filled(shown: int, batch: int)
    requires
        0 <= shown,
        0 <= batch,
    ensures
        0 <= fitting(shown, batch) <= batch,
        shown <= 5000 ==> shown + fitting(shown, batch) <= 5000,
        fitting(shown, batch) < batch ==> shown + fitting(shown, batch) >= 5000,
{
}

/// The rows and paths that a batch adds are those of its first hits, one for
/// each, and a row shows what its hit says.
pub proof fn rows_and_paths_show_the_hits(hs: Seq<HitView>, n: int, i: int)
    requires
        0 <= i < n <= hs.len(),
    ensures
        hit_paths(hs, n).len() == n,
        hit_paths(hs, n)[i] == hs[i].path,
        hit_rows(hs, n).len() == n,
        hit_rows(hs, n)[i].display_name == hs[i].display_name,
        hit_rows(hs, n)[i].icon_name == hs[i].icon_name,
        hit_rows(hs, n)[i].is_dir == hs[i].is_dir,
        hit_rows(hs, n)[i].is_symlink == hs[i].is_symlink,
        hit_rows(hs, n)[i].is_hidden == hs[i].is_hidden,
        hit_rows(hs, n)[i].kind_text == hs[i].kind,
        !hit_rows(hs, n)[i].selected,
        !hit_rows(hs, n)[i].is_cut,
    decreases n,
{
    lemma_paths(hs, n, i);
    assert(hit_rows(hs, n)[i] == hit_row(hs[i]));
}

proof fn lemma_paths(hs: Seq<HitView>, n: int, i: int)
    requires
        0 <= n <= hs.len(),
    ensures
        hit_paths(hs, n).len() == n,
        0 <= i < n ==> hit_paths(hs, n)[i] == hs[i].path,
    decreases n,
{
    if n > 0 {
        lemma_paths(hs, n - 1, i);
    }
}

/// The hits that can be shown get a thumbnail, in order: files of which one can be
/// made by their type or their extension, and no folder.
pub proof fn files_that_were_found_get_thumbnails(hs: Seq<HitView>, n: int)
    requires
        0 <= n <= hs.len(),
    ensures
        exactly_those(
            thumbnailed_upto(hs, n),
            n,
            |i: int|
                !hs[i].is_dir && (mime_kind(path_mime(hs[i].path)) is Some || thumbnailable_ext(
                    hs[i].path,
                )),
            |i: int| hs[i].path,
        ),
    decreases n,
{
    let keep = |i: int|
        !hs[i].is_dir && (mime_kind(path_mime(hs[i].path)) is Some || thumbnailable_ext(
            hs[i].path,
        ));
    let item = |i: int| hs[i].path;
    if n > 0 {
        files_that_were_found_get_thumbnails(hs, n - 1);
        lemma_picked(thumbnailed_upto(hs, n - 1), n - 1, keep, item);
    } else {
        lemma_picked_none(keep, item);
    }
}

/// What is found looks as it does in its folder: a folder has the icon of a
/// folder and is called one, a file has the icon and the kind of its type.
pub proof fn hits_look_as_in_their_folder(p: Seq<u8>, s: Stat, dirs: UserDirs)
    ensures
        s.is_dir ==> hit_of(p, s, dirs).kind == kind_of(None, true),
        !s.is_dir ==> hit_of(p, s, dirs).kind == kind_of(path_mime(p), false),
        !s.is_dir && path_mime(p) is Some ==> hit_of(p, s, dirs).icon_name == mime_icon(
            path_mime(p)->0,
        ),
        s.is_dir && user_dir_icon(p, dirs) is Some ==> hit_of(p, s, dirs).icon_name
            == user_dir_icon(p, dirs)->0,
        s.is_dir && user_dir_icon(p, dirs) is None ==> hit_of(p, s, dirs).icon_name == "folder"@,
{
}

/// A search goes through all entries, or up to the one before which it was
/// cancelled.
pub proof fn a_search_goes_on_until_it_is_cancelled(at: usize, n: int)
    requires
        0 <= n,
    ensures
        walk_reach(None, n) == n,
        at < n ==> walk_reach(Some(at), n) == at,
        at >= n ==> walk_reach(Some(at), n) == n,
{
}

/// What a search sends is dropped exactly where another search was begun since;
/// that searching has ended is always heard.
pub proof fn only_the_current_search_is_heard(m: SearchMsg, current: u64)
    ensures
        m matches SearchMsg::Generation(g) ==> (outdated(m, current) <==> g != current),
        m matches SearchMsg::Batch { generation, .. } ==> (outdated(m, current) <==> generation
            != current),
        m matches SearchMsg::Done { generation } ==> (outdated(m, current) <==> generation
            != current),
        m is Cleared ==> !outdated(m, current),
{
}

/// Each row of results has its path beside it, and their number is shown.
pub proof fn results_are_counted(state: AppState, results: SearchResults)
    requires
        in_step(state, results),
    ensures
        state.search_hit_paths@.len() == results.rows@.len(),
        results.result_count == results.rows@.len(),
{
}

/// A row of results says size, time and kind as a row of a folder does.
pub proof fn results_say_size_and_time(h: HitView, other: u64)
    ensures
        h.is_dir ==> hit_row(h).size_text == hit_row(HitView { size: other, ..h }).size_text,
        h.is_dir ==> hit_row(h).size_text == "—"@,
        !h.is_dir ==> hit_row(h).size_text == size_text(h.size as nat),
        hit_row(h).modified_text == mtime_text(h.mtime),
        hit_row(h).size_lo == wrap_i32(h.size as int % 0x1_0000_0000),
        hit_row(h).size_hi == wrap_i32(h.size as int / 0x1_0000_0000),
        !hit_row(h).has_thumbnail,
{
}

/// The type of a found folder is that of folders; anything else has the type that
/// its name tells.
pub proof fn found_types_go_by_name(p: Seq<u8>, ft: FileType)
    ensures
        ft == FileType::Directory ==> found_mime(p, ft) == Some("inode/directory"@),
        ft != FileType::Directory ==> found_mime(p, ft) == path_mime(p),
{
}

} // verus!
