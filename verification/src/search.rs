//! Searching below a folder: which entries are hits, how hits are delivered in
//! batches, and how a newer search overtakes an older one.
use crate::calendar::{human_mtime, mtime_text, wrap_i32, FileTime};
use crate::compress::pack_u64;
use crate::copy_run::path_views;
use crate::format_util::{human_size, kind_of, kind_text, size_text};
use crate::icon_map::{entry_icon, icon_for_entry};
use crate::listing::{FileRowData, RowView};
use crate::local_fs::Stat;
use crate::mime::{mime_from_path, path_mime};
use crate::state::{copy_place, opt_place, AppState};
use crate::text::{
    chars_of, has_infix, lowercase, opt_view, text_contains, to_lowercase, trim_text, trimmed,
};
use crate::thumb_queue::{
    all_current, is_thumbnailable_path, queued, thumbnailable_ext, thumbnailable_mime, wanted_upto,
    ThumbnailController,
};
use crate::types::{entry_views, EntryView, FileEntry, FileType, Location, Permissions, Place};
use crate::unix_path::{file_name, lossy, lossy_text, UnixPath};
use crate::user_dirs::UserDirs;
use vstd::prelude::*;
use vstd::string::*;

verus! {

/// How long typing is waited out, in milliseconds.
pub const DEBOUNCE_MS: u64 = 250;

/// The most hits that a search shows.
pub const MAX_RESULTS: usize = 5_000;

/// How many hits are delivered at once.
pub const BATCH: usize = 64;

/// An entry that was found.
#[derive(Debug)]
pub struct SearchHit {
    pub path: UnixPath,
    pub display_name: String,
    pub icon_name: String,
    pub is_dir: bool,
    pub is_symlink: bool,
    pub is_hidden: bool,
    pub size: u64,
    pub mtime: FileTime,
    pub kind: String,
}

/// An entry that was found, in mathematical terms.
pub struct HitView {
    pub path: Seq<u8>,
    pub display_name: Seq<char>,
    pub icon_name: Seq<char>,
    pub is_dir: bool,
    pub is_symlink: bool,
    pub is_hidden: bool,
    pub size: u64,
    pub mtime: FileTime,
    pub kind: Seq<char>,
}

impl View for SearchHit {
    type V = HitView;

    open spec fn view(&self) -> HitView {
        HitView {
            path: self.path@,
            display_name: self.display_name@,
            icon_name: self.icon_name@,
            is_dir: self.is_dir,
            is_symlink: self.is_symlink,
            is_hidden: self.is_hidden,
            size: self.size,
            mtime: self.mtime,
            kind: self.kind@,
        }
    }
}

/// The views of a list of hits.
pub open spec fn hit_views(v: Seq<SearchHit>) -> Seq<HitView> {
    v.map_values(|h: SearchHit| h@)
}

/// The type of a found entry, links not followed.
pub open spec fn found_type(s: Stat) -> FileType {
    if s.is_dir {
        FileType::Directory
    } else if s.is_symlink {
        FileType::Symlink
    } else if s.is_file {
        FileType::Regular
    } else {
        FileType::Special
    }
}

/// The MIME type of a found entry, by its name alone.
pub open spec fn found_mime(p: Seq<u8>, ft: FileType) -> Option<Seq<char>> {
    if ft == FileType::Directory {
        Some("inode/directory"@)
    } else {
        path_mime(p)
    }
}

/// The name of a found entry.
pub open spec fn found_name(p: Seq<u8>) -> Seq<char> {
    match file_name(p) {
        Some(n) => lossy(n),
        None => Seq::empty(),
    }
}

/// A found entry as a file.
pub open spec fn found_entry(p: Seq<u8>, s: Stat) -> EntryView {
    EntryView {
        path: p,
        display_name: found_name(p),
        file_type: found_type(s),
        mime: found_mime(p, found_type(s)),
        size: s.len,
        mtime: match s.modified {
            Some(t) => t,
            None => FileTime { secs: 0, nanos: 0 },
        },
        permissions: Permissions { mode: 0, readable: false, writable: false, executable: false },
        is_hidden: found_name(p).len() > 0 && found_name(p)[0] == '.',
        is_symlink: s.is_symlink,
    }
}

/// A found entry as a hit.
pub open spec fn hit_of(p: Seq<u8>, s: Stat, dirs: UserDirs) -> HitView {
    let e = found_entry(p, s);
    let is_dir = e.file_type == FileType::Directory;
    HitView {
        path: p,
        display_name: e.display_name,
        icon_name: entry_icon(e, dirs),
        is_dir,
        is_symlink: e.is_symlink,
        is_hidden: e.is_hidden,
        size: e.size,
        mtime: e.mtime,
        kind: kind_of(e.mime, is_dir),
    }
}

/// The MIME type of a found entry.
pub fn mime_for(path: &UnixPath, ft: FileType) -> (r: Option<String>)
    ensures
        opt_view(r) == found_mime(path@, ft),
{
    if ft == FileType::Directory {
        return Some("inode/directory".to_owned());
    }
    mime_from_path(path)
}

fn make_hit(path: &UnixPath, s: Stat, dirs: &UserDirs) -> (r: SearchHit)
    ensures
        r@ == hit_of(path@, s, *dirs),
{
    let file_type: FileType = if s.is_dir {
        FileType::Directory
    } else if s.is_symlink {
        FileType::Symlink
    } else if s.is_file {
        FileType::Regular
    } else {
        FileType::Special
    };
    let display_name: String = match path.file_name() {
        Some(n) => lossy_text(&n),
        None => String::new(),
    };
    let v = chars_of(display_name.as_str());
    let is_hidden: bool = v.len() > 0 && v[0] == '.';
    let mtime: FileTime = match s.modified {
        Some(t) => t,
        None => FileTime::epoch(),
    };
    let e = FileEntry {
        path: path.clone(),
        display_name,
        file_type,
        mime: mime_for(path, file_type),
        size: s.len,
        mtime,
        permissions: Permissions::default(),
        is_hidden,
        is_symlink: s.is_symlink,
    };
    assert(e@ == found_entry(path@, s));
    let icon_name: String = icon_for_entry(&e, dirs).to_owned();
    let is_dir: bool = e.is_dir();
    let kind = kind_text(&e.mime, is_dir);
    SearchHit {
        path: path.clone(),
        display_name: e.display_name,
        icon_name,
        is_dir,
        is_symlink: e.is_symlink,
        is_hidden: e.is_hidden,
        size: e.size,
        mtime: e.mtime,
        kind,
    }
}

// ---------------------------------------------------------------------------
// The walk
// ---------------------------------------------------------------------------

/// What a search under way reports.
#[derive(Debug)]
pub enum SearchMsg {
    /// A search has begun.
    Generation(u64),
    /// A search has found something.
    Batch { generation: u64, hits: Vec<SearchHit> },
    /// A search is through.
    Done { generation: u64 },
    /// There is no search any more.
    Cleared,
}

/// The hits that a message brings.
pub open spec fn msg_hits(m: SearchMsg) -> Seq<HitView> {
    match m {
        SearchMsg::Batch { hits, .. } => hit_views(hits@),
        _ => Seq::empty(),
    }
}

/// Whether a message brings hits of a search.
pub open spec fn is_batch(m: SearchMsg, generation: u64) -> bool {
    m matches SearchMsg::Batch { generation: g, .. } && g == generation
}

/// A walk through the tree below a folder.
pub struct SearchWalk {
    /// What is searched for, in lower case.
    pub query_lower: String,
    pub generation: u64,
    /// The hits that were not delivered yet.
    pub batch: Vec<SearchHit>,
    /// How many hits there were.
    pub total: usize,
}

/// Whether a walk is in order: it does not hold back a full batch, and it stops
/// at the most hits.
pub open spec fn walk_ok(w: SearchWalk) -> bool {
    w.batch@.len() < BATCH && w.batch@.len() <= w.total <= MAX_RESULTS
}

impl SearchWalk {
    /// A walk that has found nothing yet.
    pub fn new(query: &str, generation: u64) -> (r: Self)
        ensures
            r.query_lower@ == lowercase(query@),
            r.generation == generation,
            r.batch@.len() == 0,
            r.total == 0,
            walk_ok(r),
    {
        SearchWalk { query_lower: to_lowercase(query), generation, batch: Vec::new(), total: 0 }
    }

    /// Whether the walk goes on.
    pub fn goes_on(&self, cancelled: bool) -> (r: bool)
        ensures
            r == (!cancelled && self.total < MAX_RESULTS),
    {
        !cancelled && self.total < MAX_RESULTS
    }

    /// Whether a name contains what is searched for, in any case.
    pub fn matches(&self, name: &[u8]) -> (r: bool)
        ensures
            r == has_infix(lowercase(lossy(name@)), self.query_lower@),
    {
        let lower = to_lowercase(lossy_text(name).as_str());
        text_contains(lower.as_str(), self.query_lower.as_str())
    }

    /// What is reported when the walk begins, after typing was waited out:
    /// nothing where the search was cancelled meanwhile, and it does not begin
    /// then.
    pub fn begin(&self, cancelled: bool) -> (r: Option<SearchMsg>)
        ensures
            r == if cancelled {
                None
            } else {
                Some(SearchMsg::Generation(self.generation))
            },
    {
        if cancelled {
            None
        } else {
            Some(SearchMsg::Generation(self.generation))
        }
    }

    /// Takes an entry that matches. Reports a batch once it is full.
    pub fn hit(&mut self, path: &UnixPath, s: Stat, dirs: &UserDirs) -> (r: Option<SearchMsg>)
        requires
            walk_ok(*old(self)),
            old(self).total < MAX_RESULTS,
        ensures
            walk_ok(*final(self)),
            final(self).total == old(self).total + 1,
            final(self).query_lower == old(self).query_lower,
            final(self).generation == old(self).generation,
            ({
                let all = hit_views(old(self).batch@).push(hit_of(path@, s, *dirs));
                match r {
                    Some(m) => is_batch(m, old(self).generation) && msg_hits(m) == all
                        && all.len() == BATCH && final(self).batch@.len() == 0,
                    None => hit_views(final(self).batch@) == all && all.len() < BATCH,
                }
            }),
    {
        let ghost before = self.batch@;
        let h = make_hit(path, s, dirs);
        self.batch.push(h);
        assert(hit_views(self.batch@) =~= hit_views(before).push(h@));
        self.total = self.total + 1;
        if self.batch.len() >= BATCH {
            let mut full: Vec<SearchHit> = Vec::new();
            core::mem::swap(&mut full, &mut self.batch);
            Some(SearchMsg::Batch { generation: self.generation, hits: full })
        } else {
            None
        }
    }

    /// What is reported when the walk ends: the hits that are left, and the end.
    pub fn finish(self) -> (r: Vec<SearchMsg>)
        ensures
            r@ == if self.batch@.len() == 0 {
                seq![SearchMsg::Done { generation: self.generation }]
            } else {
                seq![
                    SearchMsg::Batch { generation: self.generation, hits: self.batch },
                    SearchMsg::Done { generation: self.generation },
                ]
            },
    {
        let mut out: Vec<SearchMsg> = Vec::new();
        let generation: u64 = self.generation;
        if self.batch.len() > 0 {
            out.push(SearchMsg::Batch { generation, hits: self.batch });
        }
        out.push(SearchMsg::Done { generation });
        out
    }
}

/// Whether a found entry matches what is searched for.
pub open spec fn found_matches(query_lower: Seq<char>, p: Seq<u8>) -> bool {
    file_name(p) matches Some(n) && has_infix(lowercase(lossy(n)), query_lower)
}

/// The hits among the first `n` entries of a walk, at most as many as are
/// shown. An entry that could not be examined is passed over.
pub open spec fn walked_hits(
    tree: Seq<(UnixPath, Option<Stat>)>,
    query_lower: Seq<char>,
    dirs: UserDirs,
    n: int,
) -> Seq<HitView>
    decreases n,
{
    if n <= 0 {
        Seq::empty()
    } else {
        let before = walked_hits(tree, query_lower, dirs, n - 1);
        let (p, s) = tree[n - 1];
        if before.len() < MAX_RESULTS && found_matches(query_lower, p@) && s is Some {
            before.push(hit_of(p@, s->0, dirs))
        } else {
            before
        }
    }
}

/// The hits in all messages together, in order.
pub open spec fn delivered(msgs: Seq<SearchMsg>) -> Seq<HitView>
    decreases msgs.len(),
{
    if msgs.len() == 0 {
        Seq::empty()
    } else {
        delivered(msgs.drop_last()) + msg_hits(msgs.last())
    }
}

/// How many of `n` entries a walk comes to, where it finds itself cancelled
/// before the entry `cancelled_at`.
pub open spec fn walk_reach(cancelled_at: Option<usize>, n: int) -> int {
    match cancelled_at {
        Some(i) => if i < n {
            i as int
        } else {
            n
        },
        None => n,
    }
}

/// Walks through entries that were listed already, until it finds itself
/// cancelled before the entry `cancelled_at`. Reports the hits in batches of 64,
/// the last one possibly smaller, then the end.
pub fn walker(
    tree: &Vec<(UnixPath, Option<Stat>)>,
    query: &str,
    cancelled_at: Option<usize>,
    generation: u64,
    dirs: &UserDirs,
) -> (r: Vec<SearchMsg>)
    ensures
        delivered(r@) == walked_hits(
            tree@,
            lowercase(query@),
            *dirs,
            walk_reach(cancelled_at, tree@.len() as int),
        ),
        r@.len() > 0,
        r@.last() == (SearchMsg::Done { generation }),
        forall|i: int| 0 <= i < r@.len() - 1 ==> is_batch(#[trigger] r@[i], generation),
        forall|i: int| 0 <= i < r@.len() - 1 ==> 1 <= msg_hits(#[trigger] r@[i]).len() <= BATCH,
        forall|i: int| 0 <= i < r@.len() - 2 ==> msg_hits(#[trigger] r@[i]).len() == BATCH,
        cancelled_at == Some(0usize) ==> r@ == seq![SearchMsg::Done { generation }],
{
    let mut out: Vec<SearchMsg> = Vec::new();
    let mut w = SearchWalk::new(query, generation);
    let n: usize = match cancelled_at {
        Some(i) => if i < tree.len() {
            i
        } else {
            tree.len()
        },
        None => tree.len(),
    };
    let ghost q = lowercase(query@);
    let mut i: usize = 0;
    assert(hit_views(w.batch@) =~= Seq::empty());
    assert(delivered(out@) + hit_views(w.batch@) =~= walked_hits(tree@, q, *dirs, 0));
    while i < n
        invariant
            i <= n <= tree@.len(),
            q == lowercase(query@),
            w.query_lower@ == q,
            w.generation == generation,
            walk_ok(w),
            w.total == walked_hits(tree@, q, *dirs, i as int).len(),
            delivered(out@) + hit_views(w.batch@) == walked_hits(tree@, q, *dirs, i as int),
            forall|k: int| 0 <= k < out@.len() ==> is_batch(#[trigger] out@[k], generation),
            forall|k: int| 0 <= k < out@.len() ==> msg_hits(#[trigger] out@[k]).len() == BATCH,
            n == 0 ==> out@.len() == 0 && w.batch@.len() == 0,
        decreases n - i,
    {
        let ghost so_far = delivered(out@);
        let ghost held = hit_views(w.batch@);
        if w.goes_on(false) {
            let hit: bool = match tree[i].0.file_name() {
                Some(name) => w.matches(&name),
                None => false,
            };
            if hit {
                if let Some(s) = tree[i].1 {
                    let ghost h = hit_of(tree@[i as int].0@, s, *dirs);
                    match w.hit(&tree[i].0, s, dirs) {
                        Some(m) => {
                            let ghost before = out@;
                            out.push(m);
                            proof {
                                assert(out@.drop_last() =~= before);
                                assert(out@.last() == m);
                                assert(hit_views(w.batch@) =~= Seq::empty());
                                assert(delivered(out@) + hit_views(w.batch@) =~= (so_far + held).push(
                                    h,
                                ));
                            }
                        },
                        None => {
                            assert(so_far + hit_views(w.batch@) =~= (so_far + held).push(h));
                        },
                    }
                }
            }
        }
        i += 1;
    }
    let ghost full = out@;
    let ghost held = w.batch;
    let mut rest = w.finish();
    let ghost end = rest@;
    out.append(&mut rest);
    proof {
        let done = SearchMsg::Done { generation };
        assert(msg_hits(done) =~= Seq::empty());
        if held@.len() == 0 {
            assert(out@ =~= full.push(done));
            assert(out@.drop_last() =~= full);
            assert(hit_views(held@) =~= Seq::empty());
            assert(delivered(out@) =~= delivered(full) + hit_views(held@));
        } else {
            let last = SearchMsg::Batch { generation, hits: held };
            assert(out@ =~= full.push(last).push(done));
            assert(out@.drop_last() =~= full.push(last));
            assert(full.push(last).drop_last() =~= full);
            assert(delivered(full.push(last)) =~= delivered(full) + hit_views(held@));
            assert(delivered(out@) =~= delivered(full) + hit_views(held@));
        }
        if cancelled_at == Some(0usize) {
            assert(out@ =~= seq![done]);
        }
    }
    out
}

/// A search never shows more hits than the limit.
pub proof fn hits_are_limited(
    tree: Seq<(UnixPath, Option<Stat>)>,
    query_lower: Seq<char>,
    dirs: UserDirs,
    n: int,
)
    ensures
        walked_hits(tree, query_lower, dirs, n).len() <= MAX_RESULTS,
    decreases n,
{
    if n > 0 {
        hits_are_limited(tree, query_lower, dirs, n - 1);
    }
}

// ---------------------------------------------------------------------------
// Showing results
// ---------------------------------------------------------------------------

/// The row of a hit.
pub open spec fn hit_row(h: HitView) -> RowView {
    RowView {
        display_name: h.display_name,
        icon_name: h.icon_name,
        is_dir: h.is_dir,
        is_symlink: h.is_symlink,
        is_hidden: h.is_hidden,
        is_cut: false,
        selected: false,
        has_thumbnail: false,
        size_text: if h.is_dir {
            "—"@
        } else {
            size_text(h.size as nat)
        },
        modified_text: mtime_text(h.mtime),
        kind_text: h.kind,
        size_lo: wrap_i32(h.size as int % 0x1_0000_0000),
        size_hi: wrap_i32(h.size as int / 0x1_0000_0000),
    }
}

/// The row of a hit.
pub fn hit_to_row(h: &SearchHit) -> (r: FileRowData)
    ensures
        r@ == hit_row(h@),
{
    let (size_lo, size_hi) = pack_u64(h.size);
    FileRowData {
        display_name: h.display_name.clone(),
        icon_name: h.icon_name.clone(),
        is_dir: h.is_dir,
        is_symlink: h.is_symlink,
        is_hidden: h.is_hidden,
        is_cut: false,
        selected: false,
        has_thumbnail: false,
        size_text: if h.is_dir {
            "—".to_owned()
        } else {
            human_size(h.size)
        },
        modified_text: human_mtime(h.mtime),
        kind_text: h.kind.clone(),
        size_lo,
        size_hi,
    }
}

/// What a batch adds to the window.
#[derive(Debug)]
pub struct BatchApplied {
    /// The rows to add.
    pub rows: Vec<FileRowData>,
    /// The paths that get a thumbnail.
    pub thumbnails: Vec<UnixPath>,
}

/// How many hits of a batch fit on top of those that are shown.
pub open spec fn fitting(shown: int, batch: int) -> int {
    if shown >= MAX_RESULTS {
        0
    } else if shown + batch > MAX_RESULTS {
        MAX_RESULTS - shown
    } else {
        batch
    }
}

/// Whether a hit gets a thumbnail.
pub open spec fn hit_thumbnailed(h: HitView) -> bool {
    !h.is_dir && (thumbnailable_ext(h.path) || thumbnailable_mime(path_mime(h.path)))
}

/// The paths among the first `n` hits that get a thumbnail.
pub open spec fn thumbnailed_upto(hs: Seq<HitView>, n: int) -> Seq<Seq<u8>>
    decreases n,
{
    if n <= 0 {
        Seq::empty()
    } else if hit_thumbnailed(hs[n - 1]) {
        thumbnailed_upto(hs, n - 1).push(hs[n - 1].path)
    } else {
        thumbnailed_upto(hs, n - 1)
    }
}

/// The paths of the first `n` hits.
pub open spec fn hit_paths(hs: Seq<HitView>, n: int) -> Seq<Seq<u8>>
    decreases n,
{
    if n <= 0 {
        Seq::empty()
    } else {
        hit_paths(hs, n - 1).push(hs[n - 1].path)
    }
}

/// Takes a batch over. A batch of another search is dropped, and so is what is
/// over the limit. `shown` is how many results are shown.
pub fn apply_batch(
    paths: &mut Vec<UnixPath>,
    current: u64,
    generation: u64,
    hits: &Vec<SearchHit>,
    shown: usize,
) -> (r: BatchApplied)
    ensures
        ({
            let n = if generation == current {
                fitting(shown as int, hits@.len() as int)
            } else {
                0
            };
            let hs = hit_views(hits@);
            &&& r.rows@.len() == n
            &&& forall|i: int| 0 <= i < n ==> (#[trigger] r.rows@[i])@ == hit_row(hs[i])
            &&& path_views(r.thumbnails@) == thumbnailed_upto(hs, n)
            &&& path_views(final(paths)@) == path_views(old(paths)@) + hit_paths(hs, n)
        }),
{
    let ghost hs = hit_views(hits@);
    let mut rows: Vec<FileRowData> = Vec::new();
    let mut thumbnails: Vec<UnixPath> = Vec::new();
    let ghost before = path_views(paths@);
    assert(path_views(thumbnails@) =~= thumbnailed_upto(hs, 0));
    assert(path_views(paths@) =~= before + hit_paths(hs, 0));
    let n: usize = if generation != current || shown >= MAX_RESULTS {
        0
    } else if hits.len() > MAX_RESULTS - shown {
        MAX_RESULTS - shown
    } else {
        hits.len()
    };
    let none: Option<String> = None;
    let mut i: usize = 0;
    while i < n
        invariant
            i <= n,
            n <= hits@.len(),
            hs == hit_views(hits@),
            none is None,
            rows@.len() == i,
            forall|k: int| 0 <= k < i ==> (#[trigger] rows@[k])@ == hit_row(hs[k]),
            path_views(thumbnails@) == thumbnailed_upto(hs, i as int),
            path_views(paths@) == before + hit_paths(hs, i as int),
        decreases n - i,
    {
        let h = &hits[i];
        assert(hs[i as int] == h@);
        let ghost ps = paths@;
        paths.push(h.path.clone());
        assert(path_views(paths@) =~= path_views(ps).push(h.path@));
        assert(path_views(paths@) =~= before + hit_paths(hs, i + 1));
        if !h.is_dir && is_thumbnailable_path(&h.path, &none) {
            let ghost ts = thumbnails@;
            thumbnails.push(h.path.clone());
            assert(path_views(thumbnails@) =~= path_views(ts).push(h.path@));
        }
        rows.push(hit_to_row(h));
        i += 1;
    }
    BatchApplied { rows, thumbnails }
}

/// Whether a message of a search is of the search that is shown.
pub fn is_current(current: u64, generation: u64) -> (r: bool)
    ensures
        r == (current == generation),
{
    current == generation
}

/// What the window shows of a search, beside the paths of the hits.
#[derive(Debug)]
pub struct SearchResults {
    pub rows: Vec<FileRowData>,
    pub searching: bool,
    pub result_count: usize,
}

/// The rows in mathematical terms.
pub open spec fn shown_rows(rows: Seq<FileRowData>) -> Seq<RowView> {
    rows.map_values(|r: FileRowData| r@)
}

/// The rows of the first `n` hits.
pub open spec fn hit_rows(hs: Seq<HitView>, n: int) -> Seq<RowView> {
    Seq::new(n as nat, |i: int| hit_row(hs[i]))
}

/// Whether each row that is shown has the path of its hit beside it.
pub open spec fn in_step(state: AppState, results: SearchResults) -> bool {
    &&& state.search_hit_paths@.len() == results.rows@.len()
    &&& results.result_count == results.rows@.len()
}

/// Whether a message leads to nothing: it is of a search that is not the current
/// one.
pub open spec fn outdated(msg: SearchMsg, current: u64) -> bool {
    match msg {
        SearchMsg::Generation(g) => g != current,
        SearchMsg::Batch { generation, .. } => generation != current,
        SearchMsg::Done { generation } => generation != current,
        SearchMsg::Cleared => false,
    }
}

/// Takes a message over, where `current` is the search that was begun last. A
/// new search and the end of searching both leave no result and no thumbnail
/// waiting; at the end of searching the thumbnails of the folder are queued
/// again. A message of another search leads to nothing.
pub fn take_message(
    state: &mut AppState,
    results: &mut SearchResults,
    thumbs: &mut ThumbnailController,
    current: u64,
    msg: SearchMsg,
)
    requires
        all_current(*old(thumbs)),
        old(thumbs).generation < u64::MAX - 1,
    ensures
        *final(state) == (AppState {
            search_hit_paths: final(state).search_hit_paths,
            ..*old(state)
        }),
        all_current(*final(thumbs)),
        final(thumbs).mem_budget == old(thumbs).mem_budget,
        final(thumbs).thumb_size == old(thumbs).thumb_size,
        in_step(*old(state), *old(results)) ==> in_step(*final(state), *final(results)),
        outdated(msg, current) ==> *final(state) == *old(state) && *final(results) == *old(results)
            && *final(thumbs) == *old(thumbs),
        !outdated(msg, current) ==> match msg {
            SearchMsg::Generation(_) => {
                &&& final(state).search_hit_paths@.len() == 0
                &&& final(results).rows@.len() == 0
                &&& final(results).result_count == 0
                &&& final(results).searching
                &&& final(thumbs).queue@.len() == 0
                &&& final(thumbs).mem_used == 0
                &&& final(thumbs).generation == old(thumbs).generation + 1
            },
            SearchMsg::Batch { hits, .. } => {
                let n = fitting(old(results).rows@.len() as int, hits@.len() as int);
                let hs = hit_views(hits@);
                &&& path_views(final(state).search_hit_paths@) == path_views(
                    old(state).search_hit_paths@,
                ) + hit_paths(hs, n)
                &&& shown_rows(final(results).rows@) == shown_rows(old(results).rows@) + hit_rows(
                    hs,
                    n,
                )
                &&& final(results).result_count == final(results).rows@.len()
                &&& final(results).searching == old(results).searching
                &&& queued(final(thumbs).queue@) == queued(old(thumbs).queue@) + thumbnailed_upto(
                    hs,
                    n,
                )
                &&& final(thumbs).mem_used == old(thumbs).mem_used
                &&& final(thumbs).generation == old(thumbs).generation
            },
            SearchMsg::Done { .. } => {
                &&& *final(state) == *old(state)
                &&& *final(results) == (SearchResults { searching: false, ..*old(results) })
                &&& *final(thumbs) == *old(thumbs)
            },
            SearchMsg::Cleared => {
                &&& final(state).search_hit_paths@.len() == 0
                &&& final(results).rows@.len() == 0
                &&& final(results).result_count == 0
                &&& !final(results).searching
                &&& queued(final(thumbs).queue@) == wanted_upto(
                    entry_views(old(state).entries@),
                    old(state).entries@.len() as int,
                )
                &&& final(thumbs).mem_used == 0
                &&& final(thumbs).generation == old(thumbs).generation + 2
            },
        },
{
    match msg {
        SearchMsg::Generation(g) => {
            if is_current(current, g) {
                results.rows = Vec::new();
                state.search_hit_paths = Vec::new();
                results.searching = true;
                results.result_count = 0;
                thumbs.cancel_all();
            }
        },
        SearchMsg::Batch { generation, hits } => {
            if is_current(current, generation) {
                let ghost hs = hit_views(hits@);
                let ghost n = fitting(results.rows@.len() as int, hits@.len() as int);
                let shown: usize = results.rows.len();
                let ghost held = state.search_hit_paths@;
                let mut applied = apply_batch(
                    &mut state.search_hit_paths,
                    current,
                    generation,
                    &hits,
                    shown,
                );
                assert(path_views(state.search_hit_paths@).len()
                    == state.search_hit_paths@.len());
                assert(path_views(held).len() == held.len());
                proof {
                    lemma_hit_paths(hs, n);
                }
                let ghost before = results.rows@;
                results.rows.append(&mut applied.rows);
                assert(shown_rows(results.rows@) =~= shown_rows(before) + hit_rows(hs, n));
                thumbs.enqueue_paths(&applied.thumbnails);
                results.result_count = results.rows.len();
            }
        },
        SearchMsg::Done { generation } => {
            if is_current(current, generation) {
                results.searching = false;
            }
        },
        SearchMsg::Cleared => {
            results.rows = Vec::new();
            state.search_hit_paths = Vec::new();
            results.result_count = 0;
            results.searching = false;
            thumbs.cancel_all();
            thumbs.submit_for(&state.entries);
        },
    }
}

/// There are as many paths as hits.
proof fn lemma_hit_paths(hs: Seq<HitView>, n: int)
    requires
        0 <= n,
    ensures
        hit_paths(hs, n).len() == n,
    decreases n,
{
    if n > 0 {
        lemma_hit_paths(hs, n - 1);
    }
}

// ---------------------------------------------------------------------------
// Opening, typing, closing
// ---------------------------------------------------------------------------

/// Opens the search in the pane that is active, for the place it shows.
pub fn open_search(state: &mut AppState)
    ensures
        final(state).search_on_right == old(state).active_is_right,
        opt_place(final(state).search_root) == opt_place(old(state).current),
        final(state)@ == old(state)@,
        *final(state) == (AppState {
            search_on_right: final(state).search_on_right,
            search_root: final(state).search_root,
            ..*old(state)
        }),
{
    state.search_on_right = state.active_is_right;
    state.search_root = copy_place(&state.current);
}

/// Closes the search. What is selected in the listing stays.
pub fn close_search(state: &mut AppState)
    ensures
        final(state).search_anchor is None,
        final(state).search_root is None,
        final(state)@ == old(state)@,
        *final(state) == (AppState {
            search_anchor: final(state).search_anchor,
            search_root: final(state).search_root,
            ..*old(state)
        }),
{
    state.search_anchor = None;
    state.search_root = None;
}

/// What a change of the search text leads to.
#[derive(Debug)]
pub enum QueryStep {
    /// Stop searching and show no results.
    Clear,
    /// Nothing: there is no place to search.
    Ignore,
    /// Stop the search under way and start a new one below the folder.
    Start(UnixPath),
}

/// Decides what a change of the search text leads to. The search goes on where
/// it was opened, even if the other pane is active by now.
pub fn query_changed(state: &mut AppState, query: &str) -> (r: QueryStep)
    ensures
        final(state).search_anchor is None,
        if trimmed(query@).len() == 0 {
            r is Clear
        } else {
            match opt_place(old(state).search_root) {
                Some(Place::Local(b)) => r matches QueryStep::Start(p) && p@ == b,
                _ => r is Ignore,
            }
        },
        final(state)@ == old(state)@,
        *final(state) == (AppState { search_anchor: final(state).search_anchor, ..*old(state) }),
{
    state.search_anchor = None;
    if trim_text(query).as_str().is_empty() {
        return QueryStep::Clear;
    }
    match &state.search_root {
        Some(Location::Local(p)) => QueryStep::Start(p.clone()),
        _ => QueryStep::Ignore,
    }
}

} // verus!
