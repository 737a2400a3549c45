//! The queue of thumbnails to be made for the rows that are shown.
//!
//! Each listing has a generation. A job or a result of another generation is
//! dropped, so work for a place that is no longer shown comes to nothing.
use crate::copy_run::path_views;
use crate::mime::{mime_from_path, path_mime};
use crate::text::{ascii_lower, opt_view, same_text, text_starts_with, to_ascii_lowercase};
use crate::thumbnails::{audio_ext, is_audio_ext, ThumbSize};
use crate::types::{entry_views, EntryView, FileEntry};
use crate::unix_path::{components, extension, strict_text, UnixPath};
use std::collections::VecDeque;
use vstd::prelude::*;
use vstd::string::*;
use vstd::utf8::*;

verus! {

// ---------------------------------------------------------------------------
// Which files get a thumbnail
// ---------------------------------------------------------------------------

/// Whether files of a MIME type get a thumbnail.
pub open spec fn thumbnailable_mime(m: Option<Seq<char>>) -> bool {
    m matches Some(s) && ("image/"@.is_prefix_of(s) || "video/"@.is_prefix_of(s)
        || "audio/"@.is_prefix_of(s) || s == "application/pdf"@)
}

/// Whether files of a MIME type get a thumbnail.
pub fn has_thumbnailable_mime(mime: &Option<String>) -> (r: bool)
    ensures
        r == thumbnailable_mime(opt_view(*mime)),
{
    match mime {
        Some(m) => text_starts_with(m, "image/") || text_starts_with(m, "video/")
            || text_starts_with(m, "audio/") || same_text(m, "application/pdf"),
        None => false,
    }
}

/// Whether a path has the extension of a sound that may carry a picture.
pub open spec fn thumbnailable_ext(p: Seq<u8>) -> bool {
    extension(p) matches Some(e) && valid_utf8(e) && audio_ext(ascii_lower(decode_utf8(e)))
}

/// Whether a path has the extension of a sound that may carry a picture.
pub fn has_thumbnailable_ext(path: &UnixPath) -> (r: bool)
    ensures
        r == thumbnailable_ext(path@),
{
    match path.extension() {
        Some(e) => {
            match strict_text(&e) {
                Some(t) => is_audio_ext(to_ascii_lowercase(t.as_str()).as_str()),
                None => false,
            }
        },
        None => false,
    }
}

/// Whether a path gets a thumbnail, by its MIME type or by its name.
pub fn is_thumbnailable_path(path: &UnixPath, mime: &Option<String>) -> (r: bool)
    ensures
        r == (thumbnailable_mime(opt_view(*mime)) || thumbnailable_ext(path@)
            || thumbnailable_mime(path_mime(path@))),
{
    if has_thumbnailable_mime(mime) || has_thumbnailable_ext(path) {
        return true;
    }
    let guess = mime_from_path(path);
    has_thumbnailable_mime(&guess)
}

/// The size with a number of the settings; the default for an unknown one.
pub fn thumb_size_from_u8(v: u8) -> (r: ThumbSize)
    ensures
        r == if v == 0 {
            ThumbSize::Normal
        } else if v == 1 {
            ThumbSize::Large
        } else if v == 3 {
            ThumbSize::XxLarge
        } else {
            ThumbSize::XLarge
        },
{
    if v == 0 {
        ThumbSize::Normal
    } else if v == 1 {
        ThumbSize::Large
    } else if v == 3 {
        ThumbSize::XxLarge
    } else {
        ThumbSize::XLarge
    }
}

/// A budget in mebibytes as bytes; none or a negative one is no limit.
pub fn budget_bytes(mb: i32) -> (r: u64)
    ensures
        r == if mb <= 0 {
            u64::MAX as int
        } else {
            mb * 1_048_576
        },
{
    if mb <= 0 {
        u64::MAX
    } else {
        (mb as u64) * 1_048_576
    }
}

/// How many bytes a decoded picture takes.
pub fn pixels_bytes(width: u32, height: u32) -> (r: u64)
    requires
        width * height * 4 <= u64::MAX,
    ensures
        r == width * height * 4,
{
    assert(width as u64 * height as u64 <= u64::MAX) by (nonlinear_arith)
        requires
            width * height * 4 <= u64::MAX,
    ;
    width as u64 * height as u64 * 4
}

/// How many workers make thumbnails: one for each processor, within limits.
pub fn worker_count(processors: usize) -> (r: usize)
    ensures
        r == if processors < 2 {
            2
        } else if processors > 8 {
            8
        } else {
            processors as int
        },
{
    if processors < 2 {
        2
    } else if processors > 8 {
        8
    } else {
        processors
    }
}

// ---------------------------------------------------------------------------
// The queue
// ---------------------------------------------------------------------------

/// A thumbnail to be made.
pub struct ThumbTask {
    pub generation: u64,
    pub src: UnixPath,
}

/// The queue, with what the thumbnails that are shown take in memory.
pub struct ThumbnailController {
    pub generation: u64,
    pub queue: VecDeque<ThumbTask>,
    pub thumb_size: u8,
    pub mem_used: u64,
    pub mem_budget: u64,
}

/// The paths that are queued.
pub open spec fn queued(q: Seq<ThumbTask>) -> Seq<Seq<u8>> {
    q.map_values(|t: ThumbTask| t.src@)
}

/// Whether all that is queued is of the current generation.
pub open spec fn all_current(c: ThumbnailController) -> bool {
    forall|i: int|
        0 <= i < c.queue@.len() ==> (#[trigger] c.queue@[i]).generation == c.generation
}

/// The paths among the first `n` entries that get a thumbnail.
pub open spec fn wanted_upto(es: Seq<EntryView>, n: int) -> Seq<Seq<u8>>
    decreases n,
{
    if n <= 0 {
        Seq::empty()
    } else if thumbnailable_mime(es[n - 1].mime) || thumbnailable_ext(es[n - 1].path) {
        wanted_upto(es, n - 1).push(es[n - 1].path)
    } else {
        wanted_upto(es, n - 1)
    }
}

/// The most results that are taken over at once.
pub const MAX_APPLY_PER_TICK: usize = 64;

/// The most milliseconds that taking over results may last.
pub const TICK_BUDGET: u64 = 12;

/// Whether more results are taken over in the same go.
pub fn tick_continues(applied: usize, elapsed_ms: u64) -> (r: bool)
    ensures
        r == (applied < MAX_APPLY_PER_TICK && elapsed_ms < TICK_BUDGET),
{
    applied < MAX_APPLY_PER_TICK && elapsed_ms < TICK_BUDGET
}

impl ThumbnailController {
    /// An empty queue with the settings of the user.
    pub fn new(size: i32, budget_mb: i32) -> (r: Self)
        ensures
            r.generation == 0,
            r.queue@.len() == 0,
            r.thumb_size == if size < 0 {
                0
            } else if size > 3 {
                3
            } else {
                size as int
            },
            r.mem_used == 0,
            r.mem_budget == if budget_mb <= 0 {
                u64::MAX as int
            } else {
                budget_mb * 1_048_576
            },
            all_current(r),
    {
        let thumb_size: u8 = if size < 0 {
            0
        } else if size > 3 {
            3
        } else {
            size as u8
        };
        ThumbnailController {
            generation: 0,
            queue: VecDeque::new(),
            thumb_size,
            mem_used: 0,
            mem_budget: budget_bytes(budget_mb),
        }
    }

    /// Drops what is queued, because something else is shown from now on.
    pub fn cancel_all(&mut self)
        requires
            old(self).generation < u64::MAX,
        ensures
            final(self).generation == old(self).generation + 1,
            final(self).queue@.len() == 0,
            final(self).mem_used == 0,
            final(self).mem_budget == old(self).mem_budget,
            final(self).thumb_size == old(self).thumb_size,
            all_current(*final(self)),
    {
        self.generation = self.generation + 1;
        self.mem_used = 0;
        self.queue = VecDeque::new();
    }

    /// Queues the thumbnails of a listing, in its order, in place of what was
    /// queued.
    pub fn submit_for(&mut self, entries: &Vec<FileEntry>)
        requires
            old(self).generation < u64::MAX,
        ensures
            final(self).generation == old(self).generation + 1,
            queued(final(self).queue@) == wanted_upto(
                entry_views(entries@),
                entries@.len() as int,
            ),
            final(self).mem_used == 0,
            final(self).mem_budget == old(self).mem_budget,
            final(self).thumb_size == old(self).thumb_size,
            all_current(*final(self)),
    {
        self.cancel_all();
        let ghost es = entry_views(entries@);
        let generation: u64 = self.generation;
        let mut queue: VecDeque<ThumbTask> = VecDeque::new();
        let mut i: usize = 0;
        assert(queued(queue@) =~= wanted_upto(es, 0));
        while i < entries.len()
            invariant
                i <= entries@.len(),
                es == entry_views(entries@),
                queued(queue@) == wanted_upto(es, i as int),
                forall|k: int|
                    0 <= k < queue@.len() ==> (#[trigger] queue@[k]).generation == generation,
            decreases entries@.len() - i,
        {
            let e = &entries[i];
            assert(es[i as int] == e@);
            if has_thumbnailable_mime(&e.mime) || has_thumbnailable_ext(&e.path) {
                let ghost before = queue@;
                queue.push_back(ThumbTask { generation, src: e.path.clone() });
                assert(queued(queue@) =~= queued(before).push(e.path@));
            }
            i += 1;
        }
        self.queue = queue;
    }

    /// Queues more paths of what is shown.
    pub fn enqueue_paths(&mut self, paths: &Vec<UnixPath>)
        requires
            all_current(*old(self)),
        ensures
            queued(final(self).queue@) == queued(old(self).queue@) + path_views(paths@),
            final(self).generation == old(self).generation,
            final(self).mem_used == old(self).mem_used,
            final(self).mem_budget == old(self).mem_budget,
            final(self).thumb_size == old(self).thumb_size,
            all_current(*final(self)),
    {
        let ghost ps = path_views(paths@);
        let mut i: usize = 0;
        assert(queued(self.queue@) =~= queued(old(self).queue@) + ps.take(0));
        while i < paths.len()
            invariant
                i <= paths@.len(),
                ps == path_views(paths@),
                queued(self.queue@) == queued(old(self).queue@) + ps.take(i as int),
                self.generation == old(self).generation,
                self.mem_used == old(self).mem_used,
                self.mem_budget == old(self).mem_budget,
                self.thumb_size == old(self).thumb_size,
                all_current(*self),
            decreases paths@.len() - i,
        {
            let ghost before = self.queue@;
            self.queue.push_back(
                ThumbTask { generation: self.generation, src: paths[i].clone() },
            );
            proof {
                assert(queued(self.queue@) =~= queued(before).push(paths@[i as int]@));
                assert(ps.take(i + 1) =~= ps.take(i as int).push(ps[i as int]));
                assert(queued(self.queue@) =~= queued(old(self).queue@) + ps.take(i + 1));
            }
            i += 1;
        }
        assert(ps.take(i as int) =~= ps);
    }

    /// Takes the next job off the queue.
    pub fn pop(&mut self) -> (r: Option<ThumbTask>)
        requires
            all_current(*old(self)),
        ensures
            r is Some == (old(self).queue@.len() > 0),
            r matches Some(t) ==> t == old(self).queue@[0] && final(self).queue@
                == old(self).queue@.skip(1),
            r is None ==> final(self).queue@ == old(self).queue@,
            final(self).generation == old(self).generation,
            final(self).mem_used == old(self).mem_used,
            final(self).mem_budget == old(self).mem_budget,
            final(self).thumb_size == old(self).thumb_size,
            all_current(*final(self)),
    {
        let r = self.queue.pop_front();
        assert(r is Some ==> self.queue@ =~= old(self).queue@.skip(1));
        r
    }

    /// Whether a job is still worth doing: it is of the current generation,
    /// there is room in memory and it did not fail before.
    pub fn should_generate(&self, job: &ThumbTask, marked_failed: bool) -> (r: Option<ThumbSize>)
        ensures
            r is Some == (job.generation == self.generation && self.mem_used < self.mem_budget
                && !marked_failed),
            r matches Some(s) ==> s == if self.thumb_size == 0 {
                ThumbSize::Normal
            } else if self.thumb_size == 1 {
                ThumbSize::Large
            } else if self.thumb_size == 3 {
                ThumbSize::XxLarge
            } else {
                ThumbSize::XLarge
            },
    {
        if job.generation != self.generation || self.mem_used >= self.mem_budget || marked_failed {
            None
        } else {
            Some(thumb_size_from_u8(self.thumb_size))
        }
    }

    /// Takes a result over. `folder` and `search` say of the row of the file in
    /// the listing and among the search results whether it has a thumbnail,
    /// where there is such a row. Returns whether the result counts against the
    /// limit of a go, and in which of the two it is to be shown. What is shown
    /// is charged to the memory.
    pub fn apply_result(
        &mut self,
        generation: u64,
        bytes: u64,
        folder: Option<bool>,
        search: Option<bool>,
    ) -> (r: (bool, bool, bool))
        requires
            old(self).mem_used + bytes <= u64::MAX,
        ensures
            ({
                let live = generation == old(self).generation && old(self).mem_used
                    < old(self).mem_budget;
                &&& r.0 == live
                &&& r.1 == (live && folder == Some(false))
                &&& r.2 == (live && search == Some(false))
                &&& final(self).mem_used == if r.1 || r.2 {
                    old(self).mem_used + bytes
                } else {
                    old(self).mem_used as int
                }
            }),
            final(self).generation == old(self).generation,
            final(self).queue == old(self).queue,
            final(self).mem_budget == old(self).mem_budget,
            final(self).thumb_size == old(self).thumb_size,
    {
        if generation != self.generation || self.mem_used >= self.mem_budget {
            return (false, false, false);
        }
        let in_folder: bool = match folder {
            Some(shown) => !shown,
            None => false,
        };
        let in_search: bool = match search {
            Some(shown) => !shown,
            None => false,
        };
        if in_folder || in_search {
            self.mem_used = self.mem_used + bytes;
        }
        (true, in_folder, in_search)
    }
}

/// The last row that shows a path.
pub open spec fn is_last_row(paths: Seq<Seq<u8>>, p: Seq<u8>, i: int) -> bool {
    &&& 0 <= i < paths.len()
    &&& components(paths[i]) == components(p)
    &&& forall|k: int| i < k < paths.len() ==> components(#[trigger] paths[k]) != components(p)
}

/// The row that shows a path: the last, if there are several.
pub fn row_of_path(paths: &Vec<UnixPath>, p: &UnixPath) -> (r: Option<usize>)
    ensures
        match r {
            Some(i) => is_last_row(path_views(paths@), p@, i as int),
            None => forall|k: int|
                0 <= k < paths@.len() ==> components(#[trigger] path_views(paths@)[k])
                    != components(p@),
        },
{
    let ghost ps = path_views(paths@);
    let mut i: usize = paths.len();
    while i > 0
        invariant
            i <= paths@.len(),
            ps == path_views(paths@),
            forall|k: int| i <= k < paths@.len() ==> components(#[trigger] ps[k]) != components(p@),
        decreases i,
    {
        assert(ps[i - 1] == paths@[i - 1]@);
        if paths[i - 1].same(p) {
            return Some(i - 1);
        }
        i -= 1;
    }
    None
}

} // verus!
