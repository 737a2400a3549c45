//! The shared thumbnail cache: where a thumbnail lies, when it is fresh, which
//! files get one, and the film strip on those of videos.
//!
//! ```text
//! normal/<md5(uri)>.png    (128 px)
//! large/<md5(uri)>.png     (256 px)
//! x-large/<md5(uri)>.png   (512 px)
//! xx-large/<md5(uri)>.png  (1024 px)
//! fail/<app-name>/<md5(uri)>.png   (negative cache)
//! ```
use crate::calendar::{earlier, FileTime};
use crate::mime::{mime_from_path, path_mime};
use crate::num_text::{decimal, decimal_text, hex, hex_text};
use crate::text::{ascii_lower, same_text, text_starts_with, to_ascii_lowercase};
use crate::unix_path::{components, copy_bytes, extension, joined, lossy, strict_text, UnixPath};
use crate::user_dirs::{cache_dir, opt_path};
use vstd::prelude::*;
use vstd::string::*;
use vstd::utf8::*;

verus! {

/// The edge of a thumbnail.
#[derive(Clone, Copy, Debug, PartialEq, Eq, Structural)]
pub enum ThumbSize {
    Normal,
    Large,
    XLarge,
    XxLarge,
}

/// The edge in pixels.
pub open spec fn edge(size: ThumbSize) -> u32 {
    match size {
        ThumbSize::Normal => 128,
        ThumbSize::Large => 256,
        ThumbSize::XLarge => 512,
        ThumbSize::XxLarge => 1024,
    }
}

/// The directory of thumbnails of one size.
pub open spec fn size_dir(size: ThumbSize) -> Seq<char> {
    match size {
        ThumbSize::Normal => "normal"@,
        ThumbSize::Large => "large"@,
        ThumbSize::XLarge => "x-large"@,
        ThumbSize::XxLarge => "xx-large"@,
    }
}

impl ThumbSize {
    /// The edge in pixels.
    pub fn pixels(self) -> (r: u32)
        ensures
            r == edge(self),
    {
        match self {
            ThumbSize::Normal => 128,
            ThumbSize::Large => 256,
            ThumbSize::XLarge => 512,
            ThumbSize::XxLarge => 1024,
        }
    }

    /// The name of the size's directory.
    pub fn dir(self) -> (r: &'static str)
        ensures
            r@ == size_dir(self),
    {
        match self {
            ThumbSize::Normal => "normal",
            ThumbSize::Large => "large",
            ThumbSize::XLarge => "x-large",
            ThumbSize::XxLarge => "xx-large",
        }
    }
}

// ---------------------------------------------------------------------------
// Digests
// ---------------------------------------------------------------------------

/// The MD5 digest of bytes.
pub uninterp spec fn md5(bytes: Seq<u8>) -> Seq<u8>;

/// Calls `Digest::digest` of `md5::Md5`: sixteen bytes that depend on the input
/// alone. The algorithm is not restated.
#[verifier::external_body]
fn md5_digest(bytes: &[u8]) -> (r: Vec<u8>)
    ensures
        r@ == md5(bytes@),
        r@.len() == 16,
{
    <md5::Md5 as md5::Digest>::digest(bytes).to_vec()
}

/// The MD5 digest of a text in hexadecimal.
pub fn md5_hex(s: &str) -> (r: String)
    ensures
        r@ == hex(md5(encode_utf8(s@))),
        r@.len() == 32,
{
    let d = md5_digest(s.as_bytes());
    proof {
        crate::num_text::lemma_hex_len(d@);
    }
    hex_text(&d)
}

// ---------------------------------------------------------------------------
// Paths
// ---------------------------------------------------------------------------

/// The thumbnails below the user's cache directory.
pub open spec fn cache_below(cache: Seq<u8>) -> Seq<u8> {
    joined(cache, encode_utf8("thumbnails"@))
}

/// The root of the thumbnail cache, for what the system says of the user's cache
/// directory.
pub fn cache_root_in(cache: &Option<UnixPath>) -> (r: Option<UnixPath>)
    ensures
        opt_path(r) == match *cache {
            Some(c) => Some(cache_below(c@)),
            None => None,
        },
{
    match cache {
        Some(c) => Some(c.join("thumbnails")),
        None => None,
    }
}

/// The root of the thumbnail cache, if the user has a cache directory.
pub fn cache_root() -> (r: Option<UnixPath>)
    ensures
        r matches Some(p) ==> exists|cache: Seq<u8>| p@ == #[trigger] cache_below(cache),
{
    cache_root_in(&cache_dir())
}

/// Whether `canonicalize` answered `q` for `p`.
pub open spec fn resolved<F: Fn(&UnixPath) -> Option<UnixPath>>(
    canonicalize: F,
    p: Seq<u8>,
    q: Option<Seq<u8>>,
) -> bool {
    exists|x: UnixPath, y: Option<UnixPath>|
        x@ == p && opt_path(y) == q && #[trigger] call_ensures(canonicalize, (&x,), y)
}

/// A path, or what it was resolved to.
pub open spec fn or_raw(q: Option<Seq<u8>>, p: Seq<u8>) -> Seq<u8> {
    match q {
        Some(r) => r,
        None => p,
    }
}

/// Whether `path` lies below `root`, both resolved where that is possible.
pub fn is_below_root<F: Fn(&UnixPath) -> Option<UnixPath>>(
    path: &UnixPath,
    root: &UnixPath,
    canonicalize: F,
) -> (r: bool)
    requires
        forall|q: UnixPath| call_requires(canonicalize, (&q,)),
    ensures
        exists|p: Option<Seq<u8>>, q: Option<Seq<u8>>|
            #[trigger] resolved(canonicalize, path@, p) && #[trigger] resolved(
                canonicalize,
                root@,
                q,
            ) && r == components(or_raw(q, root@)).is_prefix_of(components(or_raw(p, path@))),
{
    let real_path = canonicalize(path);
    assert(resolved(canonicalize, path@, opt_path(real_path)));
    let real_root = canonicalize(root);
    assert(resolved(canonicalize, root@, opt_path(real_root)));
    let p: UnixPath = match real_path {
        Some(x) => x,
        None => path.clone(),
    };
    let q: UnixPath = match real_root {
        Some(x) => x,
        None => root.clone(),
    };
    p.starts_with(&q)
}

/// Whether a path lies in the thumbnail cache, so that it is a thumbnail itself
/// and must not get one.
pub fn is_in_thumbnail_cache<F: Fn(&UnixPath) -> Option<UnixPath>>(
    path: &UnixPath,
    canonicalize: F,
) -> (r: bool)
    requires
        forall|q: UnixPath| call_requires(canonicalize, (&q,)),
    ensures
        r ==> exists|cache: Seq<u8>, p: Option<Seq<u8>>, q: Option<Seq<u8>>|
            #[trigger] resolved(canonicalize, path@, p) && #[trigger] resolved(
                canonicalize,
                cache_below(cache),
                q,
            ) && components(or_raw(q, cache_below(cache))).is_prefix_of(
                components(or_raw(p, path@)),
            ),
{
    match cache_root() {
        Some(root) => is_below_root(path, &root, canonicalize),
        None => false,
    }
}

/// The address of a file.
pub open spec fn uri_of(path: Seq<u8>) -> Seq<char> {
    "file://"@ + lossy(path)
}

/// The address of a file.
pub fn file_uri(path: &UnixPath) -> (r: String)
    ensures
        r@ == uri_of(path@),
{
    let mut s: String = "file://".to_owned();
    s.append(path.display().as_str());
    s
}

/// The hexadecimal digest of an address.
pub open spec fn digest_of(uri: Seq<char>) -> Seq<char> {
    hex(md5(encode_utf8(uri)))
}

/// Where the thumbnail of an address lies below the cache root.
pub open spec fn cached_at(root: Seq<u8>, uri: Seq<char>, size: ThumbSize) -> Seq<u8> {
    joined(joined(root, encode_utf8(size_dir(size))), encode_utf8(digest_of(uri) + ".png"@))
}

/// Where the mark of a failure lies below the cache root.
pub open spec fn failed_at(root: Seq<u8>, uri: Seq<char>, app_name: Seq<char>) -> Seq<u8> {
    joined(
        joined(joined(root, encode_utf8("fail"@)), encode_utf8(app_name)),
        encode_utf8(digest_of(uri) + ".png"@),
    )
}

/// Where the mark of an image no larger than its thumbnail lies below the cache
/// root.
pub open spec fn too_small_at(root: Seq<u8>, uri: Seq<char>, size: ThumbSize) -> Seq<u8> {
    joined(
        joined(joined(root, encode_utf8("too-small"@)), encode_utf8(size_dir(size))),
        encode_utf8(digest_of(uri)),
    )
}

/// The thumbnail of an address below a cache root.
pub fn cache_path_in(root: &UnixPath, uri: &str, size: ThumbSize) -> (r: UnixPath)
    ensures
        r@ == cached_at(root@, uri@, size),
{
    let mut name = md5_hex(uri);
    name.append(".png");
    root.join(size.dir()).join(name.as_str())
}

/// The mark of a failure below a cache root.
pub fn fail_path_in(root: &UnixPath, uri: &str, app_name: &str) -> (r: UnixPath)
    ensures
        r@ == failed_at(root@, uri@, app_name@),
{
    let mut name = md5_hex(uri);
    name.append(".png");
    root.join("fail").join(app_name).join(name.as_str())
}

/// The mark of a small image below a cache root.
pub fn too_small_path_in(root: &UnixPath, uri: &str, size: ThumbSize) -> (r: UnixPath)
    ensures
        r@ == too_small_at(root@, uri@, size),
{
    root.join("too-small").join(size.dir()).join(md5_hex(uri).as_str())
}

/// The thumbnail of an address in the user's cache.
pub fn cache_path_for(uri: &str, size: ThumbSize) -> (r: Option<UnixPath>)
    ensures
        r matches Some(p) ==> exists|cache: Seq<u8>|
            p@ == #[trigger] cached_at(cache_below(cache), uri@, size),
{
    match cache_root() {
        Some(root) => Some(cache_path_in(&root, uri, size)),
        None => None,
    }
}

/// The mark of a failure in the user's cache.
pub fn fail_path_for(uri: &str, app_name: &str) -> (r: Option<UnixPath>)
    ensures
        r matches Some(p) ==> exists|cache: Seq<u8>|
            p@ == #[trigger] failed_at(cache_below(cache), uri@, app_name@),
{
    match cache_root() {
        Some(root) => Some(fail_path_in(&root, uri, app_name)),
        None => None,
    }
}

/// The mark of a small image in the user's cache.
pub fn too_small_path_for(uri: &str, size: ThumbSize) -> (r: Option<UnixPath>)
    ensures
        r matches Some(p) ==> exists|cache: Seq<u8>|
            p@ == #[trigger] too_small_at(cache_below(cache), uri@, size),
{
    match cache_root() {
        Some(root) => Some(too_small_path_in(&root, uri, size)),
        None => None,
    }
}

// ---------------------------------------------------------------------------
// Freshness
// ---------------------------------------------------------------------------

/// Whether something made at `made` is there and no older than its source.
pub open spec fn fresh(made: Option<FileTime>, source: FileTime) -> bool {
    made matches Some(t) && !earlier(t, source)
}

/// Whether a cached file is there and no older than its source.
pub fn is_cache_fresh(made: Option<FileTime>, source_mtime: FileTime) -> (r: bool)
    ensures
        r == fresh(made, source_mtime),
{
    match made {
        Some(t) => !t.before(&source_mtime),
        None => false,
    }
}

/// Whether a file is marked as failed: the mark is there and no older than the
/// file. A file whose time is unknown is not.
pub fn is_marked_failed(marked: Option<FileTime>, source_mtime: Option<FileTime>) -> (r: bool)
    ensures
        r == (source_mtime matches Some(s) && fresh(marked, s)),
{
    match source_mtime {
        Some(s) => is_cache_fresh(marked, s),
        None => false,
    }
}

/// What the cache holds for an image.
#[derive(Clone, Copy, Debug, PartialEq, Eq, Structural)]
pub enum CacheState {
    /// The image is known to be small: show it itself.
    Original,
    /// A thumbnail is there.
    Cached,
    /// A thumbnail has to be made.
    Stale,
}

/// Looks at the marks for an image: the one for small images comes first.
pub fn image_cache_state(
    too_small: Option<FileTime>,
    cached: Option<FileTime>,
    source_mtime: FileTime,
) -> (r: CacheState)
    ensures
        r == if fresh(too_small, source_mtime) {
            CacheState::Original
        } else if fresh(cached, source_mtime) {
            CacheState::Cached
        } else {
            CacheState::Stale
        },
{
    if is_cache_fresh(too_small, source_mtime) {
        CacheState::Original
    } else if is_cache_fresh(cached, source_mtime) {
        CacheState::Cached
    } else {
        CacheState::Stale
    }
}

/// Whether an image is no larger than its thumbnail would be.
pub fn is_too_small(width: u32, height: u32, size: ThumbSize) -> (r: bool)
    ensures
        r == (width <= edge(size) && height <= edge(size)),
{
    width <= size.pixels() && height <= size.pixels()
}

/// The scale at which a page is rendered for a thumbnail, in quarters:
/// proportional to the edge.
pub fn pdf_scale_quarters(size: ThumbSize) -> (r: u32)
    ensures
        r * 128 == edge(size),
        1 <= r <= 8,
{
    size.pixels() / 128
}

// ---------------------------------------------------------------------------
// Which files get a thumbnail
// ---------------------------------------------------------------------------

/// How the thumbnail of a file is made.
#[derive(Debug, Clone, Copy, PartialEq, Eq, Structural)]
pub enum Kind {
    Image,
    Pdf,
    Video,
    Audio,
    Other,
}

/// Extensions of videos that are not guessed as such.
pub open spec fn extra_video_ext(e: Seq<char>) -> bool {
    ||| e == "rmvb"@
    ||| e == "rm"@
    ||| e == "ts"@
    ||| e == "mts"@
    ||| e == "m2ts"@
    ||| e == "vob"@
    ||| e == "ogm"@
    ||| e == "divx"@
    ||| e == "f4v"@
    ||| e == "asf"@
}

/// Extensions of audio files that may carry a picture.
pub open spec fn audio_ext(e: Seq<char>) -> bool {
    ||| e == "mp3"@
    ||| e == "flac"@
    ||| e == "m4a"@
    ||| e == "m4b"@
    ||| e == "mp4a"@
    ||| e == "aac"@
    ||| e == "ogg"@
    ||| e == "opus"@
    ||| e == "wav"@
    ||| e == "wv"@
    ||| e == "ape"@
    ||| e == "aiff"@
    ||| e == "aif"@
}

/// Whether an extension is one of a video that is not guessed as such.
pub fn is_extra_video_ext(e: &str) -> (r: bool)
    ensures
        r == extra_video_ext(e@),
{
    same_text(e, "rmvb") || same_text(e, "rm") || same_text(e, "ts") || same_text(e, "mts")
        || same_text(e, "m2ts") || same_text(e, "vob") || same_text(e, "ogm") || same_text(
        e,
        "divx",
    ) || same_text(e, "f4v") || same_text(e, "asf")
}

/// Whether an extension is one of an audio file that may carry a picture.
pub fn is_audio_ext(e: &str) -> (r: bool)
    ensures
        r == audio_ext(e@),
{
    same_text(e, "mp3") || same_text(e, "flac") || same_text(e, "m4a") || same_text(e, "m4b")
        || same_text(e, "mp4a") || same_text(e, "aac") || same_text(e, "ogg") || same_text(
        e,
        "opus",
    ) || same_text(e, "wav") || same_text(e, "wv") || same_text(e, "ape") || same_text(e, "aiff")
        || same_text(e, "aif")
}

/// The kind that a MIME type gives, if it gives one.
pub open spec fn mime_kind(m: Option<Seq<char>>) -> Option<Kind> {
    match m {
        Some(m) => if "image/"@.is_prefix_of(m) {
            Some(Kind::Image)
        } else if "video/"@.is_prefix_of(m) {
            Some(Kind::Video)
        } else if m == "application/pdf"@ {
            Some(Kind::Pdf)
        } else if "audio/"@.is_prefix_of(m) {
            Some(Kind::Audio)
        } else {
            None
        },
        None => None,
    }
}

/// The kind that an extension gives.
pub open spec fn ext_kind(e: Option<Seq<u8>>) -> Kind {
    match e {
        Some(e) => if !valid_utf8(e) {
            Kind::Other
        } else if extra_video_ext(ascii_lower(decode_utf8(e))) {
            Kind::Video
        } else if audio_ext(ascii_lower(decode_utf8(e))) {
            Kind::Audio
        } else {
            Kind::Other
        },
        None => Kind::Other,
    }
}

/// The kind of a file: by its MIME type, then by its extension.
pub open spec fn kind_for(mime: Option<Seq<char>>, path: Seq<u8>) -> Kind {
    match mime_kind(mime) {
        Some(k) => k,
        None => ext_kind(extension(path)),
    }
}

/// The kind of a file whose guessed MIME type is given.
pub fn classify_as(path: &UnixPath, mime: &Option<String>) -> (r: Kind)
    ensures
        r == kind_for(crate::text::opt_view(*mime), path@),
{
    if let Some(m) = mime {
        if text_starts_with(m, "image/") {
            return Kind::Image;
        }
        if text_starts_with(m, "video/") {
            return Kind::Video;
        }
        if same_text(m, "application/pdf") {
            return Kind::Pdf;
        }
        if text_starts_with(m, "audio/") {
            return Kind::Audio;
        }
    }
    if let Some(e) = path.extension() {
        if let Some(t) = strict_text(&e) {
            let ext = to_ascii_lowercase(t.as_str());
            if is_extra_video_ext(ext.as_str()) {
                return Kind::Video;
            }
            if is_audio_ext(ext.as_str()) {
                return Kind::Audio;
            }
        }
    }
    Kind::Other
}

/// The kind of a file by its name.
pub fn classify(path: &UnixPath) -> (r: Kind)
    ensures
        r == kind_for(path_mime(path@), path@),
{
    let mime = mime_from_path(path);
    classify_as(path, &mime)
}

/// What is to be done for the thumbnail of a file.
#[derive(Debug, Clone, Copy, PartialEq, Eq, Structural)]
pub enum ThumbJob {
    /// The file is a thumbnail: show it itself.
    ShowItself,
    /// Make a thumbnail; on failure mark the file.
    Generate(Kind),
    /// The file gets no thumbnail.
    Nothing,
}

/// Decides what is to be done for the thumbnail of a file.
pub fn thumb_job(path: &UnixPath, in_cache: bool) -> (r: ThumbJob)
    ensures
        r == if in_cache {
            ThumbJob::ShowItself
        } else if kind_for(path_mime(path@), path@) == Kind::Other {
            ThumbJob::Nothing
        } else {
            ThumbJob::Generate(kind_for(path_mime(path@), path@))
        },
{
    if in_cache {
        return ThumbJob::ShowItself;
    }
    match classify(path) {
        Kind::Other => ThumbJob::Nothing,
        k => ThumbJob::Generate(k),
    }
}

/// What comes of a thumbnail.
#[derive(Debug)]
pub enum ThumbResult {
    /// Show this image.
    Show(UnixPath),
    /// There is no thumbnail, and the file is marked so that none is tried
    /// again.
    MarkFailed,
    /// There is no thumbnail.
    Nothing,
}

/// What comes of a thumbnail. `generated` is the image that was made for a file
/// that gets one; every failure marks the file.
pub fn generate_or_fail(src: &UnixPath, in_cache: bool, generated: Option<UnixPath>) -> (r:
    ThumbResult)
    ensures
        if in_cache {
            r matches ThumbResult::Show(p) && p@ == src@
        } else if kind_for(path_mime(src@), src@) == Kind::Other {
            r is Nothing
        } else {
            match generated {
                Some(g) => r matches ThumbResult::Show(p) && p@ == g@,
                None => r is MarkFailed,
            }
        },
{
    match thumb_job(src, in_cache) {
        ThumbJob::ShowItself => ThumbResult::Show(src.clone()),
        ThumbJob::Nothing => ThumbResult::Nothing,
        ThumbJob::Generate(_) => match generated {
            Some(g) => ThumbResult::Show(g),
            None => ThumbResult::MarkFailed,
        },
    }
}

/// Why a sound gets no thumbnail.
#[derive(Clone, Copy, Debug, PartialEq, Eq, Structural)]
pub enum CoverError {
    NoPicture,
    EmptyPicture,
    Undecodable,
    TooLarge,
}

impl CoverError {
    pub fn message(&self) -> (r: String)
        ensures
            r@ == match *self {
                CoverError::NoPicture => "no embedded picture in audio file"@,
                CoverError::EmptyPicture => "embedded picture is empty"@,
                CoverError::Undecodable => "embedded picture cannot be decoded"@,
                CoverError::TooLarge => "embedded picture is too large"@,
            },
    {
        match self {
            CoverError::NoPicture => "no embedded picture in audio file".to_owned(),
            CoverError::EmptyPicture => "embedded picture is empty".to_owned(),
            CoverError::Undecodable => "embedded picture cannot be decoded".to_owned(),
            CoverError::TooLarge => "embedded picture is too large".to_owned(),
        }
    }
}

/// The first picture among the tags of a sound: of each tag, only its first
/// picture counts.
pub open spec fn first_picture(tags: Seq<Option<Vec<u8>>>) -> Option<Seq<u8>>
    decreases tags.len(),
{
    if tags.len() == 0 {
        None
    } else {
        match tags[0] {
            Some(p) => Some(p@),
            None => first_picture(tags.skip(1)),
        }
    }
}

/// The picture that stands for a sound. `tags` holds the first picture of each
/// tag, where the tag has one.
pub fn cover_picture(tags: &Vec<Option<Vec<u8>>>) -> (r: Result<Vec<u8>, CoverError>)
    ensures
        match first_picture(tags@) {
            None => r == Err::<Vec<u8>, CoverError>(CoverError::NoPicture),
            Some(p) => if p.len() == 0 {
                r == Err::<Vec<u8>, CoverError>(CoverError::EmptyPicture)
            } else {
                r matches Ok(v) && v@ == p
            },
        },
{
    let mut i: usize = 0;
    assert(tags@.skip(0) =~= tags@);
    while i < tags.len()
        invariant
            i <= tags@.len(),
            first_picture(tags@) == first_picture(tags@.skip(i as int)),
        decreases tags@.len() - i,
    {
        assert(tags@.skip(i as int)[0] == tags@[i as int]);
        assert(tags@.skip(i as int).skip(1) =~= tags@.skip(i + 1));
        if let Some(p) = &tags[i] {
            if p.len() == 0 {
                return Err(CoverError::EmptyPicture);
            }
            return Ok(copy_bytes(p));
        }
        i += 1;
    }
    Err(CoverError::NoPicture)
}

// ---------------------------------------------------------------------------
// Pictures
// ---------------------------------------------------------------------------

/// A picture that was decoded.
#[verifier::external_type_specification]
#[verifier::external_body]
pub struct ExDynamicImage(image::DynamicImage);

/// What is known of a decoded picture.
#[derive(Clone, Copy, Debug, PartialEq, Eq, Structural)]
pub struct PictureFacts {
    pub width: u32,
    pub height: u32,
    /// How many bytes a pixel takes.
    pub pixel_bytes: u8,
    /// How many samples a pixel has.
    pub channels: u8,
}

/// What is known of a decoded picture.
pub uninterp spec fn picture_facts(img: image::DynamicImage) -> PictureFacts;

/// What `image::DynamicImage::thumbnail` makes of a picture, turned into four
/// bytes a pixel: width, height and bytes.
pub uninterp spec fn thumbnail_pixels(img: image::DynamicImage, edge: u32) -> (u32, u32, Seq<u8>);

/// A picture of four bytes a pixel, row by row.
#[derive(Debug)]
pub struct Pixels {
    pub width: u32,
    pub height: u32,
    pub rgba: Vec<u8>,
}

/// The longer side of a picture.
pub open spec fn longer_side(f: PictureFacts) -> int {
    if f.width > f.height {
        f.width as int
    } else {
        f.height as int
    }
}

/// The least that is left of a side when a picture is shrunk.
pub open spec fn least_side(f: PictureFacts, side: int, edge: int) -> int {
    if side * edge < longer_side(f) || longer_side(f) == 0 {
        1
    } else {
        side * edge / longer_side(f)
    }
}

/// The most pixels of a side that come together in one of the shrunk picture,
/// with what the rounding of single-precision numbers adds.
pub open spec fn side_reach(f: PictureFacts, side: int, edge: int) -> int {
    side / least_side(f, side, edge) + 3 + side / 0x20_0000
}

/// How many values a sample can have; one where samples are no whole numbers.
pub open spec fn sample_levels(f: PictureFacts) -> int {
    if f.pixel_bytes == f.channels {
        0x100
    } else if f.pixel_bytes == 2 * f.channels {
        0x1_0000
    } else {
        1
    }
}

/// Whether a picture can be shrunk: the sum over the pixels that come together
/// in one fits into 32 bits.
pub open spec fn can_shrink(f: PictureFacts, edge: int) -> bool {
    side_reach(f, f.width as int, edge) * side_reach(f, f.height as int, edge) * sample_levels(f)
        <= u32::MAX
}

/// Whether `r` is what is left of a side: in proportion, but for less than a
/// pixel, and at least one pixel.
pub open spec fn in_proportion(f: PictureFacts, side: int, edge: int, r: int) -> bool {
    let m = longer_side(f);
    r == 1 || -m <= r * m - side * edge <= m
}

/// Whether a picture is the thumbnail of another one: what the shrinking makes
/// of it, no side longer than the edge, the longer one as long as it, the other
/// in proportion.
pub open spec fn is_thumbnail(img: image::DynamicImage, edge: u32, p: Pixels) -> bool {
    let f = picture_facts(img);
    &&& (p.width, p.height, p.rgba@) == thumbnail_pixels(img, edge)
    &&& 1 <= p.width <= edge
    &&& 1 <= p.height <= edge
    &&& p.rgba@.len() == 4 * p.width * p.height
    &&& f.width > 0 || f.height > 0 ==> p.width == edge || p.height == edge
    &&& in_proportion(f, f.width as int, edge as int, p.width as int)
    &&& in_proportion(f, f.height as int, edge as int, p.height as int)
}

/// Reads the sides and the layout of an `image::DynamicImage`, by its `width`,
/// `height` and `color`. They depend on the picture alone.
#[verifier::external_body]
fn facts_of(img: &image::DynamicImage) -> (r: PictureFacts)
    ensures
        r == picture_facts(*img),
{
    PictureFacts {
        width: img.width(),
        height: img.height(),
        pixel_bytes: img.color().bytes_per_pixel(),
        channels: img.color().channel_count(),
    }
}

/// Calls `image::load_from_memory`. What comes of the bytes depends on the
/// decoders that the process has registered too: nothing is claimed of it.
#[verifier::external_body]
fn load_from_memory(data: &[u8]) -> Option<image::DynamicImage> {
    image::load_from_memory(data).ok()
}

/// Calls `image::DynamicImage::thumbnail` with a square, and turns the result
/// into four bytes a pixel. It adds up the samples that come together in one
/// pixel in 32 bits, which must do. The result depends on the picture and the
/// edge alone; both sides are scaled by the same ratio and rounded, to one pixel
/// at least, so that the longer one becomes the edge.
#[verifier::external_body]
fn shrink(img: &image::DynamicImage, edge: u32) -> (r: Pixels)
    requires
        0 < edge <= 1024,
        can_shrink(picture_facts(*img), edge as int),
    ensures
        (r.width, r.height, r.rgba@) == thumbnail_pixels(*img, edge),
        1 <= r.width <= edge,
        1 <= r.height <= edge,
        r.rgba@.len() == 4 * r.width * r.height,
        picture_facts(*img).width > 0 || picture_facts(*img).height > 0 ==> r.width == edge
            || r.height == edge,
        in_proportion(
            picture_facts(*img),
            picture_facts(*img).width as int,
            edge as int,
            r.width as int,
        ),
        in_proportion(
            picture_facts(*img),
            picture_facts(*img).height as int,
            edge as int,
            r.height as int,
        ),
{
    let small = img.thumbnail(edge, edge).to_rgba8();
    Pixels { width: small.width(), height: small.height(), rgba: small.into_raw() }
}

fn reach_of(f: PictureFacts, side: u32, edge: u32) -> (r: u64)
    requires
        0 < edge <= 1024,
    ensures
        r == side_reach(f, side as int, edge as int),
        r <= 0x1_0000_0802,
{
    let longer: u64 = if f.width > f.height {
        f.width as u64
    } else {
        f.height as u64
    };
    assert(side * edge <= 0xffff_ffff * 1024) by (nonlinear_arith)
        requires
            side <= 0xffff_ffff,
            edge <= 1024,
    ;
    let scaled: u64 = side as u64 * edge as u64;
    let least: u64 = if longer == 0 || scaled < longer {
        1
    } else {
        scaled / longer
    };
    assert(longer > 0 && scaled >= longer ==> scaled / longer >= 1) by (nonlinear_arith);
    let wide: u64 = side as u64;
    assert(wide / least <= wide) by (nonlinear_arith)
        requires
            least >= 1,
    ;
    wide / least + 3 + wide / 0x20_0000
}

/// Whether a picture can be shrunk to a size.
pub fn fits_shrinking(img: &image::DynamicImage, size: ThumbSize) -> (r: bool)
    ensures
        r == can_shrink(picture_facts(*img), edge(size) as int),
{
    let f = facts_of(img);
    let edge: u32 = size.pixels();
    let across: u128 = reach_of(f, f.width, edge) as u128;
    let down: u128 = reach_of(f, f.height, edge) as u128;
    let levels: u128 = if f.pixel_bytes == f.channels {
        0x100
    } else if f.pixel_bytes % 2 == 0 && f.pixel_bytes / 2 == f.channels {
        0x1_0000
    } else {
        1
    };
    assert(across * down <= 0x1_0000_0802 * 0x1_0000_0802) by (nonlinear_arith)
        requires
            0 <= across <= 0x1_0000_0802,
            0 <= down <= 0x1_0000_0802,
    ;
    let area: u128 = across * down;
    assert(area * levels <= 0x1_0000_0802 * 0x1_0000_0802 * 0x1_0000) by (nonlinear_arith)
        requires
            0 <= area <= 0x1_0000_0802 * 0x1_0000_0802,
            0 <= levels <= 0x1_0000,
    ;
    area * levels <= 0xffff_ffff
}

/// The thumbnail of a picture.
pub fn image_thumbnail(img: &image::DynamicImage, size: ThumbSize) -> (r: Pixels)
    requires
        can_shrink(picture_facts(*img), edge(size) as int),
    ensures
        is_thumbnail(*img, edge(size), r),
        r.width <= edge(size),
        r.height <= edge(size),
        r.rgba@.len() == 4 * r.width * r.height,
{
    shrink(img, size.pixels())
}

/// The thumbnail of a picture, unless so many of its pixels come together in one
/// that their sum does not fit.
pub fn checked_thumbnail(img: &image::DynamicImage, size: ThumbSize) -> (r: Option<Pixels>)
    ensures
        r is Some == can_shrink(picture_facts(*img), edge(size) as int),
        r matches Some(p) ==> is_thumbnail(*img, edge(size), p) && p.width <= edge(size)
            && p.height <= edge(size),
{
    if fits_shrinking(img, size) {
        Some(image_thumbnail(img, size))
    } else {
        None
    }
}

/// Whether `r` is what comes of a picture that was decoded, or could not be.
pub open spec fn cover_outcome(
    decoded: Option<image::DynamicImage>,
    size: ThumbSize,
    r: Result<Pixels, CoverError>,
) -> bool {
    match decoded {
        None => r == Err::<Pixels, CoverError>(CoverError::Undecodable),
        Some(img) => if can_shrink(picture_facts(img), edge(size) as int) {
            r matches Ok(p) && is_thumbnail(img, edge(size), p)
        } else {
            r == Err::<Pixels, CoverError>(CoverError::TooLarge)
        },
    }
}

/// The thumbnail of a sound whose picture was decoded, or could not be.
pub fn cover_thumbnail(decoded: Option<image::DynamicImage>, size: ThumbSize) -> (r: Result<
    Pixels,
    CoverError,
>)
    ensures
        cover_outcome(decoded, size, r),
{
    match decoded {
        None => Err(CoverError::Undecodable),
        Some(img) => match checked_thumbnail(&img, size) {
            Some(p) => Ok(p),
            None => Err(CoverError::TooLarge),
        },
    }
}

/// The thumbnail of a sound: the picture that stands for it, decoded and shrunk.
/// `tags` holds the first picture of each tag, where the tag has one. Which
/// picture the bytes decode to is left open.
pub fn audio_thumbnail(tags: &Vec<Option<Vec<u8>>>, size: ThumbSize) -> (r: Result<
    Pixels,
    CoverError,
>)
    ensures
        match first_picture(tags@) {
            None => r == Err::<Pixels, CoverError>(CoverError::NoPicture),
            Some(p) => if p.len() == 0 {
                r == Err::<Pixels, CoverError>(CoverError::EmptyPicture)
            } else {
                exists|decoded: Option<image::DynamicImage>| #[trigger]
                    cover_outcome(decoded, size, r)
            },
        },
        r matches Ok(p) ==> p.width <= edge(size) && p.height <= edge(size) && p.rgba@.len() == 4
            * p.width * p.height,
{
    match cover_picture(tags) {
        Ok(data) => {
            let decoded = load_from_memory(data.as_slice());
            let ghost d = decoded;
            let r = cover_thumbnail(decoded, size);
            assert(cover_outcome(d, size, r));
            r
        },
        Err(e) => Err(e),
    }
}

/// The arguments with which a frame is taken out of a video.
pub fn frame_grabber_args(source: &UnixPath, target: &UnixPath, size: ThumbSize) -> (r: Vec<UnixPath>)
    ensures
        r@.len() == 12,
        r@[0]@ == encode_utf8("-i"@),
        r@[1]@ == source@,
        r@[2]@ == encode_utf8("-o"@),
        r@[3]@ == target@,
        r@[4]@ == encode_utf8("-s"@),
        r@[5]@ == encode_utf8(decimal(edge(size) as nat)),
        r@[6]@ == encode_utf8("-q"@),
        r@[7]@ == encode_utf8("8"@),
        r@[8]@ == encode_utf8("-c"@),
        r@[9]@ == encode_utf8("png"@),
        r@[10]@ == encode_utf8("-t"@),
        r@[11]@ == encode_utf8("10%"@),
{
    let mut v: Vec<UnixPath> = Vec::new();
    v.push(UnixPath::new("-i"));
    v.push(source.clone());
    v.push(UnixPath::new("-o"));
    v.push(target.clone());
    v.push(UnixPath::new("-s"));
    v.push(UnixPath::new(decimal_text(size.pixels() as u64).as_str()));
    v.push(UnixPath::new("-q"));
    v.push(UnixPath::new("8"));
    v.push(UnixPath::new("-c"));
    v.push(UnixPath::new("png"));
    v.push(UnixPath::new("-t"));
    v.push(UnixPath::new("10%"));
    v
}

// ---------------------------------------------------------------------------
// The film strip
// ---------------------------------------------------------------------------

pub open spec fn clamped(x: int, lo: int, hi: int) -> int {
    if x < lo {
        lo
    } else if x > hi {
        hi
    } else {
        x
    }
}

/// The width of the bars at both sides.
pub open spec fn strip_width(w: int) -> int {
    clamped(w / 11, 6, 28)
}

/// The width of a hole in a bar.
pub open spec fn hole_width(w: int) -> int {
    if strip_width(w) * 5 / 8 < 3 {
        3
    } else {
        strip_width(w) * 5 / 8
    }
}

/// The height of a hole in a bar.
pub open spec fn hole_height(h: int) -> int {
    clamped(h / 14, 3, 14)
}

/// Whether column `x` lies in a bar.
pub open spec fn in_bar(w: int, x: int) -> bool {
    x < strip_width(w) || x >= w - strip_width(w)
}

/// Whether column `x` lies where holes are, in either bar.
pub open spec fn hole_column(w: int, x: int) -> bool {
    let pad = (strip_width(w) - hole_width(w)) / 2;
    ||| pad <= x < pad + hole_width(w)
    ||| pad <= w - 1 - x < pad + hole_width(w)
}

/// The first row of hole `i` of `holes`.
pub open spec fn hole_top(h: int, holes: int, i: int) -> int {
    let center = h * (2 * i + 1) / (2 * holes);
    if center < hole_height(h) / 2 {
        0
    } else {
        center - hole_height(h) / 2
    }
}

/// Whether row `y` lies in hole `i`.
pub open spec fn in_hole(h: int, holes: int, i: int, y: int) -> bool {
    hole_top(h, holes, i) <= y < hole_top(h, holes, i) + hole_height(h)
}

/// Whether row `y` lies in one of the holes.
pub open spec fn hole_row(h: int, holes: int, y: int) -> bool {
    exists|i: int| 0 <= i < holes && #[trigger] in_hole(h, holes, i, y)
}

/// The byte at index `k` of the painted picture, whose pixels are four bytes
/// each, row by row: holes are light grey, bars black, the rest as before.
pub open spec fn painted(w: int, h: int, holes: int, k: int, before: u8) -> u8 {
    let x = k / 4 % w;
    let y = k / 4 / w;
    let alpha = k % 4 == 3;
    if hole_column(w, x) && hole_row(h, holes, y) {
        if alpha {
            255
        } else {
            230
        }
    } else if in_bar(w, x) {
        if alpha {
            255
        } else {
            0
        }
    } else {
        before
    }
}

fn clamp_u32(x: u32, lo: u32, hi: u32) -> (r: u32)
    requires
        lo <= hi,
    ensures
        r == clamped(x as int, lo as int, hi as int),
{
    if x < lo {
        lo
    } else if x > hi {
        hi
    } else {
        x
    }
}

/// Which rows of a picture have holes.
fn hole_rows(h: u32, holes: u32) -> (r: Vec<bool>)
    requires
        1 <= holes <= 20,
    ensures
        r@.len() == h,
        forall|y: int| 0 <= y < h ==> r@[y] == hole_row(h as int, holes as int, y),
{
    let hole_h: u64 = clamp_u32(h / 14, 3, 14) as u64;
    let mut rows: Vec<bool> = Vec::new();
    let mut y: u32 = 0;
    while y < h
        invariant
            y <= h,
            1 <= holes <= 20,
            hole_h == hole_height(h as int),
            rows@.len() == y,
            forall|k: int| 0 <= k < y ==> rows@[k] == hole_row(h as int, holes as int, k),
        decreases h - y,
    {
        let mut found: bool = false;
        let mut i: u32 = 0;
        while i < holes
            invariant
                i <= holes,
                1 <= holes <= 20,
                hole_h == hole_height(h as int),
                found == exists|j: int|
                    0 <= j < i && #[trigger] in_hole(h as int, holes as int, j, y as int),
            decreases holes - i,
        {
            let odd: u64 = 2 * (i as u64) + 1;
            assert(h as u64 * odd <= 0xffff_ffff * 41) by (nonlinear_arith)
                requires
                    odd <= 41,
                    h <= 0xffff_ffff,
            ;
            let center: u64 = (h as u64 * odd) / (2 * (holes as u64));
            let top: u64 = if center < hole_h / 2 {
                0
            } else {
                center - hole_h / 2
            };
            assert(top == hole_top(h as int, holes as int, i as int));
            assert(top <= 0xffff_ffff * 41) by (nonlinear_arith)
                requires
                    top <= center,
                    center == (h as u64 * odd) / (2 * (holes as u64)),
                    h as u64 * odd <= 0xffff_ffff * 41,
                    holes >= 1,
            ;
            if top <= y as u64 && (y as u64) < top + hole_h {
                assert(in_hole(h as int, holes as int, i as int, y as int));
                found = true;
            }
            i += 1;
        }
        assert(found == hole_row(h as int, holes as int, y as int));
        rows.push(found);
        y += 1;
    }
    rows
}

/// Paints a film strip on a picture: black bars at the left and right edge with
/// evenly spaced light holes. A picture with an edge below 24 pixels is left
/// alone.
pub fn apply_film_strip(pixels: &mut Vec<u8>, w: u32, h: u32, holes: u32)
    requires
        old(pixels)@.len() == w * h * 4,
        1 <= holes <= 20,
    ensures
        final(pixels)@.len() == old(pixels)@.len(),
        w < 24 || h < 24 ==> final(pixels)@ == old(pixels)@,
        w >= 24 && h >= 24 ==> forall|k: int|
            0 <= k < old(pixels)@.len() ==> #[trigger] final(pixels)@[k] == painted(
                w as int,
                h as int,
                holes as int,
                k,
                old(pixels)@[k],
            ),
{
    if w < 24 || h < 24 {
        return ;
    }
    let strip: u32 = clamp_u32(w / 11, 6, 28);
    let hole_w: u32 = if strip * 5 / 8 < 3 {
        3
    } else {
        strip * 5 / 8
    };
    let pad: u32 = (strip - hole_w) / 2;
    let rows = hole_rows(h, holes);
    let n: usize = pixels.len();
    let ghost before = pixels@;
    let mut k: usize = 0;
    while k < n
        invariant
            k <= n,
            n == before.len(),
            n == w * h * 4,
            pixels@.len() == n,
            w >= 24,
            h >= 24,
            strip == strip_width(w as int),
            hole_w == hole_width(w as int),
            pad == (strip - hole_w) / 2,
            hole_w <= strip,
            rows@.len() == h,
            forall|y: int| 0 <= y < h ==> rows@[y] == hole_row(h as int, holes as int, y),
            forall|j: int|
                0 <= j < k ==> #[trigger] pixels@[j] == painted(
                    w as int,
                    h as int,
                    holes as int,
                    j,
                    before[j],
                ),
            forall|j: int| k <= j < n ==> #[trigger] pixels@[j] == before[j],
        decreases n - k,
    {
        let x: u32 = ((k / 4) % (w as usize)) as u32;
        let y: usize = (k / 4) / (w as usize);
        proof {
            assert(k / 4 < w * h) by (nonlinear_arith)
                requires
                    k < w * h * 4,
            ;
            assert(y < h) by (nonlinear_arith)
                requires
                    y == (k / 4) / (w as usize),
                    k / 4 < w * h,
                    w >= 24,
            ;
            assert((k / 4) % (w as usize) < w) by (nonlinear_arith)
                requires
                    w >= 24,
            ;
        }
        let alpha: bool = k % 4 == 3;
        let mirrored: u32 = w - 1 - x;
        let column: bool = (pad <= x && x < pad + hole_w) || (pad <= mirrored && mirrored < pad
            + hole_w);
        if column && rows[y] {
            pixels[k] = if alpha {
                255
            } else {
                230
            };
        } else if x < strip || x >= w - strip {
            pixels[k] = if alpha {
                255
            } else {
                0
            };
        }
        k += 1;
    }
}

} // verus!
