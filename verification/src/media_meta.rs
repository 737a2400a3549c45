//! What the properties dialog shows of pictures, sounds and videos.
use crate::format_util::round_half_even;
use crate::mime::{mime_from_path, path_mime};
use crate::num_text::{decimal, decimal_text, padded_decimal, padded_decimal_text};
use crate::text::{
    chars_of, opt_view, string_of, stripped_end, stripped_start, text_starts_with, trim, trim_char,
    trim_text, trimmed,
};
use crate::unix_path::UnixPath;
use vstd::prelude::*;
use vstd::string::*;

verus! {

/// Which media section a file gets.
#[derive(Clone, Copy, PartialEq, Eq, Debug, Structural)]
pub enum MediaKind {
    NoMedia,
    Image,
    Audio,
    Video,
}

impl MediaKind {
    /// The title of the media section.
    pub fn label(self) -> (r: &'static str)
        ensures
            r@ == match self {
                MediaKind::Image => "Image"@,
                MediaKind::Audio => "Audio"@,
                MediaKind::Video => "Video"@,
                MediaKind::NoMedia => ""@,
            },
    {
        match self {
            MediaKind::Image => "Image",
            MediaKind::Audio => "Audio",
            MediaKind::Video => "Video",
            MediaKind::NoMedia => "",
        }
    }
}

/// Rows of labels and values.
pub open spec fn row_views(rows: Seq<(String, String)>) -> Seq<(Seq<char>, Seq<char>)> {
    rows.map_values(|r: (String, String)| (r.0@, r.1@))
}

/// The media section of a file.
#[derive(Debug)]
pub struct MediaInfo {
    pub kind: MediaKind,
    /// Label and value of each row.
    pub rows: Vec<(String, String)>,
}

/// The kind that a MIME type gives.
pub open spec fn mime_media(m: Seq<char>) -> MediaKind {
    if "image/"@.is_prefix_of(m) {
        MediaKind::Image
    } else if "audio/"@.is_prefix_of(m) {
        MediaKind::Audio
    } else if "video/"@.is_prefix_of(m) {
        MediaKind::Video
    } else {
        MediaKind::NoMedia
    }
}

/// The kind of a file: by its MIME type if that says something, else by its
/// name.
pub open spec fn media_kind(mime: Option<Seq<char>>, guess: Option<Seq<char>>) -> MediaKind {
    let given = match mime {
        Some(m) => mime_media(m),
        None => MediaKind::NoMedia,
    };
    if given != MediaKind::NoMedia {
        given
    } else {
        match guess {
            Some(g) => mime_media(g),
            None => MediaKind::NoMedia,
        }
    }
}

fn media_of(m: &str) -> (r: MediaKind)
    ensures
        r == mime_media(m@),
{
    if text_starts_with(m, "image/") {
        MediaKind::Image
    } else if text_starts_with(m, "audio/") {
        MediaKind::Audio
    } else if text_starts_with(m, "video/") {
        MediaKind::Video
    } else {
        MediaKind::NoMedia
    }
}

/// The kind of a file whose name has the given guess.
pub fn classify_with(mime: &Option<String>, guess: &Option<String>) -> (r: MediaKind)
    ensures
        r == media_kind(opt_view(*mime), opt_view(*guess)),
{
    if let Some(m) = mime {
        let k = media_of(m.as_str());
        if k != MediaKind::NoMedia {
            return k;
        }
    }
    match guess {
        Some(g) => media_of(g.as_str()),
        None => MediaKind::NoMedia,
    }
}

/// The kind of a file.
pub fn classify(path: &UnixPath, mime: &Option<String>) -> (r: MediaKind)
    ensures
        r == media_kind(opt_view(*mime), path_mime(path@)),
{
    let guess = mime_from_path(path);
    classify_with(mime, &guess)
}

// ---------------------------------------------------------------------------
// Pictures
// ---------------------------------------------------------------------------

/// What was read from a picture: its dimensions, and the displayed values of
/// the ten fields of interest, in the order of their labels.
#[derive(Debug)]
pub struct ImageFacts {
    pub dimensions: Option<(u32, u32)>,
    pub exif: Vec<Option<String>>,
}

/// The labels of the fields of interest.
pub open spec fn exif_label(i: int) -> Seq<char> {
    if i == 0 {
        "Camera make"@
    } else if i == 1 {
        "Camera model"@
    } else if i == 2 {
        "Lens"@
    } else if i == 3 {
        "Taken"@
    } else if i == 4 {
        "Exposure"@
    } else if i == 5 {
        "Aperture"@
    } else if i == 6 {
        "ISO"@
    } else if i == 7 {
        "Focal length"@
    } else if i == 8 {
        "Orientation"@
    } else {
        "Software"@
    }
}

fn label_of_field(i: usize) -> (r: &'static str)
    ensures
        r@ == exif_label(i as int),
{
    if i == 0 {
        "Camera make"
    } else if i == 1 {
        "Camera model"
    } else if i == 2 {
        "Lens"
    } else if i == 3 {
        "Taken"
    } else if i == 4 {
        "Exposure"
    } else if i == 5 {
        "Aperture"
    } else if i == 6 {
        "ISO"
    } else if i == 7 {
        "Focal length"
    } else if i == 8 {
        "Orientation"
    } else {
        "Software"
    }
}

/// A displayed value without surrounding space and quotes.
pub open spec fn cleaned(v: Seq<char>) -> Seq<char> {
    stripped_end(stripped_start(trimmed(v), '"'), '"')
}

/// The rows of the first `n` fields: those with something to show.
pub open spec fn exif_rows(exif: Seq<Option<String>>, n: int) -> Seq<(Seq<char>, Seq<char>)>
    decreases n,
{
    if n <= 0 {
        Seq::empty()
    } else {
        let before = exif_rows(exif, n - 1);
        match exif[n - 1] {
            Some(v) => if cleaned(v@).len() == 0 {
                before
            } else {
                before.push((exif_label(n - 1), cleaned(v@)))
            },
            None => before,
        }
    }
}

/// The rows of a picture.
pub open spec fn picture_rows(f: ImageFacts) -> Seq<(Seq<char>, Seq<char>)> {
    let size = match f.dimensions {
        Some((w, h)) => seq![
            ("Dimensions"@, decimal(w as nat) + " × "@ + decimal(h as nat)),
        ],
        None => Seq::empty(),
    };
    size + exif_rows(f.exif@, f.exif@.len() as int)
}

/// The rows of a picture.
pub fn image_rows(facts: &ImageFacts) -> (r: Vec<(String, String)>)
    ensures
        row_views(r@) == picture_rows(*facts),
{
    let mut rows: Vec<(String, String)> = Vec::new();
    if let Some((w, h)) = facts.dimensions {
        let mut v = decimal_text(w as u64);
        v.append(" × ");
        v.append(decimal_text(h as u64).as_str());
        rows.push(("Dimensions".to_owned(), v));
    }
    let ghost size = row_views(rows@);
    assert(size =~= match facts.dimensions {
        Some((w, h)) => seq![("Dimensions"@, decimal(w as nat) + " × "@ + decimal(h as nat))],
        None => Seq::empty(),
    });
    let mut i: usize = 0;
    assert(row_views(rows@) =~= size + exif_rows(facts.exif@, 0));
    while i < facts.exif.len()
        invariant
            i <= facts.exif@.len(),
            row_views(rows@) == size + exif_rows(facts.exif@, i as int),
        decreases facts.exif@.len() - i,
    {
        let ghost before = rows@;
        if let Some(v) = &facts.exif[i] {
            let c = chars_of(v.as_str());
            let value = trim_char(trim(&c), '"');
            if value.len() > 0 {
                let row = (label_of_field(i).to_owned(), string_of(value));
                rows.push(row);
                assert(row_views(rows@) =~= row_views(before).push((row.0@, row.1@)));
            }
        }
        assert(row_views(rows@) =~= size + exif_rows(facts.exif@, i + 1));
        i += 1;
    }
    rows
}

// ---------------------------------------------------------------------------
// Sounds and videos
// ---------------------------------------------------------------------------

/// What was read from a sound or video.
#[derive(Debug)]
pub struct TagFacts {
    /// Whole seconds, unless the length is zero.
    pub length_secs: Option<u64>,
    pub bitrate: Option<u32>,
    pub sample_rate: Option<u32>,
    pub channels: Option<u8>,
    pub title: Option<String>,
    pub artist: Option<String>,
    pub album: Option<String>,
    pub genre: Option<String>,
}

/// A length as `h:mm:ss` or `m:ss`.
pub open spec fn duration_text(total: int) -> Seq<char> {
    let h = total / 3600;
    let m = total % 3600 / 60;
    let s = total % 60;
    if h > 0 {
        decimal(h as nat) + ":"@ + padded_decimal(m as nat, 2) + ":"@ + padded_decimal(s as nat, 2)
    } else {
        decimal(m as nat) + ":"@ + padded_decimal(s as nat, 2)
    }
}

/// Writes a length in whole seconds.
pub fn fmt_duration(total: u64) -> (r: String)
    ensures
        r@ == duration_text(total as int),
{
    let h: u64 = total / 3600;
    let m: u64 = (total % 3600) / 60;
    let s: u64 = total % 60;
    let mut r: String = if h > 0 {
        let mut t = decimal_text(h);
        t.append(":");
        t.append(padded_decimal_text(m, 2).as_str());
        t
    } else {
        decimal_text(m)
    };
    r.append(":");
    r.append(padded_decimal_text(s, 2).as_str());
    r
}

/// `x` doubled until it has at least 53 bits above the factor of a thousand.
pub open spec fn grown(x: int) -> int
    decreases 9_007_199_254_740_992_000 - x,
{
    if x <= 0 || x >= 4_503_599_627_370_496_000 {
        x
    } else {
        grown(2 * x)
    }
}

/// A rate in tenths of a kilohertz, rounded half to even. The rate in kilohertz
/// is taken at the precision of a double first, which decides between two
/// tenths that are equally near.
pub open spec fn tenths_khz(rate: int) -> int {
    let q = rate / 100;
    let r = rate % 100;
    let g = grown(rate);
    let m = round_half_even(g, 1000) * 1000;
    if r > 50 || (r == 50 && (m > g || (m == g && q % 2 == 1))) {
        q + 1
    } else {
        q
    }
}

/// A sample rate as text.
pub open spec fn rate_text(rate: int) -> Seq<char> {
    let n = tenths_khz(rate);
    decimal((n / 10) as nat) + "."@ + decimal((n % 10) as nat) + " kHz"@
}

fn fmt_sample_rate(rate: u32) -> (r: String)
    ensures
        r@ == rate_text(rate as int),
{
    let q: u32 = rate / 100;
    let rem: u32 = rate % 100;
    let mut x: u128 = rate as u128;
    while x > 0 && x < 4_503_599_627_370_496_000
        invariant
            x <= 9_007_199_254_740_992_000,
            grown(x as int) == grown(rate as int),
            rate > 0 ==> x > 0,
            rate == 0 ==> x == 0,
        decreases 9_007_199_254_740_992_000 - x,
    {
        x = 2 * x;
    }
    let half: u128 = x / 1000;
    let over: u128 = x % 1000;
    let up: bool = 2 * over > 1000 || (2 * over == 1000 && half % 2 == 1);
    let m: u128 = if up {
        (half + 1) * 1000
    } else {
        half * 1000
    };
    assert(m == round_half_even(x as int, 1000) * 1000);
    let n: u32 = if rem > 50 || (rem == 50 && (m > x || (m == x && q % 2 == 1))) {
        q + 1
    } else {
        q
    };
    let mut s = decimal_text((n / 10) as u64);
    s.append(".");
    s.append(decimal_text((n % 10) as u64).as_str());
    s.append(" kHz");
    s
}

/// A row, where there is something to show.
pub open spec fn some_row(label: Seq<char>, value: Option<Seq<char>>) -> Seq<(Seq<char>, Seq<char>)> {
    match value {
        Some(v) => seq![(label, v)],
        None => Seq::empty(),
    }
}

/// A tag without surrounding space, unless nothing is left.
pub open spec fn tag_value(v: Option<String>) -> Option<Seq<char>> {
    match v {
        Some(s) => if trimmed(s@).len() == 0 {
            None
        } else {
            Some(trimmed(s@))
        },
        None => None,
    }
}

/// The rows of a sound or video.
pub open spec fn sound_rows(f: TagFacts) -> Seq<(Seq<char>, Seq<char>)> {
    let length = match f.length_secs {
        Some(n) => Some(duration_text(n as int)),
        None => None,
    };
    let bitrate = match f.bitrate {
        Some(n) => Some(decimal(n as nat) + " kbps"@),
        None => None,
    };
    let rate = match f.sample_rate {
        Some(n) => Some(rate_text(n as int)),
        None => None,
    };
    let channels = match f.channels {
        Some(n) => Some(decimal(n as nat)),
        None => None,
    };
    some_row("Length"@, length) + some_row("Bitrate"@, bitrate) + some_row("Sample rate"@, rate)
        + some_row("Channels"@, channels) + some_row("Title"@, tag_value(f.title)) + some_row(
        "Artist"@,
        tag_value(f.artist),
    ) + some_row("Album"@, tag_value(f.album)) + some_row("Genre"@, tag_value(f.genre))
}

fn push_row(rows: &mut Vec<(String, String)>, label: &str, value: Option<String>)
    ensures
        row_views(final(rows)@) == row_views(old(rows)@) + some_row(label@, opt_view(value)),
{
    if let Some(v) = value {
        rows.push((label.to_owned(), v));
    }
    assert(row_views(rows@) =~= row_views(old(rows)@) + some_row(label@, opt_view(value)));
}

fn clean_tag(v: &Option<String>) -> (r: Option<String>)
    ensures
        opt_view(r) == tag_value(*v),
{
    match v {
        Some(s) => {
            let t = trim_text(s.as_str());
            if t.as_str().is_empty() {
                None
            } else {
                Some(t)
            }
        },
        None => None,
    }
}

/// The rows of a sound or video.
pub fn tag_rows(f: &TagFacts) -> (r: Vec<(String, String)>)
    ensures
        row_views(r@) == sound_rows(*f),
{
    let mut rows: Vec<(String, String)> = Vec::new();
    let length: Option<String> = match f.length_secs {
        Some(n) => Some(fmt_duration(n)),
        None => None,
    };
    let bitrate: Option<String> = match f.bitrate {
        Some(n) => {
            let mut s = decimal_text(n as u64);
            s.append(" kbps");
            Some(s)
        },
        None => None,
    };
    let rate: Option<String> = match f.sample_rate {
        Some(n) => Some(fmt_sample_rate(n)),
        None => None,
    };
    let channels: Option<String> = match f.channels {
        Some(n) => Some(decimal_text(n as u64)),
        None => None,
    };
    push_row(&mut rows, "Length", length);
    push_row(&mut rows, "Bitrate", bitrate);
    push_row(&mut rows, "Sample rate", rate);
    push_row(&mut rows, "Channels", channels);
    push_row(&mut rows, "Title", clean_tag(&f.title));
    push_row(&mut rows, "Artist", clean_tag(&f.artist));
    push_row(&mut rows, "Album", clean_tag(&f.album));
    push_row(&mut rows, "Genre", clean_tag(&f.genre));
    assert(row_views(rows@) =~= sound_rows(*f));
    rows
}

/// The rows of a file of the given kind.
pub open spec fn media_rows(
    kind: MediaKind,
    image: ImageFacts,
    tags: Option<TagFacts>,
) -> Seq<(Seq<char>, Seq<char>)> {
    match kind {
        MediaKind::Image => picture_rows(image),
        MediaKind::Audio | MediaKind::Video => match tags {
            Some(t) => sound_rows(t),
            None => Seq::empty(),
        },
        MediaKind::NoMedia => Seq::empty(),
    }
}

/// The media section of a file of the given kind, hidden where there is nothing
/// to show.
pub fn media_info(class: MediaKind, image: &ImageFacts, tags: &Option<TagFacts>) -> (r: MediaInfo)
    ensures
        row_views(r.rows@) == media_rows(class, *image, *tags),
        r.kind == if r.rows@.len() == 0 {
            MediaKind::NoMedia
        } else {
            class
        },
{
    let rows: Vec<(String, String)> = match class {
        MediaKind::Image => image_rows(image),
        MediaKind::Audio | MediaKind::Video => match tags {
            Some(t) => tag_rows(t),
            None => Vec::new(),
        },
        MediaKind::NoMedia => Vec::new(),
    };
    assert(row_views(rows@) =~= media_rows(class, *image, *tags));
    let kind: MediaKind = if rows.len() == 0 {
        MediaKind::NoMedia
    } else {
        class
    };
    MediaInfo { kind, rows }
}

/// The media section of a file, from what was read of it.
pub fn probe(
    path: &UnixPath,
    mime: &Option<String>,
    image: &ImageFacts,
    tags: &Option<TagFacts>,
) -> (r: MediaInfo)
    ensures
        ({
            let class = media_kind(opt_view(*mime), path_mime(path@));
            &&& row_views(r.rows@) == media_rows(class, *image, *tags)
            &&& r.kind == if r.rows@.len() == 0 {
                MediaKind::NoMedia
            } else {
                class
            }
        }),
{
    media_info(classify(path, mime), image, tags)
}

} // verus!
