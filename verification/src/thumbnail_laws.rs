//! Which files get a thumbnail, where it is kept and how long it counts.
use crate::calendar::FileTime;
use crate::file_ops::valid_name;
use crate::listing::has_path;
use crate::names::valid_name_is_plain;
use crate::num_text::{hex, lemma_hex_len};
use crate::picking::{exactly_those, lemma_picked, lemma_picked_none};
use crate::text::ascii_lower;
use crate::thumb_queue::{is_last_row, thumbnailable_ext, thumbnailable_mime, wanted_upto};
use crate::thumbnails::{
    cache_below, cached_at, can_shrink, cover_outcome, digest_of, edge, ext_kind, failed_at,
    first_picture, fresh, hole_column, hole_height, hole_row, hole_width, in_bar, in_hole,
    kind_for, least_side, longer_side, md5, mime_kind, painted, sample_levels, side_reach,
    size_dir, strip_width, too_small_at, uri_of, CoverError, Kind, PictureFacts, Pixels, ThumbSize,
};
use crate::types::EntryView;
use crate::unix_path::{components, extension, file_name, joined, joined_entry, lossy, plain_name};
use vstd::prelude::*;
use vstd::utf8::*;

verus! {

/// Each size is twice the one before it, and has a folder of its own.
pub proof fn sizes_differ(a: ThumbSize, b: ThumbSize)
    ensures
        edge(ThumbSize::Normal) == 128,
        edge(ThumbSize::Large) == 2 * edge(ThumbSize::Normal),
        edge(ThumbSize::XLarge) == 2 * edge(ThumbSize::Large),
        edge(ThumbSize::XxLarge) == 2 * edge(ThumbSize::XLarge),
        size_dir(a) == size_dir(b) ==> a == b,
{
    reveal_strlit("normal");
    reveal_strlit("large");
    reveal_strlit("x-large");
    reveal_strlit("xx-large");
    assert("normal"@.len() == 6);
    assert("large"@.len() == 5);
    assert("x-large"@.len() == 7);
    assert("xx-large"@.len() == 8);
}

proof fn lemma_plain_hex(bytes: Seq<u8>)
    ensures
        !hex(bytes).contains('/'),
        !hex(bytes).contains('.'),
    decreases bytes.len(),
{
    if bytes.len() > 0 {
        let most = bytes.drop_last();
        lemma_plain_hex(most);
        let t = hex(bytes);
        lemma_hex_len(most);
        assert forall|i: int| 0 <= i < t.len() implies t[i] != '/' && t[i] != '.' by {
            if i < hex(most).len() {
                assert(t[i] == hex(most)[i]);
            }
        }
    }
}

proof fn lemma_png(uri: Seq<char>)
    ensures
        plain_name(encode_utf8(digest_of(uri) + ".png"@)),
{
    reveal_strlit(".png");
    reveal_strlit(".");
    reveal_strlit("..");
    lemma_plain_hex(md5(encode_utf8(uri)));
    let name = digest_of(uri) + ".png"@;
    assert(!name.contains('/')) by {
        assert forall|i: int| 0 <= i < name.len() implies name[i] != '/' by {
            if i < digest_of(uri).len() {
                assert(name[i] == digest_of(uri)[i]);
            }
        }
    }
    assert(valid_name(name));
    valid_name_is_plain(name);
}

proof fn lemma_dir(size: ThumbSize)
    ensures
        plain_name(encode_utf8(size_dir(size))),
{
    reveal_strlit("normal");
    reveal_strlit("large");
    reveal_strlit("x-large");
    reveal_strlit("xx-large");
    reveal_strlit(".");
    reveal_strlit("..");
    assert(valid_name(size_dir(size)));
    valid_name_is_plain(size_dir(size));
}

/// A thumbnail is kept in the folder of its size, under the digest of the address
/// of its file.
pub proof fn thumbnails_are_kept_by_size_and_digest(
    root: Seq<u8>,
    uri: Seq<char>,
    size: ThumbSize,
)
    ensures
        file_name(cached_at(root, uri, size)) == Some(
            encode_utf8(hex(md5(encode_utf8(uri))) + ".png"@),
        ),
        components(cached_at(root, uri, size)) == components(root).push(
            encode_utf8(size_dir(size)),
        ).push(encode_utf8(hex(md5(encode_utf8(uri))) + ".png"@)),
{
    lemma_png(uri);
    lemma_dir(size);
    joined_entry(root, encode_utf8(size_dir(size)));
    joined_entry(
        joined(root, encode_utf8(size_dir(size))),
        encode_utf8(digest_of(uri) + ".png"@),
    );
}

/// A mark that no thumbnail can be made is kept apart from the thumbnails, under
/// the same name.
pub proof fn failures_are_kept_by_name(root: Seq<u8>, uri: Seq<char>, app: Seq<char>)
    requires
        valid_name(app),
    ensures
        file_name(failed_at(root, uri, app)) == Some(
            encode_utf8(hex(md5(encode_utf8(uri))) + ".png"@),
        ),
        components(failed_at(root, uri, app)) == components(root).push(encode_utf8("fail"@)).push(
            encode_utf8(app),
        ).push(encode_utf8(hex(md5(encode_utf8(uri))) + ".png"@)),
{
    reveal_strlit("fail");
    reveal_strlit(".");
    reveal_strlit("..");
    lemma_png(uri);
    valid_name_is_plain("fail"@);
    valid_name_is_plain(app);
    let a = joined(root, encode_utf8("fail"@));
    let b = joined(a, encode_utf8(app));
    joined_entry(root, encode_utf8("fail"@));
    joined_entry(a, encode_utf8(app));
    joined_entry(b, encode_utf8(digest_of(uri) + ".png"@));
}

/// The address of a file is its path behind the scheme.
pub proof fn files_are_addressed_by_their_path(path: Seq<u8>)
    ensures
        uri_of(path).len() == 7 + lossy(path).len(),
        uri_of(path).skip(7) == lossy(path),
{
    reveal_strlit("file://");
    assert(uri_of(path).skip(7) =~= lossy(path));
}

/// What was made counts as long as its file was not changed later.
pub proof fn a_later_change_makes_it_old(made: Option<FileTime>, source: FileTime)
    ensures
        fresh(made, source) <==> made is Some && (made->0.secs > source.secs || (made->0.secs
            == source.secs && made->0.nanos >= source.nanos)),
{
}

/// The type of a file decides what it is shown as, whatever its name is.
pub proof fn the_type_decides(rest: Seq<char>, path: Seq<u8>)
    ensures
        kind_for(Some("image/"@ + rest), path) == Kind::Image,
        kind_for(Some("video/"@ + rest), path) == Kind::Video,
        kind_for(Some("audio/"@ + rest), path) == Kind::Audio,
        kind_for(Some("application/pdf"@), path) == Kind::Pdf,
{
    reveal_strlit("image/");
    reveal_strlit("video/");
    reveal_strlit("audio/");
    reveal_strlit("application/pdf");
    let i = "image/"@ + rest;
    let v = "video/"@ + rest;
    let a = "audio/"@ + rest;
    assert("image/"@ =~= i.subrange(0, 6));
    assert("video/"@ =~= v.subrange(0, 6));
    assert("audio/"@ =~= a.subrange(0, 6));
    assert(v[0] == 'v');
    assert(a[0] == 'a');
    assert(a[1] == 'u');
    if "image/"@.is_prefix_of(v) {
        assert("image/"@ =~= v.subrange(0, 6));
        assert("image/"@[0] == v[0]);
    }
    if "image/"@.is_prefix_of(a) {
        assert("image/"@ =~= a.subrange(0, 6));
        assert("image/"@[0] == a[0]);
    }
    if "video/"@.is_prefix_of(a) {
        assert("video/"@ =~= a.subrange(0, 6));
        assert("video/"@[0] == a[0]);
    }
    let p = "application/pdf"@;
    assert(p[0] == 'a');
    assert(p[1] == 'p');
    if "image/"@.is_prefix_of(p) {
        assert("image/"@ =~= p.subrange(0, 6));
        assert("image/"@[0] == p[0]);
    }
    if "video/"@.is_prefix_of(p) {
        assert("video/"@ =~= p.subrange(0, 6));
        assert("video/"@[0] == p[0]);
    }
    assert(a != p);
}

/// Where the type does not decide, the extension does, in capitals or not; a file
/// without either is shown as nothing.
pub proof fn without_a_type_the_extension_decides(
    mime: Option<Seq<char>>,
    path: Seq<u8>,
    a: Seq<u8>,
    b: Seq<u8>,
)
    ensures
        mime_kind(mime) is None ==> kind_for(mime, path) == ext_kind(extension(path)),
        ext_kind(None) == Kind::Other,
        valid_utf8(a) && valid_utf8(b) && ascii_lower(decode_utf8(a)) == ascii_lower(
            decode_utf8(b),
        ) ==> ext_kind(Some(a)) == ext_kind(Some(b)),
        ext_kind(Some(a)) == Kind::Video || ext_kind(Some(a)) == Kind::Audio || ext_kind(Some(a))
            == Kind::Other,
{
}

/// Exactly the types that a thumbnail can be made of are asked for, and files of
/// sound by their extension too.
pub proof fn what_can_be_shown_is_asked_for(m: Option<Seq<char>>, path: Seq<u8>)
    ensures
        thumbnailable_mime(m) <==> mime_kind(m) is Some,
        thumbnailable_ext(path) ==> kind_for(m, path) != Kind::Other,
{
}

/// Of a folder the files that can be shown are asked for, in their order.
pub proof fn files_that_can_be_shown_are_asked_for(es: Seq<EntryView>, n: int)
    requires
        0 <= n <= es.len(),
    ensures
        exactly_those(
            wanted_upto(es, n),
            n,
            |i: int| mime_kind(es[i].mime) is Some || thumbnailable_ext(es[i].path),
            |i: int| es[i].path,
        ),
    decreases n,
{
    let keep = |i: int| mime_kind(es[i].mime) is Some || thumbnailable_ext(es[i].path);
    let item = |i: int| es[i].path;
    if n > 0 {
        files_that_can_be_shown_are_asked_for(es, n - 1);
        what_can_be_shown_is_asked_for(es[n - 1].mime, es[n - 1].path);
        lemma_picked(wanted_upto(es, n - 1), n - 1, keep, item);
    } else {
        lemma_picked_none(keep, item);
    }
}

/// The cover of a file of sound is the first picture that one of its tags holds.
pub proof fn the_first_picture_is_the_cover(tags: Seq<Option<Vec<u8>>>)
    ensures
        match first_picture(tags) {
            Some(p) => exists|i: int|
                0 <= i < tags.len() && (#[trigger] tags[i]) is Some && tags[i]->0@ == p
                    && forall|k: int| 0 <= k < i ==> (#[trigger] tags[k]) is None,
            None => forall|k: int| 0 <= k < tags.len() ==> (#[trigger] tags[k]) is None,
        },
    decreases tags.len(),
{
    if tags.len() > 0 {
        if tags[0] is None {
            let rest = tags.skip(1);
            the_first_picture_is_the_cover(rest);
            match first_picture(tags) {
                Some(p) => {
                    let i = choose|i: int|
                        0 <= i < rest.len() && (#[trigger] rest[i]) is Some && rest[i]->0@ == p
                            && forall|k: int| 0 <= k < i ==> (#[trigger] rest[k]) is None;
                    assert(tags[i + 1] == rest[i]);
                    assert forall|k: int| 0 <= k < i + 1 implies (#[trigger] tags[k]) is None by {
                        if k > 0 {
                            assert(tags[k] == rest[k - 1]);
                        }
                    }
                },
                None => {
                    assert forall|k: int| 0 <= k < tags.len() implies (#[trigger] tags[k]) is None by {
                        if k > 0 {
                            assert(tags[k] == rest[k - 1]);
                        }
                    }
                },
            }
        } else {
            assert(tags[0] is Some);
        }
    }
}

/// A cover that was not decoded gives no thumbnail.
pub proof fn an_undecoded_cover_gives_none(size: ThumbSize, r: Result<Pixels, CoverError>)
    requires
        cover_outcome(None, size, r),
    ensures
        r == Err::<Pixels, CoverError>(CoverError::Undecodable),
{
}

/// A film strip is painted in bars of equal width at both sides. What is between
/// them stays as it was, and what is in them is opaque, and black or, in the
/// holes, light.
pub proof fn the_film_strip_keeps_the_picture(w: int, h: int, holes: int, k: int, before: u8)
    requires
        w >= 24,
        h >= 24,
        0 <= k < w * h * 4,
    ensures
        6 <= strip_width(w) <= 28,
        2 * strip_width(w) < w,
        ({
            let x = k / 4 % w;
            let inside = strip_width(w) <= x && x < w - strip_width(w);
            let p = painted(w, h, holes, k, before);
            &&& inside ==> p == before
            &&& !inside && k % 4 == 3 ==> p == 255
            &&& !inside && k % 4 != 3 ==> p == 0 || p == 230
            &&& !inside && k % 4 != 3 && p == 230 ==> hole_column(w, x) && hole_row(
                h,
                holes,
                k / 4 / w,
            )
            &&& !inside && k % 4 != 3 && hole_column(w, x) && hole_row(h, holes, k / 4 / w) ==> p
                == 230
        }),
{
    let s = strip_width(w);
    assert(hole_width(w) <= s);
    let x = k / 4 % w;
    assert(0 <= x < w) by (nonlinear_arith)
        requires
            x == k / 4 % w,
            w >= 24,
    ;
    assert(hole_column(w, x) ==> in_bar(w, x));
}

/// The holes of both bars lie opposite each other.
pub proof fn the_film_strip_is_symmetric(w: int, x: int)
    requires
        0 <= x < w,
    ensures
        in_bar(w, x) <==> in_bar(w, w - 1 - x),
        hole_column(w, x) <==> hole_column(w, w - 1 - x),
{
}

/// A mark that a picture is too small is kept by its size too, apart from the
/// thumbnails.
pub proof fn small_pictures_are_marked_by_size(root: Seq<u8>, uri: Seq<char>, size: ThumbSize)
    requires
        md5(encode_utf8(uri)).len() > 0,
    ensures
        components(too_small_at(root, uri, size)) == components(root).push(
            encode_utf8("too-small"@),
        ).push(encode_utf8(size_dir(size))).push(encode_utf8(hex(md5(encode_utf8(uri))))),
{
    assert(valid_name("too-small"@)) by {
        reveal_strlit("too-small");
        reveal_strlit(".");
        reveal_strlit("..");
        assert("too-small"@.len() == 9);
    }
    valid_name_is_plain("too-small"@);
    lemma_dir(size);
    let name = hex(md5(encode_utf8(uri)));
    assert(valid_name(name)) by {
        lemma_plain_hex(md5(encode_utf8(uri)));
        lemma_hex_len(md5(encode_utf8(uri)));
        reveal_strlit(".");
        reveal_strlit("..");
        assert(name.contains(name[0]));
        assert("."@[0] == '.');
        assert(".."@[0] == '.');
    }
    valid_name_is_plain(name);
    let a = joined(root, encode_utf8("too-small"@));
    let b = joined(a, encode_utf8(size_dir(size)));
    joined_entry(root, encode_utf8("too-small"@));
    joined_entry(a, encode_utf8(size_dir(size)));
    joined_entry(b, encode_utf8(name));
}

/// Every hole of the film strip is there, about the middle of its part of the
/// height.
pub proof fn every_hole_is_there(h: int, holes: int, i: int)
    requires
        h >= 24,
        0 <= i < holes,
    ensures
        3 <= hole_height(h) <= 14,
        hole_row(h, holes, h * (2 * i + 1) / (2 * holes)),
{
    let center = h * (2 * i + 1) / (2 * holes);
    assert(center >= 0) by (nonlinear_arith)
        requires
            center == h * (2 * i + 1) / (2 * holes),
            h >= 24,
            0 <= i < holes,
    ;
    assert(in_hole(h, holes, i, center));
}

proof fn lemma_reach(f: PictureFacts, side: int, edge: int, times: int)
    requires
        0 <= side <= longer_side(f) <= 16384,
        1 <= edge,
        1 <= times,
        longer_side(f) <= times * edge,
    ensures
        0 <= side_reach(f, side, edge) <= 2 * times + 3,
{
    let m = longer_side(f);
    let q = least_side(f, side, edge);
    if m == 0 {
        assert(side / 1 == 0);
    } else if side * edge < m {
        assert(side <= times) by (nonlinear_arith)
            requires
                side * edge < m,
                m <= times * edge,
                edge >= 1,
                side >= 0,
        ;
        assert(side / 1 == side);
    } else {
        assert(q == side * edge / m);
        assert(q >= 1 && side * edge < (q + 1) * m) by (nonlinear_arith)
            requires
                q == side * edge / m,
                side * edge >= m,
                m >= 1,
        ;
        assert(side < (q + 1) * times) by (nonlinear_arith)
            requires
                q >= 1,
                side * edge < (q + 1) * m,
                m <= times * edge,
                edge >= 1,
                side >= 0,
                times >= 1,
        ;
        assert(0 <= side / q <= 2 * times) by (nonlinear_arith)
            requires
                0 <= side < (q + 1) * times,
                q >= 1,
                times >= 1,
        ;
    }
}

/// Pictures of up to sixteen thousand pixels on either side can be shrunk to each
/// size with samples of one byte, and to all but the smallest with longer ones.
pub proof fn ordinary_pictures_can_be_shrunk(f: PictureFacts, size: ThumbSize)
    requires
        f.width <= 16384,
        f.height <= 16384,
    ensures
        f.pixel_bytes == f.channels ==> can_shrink(f, edge(size) as int),
        !(size is Normal) ==> can_shrink(f, edge(size) as int),
{
    let e = edge(size) as int;
    let a = side_reach(f, f.width as int, e);
    let b = side_reach(f, f.height as int, e);
    let n = sample_levels(f);
    if f.pixel_bytes == f.channels {
        lemma_reach(f, f.width as int, e, 128);
        lemma_reach(f, f.height as int, e, 128);
        assert(a * b * n <= 259 * 259 * 0x100) by (nonlinear_arith)
            requires
                0 <= a <= 259,
                0 <= b <= 259,
                n == 0x100,
        ;
    } else if !(size is Normal) {
        lemma_reach(f, f.width as int, e, 64);
        lemma_reach(f, f.height as int, e, 64);
        assert(a * b * n <= 131 * 131 * 0x1_0000) by (nonlinear_arith)
            requires
                0 <= a <= 131,
                0 <= b <= 131,
                0 <= n <= 0x1_0000,
        ;
    }
}

/// A hole lies about its middle: half of it above, the rest from there on, unless
/// the picture ends before.
pub proof fn a_hole_lies_about_its_middle(h: int, holes: int, i: int, y: int)
    requires
        h >= 24,
        0 <= i < holes,
        y >= 0,
        h * (2 * i + 1) / (2 * holes) >= hole_height(h) / 2,
    ensures
        ({
            let middle = h * (2 * i + 1) / (2 * holes);
            let half = hole_height(h) / 2;
            in_hole(h, holes, i, y) <==> middle - half <= y < middle - half + hole_height(h)
        }),
{
}

/// The thumbnails of all programs are kept in one folder of the cache.
pub proof fn thumbnails_have_one_folder(cache: Seq<u8>)
    ensures
        components(cache_below(cache)) == components(cache).push(encode_utf8("thumbnails"@)),
{
    reveal_strlit("thumbnails");
    reveal_strlit(".");
    reveal_strlit("..");
    valid_name_is_plain("thumbnails"@);
    joined_entry(cache, encode_utf8("thumbnails"@));
}

/// The bars of the film strip take an eleventh of the width each, and a hole a
/// fourteenth of the height, where these are neither small nor large.
pub proof fn the_film_strip_grows_with_the_picture(w: int, h: int)
    ensures
        66 <= w < 319 ==> 11 * strip_width(w) <= w < 11 * (strip_width(w) + 1),
        42 <= h < 210 ==> 14 * hole_height(h) <= h < 14 * (hole_height(h) + 1),
        w >= 319 ==> strip_width(w) == 28,
        h >= 210 ==> hole_height(h) == 14,
{
}

/// The last row of a path has that path, no row behind it has, and there is only
/// one such row, wherever some row has the path.
pub proof fn one_row_of_a_path_is_the_last(paths: Seq<Seq<u8>>, p: Seq<u8>, i: int, j: int)
    ensures
        is_last_row(paths, p, i) && i < j < paths.len() ==> components(paths[j]) != components(p),
        is_last_row(paths, p, i) ==> 0 <= i < paths.len() && components(paths[i]) == components(p),
        is_last_row(paths, p, i) && is_last_row(paths, p, j) ==> i == j,
        has_path(paths, p) ==> exists|k: int| is_last_row(paths, p, k),
    decreases paths.len(),
{
    if has_path(paths, p) {
        let n = paths.len() - 1;
        if components(paths[n]) == components(p) {
            assert(is_last_row(paths, p, n));
        } else {
            let most = paths.drop_last();
            let m = choose|m: int|
                0 <= m < paths.len() && components(#[trigger] paths[m]) == components(p);
            assert(most[m] == paths[m]);
            assert(has_path(most, p));
            one_row_of_a_path_is_the_last(most, p, i, j);
            let k = choose|k: int| is_last_row(most, p, k);
            assert forall|l: int| k < l < paths.len() implies components(#[trigger] paths[l])
                != components(p) by {
                if l < n {
                    assert(most[l] == paths[l]);
                }
            }
            assert(paths[k] == most[k]);
            assert(is_last_row(paths, p, k));
        }
    }
}

} // verus!
