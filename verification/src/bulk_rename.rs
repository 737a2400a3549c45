//! Pattern-driven bulk rename.
//!
//! ```text
//! {idx}        1-based index in the selection
//! {N:idx}      index padded to N characters with leading zeros ({3:idx} gives "001")
//! {name}       original file name without its extension
//! {ext}        original extension without the leading dot ("" if none)
//! {ext.}       original extension with the leading dot (".jpg" or "")
//! {{           literal "{"
//! }}           literal "}"
//! ```
//!
//! Any other text passes through verbatim, unknown placeholders included.
use crate::file_ops::{name_parts, split_name};
use crate::num_text::{decimal, padded_decimal, padded_decimal_text, parse_unsigned, parsed, zeros};
use crate::text::{
    chars_of, find_char, first_of, lemma_first_of, same_chars, split_once, split_once_at,
    string_of, trim, trimmed, views,
};
use vstd::prelude::*;
use vstd::string::*;

verus! {

/// A piece of a parsed pattern.
#[derive(Debug, PartialEq, Eq)]
pub enum Segment {
    Literal(String),
    Idx { width: usize },
    Name,
    Ext,
    ExtDot,
}

/// A piece of a parsed pattern in mathematical terms.
pub enum Piece {
    Literal(Seq<char>),
    Idx(nat),
    Name,
    Ext,
    ExtDot,
}

impl View for Segment {
    type V = Piece;

    open spec fn view(&self) -> Piece {
        match self {
            Segment::Literal(s) => Piece::Literal(s@),
            Segment::Idx { width } => Piece::Idx(*width as nat),
            Segment::Name => Piece::Name,
            Segment::Ext => Piece::Ext,
            Segment::ExtDot => Piece::ExtDot,
        }
    }
}

/// The views of a list of segments.
pub open spec fn pieces(v: Seq<Segment>) -> Seq<Piece> {
    v.map_values(|s: Segment| s@)
}

/// What the text between braces stands for.
pub open spec fn placeholder(inner: Seq<char>) -> Option<Piece> {
    let t = trimmed(inner);
    if t == "idx"@ {
        Some(Piece::Idx(0))
    } else if t == "name"@ {
        Some(Piece::Name)
    } else if t == "ext"@ {
        Some(Piece::Ext)
    } else if t == "ext."@ {
        Some(Piece::ExtDot)
    } else {
        match split_once_at(t, ':') {
            Some((w, rest)) => match parsed(trimmed(w), usize::MAX as nat) {
                Some(width) => if trimmed(rest) == "idx"@ {
                    Some(Piece::Idx(width))
                } else {
                    None
                },
                None => None,
            },
            None => None,
        }
    }
}

/// The literal text gathered so far, as a piece unless it is empty.
pub open spec fn flushed(buf: Seq<char>) -> Seq<Piece> {
    if buf.len() == 0 {
        Seq::empty()
    } else {
        seq![Piece::Literal(buf)]
    }
}

/// Whether `p` begins with `c` twice.
pub open spec fn doubled(p: Seq<char>, c: char) -> bool {
    p.len() >= 2 && p[0] == c && p[1] == c
}

/// The pieces of the pattern `p`, where `buf` is literal text before it.
pub open spec fn parse_from(p: Seq<char>, buf: Seq<char>) -> Seq<Piece>
    decreases p.len(),
    via parse_from_decreases
{
    let end = first_of(p.skip(1), '}');
    let inner = p.subrange(1, 1 + end);
    if p.len() == 0 {
        flushed(buf)
    } else if doubled(p, '{') {
        parse_from(p.skip(2), buf.push('{'))
    } else if doubled(p, '}') {
        parse_from(p.skip(2), buf.push('}'))
    } else if p[0] == '{' && end < p.len() - 1 {
        match placeholder(inner) {
            Some(piece) => flushed(buf).push(piece) + parse_from(p.skip(end + 2), Seq::empty()),
            None => parse_from(p.skip(end + 2), buf.push('{') + inner + seq!['}']),
        }
    } else {
        parse_from(p.skip(1), buf.push(p[0]))
    }
}

#[via_fn]
proof fn parse_from_decreases(p: Seq<char>, buf: Seq<char>) {
    if p.len() > 0 {
        lemma_first_of(p.skip(1), '}');
    }
}

/// Reads the text between braces.
fn parse_placeholder(inner: &[char]) -> (r: Option<Segment>)
    ensures
        match r {
            Some(s) => placeholder(inner@) == Some(s@),
            None => placeholder(inner@) is None,
        },
{
    let t = trim(inner);
    if same_chars(t, &chars_of("idx")) {
        return Some(Segment::Idx { width: 0 });
    }
    if same_chars(t, &chars_of("name")) {
        return Some(Segment::Name);
    }
    if same_chars(t, &chars_of("ext")) {
        return Some(Segment::Ext);
    }
    if same_chars(t, &chars_of("ext.")) {
        return Some(Segment::ExtDot);
    }
    match split_once(t, ':') {
        Some((w, rest)) => {
            match parse_unsigned(trim(w), usize::MAX as u64) {
                Some(width) => {
                    if same_chars(trim(rest), &chars_of("idx")) {
                        Some(Segment::Idx { width: width as usize })
                    } else {
                        None
                    }
                },
                None => None,
            }
        },
        None => None,
    }
}

fn push_all(buf: &mut Vec<char>, s: &[char])
    ensures
        final(buf)@ == old(buf)@ + s@,
{
    let mut i: usize = 0;
    assert(buf@ =~= old(buf)@ + s@.take(0));
    while i < s.len()
        invariant
            i <= s@.len(),
            buf@ == old(buf)@ + s@.take(i as int),
        decreases s@.len() - i,
    {
        buf.push(s[i]);
        i += 1;
        assert(buf@ =~= old(buf)@ + s@.take(i as int));
    }
    assert(s@.take(i as int) =~= s@);
}

fn flush(out: &mut Vec<Segment>, buf: &[char])
    ensures
        pieces(final(out)@) == pieces(old(out)@) + flushed(buf@),
{
    if buf.len() > 0 {
        out.push(Segment::Literal(string_of(buf)));
    }
    assert(pieces(out@) =~= pieces(old(out)@) + flushed(buf@));
}

/// Parses a pattern. Unknown placeholders are kept as literal text.
pub fn parse(pattern: &str) -> (r: Vec<Segment>)
    ensures
        pieces(r@) == parse_from(pattern@, Seq::empty()),
{
    let p = chars_of(pattern);
    let n: usize = p.len();
    let mut out: Vec<Segment> = Vec::new();
    let mut buf: Vec<char> = Vec::new();
    let mut i: usize = 0;
    assert(p@.skip(0) =~= p@);
    assert(pieces(out@) + parse_from(p@.skip(0), buf@) =~= parse_from(p@, Seq::empty()));
    while i < n
        invariant
            n == p@.len(),
            i <= n,
            p@ == pattern@,
            pieces(out@) + parse_from(p@.skip(i as int), buf@) == parse_from(p@, Seq::empty()),
        decreases n - i,
    {
        let ghost rest = p@.skip(i as int);
        if p[i] == '{' && i + 1 < n && p[i + 1] == '{' {
            buf.push('{');
            assert(rest.skip(2) =~= p@.skip(i + 2));
            i += 2;
            continue ;
        }
        if p[i] == '}' && i + 1 < n && p[i + 1] == '}' {
            buf.push('}');
            assert(rest.skip(2) =~= p@.skip(i + 2));
            i += 2;
            continue ;
        }
        if p[i] == '{' {
            let tail: &[char] = &p[i + 1..n];
            assert(tail@ =~= rest.skip(1));
            if let Some(end) = find_char(tail, '}') {
                let inner: &[char] = &tail[0..end];
                assert(inner@ =~= rest.subrange(1, 1 + end));
                assert(rest.skip(end + 2) =~= p@.skip(i + end + 2));
                match parse_placeholder(inner) {
                    Some(seg) => {
                        let ghost before = pieces(out@);
                        let ghost b = buf@;
                        flush(&mut out, &buf);
                        let ghost mid = out@;
                        out.push(seg);
                        buf = Vec::new();
                        i = i + end + 2;
                        proof {
                            let later = parse_from(p@.skip(i as int), Seq::empty());
                            assert(pieces(out@) =~= pieces(mid).push(seg@));
                            assert(pieces(out@) =~= before + flushed(b).push(seg@));
                            assert(buf@ =~= Seq::empty());
                            assert(pieces(out@) + later =~= before + (flushed(b).push(seg@) + later));
                        }
                    },
                    None => {
                        let ghost b = buf@;
                        buf.push('{');
                        push_all(&mut buf, inner);
                        buf.push('}');
                        assert(buf@ =~= b.push('{') + inner@ + seq!['}']);
                        i = i + end + 2;
                    },
                }
                continue ;
            }
        }
        buf.push(p[i]);
        assert(rest.skip(1) =~= p@.skip(i + 1));
        i += 1;
    }
    flush(&mut out, &buf);
    out
}

/// The text that one piece stands for.
pub open spec fn rendered_piece(p: Piece, idx: nat, original: Seq<char>) -> Seq<char> {
    let (name, ext) = name_parts(original);
    match p {
        Piece::Literal(s) => s,
        Piece::Idx(width) => padded_decimal(idx, width),
        Piece::Name => name,
        Piece::Ext => ext,
        Piece::ExtDot => if ext.len() == 0 {
            Seq::empty()
        } else {
            "."@ + ext
        },
    }
}

/// The name that a pattern gives to one entry.
pub open spec fn rendered(ps: Seq<Piece>, idx: nat, original: Seq<char>) -> Seq<char>
    decreases ps.len(),
{
    if ps.len() == 0 {
        Seq::empty()
    } else {
        rendered(ps.drop_last(), idx, original) + rendered_piece(ps.last(), idx, original)
    }
}

/// Renders the pattern for one entry; `idx` counts from one.
pub fn render(segments: &Vec<Segment>, idx: usize, original_basename: &str) -> (r: String)
    ensures
        r@ == rendered(pieces(segments@), idx as nat, original_basename@),
{
    let (name, ext) = split_name(original_basename);
    let mut out = String::new();
    let mut i: usize = 0;
    assert(pieces(segments@).take(0) =~= Seq::empty());
    while i < segments.len()
        invariant
            i <= segments@.len(),
            (name@, ext@) == name_parts(original_basename@),
            out@ == rendered(pieces(segments@).take(i as int), idx as nat, original_basename@),
        decreases segments@.len() - i,
    {
        let ghost before = out@;
        match &segments[i] {
            Segment::Literal(s) => {
                out.append(s.as_str());
            },
            Segment::Idx { width } => {
                out.append(padded_decimal_text(idx as u64, *width).as_str());
            },
            Segment::Name => {
                out.append(name.as_str());
            },
            Segment::Ext => {
                out.append(ext.as_str());
            },
            Segment::ExtDot => {
                if !ext.as_str().is_empty() {
                    out.append(".");
                    out.append(ext.as_str());
                }
            },
        }
        proof {
            let ps = pieces(segments@).take(i + 1);
            assert(ps.drop_last() =~= pieces(segments@).take(i as int));
            assert(ps.last() == segments@[i as int]@);
            assert(out@ =~= before + rendered_piece(ps.last(), idx as nat, original_basename@));
        }
        i += 1;
    }
    assert(pieces(segments@).take(i as int) =~= pieces(segments@));
    out
}

/// The new names of a batch: the `i`-th entry gets the index `i + 1`.
pub open spec fn renamed(pattern: Seq<char>, originals: Seq<Seq<char>>) -> Seq<Seq<char>> {
    Seq::new(
        originals.len(),
        |i: int|
            rendered(parse_from(pattern, Seq::empty()), (i + 1) as nat, originals[i]),
    )
}

/// Applies a pattern to a whole batch, in order.
pub fn render_batch(pattern: &str, originals: &Vec<String>) -> (r: Vec<String>)
    ensures
        views(r@) == renamed(pattern@, views(originals@)),
{
    let segments = parse(pattern);
    let mut out: Vec<String> = Vec::new();
    let mut i: usize = 0;
    while i < originals.len()
        invariant
            i <= originals@.len(),
            pieces(segments@) == parse_from(pattern@, Seq::empty()),
            out@.len() == i,
            forall|k: int|
                0 <= k < i ==> (#[trigger] out@[k])@ == renamed(pattern@, views(originals@))[k],
        decreases originals@.len() - i,
    {
        out.push(render(&segments, i + 1, originals[i].as_str()));
        i += 1;
    }
    assert(views(out@) =~= renamed(pattern@, views(originals@)));
    out
}

/// A text with each brace doubled.
pub open spec fn escaped(s: Seq<char>) -> Seq<char>
    decreases s.len(),
{
    if s.len() == 0 {
        Seq::empty()
    } else if s[0] == '{' || s[0] == '}' {
        seq![s[0], s[0]] + escaped(s.drop_first())
    } else {
        seq![s[0]] + escaped(s.drop_first())
    }
}

proof fn lemma_parse_escaped(s: Seq<char>, buf: Seq<char>)
    ensures
        parse_from(escaped(s), buf) == flushed(buf + s),
    decreases s.len(),
{
    let p = escaped(s);
    if s.len() == 0 {
        assert(buf + s =~= buf);
    } else {
        let rest = escaped(s.drop_first());
        lemma_parse_escaped(s.drop_first(), buf.push(s[0]));
        assert(buf.push(s[0]) + s.drop_first() =~= buf + s);
        if s[0] == '{' || s[0] == '}' {
            assert(p.skip(2) =~= rest);
            assert(p[0] == s[0] && p[1] == s[0]);
        } else {
            assert(p.skip(1) =~= rest);
            assert(p[0] == s[0]);
        }
    }
}

/// A text whose braces are doubled is rendered as itself, whatever the index
/// and the original name.
pub proof fn escaped_text_renders_as_itself(s: Seq<char>, idx: nat, original: Seq<char>)
    ensures
        rendered(parse_from(escaped(s), Seq::empty()), idx, original) == s,
{
    lemma_parse_escaped(s, Seq::empty());
    assert(Seq::empty() + s =~= s);
    let ps = flushed(s);
    if s.len() > 0 {
        assert(ps.drop_last() =~= Seq::empty());
        reveal_with_fuel(rendered, 2);
        assert(Seq::<char>::empty() + s =~= s);
    } else {
        assert(s =~= Seq::empty());
    }
}

/// Text without braces passes through verbatim.
pub proof fn plain_text_passes_through(s: Seq<char>, idx: nat, original: Seq<char>)
    requires
        !s.contains('{'),
        !s.contains('}'),
    ensures
        rendered(parse_from(s, Seq::empty()), idx, original) == s,
{
    lemma_escaped_plain(s);
    escaped_text_renders_as_itself(s, idx, original);
}

proof fn lemma_escaped_plain(s: Seq<char>)
    requires
        !s.contains('{'),
        !s.contains('}'),
    ensures
        escaped(s) == s,
    decreases s.len(),
{
    if s.len() > 0 {
        assert(s.contains(s[0]));
        let t = s.drop_first();
        assert forall|c: char| t.contains(c) implies s.contains(c) by {
            let k = choose|k: int| 0 <= k < t.len() && t[k] == c;
            assert(s[k + 1] == c);
        }
        lemma_escaped_plain(t);
        assert(seq![s[0]] + t =~= s);
    } else {
        assert(escaped(s) =~= s);
    }
}

/// An unknown placeholder is left as it stands.
pub proof fn unknown_placeholder_is_kept(inner: Seq<char>, idx: nat, original: Seq<char>)
    requires
        placeholder(inner) is None,
        !inner.contains('}'),
        inner.len() == 0 || inner[0] != '{',
    ensures
        rendered(parse_from(seq!['{'] + inner + seq!['}'], Seq::empty()), idx, original) == seq!['{']
            + inner + seq!['}'],
{
    let p = seq!['{'] + inner + seq!['}'];
    let tail = p.skip(1);
    assert(tail =~= inner + seq!['}']);
    assert forall|k: int| 0 <= k < inner.len() implies tail[k] != '}' by {
        assert(inner.contains(inner[k]));
        assert(tail[k] == inner[k]);
    }
    crate::text::lemma_first_of_unique(tail, '}', inner.len() as int);
    assert(!doubled(p, '{'));
    assert(p.subrange(1, inner.len() as int + 1) =~= inner);
    assert(p.skip(inner.len() as int + 2) =~= Seq::empty());
    assert(Seq::empty().push('{') + inner + seq!['}'] =~= p);
    assert(parse_from(Seq::empty(), p) == flushed(p));
    assert(first_of(p.skip(1), '}') == inner.len());
    assert(p[0] == '{' && !doubled(p, '}'));
    assert(parse_from(p, Seq::empty()) == parse_from(p.skip(inner.len() as int + 2), p));
    assert(flushed(p).drop_last() =~= Seq::empty());
    reveal_with_fuel(rendered, 2);
    assert(Seq::<char>::empty() + p =~= p);
}

/// `{N:idx}` gives the index at least `N` characters, by putting zeros before
/// its digits.
pub proof fn index_is_padded(idx: nat, width: nat, original: Seq<char>)
    ensures
        ({
            let r = rendered_piece(Piece::Idx(width), idx, original);
            &&& r.len() >= width
            &&& decimal(idx).is_suffix_of(r)
            &&& r.len() > width ==> r == decimal(idx)
            &&& forall|i: int| 0 <= i < r.len() - decimal(idx).len() ==> r[i] == '0'
        }),
{
    let r = padded_decimal(idx, width);
    if decimal(idx).len() < width {
        assert(r.subrange(r.len() - decimal(idx).len(), r.len() as int) =~= decimal(idx));
    } else {
        assert(r.subrange(0, r.len() as int) =~= r);
    }
}

} // verus!
