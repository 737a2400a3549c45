//! What a pattern for names comes to, and which default a list of programs gives.
use crate::bulk_rename::{
    flushed, parse_from, placeholder, renamed, rendered, rendered_piece, Piece,
};
use crate::file_laws::a_name_is_its_stem_and_extension;
use crate::file_ops::name_parts;
use crate::mimeapps::{assigned, bracketed, default_in, first_id, silent};
use crate::num_text::{decimal, decimal_reads_back, is_decimal, lemma_decimal_digits};
use crate::text::{lemma_first_of_unique, split_at_char, trimmed, trimmed_end, trimmed_start, white};
use crate::text_laws::cutting_at_the_first_of_a_character;
use vstd::prelude::*;

verus! {

// ---------------------------------------------------------------------------
// Patterns
// ---------------------------------------------------------------------------

/// A pattern is rendered part by part.
pub proof fn parts_are_rendered_one_by_one(
    a: Seq<Piece>,
    b: Seq<Piece>,
    idx: nat,
    original: Seq<char>,
)
    ensures
        rendered(a + b, idx, original) == rendered(a, idx, original) + rendered(b, idx, original),
    decreases b.len(),
{
    if b.len() == 0 {
        assert(a + b =~= a);
        assert(rendered(a, idx, original) + rendered(b, idx, original) =~= rendered(
            a,
            idx,
            original,
        ));
    } else {
        assert((a + b).drop_last() =~= a + b.drop_last());
        parts_are_rendered_one_by_one(a, b.drop_last(), idx, original);
        assert(rendered(a, idx, original) + (rendered(b.drop_last(), idx, original)
            + rendered_piece(b.last(), idx, original)) =~= rendered(a, idx, original) + rendered(
            b.drop_last(),
            idx,
            original,
        ) + rendered_piece(b.last(), idx, original));
    }
}

/// A single part is rendered as what it stands for: the number, the name without
/// its extension, the extension, or the extension with its dot.
pub proof fn parts_stand_for_what_they_say(idx: nat, original: Seq<char>, s: Seq<char>)
    ensures
        rendered(seq![Piece::Literal(s)], idx, original) == s,
        rendered(seq![Piece::Idx(0)], idx, original) == decimal(idx),
        rendered(seq![Piece::Name], idx, original) == name_parts(original).0,
        rendered(seq![Piece::Ext], idx, original) == name_parts(original).1,
{
    lemma_single(Piece::Literal(s), idx, original);
    lemma_single(Piece::Idx(0), idx, original);
    lemma_single(Piece::Name, idx, original);
    lemma_single(Piece::Ext, idx, original);
}

proof fn lemma_single(p: Piece, idx: nat, original: Seq<char>)
    ensures
        rendered(seq![p], idx, original) == rendered_piece(p, idx, original),
{
    reveal_with_fuel(rendered, 2);
    let ps = seq![p];
    assert(ps.drop_last() =~= Seq::empty());
    assert(ps.last() == p);
    assert(Seq::<char>::empty() + rendered_piece(p, idx, original) =~= rendered_piece(
        p,
        idx,
        original,
    ));
}

/// The name and the extension with its dot make the whole name, but for a dot at
/// its end.
pub proof fn name_and_extension_make_the_name(idx: nat, original: Seq<char>)
    requires
        original.len() > 1 ==> original.last() != '.',
    ensures
        rendered(seq![Piece::Name, Piece::ExtDot], idx, original) == original,
{
    reveal_strlit(".");
    let a = seq![Piece::Name];
    let b = seq![Piece::ExtDot];
    assert(a + b =~= seq![Piece::Name, Piece::ExtDot]);
    parts_are_rendered_one_by_one(a, b, idx, original);
    lemma_single(Piece::Name, idx, original);
    lemma_single(Piece::ExtDot, idx, original);
    a_name_is_its_stem_and_extension(original);
    let (stem, ext) = name_parts(original);
    if ext.len() == 0 {
        if original == stem.push('.') + ext {
            assert(original.last() == '.');
        }
        assert(stem + Seq::<char>::empty() =~= stem);
    } else {
        assert(stem + ("."@ + ext) =~= stem.push('.') + ext);
    }
}

proof fn lemma_solid(s: Seq<char>)
    requires
        s.len() > 0,
        !white(s[0]),
        !white(s.last()),
    ensures
        trimmed(s) == s,
{
    assert(trimmed_start(s) == s);
    assert(trimmed_end(s) == s);
}

/// The five placeholders are known by their words, and the width of a number
/// stands before its word.
pub proof fn placeholders_are_known_by_their_words(w: nat)
    requires
        w <= usize::MAX,
    ensures
        placeholder(seq!['i', 'd', 'x']) == Some(Piece::Idx(0)),
        placeholder(seq!['n', 'a', 'm', 'e']) == Some(Piece::Name),
        placeholder(seq!['e', 'x', 't']) == Some(Piece::Ext),
        placeholder(seq!['e', 'x', 't', '.']) == Some(Piece::ExtDot),
        placeholder(decimal(w) + seq![':'] + seq!['i', 'd', 'x']) == Some(Piece::Idx(w)),
{
    reveal_strlit("idx");
    reveal_strlit("name");
    reveal_strlit("ext");
    reveal_strlit("ext.");
    let i = seq!['i', 'd', 'x'];
    let n = seq!['n', 'a', 'm', 'e'];
    let e = seq!['e', 'x', 't'];
    let x = seq!['e', 'x', 't', '.'];
    assert("idx"@ =~= i);
    assert("name"@ =~= n);
    assert("ext"@ =~= e);
    assert("ext."@ =~= x);
    lemma_solid(i);
    lemma_solid(n);
    lemma_solid(e);
    lemma_solid(x);
    assert(n != i) by {
        assert(n.len() != i.len());
    }
    assert(e != i) by {
        assert(e[0] != i[0]);
    }
    assert(e != n) by {
        assert(e.len() != n.len());
    }
    assert(x != i) by {
        assert(x.len() != i.len());
    }
    assert(x != n) by {
        assert(x[0] != n[0]);
    }
    assert(x != e) by {
        assert(x.len() != e.len());
    }
    let d = decimal(w);
    lemma_decimal_digits(w);
    assert(is_decimal(d[0]));
    assert(is_decimal(d[d.len() - 1]));
    let t = d + seq![':'] + i;
    assert(t[0] == d[0]);
    assert(t.last() == 'x');
    lemma_solid(t);
    lemma_solid(d);
    assert(t != i) by {
        assert(t[0] != i[0]);
    }
    assert(t != n) by {
        assert(t[0] != n[0]);
    }
    assert(t != e) by {
        assert(t[0] != e[0]);
    }
    assert(t != x) by {
        assert(t[0] != x[0]);
    }
    assert(!d.contains(':')) by {
        assert forall|k: int| 0 <= k < d.len() implies d[k] != ':' by {
            assert(is_decimal(d[k]));
        }
    }
    cutting_at_the_first_of_a_character(t, ':', d, i);
    decimal_reads_back(w, usize::MAX as nat);
}

/// A placeholder in a pattern becomes its part, with what was read before it as
/// text; what follows is read for itself.
pub proof fn placeholders_become_parts(
    inner: Seq<char>,
    piece: Piece,
    rest: Seq<char>,
    buf: Seq<char>,
)
    requires
        placeholder(inner) == Some(piece),
        !inner.contains('}'),
        inner.len() > 0,
        inner[0] != '{',
    ensures
        parse_from(seq!['{'] + inner + seq!['}'] + rest, buf) == flushed(buf).push(piece)
            + parse_from(rest, Seq::empty()),
        buf.len() > 0 ==> flushed(buf) == seq![Piece::Literal(buf)],
        buf.len() == 0 ==> flushed(buf).len() == 0,
{
    let p = seq!['{'] + inner + seq!['}'] + rest;
    let tail = p.skip(1);
    let n = inner.len() as int;
    assert(tail =~= inner + seq!['}'] + rest);
    assert forall|k: int| 0 <= k < n implies tail[k] != '}' by {
        assert(inner.contains(inner[k]));
        assert(tail[k] == inner[k]);
    }
    assert(tail[n] == '}');
    lemma_first_of_unique(tail, '}', n);
    assert(p[0] == '{');
    assert(p[1] == inner[0]);
    assert(p.subrange(1, n + 1) =~= inner);
    assert(p.skip(n + 2) =~= rest);
}

/// Text without braces is read as itself.
pub proof fn text_is_read_as_itself(lit: Seq<char>, rest: Seq<char>, buf: Seq<char>)
    requires
        !lit.contains('{'),
        !lit.contains('}'),
    ensures
        parse_from(lit + rest, buf) == parse_from(rest, buf + lit),
    decreases lit.len(),
{
    if lit.len() == 0 {
        assert(lit + rest =~= rest);
        assert(buf + lit =~= buf);
    } else {
        let p = lit + rest;
        assert(lit.contains(lit[0]));
        assert(p[0] == lit[0]);
        let t = lit.skip(1);
        assert forall|c: char| t.contains(c) implies lit.contains(c) by {
            let k = choose|k: int| 0 <= k < t.len() && t[k] == c;
            assert(lit[k + 1] == c);
        }
        text_is_read_as_itself(t, rest, buf.push(lit[0]));
        assert(p.skip(1) =~= t + rest);
        assert(buf.push(lit[0]) + t =~= buf + lit);
    }
}

/// The names of a batch are numbered from one, in their order, each by its own
/// name.
pub proof fn names_of_a_batch_are_numbered(
    pattern: Seq<char>,
    originals: Seq<Seq<char>>,
    others: Seq<Seq<char>>,
    i: int,
)
    requires
        0 <= i < originals.len(),
        i < others.len(),
        others[i] == originals[i],
    ensures
        renamed(pattern, originals).len() == originals.len(),
        renamed(pattern, originals)[i] == renamed(pattern, others)[i],
        renamed(seq!['{'] + seq!['i', 'd', 'x'] + seq!['}'] + Seq::empty(), originals)[i]
            == decimal((i + 1) as nat),
{
    let none = Seq::<char>::empty();
    placeholders_are_known_by_their_words(0);
    let inner = seq!['i', 'd', 'x'];
    assert(!inner.contains('}'));
    placeholders_become_parts(inner, Piece::Idx(0), none, none);
    let p = seq!['{'] + inner + seq!['}'] + none;
    assert(parse_from(none, none) =~= Seq::<Piece>::empty());
    assert(parse_from(p, none) =~= seq![Piece::Idx(0)]);
    lemma_single(Piece::Idx(0), (i + 1) as nat, originals[i]);
}

// ---------------------------------------------------------------------------
// Defaults
// ---------------------------------------------------------------------------

/// Of several programs for a type the first one is its default.
pub proof fn the_first_program_is_the_default(id: Seq<char>, rest: Seq<char>)
    requires
        !id.contains(';'),
        trimmed(id).len() > 0,
    ensures
        first_id(id) == Some(trimmed(id)),
        first_id(id + seq![';'] + rest) == Some(trimmed(id)),
{
    let s = id + seq![';'] + rest;
    let n = id.len() as int;
    assert(s[n] == ';');
    assert forall|k: int| 0 <= k < n implies s[k] != ';' by {
        assert(s[k] == id[k]);
    }
    lemma_first_of_unique(s, ';', n);
    assert(s.take(n) =~= id);
    assert forall|k: int| 0 <= k < n implies id[k] != ';' by {}
    lemma_first_of_unique(id, ';', n);
    assert(split_at_char(s, ';')[0] == id);
    assert(split_at_char(id, ';')[0] == id);
}

/// Within the section of the defaults the first line with a type decides.
pub proof fn the_first_line_of_a_type_decides(
    before: Seq<Seq<char>>,
    line: Seq<char>,
    rest: Seq<Seq<char>>,
    mime: Seq<char>,
    value: Seq<char>,
)
    requires
        forall|k: int|
            0 <= k < before.len() ==> silent(trimmed(#[trigger] before[k])) || (!bracketed(
                trimmed(before[k]),
            ) && assigned(trimmed(before[k]), mime) is None),
        !silent(trimmed(line)),
        !bracketed(trimmed(line)),
        assigned(trimmed(line), mime) == Some(value),
    ensures
        default_in(before + seq![line] + rest, mime, true) == first_id(value),
    decreases before.len(),
{
    let ls = before + seq![line] + rest;
    if before.len() == 0 {
        assert(ls[0] == line);
    } else {
        assert(ls[0] == before[0]);
        let t = before.skip(1);
        assert forall|k: int| 0 <= k < t.len() implies silent(trimmed(#[trigger] t[k])) || (
        !bracketed(trimmed(t[k])) && assigned(trimmed(t[k]), mime) is None) by {
            assert(t[k] == before[k + 1]);
        }
        the_first_line_of_a_type_decides(t, line, rest, mime, value);
        assert(ls.skip(1) =~= t + seq![line] + rest);
    }
}

/// What stands before the section of the defaults says nothing.
pub proof fn other_sections_say_nothing(
    before: Seq<Seq<char>>,
    head: Seq<char>,
    rest: Seq<Seq<char>>,
    mime: Seq<char>,
)
    requires
        forall|k: int|
            0 <= k < before.len() ==> trimmed(#[trigger] before[k]) != "[Default Applications]"@,
        trimmed(head) == "[Default Applications]"@,
    ensures
        default_in(before + seq![head] + rest, mime, false) == default_in(rest, mime, true),
    decreases before.len(),
{
    reveal_strlit("[Default Applications]");
    let ls = before + seq![head] + rest;
    if before.len() == 0 {
        assert(ls[0] == head);
        assert(ls.skip(1) =~= rest);
        assert("[Default Applications]"@.len() == 22);
        assert(bracketed(trimmed(head)));
        assert(!silent(trimmed(head)));
    } else {
        assert(ls[0] == before[0]);
        let t = before.skip(1);
        assert forall|k: int| 0 <= k < t.len() implies trimmed(#[trigger] t[k])
            != "[Default Applications]"@ by {
            assert(t[k] == before[k + 1]);
        }
        other_sections_say_nothing(t, head, rest, mime);
        assert(ls.skip(1) =~= t + seq![head] + rest);
        assert(trimmed(before[0]) != "[Default Applications]"@);
    }
}

/// A line gives a type its programs: what stands before the equals sign is the
/// type, what stands behind it are the programs.
pub proof fn a_line_gives_a_type_its_programs(mime: Seq<char>, value: Seq<char>)
    requires
        mime.len() > 0,
        !white(mime[0]),
        !white(mime.last()),
        !mime.contains('='),
    ensures
        assigned(mime + seq!['='] + value, mime) == Some(value),
        assigned(mime, mime) is None,
{
    cutting_at_the_first_of_a_character(mime + seq!['='] + value, '=', mime, value);
    cutting_at_the_first_of_a_character(mime, '=', mime, value);
    lemma_solid(mime);
}

/// Comments and empty lines say nothing, wherever they stand.
pub proof fn comments_say_nothing(
    line: Seq<char>,
    rest: Seq<Seq<char>>,
    mime: Seq<char>,
    inside: bool,
)
    requires
        trimmed(line).len() == 0 || trimmed(line)[0] == '#',
    ensures
        default_in(seq![line] + rest, mime, inside) == default_in(rest, mime, inside),
{
    let ls = seq![line] + rest;
    assert(ls[0] == line);
    assert(ls.skip(1) =~= rest);
}

} // verus!
