//! What creating and extracting archives comes to, by what the programs that are
//! run report.
use crate::archive::{
    advanced, after_run, archive_entries_upto, archive_entry, archive_ext, archive_mime,
    archive_name, archive_path, archives_upto, asked_name, dir_of, extract_error, extraction_name,
    has_ext, stripped, without_last, ARCHIVE_EXTS, ErrorView, ExtractRun, QueueView, StepView,
};
use crate::compress::{
    answers, command_args, default_name, digits_before, format_tool, least, line_percent, names_of,
    next_phase, output_name, packed_file, percent_at, read_char, read_line, read_text,
    ArchiveEvent, ArchiveFormat, PhaseView, ReaderView,
};
use crate::num_text::{is_decimal, value_of};
use crate::text::{lowercase, occurs_at, trimmed, trimmed_end, trimmed_start, white};
use crate::types::{EntryView, FileType};
use crate::unix_path::{file_name, file_stem, lossy, parent};
use vstd::prelude::*;
use vstd::utf8::*;

verus! {

// ---------------------------------------------------------------------------
// How a run ends
// ---------------------------------------------------------------------------

/// A program that ended with success has created the archive, whether or not the
/// run was cancelled meanwhile.
pub proof fn a_successful_end_creates_the_archive(
    e: ArchiveEvent,
    cancelled: bool,
    tool: Seq<char>,
)
    requires
        e matches ArchiveEvent::Exited(success, _) && success,
    ensures
        answers(PhaseView::Waiting, e),
        next_phase(PhaseView::Waiting, e, cancelled, tool) is Created,
{
}

/// Nothing but a program that ended with success creates the archive.
pub proof fn nothing_else_creates_the_archive(
    p: PhaseView,
    e: ArchiveEvent,
    cancelled: bool,
    tool: Seq<char>,
)
    requires
        answers(p, e),
        next_phase(p, e, cancelled, tool) is Created,
    ensures
        p is Waiting,
        e matches ArchiveEvent::Exited(success, _) && success,
{
}

/// A run fails only where its program could not be awaited, or had ended without
/// success and what it printed was read.
pub proof fn a_failure_has_its_cause(
    p: PhaseView,
    e: ArchiveEvent,
    cancelled: bool,
    tool: Seq<char>,
)
    requires
        answers(p, e),
    ensures
        next_phase(p, e, cancelled, tool) is Failed <==> e is WaitFailed || p is ReadingMessage,
        next_phase(p, e, cancelled, tool) is ReadingMessage <==> (!cancelled && (
        e matches ArchiveEvent::Exited(success, _) && !success)),
        next_phase(p, e, cancelled, tool) matches PhaseView::ReadingMessage(s) ==> (
        e matches ArchiveEvent::Exited(_, status) && s == status@),
{
}

/// A run is given up only where it was cancelled. Its program is ended first as
/// long as the program had not ended by itself.
pub proof fn only_a_cancelled_run_is_given_up(
    p: PhaseView,
    e: ArchiveEvent,
    cancelled: bool,
    tool: Seq<char>,
)
    requires
        answers(p, e),
    ensures
        !cancelled ==> !(next_phase(p, e, cancelled, tool) is Cancelled),
        cancelled && p is Reading ==> next_phase(p, e, cancelled, tool) == PhaseView::Cancelled(
            true,
        ),
        cancelled && (e matches ArchiveEvent::Exited(success, _) && !success) ==> next_phase(
            p,
            e,
            cancelled,
            tool,
        ) == PhaseView::Cancelled(false),
{
}

/// A run that is not cancelled is read until its output ends, and then awaited.
pub proof fn output_is_read_to_its_end(p: PhaseView, e: ArchiveEvent, tool: Seq<char>)
    requires
        answers(p, e),
        p is Reading,
    ensures
        e is EndOfOutput ==> next_phase(p, e, false, tool) is Waiting,
        !(e is EndOfOutput) ==> next_phase(p, e, false, tool) is Reading,
        next_phase(p, e, false, tool) is Waiting ==> e is EndOfOutput,
{
}

/// Every phase that asks for work is answered by some event, whatever the work
/// brought; a phase that ends a run is answered by none.
pub proof fn every_outcome_is_an_answer(e: ArchiveEvent, s: Seq<char>, b: bool)
    ensures
        answers(PhaseView::Reading, e) || answers(PhaseView::Waiting, e) || answers(
            PhaseView::ReadingMessage(s),
            e,
        ),
        answers(PhaseView::Waiting, e) <==> e is Exited || e is WaitFailed,
        answers(PhaseView::ReadingMessage(s), e) <==> e is Message,
        !answers(PhaseView::Created, e),
        !answers(PhaseView::Failed(s), e),
        !answers(PhaseView::Cancelled(b), e),
{
}

proof fn lemma_nonblank(s: Seq<char>, i: int)
    requires
        0 <= i < s.len(),
        !white(s[i]),
    ensures
        trimmed(s).len() > 0,
{
    lemma_start_keeps(s, i);
    let t = trimmed_start(s);
    let j = choose|j: int| 0 <= j < t.len() && !white(#[trigger] t[j]);
    lemma_end_keeps(t, j);
}

proof fn lemma_start_keeps(s: Seq<char>, i: int)
    requires
        0 <= i < s.len(),
        !white(s[i]),
    ensures
        exists|j: int|
            0 <= j < trimmed_start(s).len() && !white(
                #[trigger] trimmed_start(s)[j],
            ),
    decreases s.len(),
{
    if white(s[0]) {
        let t = s.drop_first();
        assert(t[i - 1] == s[i]);
        lemma_start_keeps(t, i - 1);
        let u = trimmed_start(t);
        let j = choose|j: int| 0 <= j < u.len() && !white(#[trigger] u[j]);
        assert(trimmed_start(s) == u);
        assert(!white(trimmed_start(s)[j]));
    } else {
        assert(trimmed_start(s) == s);
        assert(!white(trimmed_start(s)[i]));
    }
}

proof fn lemma_end_keeps(s: Seq<char>, i: int)
    requires
        0 <= i < s.len(),
        !white(s[i]),
    ensures
        trimmed_end(s).len() > 0,
    decreases s.len(),
{
    if white(s.last()) {
        lemma_end_keeps(s.drop_last(), i);
    }
}

proof fn lemma_blank(s: Seq<char>)
    requires
        forall|i: int| 0 <= i < s.len() ==> white(#[trigger] s[i]),
    ensures
        trimmed(s).len() == 0,
    decreases s.len(),
{
    if s.len() > 0 {
        let t = s.drop_first();
        assert forall|i: int| 0 <= i < t.len() implies white(#[trigger] t[i]) by {
            assert(t[i] == s[i + 1]);
        }
        lemma_blank(t);
    }
}

/// A program that failed is reported with what it printed, as it printed it; one
/// that printed nothing but blanks with its name and its status. One that could
/// not be awaited is reported with its name and the reason.
pub proof fn failures_are_reported_with_their_cause(
    status: Seq<char>,
    e: ArchiveEvent,
    cancelled: bool,
    tool: Seq<char>,
)
    ensures
        e matches ArchiveEvent::Message(m) && (exists|i: int|
            0 <= i < m@.len() && !white(#[trigger] m@[i])) ==> next_phase(
            PhaseView::ReadingMessage(status),
            e,
            cancelled,
            tool,
        ) == PhaseView::Failed(e->Message_0@),
        e matches ArchiveEvent::Message(m) && (forall|i: int|
            0 <= i < m@.len() ==> white(#[trigger] m@[i])) ==> {
            let n = next_phase(PhaseView::ReadingMessage(status), e, cancelled, tool);
            &&& n is Failed
            &&& tool.is_prefix_of(n->Failed_0)
            &&& status.is_suffix_of(n->Failed_0)
        },
        e matches ArchiveEvent::WaitFailed(m) ==> {
            let n = next_phase(PhaseView::Waiting, e, cancelled, tool);
            &&& n is Failed
            &&& occurs_at(n->Failed_0, tool, 5)
            &&& m@.is_suffix_of(n->Failed_0)
        },
{
    match e {
        ArchiveEvent::Message(m) => {
            if exists|i: int| 0 <= i < m@.len() && !white(#[trigger] m@[i]) {
                let i = choose|i: int| 0 <= i < m@.len() && !white(#[trigger] m@[i]);
                lemma_nonblank(m@, i);
            } else {
                lemma_blank(m@);
                let t = tool + " exited with "@ + status;
                assert(t.subrange(0, tool.len() as int) =~= tool);
                assert(t.subrange(t.len() - status.len(), t.len() as int) =~= status);
            }
        },
        ArchiveEvent::WaitFailed(m) => {
            reveal_strlit("wait ");
            let t = "wait "@ + tool + ": "@ + m@;
            assert(t.subrange(5, tool.len() as int + 5) =~= tool);
            assert(t.subrange(t.len() - m@.len(), t.len() as int) =~= m@);
        },
        _ => {
        },
    }
}

// ---------------------------------------------------------------------------
// What the output says
// ---------------------------------------------------------------------------

/// Each line of `tar` that is not blank names one file and brings the count of
/// files one further; the fraction is that count of all the files, and never
/// above one.
pub proof fn each_line_of_tar_is_a_file(r: ReaderView, line: Seq<char>)
    requires
        r.format == ArchiveFormat::TarGz,
        trimmed(line).len() > 0,
        0 <= r.files_done < u64::MAX,
        0 < r.files_total <= u64::MAX,
    ensures
        ({
            let (after, update) = read_line(r, line);
            &&& update is Some
            &&& update->0.current == trimmed(line)
            &&& after.files_done == r.files_done + 1
            &&& after.fraction == update->0.fraction
            &&& after.fraction.whole == r.files_total
            &&& after.fraction.part <= after.fraction.whole
            &&& r.files_done < r.files_total ==> after.fraction.part == r.files_done + 1
            &&& r.files_done >= r.files_total ==> after.fraction.part == r.files_total
            &&& update->0.files_done == Some(after.fraction.part)
        }),
{
}

/// A line of the packer with a plus sign in front names the file behind it and
/// brings the count of files one further.
pub proof fn a_plus_sign_names_a_file(r: ReaderView, line: Seq<char>, name: Seq<char>)
    requires
        r.format != ArchiveFormat::TarGz,
        trimmed(line) == seq!['+', ' '] + name,
    ensures
        ({
            let (after, update) = read_line(r, line);
            &&& update is Some
            &&& update->0.current == name
            &&& after.files_done == r.files_done + 1
        }),
{
    lemma_plus_sign(trimmed(line), name);
}

proof fn lemma_plus_sign(t: Seq<char>, name: Seq<char>)
    requires
        t == seq!['+', ' '] + name,
    ensures
        packed_file(t) == Some(name),
        t.len() > 0,
{
    reveal_strlit("+ ");
    assert("+ "@ =~= seq!['+', ' ']);
    assert(t.subrange(0, 2) =~= "+ "@);
    assert("+ "@.is_prefix_of(t));
    assert(t.skip(2) =~= name);
}

proof fn lemma_digits(s: Seq<char>, a: int, i: int)
    requires
        0 <= a <= i <= s.len(),
        a > 0 ==> !is_decimal(s[a - 1]),
        forall|k: int| a <= k < i ==> is_decimal(#[trigger] s[k]),
    ensures
        digits_before(s, i) == s.subrange(a, i),
    decreases i,
{
    if a < i {
        lemma_digits(s, a, i - 1);
        assert(s.subrange(a, i - 1).push(s[i - 1]) =~= s.subrange(a, i));
    } else {
        assert(s.subrange(a, i) =~= Seq::empty());
    }
}

/// The first number with a percent sign behind it in a line of the packer is how
/// much of the work is done, in hundredths; more than all is all.
pub proof fn the_first_percentage_counts(
    r: ReaderView,
    line: Seq<char>,
    front: Seq<char>,
    digits: Seq<char>,
    back: Seq<char>,
)
    requires
        r.format != ArchiveFormat::TarGz,
        trimmed(line) == front + digits + seq!['%'] + back,
        digits.len() > 0,
        forall|k: int| 0 <= k < digits.len() ==> is_decimal(#[trigger] digits[k]),
        front.len() > 0 ==> !is_decimal(front.last()),
        forall|k: int| 0 <= k < front.len() ==> #[trigger] front[k] != '%',
    ensures
        ({
            let (after, update) = read_line(r, line);
            &&& update is Some
            &&& after.fraction == update->0.fraction
            &&& after.fraction.whole == 100
            &&& value_of(digits) <= 100 ==> after.fraction.part == value_of(digits)
            &&& value_of(digits) > 100 ==> after.fraction.part == 100
        }),
{
    lemma_first_percentage(trimmed(line), front, digits, back);
}

proof fn lemma_first_percentage(
    t: Seq<char>,
    front: Seq<char>,
    digits: Seq<char>,
    back: Seq<char>,
)
    requires
        t == front + digits + seq!['%'] + back,
        digits.len() > 0,
        forall|k: int| 0 <= k < digits.len() ==> is_decimal(#[trigger] digits[k]),
        front.len() > 0 ==> !is_decimal(front.last()),
        forall|k: int| 0 <= k < front.len() ==> #[trigger] front[k] != '%',
    ensures
        line_percent(t) == Some(least(value_of(digits), 100) as u64),
        value_of(digits) >= 0,
        t.len() > 0,
{
    let a = front.len() as int;
    let i = a + digits.len();
    assert(t[i] == '%');
    assert(t[i - 1] == digits[i - 1 - a]);
    assert(percent_at(t, i));
    assert forall|k: int| a <= k < i implies is_decimal(#[trigger] t[k]) by {
        assert(t[k] == digits[k - a]);
    }
    assert forall|k: int| 0 <= k < i implies !#[trigger] percent_at(t, k) by {
        if k < a {
            assert(t[k] == front[k]);
        } else {
            assert(is_decimal(t[k]));
        }
    }
    if a > 0 {
        assert(t[a - 1] == front.last());
    }
    lemma_digits(t, a, i);
    assert(t.subrange(a, i) =~= digits);
    let j = choose|j: int|
        #[trigger] percent_at(t, j) && (forall|k: int|
            0 <= k < j ==> !#[trigger] percent_at(t, k));
    assert(j == i);
    lemma_value(digits);
}

proof fn lemma_value(s: Seq<char>)
    requires
        forall|k: int| 0 <= k < s.len() ==> is_decimal(#[trigger] s[k]),
    ensures
        value_of(s) >= 0,
    decreases s.len(),
{
    if s.len() > 0 {
        assert forall|k: int| 0 <= k < s.drop_last().len() implies is_decimal(
            #[trigger] s.drop_last()[k],
        ) by {
            assert(s.drop_last()[k] == s[k]);
        }
        lemma_value(s.drop_last());
        assert(is_decimal(s[s.len() - 1]));
    }
}

/// What is read is a line only once it has ended: the characters before that are
/// kept, and nothing is said of them.
pub proof fn a_line_counts_once_it_has_ended(r: ReaderView, text: Seq<char>)
    requires
        forall|k: int| 0 <= k < text.len() ==> #[trigger] text[k] != '\n' && text[k] != '\r',
    ensures
        read_text(r, text).0 == (ReaderView { line: r.line + text, ..r }),
        read_text(r, text).1.len() == 0,
    decreases text.len(),
{
    if text.len() > 0 {
        let t = text.drop_last();
        assert forall|k: int| 0 <= k < t.len() implies #[trigger] t[k] != '\n' && t[k] != '\r' by {
            assert(t[k] == text[k]);
        }
        a_line_counts_once_it_has_ended(r, t);
        assert(text[text.len() - 1] != '\n');
        lemma_kept_char(read_text(r, t).0, text.last());
        assert((r.line + t).push(text.last()) =~= r.line + text);
    } else {
        assert(r.line + text =~= r.line);
    }
}

proof fn lemma_kept_char(r: ReaderView, c: char)
    requires
        c != '\n',
        c != '\r',
    ensures
        read_char(r, c).0 == (ReaderView { line: r.line.push(c), ..r }),
        read_char(r, c).1.len() == 0,
{
    reveal(read_char);
}

/// A line that has ended is read as a whole, and the next one begins with
/// nothing.
pub proof fn a_line_that_has_ended_is_read(r: ReaderView, c: char)
    requires
        c == '\n' || c == '\r',
    ensures
        read_char(r, c).0 == read_line(ReaderView { line: Seq::empty(), ..r }, r.line).0,
        read_char(r, c).0.line.len() == 0,
        read_char(r, c).1 == match read_line(ReaderView { line: Seq::empty(), ..r }, r.line).1 {
            Some(u) => seq![u],
            None => Seq::empty(),
        },
{
    reveal(read_char);
}

// ---------------------------------------------------------------------------
// What is packed
// ---------------------------------------------------------------------------

/// Every path that has a name is packed under that name, in the order of the
/// paths, and nothing else is.
pub proof fn every_named_path_is_packed(paths: Seq<Seq<u8>>, n: int, name: Seq<u8>)
    requires
        0 <= n <= paths.len(),
    ensures
        names_of(paths, n).contains(name) <==> exists|i: int|
            0 <= i < n && file_name(#[trigger] paths[i]) == Some(name),
        (forall|i: int| 0 <= i < n ==> file_name(#[trigger] paths[i]) is Some) ==> names_of(
            paths,
            n,
        ).len() == n && forall|i: int|
            0 <= i < n ==> file_name(paths[i]) == Some(#[trigger] names_of(paths, n)[i]),
    decreases n,
{
    if n > 0 {
        every_named_path_is_packed(paths, n - 1, name);
        let before = names_of(paths, n - 1);
        let all = names_of(paths, n);
        if all.contains(name) {
            let k = choose|k: int| 0 <= k < all.len() && all[k] == name;
            if k < before.len() {
                assert(before[k] == name);
                assert(before.contains(name));
            } else {
                assert(file_name(paths[n - 1]) == Some(name));
            }
        }
        if exists|i: int| 0 <= i < n && file_name(#[trigger] paths[i]) == Some(name) {
            let i = choose|i: int| 0 <= i < n && file_name(#[trigger] paths[i]) == Some(name);
            if i == n - 1 {
                assert(all[all.len() - 1] == name);
            } else {
                assert(before.contains(name));
                let k = choose|k: int| 0 <= k < before.len() && before[k] == name;
                assert(all[k] == name);
            }
        }
        if forall|i: int| 0 <= i < n ==> file_name(#[trigger] paths[i]) is Some {
            assert(file_name(paths[n - 1]) is Some);
        }
    }
}

/// The last arguments of the program are the names that are packed, in order,
/// and the one before them is the new archive.
pub proof fn the_names_are_the_last_arguments(
    f: ArchiveFormat,
    out: Seq<u8>,
    names: Seq<Seq<u8>>,
    pw: Option<Seq<char>>,
)
    ensures
        ({
            let args = command_args(f, out, names, pw);
            let n = args.len() - names.len();
            &&& n >= 2
            &&& args[n - 1] == out
            &&& args.skip(n) == names
        }),
{
    let args = command_args(f, out, names, pw);
    let n = args.len() - names.len();
    assert(args.skip(n) =~= names);
}

/// A password is handed to the packer, and with it the wish to encrypt; `tar`
/// gets none, and nothing else depends on the password.
pub proof fn a_password_is_handed_over(
    f: ArchiveFormat,
    out: Seq<u8>,
    names: Seq<Seq<u8>>,
    pw: Seq<char>,
)
    ensures
        ({
            let with = command_args(f, out, names, Some(pw));
            let without = command_args(f, out, names, None);
            if f == ArchiveFormat::TarGz {
                with == without
            } else {
                &&& with.len() == without.len() + 2
                &&& with[2] == encode_utf8(seq!['-', 'p'] + pw)
                &&& with.take(2) == without.take(2)
                &&& with.skip(4) == without.skip(2)
            }
        }),
{
    reveal_strlit("-p");
    assert("-p"@ =~= seq!['-', 'p']);
    let with = command_args(f, out, names, Some(pw));
    let without = command_args(f, out, names, None);
    if f != ArchiveFormat::TarGz {
        assert(with.take(2) =~= without.take(2));
        assert(with.skip(4) =~= without.skip(2));
    }
}

/// A new archive is called by the name that was given, without blanks around it,
/// and its extension is one that is known as that of an archive.
pub proof fn a_new_archive_is_an_archive(base: Seq<char>, f: ArchiveFormat)
    ensures
        trimmed(base).is_prefix_of(output_name(base, f)),
        output_name(base, f).len() > trimmed(base).len(),
        output_name(base, f)[trimmed(base).len() as int] == '.',
        archive_name(output_name(base, f)),
{
    reveal_strlit(".");
    reveal_strlit("zip");
    reveal_strlit("7z");
    reveal_strlit("tar.gz");
    reveal_strlit(".zip");
    reveal_strlit(".7z");
    reveal_strlit(".tar.gz");
    let o = output_name(base, f);
    let t = trimmed(base);
    assert(o.subrange(0, t.len() as int) =~= t);
    let k: int = match f {
        ArchiveFormat::Zip => 4,
        ArchiveFormat::SevenZip => 5,
        ArchiveFormat::TarGz => 0,
    };
    let x = archive_ext(k);
    assert(o.subrange(o.len() - x.len(), o.len() as int) =~= x);
    assert(has_ext(o, k));
}

// ---------------------------------------------------------------------------
// What is extracted
// ---------------------------------------------------------------------------

/// Of a selection exactly the archives are extracted, in order.
pub proof fn exactly_the_archives_are_extracted(paths: Seq<Seq<u8>>, n: int, p: Seq<u8>)
    requires
        0 <= n <= paths.len(),
    ensures
        archives_upto(paths, n).contains(p) <==> archive_path(p) && paths.take(n).contains(p),
        (forall|i: int| 0 <= i < n ==> archive_path(#[trigger] paths[i])) ==> archives_upto(
            paths,
            n,
        ) == paths.take(n),
    decreases n,
{
    if n > 0 {
        exactly_the_archives_are_extracted(paths, n - 1, p);
        let before = archives_upto(paths, n - 1);
        let all = archives_upto(paths, n);
        let t = paths.take(n);
        let u = paths.take(n - 1);
        assert(t =~= paths.take(n - 1).push(paths[n - 1]));
        if all.contains(p) {
            let k = choose|k: int| 0 <= k < all.len() && all[k] == p;
            if k < before.len() {
                assert(before[k] == p);
                let j = choose|j: int| 0 <= j < u.len() && u[j] == p;
                assert(t[j] == p);
            } else {
                assert(t[n - 1] == p);
            }
        }
        if archive_path(p) && t.contains(p) {
            let j = choose|j: int| 0 <= j < n && t[j] == p;
            if j < n - 1 {
                assert(u[j] == p);
                let k = choose|k: int| 0 <= k < before.len() && before[k] == p;
                assert(all[k] == p);
            } else {
                assert(all[all.len() - 1] == p);
            }
        }
    } else {
        assert(paths.take(n) =~= Seq::empty());
    }
}

/// Of the entries of a folder exactly those are extracted that are no folders and
/// are archives by name or by type.
pub proof fn exactly_the_archive_entries_are_extracted(es: Seq<EntryView>, n: int, p: Seq<u8>)
    requires
        0 <= n <= es.len(),
    ensures
        archive_entries_upto(es, n).contains(p) <==> exists|i: int|
            0 <= i < n && (#[trigger] es[i]).path == p && es[i].file_type != FileType::Directory && (
            archive_path(p) || (es[i].mime is Some && archive_mime(es[i].mime->0))),
    decreases n,
{
    if n > 0 {
        exactly_the_archive_entries_are_extracted(es, n - 1, p);
        let before = archive_entries_upto(es, n - 1);
        let all = archive_entries_upto(es, n);
        let e = es[n - 1];
        if all.contains(p) {
            let k = choose|k: int| 0 <= k < all.len() && all[k] == p;
            if k < before.len() {
                assert(before[k] == p);
                assert(before.contains(p));
            } else {
                assert(es[n - 1].path == p);
            }
        }
        if before.contains(p) {
            let k = choose|k: int| 0 <= k < before.len() && before[k] == p;
            assert(all[k] == p);
        }
        if archive_entry(e) && e.path == p {
            assert(all[all.len() - 1] == p);
        }
    }
}

/// An extraction succeeds exactly where the extractor ended with success, and
/// says that the extractor is missing exactly where it was not found.
pub proof fn an_extraction_ends_as_the_extractor_did(run: ExtractRun)
    ensures
        extract_error(run) is None <==> (run matches ExtractRun::Ended(success, _, _) && success),
        extract_error(run) == Some(ErrorView::ToolMissing) <==> run is NotFound,
        extract_error(run) == Some(ErrorView::WrongPassword) ==> run is Ended,
{
}

/// An extractor that failed and says, on either output, that the password is
/// wrong, is believed.
pub proof fn a_complaint_of_the_password_is_heard(run: ExtractRun, i: int)
    requires
        run matches ExtractRun::Ended(success, stdout, stderr) && !success && {
            let said = lowercase(lossy(stdout@) + lossy(stderr@));
            ||| occurs_at(said, "wrong password"@, i)
            ||| occurs_at(said, "enter password"@, i)
            ||| occurs_at(said, "encrypted archive"@, i)
            ||| occurs_at(said, "cannot open encrypted"@, i)
            ||| occurs_at(said, "can not open encrypted"@, i)
            ||| occurs_at(said, "data error in encrypted file"@, i)
        },
    ensures
        extract_error(run) == Some(ErrorView::WrongPassword),
{
}

/// An extractor that failed without a word of a password is reported with what
/// it printed as its errors.
pub proof fn other_failures_are_reported(run: ExtractRun)
    requires
        run matches ExtractRun::Ended(success, stdout, stderr) && !success && forall|i: int|
            !#[trigger] occurs_at(
                lowercase(lossy(stdout@) + lossy(stderr@)),
                "wrong password"@,
                i,
            ) && !occurs_at(lowercase(lossy(stdout@) + lossy(stderr@)), "enter password"@, i)
                && !occurs_at(lowercase(lossy(stdout@) + lossy(stderr@)), "encrypted archive"@, i)
                && !occurs_at(
                lowercase(lossy(stdout@) + lossy(stderr@)),
                "cannot open encrypted"@,
                i,
            ) && !occurs_at(
                lowercase(lossy(stdout@) + lossy(stderr@)),
                "can not open encrypted"@,
                i,
            ) && !occurs_at(
                lowercase(lossy(stdout@) + lossy(stderr@)),
                "data error in encrypted file"@,
                i,
            ),
    ensures
        extract_error(run) == Some(ErrorView::Other(lossy(run->Ended_2@))),
{
    let said = lowercase(lossy(run->Ended_1@) + lossy(run->Ended_2@));
    assert(forall|i: int| !#[trigger] occurs_at(said, "wrong password"@, i));
    assert forall|i: int| !#[trigger] occurs_at(said, "enter password"@, i) by {
        assert(!occurs_at(said, "wrong password"@, i));
    }
    assert forall|i: int| !#[trigger] occurs_at(said, "encrypted archive"@, i) by {
        assert(!occurs_at(said, "wrong password"@, i));
    }
    assert forall|i: int| !#[trigger] occurs_at(said, "cannot open encrypted"@, i) by {
        assert(!occurs_at(said, "wrong password"@, i));
    }
    assert forall|i: int| !#[trigger] occurs_at(said, "can not open encrypted"@, i) by {
        assert(!occurs_at(said, "wrong password"@, i));
    }
    assert forall|i: int| !#[trigger] occurs_at(said, "data error in encrypted file"@, i) by {
        assert(!occurs_at(said, "wrong password"@, i));
    }
}

/// The queue after some archives were extracted with success, without any
/// password.
pub open spec fn after_successes(q: QueueView, n: nat) -> (QueueView, StepView)
    decreases n,
{
    if n == 0 {
        advanced(q, None)
    } else {
        after_run(after_successes(q, (n - 1) as nat).0, None, None)
    }
}

/// A batch goes through all its archives in order, one at a time, and then shows
/// the new folders.
pub proof fn a_batch_goes_through_all_its_archives(q: QueueView, n: nat)
    requires
        n <= q.queue.len(),
    ensures
        n < q.queue.len() ==> after_successes(q, n).1 == StepView::Run(q.queue[n as int], q.password)
            && after_successes(q, n).0.current == Some(q.queue[n as int])
            && after_successes(q, n).0.queue == q.queue.skip(n as int + 1),
        n == q.queue.len() ==> after_successes(q, n).1 is Refresh && after_successes(
            q,
            n,
        ).0.current is None && after_successes(q, n).0.queue.len() == 0,
        after_successes(q, n).0.password == q.password,
    decreases n,
{
    if n > 0 {
        a_batch_goes_through_all_its_archives(q, (n - 1) as nat);
        if n < q.queue.len() {
            assert(q.queue.skip(n as int).skip(1) =~= q.queue.skip(n as int + 1));
        }
    }
}

/// Where a password is wrong, the same archive is asked for, by its name; the
/// batch waits and nothing of it is lost. The question says whether a password
/// was tried.
pub proof fn a_wrong_password_is_asked_for_again(q: QueueView, tried: Option<Seq<char>>)
    requires
        q.current is Some,
        file_name(q.current->0) is Some,
    ensures
        after_run(q, tried, Some(ErrorView::WrongPassword)) == (
            q,
            StepView::AskPassword(lossy(file_name(q.current->0)->0), tried is Some),
        ),
{
}

/// Without the extractor the whole batch is given up.
pub proof fn a_missing_extractor_ends_the_batch(q: QueueView, tried: Option<Seq<char>>)
    ensures
        after_run(q, tried, Some(ErrorView::ToolMissing)).0.queue.len() == 0,
        after_run(q, tried, Some(ErrorView::ToolMissing)).0.current is None,
        after_run(q, tried, Some(ErrorView::ToolMissing)).1 is Idle,
{
}

/// The name of an archive is what stands before its extension, where no longer
/// extension fits: a name with its extension taken off and put back is the name.
pub proof fn taking_the_extension_off_keeps_the_rest(
    name: Seq<char>,
    lower: Seq<char>,
    r: Seq<char>,
)
    requires
        stripped(name, lower, r),
        lower.len() == name.len(),
    ensures
        r.is_prefix_of(name),
        !archive_name(lower) ==> r == name,
        archive_name(lower) ==> exists|i: int|
            0 <= i < ARCHIVE_EXTS && archive_ext(i) == #[trigger] lower.skip(r.len() as int) && has_ext(
                lower,
                i,
            ),
{
    if archive_name(lower) {
        let i = choose|i: int|
            0 <= i < ARCHIVE_EXTS && #[trigger] has_ext(lower, i) && (forall|k: int|
                0 <= k < i ==> !#[trigger] has_ext(lower, k)) && r == without_last(
                name,
                archive_ext(i).len() as int,
            );
        assert(r =~= name.subrange(0, r.len() as int));
        assert(lower.skip(r.len() as int) =~= archive_ext(i));
    } else {
        assert(r =~= name.subrange(0, r.len() as int));
    }
}

/// A new archive is proposed under the name of the single thing that is packed,
/// without its extension, and lies beside it.
pub proof fn archives_are_proposed_by_what_is_packed(paths: Seq<Seq<u8>>)
    requires
        paths.len() > 0,
    ensures
        paths.len() == 1 && file_stem(paths[0]) is Some ==> default_name(paths) == lossy(
            file_stem(paths[0])->0,
        ),
        paths.len() > 1 ==> default_name(paths) == "archive"@,
        parent(paths[0]) is Some ==> dir_of(paths[0]) == parent(paths[0])->0,
{
}

/// An archive is extracted under its own name, and its password is asked for by
/// that name.
pub proof fn archives_go_by_their_name(p: Seq<u8>, name: Seq<u8>)
    requires
        file_name(p) == Some(name),
    ensures
        extraction_name(p) == lossy(name),
        asked_name(p) == lossy(name),
{
}

/// Each format has the program that makes it.
pub proof fn formats_have_their_program(f: ArchiveFormat)
    ensures
        f is TarGz ==> format_tool(f) == seq!['t', 'a', 'r'],
        !(f is TarGz) ==> format_tool(f) == seq!['7', 'z'],
{
    reveal_strlit("tar");
    reveal_strlit("7z");
    assert("tar"@ =~= seq!['t', 'a', 'r']);
    assert("7z"@ =~= seq!['7', 'z']);
}

/// Which archive is made is said to the packer, and a password hides the names in
/// a `7z` and chooses the stronger cipher of a `zip`.
pub proof fn the_format_decides_the_switches(
    f: ArchiveFormat,
    out: Seq<u8>,
    names: Seq<Seq<u8>>,
    pw: Option<Seq<char>>,
)
    ensures
        ({
            let args = command_args(f, out, names, pw);
            let n = args.len() - names.len();
            &&& f == ArchiveFormat::TarGz ==> args[0] == encode_utf8("-czvf"@) && n == 2
            &&& f != ArchiveFormat::TarGz ==> args[0] == encode_utf8("a"@)
            &&& f == ArchiveFormat::SevenZip ==> args[1] == encode_utf8("-t7z"@)
            &&& f == ArchiveFormat::Zip ==> args[1] == encode_utf8("-tzip"@)
            &&& f == ArchiveFormat::SevenZip && pw is Some ==> args[3] == encode_utf8("-mhe=on"@)
            &&& f == ArchiveFormat::Zip && pw is Some ==> args[3] == encode_utf8("-mem=AES256"@)
            &&& f != ArchiveFormat::TarGz ==> {
                &&& args[n - 4] == encode_utf8("-y"@)
                &&& args[n - 3] == encode_utf8("-bsp1"@)
                &&& args[n - 2] == encode_utf8("-bb1"@)
            }
        }),
{
}

/// The types of archives are known, whether their names are the older or the newer
/// ones.
pub proof fn archives_are_known_by_their_type(m: Seq<char>)
    ensures
        m == "application/zip"@ ==> archive_mime(m),
        m == "application/x-7z-compressed"@ ==> archive_mime(m),
        m == "application/x-rar-compressed"@ || m == "application/vnd.rar"@ ==> archive_mime(m),
        m == "application/gzip"@ || m == "application/x-gzip"@ ==> archive_mime(m),
        m == "application/x-bzip2"@ ==> archive_mime(m),
        m == "application/x-xz"@ ==> archive_mime(m),
        m == "application/zstd"@ || m == "application/x-zstd"@ ==> archive_mime(m),
        m == "application/x-tar"@ || m == "application/x-compressed-tar"@ ==> archive_mime(m),
        archive_mime(m) ==> m.len() > 12 && m.take(12) == "application/"@,
{
    reveal_strlit("application/");
    reveal_strlit("application/zip");
    reveal_strlit("application/x-7z-compressed");
    reveal_strlit("application/x-rar-compressed");
    reveal_strlit("application/vnd.rar");
    reveal_strlit("application/gzip");
    reveal_strlit("application/x-gzip");
    reveal_strlit("application/x-bzip2");
    reveal_strlit("application/x-xz");
    reveal_strlit("application/zstd");
    reveal_strlit("application/x-zstd");
    reveal_strlit("application/x-tar");
    reveal_strlit("application/x-compressed-tar");
    if archive_mime(m) {
        assert(m.take(12) =~= "application/"@);
    }
}

/// An extraction that could not begin says why, and a missing program is told apart
/// from any other reason.
pub proof fn extractions_that_cannot_begin_say_why(m: String, p: Seq<u8>)
    ensures
        extract_error(ExtractRun::NotFound) == Some(ErrorView::ToolMissing),
        extract_error(ExtractRun::NoDestination(m)) == Some(
            ErrorView::Other("create dest: "@ + m@),
        ),
        extract_error(ExtractRun::NotStarted(m)) == Some(ErrorView::Other("spawn 7z: "@ + m@)),
        file_name(p) is None ==> extraction_name(p) == "extracted"@,
{
}

/// The packer also names a file by saying that it compresses it; without a name it
/// has named none, and other lines name none.
pub proof fn the_packer_says_what_it_compresses(rest: Seq<char>, line: Seq<char>)
    ensures
        trimmed(rest).len() > 0 ==> packed_file("Compressing"@ + rest) == Some(trimmed(rest)),
        trimmed(rest).len() == 0 ==> packed_file("Compressing"@ + rest) is None,
        line.len() > 0 && line[0] != '+' && line[0] != 'C' ==> packed_file(line) is None,
        packed_file(seq!['+', ' '] + rest) == Some(rest),
{
    reveal_strlit("Compressing");
    reveal_strlit("+ ");
    let c = "Compressing"@ + rest;
    assert(c.subrange(0, 11) =~= "Compressing"@);
    assert(c.skip(11) =~= rest);
    assert(!"+ "@.is_prefix_of(c)) by {
        if "+ "@.is_prefix_of(c) {
            assert("+ "@[0] == c.subrange(0, 2)[0]);
            assert(c[0] == 'C');
        }
    }
    if line.len() > 0 {
        if "+ "@.is_prefix_of(line) {
            assert("+ "@[0] == line.subrange(0, 2)[0]);
        }
        if "Compressing"@.is_prefix_of(line) {
            assert("Compressing"@[0] == line.subrange(0, 11)[0]);
        }
    }
    let p = seq!['+', ' '] + rest;
    assert("+ "@ =~= seq!['+', ' ']);
    assert(p.subrange(0, 2) =~= "+ "@);
    assert(p.skip(2) =~= rest);
}

} // verus!
