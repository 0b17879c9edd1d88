//! The board's short texts: how they read, how they wrap and how they fit.

use vstd::prelude::*;
use crate::geometry::{floored_difference, greatest};
use crate::text::{
    chars_of, concat, concat3, decimal, digits, is_white, joined, lemma_a_number_reads_back,
    split_words, string_of, texts, value_of, words,
};

verus! {

/// The version of this crate.
pub const CRATE_VERSION: &'static str = "0.1.0";

/// What a release's version starts with.
pub const RELEASE_VERSION_PREFIX: &'static str = "v";

/// What a local build's version starts with.
pub const DEV_VERSION_PREFIX: &'static str = "dev+";

/// What a local build's version ends with, where its sources held changes that
/// were not committed.
pub const DEV_DIRTY_SUFFIX: &'static str = "-dirty";

/// What a build knows about where it came from.
#[derive(Debug)]
pub struct BuildInfo {
    /// Whether this is a local build and no release.
    pub debug_build: bool,
    /// The short hash of the commit it was built from.
    pub git_hash: String,
    /// Whether its sources held changes that were not committed.
    pub dirty: bool,
}

/// How a build's version reads: `v0.1.0` for a release, `dev+a1b2c3d` for a
/// local build, with `-dirty` behind it where that applies.
pub open spec fn version_text(debug_build: bool, git_hash: Seq<char>, dirty: bool) -> Seq<char> {
    if !debug_build {
        RELEASE_VERSION_PREFIX@ + CRATE_VERSION@
    } else if dirty {
        DEV_VERSION_PREFIX@ + git_hash + DEV_DIRTY_SUFFIX@
    } else {
        DEV_VERSION_PREFIX@ + git_hash
    }
}

/// How a build's version reads.
pub fn format_version_label(debug_build: bool, git_hash: &str, dirty: bool) -> (label: String)
    ensures
        label@ == version_text(debug_build, git_hash@, dirty),
{
    if !debug_build {
        return concat(RELEASE_VERSION_PREFIX, CRATE_VERSION);
    }
    if dirty {
        concat3(DEV_VERSION_PREFIX, git_hash, DEV_DIRTY_SUFFIX)
    } else {
        concat(DEV_VERSION_PREFIX, git_hash)
    }
}

/// How this build's version reads.
pub fn version_label(build: &BuildInfo) -> (label: String)
    ensures
        label@ == version_text(build.debug_build, build.git_hash@, build.dirty),
{
    format_version_label(build.debug_build, build.git_hash.as_str(), build.dirty)
}

/// How many ticks each phase of the pulse lasts.
pub const BLINK_TICKS: u64 = 2;

/// Whether the board's pulse is in its shown phase at `tick`.
#[verifier::allow_in_spec]
pub fn blink_visible(tick: u64) -> bool
    returns
        (tick / BLINK_TICKS) % 2 == 0,
{
    (tick / BLINK_TICKS) % 2 == 0
}

/// The pulse alternates: a phase later it is in the other phase, and a cycle
/// later in the same one. The last tick before the counter starts over falls on
/// the end of a cycle.
pub proof fn lemma_the_pulse_alternates(tick: u64)
    ensures
        tick <= u64::MAX - 2 ==> blink_visible((tick + 2) as u64) != blink_visible(tick),
        tick <= u64::MAX - 4 ==> blink_visible((tick + 4) as u64) == blink_visible(tick),
        blink_visible(0),
        !blink_visible(u64::MAX),
        (u64::MAX + 1) % 4 == 0,
{
}

/// The glyphs of the spinner, one for each tick of its turn.
pub open spec fn spinner_text(phase: int) -> Seq<char> {
    if phase == 0 {
        "\u{280b}"@
    } else if phase == 1 {
        "\u{2819}"@
    } else if phase == 2 {
        "\u{2839}"@
    } else if phase == 3 {
        "\u{2838}"@
    } else if phase == 4 {
        "\u{283c}"@
    } else if phase == 5 {
        "\u{2834}"@
    } else if phase == 6 {
        "\u{2826}"@
    } else if phase == 7 {
        "\u{2827}"@
    } else if phase == 8 {
        "\u{2807}"@
    } else {
        "\u{280f}"@
    }
}

/// How many glyphs the spinner has.
pub const SPINNER_FRAMES: u64 = 10;

/// The glyph of the spinner at `tick`.
pub fn spinner_frame(tick: u64) -> (glyph: &'static str)
    ensures
        glyph@ == spinner_text(tick as int % SPINNER_FRAMES as int),
{
    let phase: u64 = tick % SPINNER_FRAMES;
    if phase == 0 {
        "\u{280b}"
    } else if phase == 1 {
        "\u{2819}"
    } else if phase == 2 {
        "\u{2839}"
    } else if phase == 3 {
        "\u{2838}"
    } else if phase == 4 {
        "\u{283c}"
    } else if phase == 5 {
        "\u{2834}"
    } else if phase == 6 {
        "\u{2826}"
    } else if phase == 7 {
        "\u{2827}"
    } else if phase == 8 {
        "\u{2807}"
    } else {
        "\u{280f}"
    }
}

/// The gap before a folded head's count.
pub const LINEAGE_MARKER_GAP: &'static str = "  ";

/// The mark of a row that stands for `hidden` others: `(+N)`, behind a gap.
pub open spec fn lineage_text(hidden: nat) -> Seq<char> {
    LINEAGE_MARKER_GAP@ + "(+"@ + digits(hidden) + ")"@
}

/// The mark of a row that stands for `hidden` others.
pub fn lineage_marker(hidden: usize) -> (marker: String)
    ensures
        marker@ == lineage_text(hidden as nat),
{
    let mut marker = concat(LINEAGE_MARKER_GAP, "(+");
    marker.append(decimal(hidden as u64).as_str());
    marker.append(")");
    marker
}

/// How many characters of a session's id a child row shows.
pub const CHILD_ID_CHARS: usize = 8;

/// The first characters of an id.
pub open spec fn id_prefix(session_id: Seq<char>) -> Seq<char> {
    if session_id.len() <= CHILD_ID_CHARS {
        session_id
    } else {
        session_id.take(CHILD_ID_CHARS as int)
    }
}

/// The first characters of a session's id.
pub fn short_id(session_id: &str) -> (short: String)
    ensures
        short@ == id_prefix(session_id@),
{
    let chars = chars_of(session_id);
    if chars.len() <= CHILD_ID_CHARS {
        assert(chars@.subrange(0, chars@.len() as int) =~= session_id@);
        string_of(&chars, 0, chars.len())
    } else {
        assert(chars@.subrange(0, CHILD_ID_CHARS as int) =~= session_id@.take(
            CHILD_ID_CHARS as int,
        ));
        string_of(&chars, 0, CHILD_ID_CHARS)
    }
}

/// The gap before a child row's turn count.
pub const CHILD_MSGS_GAP: &'static str = "  ";

/// The unit of a child row's turn count.
pub const CHILD_MSGS_SUFFIX: &'static str = " msgs";

/// A child row's turn count: `6 msgs`, behind a gap.
pub open spec fn msgs_text(msg_count: nat) -> Seq<char> {
    CHILD_MSGS_GAP@ + digits(msg_count) + CHILD_MSGS_SUFFIX@
}

/// A child row's turn count.
pub fn child_msgs(msg_count: usize) -> (segment: String)
    ensures
        segment@ == msgs_text(msg_count as nat),
{
    concat3(CHILD_MSGS_GAP, decimal(msg_count as u64).as_str(), CHILD_MSGS_SUFFIX)
}

/// The turn count, where it fits whole into what `used` leaves of
/// `content_width`; else none. It is never cut.
pub fn fit_child_msgs(msg_count: usize, content_width: usize, used: usize) -> (segment: Option<
    String,
>)
    ensures
        match segment {
            Some(text) => text@ == msgs_text(msg_count as nat) && msgs_text(msg_count as nat).len()
                <= floored_difference(content_width as int, used as int),
            None => msgs_text(msg_count as nat).len() > floored_difference(
                content_width as int,
                used as int,
            ),
        },
{
    let segment = child_msgs(msg_count);
    if segment.as_str().unicode_len() <= content_width.saturating_sub(used) {
        Some(segment)
    } else {
        None
    }
}

/// What a cut label ends with.
pub const LABEL_ELLIPSIS: &'static str = "…";

/// The columns left for a label once the row's other fields and the marker have
/// theirs.
pub open spec fn label_budget(content_width: int, used: int, marker: int) -> int {
    floored_difference(floored_difference(content_width, used), marker)
}

/// A label in `budget` columns: whole where it fits, else cut, with an ellipsis
/// in its last column.
pub open spec fn fitted(label: Seq<char>, budget: int) -> Seq<char> {
    if label.len() <= budget {
        label
    } else if budget == 0 {
        seq![]
    } else {
        label.take(budget - 1) + LABEL_ELLIPSIS@
    }
}

/// The label in the columns that are left for it. The marker's columns are held
/// back first.
pub fn fit_label(label: &str, content_width: usize, used: usize, marker: usize) -> (out: String)
    ensures
        out@ == fitted(
            label@,
            label_budget(content_width as int, used as int, marker as int),
        ),
        out@.len() <= label_budget(content_width as int, used as int, marker as int),
{
    let budget: usize = content_width.saturating_sub(used).saturating_sub(marker);
    let chars = chars_of(label);
    if chars.len() <= budget {
        return label.to_owned();
    }
    if budget == 0 {
        let out = String::new();
        assert(out@ =~= seq![]);
        return out;
    }
    let mut out = string_of(&chars, 0, budget - 1);
    out.append(LABEL_ELLIPSIS);
    proof {
        reveal_strlit("…");
        assert(chars@.subrange(0, budget - 1) =~= label@.take(budget - 1));
    }
    out
}

/// The marker always has its columns: a fitted label and its marker together
/// stay within the row wherever the marker alone does.
pub proof fn lemma_the_marker_is_never_clipped(
    label: Seq<char>,
    content_width: int,
    used: int,
    marker: int,
)
    requires
        0 <= used,
        0 <= marker,
        used + marker <= content_width,
    ensures
        used + fitted(label, label_budget(content_width, used, marker)).len() + marker
            <= content_width,
        label.len() <= label_budget(content_width, used, marker) ==> fitted(
            label,
            label_budget(content_width, used, marker),
        ) == label,
{
    reveal_strlit("…");
}

/// The words in lines of at most `width` characters, each line filled as far as
/// it goes; a longer word has a line to itself. There is always a line.
pub open spec fn wrapped(words: Seq<Seq<char>>, width: int) -> Seq<Seq<char>>
    decreases words.len(),
{
    if words.len() == 0 {
        seq![seq![]]
    } else {
        let before = wrapped(words.drop_last(), width);
        let line = before.last();
        let word = words.last();
        if line.len() == 0 {
            before.drop_last().push(word)
        } else if line.len() + 1 + word.len() > width {
            before.push(word)
        } else {
            before.drop_last().push(line.push(' ') + word)
        }
    }
}

/// Wrap `text` at whitespace to lines of at most `width` characters, or one
/// where `width` is zero.
pub fn wrap_message(text: &str, width: u16) -> (lines: Vec<String>)
    ensures
        texts(lines@) == wrapped(words(text@), greatest(width as int, 1)),
        lines@.len() > 0,
{
    let most: usize = if width > 1 {
        width as usize
    } else {
        1
    };
    let ghost all = words(text@);
    let parts = split_words(text);
    let mut lines: Vec<String> = Vec::new();
    let mut line = String::new();
    let mut i: usize = 0;
    proof {
        lemma_words_are_words(text@);
        lemma_words_fit(text@);
        assert(all.take(0) =~= seq![]);
        assert(texts(lines@).push(line@) =~= seq![seq![]]);
    }
    while i < parts.len()
        invariant
            i <= parts@.len(),
            all == words(text@),
            texts(parts@) == all,
            most == greatest(width as int, 1),
            text@.len() <= usize::MAX,
            joined(all, seq![' ']).len() <= text@.len(),
            forall|k: int| 0 <= k < all.len() ==> (#[trigger] all[k]).len() > 0,
            texts(lines@).push(line@) == wrapped(all.take(i as int), most as int),
            line@.len() <= joined(all.take(i as int), seq![' ']).len(),
        decreases parts@.len() - i,
    {
        let word = parts[i].as_str();
        let ghost so_far = wrapped(all.take(i as int), most as int);
        let ghost before = lines@;
        let ghost old_line = line@;
        proof {
            assert(all[i as int] == word@);
            assert(all.take(i + 1).drop_last() =~= all.take(i as int));
            assert(all.take(i + 1).last() == word@);
            assert(so_far.last() == line@);
            assert(so_far.drop_last() =~= texts(before));
            lemma_joined_grows(all, i + 1, seq![' ']);
        }
        let len: usize = line.as_str().unicode_len();
        let word_len: usize = word.unicode_len();
        if len == 0 {
            proof {
                lemma_joined_grows(all.take(i + 1), i as int, seq![' ']);
            }
            line.append(word);
            assert(line@ =~= word@);
        } else {
            assert(i > 0);
            assert(len + 1 + word_len <= joined(all.take(i + 1), seq![' ']).len());
            if len + 1 + word_len > most {
                lines.push(line);
                assert(texts(lines@) =~= texts(before).push(old_line));
                line = word.to_owned();
            } else {
                line.push(' ');
                line.append(word);
            }
        }
        assert(texts(lines@).push(line@) =~= wrapped(all.take(i + 1), most as int));
        i += 1;
    }
    assert(all.take(i as int) =~= all);
    let ghost before = lines@;
    let ghost last = line@;
    lines.push(line);
    assert(texts(lines@) =~= texts(before).push(last));
    lines
}

/// A word is not empty and holds no whitespace.
pub proof fn lemma_words_are_words(s: Seq<char>)
    ensures
        forall|k: int| 0 <= k < words(s).len() ==> (#[trigger] words(s)[k]).len() > 0,
        forall|k: int, i: int|
            0 <= k < words(s).len() && 0 <= i < words(s)[k].len() ==> !is_white(
                #[trigger] words(s)[k][i],
            ),
        s.len() > 0 && !is_white(s.last()) ==> words(s).len() > 0,
    decreases s.len(),
{
    if s.len() > 0 {
        let before = words(s.drop_last());
        let after = words(s);
        lemma_words_are_words(s.drop_last());
        if s.len() >= 2 {
            assert(s.drop_last().last() == s[s.len() - 2]);
        }
        assert forall|k: int| 0 <= k < after.len() implies (#[trigger] after[k]).len() > 0 by {
            if k < before.len() {
                assert(before[k].len() > 0);
            }
        }
        assert forall|k: int, i: int| 0 <= k < after.len() && 0 <= i < after[k].len() implies !is_white(
            #[trigger] after[k][i],
        ) by {
            if k < before.len() && i < before[k].len() {
                assert(!is_white(before[k][i]));
            }
        }
    }
}

/// The words, with one space between each two, are no longer than the text.
proof fn lemma_words_fit(s: Seq<char>)
    ensures
        joined(words(s), seq![' ']).len() <= s.len(),
        words(s).len() > 0 && s.len() > 0 && is_white(s.last()) ==> joined(words(s), seq![' ']).len()
            < s.len(),
    decreases s.len(),
{
    if s.len() > 0 {
        let before = words(s.drop_last());
        let c = s.last();
        lemma_words_fit(s.drop_last());
        lemma_words_are_words(s.drop_last());
        if !is_white(c) {
            if s.len() >= 2 && !is_white(s[s.len() - 2]) {
                assert(s.drop_last().last() == s[s.len() - 2]);
                let after = words(s);
                assert(after.drop_last() =~= before.drop_last());
                if after.len() == 1 {
                    assert(joined(after, seq![' ']) == after[0]);
                } else {
                    assert(joined(after, seq![' ']).len() == joined(before, seq![' ']).len() + 1);
                }
            } else {
                let after = words(s);
                assert(after.drop_last() =~= before);
                if before.len() > 0 {
                    assert(s.drop_last().last() == s[s.len() - 2]);
                }
            }
        }
    }
}

/// Joining fewer parts gives less text.
proof fn lemma_joined_grows(parts: Seq<Seq<char>>, n: int, sep: Seq<char>)
    requires
        0 <= n <= parts.len(),
    ensures
        joined(parts.take(n), sep).len() <= joined(parts, sep).len(),
        n > 0 ==> parts[n - 1].len() <= joined(parts, sep).len(),
    decreases parts.len(),
{
    if n == parts.len() {
        assert(parts.take(n) =~= parts);
    } else {
        lemma_joined_grows(parts.drop_last(), n, sep);
        assert(parts.drop_last().take(n) =~= parts.take(n));
    }
}

/// Wrapping loses nothing: the lines, with a space between each two, read as the
/// words do.
pub proof fn lemma_wrapping_keeps_the_words(words: Seq<Seq<char>>, width: int)
    requires
        forall|k: int| 0 <= k < words.len() ==> (#[trigger] words[k]).len() > 0,
    ensures
        wrapped(words, width).len() > 0,
        joined(wrapped(words, width), seq![' ']) == joined(words, seq![' ']),
        wrapped(words, width).last().len() == 0 <==> words.len() == 0,
    decreases words.len(),
{
    let sep = seq![' '];
    if words.len() > 0 {
        let fewer = words.drop_last();
        assert forall|k: int| 0 <= k < fewer.len() implies (#[trigger] fewer[k]).len() > 0 by {
            assert(fewer[k] == words[k]);
        }
        lemma_wrapping_keeps_the_words(fewer, width);
        let before = wrapped(fewer, width);
        let after = wrapped(words, width);
        let line = before.last();
        let word = words.last();
        assert(word == words[words.len() - 1]);
        if line.len() == 0 {
            assert(before =~= seq![seq![]]);
            assert(after =~= seq![word]);
            assert(words =~= seq![word]);
        } else if line.len() + 1 + word.len() > width {
            assert(after.drop_last() =~= before);
            assert(joined(after, sep) == joined(before, sep) + sep + word);
        } else {
            assert(after.drop_last() =~= before.drop_last());
            let glued = line.push(' ') + word;
            assert(glued =~= line + sep + word);
            if before.len() == 1 {
                assert(joined(after, sep) == glued);
                assert(joined(before, sep) == line);
            } else {
                assert(joined(after, sep) == joined(before.drop_last(), sep) + sep + glued);
                assert(joined(before, sep) == joined(before.drop_last(), sep) + sep + line);
                assert(joined(before.drop_last(), sep) + sep + glued =~= joined(
                    before.drop_last(),
                    sep,
                ) + sep + line + sep + word);
            }
        }
    }
}

/// Wrapping keeps to the width: a line that is longer is one word.
pub proof fn lemma_wrapped_lines_fit(words: Seq<Seq<char>>, width: int)
    requires
        0 <= width,
    ensures
        wrapped(words, width).len() > 0,
        forall|i: int|
            #![trigger wrapped(words, width)[i]]
            0 <= i < wrapped(words, width).len() ==> wrapped(words, width)[i].len() <= width
                || words.contains(wrapped(words, width)[i]),
    decreases words.len(),
{
    if words.len() > 0 {
        let fewer = words.drop_last();
        lemma_wrapped_lines_fit(fewer, width);
        let before = wrapped(fewer, width);
        let after = wrapped(words, width);
        assert(words[words.len() - 1] == words.last());
        assert forall|i: int| 0 <= i < after.len() implies (#[trigger] after[i]).len() <= width
            || words.contains(after[i]) by {
            if i < before.len() && after[i] == before[i] {
                if before[i].len() > width {
                    assert(fewer.contains(before[i]));
                    let k = choose|k: int| 0 <= k < fewer.len() && fewer[k] == before[i];
                    assert(words[k] == before[i]);
                }
            }
        }
    }
}

/// The hint that lists the keys of the leader chord. The key `x` exposes a hidden
/// row and hides any other.
pub open spec fn chord_text(selected_hidden: bool) -> Seq<char> {
    let verb = if selected_hidden {
        "expose"@
    } else {
        "hide"@
    };
    "^X  x "@ + verb + " · d delete row/lineage · h show/hide hidden · r reload · Esc cancel"@
}

/// The hint that lists the keys of the leader chord.
pub fn chord_hint(selected_hidden: bool) -> (hint: String)
    ensures
        hint@ == chord_text(selected_hidden),
{
    let verb = if selected_hidden {
        "expose"
    } else {
        "hide"
    };
    concat3("^X  x ", verb, " · d delete row/lineage · h show/hide hidden · r reload · Esc cancel")
}

/// How many columns a line of the smallest usual terminal has.
pub const TERMINAL_COLUMNS: usize = 80;

/// The chord's hint fits a usual terminal, whichever verb it names.
pub proof fn lemma_the_chord_hint_fits(selected_hidden: bool)
    ensures
        chord_text(selected_hidden).len() <= TERMINAL_COLUMNS,
        chord_text(true).len() == TERMINAL_COLUMNS,
{
    reveal_strlit("^X  x ");
    reveal_strlit("expose");
    reveal_strlit("hide");
    reveal_strlit(" · d delete row/lineage · h show/hide hidden · r reload · Esc cancel");
}

/// A cut label reads as the label's start: where the label does not fit and a column
/// is left, what stands before its last character is a prefix of the label, that
/// last one is the ellipsis, and together they fill the columns.
pub proof fn lemma_a_cut_label_reads_as_its_start(label: Seq<char>, budget: int)
    requires
        0 < budget < label.len(),
    ensures
        fitted(label, budget).len() == budget,
        fitted(label, budget).last() == '\u{2026}',
        fitted(label, budget).drop_last().is_prefix_of(label),
{
    reveal_strlit("…");
    assert(fitted(label, budget).drop_last() =~= label.take(budget - 1));
}

/// A label is cut only where it must be: one that fits is kept, and without a column
/// nothing is left of it.
pub proof fn lemma_a_label_that_fits_is_kept(label: Seq<char>, budget: int)
    requires
        0 <= budget,
    ensures
        label.len() <= budget ==> fitted(label, budget) == label,
        budget == 0 ==> fitted(label, budget).len() == 0,
        fitted(label, budget).len() == if label.len() <= budget {
            label.len() as int
        } else {
            budget
        },
{
    reveal_strlit("…");
}

/// A label has what the other fields and the marker leave: with both they fill the
/// row, wherever they fit it, and it has no column where they do not.
pub proof fn lemma_a_label_has_what_is_left(content_width: int, used: int, marker: int)
    requires
        0 <= used,
        0 <= marker,
        0 <= content_width,
    ensures
        used + marker <= content_width ==> used + label_budget(content_width, used, marker)
            + marker == content_width,
        used + marker > content_width ==> label_budget(content_width, used, marker) == 0,
{
}

/// A short id is the start of the id, whole where it is short already.
pub proof fn lemma_a_short_id_is_the_start_of_the_id(session_id: Seq<char>)
    ensures
        id_prefix(session_id).is_prefix_of(session_id),
        session_id.len() <= 8 ==> id_prefix(session_id) == session_id,
        session_id.len() > 8 ==> id_prefix(session_id).len() == 8,
{
}

/// A release reads the same whatever it was built from; a local build reads by its
/// commit, two of them alike only where their commits are, and one that held changes
/// reads as one that held none with a mark behind it.
pub proof fn lemma_a_version_tells_builds_apart(a: Seq<char>, b: Seq<char>, dirty: bool)
    ensures
        version_text(false, a, dirty) == version_text(false, b, !dirty),
        version_text(true, a, dirty) == version_text(true, b, dirty) ==> a == b,
        version_text(true, a, true) == version_text(true, a, false) + DEV_DIRTY_SUFFIX@,
        version_text(true, a, false).subrange(4, 4 + a.len() as int) == a,
        version_text(true, a, dirty) != version_text(false, b, dirty),
{
    reveal_strlit("dev+");
    reveal_strlit("v");
    reveal_strlit("-dirty");
    reveal_strlit("0.1.0");
    assert(version_text(true, a, false).subrange(4, 4 + a.len() as int) =~= a);
    assert(version_text(true, a, true) =~= version_text(true, a, false) + DEV_DIRTY_SUFFIX@);
    if version_text(true, a, dirty) == version_text(true, b, dirty) {
        let x = version_text(true, a, dirty);
        let y = version_text(true, b, dirty);
        assert(x.len() == y.len());
        assert(a.len() == b.len());
        assert(x.subrange(4, 4 + a.len() as int) =~= a);
        assert(y.subrange(4, 4 + b.len() as int) =~= b);
    }
    assert(version_text(true, a, dirty)[0] == 'd');
    assert(version_text(false, b, dirty)[0] == 'v');
}

/// The spinner turns: each of its glyphs is one character, no two phases of a turn
/// share one, and a turn later the first returns.
pub proof fn lemma_the_spinner_turns(a: int, b: int)
    requires
        0 <= a < SPINNER_FRAMES,
        0 <= b < SPINNER_FRAMES,
    ensures
        spinner_text(a).len() == 1,
        spinner_text(a) == spinner_text(b) ==> a == b,
{
    reveal_strlit("\u{280b}");
    reveal_strlit("\u{2819}");
    reveal_strlit("\u{2839}");
    reveal_strlit("\u{2838}");
    reveal_strlit("\u{283c}");
    reveal_strlit("\u{2834}");
    reveal_strlit("\u{2826}");
    reveal_strlit("\u{2827}");
    reveal_strlit("\u{2807}");
    reveal_strlit("\u{280f}");
    if a != b {
        assert(spinner_text(a)[0] != spinner_text(b)[0]);
    }
}

/// A text without whitespace is one word.
pub proof fn lemma_a_word_is_one_word(s: Seq<char>)
    requires
        s.len() > 0,
        forall|i: int| 0 <= i < s.len() ==> !is_white(#[trigger] s[i]),
    ensures
        words(s) == seq![s],
    decreases s.len(),
{
    if s.len() > 1 {
        let fewer = s.drop_last();
        assert forall|i: int| 0 <= i < fewer.len() implies !is_white(#[trigger] fewer[i]) by {
            assert(fewer[i] == s[i]);
        }
        lemma_a_word_is_one_word(fewer);
        assert(fewer.push(s.last()) =~= s);
        assert(!is_white(s[s.len() - 2]) && !is_white(s[s.len() - 1]));
        assert(words(fewer).drop_last() =~= seq![]);
        assert(words(s) == words(fewer).drop_last().push(words(fewer).last().push(s.last())));
    } else {
        assert(!is_white(s[0]));
        assert(s.drop_last() =~= seq![]);
        assert(seq![s.last()] =~= s);
        assert(words(s) == words(s.drop_last()).push(seq![s.last()]));
    }
    assert(words(s) =~= seq![s]);
}

/// Whitespace parts words and is no part of one: the words of two texts with a
/// whitespace character between them are those of the first and then those of the
/// second. With the words of a text that holds no whitespace, this fixes those of
/// every text.
pub proof fn lemma_whitespace_parts_words(a: Seq<char>, c: char, b: Seq<char>)
    requires
        is_white(c),
    ensures
        words(a.push(c) + b) == words(a) + words(b),
    decreases b.len(),
{
    let s = a.push(c) + b;
    if b.len() == 0 {
        assert(s =~= a.push(c));
        assert(s.drop_last() =~= a);
        assert(words(a) + words(b) =~= words(a));
    } else {
        let fewer = b.drop_last();
        lemma_whitespace_parts_words(a, c, fewer);
        lemma_words_are_words(fewer);
        assert(s.drop_last() =~= a.push(c) + fewer);
        assert(s.last() == b.last());
        if b.len() >= 2 {
            assert(s[s.len() - 2] == b[b.len() - 2]);
            assert(fewer.last() == b[b.len() - 2]);
        } else {
            assert(s[s.len() - 2] == c);
        }
        assert(words(s) =~= words(a) + words(b));
    }
}

/// A text of nothing but whitespace has no word.
pub proof fn lemma_whitespace_has_no_word(s: Seq<char>)
    requires
        forall|i: int| 0 <= i < s.len() ==> is_white(#[trigger] s[i]),
    ensures
        words(s).len() == 0,
    decreases s.len(),
{
    if s.len() > 0 {
        let fewer = s.drop_last();
        assert forall|i: int| 0 <= i < fewer.len() implies is_white(#[trigger] fewer[i]) by {
            assert(fewer[i] == s[i]);
        }
        lemma_whitespace_has_no_word(fewer);
        assert(is_white(s[s.len() - 1]));
    }
}

/// Whether the first `i` of the lines hold the first `n` of the words, and the word
/// behind them would not have fitted on the last of those lines.
pub open spec fn filled(
    lines: Seq<Seq<char>>,
    i: int,
    words: Seq<Seq<char>>,
    n: int,
    width: int,
) -> bool {
    &&& 0 < n < words.len()
    &&& joined(lines.take(i), seq![' ']) == joined(words.take(n), seq![' '])
    &&& lines[i - 1].len() + 1 + words[n].len() > width
}

/// Wrapping fills its lines: a line ends only where the next word would not have
/// fitted behind it.
pub proof fn lemma_wrapped_lines_are_filled(words: Seq<Seq<char>>, width: int, i: int)
    requires
        forall|k: int| 0 <= k < words.len() ==> (#[trigger] words[k]).len() > 0,
        0 < i < wrapped(words, width).len(),
    ensures
        exists|n: int| filled(wrapped(words, width), i, words, n, width),
    decreases words.len(),
{
    let fewer = words.drop_last();
    let before = wrapped(fewer, width);
    let after = wrapped(words, width);
    assert forall|k: int| 0 <= k < fewer.len() implies (#[trigger] fewer[k]).len() > 0 by {
        assert(fewer[k] == words[k]);
    }
    lemma_wrapping_keeps_the_words(fewer, width);
    if i < before.len() {
        lemma_wrapped_lines_are_filled(fewer, width, i);
        let n = choose|n: int| filled(before, i, fewer, n, width);
        assert(after.take(i) =~= before.take(i));
        assert(words.take(n) =~= fewer.take(n));
        assert(filled(after, i, words, n, width));
    } else {
        let n = words.len() - 1;
        assert(after.take(i) =~= before);
        assert(words.take(n) =~= fewer);
        assert(filled(after, i, words, n, width));
    }
}

/// The mark of a row that stands for others tells how many: what stands between its
/// brackets reads back as their number, so no two numbers share a mark.
pub proof fn lemma_a_mark_tells_how_many(a: nat, b: nat)
    ensures
        value_of(lineage_text(a).subrange(4, lineage_text(a).len() - 1)) == a,
        lineage_text(a) == lineage_text(b) <==> a == b,
        lineage_text(a)[2] == '(' && lineage_text(a)[3] == '+' && lineage_text(a).last() == ')',
{
    reveal_strlit("  ");
    reveal_strlit("(+");
    reveal_strlit(")");
    lemma_a_number_reads_back(a);
    lemma_a_number_reads_back(b);
    assert(lineage_text(a).subrange(4, lineage_text(a).len() - 1) =~= digits(a));
    assert(lineage_text(b).subrange(4, lineage_text(b).len() - 1) =~= digits(b));
}

/// A turn count tells how many: what stands before its unit reads back as their number,
/// so no two numbers share a count.
pub proof fn lemma_a_turn_count_tells_how_many(a: nat, b: nat)
    ensures
        value_of(msgs_text(a).subrange(2, msgs_text(a).len() - 5)) == a,
        msgs_text(a) == msgs_text(b) <==> a == b,
        " msgs"@.is_suffix_of(msgs_text(a)),
{
    reveal_strlit("  ");
    reveal_strlit(" msgs");
    lemma_a_number_reads_back(a);
    lemma_a_number_reads_back(b);
    let text = msgs_text(a);
    assert(text.subrange(2, text.len() - 5) =~= digits(a));
    assert(msgs_text(b).subrange(2, msgs_text(b).len() - 5) =~= digits(b));
    assert(text.subrange(text.len() - 5, text.len() as int) =~= " msgs"@);
}

} // verus!
