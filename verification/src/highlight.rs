//! Search matches, marked in labels and in transcript lines.
//!
//! A match is a set of character positions. Marking follows extended grapheme
//! clusters: a cluster is marked as a whole or not at all, so a mark never cuts
//! one in half.

use std::collections::HashSet;
use vstd::prelude::*;
use crate::style::{
    line_text, span_texts, span_views, styled_span, Line, LineView, Modifier, Span, SpanView, Style,
};

verus! {

broadcast use {vstd::std_specs::hash::group_hash_axioms, crate::style::lemma_span_views_push};

/// The extended grapheme clusters of a text, in order: what
/// `unicode_segmentation`'s `grapheme_indices(true)` yields.
pub uninterp spec fn graphemes(text: Seq<char>) -> Seq<Seq<char>>;

/// The parts in a row.
pub open spec fn concatenated(parts: Seq<Seq<char>>) -> Seq<char>
    decreases parts.len(),
{
    if parts.len() == 0 {
        seq![]
    } else {
        concatenated(parts.drop_last()) + parts.last()
    }
}

/// The characters of each slice.
pub open spec fn slice_texts(parts: Seq<&str>) -> Seq<Seq<char>> {
    parts.map_values(|s: &str| s@)
}

/// Whether any stretch of the clusters, read as a text of its own, has those
/// clusters again.
pub open spec fn segments_again(clusters: Seq<Seq<char>>) -> bool {
    forall|i: int, j: int|
        0 <= i <= j <= clusters.len() ==> graphemes(
            concatenated(#[trigger] clusters.subrange(i, j)),
        ) == clusters.subrange(i, j)
}

/// The clusters of texts that are read one by one, in a row.
pub open spec fn clusters_of(texts: Seq<Seq<char>>) -> Seq<Seq<char>>
    decreases texts.len(),
{
    if texts.len() == 0 {
        seq![]
    } else {
        clusters_of(texts.drop_last()) + graphemes(texts.last())
    }
}

/// `unicode_segmentation::UnicodeSegmentation::grapheme_indices`, for extended
/// clusters, without the positions. The clusters depend on the text alone; none
/// is empty, and in a row they are the text. A stretch of them that is read as a
/// text of its own has the same clusters: whether a cluster ends looks back no
/// further than its start, but for a row of regional indicators, which a cluster
/// starts in only behind an even number of them.
#[verifier::external_body]
fn grapheme_clusters<'a>(text: &'a str) -> (clusters: Vec<&'a str>)
    ensures
        slice_texts(clusters@) == graphemes(text@),
        concatenated(slice_texts(clusters@)) == text@,
        forall|i: int| 0 <= i < clusters@.len() ==> (#[trigger] clusters@[i])@.len() > 0,
        segments_again(slice_texts(clusters@)),
{
    unicode_segmentation::UnicodeSegmentation::grapheme_indices(text, true)
        .map(|found| found.1)
        .collect()
}

/// Whether one of the `len` positions from `start` on is matched.
pub open spec fn any_matched(start: int, len: int, matched: Set<usize>) -> bool {
    exists|p: usize| start <= p < start + len && #[trigger] matched.contains(p)
}

/// The clusters gathered into runs that are all matched or all unmatched, each
/// as long as it can be. The first character has position `offset`.
pub open spec fn runs_of(clusters: Seq<Seq<char>>, offset: int, matched: Set<usize>) -> Seq<
    (Seq<char>, bool),
>
    decreases clusters.len(),
{
    if clusters.len() == 0 {
        seq![]
    } else {
        let before = runs_of(clusters.drop_last(), offset, matched);
        let cluster = clusters.last();
        let start = offset + concatenated(clusters.drop_last()).len();
        let hit = any_matched(start, cluster.len() as int, matched);
        if before.len() > 0 && before.last().1 == hit {
            before.drop_last().push((before.last().0 + cluster, hit))
        } else {
            before.push((cluster, hit))
        }
    }
}

/// The texts of the runs.
pub open spec fn run_texts(runs: Seq<(Seq<char>, bool)>) -> Seq<Seq<char>> {
    runs.map_values(|run: (Seq<char>, bool)| run.0)
}

/// For each character of the runs, whether its run is matched.
pub open spec fn run_flags(runs: Seq<(Seq<char>, bool)>) -> Seq<bool>
    decreases runs.len(),
{
    if runs.len() == 0 {
        seq![]
    } else {
        run_flags(runs.drop_last()) + Seq::new(runs.last().0.len(), |i: int| runs.last().1)
    }
}

/// For each character of the clusters, whether a position of its cluster is
/// matched.
pub open spec fn cluster_flags(
    clusters: Seq<Seq<char>>,
    offset: int,
    matched: Set<usize>,
) -> Seq<bool>
    decreases clusters.len(),
{
    if clusters.len() == 0 {
        seq![]
    } else {
        let start = offset + concatenated(clusters.drop_last()).len();
        cluster_flags(clusters.drop_last(), offset, matched) + Seq::new(
            clusters.last().len(),
            |i: int| any_matched(start, clusters.last().len() as int, matched),
        )
    }
}

/// The runs are the text, marked by clusters: in a row they are the clusters'
/// text, no two neighbours carry the same mark, none is empty where no cluster
/// is, and a character is marked exactly where its cluster holds a matched
/// position.
pub proof fn lemma_runs_mark_whole_clusters(
    clusters: Seq<Seq<char>>,
    offset: int,
    matched: Set<usize>,
)
    ensures
        concatenated(run_texts(runs_of(clusters, offset, matched))) == concatenated(clusters),
        forall|i: int|
            0 <= i < runs_of(clusters, offset, matched).len() - 1 ==> (#[trigger] runs_of(
                clusters,
                offset,
                matched,
            )[i]).1 != runs_of(clusters, offset, matched)[i + 1].1,
        (forall|i: int| 0 <= i < clusters.len() ==> (#[trigger] clusters[i]).len() > 0)
            ==> forall|i: int|
            0 <= i < runs_of(clusters, offset, matched).len() ==> (#[trigger] runs_of(
                clusters,
                offset,
                matched,
            )[i]).0.len() > 0,
        run_flags(runs_of(clusters, offset, matched)) == cluster_flags(clusters, offset, matched),
        runs_of(clusters, offset, matched).len() == 0 <==> clusters.len() == 0,
    decreases clusters.len(),
{
    if clusters.len() > 0 {
        let fewer = clusters.drop_last();
        lemma_runs_mark_whole_clusters(fewer, offset, matched);
        let before = runs_of(fewer, offset, matched);
        let after = runs_of(clusters, offset, matched);
        let cluster = clusters.last();
        let start = offset + concatenated(fewer).len();
        let hit = any_matched(start, cluster.len() as int, matched);
        if forall|i: int| 0 <= i < clusters.len() ==> (#[trigger] clusters[i]).len() > 0 {
            assert forall|i: int| 0 <= i < fewer.len() implies (#[trigger] fewer[i]).len() > 0 by {
                assert(fewer[i] == clusters[i]);
            }
        }
        if before.len() > 0 && before.last().1 == hit {
            let open = before.last().0;
            assert(after.drop_last() =~= before.drop_last());
            assert(run_texts(after).drop_last() =~= run_texts(before).drop_last());
            assert(concatenated(run_texts(after)) =~= concatenated(run_texts(before).drop_last())
                + (open + cluster));
            assert(concatenated(run_texts(before)) =~= concatenated(run_texts(before).drop_last())
                + open);
            assert(concatenated(run_texts(after)) =~= concatenated(clusters));
            assert(Seq::new((open + cluster).len(), |i: int| hit) =~= Seq::new(
                open.len(),
                |i: int| hit,
            ) + Seq::new(cluster.len(), |i: int| hit));
            assert(run_flags(after) =~= run_flags(before) + Seq::new(cluster.len(), |i: int| hit));
            assert(run_flags(after) =~= cluster_flags(clusters, offset, matched));
        } else {
            assert(after.drop_last() =~= before);
            assert(run_texts(after).drop_last() =~= run_texts(before));
            assert(run_flags(after) =~= run_flags(before) + Seq::new(cluster.len(), |i: int| hit));
            assert(run_flags(after) =~= cluster_flags(clusters, offset, matched));
        }
    }
}

/// Where the last run of the clusters starts.
spec fn last_run(clusters: Seq<Seq<char>>, offset: int, matched: Set<usize>) -> int
    decreases clusters.len(),
{
    if clusters.len() == 0 {
        0
    } else {
        let before = runs_of(clusters.drop_last(), offset, matched);
        let start = offset + concatenated(clusters.drop_last()).len();
        if before.len() > 0 && before.last().1 == any_matched(
            start,
            clusters.last().len() as int,
            matched,
        ) {
            last_run(clusters.drop_last(), offset, matched)
        } else {
            clusters.len() - 1
        }
    }
}

/// The runs of the first `n` clusters have those clusters, and the last of the runs
/// is a stretch of them.
proof fn lemma_runs_are_stretches(
    clusters: Seq<Seq<char>>,
    n: int,
    offset: int,
    matched: Set<usize>,
)
    requires
        segments_again(clusters),
        0 <= n <= clusters.len(),
    ensures
        ({
            let runs = runs_of(clusters.take(n), offset, matched);
            let start = last_run(clusters.take(n), offset, matched);
            &&& clusters_of(run_texts(runs)) == clusters.take(n)
            &&& n > 0 ==> {
                &&& runs.len() > 0
                &&& 0 <= start < n
                &&& runs.last().0 == concatenated(clusters.subrange(start, n))
                &&& clusters_of(run_texts(runs.drop_last())) == clusters.take(start)
            }
        }),
    decreases n,
{
    let some = clusters.take(n);
    let runs = runs_of(some, offset, matched);
    if n == 0 {
        assert(run_texts(runs) =~= seq![]);
        assert(clusters_of(run_texts(runs)) =~= some);
    } else {
        lemma_runs_are_stretches(clusters, n - 1, offset, matched);
        assert(some.drop_last() =~= clusters.take(n - 1));
        let before = runs_of(some.drop_last(), offset, matched);
        let start = last_run(some, offset, matched);
        let stretch = clusters.subrange(start, n);
        assert(stretch.drop_last() =~= clusters.subrange(start, n - 1));
        assert(stretch.last() == some.last());
        if start < n - 1 {
            assert(runs.drop_last() =~= before.drop_last());
        } else {
            assert(runs.drop_last() =~= before);
            assert(stretch.drop_last() =~= seq![]);
            assert(concatenated(stretch) =~= some.last());
        }
        assert(graphemes(runs.last().0) == stretch);
        assert(run_texts(runs).drop_last() =~= run_texts(runs.drop_last()));
        assert(clusters.take(start) + stretch =~= some);
    }
}

/// Splitting a text into its runs keeps its clusters: the runs, read one by one,
/// have the clusters of the text.
pub proof fn lemma_runs_keep_the_clusters(
    clusters: Seq<Seq<char>>,
    offset: int,
    matched: Set<usize>,
)
    requires
        segments_again(clusters),
    ensures
        clusters_of(run_texts(runs_of(clusters, offset, matched))) == clusters,
{
    lemma_runs_are_stretches(clusters, clusters.len() as int, offset, matched);
    assert(clusters.take(clusters.len() as int) =~= clusters);
}

/// Where no position of the text is matched, the text is one unmarked run.
pub proof fn lemma_no_match_is_one_run(clusters: Seq<Seq<char>>, offset: int, matched: Set<usize>)
    requires
        clusters.len() > 0,
        !any_matched(offset, concatenated(clusters).len() as int, matched),
    ensures
        runs_of(clusters, offset, matched) == seq![(concatenated(clusters), false)],
    decreases clusters.len(),
{
    let fewer = clusters.drop_last();
    let start = offset + concatenated(fewer).len();
    if any_matched(start, clusters.last().len() as int, matched) {
        let p = choose|p: usize|
            start <= p < start + clusters.last().len() && #[trigger] matched.contains(p);
        assert(any_matched(offset, concatenated(clusters).len() as int, matched));
    }
    if any_matched(offset, concatenated(fewer).len() as int, matched) {
        let p = choose|p: usize|
            offset <= p < offset + concatenated(fewer).len() && #[trigger] matched.contains(p);
        assert(any_matched(offset, concatenated(clusters).len() as int, matched));
    }
    if fewer.len() > 0 {
        lemma_no_match_is_one_run(fewer, offset, matched);
    } else {
        assert(runs_of(fewer, offset, matched) =~= seq![]);
        assert(concatenated(fewer) =~= seq![]);
        assert(concatenated(clusters) =~= clusters.last());
    }
    assert(runs_of(clusters, offset, matched) =~= seq![(concatenated(clusters), false)]);
}

/// Where no position is matched, the runs are the same whatever the positions are.
proof fn lemma_runs_of_no_match(
    clusters: Seq<Seq<char>>,
    a: int,
    a_matched: Set<usize>,
    b: int,
    b_matched: Set<usize>,
)
    requires
        !any_matched(a, concatenated(clusters).len() as int, a_matched),
        !any_matched(b, concatenated(clusters).len() as int, b_matched),
    ensures
        runs_of(clusters, a, a_matched) == runs_of(clusters, b, b_matched),
{
    if clusters.len() > 0 {
        lemma_no_match_is_one_run(clusters, a, a_matched);
        lemma_no_match_is_one_run(clusters, b, b_matched);
    }
}

/// Whether one of the `len` positions from `start + skipped` on is in `matched`.
/// No position beyond the largest `usize` is.
fn holds_any(start: usize, skipped: usize, len: usize, matched: &HashSet<usize>) -> (hit: bool)
    requires
        skipped + len <= usize::MAX,
    ensures
        hit == any_matched(start + skipped, len as int, matched@),
{
    let mut i: usize = 0;
    while i < len
        invariant
            i <= len,
            skipped + len <= usize::MAX,
            !any_matched(start + skipped, i as int, matched@),
        decreases len - i,
    {
        match start.checked_add(skipped + i) {
            Some(p) => {
                if matched.contains(&p) {
                    assert(any_matched(start + skipped, len as int, matched@));
                    return true;
                }
            },
            None => {},
        }
        i += 1;
        proof {
            if any_matched(start + skipped, i as int, matched@) {
                let q = choose|q: usize|
                    start + skipped <= q < start + skipped + i && #[trigger] matched@.contains(q);
                assert(q < start + skipped + i - 1);
                assert(any_matched(start + skipped, i - 1, matched@));
            }
        }
    }
    false
}

/// What the runs hold.
pub open spec fn run_views(runs: Seq<(&str, bool)>) -> Seq<(Seq<char>, bool)> {
    runs.map_values(|run: (&str, bool)| (run.0@, run.1))
}

/// Fewer clusters are a prefix of the text.
proof fn lemma_concatenated_prefix(parts: Seq<Seq<char>>, n: int)
    requires
        0 <= n <= parts.len(),
    ensures
        concatenated(parts.take(n)).len() <= concatenated(parts).len(),
        concatenated(parts.take(n)) == concatenated(parts).take(
            concatenated(parts.take(n)).len() as int,
        ),
    decreases parts.len(),
{
    if n == parts.len() {
        assert(parts.take(n) =~= parts);
        assert(concatenated(parts) =~= concatenated(parts).take(concatenated(parts).len() as int));
    } else {
        lemma_concatenated_prefix(parts.drop_last(), n);
        assert(parts.drop_last().take(n) =~= parts.take(n));
        assert(concatenated(parts.take(n)) =~= concatenated(parts).take(
            concatenated(parts.take(n)).len() as int,
        ));
    }
}

/// Gather `clusters`, which in a row are `text`, into runs that are all matched
/// or all unmatched.
pub fn cluster_runs<'a>(
    text: &'a str,
    clusters: &Vec<&'a str>,
    char_offset: usize,
    matched: &HashSet<usize>,
) -> (runs: Vec<(&'a str, bool)>)
    requires
        concatenated(slice_texts(clusters@)) == text@,
    ensures
        run_views(runs@) == runs_of(slice_texts(clusters@), char_offset as int, matched@),
{
    let ghost parts = slice_texts(clusters@);
    let ghost offset = char_offset as int;
    let mut runs: Vec<(&'a str, bool)> = Vec::new();
    let total: usize = text.unicode_len();
    let mut pos: usize = 0;
    let mut run_start: usize = 0;
    let mut run_match: Option<bool> = None;
    let mut i: usize = 0;
    assert(parts.take(0) =~= seq![]);
    assert(run_views(runs@) =~= seq![]);
    while i < clusters.len()
        invariant
            parts == slice_texts(clusters@),
            concatenated(parts) == text@,
            total == text@.len(),
            offset == char_offset,
            i <= clusters@.len(),
            run_start <= pos <= total,
            pos == concatenated(parts.take(i as int)).len(),
            match run_match {
                None => i == 0 && runs@.len() == 0 && run_start == 0,
                Some(open) => i > 0 && runs_of(parts.take(i as int), offset, matched@) == run_views(
                    runs@,
                ).push((text@.subrange(run_start as int, pos as int), open)),
            },
        decreases clusters@.len() - i,
    {
        let cluster = clusters[i];
        let chars: usize = cluster.unicode_len();
        proof {
            assert(parts.take(i + 1).drop_last() =~= parts.take(i as int));
            assert(parts.take(i + 1).last() == cluster@);
            lemma_concatenated_prefix(parts, i + 1);
            assert(concatenated(parts.take(i + 1)) =~= concatenated(parts.take(i as int))
                + cluster@);
            let prefix = concatenated(parts.take(i + 1));
            assert(prefix == text@.take(prefix.len() as int));
            assert(prefix.subrange(pos as int, pos + chars) =~= cluster@);
            assert(text@.subrange(pos as int, pos + chars) =~= prefix.subrange(
                pos as int,
                pos + chars,
            ));
        }
        let is_match = holds_any(char_offset, pos, chars, matched);
        let ghost before = runs@;
        match run_match {
            Some(open) => {
                if open != is_match {
                    runs.push((text.substring_char(run_start, pos), open));
                    assert(run_views(runs@) =~= run_views(before).push(
                        (text@.subrange(run_start as int, pos as int), open),
                    ));
                    assert(runs_of(parts.take(i + 1), offset, matched@) == run_views(runs@).push(
                        (text@.subrange(pos as int, pos + chars), is_match),
                    ));
                    run_start = pos;
                    run_match = Some(is_match);
                } else {
                    proof {
                        let closed = runs_of(parts.take(i as int), offset, matched@);
                        assert(closed.drop_last() =~= run_views(before));
                        assert(text@.subrange(run_start as int, pos + chars) =~= text@.subrange(
                            run_start as int,
                            pos as int,
                        ) + cluster@);
                        assert(runs_of(parts.take(i + 1), offset, matched@) == run_views(
                            runs@,
                        ).push((text@.subrange(run_start as int, pos + chars), open)));
                    }
                }
            },
            None => {
                run_match = Some(is_match);
                assert(run_views(runs@) =~= seq![]);
                assert(text@.subrange(run_start as int, pos + chars) =~= cluster@);
                assert(runs_of(parts.take(i as int), offset, matched@) =~= seq![]);
                assert(runs_of(parts.take(i + 1), offset, matched@) =~= run_views(runs@).push(
                    (text@.subrange(run_start as int, pos + chars), is_match),
                ));
            },
        }
        pos += chars;
        i += 1;
    }
    assert(parts.take(i as int) =~= parts);
    if let Some(open) = run_match {
        let ghost before = runs@;
        runs.push((text.substring_char(run_start, total), open));
        assert(run_views(runs@) =~= run_views(before).push(
            (text@.subrange(run_start as int, total as int), open),
        ));
    } else {
        assert(run_views(runs@) =~= seq![]);
    }
    runs
}

/// Split `text` into runs that are all matched or all unmatched, along its
/// clusters. Its first character has position `char_offset`.
pub fn match_runs<'a>(text: &'a str, char_offset: usize, matched: &HashSet<usize>) -> (runs: Vec<
    (&'a str, bool),
>)
    ensures
        run_views(runs@) == runs_of(graphemes(text@), char_offset as int, matched@),
        concatenated(graphemes(text@)) == text@,
        concatenated(run_texts(run_views(runs@))) == text@,
        forall|i: int| 0 <= i < runs@.len() ==> (#[trigger] runs@[i]).0@.len() > 0,
        runs@.len() == 0 <==> text@.len() == 0,
        segments_again(graphemes(text@)),
        clusters_of(run_texts(run_views(runs@))) == graphemes(text@),
{
    let clusters = grapheme_clusters(text);
    let runs = cluster_runs(text, &clusters, char_offset, matched);
    proof {
        let parts = slice_texts(clusters@);
        assert forall|i: int| 0 <= i < parts.len() implies (#[trigger] parts[i]).len() > 0 by {
            assert(clusters@[i]@.len() > 0);
        }
        lemma_runs_mark_whole_clusters(parts, char_offset as int, matched@);
        lemma_runs_keep_the_clusters(parts, char_offset as int, matched@);
        assert forall|i: int| 0 <= i < runs@.len() implies (#[trigger] runs@[i]).0@.len() > 0 by {
            assert(run_views(runs@)[i].0.len() > 0);
        }
        if parts.len() > 0 {
            assert(parts.last().len() > 0);
            assert(concatenated(parts).len() > 0);
        }
    }
    runs
}

/// What the owned runs hold.
pub open spec fn owned_runs(runs: Seq<(String, bool)>) -> Seq<(Seq<char>, bool)> {
    runs.map_values(|run: (String, bool)| (run.0@, run.1))
}

/// Split `label` into owned runs, counting positions from its first character.
pub fn highlight_runs(label: &str, matched: &HashSet<usize>) -> (out: Vec<(String, bool)>)
    ensures
        owned_runs(out@) == runs_of(graphemes(label@), 0, matched@),
        concatenated(run_texts(owned_runs(out@))) == label@,
{
    let runs = match_runs(label, 0, matched);
    let mut out: Vec<(String, bool)> = Vec::new();
    let mut i: usize = 0;
    while i < runs.len()
        invariant
            i <= runs@.len(),
            owned_runs(out@) == run_views(runs@).take(i as int),
        decreases runs@.len() - i,
    {
        let run = runs[i];
        let ghost before = out@;
        out.push((run.0.to_owned(), run.1));
        assert(owned_runs(out@) =~= owned_runs(before).push((run.0@, run.1)));
        assert(run_views(runs@).take(i + 1) =~= run_views(runs@).take(i as int).push(
            run_views(runs@)[i as int],
        ));
        i += 1;
    }
    assert(run_views(runs@).take(i as int) =~= run_views(runs@));
    out
}

/// `base`, with `emphasis` added where the run is matched.
#[verifier::allow_in_spec]
pub fn emphasized(base: Style, is_match: bool, emphasis: Modifier) -> Style
    returns
        (if is_match {
            base.add_modifier(emphasis)
        } else {
            base
        }),
{
    if is_match {
        base.add_modifier(emphasis)
    } else {
        base
    }
}

/// A run as a span: `highlight` where it is matched, else `base`.
pub open spec fn run_span(run: (Seq<char>, bool), base: Style, highlight: Style) -> SpanView {
    styled_span(
        run.0,
        if run.1 {
            highlight
        } else {
            base
        },
    )
}

/// The runs as spans.
pub open spec fn run_spans(
    runs: Seq<(Seq<char>, bool)>,
    base: Style,
    highlight: Style,
) -> Seq<SpanView> {
    runs.map_values(|run: (Seq<char>, bool)| run_span(run, base, highlight))
}

/// Split `label` into spans, the matched runs in `highlight` and the others in
/// `base`.
pub fn highlight_label_spans(
    label: &str,
    matched: &HashSet<usize>,
    base: Style,
    highlight: Style,
) -> (spans: Vec<Span>)
    ensures
        span_views(spans@) == run_spans(runs_of(graphemes(label@), 0, matched@), base, highlight),
        line_text(span_views(spans@)) == label@,
{
    let runs = match_runs(label, 0, matched);
    let mut spans: Vec<Span> = Vec::new();
    let ghost views = run_views(runs@);
    push_runs(&mut spans, &runs, base, highlight);
    proof {
        lemma_run_spans_text(views, base, highlight);
        assert(span_views(spans@) =~= run_spans(views, base, highlight));
    }
    spans
}

/// Spans made of runs show the runs' text.
pub proof fn lemma_run_spans_text(runs: Seq<(Seq<char>, bool)>, base: Style, highlight: Style)
    ensures
        line_text(run_spans(runs, base, highlight)) == concatenated(run_texts(runs)),
    decreases runs.len(),
{
    if runs.len() > 0 {
        lemma_run_spans_text(runs.drop_last(), base, highlight);
        assert(run_spans(runs, base, highlight).drop_last() =~= run_spans(
            runs.drop_last(),
            base,
            highlight,
        ));
        assert(run_texts(runs).drop_last() =~= run_texts(runs.drop_last()));
    }
}

/// Append the runs as spans.
fn push_runs(spans: &mut Vec<Span>, runs: &Vec<(&str, bool)>, base: Style, highlight: Style)
    ensures
        span_views(final(spans)@) == span_views(old(spans)@) + run_spans(
            run_views(runs@),
            base,
            highlight,
        ),
{
    let ghost before = span_views(spans@);
    let ghost all = run_spans(run_views(runs@), base, highlight);
    let mut i: usize = 0;
    assert(span_views(spans@) =~= before + all.take(0));
    while i < runs.len()
        invariant
            i <= runs@.len(),
            all == run_spans(run_views(runs@), base, highlight),
            span_views(spans@) == before + all.take(i as int),
        decreases runs@.len() - i,
    {
        let run = runs[i];
        let style = if run.1 {
            highlight
        } else {
            base
        };
        spans.push(Span::styled(run.0.to_owned(), style));
        assert(all.take(i + 1) =~= all.take(i as int).push(all[i as int]));
        assert(span_views(spans@) =~= before + all.take(i + 1));
        i += 1;
    }
    assert(all.take(i as int) =~= all);
}

/// The style of each character of the spans.
pub open spec fn char_styles(spans: Seq<SpanView>) -> Seq<Style>
    decreases spans.len(),
{
    if spans.len() == 0 {
        seq![]
    } else {
        char_styles(spans.drop_last()) + Seq::new(
            spans.last().text.len(),
            |i: int| spans.last().style,
        )
    }
}

/// The style of each character of runs made into spans.
proof fn lemma_run_styles(runs: Seq<(Seq<char>, bool)>, base: Style, highlight: Style)
    ensures
        char_styles(run_spans(runs, base, highlight)) == run_flags(runs).map_values(
            |hit: bool| if hit { highlight } else { base },
        ),
    decreases runs.len(),
{
    let style_of = |hit: bool| if hit { highlight } else { base };
    let spans = run_spans(runs, base, highlight);
    if runs.len() > 0 {
        lemma_run_styles(runs.drop_last(), base, highlight);
        assert(spans.drop_last() =~= run_spans(runs.drop_last(), base, highlight));
        assert(char_styles(spans) =~= run_flags(runs).map_values(style_of));
    } else {
        assert(char_styles(spans) =~= run_flags(runs).map_values(style_of));
    }
}

/// Marking restyles the clusters that hold a matched position and leaves every
/// other character exactly as it was.
pub proof fn lemma_marking_restyles_matched_clusters_only(
    clusters: Seq<Seq<char>>,
    offset: int,
    matched: Set<usize>,
    base: Style,
    highlight: Style,
)
    ensures
        char_styles(run_spans(runs_of(clusters, offset, matched), base, highlight))
            == cluster_flags(clusters, offset, matched).map_values(
            |hit: bool| if hit { highlight } else { base },
        ),
{
    lemma_runs_mark_whole_clusters(clusters, offset, matched);
    lemma_run_styles(runs_of(clusters, offset, matched), base, highlight);
}

/// A span with its matched runs emphasized. A span without text stays as it is.
pub open spec fn marked_span(
    span: SpanView,
    offset: int,
    matched: Set<usize>,
    emphasis: Modifier,
) -> Seq<SpanView> {
    let runs = runs_of(graphemes(span.text), offset, matched);
    if runs.len() == 0 {
        seq![styled_span(seq![], span.style)]
    } else {
        run_spans(runs, span.style, span.style.add_modifier(emphasis))
    }
}

/// The spans with their matched runs emphasized. Positions count the line's
/// characters, across the spans.
pub open spec fn marked_spans(
    spans: Seq<SpanView>,
    matched: Set<usize>,
    emphasis: Modifier,
) -> Seq<SpanView>
    decreases spans.len(),
{
    if spans.len() == 0 {
        seq![]
    } else {
        marked_spans(spans.drop_last(), matched, emphasis) + marked_span(
            spans.last(),
            line_text(spans.drop_last()).len() as int,
            matched,
            emphasis,
        )
    }
}

/// The text of two stretches of spans is their texts in a row.
pub proof fn lemma_line_text_is_additive(a: Seq<SpanView>, b: Seq<SpanView>)
    ensures
        line_text(a + b) == line_text(a) + line_text(b),
    decreases b.len(),
{
    if b.len() == 0 {
        assert(a + b =~= a);
        assert(line_text(a) + line_text(b) =~= line_text(a));
    } else {
        lemma_line_text_is_additive(a, b.drop_last());
        assert((a + b).drop_last() =~= a + b.drop_last());
        assert(line_text(a + b) =~= line_text(a) + line_text(b));
    }
}

/// The clusters of two stretches of texts are their clusters in a row.
pub proof fn lemma_clusters_are_additive(a: Seq<Seq<char>>, b: Seq<Seq<char>>)
    ensures
        clusters_of(a + b) == clusters_of(a) + clusters_of(b),
    decreases b.len(),
{
    if b.len() == 0 {
        assert(a + b =~= a);
        assert(clusters_of(a) + clusters_of(b) =~= clusters_of(a));
    } else {
        lemma_clusters_are_additive(a, b.drop_last());
        assert((a + b).drop_last() =~= a + b.drop_last());
        assert(clusters_of(a + b) =~= clusters_of(a) + clusters_of(b));
    }
}

/// Marking a span keeps its clusters.
proof fn lemma_marking_keeps_the_clusters_of_a_span(
    span: SpanView,
    offset: int,
    matched: Set<usize>,
    emphasis: Modifier,
)
    requires
        segments_again(graphemes(span.text)),
    ensures
        clusters_of(span_texts(marked_span(span, offset, matched, emphasis))) == graphemes(
            span.text,
        ),
{
    let clusters = graphemes(span.text);
    let runs = runs_of(clusters, offset, matched);
    let marked = marked_span(span, offset, matched, emphasis);
    lemma_runs_keep_the_clusters(clusters, offset, matched);
    if runs.len() == 0 {
        assert(run_texts(runs) =~= seq![]);
        assert(clusters.subrange(0, 0) =~= seq![]);
        assert(concatenated(clusters.subrange(0, 0)) =~= seq![]);
        assert(span_texts(marked).drop_last() =~= seq![]);
        assert(span_texts(marked).last() =~= seq![]);
        assert(clusters_of(span_texts(marked)) =~= clusters);
    } else {
        assert(span_texts(marked) =~= run_texts(runs));
    }
}

/// Marking a line keeps its clusters, so that it wraps to the rows it wrapped to:
/// wherever each of its spans has clusters that segment again.
pub proof fn lemma_marking_keeps_the_clusters(
    spans: Seq<SpanView>,
    matched: Set<usize>,
    emphasis: Modifier,
)
    requires
        forall|i: int| 0 <= i < spans.len() ==> segments_again(graphemes(#[trigger] spans[i].text)),
    ensures
        clusters_of(span_texts(marked_spans(spans, matched, emphasis))) == clusters_of(
            span_texts(spans),
        ),
    decreases spans.len(),
{
    if spans.len() > 0 {
        let fewer = spans.drop_last();
        let before = marked_spans(fewer, matched, emphasis);
        let start = line_text(fewer).len() as int;
        let marked = marked_span(spans.last(), start, matched, emphasis);
        assert forall|i: int| 0 <= i < fewer.len() implies segments_again(
            graphemes(#[trigger] fewer[i].text),
        ) by {
            assert(fewer[i] == spans[i]);
        }
        lemma_marking_keeps_the_clusters(fewer, matched, emphasis);
        assert(segments_again(graphemes(spans[spans.len() - 1].text)));
        lemma_marking_keeps_the_clusters_of_a_span(spans.last(), start, matched, emphasis);
        assert(span_texts(before + marked) =~= span_texts(before) + span_texts(marked));
        lemma_clusters_are_additive(span_texts(before), span_texts(marked));
        assert(span_texts(spans).drop_last() =~= span_texts(fewer));
    } else {
        assert(span_texts(marked_spans(spans, matched, emphasis)) =~= span_texts(spans));
    }
}

/// Fewer spans hold less text.
proof fn lemma_line_text_take(spans: Seq<SpanView>, n: int)
    requires
        0 <= n <= spans.len(),
    ensures
        line_text(spans.take(n)).len() <= line_text(spans).len(),
{
    lemma_line_text_is_additive(spans.take(n), spans.skip(n));
    assert(spans.take(n) + spans.skip(n) =~= spans);
}

/// Emphasize the matched characters of `line` and leave the rest of it as it is:
/// its text, its clusters, its style and its alignment stay, and where nothing is
/// matched so does every span.
pub fn highlight_matched_spans(
    line: &Line,
    matched: &HashSet<usize>,
    emphasis: Modifier,
) -> (out: Line)
    ensures
        out@ == (LineView {
            spans: marked_spans(line@.spans, matched@, emphasis),
            style: line@.style,
            alignment: line@.alignment,
        }),
        line_text(out@.spans) == line_text(line@.spans),
        out@.spans.len() >= line@.spans.len(),
        !any_matched(0, line_text(line@.spans).len() as int, matched@) ==> out@ == line@,
        clusters_of(span_texts(out@.spans)) == clusters_of(span_texts(line@.spans)),
        clusters_spell(line@.spans),
{
    let ghost views = line@.spans;
    let mut spans: Vec<Span> = Vec::new();
    let mut char_pos: Option<usize> = Some(0);
    let nothing: HashSet<usize> = HashSet::new();
    let mut i: usize = 0;
    assert(span_views(spans@) =~= seq![]);
    assert(views.take(0) =~= seq![]);
    while i < line.spans.len()
        invariant
            views == line@.spans,
            nothing@ == Set::<usize>::empty(),
            i <= line.spans@.len(),
            match char_pos {
                Some(pos) => pos == line_text(views.take(i as int)).len(),
                None => line_text(views.take(i as int)).len() > usize::MAX,
            },
            span_views(spans@) == marked_spans(views.take(i as int), matched@, emphasis),
            line_text(span_views(spans@)) == line_text(views.take(i as int)),
            spans@.len() >= i,
            !any_matched(0, line_text(views).len() as int, matched@) ==> span_views(spans@)
                == views.take(i as int),
            forall|k: int|
                0 <= k < i ==> segments_again(graphemes(#[trigger] views[k].text)),
            forall|k: int|
                0 <= k < i ==> concatenated(graphemes((#[trigger] views[k]).text))
                    == views[k].text,
        decreases line.spans@.len() - i,
    {
        let span = &line.spans[i];
        proof {
            assert(views.take(i + 1).drop_last() =~= views.take(i as int));
            assert(views[i as int] == span@);
            lemma_line_text_take(views, i + 1);
        }
        let ghost start = line_text(views.take(i as int)).len() as int;
        let runs = match char_pos {
            Some(pos) => match_runs(span.text.as_str(), pos, matched),
            None => match_runs(span.text.as_str(), 0, &nothing),
        };
        proof {
            if char_pos is None {
                lemma_runs_of_no_match(graphemes(span.text@), start, matched@, 0, nothing@);
            }
        }
        let ghost before = span_views(spans@);
        let ghost marked = marked_span(span@, start, matched@, emphasis);
        if runs.len() == 0 {
            spans.push(Span::styled(String::new(), emphasized(span.style, false, emphasis)));
            assert(span.text@ =~= seq![]);
            assert(span_views(spans@) =~= before + marked);
            assert(line_text(marked) =~= span.text@) by {
                assert(marked.drop_last() =~= seq![]);
                assert(line_text(marked.drop_last()) =~= seq![]);
            }
        } else {
            let highlight = emphasized(span.style, true, emphasis);
            push_runs(&mut spans, &runs, span.style, highlight);
            proof {
                lemma_run_spans_text(run_views(runs@), span.style, highlight);
            }
        }
        proof {
            lemma_line_text_is_additive(before, marked);
            assert(line_text(span_views(spans@)) =~= line_text(views.take(i + 1)));
            assert(marked.len() >= 1);
            if !any_matched(0, line_text(views).len() as int, matched@) {
                if runs@.len() > 0 {
                    if any_matched(start, span.text@.len() as int, matched@) {
                        let p = choose|p: usize|
                            start <= p < start + span.text@.len()
                                && #[trigger] matched@.contains(p);
                        assert(any_matched(0, line_text(views).len() as int, matched@));
                    }
                    assert(graphemes(span.text@).len() > 0);
                    lemma_no_match_is_one_run(graphemes(span.text@), start, matched@);
                }
                assert(marked =~= seq![span@]);
                assert(span_views(spans@) =~= views.take(i + 1));
            }
        }
        let len: usize = span.text.as_str().unicode_len();
        char_pos = match char_pos {
            Some(pos) => pos.checked_add(len),
            None => None,
        };
        i += 1;
    }
    assert(views.take(i as int) =~= views);
    proof {
        lemma_marking_keeps_the_clusters(views, matched@, emphasis);
    }
    Line { spans, style: line.style, alignment: line.alignment }
}

/// The text of two stretches of clusters is their texts in a row.
proof fn lemma_concatenated_is_additive(a: Seq<Seq<char>>, b: Seq<Seq<char>>)
    ensures
        concatenated(a + b) == concatenated(a) + concatenated(b),
    decreases b.len(),
{
    if b.len() == 0 {
        assert(a + b =~= a);
        assert(concatenated(a) + concatenated(b) =~= concatenated(a));
    } else {
        lemma_concatenated_is_additive(a, b.drop_last());
        assert((a + b).drop_last() =~= a + b.drop_last());
        assert(concatenated(a + b) =~= concatenated(a) + concatenated(b));
    }
}

/// The styles of two stretches of spans are their styles in a row, one for each
/// character.
proof fn lemma_char_styles_are_additive(a: Seq<SpanView>, b: Seq<SpanView>)
    ensures
        char_styles(a + b) == char_styles(a) + char_styles(b),
        char_styles(b).len() == line_text(b).len(),
    decreases b.len(),
{
    if b.len() == 0 {
        assert(a + b =~= a);
        assert(char_styles(a) + char_styles(b) =~= char_styles(a));
    } else {
        lemma_char_styles_are_additive(a, b.drop_last());
        assert((a + b).drop_last() =~= a + b.drop_last());
        assert(char_styles(a + b) =~= char_styles(a) + char_styles(b));
    }
}

/// The flag of a character tells whether a position of its cluster is matched, where
/// it is one of the cluster `k`.
proof fn lemma_a_flag_tells_its_cluster(
    clusters: Seq<Seq<char>>,
    offset: int,
    matched: Set<usize>,
    k: int,
    p: int,
)
    requires
        0 <= k < clusters.len(),
        concatenated(clusters.take(k)).len() <= p < concatenated(clusters.take(k + 1)).len(),
    ensures
        cluster_flags(clusters, offset, matched).len() == concatenated(clusters).len(),
        p < concatenated(clusters).len(),
        cluster_flags(clusters, offset, matched)[p] <==> exists|q: usize|
            offset + concatenated(clusters.take(k)).len() <= q < offset + concatenated(
                clusters.take(k + 1),
            ).len() && #[trigger] matched.contains(q),
    decreases clusters.len(),
{
    let fewer = clusters.drop_last();
    lemma_flags_are_the_text_long(clusters, offset, matched);
    lemma_flags_are_the_text_long(fewer, offset, matched);
    if k == clusters.len() - 1 {
        assert(clusters.take(k) =~= fewer);
        assert(clusters.take(k + 1) =~= clusters);
        let start = offset + concatenated(fewer).len();
        let len = clusters.last().len() as int;
        assert(cluster_flags(clusters, offset, matched)[p] == any_matched(start, len, matched));
    } else {
        assert(fewer.take(k) =~= clusters.take(k));
        assert(fewer.take(k + 1) =~= clusters.take(k + 1));
        lemma_a_flag_tells_its_cluster(fewer, offset, matched, k, p);
        assert(cluster_flags(clusters, offset, matched)[p] == cluster_flags(
            fewer,
            offset,
            matched,
        )[p]);
    }
}

/// There is a flag for each character.
proof fn lemma_flags_are_the_text_long(
    clusters: Seq<Seq<char>>,
    offset: int,
    matched: Set<usize>,
)
    ensures
        cluster_flags(clusters, offset, matched).len() == concatenated(clusters).len(),
    decreases clusters.len(),
{
    if clusters.len() > 0 {
        lemma_flags_are_the_text_long(clusters.drop_last(), offset, matched);
    }
}

/// A label is marked where it was matched: a character of it is highlighted exactly
/// where its cluster holds a matched position, counted from the label's first
/// character, and else keeps the base style.
pub proof fn lemma_a_label_is_marked_where_it_was_matched(
    clusters: Seq<Seq<char>>,
    matched: Set<usize>,
    base: Style,
    highlight: Style,
    k: int,
    p: int,
)
    requires
        0 <= k < clusters.len(),
        concatenated(clusters.take(k)).len() <= p < concatenated(clusters.take(k + 1)).len(),
    ensures
        ({
            let spans = run_spans(runs_of(clusters, 0, matched), base, highlight);
            &&& line_text(spans) == concatenated(clusters)
            &&& char_styles(spans).len() == concatenated(clusters).len()
            &&& char_styles(spans)[p] == if exists|q: usize|
                concatenated(clusters.take(k)).len() <= q < concatenated(
                    clusters.take(k + 1),
                ).len() && #[trigger] matched.contains(q) {
                highlight
            } else {
                base
            }
        }),
{
    let runs = runs_of(clusters, 0, matched);
    lemma_a_flag_tells_its_cluster(clusters, 0, matched, k, p);
    lemma_marking_restyles_matched_clusters_only(clusters, 0, matched, base, highlight);
    lemma_runs_mark_whole_clusters(clusters, 0, matched);
    lemma_run_spans_text(runs, base, highlight);
}

/// Neighbouring runs differ in their mark, so a matched stretch is one span and what
/// lies between two is another.
pub proof fn lemma_runs_are_as_long_as_they_go(
    clusters: Seq<Seq<char>>,
    offset: int,
    matched: Set<usize>,
    i: int,
)
    requires
        0 <= i < runs_of(clusters, offset, matched).len() - 1,
    ensures
        runs_of(clusters, offset, matched)[i].1 != runs_of(clusters, offset, matched)[i + 1].1,
{
    lemma_runs_mark_whole_clusters(clusters, offset, matched);
}

/// Whether each span's clusters are its text.
pub open spec fn clusters_spell(spans: Seq<SpanView>) -> bool {
    forall|i: int|
        0 <= i < spans.len() ==> concatenated(graphemes((#[trigger] spans[i]).text))
            == spans[i].text
}

/// Fewer spans spell, too.
proof fn lemma_fewer_clusters_spell(spans: Seq<SpanView>)
    requires
        spans.len() > 0,
        clusters_spell(spans),
    ensures
        clusters_spell(spans.drop_last()),
        concatenated(graphemes(spans.last().text)) == spans.last().text,
{
    let fewer = spans.drop_last();
    assert forall|i: int| 0 <= i < fewer.len() implies concatenated(
        graphemes((#[trigger] fewer[i]).text),
    ) == fewer[i].text by {
        assert(fewer[i] == spans[i]);
    }
    assert(spans[spans.len() - 1] == spans.last());
}

/// Marking keeps a line's text, and its clusters in a row are that text.
pub proof fn lemma_marking_keeps_the_text(
    spans: Seq<SpanView>,
    matched: Set<usize>,
    emphasis: Modifier,
)
    requires
        clusters_spell(spans),
    ensures
        line_text(marked_spans(spans, matched, emphasis)) == line_text(spans),
        concatenated(clusters_of(span_texts(spans))) == line_text(spans),
    decreases spans.len(),
{
    if spans.len() > 0 {
        let fewer = spans.drop_last();
        let last = spans.last();
        let before = marked_spans(fewer, matched, emphasis);
        let marked = marked_spans(spans, matched, emphasis).skip(before.len() as int);
        lemma_fewer_clusters_spell(spans);
        lemma_marking_keeps_the_text(fewer, matched, emphasis);
        assert(span_texts(spans).drop_last() =~= span_texts(fewer));
        lemma_concatenated_is_additive(clusters_of(span_texts(fewer)), graphemes(last.text));
        assert(marked_spans(spans, matched, emphasis) =~= before + marked);
        lemma_line_text_is_additive(before, marked);
        let start = line_text(fewer).len() as int;
        let runs = runs_of(graphemes(last.text), start, matched);
        lemma_runs_mark_whole_clusters(graphemes(last.text), start, matched);
        assert(marked =~= marked_span(last, start, matched, emphasis));
        if runs.len() == 0 {
            assert(graphemes(last.text) =~= seq![]);
            assert(last.text =~= seq![]);
            assert(marked.drop_last() =~= seq![]);
            assert(line_text(marked.drop_last()) =~= seq![]);
            assert(line_text(marked) =~= last.text);
        } else {
            lemma_run_spans_text(runs, last.style, last.style.add_modifier(emphasis));
        }
        assert(line_text(marked_spans(spans, matched, emphasis)) =~= line_text(spans));
        assert(concatenated(clusters_of(span_texts(spans))) =~= line_text(spans));
    } else {
        assert(span_texts(spans) =~= seq![]);
        assert(concatenated(clusters_of(span_texts(spans))) =~= line_text(spans));
    }
}

/// A line is marked where it was matched: the character `p` of its text, which is one
/// of its cluster `k`, has the style it had, with the emphasis added exactly where
/// that cluster holds a matched position. Positions count the characters of the whole
/// line, from its first, across all of its spans.
pub proof fn lemma_a_line_is_marked_where_it_was_matched(
    spans: Seq<SpanView>,
    matched: Set<usize>,
    emphasis: Modifier,
    k: int,
    p: int,
)
    requires
        clusters_spell(spans),
        0 <= k < clusters_of(span_texts(spans)).len(),
        concatenated(clusters_of(span_texts(spans)).take(k)).len() <= p < concatenated(
            clusters_of(span_texts(spans)).take(k + 1),
        ).len(),
    ensures
        ({
            let clusters = clusters_of(span_texts(spans));
            let marked = marked_spans(spans, matched, emphasis);
            &&& p < line_text(spans).len()
            &&& char_styles(spans).len() == line_text(spans).len()
            &&& char_styles(marked).len() == line_text(spans).len()
            &&& char_styles(marked)[p] == if exists|q: usize|
                concatenated(clusters.take(k)).len() <= q < concatenated(
                    clusters.take(k + 1),
                ).len() && #[trigger] matched.contains(q) {
                char_styles(spans)[p].add_modifier(emphasis)
            } else {
                char_styles(spans)[p]
            }
        }),
    decreases spans.len(),
{
    let none: Seq<SpanView> = seq![];
    let clusters = clusters_of(span_texts(spans));
    let marked = marked_spans(spans, matched, emphasis);
    lemma_marking_keeps_the_text(spans, matched, emphasis);
    lemma_char_styles_are_additive(none, spans);
    lemma_char_styles_are_additive(none, marked);
    lemma_concatenated_prefix(clusters, k + 1);
    if spans.len() == 0 {
        assert(span_texts(spans) =~= seq![]);
    } else {
        let fewer = spans.drop_last();
        let last = spans.last();
        let above = clusters_of(span_texts(fewer));
        let own = graphemes(last.text);
        let start = line_text(fewer).len() as int;
        let before = marked_spans(fewer, matched, emphasis);
        let after = marked.skip(before.len() as int);
        lemma_fewer_clusters_spell(spans);
        lemma_marking_keeps_the_text(fewer, matched, emphasis);
        assert(span_texts(spans).drop_last() =~= span_texts(fewer));
        assert(clusters =~= above + own);
        assert(marked =~= before + after);
        lemma_char_styles_are_additive(before, after);
        lemma_char_styles_are_additive(none, before);
        lemma_char_styles_are_additive(none, fewer);
        assert(spans =~= fewer.push(last));
        if k < above.len() {
            assert(clusters.take(k) =~= above.take(k));
            assert(clusters.take(k + 1) =~= above.take(k + 1));
            lemma_concatenated_prefix(above, k + 1);
            lemma_a_line_is_marked_where_it_was_matched(fewer, matched, emphasis, k, p);
            assert(char_styles(spans)[p] == char_styles(fewer)[p]);
        } else {
            let j = k - above.len();
            assert(clusters.take(k) =~= above + own.take(j));
            assert(clusters.take(k + 1) =~= above + own.take(j + 1));
            lemma_concatenated_is_additive(above, own.take(j));
            lemma_concatenated_is_additive(above, own.take(j + 1));
            lemma_a_flag_tells_its_cluster(own, start, matched, j, p - start);
            let highlight = last.style.add_modifier(emphasis);
            lemma_marking_restyles_matched_clusters_only(
                own,
                start,
                matched,
                last.style,
                highlight,
            );
            lemma_runs_mark_whole_clusters(own, start, matched);
            assert(after =~= run_spans(runs_of(own, start, matched), last.style, highlight));
            assert(char_styles(spans)[p] == last.style);
        }
    }
}

/// On a line whose clusters are single characters, a character is emphasized exactly
/// where its own position, counted across the whole line, was matched.
pub proof fn lemma_single_characters_are_marked_by_their_positions(
    spans: Seq<SpanView>,
    matched: Set<usize>,
    emphasis: Modifier,
    p: int,
)
    requires
        clusters_spell(spans),
        forall|i: int|
            0 <= i < clusters_of(span_texts(spans)).len() ==> (#[trigger] clusters_of(
                span_texts(spans),
            )[i]).len() == 1,
        0 <= p < line_text(spans).len(),
        p <= usize::MAX,
    ensures
        char_styles(marked_spans(spans, matched, emphasis))[p] == if matched.contains(p as usize) {
            char_styles(spans)[p].add_modifier(emphasis)
        } else {
            char_styles(spans)[p]
        },
{
    let clusters = clusters_of(span_texts(spans));
    lemma_marking_keeps_the_text(spans, matched, emphasis);
    lemma_singles_are_as_long_as_they_are_many(clusters, clusters.len() as int);
    assert(clusters.take(clusters.len() as int) =~= clusters);
    lemma_singles_are_as_long_as_they_are_many(clusters, p);
    lemma_singles_are_as_long_as_they_are_many(clusters, p + 1);
    lemma_a_line_is_marked_where_it_was_matched(spans, matched, emphasis, p, p);
    if matched.contains(p as usize) {
        assert(p <= (p as usize) < p + 1);
    }
}

/// So many characters in a row are so long.
proof fn lemma_singles_are_as_long_as_they_are_many(clusters: Seq<Seq<char>>, n: int)
    requires
        forall|i: int| 0 <= i < clusters.len() ==> (#[trigger] clusters[i]).len() == 1,
        0 <= n <= clusters.len(),
    ensures
        concatenated(clusters.take(n)).len() == n,
    decreases n,
{
    if n > 0 {
        lemma_singles_are_as_long_as_they_are_many(clusters, n - 1);
        assert(clusters.take(n).drop_last() =~= clusters.take(n - 1));
        assert(clusters.take(n).last() == clusters[n - 1]);
    }
}

} // verus!
