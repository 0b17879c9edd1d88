//! Search matches in labels and in transcript lines.

use std::collections::HashSet;

use snapback::highlight::{
    emphasized, highlight_label_spans, highlight_matched_spans, highlight_runs, match_runs,
};
use snapback::rows::wrapped_text_rows;
use snapback::style::{Alignment, Color, Line, Modifier, Span, Style};

fn mark() -> Modifier {
    Modifier::reversed()
}

fn italic() -> Modifier {
    Modifier { bits: 0x0004 }
}

fn width(line: &Line) -> usize {
    line.spans.iter().map(|s| ratatui::text::Span::raw(s.text.as_str()).width()).sum()
}

fn styled(text: &str, style: Style) -> Span {
    Span::styled(text.to_string(), style)
}

#[test]
fn highlight_runs_splits_into_matched_and_unmatched_runs() {
    let matched: HashSet<usize> = [1, 2].into_iter().collect();
    assert_eq!(
        highlight_runs("abcd", &matched),
        vec![
            ("a".to_string(), false),
            ("bc".to_string(), true),
            ("d".to_string(), false),
        ]
    );
}

#[test]
fn highlight_runs_all_unmatched_when_set_is_empty() {
    let matched: HashSet<usize> = HashSet::new();
    assert_eq!(highlight_runs("abc", &matched), vec![("abc".to_string(), false)]);
}

#[test]
fn highlight_runs_ignores_out_of_range_indices_without_panicking() {
    let matched: HashSet<usize> = [0, 9, 42].into_iter().collect();
    assert_eq!(
        highlight_runs("ab", &matched),
        vec![("a".to_string(), true), ("b".to_string(), false)],
        "index 0 highlights 'a'; 9 and 42 are out of range and ignored"
    );
}

#[test]
fn highlight_runs_is_char_safe_for_multibyte_labels() {
    let matched: HashSet<usize> = [0, 2].into_iter().collect();
    assert_eq!(
        highlight_runs("🚀 d", &matched),
        vec![
            ("🚀".to_string(), true),
            (" ".to_string(), false),
            ("d".to_string(), true),
        ]
    );
}

#[test]
fn match_runs_snaps_a_partial_mark_out_to_the_whole_cluster() {
    let text = "e\u{1F44D}\u{1F3FD}f";
    for marked in [1usize, 2] {
        let matched: HashSet<usize> = [marked].into_iter().collect();
        assert_eq!(
            match_runs(text, 0, &matched),
            vec![("e", false), ("\u{1F44D}\u{1F3FD}", true), ("f", false)],
            "a mark on char {marked} alone still takes the cluster whole"
        );
    }
}

#[test]
fn match_runs_merges_clusters_that_meet_after_snapping() {
    let text = "a\u{1F44D}\u{1F3FD}\u{1F44D}\u{1F3FD}b";
    let matched: HashSet<usize> = [2, 3].into_iter().collect();
    assert_eq!(
        match_runs(text, 0, &matched),
        vec![
            ("a", false),
            ("\u{1F44D}\u{1F3FD}\u{1F44D}\u{1F3FD}", true),
            ("b", false),
        ],
        "the two snapped runs merge instead of emitting two abutting spans"
    );
}

#[test]
fn match_runs_counts_char_positions_from_the_offset() {
    let matched: HashSet<usize> = [6].into_iter().collect();
    assert_eq!(
        match_runs("ab", 5, &matched),
        vec![("a", false), ("b", true)],
        "with the span starting at char 5, position 6 is its SECOND char"
    );
}

#[test]
fn a_text_without_characters_has_no_runs() {
    let matched: HashSet<usize> = [0].into_iter().collect();
    assert!(match_runs("", 0, &matched).is_empty());
}

#[test]
fn runs_in_a_row_are_the_text() {
    let text = "caf\u{65}\u{301} \u{1F1FA}\u{1F1F8} end";
    for step in 1..4 {
        let matched: HashSet<usize> = (0..20).step_by(step).collect();
        let runs = match_runs(text, 0, &matched);
        let joined: String = runs.iter().map(|run| run.0).collect();
        assert_eq!(joined, text);
        for pair in runs.windows(2) {
            assert_ne!(pair[0].1, pair[1].1, "two neighbours never carry the same mark");
        }
    }
}

#[test]
fn highlight_label_spans_applies_highlight_only_to_matched_runs() {
    let matched: HashSet<usize> = [0].into_iter().collect();
    let base = Style::plain();
    let hl = Style::plain().fg(Color::LightBlue).add_modifier(Modifier::bold());
    let spans = highlight_label_spans("ab", &matched, base, hl);
    assert_eq!(spans.len(), 2);
    assert_eq!(spans[0].text, "a");
    assert_eq!(spans[0].style, hl, "the matched char gets the highlight style");
    assert_eq!(spans[1].text, "b");
    assert_eq!(spans[1].style, base, "an unmatched char keeps the base style");
}

fn spans_text(line: &Line) -> String {
    line.spans.iter().map(|s| s.text.as_str()).collect()
}

fn styled_line() -> Line {
    Line {
        spans: vec![
            styled("code ", Style::plain().add_modifier(Modifier::dim())),
            styled("word", Style::plain().add_modifier(Modifier::bold())),
        ],
        style: Style::plain().fg(Color::Cyan),
        alignment: Some(Alignment::Center),
    }
}

#[test]
fn preview_match_highlight_preserves_each_spans_own_style() {
    let matched: HashSet<usize> = [0, 1, 2, 3, 5, 6, 7, 8].into_iter().collect();
    let out = highlight_matched_spans(&styled_line(), &matched, mark());
    let runs: Vec<(String, Style)> = out.spans.iter().map(|s| (s.text.clone(), s.style)).collect();
    assert_eq!(
        runs,
        vec![
            (
                "code".to_string(),
                Style::plain().add_modifier(Modifier::dim()).add_modifier(mark())
            ),
            (" ".to_string(), Style::plain().add_modifier(Modifier::dim())),
            (
                "word".to_string(),
                Style::plain().add_modifier(Modifier::bold()).add_modifier(mark())
            ),
        ],
        "each run keeps the style of the span it came from, plus the mark"
    );
}

const OVERFLOW_WRAP_WIDTH: u16 = 20;
const OVERFLOW_WRAP_ROWS: usize = 2;

fn overflowing_line() -> Line {
    Line {
        spans: vec![
            styled("aaaa bbbb cccc ", Style::plain().add_modifier(Modifier::dim())),
            styled(
                "\u{1F44D}\u{1F3FD}ddd eeeeeeeeeeeeeeeeeee",
                Style::plain().add_modifier(Modifier::bold()),
            ),
        ],
        style: Style::plain().fg(Color::Cyan),
        alignment: Some(Alignment::Center),
    }
}

#[test]
fn preview_match_highlight_changes_no_width_and_no_line_count() {
    let line = overflowing_line();
    let matched: HashSet<usize> = [15].into_iter().collect();
    let out = highlight_matched_spans(&line, &matched, mark());
    assert_eq!(spans_text(&out), spans_text(&line), "the text is identical");
    assert_eq!(width(&out), width(&line), "the display width is identical");
    assert_eq!(
        wrapped_text_rows(std::slice::from_ref(&line), OVERFLOW_WRAP_WIDTH),
        OVERFLOW_WRAP_ROWS,
        "the fixture must overflow the measuring width, or the next assertion \
         compares 1 to 1 and cannot fail"
    );
    assert_eq!(
        wrapped_text_rows(std::slice::from_ref(&out), OVERFLOW_WRAP_WIDTH),
        wrapped_text_rows(std::slice::from_ref(&line), OVERFLOW_WRAP_WIDTH),
        "the wrapped row count is identical"
    );
    assert_eq!(out.style, line.style, "the line's own style survives");
    assert_eq!(out.alignment, line.alignment, "the alignment survives");
}

#[test]
fn preview_match_highlight_never_splits_a_grapheme_cluster() {
    for (cluster, marked_char) in [
        ("\u{1F44D}\u{1F3FD}", 0),
        ("\u{2764}\u{FE0F}", 0),
        ("\u{1F1FA}\u{1F1F8}", 1),
    ] {
        let text = format!("x{cluster}y");
        let line = Line::from_span(Span::raw(&text));
        let matched: HashSet<usize> = [1 + marked_char].into_iter().collect();
        let out = highlight_matched_spans(&line, &matched, mark());
        let runs: Vec<&str> = out.spans.iter().map(|s| s.text.as_str()).collect();
        assert_eq!(
            runs,
            vec!["x", cluster, "y"],
            "{:?}: the cluster is marked whole",
            cluster.escape_unicode().to_string()
        );
        assert_eq!(
            width(&out),
            width(&line),
            "{:?}: the summed span width still describes the painted text",
            cluster.escape_unicode().to_string()
        );
    }
}

#[test]
fn preview_match_highlight_is_char_safe_for_multibyte_lines() {
    let line = Line::from_spans(vec![
        Span::raw("🚀 "),
        styled("日本語", Style::plain().add_modifier(italic())),
    ]);
    let matched: HashSet<usize> = [0, 3, 99, 400].into_iter().collect();
    let out = highlight_matched_spans(&line, &matched, mark());
    let runs: Vec<(String, bool)> = out
        .spans
        .iter()
        .map(|s| (s.text.clone(), s.style.added.bits & mark().bits == mark().bits))
        .collect();
    assert_eq!(
        runs,
        vec![
            ("🚀".to_string(), true),
            (" ".to_string(), false),
            ("日".to_string(), false),
            ("本".to_string(), true),
            ("語".to_string(), false),
        ],
        "runs split on char boundaries, out-of-range positions ignored"
    );
    assert_eq!(spans_text(&out), spans_text(&line));
    assert_eq!(width(&out), width(&line), "CJK/emoji columns survive the split");
}

#[test]
fn preview_match_highlight_leaves_an_unmatched_line_alone() {
    let mut line = styled_line();
    line.spans.push(styled("", Style::plain().fg(Color::Red)));
    let out = highlight_matched_spans(&line, &HashSet::new(), mark());
    assert_eq!(out.spans.len(), line.spans.len(), "no span was split");
    for (got, want) in out.spans.iter().zip(line.spans.iter()) {
        assert_eq!(got.text, want.text);
        assert_eq!(got.style, want.style, "no mark on an unmatched line");
    }
}

#[test]
fn a_mark_is_added_to_a_style_and_takes_nothing_from_it() {
    let base = Style::plain().fg(Color::Red).add_modifier(Modifier::dim());
    assert_eq!(emphasized(base, false, mark()), base);
    let marked = emphasized(base, true, mark());
    assert_eq!(marked.fg, Some(Color::Red));
    assert_eq!(marked.added.bits, Modifier::dim().bits | mark().bits);
    assert_eq!(emphasized(marked, true, mark()), marked);

    let taken = Style { removed: mark(), ..Style::plain() };
    assert_eq!(emphasized(taken, true, mark()).removed, Modifier::none());
}

/// Characters of every kind that a cluster boundary turns on.
const KINDS: [char; 24] = [
    'a', ' ', '\n', '\r', '\t', '\u{301}', '\u{200d}', '\u{200b}', '\u{1f1fa}', '\u{1f1f8}',
    '\u{600}', '\u{903}', '\u{915}', '\u{94d}', '\u{93c}', '\u{1100}', '\u{1161}', '\u{11a8}',
    '\u{ac00}', '\u{ac01}', '\u{1f468}', '\u{2764}', '\u{fe0f}', '\u{4e2d}',
];

/// Texts of such characters, the same ones on every run.
fn mixed_texts(count: usize, chars: usize) -> Vec<String> {
    let mut seed: u64 = 0x2545_f491_4f6c_dd1d;
    let mut next = || {
        seed ^= seed << 13;
        seed ^= seed >> 7;
        seed ^= seed << 17;
        seed
    };
    (0..count)
        .map(|_| (0..chars).map(|_| KINDS[(next() % KINDS.len() as u64) as usize]).collect())
        .collect()
}

#[test]
fn a_stretch_of_clusters_segments_into_them_again() {
    let clusters = |text: &str| -> Vec<String> {
        unicode_segmentation::UnicodeSegmentation::graphemes(text, true)
            .map(str::to_owned)
            .collect()
    };
    for text in mixed_texts(4_000, 14) {
        let whole = clusters(&text);
        for start in 0..=whole.len() {
            for end in start..=whole.len() {
                assert_eq!(clusters(&whole[start..end].concat()), whole[start..end], "{text:?}");
            }
        }
    }
}

#[test]
fn marking_never_moves_a_row() {
    for (n, text) in mixed_texts(1_500, 24).into_iter().enumerate() {
        let half = text.chars().count() / 2;
        let first: String = text.chars().take(half).collect();
        let second: String = text.chars().skip(half).collect();
        let line = Line::from_spans(vec![
            styled(&first, Style::plain().fg(Color::Green)),
            styled("", Style::plain()),
            styled(&second, Style::plain()),
        ]);
        let matched: HashSet<usize> =
            (0..24).filter(|position| (position * 7 + n) % 3 == 0).collect();
        let marked = highlight_matched_spans(&line, &matched, mark());
        let lines = [line];
        let marked = [marked];
        for inner_width in [0u16, 1, 2, 3, 5, 8, 13, 40] {
            assert_eq!(
                wrapped_text_rows(&marked, inner_width),
                wrapped_text_rows(&lines, inner_width),
                "{text:?} at {inner_width}"
            );
        }
    }
}
