use parallels::buffer::{OutputKind, OutputLine};
use parallels::highlight::{highlight_ranges, overlay_highlights, HighlightRange};
use parallels::search::Match;
use parallels::styled::StyledSpan;
use ratatui::style::{Color, Modifier, Style};

#[test]
fn overlay_highlights_with_no_highlights_returns_original_spans() {
    let spans = vec![StyledSpan::raw("hello world".to_string())];
    let result = overlay_highlights(spans.clone(), &[]);
    assert_eq!(result.len(), 1);
    assert_eq!(result[0].content, "hello world");
}

#[test]
fn overlay_highlights_highlights_middle_of_span() {
    let spans = vec![StyledSpan::raw("hello world".to_string())];
    let highlights = vec![HighlightRange {
        start: 6,
        end: 11,
        is_current: true,
    }];
    let result = overlay_highlights(spans, &highlights);

    // Should split into: "hello " + "world" (highlighted)
    assert_eq!(result.len(), 2);
    assert_eq!(result[0].content, "hello ");
    assert_eq!(result[1].content, "world");
    assert_eq!(result[1].style.bg, Some(Color::Cyan));
}

#[test]
fn overlay_highlights_with_ansi_text_highlights_correctly() {
    let spans = vec![
        StyledSpan::styled("ERROR".to_string(), Style::default().fg(Color::Red)),
        StyledSpan::raw(": timeout".to_string()),
    ];

    // Search for "ERROR" - positions are in the text without escape sequences (0-5)
    let highlights = vec![HighlightRange {
        start: 0,
        end: 5,
        is_current: true,
    }];

    let result = overlay_highlights(spans, &highlights);

    // "ERROR" should be highlighted
    assert_eq!(result[0].content, "ERROR");
    assert_eq!(result[0].style.bg, Some(Color::Cyan));
    // ": timeout" should remain unchanged
    assert_eq!(result[1].content, ": timeout");
    assert_eq!(result[1].style.bg, None);
}

#[test]
fn overlay_highlights_search_error_in_ansi_colored_text() {
    let spans = vec![StyledSpan::styled(
        "\u{2717} ERROR: Connection timeout".to_string(),
        Style::default().fg(Color::Red),
    )];

    // "\u{2717} " is 4 bytes, "ERROR" starts at byte 4
    let text = "\u{2717} ERROR: Connection timeout";
    let error_start = text.find("ERROR").unwrap();
    let error_end = error_start + "ERROR".len();

    let highlights = vec![HighlightRange {
        start: error_start,
        end: error_end,
        is_current: true,
    }];

    let result = overlay_highlights(spans, &highlights);

    // Should have 3 spans: "\u{2717} " + "ERROR" (highlighted) + ": Connection timeout"
    assert_eq!(result.len(), 3, "Expected 3 spans, got {:?}", result);
    assert_eq!(result[0].content, "\u{2717} ");
    assert_eq!(result[1].content, "ERROR");
    assert_eq!(result[1].style.bg, Some(Color::Cyan));
    assert_eq!(result[2].content, ": Connection timeout");
}

#[test]
fn renderer_search_with_ansi_text_highlights_correct_position() {
    let raw_content = "\x1b[31m\u{2717} ERROR: Connection timeout\x1b[0m";

    // 1. Decode the escape sequences
    let line = OutputLine::new(OutputKind::Stdout, raw_content.to_string());
    let base_spans: Vec<StyledSpan> = line.spans().to_vec();

    // 2. The text without escape sequences
    let stripped = line.plain();
    assert_eq!(stripped, "\u{2717} ERROR: Connection timeout");

    let search_start = stripped.find("ERROR").unwrap();
    let search_end = search_start + "ERROR".len();

    // 3. Apply highlights at those positions
    let highlights = vec![HighlightRange {
        start: search_start,
        end: search_end,
        is_current: true,
    }];
    let result = overlay_highlights(base_spans, &highlights);

    let highlighted_text: String = result
        .iter()
        .filter(|s| s.style.bg == Some(Color::Cyan))
        .map(|s| s.content.to_string())
        .collect();

    assert_eq!(highlighted_text, "ERROR");
}

#[test]
fn highlight_keeps_foreground_and_attributes() {
    let base = Style::default().fg(Color::Green).add_modifier(Modifier::BOLD);
    let spans = vec![StyledSpan::styled("ok done".to_string(), base)];
    let highlights = vec![HighlightRange { start: 3, end: 7, is_current: false }];
    let result = overlay_highlights(spans, &highlights);
    assert_eq!(result.len(), 2);
    assert_eq!(result[0].style, base);
    assert_eq!(result[1].content, "done");
    assert_eq!(result[1].style.fg, Some(Color::Green));
    assert_eq!(result[1].style.bg, Some(Color::DarkGray));
    assert!(result[1].style.add_modifier.contains(Modifier::BOLD));
}

#[test]
fn highlight_across_two_spans_and_adjacent_ranges() {
    let spans = vec![
        StyledSpan::raw("abc".to_string()),
        StyledSpan::styled("def".to_string(), Style::default().fg(Color::Blue)),
    ];
    let highlights = vec![
        HighlightRange { start: 2, end: 4, is_current: false },
        HighlightRange { start: 4, end: 5, is_current: true },
    ];
    let result = overlay_highlights(spans, &highlights);
    let pieces: Vec<(String, Option<Color>, Option<Color>)> = result
        .iter()
        .map(|s| (s.content.clone(), s.style.fg, s.style.bg))
        .collect();
    assert_eq!(
        pieces,
        vec![
            ("ab".to_string(), None, None),
            ("c".to_string(), None, Some(Color::DarkGray)),
            ("d".to_string(), Some(Color::Blue), Some(Color::DarkGray)),
            ("e".to_string(), Some(Color::Blue), Some(Color::Cyan)),
            ("f".to_string(), Some(Color::Blue), None),
        ]
    );
}

#[test]
fn highlight_never_cuts_inside_a_character() {
    // "\u{4e16}" takes bytes 0..3; a range that starts inside it covers the
    // following character from its first byte on.
    let spans = vec![StyledSpan::raw("\u{4e16}\u{754c}x".to_string())];
    let highlights = vec![HighlightRange { start: 1, end: 4, is_current: true }];
    let result = overlay_highlights(spans, &highlights);
    let texts: Vec<String> = result.iter().map(|s| s.content.clone()).collect();
    assert_eq!(texts, vec!["\u{4e16}", "\u{754c}", "x"]);
    assert_eq!(result[0].style.bg, None);
    assert_eq!(result[1].style.bg, Some(Color::Cyan));
    assert_eq!(result[2].style.bg, None);
}

#[test]
fn highlight_keeps_empty_spans() {
    let spans = vec![
        StyledSpan::styled(String::new(), Style::default().fg(Color::Red)),
        StyledSpan::raw("ab".to_string()),
    ];
    let result = overlay_highlights(spans.clone(), &[]);
    assert_eq!(result.len(), 2);
    assert_eq!(result[0].content, "");
    assert_eq!(result[0].style.fg, Some(Color::Red));
    let highlights = vec![HighlightRange { start: 0, end: 1, is_current: true }];
    let result = overlay_highlights(spans, &highlights);
    let texts: Vec<String> = result.iter().map(|s| s.content.clone()).collect();
    assert_eq!(texts, vec!["", "a", "b"]);
    assert_eq!(result[1].style.bg, Some(Color::Cyan));
}

#[test]
fn highlight_ranges_for_a_line() {
    let matches = vec![
        Match { line: 0, start: 1, len: 2 },
        Match { line: 2, start: 0, len: 3 },
        Match { line: 2, start: 5, len: 3 },
    ];
    // The current match is the one with index 2: the second match on line 2.
    let ranges = highlight_ranges(&matches, Some(2), 2);
    assert_eq!(
        ranges,
        vec![
            HighlightRange { start: 0, end: 3, is_current: false },
            HighlightRange { start: 5, end: 8, is_current: true },
        ]
    );
    let ranges = highlight_ranges(&matches, Some(2), 0);
    assert_eq!(ranges, vec![HighlightRange { start: 1, end: 3, is_current: false }]);
    assert!(highlight_ranges(&matches, None, 1).is_empty());
    let big = vec![Match { line: 0, start: usize::MAX - 1, len: 5 }];
    assert_eq!(highlight_ranges(&big, None, 0)[0].end, usize::MAX);
}
