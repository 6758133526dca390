use parallels::buffer::{OutputBuffer, OutputKind, OutputLine};
use parallels::search::SearchState;
use parallels::text::{char_offsets, char_range, char_width, contains_uppercase};

fn create_buffer_with_lines(lines: &[&str]) -> OutputBuffer {
    let mut buffer = OutputBuffer::new(100);
    for line in lines {
        buffer.push(OutputLine::new(OutputKind::Stdout, (*line).to_string()));
    }
    buffer
}

#[test]
fn search_state_new_returns_empty_state() {
    let state = SearchState::new();
    assert!(state.query().is_empty());
    assert!(state.matches().is_empty());
    assert!(!state.is_active());
}

#[test]
fn search_state_search_finds_simple_match() {
    let buffer = create_buffer_with_lines(&["hello world", "goodbye world"]);
    let mut state = SearchState::new();

    state.search("world", &buffer);

    assert_eq!(state.query(), "world");
    assert_eq!(state.match_count(), 2);
    assert!(state.is_active());

    let matches = state.matches();
    assert_eq!(matches[0].line, 0);
    assert_eq!(matches[0].start, 6);
    assert_eq!(matches[0].len, 5);

    assert_eq!(matches[1].line, 1);
    assert_eq!(matches[1].start, 8);
    assert_eq!(matches[1].len, 5);
}

#[test]
fn search_state_search_finds_multiple_matches_in_same_line() {
    let buffer = create_buffer_with_lines(&["foo bar foo baz foo"]);
    let mut state = SearchState::new();

    state.search("foo", &buffer);

    assert_eq!(state.match_count(), 3);

    let matches = state.matches();
    assert_eq!(matches[0].start, 0);
    assert_eq!(matches[1].start, 8);
    assert_eq!(matches[2].start, 16);
}

#[test]
fn search_state_search_returns_empty_when_no_match() {
    let buffer = create_buffer_with_lines(&["hello world"]);
    let mut state = SearchState::new();

    state.search("xyz", &buffer);

    assert!(state.matches().is_empty());
    assert_eq!(state.current_match_display(), None);
}

#[test]
fn search_state_search_returns_empty_when_query_is_empty() {
    let buffer = create_buffer_with_lines(&["hello world"]);
    let mut state = SearchState::new();

    state.search("", &buffer);

    assert!(state.matches().is_empty());
    assert!(!state.is_active());
}

#[test]
fn search_state_next_match_cycles_through_matches() {
    let buffer = create_buffer_with_lines(&["line1 foo", "line2", "line3 foo"]);
    let mut state = SearchState::new();
    state.search("foo", &buffer);

    assert_eq!(state.current_match_display(), Some(1));
    assert_eq!(state.current_match().unwrap().line, 0);

    let line = state.next_match();
    assert_eq!(line, Some(2));
    assert_eq!(state.current_match_display(), Some(2));

    let line = state.next_match();
    assert_eq!(line, Some(0)); // cycles back
    assert_eq!(state.current_match_display(), Some(1));
}

#[test]
fn search_state_prev_match_cycles_through_matches() {
    let buffer = create_buffer_with_lines(&["line1 foo", "line2", "line3 foo"]);
    let mut state = SearchState::new();
    state.search("foo", &buffer);

    assert_eq!(state.current_match_display(), Some(1));

    let line = state.prev_match();
    assert_eq!(line, Some(2)); // cycles to last
    assert_eq!(state.current_match_display(), Some(2));

    let line = state.prev_match();
    assert_eq!(line, Some(0));
    assert_eq!(state.current_match_display(), Some(1));
}

#[test]
fn search_state_next_match_returns_none_when_no_matches() {
    let buffer = create_buffer_with_lines(&["hello"]);
    let mut state = SearchState::new();
    state.search("xyz", &buffer);

    assert_eq!(state.next_match(), None);
}

#[test]
fn search_state_prev_match_returns_none_when_no_matches() {
    let buffer = create_buffer_with_lines(&["hello"]);
    let mut state = SearchState::new();
    state.search("xyz", &buffer);

    assert_eq!(state.prev_match(), None);
}

#[test]
fn search_state_clear_resets_state() {
    let buffer = create_buffer_with_lines(&["hello world"]);
    let mut state = SearchState::new();
    state.search("hello", &buffer);

    assert!(state.is_active());

    state.clear();

    assert!(state.query().is_empty());
    assert!(state.matches().is_empty());
    assert!(!state.is_active());
}

// Smartcase tests: lowercase query = case-insensitive, uppercase query = case-sensitive

#[test]
fn search_state_smartcase_lowercase_query_matches_both_cases() {
    let buffer = create_buffer_with_lines(&["Hello World", "hello world", "HELLO WORLD"]);
    let mut state = SearchState::new();

    // Lowercase query should match all cases
    state.search("hello", &buffer);
    assert_eq!(state.match_count(), 3);
    assert_eq!(state.matches()[0].line, 0);
    assert_eq!(state.matches()[1].line, 1);
    assert_eq!(state.matches()[2].line, 2);
}

#[test]
fn search_state_smartcase_uppercase_query_matches_exact_case() {
    let buffer = create_buffer_with_lines(&["Hello World", "hello world", "HELLO WORLD"]);
    let mut state = SearchState::new();

    // Query with uppercase should be case-sensitive
    state.search("Hello", &buffer);
    assert_eq!(state.match_count(), 1);
    assert_eq!(state.matches()[0].line, 0);
}

#[test]
fn search_state_smartcase_all_caps_query_matches_exact() {
    let buffer = create_buffer_with_lines(&["Hello World", "hello world", "HELLO WORLD"]);
    let mut state = SearchState::new();

    state.search("HELLO", &buffer);
    assert_eq!(state.match_count(), 1);
    assert_eq!(state.matches()[0].line, 2);
}

#[test]
fn search_state_smartcase_preserves_match_positions() {
    let buffer = create_buffer_with_lines(&["Hello World", "hello world"]);
    let mut state = SearchState::new();

    // Case-insensitive search should return positions in the text as it is
    state.search("world", &buffer);
    assert_eq!(state.match_count(), 2);
    // "World" at position 6 in "Hello World"
    assert_eq!(state.matches()[0].start, 6);
    assert_eq!(state.matches()[0].len, 5);
    // "world" at position 6 in "hello world"
    assert_eq!(state.matches()[1].start, 6);
    assert_eq!(state.matches()[1].len, 5);
}

// Multibyte character tests (Japanese, etc.)

#[test]
fn search_state_finds_japanese_text() {
    let buffer = create_buffer_with_lines(&["こんにちは世界", "さようなら世界", "hello world"]);
    let mut state = SearchState::new();

    state.search("世界", &buffer);
    assert_eq!(state.match_count(), 2);
    assert_eq!(state.matches()[0].line, 0);
    assert_eq!(state.matches()[1].line, 1);
}

#[test]
fn search_state_japanese_match_has_correct_byte_positions() {


    let buffer = create_buffer_with_lines(&["こんにちは世界"]);
    let mut state = SearchState::new();

    state.search("世界", &buffer);
    assert_eq!(state.match_count(), 1);
    assert_eq!(state.matches()[0].start, 15); // byte position
    assert_eq!(state.matches()[0].len, 6);
}

#[test]
fn search_state_finds_japanese_in_mixed_text() {
    let buffer =
        create_buffer_with_lines(&["Error: エラーが発生しました", "Warning: 警告メッセージ"]);
    let mut state = SearchState::new();

    state.search("エラー", &buffer);
    assert_eq!(state.match_count(), 1);
    assert_eq!(state.matches()[0].line, 0);

    assert_eq!(state.matches()[0].start, 7);
}

#[test]
fn search_state_finds_multiple_japanese_matches_in_same_line() {
    let buffer = create_buffer_with_lines(&["エラー: エラーが発生、エラーを確認"]);
    let mut state = SearchState::new();

    state.search("エラー", &buffer);
    assert_eq!(state.match_count(), 3);

    assert_eq!(state.matches()[0].start, 0);



}

#[test]
fn search_state_japanese_with_ascii_query() {
    let buffer = create_buffer_with_lines(&["日本語とEnglishの混合", "純粋な日本語テキスト"]);
    let mut state = SearchState::new();

    // Search for ASCII in mixed text
    state.search("English", &buffer);
    assert_eq!(state.match_count(), 1);
    assert_eq!(state.matches()[0].line, 0);
}

#[test]
fn search_state_emoji_search() {
    let buffer = create_buffer_with_lines(&["成功 ✓ 完了", "失敗 ✗ エラー", "✓ OK"]);
    let mut state = SearchState::new();

    state.search("✓", &buffer);
    assert_eq!(state.match_count(), 2);
    assert_eq!(state.matches()[0].line, 0);
    assert_eq!(state.matches()[1].line, 2);
}

#[test]
fn clear_input_should_clear_query_but_preserve_matches() {
    let buffer = create_buffer_with_lines(&["hello world", "hello rust"]);
    let mut state = SearchState::new();

    state.search("hello", &buffer);
    assert_eq!(state.query(), "hello");
    assert_eq!(state.matches().len(), 2);

    state.clear_input();

    assert_eq!(state.query(), "");
    assert_eq!(state.matches().len(), 2);
}

#[test]
fn has_matches_returns_true_when_matches_exist_after_clear_input() {
    let buffer = create_buffer_with_lines(&["hello world"]);
    let mut state = SearchState::new();

    state.search("hello", &buffer);
    assert!(state.has_matches());

    state.clear_input();

    assert!(state.has_matches());
}

#[test]
fn search_replaces_previous_matches_with_new_ones() {
    let buffer = create_buffer_with_lines(&["hello world", "foo bar"]);
    let mut state = SearchState::new();


    state.search("hello", &buffer);
    assert_eq!(state.matches().len(), 1);
    assert_eq!(state.matches()[0].line, 0);


    state.search("foo", &buffer);
    assert_eq!(state.matches().len(), 1);
    assert_eq!(state.matches()[0].line, 1);
}

#[test]
fn search_after_clear_input_updates_matches_correctly() {
    let buffer = create_buffer_with_lines(&["hello world", "foo bar"]);
    let mut state = SearchState::new();


    state.search("hello", &buffer);
    assert_eq!(state.matches().len(), 1);


    state.clear_input();
    assert!(state.has_matches());


    state.search("foo", &buffer);
    assert_eq!(state.matches().len(), 1);
    assert_eq!(state.matches()[0].line, 1);
}

#[test]
fn scan_does_not_overlap_matches() {
    let buffer = create_buffer_with_lines(&["aaaa", "foo bar foo baz foo"]);
    let mut state = SearchState::new();
    state.search("aa", &buffer);
    let starts: Vec<usize> = state.matches().iter().map(|m| m.start).collect();
    assert_eq!(starts, vec![0, 2]);

    state.search("foo", &buffer);
    let starts: Vec<usize> = state.matches().iter().map(|m| m.start).collect();
    assert_eq!(starts, vec![0, 8, 16]);
    assert!(state.matches().iter().all(|m| m.line == 1 && m.len == 3));
}

#[test]
fn navigation_wraps_with_two_matches() {
    let buffer = create_buffer_with_lines(&["x", "x"]);
    let mut state = SearchState::new();
    state.search("x", &buffer);
    assert_eq!(state.current_match_display(), Some(1));
    assert_eq!(state.next_match(), Some(1));
    assert_eq!(state.current_match_display(), Some(2));
    assert_eq!(state.next_match(), Some(0));
    assert_eq!(state.current_match_display(), Some(1));
    assert_eq!(state.prev_match(), Some(1));
    assert_eq!(state.current_match_display(), Some(2));
}

#[test]
fn navigation_after_clear_input_keeps_working() {
    let buffer = create_buffer_with_lines(&["ab", "b", "ab"]);
    let mut state = SearchState::new();
    state.search("a", &buffer);
    state.clear_input();
    assert!(!state.is_active());
    assert_eq!(state.next_match(), Some(2));
    assert_eq!(state.current_match().unwrap().line, 2);
}

#[test]
fn search_in_empty_buffer_finds_nothing() {
    let buffer = OutputBuffer::new(10);
    let mut state = SearchState::new();
    state.search("a", &buffer);
    assert_eq!(state.match_count(), 0);
    assert_eq!(state.current_match(), None);
    assert_eq!(state.query(), "a");
}

#[test]
fn default_state_is_empty() {
    let state = SearchState::default();
    assert_eq!(state.query(), "");
    assert!(!state.has_matches());
    assert_eq!(state.current_match_display(), None);
}

#[test]
fn uppercase_detection() {
    assert!(!contains_uppercase("hello"));
    assert!(contains_uppercase("hEllo"));
    assert!(!contains_uppercase(""));
    assert!(!contains_uppercase("\u{4e16}\u{754c}"));
    assert!(contains_uppercase("\u{00c9}t\u{00e9}"));
}

#[test]
fn case_insensitive_search_folds_non_ascii() {
    let buffer = create_buffer_with_lines(&["\u{00c9}COLE", "\u{00e9}cole"]);
    let mut state = SearchState::new();
    state.search("\u{00e9}cole", &buffer);
    assert_eq!(state.match_count(), 2);
    assert_eq!(state.matches()[0].start, 0);
    assert_eq!(state.matches()[0].len, 6);
}

#[test]
fn case_insensitive_offsets_are_in_the_line_text() {
    // Lowercasing "\u{0130}" (2 bytes) gives 3 bytes; offsets still count the
    // bytes of the line as it is.
    let buffer = create_buffer_with_lines(&["\u{0130}x ab AB"]);
    let mut state = SearchState::new();
    state.search("ab", &buffer);
    let found: Vec<(usize, usize)> = state.matches().iter().map(|m| (m.start, m.len)).collect();
    assert_eq!(found, vec![(4, 2), (7, 2)]);
    let text = "\u{0130}x ab AB";
    for m in state.matches() {
        assert!(text.is_char_boundary(m.start));
        assert!(text.is_char_boundary(m.start + m.len));
        assert_eq!(text[m.start..m.start + m.len].to_lowercase(), "ab");
    }
}

#[test]
fn character_offsets_and_ranges() {
    let text = "a\u{00e9}\u{4e16}\u{1f600}";
    assert_eq!(char_offsets(text), vec![0, 1, 3, 6, 10]);
    let offs = char_offsets(text);
    assert_eq!(char_range(text, &offs, 1, 3), "\u{00e9}\u{4e16}");
    assert_eq!(char_range(text, &offs, 4, 4), "");
    assert_eq!(char_width('\u{1f600}'), 4);
    assert_eq!(char_offsets(""), vec![0]);
}
