use bookwriter_core::layout::line_breaker::LineBreaker;
use bookwriter_core::layout::metrics::{SimpleTextMetrics, TextMetrics};
use bookwriter_core::layout::types::{Alignment, TextStyle};
use uuid::Uuid;

#[test]
fn test_empty_text_returns_no_lines() {
    let metrics = SimpleTextMetrics::default();
    let breaker = LineBreaker::new(&metrics, 100_000);
    let style = TextStyle::default();
    let id = Uuid::new_v4();

    let lines = breaker.break_lines("", &style, id);
    assert_eq!(lines.len(), 0);
}

#[test]
fn test_single_word_fits_on_one_line() {
    let metrics = SimpleTextMetrics::default();
    let breaker = LineBreaker::new(&metrics, 100_000);
    let style = TextStyle::default();
    let id = Uuid::new_v4();

    let lines = breaker.break_lines("Hello", &style, id);
    assert_eq!(lines.len(), 1);
    assert_eq!(lines[0].fragments.len(), 1);
    assert_eq!(lines[0].fragments[0].text, "Hello");
}

#[test]
fn test_multiple_words_same_line() {
    let metrics = SimpleTextMetrics::default();
    let breaker = LineBreaker::new(&metrics, 1_000_000);
    let style = TextStyle::default();
    let id = Uuid::new_v4();

    let lines = breaker.break_lines("Hello world test", &style, id);
    assert_eq!(lines.len(), 1);
    assert_eq!(lines[0].fragments[0].text, "Hello world test");
}

#[test]
fn test_words_wrap_to_multiple_lines() {
    let metrics = SimpleTextMetrics::default();
    let breaker = LineBreaker::new(&metrics, 50_000);
    let style = TextStyle::default();
    let id = Uuid::new_v4();

    let lines = breaker.break_lines("Hello world this is a test", &style, id);
    assert!(lines.len() > 1, "Expected multiple lines");
}

#[test]
fn test_very_long_word() {
    let metrics = SimpleTextMetrics::default();
    let breaker = LineBreaker::new(&metrics, 50_000);
    let style = TextStyle::default();
    let id = Uuid::new_v4();

    let lines = breaker.break_lines("Supercalifragilisticexpialidocious", &style, id);
    assert_eq!(lines.len(), 1);
}

#[test]
fn test_multiple_spaces_collapsed() {
    let metrics = SimpleTextMetrics::default();
    let breaker = LineBreaker::new(&metrics, 1_000_000);
    let style = TextStyle::default();
    let id = Uuid::new_v4();

    let lines = breaker.break_lines("Hello    world", &style, id);
    assert_eq!(lines.len(), 1);
    assert_eq!(lines[0].fragments[0].text, "Hello world");
}

#[test]
fn test_y_offsets_calculated_correctly() {
    let metrics = SimpleTextMetrics::default();
    let breaker = LineBreaker::new(&metrics, 50_000);
    let style = TextStyle { font_size: 12_000, line_height: 1_500, alignment: Alignment::Left };
    let id = Uuid::new_v4();

    let lines = breaker.break_lines("word1 word2 word3 word4", &style, id);

    let expected_line_height = 18_000;
    for (i, line) in lines.iter().enumerate() {
        assert_eq!(line.y_offset, i as i64 * expected_line_height);
    }
}

/// Metrics and a style under which every character is one unit wide.
fn unit() -> (SimpleTextMetrics, TextStyle) {
    let metrics = SimpleTextMetrics { avg_char_width_ratio: 1 };
    let style = TextStyle { font_size: 1_000, line_height: 1_500, alignment: Alignment::Left };
    assert_eq!(metrics.measure_char('x', style.font_size), 1);
    (metrics, style)
}

fn texts(lines: &[bookwriter_core::layout::types::TextLine]) -> Vec<String> {
    lines.iter().map(|l| l.fragments[0].text.clone()).collect()
}

#[test]
fn exact_fit_stays_on_the_line() {
    let (metrics, style) = unit();
    let id = Uuid::new_v4();
    // "aaa bb" is 3 + 1 + 2 = 6 wide.
    let lines = LineBreaker::new(&metrics, 6).break_lines("aaa bb c", &style, id);
    assert_eq!(texts(&lines), vec!["aaa bb", "c"]);
    let lines = LineBreaker::new(&metrics, 5).break_lines("aaa bb c", &style, id);
    assert_eq!(texts(&lines), vec!["aaa", "bb c"]);
    let lines = LineBreaker::new(&metrics, 8).break_lines("aaa bb c", &style, id);
    assert_eq!(texts(&lines), vec!["aaa bb c"]);
}

#[test]
fn wide_word_stands_alone() {
    let (metrics, style) = unit();
    let id = Uuid::new_v4();
    let lines = LineBreaker::new(&metrics, 4).break_lines("ab abcdefgh cd ef", &style, id);
    assert_eq!(texts(&lines), vec!["ab", "abcdefgh", "cd", "ef"]);
    let lines = LineBreaker::new(&metrics, 4).break_lines("abcdefgh", &style, id);
    assert_eq!(texts(&lines), vec!["abcdefgh"]);
    let lines = LineBreaker::new(&metrics, 0).break_lines("a b", &style, id);
    assert_eq!(texts(&lines), vec!["a", "b"]);
}

#[test]
fn lines_stay_within_the_width() {
    let metrics = SimpleTextMetrics::default();
    let style = TextStyle::default();
    let id = Uuid::new_v4();
    let text = "The quick brown fox jumps over the lazy dog and runs far away";
    let max = 80_000;
    let lines = LineBreaker::new(&metrics, max).break_lines(text, &style, id);
    assert!(lines.len() > 1);
    for line in &lines {
        assert!(metrics.measure_text(&line.fragments[0].text, style.font_size) <= max);
    }
}

#[test]
fn words_survive_in_order() {
    let metrics = SimpleTextMetrics::default();
    let style = TextStyle::default();
    let id = Uuid::new_v4();
    let text = "  one\ttwo  three\nfour\u{2003}five   ";
    let lines = LineBreaker::new(&metrics, 60_000).break_lines(text, &style, id);
    let mut words: Vec<String> = Vec::new();
    for line in &lines {
        for w in line.fragments[0].text.split_whitespace() {
            words.push(w.to_string());
        }
    }
    let expected: Vec<String> = text.split_whitespace().map(|w| w.to_string()).collect();
    assert_eq!(words, expected);
    assert_eq!(expected.len(), 5);
}

#[test]
fn blank_text_gives_no_line() {
    let metrics = SimpleTextMetrics::default();
    let style = TextStyle::default();
    let id = Uuid::new_v4();
    let breaker = LineBreaker::new(&metrics, 100_000);
    assert_eq!(breaker.break_lines("   ", &style, id).len(), 0);
    assert_eq!(breaker.break_lines(" \t\r\n\u{a0}\u{3000}", &style, id).len(), 0);
}

#[test]
fn fragments_carry_style_and_source() {
    let metrics = SimpleTextMetrics::default();
    let style = TextStyle { font_size: 10_000, line_height: 2_000, alignment: Alignment::Center };
    let id = Uuid::new_v4();
    let lines = LineBreaker::new(&metrics, 30_000).break_lines("alpha beta", &style, id);
    assert_eq!(lines.len(), 2);
    assert_eq!(lines[1].y_offset, 20_000);
    for line in &lines {
        assert_eq!(line.fragments.len(), 1);
        assert_eq!(line.fragments[0].x_offset, 0);
        assert_eq!(line.fragments[0].style, style);
        assert_eq!(line.fragments[0].source_block_id, id);
    }
}
