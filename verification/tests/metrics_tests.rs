use bookwriter_core::layout::metrics::{SimpleTextMetrics, TextMetrics};

#[test]
fn test_simple_metrics_measures_text() {
    let metrics = SimpleTextMetrics::default();
    let width = metrics.measure_text("Hello", 12_000);
    assert_eq!(width, 5 * 12_000 * 600 / 1000);
    assert_eq!(width, 36_000);
}

#[test]
fn test_simple_metrics_measures_char() {
    let metrics = SimpleTextMetrics::default();
    let width = metrics.measure_char('A', 12_000);
    assert_eq!(width, 12_000 * 600 / 1000);
}

#[test]
fn test_simple_metrics_line_height() {
    let metrics = SimpleTextMetrics::default();
    let height = metrics.line_height(12_000, 1_500);
    assert_eq!(height, 18_000);
}

#[test]
fn simple_metrics_counts_characters_not_bytes() {
    let metrics = SimpleTextMetrics::default();
    assert_eq!(metrics.measure_text("héllo", 10_000), 30_000);
    assert_eq!(metrics.measure_text("", 10_000), 0);
}

#[test]
fn simple_metrics_caps_at_the_largest_value() {
    let metrics = SimpleTextMetrics { avg_char_width_ratio: u32::MAX };
    assert_eq!(metrics.measure_char('x', i64::MAX), i64::MAX);
    assert_eq!(metrics.measure_text("xy", i64::MAX), i64::MAX);
    assert_eq!(metrics.line_height(i64::MAX, i64::MAX), i64::MAX);
    let half = SimpleTextMetrics { avg_char_width_ratio: 500 };
    assert_eq!(half.measure_text("abc", 7), 9);
}

use bookwriter_core::layout::line_breaker::LineBreaker;
use bookwriter_core::layout::metrics::{CharMeasure, LineMeasure, MeasuredMetrics, TextMeasure};
use bookwriter_core::layout::types::{Alignment, TextStyle};

fn table() -> MeasuredMetrics {
    let text = |t: &str, font_size: i64, width: i64| TextMeasure {
        text: t.to_string(),
        font_size,
        width,
    };
    MeasuredMetrics {
        texts: vec![
            text("wide", 10, 50),
            text("i", 10, 2),
            text("wide", 12, 60),
            text("wide", 10, 99),
            text("bad", 10, -4),
        ],
        chars: vec![
            CharMeasure { c: ' ', font_size: 10, width: 3 },
            CharMeasure { c: 'x', font_size: 10, width: -1 },
        ],
        lines: vec![LineMeasure { font_size: 10, multiplier: 1_500, height: 14 }],
    }
}

#[test]
fn measured_metrics_look_up_the_first_match() {
    let m = table();
    assert_eq!(m.measure_text("wide", 10), 50);
    assert_eq!(m.measure_text("wide", 12), 60);
    assert_eq!(m.measure_text("i", 10), 2);
    assert_eq!(m.measure_text("i", 12), 0);
    assert_eq!(m.measure_text("other", 10), 0);
    assert_eq!(m.measure_text("bad", 10), 0);
    assert_eq!(m.measure_char(' ', 10), 3);
    assert_eq!(m.measure_char('x', 10), 0);
    assert_eq!(m.measure_char(' ', 11), 0);
    assert_eq!(m.line_height(10, 1_500), 14);
    assert_eq!(m.line_height(10, 1_000), 0);
}

#[test]
fn lines_break_by_measured_widths() {
    let m = table();
    let style = TextStyle { font_size: 10, line_height: 1_500, alignment: Alignment::Left };
    let id = uuid::Uuid::new_v4();
    // "wide i" is 50 + 3 + 2 = 55 wide; "i i wide" is 2 + 3 + 2 + 3 + 50 = 60.
    let lines = LineBreaker::new(&m, 55).break_lines("wide i i i wide", &style, id);
    let texts: Vec<&str> = lines.iter().map(|l| l.fragments[0].text.as_str()).collect();
    assert_eq!(texts, vec!["wide i", "i i", "wide"]);
    let offsets: Vec<i64> = lines.iter().map(|l| l.y_offset).collect();
    assert_eq!(offsets, vec![0, 14, 28]);
    let lines = LineBreaker::new(&m, 60).break_lines("wide i i i wide", &style, id);
    let texts: Vec<&str> = lines.iter().map(|l| l.fragments[0].text.as_str()).collect();
    assert_eq!(texts, vec!["wide i i", "i wide"]);
}
