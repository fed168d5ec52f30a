use bookwriter_core::layout::config::{LayoutConfig, Margins, PageSize};
use bookwriter_core::layout::metrics::SimpleTextMetrics;
use bookwriter_core::layout::types::{Alignment, TextStyle, MAX_EXTENT, MAX_LENGTH, UNITS_PER_POINT};

#[test]
fn default_configuration() {
    let config = LayoutConfig::default();
    assert_eq!(config.page_size, PageSize::us_letter());
    assert_eq!(config.page_size.width, 612 * UNITS_PER_POINT);
    assert_eq!(config.page_size.height, 792 * UNITS_PER_POINT);
    assert_eq!(config.margins, Margins::uniform(72 * UNITS_PER_POINT));
    assert_eq!(
        config.body_style,
        TextStyle { font_size: 12_000, line_height: 1_500, alignment: Alignment::Left }
    );
    assert_eq!(
        config.chapter_title_style,
        TextStyle { font_size: 24_000, line_height: 1_200, alignment: Alignment::Left }
    );
    assert!(config.first_chapter_on_odd_page);
    assert_eq!(TextStyle::default(), config.body_style);
    assert_eq!(SimpleTextMetrics::default().avg_char_width_ratio, 600);
}

#[test]
fn page_sizes_and_margins() {
    assert_eq!(PageSize::us_letter(), PageSize { width: 612_000, height: 792_000 });
    assert_eq!(PageSize::a4(), PageSize { width: 595_000, height: 842_000 });
    assert_eq!(Margins::uniform(5), Margins { top: 5, bottom: 5, inner: 5, outer: 5 });
    assert_eq!(Margins::symmetric(3, 4), Margins { top: 3, bottom: 3, inner: 4, outer: 4 });
}

#[test]
fn limits() {
    assert_eq!(MAX_LENGTH, 1 << 40);
    assert_eq!(MAX_EXTENT, 1 << 62);
    let mut config = LayoutConfig::default();
    config.page_size.height = MAX_LENGTH;
    config.margins.top = -MAX_LENGTH;
    config.margins.bottom = -MAX_LENGTH;
    assert!(config.validate().is_ok());
    config.margins.bottom = -MAX_LENGTH - 1;
    assert!(config.validate().is_err());
    let mut config = LayoutConfig::default();
    config.body_style.font_size = 0;
    config.body_style.line_height = 0;
    assert!(config.validate().is_ok());
    config.body_style.font_size = MAX_LENGTH + 1;
    assert!(config.validate().is_err());
}
