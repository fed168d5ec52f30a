use bookwriter_core::layout::config::{LayoutConfig, LayoutError, Margins, PageSize};
use bookwriter_core::layout::metrics::{SimpleTextMetrics, TextMetrics};
use bookwriter_core::layout::paginator::Paginator;
use bookwriter_core::layout::types::{Alignment, FrameType, PageSide, RenderTree, TextStyle};
use bookwriter_core::layout::{layout_book, layout_book_with_metrics};
use bookwriter_core::models::Book;

#[test]
fn test_paginate_empty_book() {
    let book = Book::new("Empty".into(), "Author".into());
    let config = LayoutConfig::default();
    let metrics = SimpleTextMetrics::default();

    let mut paginator = Paginator::new(&config, &metrics);
    let result = paginator.paginate(&book);

    assert!(result.is_ok());
    let tree = result.unwrap();
    assert_eq!(tree.pages.len(), 0);
}

#[test]
fn test_paginate_simple_book() {
    let mut book = Book::new("Test".into(), "Author".into());
    book.add_chapter("Chapter 1".into(), "Short content.".into());

    let config = LayoutConfig::default();
    let metrics = SimpleTextMetrics::default();

    let mut paginator = Paginator::new(&config, &metrics);
    let result = paginator.paginate(&book);

    assert!(result.is_ok());
    let tree = result.unwrap();
    assert!(tree.pages.len() > 0);
    assert_eq!(tree.metadata.total_chapters, 1);
}

#[test]
fn test_paginate_creates_multiple_pages() {
    let mut book = Book::new("Long".into(), "Author".into());
    let long_content = "Lorem ipsum dolor sit amet. ".repeat(100);
    book.add_chapter("Ch1".into(), long_content);

    let config = LayoutConfig::default();
    let metrics = SimpleTextMetrics::default();

    let mut paginator = Paginator::new(&config, &metrics);
    let result = paginator.paginate(&book);

    assert!(result.is_ok());
    let tree = result.unwrap();
    assert!(tree.pages.len() > 1, "Expected multiple pages for long content");
}

#[test]
fn test_page_sides_alternate() {
    let mut book = Book::new("Test".into(), "Author".into());
    let content = "Content. ".repeat(200);
    book.add_chapter("Ch1".into(), content);

    let config = LayoutConfig::default();
    let metrics = SimpleTextMetrics::default();

    let mut paginator = Paginator::new(&config, &metrics);
    let tree = paginator.paginate(&book).unwrap();

    if tree.pages.len() >= 2 {
        assert_eq!(tree.pages[0].side, PageSide::Left);
        assert_eq!(tree.pages[1].side, PageSide::Right);
    }
}

/// A character is a tenth of the font size wide: one unit in body text,
/// two in a title.
fn tenth() -> SimpleTextMetrics {
    SimpleTextMetrics { avg_char_width_ratio: 100 }
}

/// A page 30 wide and 100 tall with margins 10 (top), 10 (bottom),
/// 6 (inner) and 4 (outer): 20 wide and 80 tall for text. Body lines are
/// 10 tall, title lines 20 tall with 20 of spacing.
fn small_config() -> LayoutConfig {
    LayoutConfig {
        page_size: PageSize { width: 30, height: 100 },
        margins: Margins { top: 10, bottom: 10, inner: 6, outer: 4 },
        body_style: TextStyle { font_size: 10, line_height: 1000, alignment: Alignment::Left },
        chapter_title_style: TextStyle {
            font_size: 20,
            line_height: 1000,
            alignment: Alignment::Left,
        },
        first_chapter_on_odd_page: true,
    }
}

fn words(n: usize) -> String {
    vec!["aaaaaaaaaaaaaaaaaaaa"; n].join(" ")
}

fn lay_out(book: &Book, config: &LayoutConfig) -> RenderTree {
    layout_book_with_metrics(book, config, &tenth()).unwrap()
}

#[test]
fn one_chapter_one_block_one_page() {
    let mut book = Book::new("Book".into(), "Author".into());
    book.add_chapter("Intro".into(), "Hello world".into());
    let config = LayoutConfig::default();
    let tree = layout_book(&book, &config).unwrap();
    assert_eq!(tree.book_id, book.id);
    assert_eq!(tree.pages.len(), 1);
    assert_eq!(tree.metadata.total_pages, 1);
    assert_eq!(tree.metadata.total_chapters, 1);
    let page = &tree.pages[0];
    assert_eq!(page.page_number, 1);
    assert_eq!(page.side, PageSide::Left);
    assert_eq!(page.frames.len(), 2);
    let title = &page.frames[0];
    assert_eq!(title.frame_type, FrameType::ChapterTitle);
    assert_eq!(title.lines.len(), 1);
    assert_eq!(title.lines[0].fragments[0].text, "Intro");
    assert_eq!(title.lines[0].fragments[0].style, config.chapter_title_style);
    assert_eq!(title.bounds.x, 72_000);
    assert_eq!(title.bounds.y, 72_000);
    assert_eq!(title.bounds.width, 468_000);
    assert_eq!(title.bounds.height, 28_800);
    let body = &page.frames[1];
    assert_eq!(body.frame_type, FrameType::BodyText);
    assert_eq!(body.lines.len(), 1);
    assert_eq!(body.lines[0].fragments[0].text, "Hello world");
    assert_eq!(body.lines[0].fragments[0].source_block_id, book.chapters[0].blocks[0].id);
    assert_eq!(body.bounds.x, 72_000);
    assert_eq!(body.bounds.y, 72_000 + 28_800 + 24_000);
    assert_eq!(body.bounds.width, 468_000);
    assert_eq!(body.bounds.height, 18_000);
    assert_ne!(title.id, body.id);
    // Identifiers are derived from the book's and the position.
    assert_eq!(title.id, uuid::Uuid::new_v5(&book.id, b"f0-0"));
    assert_eq!(body.id, uuid::Uuid::new_v5(&book.id, b"f0-1"));
    assert_eq!(
        title.lines[0].fragments[0].source_block_id,
        uuid::Uuid::new_v5(&book.id, b"t0")
    );
}

#[test]
fn long_block_is_split_at_line_boundaries() {
    let mut book = Book::new("Book".into(), "Author".into());
    // Twenty lines of body text, no title: eight lines fill a page.
    let content: Vec<String> = (0..20).map(|i| format!("{:020}", i)).collect();
    book.add_chapter("".into(), content.join(" "));
    let tree = lay_out(&book, &small_config());
    assert_eq!(tree.pages.len(), 3);
    assert_eq!(tree.metadata.total_pages, 3);
    let counts: Vec<usize> = tree.pages.iter().map(|p| p.frames[0].lines.len()).collect();
    assert_eq!(counts, vec![8, 8, 4]);
    let mut seen: Vec<String> = Vec::new();
    for (i, page) in tree.pages.iter().enumerate() {
        assert_eq!(page.page_number, i + 1);
        assert_eq!(page.frames.len(), 1);
        let frame = &page.frames[0];
        assert_eq!(frame.frame_type, FrameType::BodyText);
        assert_eq!(frame.bounds.y, 10);
        // A left-hand page has the outer margin at its left, a
        // right-hand page the inner one.
        assert_eq!(frame.bounds.x, if i % 2 == 0 { 4 } else { 6 });
        assert_eq!(frame.id, uuid::Uuid::new_v5(&book.id, format!("f{}-0", i).as_bytes()));
        for (j, line) in frame.lines.iter().enumerate() {
            assert_eq!(line.y_offset, 10 * j as i64);
        }
        assert_eq!(frame.bounds.width, 20);
        assert_eq!(frame.bounds.height, 10 * frame.lines.len() as i64);
        for line in &frame.lines {
            seen.push(line.fragments[0].text.clone());
        }
    }
    assert_eq!(seen, content);
    // Offsets are counted from the top of each frame.
    assert_eq!(tree.pages[1].frames[0].lines[0].y_offset, 0);
    assert_eq!(tree.pages[2].frames[0].lines[3].y_offset, 30);
}

#[test]
fn pages_alternate_sides_from_the_left() {
    let mut book = Book::new("Book".into(), "Author".into());
    book.add_chapter("".into(), words(40));
    let tree = lay_out(&book, &small_config());
    assert_eq!(tree.pages.len(), 5);
    for (i, page) in tree.pages.iter().enumerate() {
        assert_eq!(page.page_number, i + 1);
        let side = if i % 2 == 0 { PageSide::Left } else { PageSide::Right };
        assert_eq!(page.side, side);
    }
}

#[test]
fn later_chapters_start_on_right_pages() {
    let mut book = Book::new("Book".into(), "Author".into());
    book.add_chapter("One".into(), "a".into());
    book.add_chapter("Two".into(), words(10));
    book.add_chapter("Three".into(), "c".into());
    let tree = lay_out(&book, &small_config());
    // Chapter one: page 1 (left). Chapter two is forced onto page 2
    // (right) and runs on to page 3 (left), which is closed as it is so
    // that chapter three starts on page 4 (right).
    assert_eq!(tree.pages.len(), 4);
    assert_eq!(tree.metadata.total_chapters, 3);
    let title_pages: Vec<usize> = tree
        .pages
        .iter()
        .filter(|p| p.frames.iter().any(|f| f.frame_type == FrameType::ChapterTitle))
        .map(|p| p.page_number)
        .collect();
    assert_eq!(title_pages, vec![1, 2, 4]);
    assert_eq!(tree.pages[1].side, PageSide::Right);
    assert_eq!(tree.pages[3].side, PageSide::Right);
    assert_eq!(tree.pages[1].frames[0].lines[0].fragments[0].text, "Two");
    assert_eq!(tree.pages[3].frames[0].lines[0].fragments[0].text, "Three");
    // Page 2: title (40) and four body lines; page 3: the other six.
    assert_eq!(tree.pages[1].frames[1].lines.len(), 4);
    assert_eq!(tree.pages[1].frames[1].bounds.y, 10 + 40);
    assert_eq!(tree.pages[2].frames[0].lines.len(), 6);
}

#[test]
fn chapters_share_pages_where_not_forced() {
    let mut config = small_config();
    config.first_chapter_on_odd_page = false;
    let mut book = Book::new("Book".into(), "Author".into());
    book.add_chapter("One".into(), "a".into());
    book.add_chapter("Two".into(), "b".into());
    let tree = lay_out(&book, &config);
    // One page holds title (40), line (10), and then 30 are left: the
    // second title needs 40 and moves to page 2.
    assert_eq!(tree.pages.len(), 2);
    assert_eq!(tree.pages[0].frames.len(), 2);
    assert_eq!(tree.pages[1].frames.len(), 2);
    assert_eq!(tree.pages[1].frames[0].frame_type, FrameType::ChapterTitle);
    assert_eq!(tree.pages[1].frames[0].bounds.y, 10);
    assert_eq!(tree.pages[1].frames[1].bounds.y, 50);
}

#[test]
fn title_that_does_not_fit_a_right_page_moves_to_the_left() {
    let mut book = Book::new("Book".into(), "Author".into());
    // Chapter one ends on page 2 (right) with 50 filled; the title of
    // chapter two needs 40 and only 30 are left.
    book.add_chapter("".into(), words(13));
    book.add_chapter("Two".into(), "b".into());
    let tree = lay_out(&book, &small_config());
    assert_eq!(tree.pages.len(), 3);
    assert_eq!(tree.pages[1].frames[0].lines.len(), 5);
    assert_eq!(tree.pages[2].side, PageSide::Left);
    assert_eq!(tree.pages[2].frames[0].frame_type, FrameType::ChapterTitle);
}

#[test]
fn empty_titles_and_blocks_leave_no_frame() {
    let mut book = Book::new("Book".into(), "Author".into());
    book.add_chapter("".into(), "   ".into());
    book.add_chapter("  ".into(), "".into());
    let mut config = small_config();
    config.first_chapter_on_odd_page = false;
    let tree = lay_out(&book, &config);
    assert_eq!(tree.pages.len(), 0);
    assert_eq!(tree.metadata.total_pages, 0);
    assert_eq!(tree.metadata.total_chapters, 2);
    // Where chapters start on right-hand pages, the second chapter closes
    // the left-hand page under construction, empty as it is.
    let tree = lay_out(&book, &small_config());
    assert_eq!(tree.pages.len(), 1);
    assert_eq!(tree.pages[0].frames.len(), 0);
    assert_eq!(tree.metadata.total_pages, 1);
}

#[test]
fn tall_title_overflows_a_fresh_page() {
    let mut book = Book::new("Book".into(), "Author".into());
    // Four title lines of 20 and 20 of spacing: 100, more than the 80 of
    // a page.
    // The page under construction is closed, though empty, and the
    // title is placed on the next whether it fits or not.
    book.add_chapter(words(4), "b".into());
    let tree = lay_out(&book, &small_config());
    assert_eq!(tree.pages.len(), 3);
    assert_eq!(tree.pages[0].frames.len(), 0);
    assert_eq!(tree.pages[1].frames.len(), 1);
    assert_eq!(tree.pages[1].frames[0].frame_type, FrameType::ChapterTitle);
    assert_eq!(tree.pages[1].frames[0].bounds.y, 10);
    assert_eq!(tree.pages[1].frames[0].bounds.height, 80);
    assert_eq!(tree.pages[2].frames[0].frame_type, FrameType::BodyText);
    assert_eq!(tree.pages[2].frames[0].bounds.y, 10);
}

/// Everything a tree holds, written out.
fn written(tree: &RenderTree) -> String {
    format!("{:?}", tree)
}

#[test]
fn same_input_same_layout() {
    let mut book = Book::new("Book".into(), "Author".into());
    book.add_chapter("One".into(), words(12));
    book.add_chapter("Two".into(), "b c d".into());
    let first = lay_out(&book, &small_config());
    let second = lay_out(&book, &small_config());
    assert!(first.pages.len() > 1);
    assert_eq!(written(&first), written(&second));
    for (p, q) in first.pages.iter().zip(second.pages.iter()) {
        for (f, g) in p.frames.iter().zip(q.frames.iter()) {
            assert_eq!(f.id, g.id);
            for (l, m) in f.lines.iter().zip(g.lines.iter()) {
                assert_eq!(l.fragments[0].source_block_id, m.fragments[0].source_block_id);
            }
        }
    }
    // A paginator that is used twice gives the same tree twice.
    let config = small_config();
    let metrics = tenth();
    let mut paginator = Paginator::new(&config, &metrics);
    let third = paginator.paginate(&book).unwrap();
    let fourth = paginator.paginate(&book).unwrap();
    assert_eq!(written(&first), written(&third));
    assert_eq!(written(&third), written(&fourth));
}

#[test]
fn frames_have_identifiers_of_their_own() {
    let mut book = Book::new("Book".into(), "Author".into());
    book.add_chapter("One".into(), words(12));
    book.add_chapter("Two".into(), words(9));
    let tree = lay_out(&book, &small_config());
    let mut ids: Vec<uuid::Uuid> = Vec::new();
    for (p, page) in tree.pages.iter().enumerate() {
        for (i, frame) in page.frames.iter().enumerate() {
            assert_eq!(
                frame.id,
                uuid::Uuid::new_v5(&book.id, format!("f{}-{}", p, i).as_bytes())
            );
            assert!(!ids.contains(&frame.id));
            ids.push(frame.id);
        }
    }
    assert!(ids.len() > 3);
}

#[test]
fn frames_stand_at_the_left_margin_of_their_page() {
    let mut book = Book::new("Book".into(), "Author".into());
    book.add_chapter("Intro".into(), "Lorem ipsum dolor sit amet. ".repeat(200));
    book.add_chapter("Next".into(), "Hello world".into());
    let mut config = LayoutConfig::default();
    config.margins.inner = 72_000;
    config.margins.outer = 36_000;
    let tree = layout_book(&book, &config).unwrap();
    assert!(tree.pages.len() >= 3);
    assert_eq!(tree.pages[0].side, PageSide::Left);
    assert_eq!(tree.pages[0].frames[0].frame_type, FrameType::ChapterTitle);
    assert_eq!(tree.pages[0].frames[0].bounds.x, 36_000);
    for page in &tree.pages {
        for frame in &page.frames {
            let x = if page.side == PageSide::Left { 36_000 } else { 72_000 };
            assert_eq!(frame.bounds.x, x);
            assert_eq!(frame.bounds.width, 612_000 - 72_000 - 36_000);
        }
    }
    // The second chapter's title fits the right-hand page it is forced
    // onto, and stands at the inner margin there.
    let last = tree.pages.last().unwrap();
    assert_eq!(last.side, PageSide::Right);
    assert_eq!(last.frames[0].frame_type, FrameType::ChapterTitle);
    assert_eq!(last.frames[0].bounds.x, 72_000);
}

#[test]
fn title_moved_to_the_next_page_stands_at_the_margin_of_that_page() {
    let mut book = Book::new("Book".into(), "Author".into());
    // The title does not fit what is left of page 2 (right) and moves
    // to page 3 (left), where the outer margin is at the left.
    book.add_chapter("".into(), words(13));
    book.add_chapter("Two".into(), "b".into());
    let tree = lay_out(&book, &small_config());
    assert_eq!(tree.pages[2].side, PageSide::Left);
    assert_eq!(tree.pages[2].frames[0].frame_type, FrameType::ChapterTitle);
    assert_eq!(tree.pages[2].frames[0].bounds.x, 4);
    assert_eq!(tree.pages[1].frames[0].bounds.x, 6);
}

#[test]
fn offsets_restart_in_every_frame() {
    let mut book = Book::new("Book".into(), "Author".into());
    // Five lines of one word, two to a page: 12-point text at 1.5 is
    // 18 points a line, and 36 points are left between the margins.
    book.add_chapter("".into(), "one two three four five".into());
    let mut config = LayoutConfig::default();
    config.page_size = PageSize { width: 100_000, height: 100_000 };
    config.margins = Margins { top: 32_000, bottom: 32_000, inner: 30_000, outer: 30_000 };
    let tree = layout_book(&book, &config).unwrap();
    let counts: Vec<usize> = tree.pages.iter().map(|p| p.frames[0].lines.len()).collect();
    assert_eq!(counts, vec![2, 2, 1]);
    let mut texts: Vec<String> = Vec::new();
    for page in &tree.pages {
        let frame = &page.frames[0];
        assert_eq!(frame.bounds.height, 18_000 * frame.lines.len() as i64);
        for (j, line) in frame.lines.iter().enumerate() {
            assert_eq!(line.y_offset, 18_000 * j as i64);
            texts.push(line.fragments[0].text.clone());
        }
    }
    assert_eq!(texts, vec!["one", "two", "three", "four", "five"]);
}

#[test]
fn a_paginator_can_be_used_again() {
    let mut book = Book::new("Book".into(), "Author".into());
    book.add_chapter("One".into(), words(12));
    let config = small_config();
    let metrics = tenth();
    let mut paginator = Paginator::new(&config, &metrics);
    let first = paginator.paginate(&book).unwrap();
    let second = paginator.paginate(&book).unwrap();
    assert_eq!(first.pages.len(), second.pages.len());
    assert_eq!(second.pages[0].page_number, 1);
}

fn error_of(config: &LayoutConfig, book: &Book) -> LayoutError {
    layout_book_with_metrics(book, config, &tenth()).unwrap_err()
}

#[test]
fn bad_configurations_are_refused() {
    let book = Book::new("Book".into(), "Author".into());
    let good = small_config();
    assert!(good.validate().is_ok());
    assert!(LayoutConfig::default().validate().is_ok());

    let mut config = good;
    config.page_size.width = 1_099_511_627_777;
    assert_eq!(config.validate(), Err(LayoutError::GeometryOutOfRange));
    assert_eq!(error_of(&config, &book), LayoutError::GeometryOutOfRange);

    let mut config = good;
    config.body_style.font_size = -1;
    assert_eq!(config.validate(), Err(LayoutError::InvalidFontSize));
    assert_eq!(error_of(&config, &book), LayoutError::InvalidFontSize);

    let mut config = good;
    config.chapter_title_style.line_height = -1;
    assert_eq!(config.validate(), Err(LayoutError::InvalidLineHeight));
    assert_eq!(error_of(&config, &book), LayoutError::InvalidLineHeight);

    let mut config = good;
    config.margins.inner = 26;
    assert_eq!(config.validate(), Err(LayoutError::NoLineWidth));
    assert_eq!(error_of(&config, &book), LayoutError::NoLineWidth);
    config.margins.inner = 25;
    assert!(config.validate().is_ok());

    let mut config = good;
    config.body_style.font_size = 81;
    assert!(config.validate().is_ok());
    assert_eq!(error_of(&config, &book), LayoutError::LineTallerThanPage);
    config.body_style.font_size = 80;
    assert!(layout_book_with_metrics(&book, &config, &tenth()).is_ok());
}

#[test]
fn long_texts_are_refused() {
    let mut book = Book::new("Book".into(), "Author".into());
    let mut config = small_config();
    // A title line of 2^61 units: 2^40 * (2^21 * 1000) / 1000.
    config.chapter_title_style.font_size = 1 << 40;
    config.chapter_title_style.line_height = (1 << 21) * 1000;
    assert!(config.validate().is_ok());
    assert_eq!(tenth().line_height(1 << 40, (1 << 21) * 1000), 1 << 61);
    assert!(layout_book_with_metrics(&book, &config, &tenth()).is_ok());
    book.add_chapter("a".into(), "b".into());
    // One line and the spacing: 2^61 + 2^40, within 2^62.
    let tree = layout_book_with_metrics(&book, &config, &tenth()).unwrap();
    assert_eq!(tree.pages.len(), 3);
    assert_eq!(tree.pages[1].frames[0].bounds.height, 1 << 61);
    // Two characters could be two lines: 2^62 + 2^40 is beyond.
    book.add_chapter("ab".into(), "b".into());
    assert_eq!(
        layout_book_with_metrics(&book, &config, &tenth()).unwrap_err(),
        LayoutError::TextTooLong
    );
}
