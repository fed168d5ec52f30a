//! What holds of every page and every frame of a layout: pages are
//! numbered and alternate sides, a frame is as tall as its lines, and
//! body text stays within the page's content.

use super::config::LayoutConfig;
use super::line_breaker::{broken_lines, lemma_lines_name_source};
use super::metrics::TextMetrics;
use super::page_growth::lemma_with_chapters_grows;
use super::pagination::{
    at_chapter_start, body_line, can_lay_out, closed_page, current_width, fit_count, frame_id,
    laid_out, left_margin, lemma_fit_count, numbered, rebased, remaining, side_of, title_line,
    title_source, with_blocks, with_chapter_title, with_chapters, with_frame, with_lines,
    with_title, PageState,
};
use super::types::{FrameType, FrameView, LineView, PageView};
use crate::models::{Block, Book, Chapter};
use uuid::Uuid;
use vstd::prelude::*;

verus! {

/// The height of a line in a frame of the given kind.
pub open spec fn line_height_in<M: TextMetrics>(
    config: LayoutConfig,
    metrics: &M,
    frame_type: FrameType,
) -> int {
    match frame_type {
        FrameType::ChapterTitle => title_line(config, metrics),
        _ => body_line(config, metrics),
    }
}

/// What holds of the frame at position `index` of the page with the
/// index `page`: it has the identifier of its position, begins at the
/// left margin of its page, the outer one on a left-hand page and the
/// inner one on a right-hand page, is as wide as the content, lies below
/// the top margin, holds a line, is as tall as its lines together, and
/// its line `j` lies `j` line heights below its top. A frame of body
/// text also ends above the bottom margin.
pub open spec fn frame_sound<M: TextMetrics>(
    config: LayoutConfig,
    metrics: &M,
    book_id: Uuid,
    page: int,
    index: int,
    frame: FrameView,
) -> bool {
    &&& frame.id == frame_id(book_id, page as nat, index as nat)
    &&& frame.bounds.x == left_margin(config, side_of(page))
    &&& frame.bounds.width == config.content_width()
    &&& frame.bounds.y >= config.margins.top
    &&& frame.lines.len() > 0
    &&& frame.frame_type != FrameType::PageNumber
    &&& frame.bounds.height == frame.lines.len() * line_height_in(
        config,
        metrics,
        frame.frame_type,
    )
    &&& forall|j: int|
        0 <= j < frame.lines.len() ==> (#[trigger] frame.lines[j]).y_offset == j
            * line_height_in(config, metrics, frame.frame_type)
    &&& frame.frame_type == FrameType::BodyText ==> frame.bounds.y + frame.bounds.height
        <= config.margins.top + config.content_height()
}

/// Whether every frame of the page with the index `page` is sound.
pub open spec fn frames_sound<M: TextMetrics>(
    config: LayoutConfig,
    metrics: &M,
    book_id: Uuid,
    page: int,
    frames: Seq<FrameView>,
) -> bool {
    forall|i: int|
        0 <= i < frames.len() ==> frame_sound(config, metrics, book_id, page, i, #[trigger] frames[i])
}

/// Whether the pages are numbered and every frame on them is sound.
pub open spec fn pages_sound<M: TextMetrics>(
    config: LayoutConfig,
    metrics: &M,
    book_id: Uuid,
    pages: Seq<PageView>,
) -> bool {
    &&& numbered(pages)
    &&& forall|p: int|
        0 <= p < pages.len() ==> frames_sound(
            config,
            metrics,
            book_id,
            p,
            (#[trigger] pages[p]).frames,
        )
}

/// Whether a state is sound: its pages and frames are, and the fill line
/// is not above the top of the content.
pub open spec fn state_sound<M: TextMetrics>(
    config: LayoutConfig,
    metrics: &M,
    state: PageState,
) -> bool {
    &&& state.y >= 0
    &&& pages_sound(config, metrics, state.book_id, state.pages)
    &&& frames_sound(config, metrics, state.book_id, state.pages.len() as int, state.frames)
}

/// Closing the page keeps the state sound.
proof fn lemma_closed_page_sound<M: TextMetrics>(
    config: LayoutConfig,
    metrics: &M,
    state: PageState,
)
    requires
        state_sound(config, metrics, state),
    ensures
        state_sound(config, metrics, closed_page(state)),
{
    let later = closed_page(state);
    assert forall|p: int| 0 <= p < later.pages.len() implies (#[trigger] later.pages[p]).page_number
        == p + 1 && later.pages[p].side == side_of(p) && frames_sound(
        config,
        metrics,
        later.book_id,
        p,
        later.pages[p].frames,
    ) by {
        if p < state.pages.len() {
            assert(later.pages[p] == state.pages[p]);
        }
    }
}

/// Adding a sound frame and moving the fill line down keeps the state
/// sound.
proof fn lemma_with_frame_sound<M: TextMetrics>(
    config: LayoutConfig,
    metrics: &M,
    state: PageState,
    width: int,
    height: int,
    advance: int,
    lines: Seq<LineView>,
    frame_type: FrameType,
)
    requires
        state_sound(config, metrics, state),
        advance >= 0,
        frame_sound(
            config,
            metrics,
            state.book_id,
            state.pages.len() as int,
            state.frames.len() as int,
            with_frame(config, state, width, height, advance, lines, frame_type).frames.last(),
        ),
    ensures
        state_sound(
            config,
            metrics,
            with_frame(config, state, width, height, advance, lines, frame_type),
        ),
{
    let later = with_frame(config, state, width, height, advance, lines, frame_type);
    assert forall|i: int| 0 <= i < later.frames.len() implies frame_sound(
        config,
        metrics,
        later.book_id,
        later.pages.len() as int,
        i,
        #[trigger] later.frames[i],
    ) by {
        if i < state.frames.len() {
            assert(later.frames[i] == state.frames[i]);
        }
    }
}

/// Placing a title keeps the state sound.
proof fn lemma_with_title_sound<M: TextMetrics>(
    config: LayoutConfig,
    metrics: &M,
    state: PageState,
    lines: Seq<LineView>,
)
    requires
        can_lay_out(config, metrics),
        state_sound(config, metrics, state),
        forall|j: int|
            0 <= j < lines.len() ==> (#[trigger] lines[j]).y_offset == j * title_line(
                config,
                metrics,
            ),
    ensures
        state_sound(config, metrics, with_title(config, title_line(config, metrics), state, lines)),
{
    let line_height = title_line(config, metrics);
    if lines.len() > 0 {
        let height = lines.len() * line_height;
        let spaced = height + config.chapter_title_style.font_size;
        assert(height >= 0) by (nonlinear_arith)
            requires
                height == lines.len() * line_height,
                line_height >= 0,
        ;
        let start = if remaining(config, state) >= spaced {
            state
        } else {
            closed_page(state)
        };
        if start != state {
            lemma_closed_page_sound(config, metrics, state);
        }
        lemma_with_frame_sound(
            config,
            metrics,
            start,
            current_width(config, state),
            height,
            spaced,
            lines,
            FrameType::ChapterTitle,
        );
    }
}

/// Placing lines keeps the state sound.
proof fn lemma_with_lines_sound<M: TextMetrics>(
    config: LayoutConfig,
    metrics: &M,
    state: PageState,
    lines: Seq<LineView>,
)
    requires
        can_lay_out(config, metrics),
        state_sound(config, metrics, state),
    ensures
        state_sound(config, metrics, with_lines(config, body_line(config, metrics), state, lines)),
    decreases lines.len(), (if remaining(config, state) >= body_line(config, metrics) {
        0int
    } else {
        1int
    }),
{
    let line_height = body_line(config, metrics);
    if lines.len() > 0 {
        let fit = fit_count(remaining(config, state), line_height, lines.len() as int);
        lemma_fit_count(remaining(config, state), line_height, lines.len() as int);
        if fit == 0 {
            lemma_closed_page_sound(config, metrics, state);
            lemma_with_lines_sound(config, metrics, closed_page(state), lines);
        } else {
            let placed = with_frame(
                config,
                state,
                current_width(config, state),
                fit * line_height,
                fit * line_height,
                rebased(lines.take(fit), line_height),
                FrameType::BodyText,
            );
            assert(fit * line_height >= 0) by (nonlinear_arith)
                requires
                    fit >= 0,
                    line_height >= 0,
            ;
            lemma_with_frame_sound(
                config,
                metrics,
                state,
                current_width(config, state),
                fit * line_height,
                fit * line_height,
                rebased(lines.take(fit), line_height),
                FrameType::BodyText,
            );
            if fit < lines.len() {
                lemma_closed_page_sound(config, metrics, placed);
                lemma_with_lines_sound(config, metrics, closed_page(placed), lines.skip(fit));
            }
        }
    }
}

/// Placing blocks keeps the state sound.
proof fn lemma_with_blocks_sound<M: TextMetrics>(
    config: LayoutConfig,
    metrics: &M,
    state: PageState,
    blocks: Seq<Block>,
)
    requires
        can_lay_out(config, metrics),
        state_sound(config, metrics, state),
    ensures
        state_sound(config, metrics, with_blocks(config, metrics, state, blocks)),
    decreases blocks.len(),
{
    if blocks.len() > 0 {
        let before = with_blocks(config, metrics, state, blocks.drop_last());
        lemma_with_blocks_sound(config, metrics, state, blocks.drop_last());
        lemma_with_lines_sound(
            config,
            metrics,
            before,
            broken_lines(
                metrics,
                current_width(config, before),
                blocks.last().content@,
                config.body_style,
                blocks.last().id,
            ),
        );
    }
}

/// Placing chapters keeps the state sound.
proof fn lemma_with_chapters_sound<M: TextMetrics>(
    config: LayoutConfig,
    metrics: &M,
    book_id: Uuid,
    chapters: Seq<Chapter>,
    count: int,
)
    requires
        can_lay_out(config, metrics),
    ensures
        state_sound(config, metrics, with_chapters(config, metrics, book_id, chapters, count)),
    decreases count,
{
    if count > 0 {
        let before = with_chapters(config, metrics, book_id, chapters, count - 1);
        lemma_with_chapters_sound(config, metrics, book_id, chapters, count - 1);
        let start = at_chapter_start(config, before, count - 1);
        if start != before {
            lemma_closed_page_sound(config, metrics, before);
        }
        let title = broken_lines(
            metrics,
            current_width(config, start),
            chapters[count - 1].title@,
            config.chapter_title_style,
            title_source(book_id, (count - 1) as nat),
        );
        assert forall|j: int| 0 <= j < title.len() implies (#[trigger] title[j]).y_offset == j
            * title_line(config, metrics) by {
            lemma_lines_name_source(
                metrics,
                current_width(config, start),
                chapters[count - 1].title@,
                config.chapter_title_style,
                title_source(book_id, (count - 1) as nat),
                j,
            );
        }
        lemma_with_title_sound(
            config,
            metrics,
            start,
            broken_lines(
                metrics,
                current_width(config, start),
                chapters[count - 1].title@,
                config.chapter_title_style,
                title_source(book_id, (count - 1) as nat),
            ),
        );
        lemma_with_blocks_sound(
            config,
            metrics,
            with_chapter_title(config, metrics, start, chapters[count - 1].title@, title_source(book_id, (count - 1) as nat)),
            chapters[count - 1].blocks@,
        );
    }
}

/// In every layout the pages are numbered from one and alternate sides
/// from the left, and every frame is sound: as tall as its lines, and,
/// where it holds body text, within the page's content.
pub proof fn lemma_layout_sound<M: TextMetrics>(
    book: Book,
    config: LayoutConfig,
    metrics: &M,
)
    requires
        can_lay_out(config, metrics),
    ensures
        pages_sound(config, metrics, book.id, laid_out(book, config, metrics).pages),
{
    let last = with_chapters(config, metrics, book.id, book.chapters@,
        book.chapters@.len() as int,
    );
    lemma_with_chapters_sound(config, metrics, book.id, book.chapters@, book.chapters@.len() as int);
    lemma_with_chapters_grows(config, metrics, book.id, book.chapters@, 0, book.chapters@.len() as int);
    assert(last.book_id == book.id);
    if last.frames.len() > 0 {
        lemma_closed_page_sound(config, metrics, last);
    }
}

} // verus!
