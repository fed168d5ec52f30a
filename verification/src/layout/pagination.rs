//! What pagination computes, as a function of the book, the
//! configuration and the metrics: titles and lines are placed on the page
//! under construction and pages are closed as they fill.

use super::config::{LayoutConfig, LayoutError};
use super::line_breaker::broken_lines;
use super::metrics::TextMetrics;
use super::types::{
    Bounds, FrameType, FrameView, LineView, PageSide, PageView, RenderMetadata, TreeView,
    MAX_EXTENT,
};
use crate::ids::v5_uuid;
use crate::models::{
    decimal, lemma_decimal_digits, lemma_decimal_is_one_to_one, Block, Book, Chapter,
};
use uuid::Uuid;
use vstd::prelude::*;

verus! {

/// The pages closed so far of the book with the given identifier, and
/// the page under construction: its frames and how far down it is
/// filled.
pub struct PageState {
    pub book_id: Uuid,
    pub pages: Seq<PageView>,
    pub frames: Seq<FrameView>,
    pub y: int,
}

/// The side of the page with the given index, counted from zero: left
/// for the even ones, right for the odd ones.
pub open spec fn side_of(index: int) -> PageSide {
    if index % 2 == 0 {
        PageSide::Left
    } else {
        PageSide::Right
    }
}

/// The margin at the left of a page: the outer one on a left-hand page,
/// the inner one on a right-hand page.
pub open spec fn left_margin(config: LayoutConfig, side: PageSide) -> int {
    match side {
        PageSide::Left => config.margins.outer as int,
        PageSide::Right => config.margins.inner as int,
    }
}

/// The margin at the right of a page, the mirror image of the left one.
pub open spec fn right_margin(config: LayoutConfig, side: PageSide) -> int {
    match side {
        PageSide::Left => config.margins.inner as int,
        PageSide::Right => config.margins.outer as int,
    }
}

/// The width for text on a page of the given side.
pub open spec fn page_width(config: LayoutConfig, side: PageSide) -> int {
    config.page_size.width - left_margin(config, side) - right_margin(config, side)
}

/// The height of a line of chapter title.
pub open spec fn title_line<M: TextMetrics>(config: LayoutConfig, metrics: &M) -> int {
    metrics.line_height_of(
        config.chapter_title_style.font_size as int,
        config.chapter_title_style.line_height as int,
    )
}

/// The height of a line of body text.
pub open spec fn body_line<M: TextMetrics>(config: LayoutConfig, metrics: &M) -> int {
    metrics.line_height_of(config.body_style.font_size as int, config.body_style.line_height as int)
}

/// The name that the identifier of a frame is derived from: `f`, the
/// index of the frame's page in decimal, a hyphen, and the index of the
/// frame on its page in decimal, both counted from zero.
pub open spec fn frame_name(page: nat, index: nat) -> Seq<u8> {
    seq![0x66u8] + decimal(page) + seq![0x2Du8] + decimal(index)
}

/// The identifier of the frame at position `index` of the page with the
/// index `page`, in the layout of the book `book_id`.
pub open spec fn frame_id(book_id: Uuid, page: nat, index: nat) -> Uuid {
    v5_uuid(book_id, frame_name(page, index))
}

/// Frames at different positions have different names: no two frames of
/// a layout are given the same name to derive their identifiers from.
pub proof fn lemma_frame_names_differ(page: nat, index: nat, other_page: nat, other_index: nat)
    requires
        frame_name(page, index) == frame_name(other_page, other_index),
    ensures
        page == other_page,
        index == other_index,
{
    let a = decimal(page);
    let b = decimal(index);
    let c = decimal(other_page);
    let d = decimal(other_index);
    let left = frame_name(page, index);
    let right = frame_name(other_page, other_index);
    lemma_decimal_digits(page);
    lemma_decimal_digits(index);
    lemma_decimal_digits(other_page);
    lemma_decimal_digits(other_index);
    assert(left.len() == 2 + a.len() + b.len());
    assert(right.len() == 2 + c.len() + d.len());
    if a.len() < c.len() {
        assert(left[1 + a.len() as int] == 0x2Du8);
        assert(right[1 + a.len() as int] == c[a.len() as int]);
    } else if c.len() < a.len() {
        assert(right[1 + c.len() as int] == 0x2Du8);
        assert(left[1 + c.len() as int] == a[c.len() as int]);
    } else {
        assert(a =~= c) by {
            assert forall|i: int| 0 <= i < a.len() implies a[i] == c[i] by {
                assert(left[1 + i] == a[i]);
                assert(right[1 + i] == c[i]);
            }
        }
        assert(b =~= d) by {
            assert forall|i: int| 0 <= i < b.len() implies b[i] == d[i] by {
                assert(left[2 + a.len() + i] == b[i]);
                assert(right[2 + c.len() + i] == d[i]);
            }
        }
        lemma_decimal_is_one_to_one(page, other_page);
        lemma_decimal_is_one_to_one(index, other_index);
    }
}

/// The name that the source of a chapter's title is derived from: `t`
/// and the chapter's position in decimal, counted from zero.
pub open spec fn title_name(chapter: nat) -> Seq<u8> {
    seq![0x74u8] + decimal(chapter)
}

/// The source that the fragments of the title of the chapter at position
/// `chapter` name, which stands for the title as a block's identifier
/// stands for the block.
pub open spec fn title_source(book_id: Uuid, chapter: nat) -> Uuid {
    v5_uuid(book_id, title_name(chapter))
}

/// The lines with offsets counted from the first of them: line `j` lies
/// `j` line heights below the top.
pub open spec fn rebased(lines: Seq<LineView>, line_height: int) -> Seq<LineView> {
    Seq::new(
        lines.len(),
        |j: int| LineView { y_offset: j * line_height, fragments: lines[j].fragments },
    )
}

/// The state before anything of the book is placed.
pub open spec fn blank(book_id: Uuid) -> PageState {
    PageState { book_id: book_id, pages: Seq::empty(), frames: Seq::empty(), y: 0 }
}

/// The width for text on the page under construction.
pub open spec fn current_width(config: LayoutConfig, state: PageState) -> int {
    page_width(config, side_of(state.pages.len() as int))
}

/// What is left of the height of the page under construction.
pub open spec fn remaining(config: LayoutConfig, state: PageState) -> int {
    config.content_height() - state.y
}

/// The state after the page under construction is closed: it joins the
/// pages with the next number and the side of its index, and an empty
/// page is begun.
pub open spec fn closed_page(state: PageState) -> PageState {
    PageState {
        book_id: state.book_id,
        pages: state.pages.push(
            PageView {
                page_number: (state.pages.len() + 1) as int,
                side: side_of(state.pages.len() as int),
                frames: state.frames,
            },
        ),
        frames: Seq::empty(),
        y: 0,
    }
}

/// The state with one more frame of the given kind on the page under
/// construction, at the left margin of that page and at the fill line,
/// and the fill line moved down by `advance`. The frame's identifier is
/// derived from the book's and the frame's position.
pub open spec fn with_frame(
    config: LayoutConfig,
    state: PageState,
    width: int,
    height: int,
    advance: int,
    lines: Seq<LineView>,
    frame_type: FrameType,
) -> PageState {
    PageState {
        book_id: state.book_id,
        pages: state.pages,
        frames: state.frames.push(
            FrameView {
                id: frame_id(state.book_id, state.pages.len(), state.frames.len()),
                bounds: Bounds {
                    x: left_margin(config, side_of(state.pages.len() as int)),
                    y: config.margins.top + state.y,
                    width: width,
                    height: height,
                },
                lines: lines,
                frame_type: frame_type,
            },
        ),
        y: state.y + advance,
    }
}

/// The state after a chapter title of the given lines is placed. No
/// lines, no change. Else the title takes the height of its lines and
/// one font size of spacing below; where that does not fit what is left
/// of the page, the page is closed first.
pub open spec fn with_title(
    config: LayoutConfig,
    line_height: int,
    state: PageState,
    lines: Seq<LineView>,
) -> PageState {
    if lines.len() == 0 {
        state
    } else {
        let height = lines.len() * line_height;
        let spaced = height + config.chapter_title_style.font_size;
        let start = if remaining(config, state) >= spaced {
            state
        } else {
            closed_page(state)
        };
        with_frame(
            config,
            start,
            current_width(config, state),
            height,
            spaced,
            lines,
            FrameType::ChapterTitle,
        )
    }
}

/// How many of `count` lines of the given height fit into `available`,
/// taken one by one.
pub open spec fn fit_count(available: int, line_height: int, count: int) -> int
    decreases count,
{
    if count <= 0 || line_height > available {
        0
    } else {
        1 + fit_count(available - line_height, line_height, count - 1)
    }
}

/// `fit_count` takes none of the lines exactly where there is none or the
/// first does not fit, never more than there are, and only as many as
/// fit together.
pub proof fn lemma_fit_count(available: int, line_height: int, count: int)
    requires
        line_height >= 0,
    ensures
        0 <= fit_count(available, line_height, count),
        count >= 0 ==> fit_count(available, line_height, count) <= count,
        fit_count(available, line_height, count) == 0 <==> count <= 0 || line_height > available,
        fit_count(available, line_height, count) > 0 ==> fit_count(available, line_height, count)
            * line_height <= available,
        0 <= fit_count(available, line_height, count) < count ==> (fit_count(
            available,
            line_height,
            count,
        ) + 1) * line_height > available,
    decreases count,
{
    if count <= 0 || line_height > available {
    } else {
        lemma_fit_count(available - line_height, line_height, count - 1);
        let rest = fit_count(available - line_height, line_height, count - 1);
        assert((1 + rest) * line_height == line_height + rest * line_height)
            by (nonlinear_arith);
        assert((1 + rest + 1) * line_height == line_height + (rest + 1) * line_height)
            by (nonlinear_arith);
        assert(rest * line_height >= 0) by (nonlinear_arith)
            requires
                rest >= 0,
                line_height >= 0,
        ;
    }
}

/// The state after the lines of a block are placed: as many as fit go
/// onto the page under construction as one frame, with offsets counted
/// from the frame's top, the page is closed, and the rest follows in the
/// same way. Where not one line fits, the page is
/// closed and the lines are tried on the next.
pub open spec fn with_lines(
    config: LayoutConfig,
    line_height: int,
    state: PageState,
    lines: Seq<LineView>,
) -> PageState
    decreases lines.len(), (if remaining(config, state) >= line_height {
        0int
    } else {
        1int
    }),
    when 0 <= line_height <= config.content_height()
{
    if lines.len() == 0 {
        state
    } else {
        let fit = fit_count(remaining(config, state), line_height, lines.len() as int);
        proof {
            lemma_fit_count(remaining(config, state), line_height, lines.len() as int);
        }
        if fit == 0 {
            with_lines(config, line_height, closed_page(state), lines)
        } else {
            let placed = with_frame(
                config,
                state,
                current_width(config, state),
                fit * line_height,
                fit * line_height,
                rebased(lines.take(fit), line_height),
                FrameType::BodyText,
            );
            if fit < lines.len() {
                with_lines(config, line_height, closed_page(placed), lines.skip(fit))
            } else {
                placed
            }
        }
    }
}

/// The state after a block is placed: its text is broken at the width of
/// the page under construction, and the lines are placed.
pub open spec fn with_block<M: TextMetrics>(
    config: LayoutConfig,
    metrics: &M,
    state: PageState,
    block: Block,
) -> PageState {
    with_lines(
        config,
        body_line(config, metrics),
        state,
        broken_lines(
            metrics,
            current_width(config, state),
            block.content@,
            config.body_style,
            block.id,
        ),
    )
}

/// The state after the blocks are placed, in order.
pub open spec fn with_blocks<M: TextMetrics>(
    config: LayoutConfig,
    metrics: &M,
    state: PageState,
    blocks: Seq<Block>,
) -> PageState
    decreases blocks.len(),
{
    if blocks.len() == 0 {
        state
    } else {
        with_block(
            config,
            metrics,
            with_blocks(config, metrics, state, blocks.drop_last()),
            blocks.last(),
        )
    }
}

/// The state when a chapter begins: where chapters start on right-hand
/// pages, the chapter is not the first and the page under construction is
/// a left-hand page, that page is closed as it is.
pub open spec fn at_chapter_start(config: LayoutConfig, state: PageState, index: int) -> PageState {
    if index > 0 && config.first_chapter_on_odd_page && state.pages.len() % 2 == 0 {
        closed_page(state)
    } else {
        state
    }
}

/// The state after the title of a chapter is placed; its fragments name
/// `title_id` as their source.
pub open spec fn with_chapter_title<M: TextMetrics>(
    config: LayoutConfig,
    metrics: &M,
    state: PageState,
    title: Seq<char>,
    title_id: Uuid,
) -> PageState {
    with_title(
        config,
        title_line(config, metrics),
        state,
        broken_lines(
            metrics,
            current_width(config, state),
            title,
            config.chapter_title_style,
            title_id,
        ),
    )
}

/// The state after the chapter at position `index` is placed: its title,
/// then its blocks.
pub open spec fn with_chapter<M: TextMetrics>(
    config: LayoutConfig,
    metrics: &M,
    state: PageState,
    chapter: Chapter,
    index: int,
    title_id: Uuid,
) -> PageState {
    with_blocks(
        config,
        metrics,
        with_chapter_title(
            config,
            metrics,
            at_chapter_start(config, state, index),
            chapter.title@,
            title_id,
        ),
        chapter.blocks@,
    )
}

/// The state after the first `count` chapters of the book `book_id` are
/// placed.
pub open spec fn with_chapters<M: TextMetrics>(
    config: LayoutConfig,
    metrics: &M,
    book_id: Uuid,
    chapters: Seq<Chapter>,
    count: int,
) -> PageState
    decreases count,
{
    if count <= 0 {
        blank(book_id)
    } else {
        with_chapter(
            config,
            metrics,
            with_chapters(config, metrics, book_id, chapters, count - 1),
            chapters[count - 1],
            count - 1,
            title_source(book_id, (count - 1) as nat),
        )
    }
}

/// Whether the pages are numbered from one in order, and each has the
/// side of its index.
pub open spec fn numbered(pages: Seq<PageView>) -> bool {
    forall|i: int|
        0 <= i < pages.len() ==> (#[trigger] pages[i]).page_number == i + 1 && pages[i].side
            == side_of(i)
}

/// Numbered pages alternate: each page's side is that of its number less
/// one, left where that is even and right where it is odd, so that a page
/// and the next have opposite sides.
pub proof fn lemma_sides_alternate(pages: Seq<PageView>, i: int)
    requires
        numbered(pages),
        0 <= i < pages.len(),
    ensures
        pages[i].side == side_of(pages[i].page_number - 1),
        pages[i].side == if (pages[i].page_number - 1) % 2 == 0 {
            PageSide::Left
        } else {
            PageSide::Right
        },
        i + 1 < pages.len() ==> pages[i].side != pages[i + 1].side,
{
    if i + 1 < pages.len() {
        assert(pages[i + 1].side == side_of(i + 1));
    }
}

/// The text is as wide on a left-hand page as on a right-hand page: what
/// the inner and outer margins leave.
pub proof fn lemma_page_width(config: LayoutConfig, side: PageSide)
    ensures
        page_width(config, side) == config.content_width(),
{
}

/// The pages at the end: the page under construction is closed where it
/// holds a frame.
pub open spec fn finished(state: PageState) -> Seq<PageView> {
    if state.frames.len() > 0 {
        closed_page(state).pages
    } else {
        state.pages
    }
}

/// The render tree of `book`.
pub open spec fn laid_out<M: TextMetrics>(
    book: Book,
    config: LayoutConfig,
    metrics: &M,
) -> TreeView {
    let pages = finished(
        with_chapters(config, metrics, book.id, book.chapters@, book.chapters@.len() as int),
    );
    TreeView {
        book_id: book.id,
        pages: pages,
        metadata: RenderMetadata {
            total_pages: pages.len() as usize,
            total_chapters: book.chapters@.len() as usize,
        },
    }
}

/// Whether a title of `len` characters stays within `MAX_EXTENT` however
/// it is wrapped.
pub open spec fn title_fits(config: LayoutConfig, line_height: int, len: int) -> bool {
    len * line_height + config.chapter_title_style.font_size <= MAX_EXTENT
}

/// Whether a block of `len` characters stays within `MAX_EXTENT` however
/// it is wrapped.
pub open spec fn block_fits(line_height: int, len: int) -> bool {
    len * line_height <= MAX_EXTENT
}

/// Whether the title and every block of `chapter` fit.
pub open spec fn chapter_fits<M: TextMetrics>(
    config: LayoutConfig,
    metrics: &M,
    chapter: Chapter,
) -> bool {
    &&& title_fits(config, title_line(config, metrics), chapter.title@.len() as int)
    &&& forall|j: int|
        0 <= j < chapter.blocks@.len() ==> block_fits(
            body_line(config, metrics),
            (#[trigger] chapter.blocks@[j]).content@.len() as int,
        )
}

/// Whether every chapter of `book` fits.
pub open spec fn book_fits<M: TextMetrics>(config: LayoutConfig, metrics: &M, book: Book) -> bool {
    forall|i: int|
        0 <= i < book.chapters@.len() ==> chapter_fits(config, metrics, #[trigger] book.chapters@[i])
}

/// Why `book` cannot be laid out, the first that applies of: what is
/// wrong with the configuration by itself; a measured line height that is
/// negative; a line of body text taller than the page's content; a text
/// too long; or `None` where it can.
pub open spec fn layout_error<M: TextMetrics>(
    book: Book,
    config: LayoutConfig,
    metrics: &M,
) -> Option<LayoutError> {
    if config.check() is Some {
        config.check()
    } else if title_line(config, metrics) < 0 || body_line(config, metrics) < 0 {
        Some(LayoutError::InvalidLineHeight)
    } else if body_line(config, metrics) > config.content_height() {
        Some(LayoutError::LineTallerThanPage)
    } else if !book_fits(config, metrics, book) {
        Some(LayoutError::TextTooLong)
    } else {
        None
    }
}

/// Whether configuration and metrics allow a layout, whatever the book.
pub open spec fn can_lay_out<M: TextMetrics>(config: LayoutConfig, metrics: &M) -> bool {
    &&& config.check() is None
    &&& title_line(config, metrics) >= 0
    &&& 0 <= body_line(config, metrics) <= config.content_height()
}

} // verus!
