//! What is placed stays where it is: pages are only added at the end,
//! frames only at the end of the page under construction. From this
//! follows where a chapter's title stands in the finished tree.

use super::config::LayoutConfig;
use super::line_breaker::broken_lines;
use super::metrics::TextMetrics;
use super::pagination::{
    at_chapter_start, body_line, can_lay_out, closed_page, current_width, finished, fit_count,
    frame_id, laid_out, lemma_fit_count, rebased, remaining, side_of, title_line, title_source, with_blocks,
    with_chapter, with_chapter_title, with_chapters, with_frame, with_lines, with_title,
    PageState,
};
use super::types::{Bounds, FrameType, FrameView, LineView, PageSide};
use crate::models::{Block, Book, Chapter};
use uuid::Uuid;
use vstd::prelude::*;

verus! {

/// Whether `b` begins with `a`.
pub open spec fn begins_with<A>(b: Seq<A>, a: Seq<A>) -> bool {
    a.len() <= b.len() && b.take(a.len() as int) == a
}

/// Whether `later` holds all that `earlier` holds, in the same places:
/// the closed pages of `earlier` are the first pages of `later`, and the
/// frames of the page that `earlier` has under construction are the first
/// frames of the page with that index in `later`, closed or not.
pub open spec fn grows_to(earlier: PageState, later: PageState) -> bool {
    &&& later.book_id == earlier.book_id
    &&& begins_with(later.pages, earlier.pages)
    &&& if earlier.pages.len() == later.pages.len() {
        begins_with(later.frames, earlier.frames)
    } else {
        let page = later.pages[earlier.pages.len() as int];
        &&& page.page_number == earlier.pages.len() + 1
        &&& page.side == side_of(earlier.pages.len() as int)
        &&& begins_with(page.frames, earlier.frames)
    }
}

/// A sequence begins with each sequence that it begins with a longer
/// beginning of.
proof fn lemma_begins_chain<A>(c: Seq<A>, b: Seq<A>, a: Seq<A>)
    requires
        begins_with(c, b),
        begins_with(b, a),
    ensures
        begins_with(c, a),
{
    assert(c.take(a.len() as int) =~= c.take(b.len() as int).take(a.len() as int));
}

/// A state grows to itself.
pub proof fn lemma_grows_to_itself(state: PageState)
    ensures
        grows_to(state, state),
{
    assert(state.pages.take(state.pages.len() as int) =~= state.pages);
    assert(state.frames.take(state.frames.len() as int) =~= state.frames);
}

/// Growth goes on: what a state has grown to may grow further.
pub proof fn lemma_grows_on(first: PageState, second: PageState, third: PageState)
    requires
        grows_to(first, second),
        grows_to(second, third),
    ensures
        grows_to(first, third),
{
    lemma_begins_chain(third.pages, second.pages, first.pages);
    let p = first.pages.len() as int;
    if first.pages.len() == second.pages.len() {
        if second.pages.len() == third.pages.len() {
            lemma_begins_chain(third.frames, second.frames, first.frames);
        } else {
            lemma_begins_chain(third.pages[p].frames, second.frames, first.frames);
        }
    } else {
        assert(third.pages[p] == third.pages.take(second.pages.len() as int)[p]);
    }
}

/// Closing the page keeps what was placed.
pub proof fn lemma_closed_page_grows(state: PageState)
    ensures
        grows_to(state, closed_page(state)),
{
    let later = closed_page(state);
    assert(later.pages.take(state.pages.len() as int) =~= state.pages);
    assert(state.frames.take(state.frames.len() as int) =~= state.frames);
}

/// Adding a frame keeps what was placed.
pub proof fn lemma_with_frame_grows(
    config: LayoutConfig,
    state: PageState,
    width: int,
    height: int,
    advance: int,
    lines: Seq<LineView>,
    frame_type: FrameType,
)
    ensures
        grows_to(state, with_frame(config, state, width, height, advance, lines, frame_type)),
{
    let later = with_frame(config, state, width, height, advance, lines, frame_type);
    assert(later.pages.take(state.pages.len() as int) =~= state.pages);
    assert(later.frames.take(state.frames.len() as int) =~= state.frames);
}

/// Placing a title keeps what was placed.
pub proof fn lemma_with_title_grows(
    config: LayoutConfig,
    line_height: int,
    state: PageState,
    lines: Seq<LineView>,
)
    ensures
        grows_to(state, with_title(config, line_height, state, lines)),
{
    if lines.len() == 0 {
        lemma_grows_to_itself(state);
    } else {
        let height = lines.len() * line_height;
        let spaced = height + config.chapter_title_style.font_size;
        let start = if remaining(config, state) >= spaced {
            state
        } else {
            closed_page(state)
        };
        if remaining(config, state) >= spaced {
            lemma_grows_to_itself(state);
        } else {
            lemma_closed_page_grows(state);
        }
        lemma_with_frame_grows(
            config,
            start,
            current_width(config, state),
            height,
            spaced,
            lines,
            FrameType::ChapterTitle,
        );
        lemma_grows_on(state, start, with_title(config, line_height, state, lines));
    }
}

/// Placing lines keeps what was placed.
pub proof fn lemma_with_lines_grows(
    config: LayoutConfig,
    line_height: int,
    state: PageState,
    lines: Seq<LineView>,
)
    requires
        0 <= line_height <= config.content_height(),
    ensures
        grows_to(state, with_lines(config, line_height, state, lines)),
    decreases lines.len(), (if remaining(config, state) >= line_height {
        0int
    } else {
        1int
    }),
{
    let out = with_lines(config, line_height, state, lines);
    if lines.len() == 0 {
        lemma_grows_to_itself(state);
    } else {
        let fit = fit_count(remaining(config, state), line_height, lines.len() as int);
        lemma_fit_count(remaining(config, state), line_height, lines.len() as int);
        if fit == 0 {
            lemma_closed_page_grows(state);
            lemma_with_lines_grows(config, line_height, closed_page(state), lines);
            lemma_grows_on(state, closed_page(state), out);
        } else {
            let placed = with_frame(
                config,
                state,
                current_width(config, state),
                fit * line_height,
                fit * line_height,
                rebased(lines.take(fit), line_height),
                FrameType::BodyText,
            );
            lemma_with_frame_grows(
                config,
                state,
                current_width(config, state),
                fit * line_height,
                fit * line_height,
                rebased(lines.take(fit), line_height),
                FrameType::BodyText,
            );
            if fit < lines.len() {
                lemma_closed_page_grows(placed);
                lemma_with_lines_grows(config, line_height, closed_page(placed), lines.skip(fit));
                lemma_grows_on(placed, closed_page(placed), out);
                lemma_grows_on(state, placed, out);
            }
        }
    }
}

/// Placing blocks keeps what was placed.
pub proof fn lemma_with_blocks_grows<M: TextMetrics>(
    config: LayoutConfig,
    metrics: &M,
    state: PageState,
    blocks: Seq<Block>,
)
    requires
        can_lay_out(config, metrics),
    ensures
        grows_to(state, with_blocks(config, metrics, state, blocks)),
    decreases blocks.len(),
{
    if blocks.len() == 0 {
        lemma_grows_to_itself(state);
    } else {
        let before = with_blocks(config, metrics, state, blocks.drop_last());
        lemma_with_blocks_grows(config, metrics, state, blocks.drop_last());
        lemma_with_lines_grows(
            config,
            body_line(config, metrics),
            before,
            broken_lines(
                metrics,
                current_width(config, before),
                blocks.last().content@,
                config.body_style,
                blocks.last().id,
            ),
        );
        lemma_grows_on(state, before, with_blocks(config, metrics, state, blocks));
    }
}

/// Placing a chapter keeps what was placed, from its title on.
pub proof fn lemma_with_chapter_grows<M: TextMetrics>(
    config: LayoutConfig,
    metrics: &M,
    state: PageState,
    chapter: Chapter,
    index: int,
    title_id: Uuid,
)
    requires
        can_lay_out(config, metrics),
    ensures
        grows_to(state, with_chapter(config, metrics, state, chapter, index, title_id)),
        grows_to(
            with_chapter_title(
                config,
                metrics,
                at_chapter_start(config, state, index),
                chapter.title@,
                title_id,
            ),
            with_chapter(config, metrics, state, chapter, index, title_id),
        ),
{
    let start = at_chapter_start(config, state, index);
    let titled = with_chapter_title(config, metrics, start, chapter.title@, title_id);
    let out = with_chapter(config, metrics, state, chapter, index, title_id);
    if start == state {
        lemma_grows_to_itself(state);
    } else {
        lemma_closed_page_grows(state);
    }
    lemma_with_title_grows(
        config,
        title_line(config, metrics),
        start,
        broken_lines(
            metrics,
            current_width(config, start),
            chapter.title@,
            config.chapter_title_style,
            title_id,
        ),
    );
    lemma_with_blocks_grows(config, metrics, titled, chapter.blocks@);
    lemma_grows_on(state, start, titled);
    lemma_grows_on(state, titled, out);
}

/// Placing further chapters keeps what was placed.
pub proof fn lemma_with_chapters_grows<M: TextMetrics>(
    config: LayoutConfig,
    metrics: &M,
    book_id: Uuid,
    chapters: Seq<Chapter>,
    from: int,
    to: int,
)
    requires
        can_lay_out(config, metrics),
        0 <= from <= to,
    ensures
        grows_to(
            with_chapters(config, metrics, book_id, chapters, from),
            with_chapters(config, metrics, book_id, chapters, to),
        ),
    decreases to - from,
{
    let first = with_chapters(config, metrics, book_id, chapters, from);
    if from == to {
        lemma_grows_to_itself(first);
    } else {
        let before = with_chapters(config, metrics, book_id, chapters, to - 1);
        lemma_with_chapters_grows(config, metrics, book_id, chapters, from, to - 1);
        lemma_with_chapter_grows(
            config,
            metrics,
            before,
            chapters[to - 1],
            to - 1,
            title_source(book_id, (to - 1) as nat),
        );
        lemma_grows_on(
            first,
            before,
            with_chapters(config, metrics, book_id, chapters, to),
        );
    }
}

/// A frame that was placed is in the finished pages, on the page with
/// the index that the page under construction had.
pub proof fn lemma_frame_stays(earlier: PageState, last: PageState, i: int)
    requires
        grows_to(earlier, last),
        0 <= i < earlier.frames.len(),
    ensures
        earlier.pages.len() < finished(last).len(),
        finished(last)[earlier.pages.len() as int].side == side_of(earlier.pages.len() as int),
        finished(last)[earlier.pages.len() as int].page_number == earlier.pages.len() + 1,
        i < finished(last)[earlier.pages.len() as int].frames.len(),
        finished(last)[earlier.pages.len() as int].frames[i] == earlier.frames[i],
{
    let p = earlier.pages.len() as int;
    if earlier.pages.len() == last.pages.len() {
        assert(last.frames.take(earlier.frames.len() as int)[i] == last.frames[i]);
    } else {
        let page = last.pages[p];
        assert(page.frames.take(earlier.frames.len() as int)[i] == page.frames[i]);
    }
}

/// The frame of a title of the given lines, placed at the fill line `y`
/// of a right-hand page, at the inner margin.
pub open spec fn title_frame(
    config: LayoutConfig,
    id: Uuid,
    line_height: int,
    width: int,
    y: int,
    lines: Seq<LineView>,
) -> FrameView {
    FrameView {
        id: id,
        bounds: Bounds {
            x: config.margins.inner as int,
            y: config.margins.top + y,
            width: width,
            height: lines.len() * line_height,
        },
        lines: lines,
        frame_type: FrameType::ChapterTitle,
    }
}

/// Where chapters start on right-hand pages, the title of a chapter after
/// the first stands on a right-hand page of the finished tree, provided
/// that it has a line and fits what is left of the page on which the
/// chapter starts.
pub proof fn lemma_chapter_title_on_right_page<M: TextMetrics>(
    book: Book,
    config: LayoutConfig,
    metrics: &M,
    k: int,
)
    requires
        can_lay_out(config, metrics),
        config.first_chapter_on_odd_page,
        0 < k < book.chapters@.len(),
        ({
            let start = at_chapter_start(
                config,
                with_chapters(config, metrics, book.id, book.chapters@, k),
                k,
            );
            let lines = broken_lines(
                metrics,
                current_width(config, start),
                book.chapters@[k].title@,
                config.chapter_title_style,
                title_source(book.id, (k) as nat),
            );
            &&& lines.len() > 0
            &&& remaining(config, start) >= lines.len() * title_line(config, metrics)
                + config.chapter_title_style.font_size
        }),
    ensures
        ({
            let start = at_chapter_start(
                config,
                with_chapters(config, metrics, book.id, book.chapters@, k),
                k,
            );
            let lines = broken_lines(
                metrics,
                current_width(config, start),
                book.chapters@[k].title@,
                config.chapter_title_style,
                title_source(book.id, (k) as nat),
            );
            let pages = laid_out(book, config, metrics).pages;
            let p = start.pages.len() as int;
            let i = start.frames.len() as int;
            &&& p < pages.len()
            &&& pages[p].side == PageSide::Right
            &&& i < pages[p].frames.len()
            &&& pages[p].frames[i] == title_frame(
                config,
                frame_id(book.id, p as nat, i as nat),
                title_line(config, metrics),
                current_width(config, start),
                start.y,
                lines,
            )
        }),
{
    let chapters = book.chapters@;
    let before = with_chapters(config, metrics, book.id, chapters, k);
    let start = at_chapter_start(config, before, k);
    let titled = with_chapter_title(config, metrics, start, chapters[k].title@, title_source(book.id, (k) as nat));
    let after = with_chapters(config, metrics, book.id, chapters, k + 1);
    let last = with_chapters(config, metrics, book.id, chapters, chapters.len() as int);
    lemma_with_chapter_grows(config, metrics, before, chapters[k], k, title_source(book.id, (k) as nat));
    lemma_with_chapters_grows(config, metrics, book.id, chapters, k + 1, chapters.len() as int);
    lemma_grows_on(titled, after, last);
    lemma_with_chapters_grows(config, metrics, book.id, chapters, 0, k);
    assert(before.book_id == book.id);
    assert(start.book_id == book.id);
    assert(titled.pages == start.pages);
    assert(titled.frames.len() == start.frames.len() + 1);
    lemma_frame_stays(titled, last, start.frames.len() as int);
    assert(start.pages.len() % 2 == 1);
}

} // verus!
