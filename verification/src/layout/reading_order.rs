//! The lines of a layout, read page by page and frame by frame, are the
//! lines of the titles and blocks of the book in reading order: none is
//! lost, none stands twice, none is moved. Lines are compared by what
//! they hold; where they lie is counted from the top of each frame.

use super::config::LayoutConfig;
use super::line_breaker::{broken_lines, lemma_lines_name_source};
use super::metrics::TextMetrics;
use super::pagination::{
    at_chapter_start, body_line, can_lay_out, closed_page, current_width, finished, fit_count,
    laid_out, lemma_fit_count, rebased, remaining, title_line, title_source, with_blocks,
    with_chapter_title, with_chapters, with_frame, with_lines, with_title, PageState,
};
use super::types::{FragmentView, FrameType, FrameView, LineView, PageView};
use crate::models::{Block, Book, Chapter};
use uuid::Uuid;
use vstd::prelude::*;

verus! {

/// The frames of the pages, page after page.
pub open spec fn frames_of(pages: Seq<PageView>) -> Seq<FrameView> {
    pages.map_values(|p: PageView| p.frames).flatten()
}

/// What the lines hold, line after line, apart from their offsets.
pub open spec fn fragments_of(lines: Seq<LineView>) -> Seq<Seq<FragmentView>> {
    lines.map_values(|l: LineView| l.fragments)
}

/// What the lines of a frame hold; nothing for a chapter title where
/// `titles` is false.
pub open spec fn frame_lines(frame: FrameView, titles: bool) -> Seq<Seq<FragmentView>> {
    if titles || frame.frame_type == FrameType::BodyText {
        fragments_of(frame.lines)
    } else {
        Seq::empty()
    }
}

/// What the lines of the frames hold, frame after frame: of all frames
/// where `titles` is true, else of the frames of body text.
pub open spec fn lines_in(frames: Seq<FrameView>, titles: bool) -> Seq<Seq<FragmentView>> {
    frames.map_values(|f: FrameView| frame_lines(f, titles)).flatten()
}

/// What all lines placed so far hold, in the order of reading.
pub open spec fn lines_placed(state: PageState, titles: bool) -> Seq<Seq<FragmentView>> {
    lines_in(frames_of(state.pages) + state.frames, titles)
}

/// What the lines of a block hold.
pub open spec fn block_lines<M: TextMetrics>(
    config: LayoutConfig,
    metrics: &M,
    block: Block,
) -> Seq<Seq<FragmentView>> {
    fragments_of(
        broken_lines(metrics, config.content_width(), block.content@, config.body_style, block.id),
    )
}

/// The lines of the blocks, block after block.
pub open spec fn blocks_lines<M: TextMetrics>(
    config: LayoutConfig,
    metrics: &M,
    blocks: Seq<Block>,
) -> Seq<Seq<FragmentView>>
    decreases blocks.len(),
{
    if blocks.len() == 0 {
        Seq::empty()
    } else {
        blocks_lines(config, metrics, blocks.drop_last()) + block_lines(
            config,
            metrics,
            blocks.last(),
        )
    }
}

/// What the lines of a chapter's title hold; nothing where `titles` is
/// false.
pub open spec fn title_lines<M: TextMetrics>(
    config: LayoutConfig,
    metrics: &M,
    chapter: Chapter,
    title_id: Uuid,
    titles: bool,
) -> Seq<Seq<FragmentView>> {
    if titles {
        fragments_of(
            broken_lines(
                metrics,
                config.content_width(),
                chapter.title@,
                config.chapter_title_style,
                title_id,
            ),
        )
    } else {
        Seq::empty()
    }
}

/// The lines of a chapter: those of its title, then those of its blocks.
pub open spec fn chapter_lines<M: TextMetrics>(
    config: LayoutConfig,
    metrics: &M,
    chapter: Chapter,
    title_id: Uuid,
    titles: bool,
) -> Seq<Seq<FragmentView>> {
    title_lines(config, metrics, chapter, title_id, titles) + blocks_lines(
        config,
        metrics,
        chapter.blocks@,
    )
}

/// The lines of the first `count` chapters, chapter after chapter.
pub open spec fn chapters_lines<M: TextMetrics>(
    config: LayoutConfig,
    metrics: &M,
    book_id: Uuid,
    chapters: Seq<Chapter>,
    count: int,
    titles: bool,
) -> Seq<Seq<FragmentView>>
    decreases count,
{
    if count <= 0 {
        Seq::empty()
    } else {
        chapters_lines(config, metrics, book_id, chapters, count - 1, titles) + chapter_lines(
            config,
            metrics,
            chapters[count - 1],
            title_source(book_id, (count - 1) as nat),
            titles,
        )
    }
}

/// Those of the lines whose first fragment names `id` as its source, in
/// their order.
pub open spec fn from_source(lines: Seq<Seq<FragmentView>>, id: Uuid) -> Seq<Seq<FragmentView>>
    decreases lines.len(),
{
    if lines.len() == 0 {
        Seq::empty()
    } else if lines.last().len() > 0 && lines.last()[0].source_block_id == id {
        from_source(lines.drop_last(), id).push(lines.last())
    } else {
        from_source(lines.drop_last(), id)
    }
}

/// The lines of frames with one more frame.
proof fn lemma_lines_in_push(frames: Seq<FrameView>, frame: FrameView, titles: bool)
    ensures
        lines_in(frames.push(frame), titles) == lines_in(frames, titles) + frame_lines(
            frame,
            titles,
        ),
{
    let each = frames.map_values(|f: FrameView| frame_lines(f, titles));
    assert(frames.push(frame).map_values(|f: FrameView| frame_lines(f, titles)) =~= each.push(
        frame_lines(frame, titles),
    ));
    each.lemma_flatten_push(frame_lines(frame, titles));
}

/// Closing the page moves no line.
proof fn lemma_closed_page_lines(state: PageState, titles: bool)
    ensures
        lines_placed(closed_page(state), titles) == lines_placed(state, titles),
{
    let later = closed_page(state);
    let each = state.pages.map_values(|p: PageView| p.frames);
    assert(later.pages.map_values(|p: PageView| p.frames) =~= each.push(state.frames));
    each.lemma_flatten_push(state.frames);
    assert(frames_of(later.pages) + later.frames =~= frames_of(state.pages) + state.frames);
}

/// A frame adds its lines after those placed before.
proof fn lemma_with_frame_lines(
    config: LayoutConfig,
    state: PageState,
    width: int,
    height: int,
    advance: int,
    lines: Seq<LineView>,
    frame_type: FrameType,
    titles: bool,
)
    ensures
        lines_placed(with_frame(config, state, width, height, advance, lines, frame_type), titles)
            == lines_placed(state, titles) + (if titles || frame_type == FrameType::BodyText {
            fragments_of(lines)
        } else {
            Seq::empty()
        }),
{
    let later = with_frame(config, state, width, height, advance, lines, frame_type);
    let frame = later.frames.last();
    assert(frames_of(later.pages) + later.frames =~= (frames_of(state.pages) + state.frames).push(
        frame,
    ));
    lemma_lines_in_push(frames_of(state.pages) + state.frames, frame, titles);
}

/// A title adds its lines after those placed before.
proof fn lemma_with_title_lines(
    config: LayoutConfig,
    line_height: int,
    state: PageState,
    lines: Seq<LineView>,
    titles: bool,
)
    ensures
        lines_placed(with_title(config, line_height, state, lines), titles) == lines_placed(
            state,
            titles,
        ) + (if titles {
            fragments_of(lines)
        } else {
            Seq::empty()
        }),
{
    if lines.len() == 0 {
        assert(lines_placed(state, titles) + fragments_of(lines) =~= lines_placed(state, titles));
        assert(lines_placed(state, titles) + Seq::<Seq<FragmentView>>::empty() =~= lines_placed(
            state,
            titles,
        ));
    } else {
        let height = lines.len() * line_height;
        let spaced = height + config.chapter_title_style.font_size;
        let start = if remaining(config, state) >= spaced {
            state
        } else {
            closed_page(state)
        };
        if start != state {
            lemma_closed_page_lines(state, titles);
        }
        lemma_with_frame_lines(
            config,
            start,
            current_width(config, state),
            height,
            spaced,
            lines,
            FrameType::ChapterTitle,
            titles,
        );
    }
}

/// What the lines of a block hold is added after what was placed
/// before, all of it and in its order, over however many pages.
pub proof fn lemma_with_lines_lines(
    config: LayoutConfig,
    line_height: int,
    state: PageState,
    lines: Seq<LineView>,
    titles: bool,
)
    requires
        0 <= line_height <= config.content_height(),
    ensures
        lines_placed(with_lines(config, line_height, state, lines), titles) == lines_placed(
            state,
            titles,
        ) + fragments_of(lines),
    decreases lines.len(), (if remaining(config, state) >= line_height {
        0int
    } else {
        1int
    }),
{
    if lines.len() == 0 {
        assert(lines_placed(state, titles) + fragments_of(lines) =~= lines_placed(state, titles));
    } else {
        let fit = fit_count(remaining(config, state), line_height, lines.len() as int);
        lemma_fit_count(remaining(config, state), line_height, lines.len() as int);
        if fit == 0 {
            lemma_closed_page_lines(state, titles);
            lemma_with_lines_lines(config, line_height, closed_page(state), lines, titles);
        } else {
            let placed = with_frame(
                config,
                state,
                current_width(config, state),
                fit * line_height,
                fit * line_height,
                rebased(lines.take(fit), line_height),
                FrameType::BodyText,
            );
            lemma_with_frame_lines(
                config,
                state,
                current_width(config, state),
                fit * line_height,
                fit * line_height,
                rebased(lines.take(fit), line_height),
                FrameType::BodyText,
                titles,
            );
            assert(fragments_of(rebased(lines.take(fit), line_height)) =~= fragments_of(
                lines.take(fit),
            ));
            if fit < lines.len() {
                lemma_closed_page_lines(placed, titles);
                lemma_with_lines_lines(
                    config,
                    line_height,
                    closed_page(placed),
                    lines.skip(fit),
                    titles,
                );
                assert(lines_placed(state, titles) + fragments_of(lines.take(fit)) + fragments_of(
                    lines.skip(fit),
                ) =~= lines_placed(state, titles) + fragments_of(lines));
            } else {
                assert(lines.take(fit) =~= lines);
            }
        }
    }
}

/// Blocks add their lines after those placed before.
proof fn lemma_with_blocks_lines<M: TextMetrics>(
    config: LayoutConfig,
    metrics: &M,
    state: PageState,
    blocks: Seq<Block>,
    titles: bool,
)
    requires
        can_lay_out(config, metrics),
    ensures
        lines_placed(with_blocks(config, metrics, state, blocks), titles) == lines_placed(
            state,
            titles,
        ) + blocks_lines(config, metrics, blocks),
    decreases blocks.len(),
{
    if blocks.len() == 0 {
        assert(lines_placed(state, titles) + blocks_lines(config, metrics, blocks)
            =~= lines_placed(state, titles));
    } else {
        let before = with_blocks(config, metrics, state, blocks.drop_last());
        lemma_with_blocks_lines(config, metrics, state, blocks.drop_last(), titles);
        lemma_with_lines_lines(
            config,
            body_line(config, metrics),
            before,
            broken_lines(
                metrics,
                config.content_width(),
                blocks.last().content@,
                config.body_style,
                blocks.last().id,
            ),
            titles,
        );
        assert(lines_placed(state, titles) + blocks_lines(config, metrics, blocks.drop_last())
            + block_lines(config, metrics, blocks.last()) =~= lines_placed(state, titles)
            + blocks_lines(config, metrics, blocks));
    }
}

/// Chapters add their lines after those placed before.
proof fn lemma_with_chapters_lines<M: TextMetrics>(
    config: LayoutConfig,
    metrics: &M,
    book_id: Uuid,
    chapters: Seq<Chapter>,
    count: int,
    titles: bool,
)
    requires
        can_lay_out(config, metrics),
    ensures
        lines_placed(with_chapters(config, metrics, book_id, chapters, count), titles)
            == chapters_lines(config, metrics, book_id, chapters, count, titles),
    decreases count,
{
    if count <= 0 {
        let none = Seq::<PageView>::empty().map_values(|p: PageView| p.frames);
        assert(none =~= Seq::<Seq<FrameView>>::empty());
        assert(frames_of(Seq::<PageView>::empty()) + Seq::<FrameView>::empty() =~= Seq::<
            FrameView,
        >::empty());
        assert(Seq::<FrameView>::empty().map_values(|f: FrameView| frame_lines(f, titles))
            =~= Seq::<Seq<Seq<FragmentView>>>::empty());
    } else {
        let before = with_chapters(config, metrics, book_id, chapters, count - 1);
        let chapter = chapters[count - 1];
        let title_id = title_source(book_id, (count - 1) as nat);
        lemma_with_chapters_lines(config, metrics, book_id, chapters, count - 1, titles);
        let start = at_chapter_start(config, before, count - 1);
        if start != before {
            lemma_closed_page_lines(before, titles);
        }
        let title = broken_lines(
            metrics,
            config.content_width(),
            chapter.title@,
            config.chapter_title_style,
            title_id,
        );
        lemma_with_title_lines(config, title_line(config, metrics), start, title, titles);
        let titled = with_chapter_title(config, metrics, start, chapter.title@, title_id);
        lemma_with_blocks_lines(config, metrics, titled, chapter.blocks@, titles);
        assert(lines_placed(before, titles) + title_lines(
            config,
            metrics,
            chapter,
            title_id,
            titles,
        ) + blocks_lines(config, metrics, chapter.blocks@) =~= lines_placed(before, titles)
            + chapter_lines(config, metrics, chapter, title_id, titles));
    }
}

/// What the lines on the pages of a layout hold, in the order of
/// reading, is what the lines hold that the titles and blocks of the book
/// are broken into, chapter after chapter; and so it is with the titles
/// left out on both sides.
pub proof fn lemma_layout_keeps_reading_order<M: TextMetrics>(
    book: Book,
    config: LayoutConfig,
    metrics: &M,
    titles: bool,
)
    requires
        can_lay_out(config, metrics),
    ensures
        lines_in(frames_of(laid_out(book, config, metrics).pages), titles) == chapters_lines(
            config,
            metrics,
            book.id,
            book.chapters@,
            book.chapters@.len() as int,
            titles,
        ),
{
    let count = book.chapters@.len() as int;
    let last = with_chapters(config, metrics, book.id, book.chapters@, count);
    lemma_with_chapters_lines(config, metrics, book.id, book.chapters@, count, titles);
    if last.frames.len() > 0 {
        lemma_closed_page_lines(last, titles);
        assert(frames_of(closed_page(last).pages) + closed_page(last).frames =~= frames_of(
            finished(last),
        ));
    } else {
        assert(frames_of(last.pages) + last.frames =~= frames_of(finished(last)));
    }
}

/// Picking the lines of one source from two runs of lines, one after the
/// other.
proof fn lemma_from_source_add(
    first: Seq<Seq<FragmentView>>,
    second: Seq<Seq<FragmentView>>,
    id: Uuid,
)
    ensures
        from_source(first + second, id) == from_source(first, id) + from_source(second, id),
    decreases second.len(),
{
    if second.len() == 0 {
        assert(first + second =~= first);
        assert(from_source(first, id) + from_source(second, id) =~= from_source(first, id));
    } else {
        lemma_from_source_add(first, second.drop_last(), id);
        assert((first + second).drop_last() =~= first + second.drop_last());
        assert((first + second).last() == second.last());
        assert(from_source(first + second, id) =~= from_source(first, id) + from_source(
            second,
            id,
        ));
    }
}

/// Of lines that all name one source, all are picked for that source and
/// none for another.
proof fn lemma_from_one_source(lines: Seq<Seq<FragmentView>>, source: Uuid, id: Uuid)
    requires
        forall|i: int|
            0 <= i < lines.len() ==> (#[trigger] lines[i]).len() > 0 && lines[i][0].source_block_id
                == source,
    ensures
        from_source(lines, id) == if source == id {
            lines
        } else {
            Seq::empty()
        },
    decreases lines.len(),
{
    if lines.len() > 0 {
        let front = lines.drop_last();
        assert forall|i: int| 0 <= i < front.len() implies (#[trigger] front[i]).len() > 0
            && front[i][0].source_block_id == source by {
            assert(front[i] == lines[i]);
        }
        lemma_from_one_source(front, source, id);
        assert(lines.last() == lines[lines.len() - 1]);
        if source == id {
            assert(front.push(lines.last()) =~= lines);
        }
    }
}

/// The lines of a block are picked for the block's identifier, all of
/// them, and for no other.
proof fn lemma_block_lines_source<M: TextMetrics>(
    config: LayoutConfig,
    metrics: &M,
    block: Block,
    id: Uuid,
)
    ensures
        from_source(block_lines(config, metrics, block), id) == if block.id == id {
            block_lines(config, metrics, block)
        } else {
            Seq::empty()
        },
{
    let lines = block_lines(config, metrics, block);
    assert forall|i: int| 0 <= i < lines.len() implies (#[trigger] lines[i]).len() > 0
        && lines[i][0].source_block_id == block.id by {
        lemma_lines_name_source(
            metrics,
            config.content_width(),
            block.content@,
            config.body_style,
            block.id,
            i,
        );
    }
    lemma_from_one_source(lines, block.id, id);
}

/// Of the lines of blocks, those of the one block with the identifier
/// `id` are picked for `id`; `j` is that block's position, or none of
/// the blocks'.
proof fn lemma_blocks_lines_source<M: TextMetrics>(
    config: LayoutConfig,
    metrics: &M,
    blocks: Seq<Block>,
    j: int,
    id: Uuid,
)
    requires
        forall|i: int| 0 <= i < blocks.len() ==> ((#[trigger] blocks[i]).id == id <==> i == j),
    ensures
        from_source(blocks_lines(config, metrics, blocks), id) == if 0 <= j < blocks.len() {
            block_lines(config, metrics, blocks[j])
        } else {
            Seq::empty()
        },
    decreases blocks.len(),
{
    if blocks.len() > 0 {
        let front = blocks.drop_last();
        assert forall|i: int| 0 <= i < front.len() implies ((#[trigger] front[i]).id == id <==> i
            == j) by {
            assert(front[i] == blocks[i]);
        }
        lemma_blocks_lines_source(config, metrics, front, j, id);
        lemma_block_lines_source(config, metrics, blocks.last(), id);
        lemma_from_source_add(
            blocks_lines(config, metrics, front),
            block_lines(config, metrics, blocks.last()),
            id,
        );
        assert(blocks.last() == blocks[blocks.len() - 1]);
        if 0 <= j < front.len() {
            assert(front[j] == blocks[j]);
            assert(block_lines(config, metrics, blocks[j]) + Seq::<Seq<FragmentView>>::empty()
                =~= block_lines(config, metrics, blocks[j]));
        } else {
            assert(Seq::<Seq<FragmentView>>::empty() + block_lines(config, metrics, blocks.last())
                =~= block_lines(config, metrics, blocks.last()));
        }
    }
}

/// Whether the block at position `j` of the chapter at position `k` is
/// the only block of the chapters with its identifier.
pub open spec fn only_block_with_its_id(chapters: Seq<Chapter>, k: int, j: int) -> bool {
    forall|c: int, b: int|
        0 <= c < chapters.len() && 0 <= b < chapters[c].blocks@.len() && (c != k || b != j)
            ==> (#[trigger] chapters[c].blocks@[b]).id != chapters[k].blocks@[j].id
}

/// Of the body lines of the first `count` chapters, those of the block
/// at position `j` of chapter `k` are picked for its identifier.
proof fn lemma_chapters_lines_source<M: TextMetrics>(
    config: LayoutConfig,
    metrics: &M,
    book_id: Uuid,
    chapters: Seq<Chapter>,
    count: int,
    k: int,
    j: int,
)
    requires
        0 <= count <= chapters.len(),
        0 <= k < chapters.len(),
        0 <= j < chapters[k].blocks@.len(),
        only_block_with_its_id(chapters, k, j),
    ensures
        from_source(
            chapters_lines(config, metrics, book_id, chapters, count, false),
            chapters[k].blocks@[j].id,
        ) == if k < count {
            block_lines(config, metrics, chapters[k].blocks@[j])
        } else {
            Seq::empty()
        },
    decreases count,
{
    let id = chapters[k].blocks@[j].id;
    if count > 0 {
        let c = count - 1;
        let blocks = chapters[c].blocks@;
        let here = if c == k {
            j
        } else {
            -1
        };
        lemma_chapters_lines_source(config, metrics, book_id, chapters, c, k, j);
        assert forall|i: int| 0 <= i < blocks.len() implies ((#[trigger] blocks[i]).id == id <==> i
            == here) by {
            if c != k || i != j {
                assert(chapters[c].blocks@[i].id != chapters[k].blocks@[j].id);
            }
        }
        lemma_blocks_lines_source(config, metrics, blocks, here, id);
        let before = chapters_lines(config, metrics, book_id, chapters, c, false);
        let added = chapter_lines(config, metrics, chapters[c], title_source(book_id, c as nat), false);
        assert(added =~= blocks_lines(config, metrics, blocks));
        lemma_from_source_add(before, added, id);
        if k < c {
            assert(block_lines(config, metrics, chapters[k].blocks@[j]) + Seq::<
                Seq<FragmentView>,
            >::empty() =~= block_lines(config, metrics, chapters[k].blocks@[j]));
        } else {
            assert(Seq::<Seq<FragmentView>>::empty() + from_source(added, id) =~= from_source(
                added,
                id,
            ));
        }
    }
}

/// The lines of a block are on the pages once and in their order: of
/// what the lines of the frames of body text hold, read page by page and
/// frame by frame, the lines that name the block as their source are the
/// lines that the block is broken into, provided that no other block has
/// the block's identifier.
pub proof fn lemma_block_keeps_its_lines<M: TextMetrics>(
    book: Book,
    config: LayoutConfig,
    metrics: &M,
    k: int,
    j: int,
)
    requires
        can_lay_out(config, metrics),
        0 <= k < book.chapters@.len(),
        0 <= j < book.chapters@[k].blocks@.len(),
        only_block_with_its_id(book.chapters@, k, j),
    ensures
        from_source(
            lines_in(frames_of(laid_out(book, config, metrics).pages), false),
            book.chapters@[k].blocks@[j].id,
        ) == block_lines(config, metrics, book.chapters@[k].blocks@[j]),
{
    lemma_layout_keeps_reading_order(book, config, metrics, false);
    lemma_chapters_lines_source(
        config,
        metrics,
        book.id,
        book.chapters@,
        book.chapters@.len() as int,
        k,
        j,
    );
}

} // verus!
