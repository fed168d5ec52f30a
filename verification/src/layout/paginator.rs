//! The paginator: walks a book, breaks titles and blocks into lines and
//! fills pages with them.

use super::config::{LayoutConfig, LayoutError};
use super::line_breaker::{lemma_broken_len, LineBreaker};
use super::metrics::TextMetrics;
use super::pagination::{
    blank, block_fits, body_line, book_fits, can_lay_out, chapter_fits, closed_page,
    current_width, finished, fit_count, frame_id, frame_name, laid_out, layout_error,
    left_margin, lemma_fit_count, numbered, page_width, rebased, remaining, side_of, title_fits,
    title_line, title_name, title_source, with_block, with_blocks, with_chapter_title,
    with_chapters, with_frame, with_lines, PageState,
};
use super::types::{
    frame_views, lemma_frame_views_push, line_views, page_views, FrameType, FrameView,
    PageRender, PageSide, PageView, Rectangle, RenderMetadata, RenderTree, TextFrame, TextLine,
    TextStyle, MAX_EXTENT, MAX_LENGTH,
};
use crate::ids::derived_id;
use crate::models::{push_decimal, Block, Book, Chapter};
use uuid::Uuid;
use vstd::prelude::*;
use vstd::string::StrSliceExecFns;

verus! {

/// `x`, or the nearest `i64` where `x` is not one.
pub open spec fn clamped(x: int) -> int {
    if x < i64::MIN {
        i64::MIN as int
    } else if x > i64::MAX {
        i64::MAX as int
    } else {
        x
    }
}

/// The page under construction: its frames so far, how far down it is
/// filled, and the height that may be filled.
pub struct PageBuilder {
    pub frames: Vec<TextFrame>,
    pub current_y: i64,
    pub max_y: i64,
}

impl PageBuilder {
    /// Whether the fill line and the height are in the range that the
    /// arithmetic on them needs.
    pub open spec fn in_bounds(&self) -> bool {
        &&& 0 <= self.current_y <= MAX_EXTENT
        &&& -3 * MAX_LENGTH <= self.max_y <= 3 * MAX_LENGTH
    }

    /// An empty page of the given height.
    fn new(max_y: i64) -> (page: Self)
        ensures
            page.frames@.len() == 0,
            page.current_y == 0,
            page.max_y == max_y,
    {
        PageBuilder { frames: Vec::new(), current_y: 0, max_y }
    }

    /// What is left of the height.
    fn available_height(&self) -> (height: i64)
        requires
            self.in_bounds(),
        ensures
            height == self.max_y - self.current_y,
    {
        self.max_y - self.current_y
    }

    /// Whether `height` fits what is left.
    fn can_fit(&self, height: i64) -> (fits: bool)
        requires
            self.in_bounds(),
        ensures
            fits == (self.max_y - self.current_y >= height),
    {
        self.available_height() >= height
    }

    /// Adds a frame and moves the fill line down by `height`.
    fn add_frame(&mut self, frame: TextFrame, height: i64)
        requires
            i64::MIN <= old(self).current_y + height <= i64::MAX,
        ensures
            final(self).frames@ == old(self).frames@.push(frame),
            final(self).current_y == old(self).current_y + height,
            final(self).max_y == old(self).max_y,
    {
        self.frames.push(frame);
        self.current_y = self.current_y + height;
    }
}

/// Lays a book out page by page.
pub struct Paginator<'a, M: TextMetrics> {
    pub config: &'a LayoutConfig,
    pub metrics: &'a M,
    pub current_page: PageBuilder,
    pub completed_pages: Vec<PageRender>,
    pub page_counter: usize,
    /// The identifier of the book that is being laid out, if one is.
    pub book_id: Option<Uuid>,
}

impl<'a, M: TextMetrics> Paginator<'a, M> {
    /// The pages closed so far and the page under construction.
    pub open spec fn state(&self) -> PageState {
        PageState {
            book_id: self.book_id.unwrap(),
            pages: page_views(self.completed_pages@),
            frames: frame_views(self.current_page.frames@),
            y: self.current_page.current_y as int,
        }
    }

    /// Whether no book is being laid out and nothing is placed.
    pub open spec fn is_fresh(&self) -> bool {
        &&& self.book_id is None
        &&& self.completed_pages@.len() == 0
        &&& self.page_counter == 0
        &&& self.current_page.frames@.len() == 0
        &&& self.current_page.current_y == 0
        &&& self.current_page.max_y == clamped(self.config.content_height())
    }

    /// What holds while a book is laid out: its identifier is at hand,
    /// configuration and metrics allow the layout, the counter is the
    /// number of closed pages, the page under construction has the content
    /// height, the fill line is in range, and the closed pages are
    /// numbered.
    pub open spec fn working(&self) -> bool {
        &&& self.book_id is Some
        &&& can_lay_out(*self.config, self.metrics)
        &&& self.page_counter == self.completed_pages@.len()
        &&& self.current_page.max_y == self.config.content_height()
        &&& 0 <= self.current_page.current_y <= MAX_EXTENT
        &&& numbered(page_views(self.completed_pages@))
    }

    /// A paginator for the given configuration and metrics, with nothing
    /// placed.
    pub fn new(config: &'a LayoutConfig, metrics: &'a M) -> (paginator: Self)
        ensures
            paginator.config == config,
            paginator.metrics == metrics,
            paginator.is_fresh(),
    {
        let content_height = Self::calculate_content_height(config);
        Paginator {
            config,
            metrics,
            current_page: PageBuilder::new(content_height),
            completed_pages: Vec::new(),
            page_counter: 0,
            book_id: None,
        }
    }

    /// The height that the top and bottom margins leave of the page.
    fn calculate_content_height(config: &LayoutConfig) -> (height: i64)
        ensures
            height == clamped(config.content_height()),
    {
        let height: i128 = config.page_size.height as i128 - config.margins.top as i128
            - config.margins.bottom as i128;
        if height < i64::MIN as i128 {
            i64::MIN
        } else if height > i64::MAX as i128 {
            i64::MAX
        } else {
            height as i64
        }
    }

    /// The width that the margins leave on a page of the given side.
    fn calculate_content_width(config: &LayoutConfig, page_side: PageSide) -> (width: i64)
        requires
            config.check() is None,
        ensures
            width == page_width(*config, page_side),
            width == config.content_width(),
    {
        let left_margin = match page_side {
            PageSide::Left => config.margins.outer,
            PageSide::Right => config.margins.inner,
        };
        let right_margin = match page_side {
            PageSide::Left => config.margins.inner,
            PageSide::Right => config.margins.outer,
        };
        config.page_size.width - left_margin - right_margin
    }

    /// Lays `book` out and returns its render tree, or the error that
    /// [`layout_error`] names. The tree is a function of the book, the
    /// configuration and the metrics, identifiers included. The paginator
    /// is fresh again afterwards and keeps nothing of the book.
    pub fn paginate(&mut self, book: &Book) -> (out: Result<RenderTree, LayoutError>)
        requires
            old(self).is_fresh(),
        ensures
            final(self).is_fresh(),
            final(self).config == old(self).config,
            final(self).metrics == old(self).metrics,
            final(self).book_id == old(self).book_id,
            match layout_error(*book, *old(self).config, old(self).metrics) {
                Some(e) => out == Err::<RenderTree, LayoutError>(e),
                None => {
                    &&& out is Ok
                    &&& out.unwrap()@ == laid_out(*book, *old(self).config, old(self).metrics)
                    &&& numbered(out.unwrap()@.pages)
                    &&& out.unwrap().metadata.total_pages == out.unwrap().pages@.len()
                    &&& out.unwrap().metadata.total_chapters == book.chapters@.len()
                },
            },
    {
        let ghost cfg = *self.config;
        if let Err(e) = self.config.validate() {
            return Err(e);
        }
        let title_height = self.metrics.line_height(
            self.config.chapter_title_style.font_size,
            self.config.chapter_title_style.line_height,
        );
        let body_height = self.metrics.line_height(
            self.config.body_style.font_size,
            self.config.body_style.line_height,
        );
        if title_height < 0 || body_height < 0 {
            return Err(LayoutError::InvalidLineHeight);
        }
        if body_height > self.current_page.max_y {
            return Err(LayoutError::LineTallerThanPage);
        }
        if !self.texts_fit(book, title_height, body_height) {
            return Err(LayoutError::TextTooLong);
        }
        let count = book.chapters.len();
        self.book_id = Some(book.id);
        let mut chapter_index: usize = 0;
        proof {
            assert(page_views(self.completed_pages@) =~= Seq::<PageView>::empty());
            assert(frame_views(self.current_page.frames@) =~= Seq::<FrameView>::empty());
            assert(self.state() == blank(book.id));
        }
        while chapter_index < count
            invariant
                self.working(),
                self.config == old(self).config,
                self.metrics == old(self).metrics,
                cfg == *self.config,
                count == book.chapters@.len(),
                chapter_index <= count,
                book_fits(cfg, self.metrics, *book),
                self.book_id == Some(book.id),
                self.state() == with_chapters(
                    cfg,
                    self.metrics,
                    book.id,
                    book.chapters@,
                    chapter_index as int,
                ),
            decreases count - chapter_index,
        {
            if chapter_index > 0 && self.config.first_chapter_on_odd_page {
                if self.page_counter % 2 == 0 {
                    self.finalize_current_page();
                }
            }
            self.paginate_chapter(&book.chapters[chapter_index], chapter_index);
            chapter_index = chapter_index + 1;
        }
        let ghost last = self.state();
        if self.current_page.frames.len() > 0 {
            self.finalize_current_page();
        }
        let mut pages: Vec<PageRender> = Vec::new();
        std::mem::swap(&mut self.completed_pages, &mut pages);
        self.page_counter = 0;
        self.book_id = None;
        self.current_page = PageBuilder::new(Self::calculate_content_height(self.config));
        let total_pages = pages.len();
        let tree = RenderTree {
            book_id: book.id,
            pages,
            metadata: RenderMetadata { total_pages, total_chapters: count },
        };
        proof {
            assert(tree@.pages == finished(last));
            assert(tree@ == laid_out(*book, cfg, self.metrics));
        }
        Ok(tree)
    }

    /// Whether every title and block of `book` is short enough for its
    /// wrapped height to stay in range.
    fn texts_fit(&self, book: &Book, title_height: i64, body_height: i64) -> (fit: bool)
        requires
            self.config.check() is None,
            title_height == title_line(*self.config, self.metrics),
            body_height == body_line(*self.config, self.metrics),
            title_height >= 0,
            body_height >= 0,
        ensures
            fit == book_fits(*self.config, self.metrics, *book),
    {
        let ghost cfg = *self.config;
        let spacing = self.config.chapter_title_style.font_size;
        let mut i: usize = 0;
        while i < book.chapters.len()
            invariant
                i <= book.chapters@.len(),
                cfg == *self.config,
                cfg.check() is None,
                spacing == cfg.chapter_title_style.font_size,
                title_height == title_line(cfg, self.metrics),
                body_height == body_line(cfg, self.metrics),
                title_height >= 0,
                body_height >= 0,
                forall|k: int|
                    0 <= k < i ==> chapter_fits(cfg, self.metrics, #[trigger] book.chapters@[k]),
            decreases book.chapters@.len() - i,
        {
            let chapter = &book.chapters[i];
            let title_len = chapter.title.as_str().unicode_len();
            if !within_extent(title_len, title_height, spacing) {
                proof {
                    assert(!chapter_fits(cfg, self.metrics, book.chapters@[i as int]));
                }
                return false;
            }
            let mut j: usize = 0;
            while j < chapter.blocks.len()
                invariant
                    j <= chapter.blocks@.len(),
                    i < book.chapters@.len(),
                    *chapter == book.chapters@[i as int],
                    cfg == *self.config,
                    body_height == body_line(cfg, self.metrics),
                    body_height >= 0,
                    forall|k: int|
                        0 <= k < j ==> block_fits(
                            body_line(cfg, self.metrics),
                            (#[trigger] chapter.blocks@[k]).content@.len() as int,
                        ),
                decreases chapter.blocks@.len() - j,
            {
                let len = chapter.blocks[j].content.as_str().unicode_len();
                if !within_extent(len, body_height, 0) {
                    proof {
                        assert(!block_fits(
                            body_line(cfg, self.metrics),
                            chapter.blocks@[j as int].content@.len() as int,
                        ));
                        assert(!chapter_fits(cfg, self.metrics, book.chapters@[i as int]));
                    }
                    return false;
                }
                j = j + 1;
            }
            i = i + 1;
        }
        true
    }

    /// Places the title of the chapter at position `index`, then its
    /// blocks.
    fn paginate_chapter(&mut self, chapter: &Chapter, index: usize)
        requires
            old(self).working(),
            chapter_fits(*old(self).config, old(self).metrics, *chapter),
        ensures
            final(self).working(),
            final(self).config == old(self).config,
            final(self).metrics == old(self).metrics,
            final(self).book_id == old(self).book_id,
            final(self).state() == with_blocks(
                *old(self).config,
                old(self).metrics,
                with_chapter_title(
                    *old(self).config,
                    old(self).metrics,
                    old(self).state(),
                    chapter.title@,
                    title_source(old(self).book_id.unwrap(), index as nat),
                ),
                chapter.blocks@,
            ),
    {
        let ghost cfg = *self.config;
        self.add_chapter_title(chapter.title.as_str(), index);
        let ghost titled = self.state();
        let mut i: usize = 0;
        proof {
            assert(chapter.blocks@.take(0) =~= Seq::<Block>::empty());
        }
        while i < chapter.blocks.len()
            invariant
                self.working(),
                self.config == old(self).config,
                self.metrics == old(self).metrics,
                self.book_id == old(self).book_id,
                cfg == *self.config,
                i <= chapter.blocks@.len(),
                chapter_fits(cfg, self.metrics, *chapter),
                self.state() == with_blocks(cfg, self.metrics, titled, chapter.blocks@.take(i as int)),
            decreases chapter.blocks@.len() - i,
        {
            proof {
                assert(chapter.blocks@.take(i + 1).drop_last() =~= chapter.blocks@.take(i as int));
                assert(chapter.blocks@.take(i + 1).last() == chapter.blocks@[i as int]);
            }
            self.paginate_block(&chapter.blocks[i]);
            i = i + 1;
        }
        proof {
            assert(chapter.blocks@.take(i as int) =~= chapter.blocks@);
        }
    }

    /// Breaks the title of the chapter at position `index` into lines
    /// and places them as one frame, on the next page where they do not
    /// fit this one.
    fn add_chapter_title(&mut self, title: &str, index: usize)
        requires
            old(self).working(),
            title_fits(
                *old(self).config,
                title_line(*old(self).config, old(self).metrics),
                title@.len() as int,
            ),
        ensures
            final(self).working(),
            final(self).config == old(self).config,
            final(self).metrics == old(self).metrics,
            final(self).book_id == old(self).book_id,
            final(self).state() == with_chapter_title(
                *old(self).config,
                old(self).metrics,
                old(self).state(),
                title@,
                title_source(old(self).book_id.unwrap(), index as nat),
            ),
    {
        let ghost cfg = *self.config;
        let ghost line_height = title_line(cfg, self.metrics);
        let page_side = self.current_page_side();
        let content_width = Self::calculate_content_width(self.config, page_side);
        let book_id = self.book_id.unwrap();
        let source_id = title_identifier(&book_id, index);
        proof {
            assert(title@.len() * line_height >= 0) by (nonlinear_arith)
                requires
                    title@.len() >= 0,
                    line_height >= 0,
            ;
        }
        let breaker = LineBreaker::new(self.metrics, content_width);
        let lines = breaker.break_lines(title, &self.config.chapter_title_style, source_id);
        if lines.len() == 0 {
            return ;
        }
        proof {
            lemma_broken_len(
                self.metrics,
                content_width as int,
                title@,
                cfg.chapter_title_style,
                source_id,
            );
            assert(0 <= lines@.len() * line_height <= title@.len() * line_height)
                by (nonlinear_arith)
                requires
                    0 <= lines@.len() <= title@.len(),
                    line_height >= 0,
            ;
        }
        let total_height = self.calculate_lines_height(&lines, &self.config.chapter_title_style);
        let height_with_spacing = total_height + self.config.chapter_title_style.font_size;
        if !self.current_page.can_fit(height_with_spacing) {
            self.finalize_current_page();
        }
        let frame = TextFrame {
            id: self.next_frame_id(),
            bounds: Rectangle {
                x: Self::calculate_left_margin(self.config, self.current_page_side()),
                y: self.config.margins.top + self.current_page.current_y,
                width: content_width,
                height: total_height,
            },
            lines,
            frame_type: FrameType::ChapterTitle,
        };
        proof {
            lemma_frame_views_push(self.current_page.frames@, frame);
        }
        self.current_page.add_frame(frame, height_with_spacing);
    }

    /// Breaks a block into lines and places them.
    fn paginate_block(&mut self, block: &Block)
        requires
            old(self).working(),
            block_fits(
                body_line(*old(self).config, old(self).metrics),
                block.content@.len() as int,
            ),
        ensures
            final(self).working(),
            final(self).config == old(self).config,
            final(self).metrics == old(self).metrics,
            final(self).book_id == old(self).book_id,
            final(self).state() == with_block(
                *old(self).config,
                old(self).metrics,
                old(self).state(),
                *block,
            ),
    {
        let ghost cfg = *self.config;
        let ghost line_height = body_line(cfg, self.metrics);
        let page_side = self.current_page_side();
        let content_width = Self::calculate_content_width(self.config, page_side);
        proof {
            assert(block.content@.len() * line_height >= 0) by (nonlinear_arith)
                requires
                    block.content@.len() >= 0,
                    line_height >= 0,
            ;
        }
        let breaker = LineBreaker::new(self.metrics, content_width);
        let lines = breaker.break_lines(block.content.as_str(), &self.config.body_style, block.id);
        if lines.len() == 0 {
            return ;
        }
        proof {
            lemma_broken_len(
                self.metrics,
                content_width as int,
                block.content@,
                cfg.body_style,
                block.id,
            );
            assert(lines@.len() * line_height <= block.content@.len() * line_height)
                by (nonlinear_arith)
                requires
                    0 <= lines@.len() <= block.content@.len(),
                    line_height >= 0,
            ;
        }
        self.add_lines_to_pages(lines, block.id);
    }

    /// Places lines, as many on each page as fit, until none is left.
    fn add_lines_to_pages(&mut self, lines: Vec<TextLine>, _source_id: Uuid)
        requires
            old(self).working(),
            lines@.len() * body_line(*old(self).config, old(self).metrics) <= MAX_EXTENT,
        ensures
            final(self).working(),
            final(self).config == old(self).config,
            final(self).metrics == old(self).metrics,
            final(self).book_id == old(self).book_id,
            final(self).state() == with_lines(
                *old(self).config,
                body_line(*old(self).config, old(self).metrics),
                old(self).state(),
                line_views(lines@),
            ),
    {
        let mut lines = lines;
        let ghost cfg = *self.config;
        let ghost height = body_line(cfg, self.metrics);
        let ghost goal = with_lines(cfg, height, self.state(), line_views(lines@));
        while lines.len() > 0
            invariant
                self.working(),
                self.config == old(self).config,
                self.metrics == old(self).metrics,
                self.book_id == old(self).book_id,
                cfg == *self.config,
                height == body_line(cfg, self.metrics),
                goal == with_lines(cfg, height, self.state(), line_views(lines@)),
            decreases
                    lines@.len(),
                    (if remaining(cfg, self.state()) >= height {
                        0int
                    } else {
                        1int
                    }),
        {
            let page_side = self.current_page_side();
            let content_width = Self::calculate_content_width(self.config, page_side);
            let line_height = self.metrics.line_height(
                self.config.body_style.font_size,
                self.config.body_style.line_height,
            );
            let count = lines.len();
            let ghost available = remaining(cfg, self.state());
            let ghost before = self.state();
            let ghost all = line_views(lines@);
            let mut lines_that_fit: usize = 0;
            let mut accumulated_height: i64 = 0;
            while lines_that_fit < count && self.current_page.can_fit(
                accumulated_height + line_height,
            )
                invariant
                    self.working(),
                    cfg == *self.config,
                    line_height == height,
                    height == body_line(cfg, self.metrics),
                    available == remaining(cfg, self.state()),
                    lines_that_fit <= count,
                    accumulated_height == lines_that_fit * height,
                    0 <= accumulated_height,
                    lines_that_fit > 0 ==> accumulated_height <= available,
                    fit_count(available, height, count as int) == lines_that_fit + fit_count(
                        available - accumulated_height,
                        height,
                        count - lines_that_fit,
                    ),
                decreases count - lines_that_fit,
            {
                proof {
                    assert((lines_that_fit + 1) * height == lines_that_fit * height + height)
                        by (nonlinear_arith);
                }
                accumulated_height = accumulated_height + line_height;
                lines_that_fit = lines_that_fit + 1;
            }
            proof {
                lemma_fit_count(available, height, count as int);
                lemma_fit_count(available - accumulated_height, height, count - lines_that_fit);
                assert(lines_that_fit == fit_count(available, height, count as int));
            }
            if lines_that_fit == 0 {
                self.finalize_current_page();
                continue ;
            }
            let mut fitting_lines = lines.split_off(lines_that_fit);
            std::mem::swap(&mut lines, &mut fitting_lines);
            proof {
                assert(line_views(fitting_lines@) =~= all.take(lines_that_fit as int));
                assert(line_views(lines@) =~= all.skip(lines_that_fit as int));
            }
            rebase(&mut fitting_lines, line_height, accumulated_height);
            let frame = TextFrame {
                id: self.next_frame_id(),
                bounds: Rectangle {
                    x: Self::calculate_left_margin(self.config, page_side),
                    y: self.config.margins.top + self.current_page.current_y,
                    width: content_width,
                    height: accumulated_height,
                },
                lines: fitting_lines,
                frame_type: FrameType::BodyText,
            };
            proof {
                lemma_frame_views_push(self.current_page.frames@, frame);
            }
            self.current_page.add_frame(frame, accumulated_height);
            proof {
                assert(self.state() == with_frame(
                    cfg,
                    before,
                    current_width(cfg, before),
                    lines_that_fit * height,
                    lines_that_fit * height,
                    rebased(all.take(lines_that_fit as int), height),
                    FrameType::BodyText,
                ));
            }
            if lines.len() > 0 {
                self.finalize_current_page();
            }
        }
    }

    /// The height of the lines together.
    fn calculate_lines_height(&self, lines: &Vec<TextLine>, style: &TextStyle) -> (height: i64)
        requires
            style.font_size >= 0,
            style.line_height >= 0,
            0 <= lines@.len() * self.metrics.line_height_of(
                style.font_size as int,
                style.line_height as int,
            ) <= i64::MAX,
        ensures
            height == lines@.len() * self.metrics.line_height_of(
                style.font_size as int,
                style.line_height as int,
            ),
    {
        let line_height = self.metrics.line_height(style.font_size, style.line_height);
        (lines.len() as i128 * line_height as i128) as i64
    }

    /// The margin at the left of a page of the given side.
    fn calculate_left_margin(config: &LayoutConfig, page_side: PageSide) -> (margin: i64)
        ensures
            margin == left_margin(*config, page_side),
    {
        match page_side {
            PageSide::Left => config.margins.outer,
            PageSide::Right => config.margins.inner,
        }
    }

    /// The identifier of the next frame of the page under construction.
    fn next_frame_id(&self) -> (id: Uuid)
        requires
            self.working(),
        ensures
            id == frame_id(
                self.book_id.unwrap(),
                self.page_counter as nat,
                self.current_page.frames@.len(),
            ),
    {
        let book_id = self.book_id.unwrap();
        frame_identifier(&book_id, self.page_counter, self.current_page.frames.len())
    }

    /// The side of the page under construction.
    fn current_page_side(&self) -> (side: PageSide)
        ensures
            side == side_of(self.page_counter as int),
    {
        if self.page_counter % 2 == 0 {
            PageSide::Left
        } else {
            PageSide::Right
        }
    }

    /// Closes the page under construction and begins an empty one.
    fn finalize_current_page(&mut self)
        requires
            old(self).working(),
        ensures
            final(self).working(),
            final(self).config == old(self).config,
            final(self).metrics == old(self).metrics,
            final(self).book_id == old(self).book_id,
            final(self).state() == closed_page(old(self).state()),
    {
        let page_side = self.current_page_side();
        let mut frames: Vec<TextFrame> = Vec::new();
        std::mem::swap(&mut self.current_page.frames, &mut frames);
        let ghost closed = page_views(self.completed_pages@);
        // The page gets its number once it is in the vector, where the
        // new length is known to fit.
        let page = PageRender { page_number: 0, side: page_side, frames };
        self.completed_pages.push(page);
        let number = self.completed_pages.len();
        self.completed_pages[number - 1].page_number = number;
        self.page_counter = number;
        let content_height = Self::calculate_content_height(self.config);
        self.current_page = PageBuilder::new(content_height);
        proof {
            assert(page_views(self.completed_pages@) =~= closed_page(old(self).state()).pages);
            assert(frame_views(self.current_page.frames@) =~= Seq::<
                FrameView,
            >::empty());
        }
    }
}

/// The identifier of the frame at position `index` of the page with the
/// index `page`.
fn frame_identifier(book_id: &Uuid, page: usize, index: usize) -> (id: Uuid)
    ensures
        id == frame_id(*book_id, page as nat, index as nat),
{
    let mut name: Vec<u8> = Vec::new();
    name.push(0x66);
    push_decimal(&mut name, page);
    name.push(0x2D);
    push_decimal(&mut name, index);
    proof {
        assert(name@ =~= frame_name(page as nat, index as nat));
    }
    derived_id(book_id, name.as_slice())
}

/// The source that the fragments of a chapter's title name.
fn title_identifier(book_id: &Uuid, chapter: usize) -> (id: Uuid)
    ensures
        id == title_source(*book_id, chapter as nat),
{
    let mut name: Vec<u8> = Vec::new();
    name.push(0x74);
    push_decimal(&mut name, chapter);
    proof {
        assert(name@ =~= title_name(chapter as nat));
    }
    derived_id(book_id, name.as_slice())
}

/// Counts the offsets of the lines from the first of them.
fn rebase(lines: &mut Vec<TextLine>, line_height: i64, total: i64)
    requires
        line_height >= 0,
        total == old(lines)@.len() * line_height,
    ensures
        line_views(final(lines)@) == rebased(line_views(old(lines)@), line_height as int),
{
    let count = lines.len();
    let mut j: usize = 0;
    let mut offset: i64 = 0;
    while j < count
        invariant
            count == lines@.len(),
            count == old(lines)@.len(),
            j <= count,
            line_height >= 0,
            total == count * line_height,
            offset == j * line_height,
            forall|k: int|
                0 <= k < j ==> (#[trigger] lines@[k])@ == rebased(
                    line_views(old(lines)@),
                    line_height as int,
                )[k],
            forall|k: int| j <= k < count ==> #[trigger] lines@[k] == old(lines)@[k],
        decreases count - j,
    {
        proof {
            assert((j + 1) * line_height == j * line_height + line_height) by (nonlinear_arith);
            assert((j + 1) * line_height <= count * line_height) by (nonlinear_arith)
                requires
                    j + 1 <= count,
                    line_height >= 0,
            ;
        }
        lines[j].y_offset = offset;
        offset = offset + line_height;
        j = j + 1;
    }
    proof {
        assert(line_views(lines@) =~= rebased(line_views(old(lines)@), line_height as int));
    }
}

/// Whether `len * line_height + spacing` is at most `MAX_EXTENT`.
fn within_extent(len: usize, line_height: i64, spacing: i64) -> (within: bool)
    requires
        line_height >= 0,
        0 <= spacing <= MAX_LENGTH,
    ensures
        within == (len * line_height + spacing <= MAX_EXTENT),
{
    assert(0 <= len * line_height <= 0xffff_ffff_ffff_ffff * 0x7fff_ffff_ffff_ffff)
        by (nonlinear_arith)
        requires
            0 <= len <= 0xffff_ffff_ffff_ffff,
            0 <= line_height <= 0x7fff_ffff_ffff_ffff,
    ;
    let total: i128 = len as i128 * line_height as i128 + spacing as i128;
    total <= MAX_EXTENT as i128
}

} // verus!
