//! The render tree: pages of positioned text frames, and the views that
//! contracts speak of.
//!
//! Every length is a whole number of units, a thousand to the point.

use uuid::Uuid;
use vstd::prelude::*;

verus! {

/// How many units make a point.
pub const UNITS_PER_POINT: i64 = 1000;

/// The largest magnitude a configured length or multiplier may have.
pub const MAX_LENGTH: i64 = 1_099_511_627_776;

/// The largest height a wrapped text may reach.
pub const MAX_EXTENT: i64 = 4_611_686_018_427_387_904;

/// Complete render output for a book.
#[derive(Debug, Clone)]
pub struct RenderTree {
    pub book_id: Uuid,
    pub pages: Vec<PageRender>,
    pub metadata: RenderMetadata,
}

/// Summary of the rendered output.
#[derive(Debug, Clone, Copy, PartialEq, Eq, Structural)]
pub struct RenderMetadata {
    pub total_pages: usize,
    pub total_chapters: usize,
}

/// A single rendered page.
#[derive(Debug, Clone)]
pub struct PageRender {
    pub page_number: usize,
    pub side: PageSide,
    pub frames: Vec<TextFrame>,
}

/// Page side, which decides where the binding margin lies.
#[derive(Debug, Clone, Copy, PartialEq, Eq, Structural)]
pub enum PageSide {
    Left,
    Right,
}

/// A positioned text box on a page.
#[derive(Debug, Clone)]
pub struct TextFrame {
    pub id: Uuid,
    pub bounds: Rectangle,
    pub lines: Vec<TextLine>,
    pub frame_type: FrameType,
}

/// What a frame holds.
#[derive(Debug, Clone, Copy, PartialEq, Eq, Structural)]
pub enum FrameType {
    ChapterTitle,
    BodyText,
    PageNumber,
}

/// A line of text with its vertical offset.
#[derive(Debug, Clone)]
pub struct TextLine {
    pub y_offset: i64,
    pub fragments: Vec<TextFragment>,
}

/// A run of text with its style and the block it came from.
#[derive(Debug, Clone)]
pub struct TextFragment {
    pub text: String,
    pub x_offset: i64,
    pub style: TextStyle,
    pub source_block_id: Uuid,
}

/// Rectangular bounds.
#[derive(Debug, Clone, Copy, PartialEq, Eq, Structural)]
pub struct Rectangle {
    pub x: i64,
    pub y: i64,
    pub width: i64,
    pub height: i64,
}

/// Text styling: the font size in units, and the line height as a
/// multiple of the font size in thousandths.
#[derive(Debug, Clone, Copy, PartialEq, Eq, Structural)]
pub struct TextStyle {
    pub font_size: i64,
    pub line_height: i64,
    pub alignment: Alignment,
}

/// Text alignment. Lines are laid out flush left; the other values are
/// carried for a renderer.
#[derive(Debug, Clone, Copy, PartialEq, Eq, Structural)]
pub enum Alignment {
    Left,
    Center,
    Right,
    Justify,
}

impl Default for TextStyle {
    /// Twelve-point text at one and a half times the font size, flush left.
    fn default() -> (style: Self)
        ensures
            style == (TextStyle { font_size: 12_000, line_height: 1_500, alignment: Alignment::Left }),
    {
        TextStyle { font_size: 12_000, line_height: 1_500, alignment: Alignment::Left }
    }
}

/// What a [`TextFragment`] holds.
pub struct FragmentView {
    pub text: Seq<char>,
    pub x_offset: int,
    pub style: TextStyle,
    pub source_block_id: Uuid,
}

/// What a [`TextLine`] holds.
pub struct LineView {
    pub y_offset: int,
    pub fragments: Seq<FragmentView>,
}

/// What a [`Rectangle`] holds.
pub struct Bounds {
    pub x: int,
    pub y: int,
    pub width: int,
    pub height: int,
}

/// What a [`TextFrame`] holds.
pub struct FrameView {
    pub id: Uuid,
    pub bounds: Bounds,
    pub lines: Seq<LineView>,
    pub frame_type: FrameType,
}

/// What a [`PageRender`] holds.
pub struct PageView {
    pub page_number: int,
    pub side: PageSide,
    pub frames: Seq<FrameView>,
}

/// What a [`RenderTree`] holds.
pub struct TreeView {
    pub book_id: Uuid,
    pub pages: Seq<PageView>,
    pub metadata: RenderMetadata,
}

impl View for Rectangle {
    type V = Bounds;

    open spec fn view(&self) -> Bounds {
        Bounds {
            x: self.x as int,
            y: self.y as int,
            width: self.width as int,
            height: self.height as int,
        }
    }
}

impl View for TextFragment {
    type V = FragmentView;

    open spec fn view(&self) -> FragmentView {
        FragmentView {
            text: self.text@,
            x_offset: self.x_offset as int,
            style: self.style,
            source_block_id: self.source_block_id,
        }
    }
}

impl View for TextLine {
    type V = LineView;

    open spec fn view(&self) -> LineView {
        LineView {
            y_offset: self.y_offset as int,
            fragments: self.fragments@.map_values(|f: TextFragment| f@),
        }
    }
}

/// The views of a sequence of lines.
pub open spec fn line_views(lines: Seq<TextLine>) -> Seq<LineView> {
    lines.map_values(|l: TextLine| l@)
}

impl View for TextFrame {
    type V = FrameView;

    open spec fn view(&self) -> FrameView {
        FrameView {
            id: self.id,
            bounds: self.bounds@,
            lines: line_views(self.lines@),
            frame_type: self.frame_type,
        }
    }
}

/// The views of a sequence of frames.
pub open spec fn frame_views(frames: Seq<TextFrame>) -> Seq<FrameView> {
    frames.map_values(|f: TextFrame| f@)
}

impl View for PageRender {
    type V = PageView;

    open spec fn view(&self) -> PageView {
        PageView {
            page_number: self.page_number as int,
            side: self.side,
            frames: frame_views(self.frames@),
        }
    }
}

/// The views of a sequence of frames with one more frame.
pub proof fn lemma_frame_views_push(frames: Seq<TextFrame>, frame: TextFrame)
    ensures
        frame_views(frames.push(frame)) == frame_views(frames).push(frame@),
{
    assert(frame_views(frames.push(frame)) =~= frame_views(frames).push(frame@));
}

/// The views of a sequence of pages.
pub open spec fn page_views(pages: Seq<PageRender>) -> Seq<PageView> {
    pages.map_values(|p: PageRender| p@)
}

impl View for RenderTree {
    type V = TreeView;

    open spec fn view(&self) -> TreeView {
        TreeView { book_id: self.book_id, pages: page_views(self.pages@), metadata: self.metadata }
    }
}

} // verus!
