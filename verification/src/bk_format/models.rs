//! What the parser holds while it reads.

use super::grammar::ChapterDraft;
use crate::text::texts;
use uuid::Uuid;
use vstd::prelude::*;

verus! {

/// Where the parser is in a file.
#[derive(Debug, Clone, Copy, PartialEq, Eq, Structural)]
pub enum ParserState {
    ReadingMetadata,
    ReadingChapterHeader,
    ReadingBlock,
}

/// The metadata read so far.
#[derive(Debug)]
pub struct BkMetadata {
    pub title: Option<String>,
    pub author: Option<String>,
    pub id: Option<Uuid>,
    pub dedication: Option<String>,
}

impl Default for BkMetadata {
    /// No field set.
    fn default() -> (metadata: Self)
        ensures
            metadata.title is None,
            metadata.author is None,
            metadata.id is None,
            metadata.dedication is None,
    {
        BkMetadata { title: None, author: None, id: None, dedication: None }
    }
}

/// A chapter as it is read: its title, its position, and the text of its
/// blocks.
#[derive(Debug)]
pub struct BkChapter {
    pub title: String,
    pub order: usize,
    pub blocks: Vec<String>,
}

impl View for BkChapter {
    type V = ChapterDraft;

    open spec fn view(&self) -> ChapterDraft {
        ChapterDraft { title: self.title@, order: self.order as int, blocks: texts(self.blocks@) }
    }
}

/// The views of a sequence of chapters.
pub open spec fn chapter_drafts(chapters: Seq<BkChapter>) -> Seq<ChapterDraft> {
    chapters.map_values(|c: BkChapter| c@)
}

/// What an optional text holds.
pub open spec fn text_of(text: Option<String>) -> Option<Seq<char>> {
    match text {
        Some(s) => Some(s@),
        None => None,
    }
}

impl BkChapter {
    /// A chapter without blocks.
    pub fn new(title: String, order: usize) -> (chapter: Self)
        ensures
            chapter.title == title,
            chapter.order == order,
            chapter.blocks@.len() == 0,
            chapter@ == (ChapterDraft {
                title: title@,
                order: order as int,
                blocks: Seq::<Seq<char>>::empty(),
            }),
    {
        let chapter = BkChapter { title, order, blocks: Vec::new() };
        proof {
            assert(texts(chapter.blocks@) =~= Seq::<Seq<char>>::empty());
        }
        chapter
    }
}

} // verus!
