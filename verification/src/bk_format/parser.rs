//! The parser for book files: a state machine that is fed line by line.

use super::error::{BkParseError, ParseFailure};
use super::grammar::{
    block_begun, block_finished, chapter_begun, chapter_finished, content_added, document_of,
    empty_draft, field_of, is_book_of, is_chapter_of, line_read, line_refused, lines_read, metadata_read, parsed, value_of, ChapterDraft, Draft,
};
use super::models::{chapter_drafts, text_of, BkChapter, BkMetadata, ParserState};
use crate::ids::{parse_id, random_id};
use crate::models::{
    generate_block_id, generate_chapter_id, Block, BlockType, Book, Chapter, Timestamp,
};
use crate::text::{
    begins_with, chars_of, find, lines_of, same_text, skip_run, split_lines, string_from, texts,
    trim_bounds, trimmed,
};
use vstd::prelude::*;
use vstd::string::StringExecFns;

verus! {

/// Parser for book files.
pub struct BkParser {
    pub state: ParserState,
    pub line_number: usize,
    pub metadata: BkMetadata,
    pub chapters: Vec<BkChapter>,
    pub current_chapter: Option<BkChapter>,
    pub current_block: String,
}

impl View for BkParser {
    type V = Draft;

    open spec fn view(&self) -> Draft {
        Draft {
            state: self.state,
            line_number: self.line_number as int,
            title: text_of(self.metadata.title),
            author: text_of(self.metadata.author),
            id: self.metadata.id,
            dedication: text_of(self.metadata.dedication),
            chapters: chapter_drafts(self.chapters@),
            current_chapter: match self.current_chapter {
                Some(chapter) => Some(chapter@),
                None => None,
            },
            current_block: self.current_block@,
        }
    }
}

/// `text` without the white space around it.
fn trim(text: &str) -> (out: String)
    ensures
        out@ == trimmed(text@),
{
    let chars = chars_of(text);
    let (a, b) = trim_bounds(&chars, 0, chars.len());
    proof {
        assert(chars@.subrange(0, chars@.len() as int) =~= chars@);
    }
    string_from(&chars, a, b)
}

impl BkParser {
    /// A parser that has read nothing.
    pub fn new() -> (parser: Self)
        ensures
            parser@ == empty_draft(),
    {
        let parser = BkParser {
            state: ParserState::ReadingMetadata,
            line_number: 0,
            metadata: BkMetadata::default(),
            chapters: Vec::new(),
            current_chapter: None,
            current_block: String::new(),
        };
        proof {
            assert(chapter_drafts(parser.chapters@) =~= Seq::<ChapterDraft>::empty());
        }
        parser
    }

    /// Parses a book from text. The book gets the given times; where
    /// the text gives no identifier, the book gets one at random.
    pub fn parse_string(content: &str, created_at: Timestamp, updated_at: Timestamp) -> (out:
        Result<Book, BkParseError>)
        ensures
            match parsed(content@) {
                Ok(document) => out is Ok && is_book_of(
                    out.unwrap(),
                    document,
                    created_at,
                    updated_at,
                ),
                Err(failure) => out is Err && out.unwrap_err()@ == failure,
            },
    {
        let lines = split_lines(content);
        let mut parser = Self::new();
        let mut i: usize = 0;
        while i < lines.len()
            invariant
                i <= lines@.len(),
                texts(lines@) == lines_of(content@),
                parser.line_number == i,
                lines_read(lines_of(content@), i as int) == Ok::<Draft, ParseFailure>(parser@),
            decreases lines@.len() - i,
        {
            let line = lines[i].clone();
            proof {
                assert(texts(lines@)[i as int] == lines@[i as int]@);
            }
            match parser.parse_line(line) {
                Ok(()) => {},
                Err(e) => {
                    proof {
                        lemma_lines_read_stops(lines_of(content@), i + 1, lines@.len() as int);
                    }
                    return Err(e);
                },
            }
            i = i + 1;
        }
        parser.finalize_with_timestamps(created_at, updated_at)
    }

    /// Reads one line.
    fn parse_line(&mut self, line: String) -> (out: Result<(), BkParseError>)
        requires
            old(self).line_number < usize::MAX,
        ensures
            match line_read(old(self)@, line@) {
                Ok(draft) => out is Ok && final(self)@ == draft,
                Err(failure) => out is Err && out.unwrap_err()@ == failure && final(self)@
                    == line_refused(old(self)@, line@),
            },
    {
        self.line_number = self.line_number + 1;
        let chars = chars_of(line.as_str());
        let (a, b) = trim_bounds(&chars, 0, chars.len());
        proof {
            assert(chars@.subrange(0, chars@.len() as int) =~= chars@);
        }
        let ghost text = trimmed(line@);
        if a == b {
            return Ok(());
        }
        let trimmed_line = string_from(&chars, a, b);
        if begins_with(&chars, a, b, &chars_of("#chapter:")) {
            return self.parse_chapter_header(trimmed_line.as_str());
        }
        proof {
            assert(text[0] == chars@[a as int]);
        }
        if chars[a] == '@' {
            if self.state == ParserState::ReadingMetadata || begins_with(
                &chars,
                a,
                b,
                &chars_of("@title:"),
            ) || begins_with(&chars, a, b, &chars_of("@author:")) || begins_with(
                &chars,
                a,
                b,
                &chars_of("@id:"),
            ) || begins_with(&chars, a, b, &chars_of("@dedication:")) {
                return self.parse_metadata(trimmed_line.as_str());
            } else if begins_with(&chars, a, b, &chars_of("@page:")) || begins_with(
                &chars,
                a,
                b,
                &chars_of("@block:"),
            ) {
                return self.parse_block_marker(trimmed_line.as_str());
            } else {
                self.accumulate_content(line);
            }
            return Ok(());
        }
        self.accumulate_content(line);
        Ok(())
    }

    /// Reads a metadata line such as `@title: ...`.
    fn parse_metadata(&mut self, line: &str) -> (out: Result<(), BkParseError>)
        ensures
            match metadata_read(old(self)@, line@) {
                Ok(draft) => out is Ok && final(self)@ == draft,
                Err(failure) => out is Err && out.unwrap_err()@ == failure && final(self)@ == old(
                    self,
                )@,
            },
    {
        let chars = chars_of(line);
        let n = chars.len();
        proof {
            assert(chars@.subrange(0, n as int) =~= chars@);
        }
        let colon = find(&chars, 0, n, ':');
        if colon == n {
            return Err(
                BkParseError::MalformedMetadata {
                    line: self.line_number,
                    reason: String::from_str("Expected format '@field: value'"),
                },
            );
        }
        let name_start = skip_run(&chars, 0, colon, '@');
        let (fa, fb) = trim_bounds(&chars, name_start, colon);
        let (va, vb) = trim_bounds(&chars, colon + 1, n);
        proof {
            let head = line@.take(colon as int);
            assert(head =~= chars@.subrange(0, colon as int));
            assert(head.skip(name_start as int) =~= chars@.subrange(
                name_start as int,
                colon as int,
            ));
            assert(line@.skip(colon + 1) =~= chars@.subrange(colon + 1, n as int));
            assert(chars@.subrange(fa as int, fb as int) == field_of(line@));
            assert(chars@.subrange(va as int, vb as int) == value_of(line@));
        }
        let value = string_from(&chars, va, vb);
        if same_text(&chars, fa, fb, &chars_of("title")) {
            if self.metadata.title.is_some() {
                return Err(
                    BkParseError::DuplicateMetadata {
                        field: String::from_str("title"),
                        line: self.line_number,
                    },
                );
            }
            self.metadata.title = Some(value);
        } else if same_text(&chars, fa, fb, &chars_of("author")) {
            if self.metadata.author.is_some() {
                return Err(
                    BkParseError::DuplicateMetadata {
                        field: String::from_str("author"),
                        line: self.line_number,
                    },
                );
            }
            self.metadata.author = Some(value);
        } else if same_text(&chars, fa, fb, &chars_of("id")) {
            if self.metadata.id.is_some() {
                return Err(
                    BkParseError::DuplicateMetadata {
                        field: String::from_str("id"),
                        line: self.line_number,
                    },
                );
            }
            match parse_id(value.as_str()) {
                Ok(id) => {
                    self.metadata.id = Some(id);
                },
                Err(e) => {
                    return Err(BkParseError::InvalidUuid(e));
                },
            }
        } else if same_text(&chars, fa, fb, &chars_of("dedication")) {
            if self.metadata.dedication.is_some() {
                return Err(
                    BkParseError::DuplicateMetadata {
                        field: String::from_str("dedication"),
                        line: self.line_number,
                    },
                );
            }
            self.metadata.dedication = Some(value);
        }
        Ok(())
    }

    /// Reads a chapter header, `#chapter: Title`.
    fn parse_chapter_header(&mut self, line: &str) -> (out: Result<(), BkParseError>)
        requires
            crate::text::starts_with(line@, "#chapter:"@),
        ensures
            match chapter_begun(old(self)@, line@) {
                Ok(draft) => out is Ok && final(self)@ == draft,
                Err(failure) => out is Err && out.unwrap_err()@ == failure && final(self)@
                    == chapter_finished(block_finished(old(self)@)),
            },
    {
        self.finish_current_block();
        self.finish_current_chapter();
        let chars = chars_of(line);
        let prefix = chars_of("#chapter:");
        let (a, b) = trim_bounds(&chars, prefix.len(), chars.len());
        proof {
            assert(line@.skip("#chapter:"@.len() as int) =~= chars@.subrange(
                prefix@.len() as int,
                chars@.len() as int,
            ));
        }
        if a == b {
            return Err(BkParseError::MissingChapterTitle { line: self.line_number });
        }
        let title = string_from(&chars, a, b);
        let order = self.chapters.len();
        self.current_chapter = Some(BkChapter::new(title, order));
        self.state = ParserState::ReadingChapterHeader;
        Ok(())
    }

    /// Reads a block marker.
    fn parse_block_marker(&mut self, _line: &str) -> (out: Result<(), BkParseError>)
        ensures
            match block_begun(old(self)@) {
                Ok(draft) => out is Ok && final(self)@ == draft,
                Err(failure) => out is Err && out.unwrap_err()@ == failure && final(self)@ == old(
                    self,
                )@,
            },
    {
        if self.current_chapter.is_none() {
            return Err(BkParseError::BlockBeforeChapter { line: self.line_number });
        }
        self.finish_current_block();
        self.state = ParserState::ReadingBlock;
        Ok(())
    }

    /// Adds a line to the block under construction.
    fn accumulate_content(&mut self, line: String)
        ensures
            final(self)@ == content_added(old(self)@, line@),
    {
        if !self.current_block.as_str().is_empty() {
            proof {
                reveal_strlit("\n");
                assert("\n"@ =~= seq!['\n']);
            }
            self.current_block.append("\n");
        }
        self.current_block.append(line.as_str());
        proof {
            assert(self.current_block@ =~= content_added(old(self)@, line@).current_block);
        }
    }

    /// Closes the block under construction and adds it to the open
    /// chapter.
    fn finish_current_block(&mut self)
        ensures
            final(self)@ == block_finished(old(self)@),
    {
        if !self.current_block.as_str().is_empty() {
            let mut current: Option<BkChapter> = None;
            std::mem::swap(&mut self.current_chapter, &mut current);
            match current {
                Some(chapter) => {
                    let mut chapter = chapter;
                    let ghost before = chapter@;
                    let block = trim(self.current_block.as_str());
                    chapter.blocks.push(block);
                    proof {
                        assert(texts(chapter.blocks@) =~= before.blocks.push(block@));
                    }
                    self.current_chapter = Some(chapter);
                    self.current_block = String::new();
                },
                None => {},
            }
        }
    }

    /// Closes the open chapter and adds it to the chapters.
    fn finish_current_chapter(&mut self)
        ensures
            final(self)@ == chapter_finished(old(self)@),
    {
        let mut current: Option<BkChapter> = None;
        std::mem::swap(&mut self.current_chapter, &mut current);
        match current {
            Some(chapter) => {
                proof {
                    assert(chapter_drafts(self.chapters@.push(chapter)) =~= chapter_drafts(
                        self.chapters@,
                    ).push(chapter@));
                }
                self.chapters.push(chapter);
            },
            None => {},
        }
    }

    /// Ends the parse and makes the book, with the given times.
    fn finalize_with_timestamps(self, created_at: Timestamp, updated_at: Timestamp) -> (out:
        Result<Book, BkParseError>)
        ensures
            match document_of(self@) {
                Ok(document) => out is Ok && is_book_of(
                    out.unwrap(),
                    document,
                    created_at,
                    updated_at,
                ),
                Err(failure) => out is Err && out.unwrap_err()@ == failure,
            },
    {
        let mut parser = self;
        parser.finish_current_block();
        parser.finish_current_chapter();
        let ghost closed = parser@;
        let BkParser { metadata, chapters: drafts, .. } = parser;
        let BkMetadata { title, author, id, dedication } = metadata;
        let title = match title {
            Some(title) => title,
            None => {
                return Err(BkParseError::MissingMetadata { field: String::from_str("title") });
            },
        };
        let author = match author {
            Some(author) => author,
            None => {
                return Err(BkParseError::MissingMetadata { field: String::from_str("author") });
            },
        };
        let book_id = match id {
            Some(id) => id,
            None => random_id(),
        };
        if drafts.len() == 0 {
            return Err(BkParseError::NoChapters);
        }
        let mut chapters: Vec<Chapter> = Vec::new();
        let mut i: usize = 0;
        while i < drafts.len()
            invariant
                i <= drafts@.len(),
                chapters@.len() == i,
                forall|k: int|
                    0 <= k < i ==> is_chapter_of(
                        #[trigger] chapters@[k],
                        drafts@[k]@,
                        book_id,
                        created_at,
                        updated_at,
                    ),
            decreases drafts@.len() - i,
        {
            let draft = &drafts[i];
            let chapter_id = generate_chapter_id(&book_id, draft.order, draft.title.as_str());
            let mut blocks: Vec<Block> = Vec::new();
            let mut j: usize = 0;
            while j < draft.blocks.len()
                invariant
                    j <= draft.blocks@.len(),
                    blocks@.len() == j,
                    forall|k: int|
                        0 <= k < j ==> {
                            let block = #[trigger] blocks@[k];
                            &&& block.content@ == draft.blocks@[k]@
                            &&& block.order == k
                            &&& block.block_type == BlockType::Page
                            &&& block.id == crate::ids::v5_uuid(
                                chapter_id,
                                crate::models::decimal(k as nat),
                            )
                        },
                decreases draft.blocks@.len() - j,
            {
                let block = Block {
                    id: generate_block_id(&chapter_id, j),
                    content: draft.blocks[j].clone(),
                    order: j,
                    block_type: BlockType::Page,
                };
                blocks.push(block);
                j = j + 1;
            }
            let chapter = Chapter {
                id: chapter_id,
                title: draft.title.clone(),
                blocks,
                order: draft.order,
                created_at,
                updated_at,
            };
            proof {
                assert forall|k: int| 0 <= k < draft@.blocks.len() implies draft@.blocks[k]
                    == draft.blocks@[k]@ by {}
                assert(is_chapter_of(chapter, draft@, book_id, created_at, updated_at));
            }
            chapters.push(chapter);
            i = i + 1;
        }
        let book = Book { id: book_id, title, author, dedication, created_at, updated_at, chapters };
        proof {
            let document = document_of(self@)->Ok_0;
            assert forall|k: int| 0 <= k < document.chapters.len() implies is_chapter_of(
                #[trigger] book.chapters@[k],
                document.chapters[k],
                book.id,
                created_at,
                updated_at,
            ) by {
                assert(document.chapters[k] == drafts@[k]@);
            }
        }
        Ok(book)
    }
}

impl Default for BkParser {
    /// A parser that has read nothing.
    fn default() -> (parser: Self)
        ensures
            parser@ == empty_draft(),
    {
        Self::new()
    }
}

/// Once a line is refused, the text is.
proof fn lemma_lines_read_stops(lines: Seq<Seq<char>>, at: int, count: int)
    requires
        0 <= at <= count,
        lines_read(lines, at) is Err,
    ensures
        lines_read(lines, count) == lines_read(lines, at),
    decreases count - at,
{
    if at < count {
        lemma_lines_read_stops(lines, at, count - 1);
    }
}

} // verus!
