//! What the parser makes of a text, line by line.
//!
//! A book file begins with metadata lines such as `@title: ...`, followed
//! by chapters. A chapter begins with `#chapter: Title`; a block of it
//! begins with `@page:` or `@block:` and runs to the next marker or
//! header. Blank lines are skipped.

use super::error::ParseFailure;
use super::models::ParserState;
use crate::ids::{parsed_uuid, v5_uuid};
use crate::models::{chapter_name, decimal, BlockType, Book, Timestamp};
use crate::text::{lines_of, run_of, starts_with, trimmed, until};
use uuid::Uuid;
use vstd::prelude::*;

verus! {

/// A chapter as read so far.
pub struct ChapterDraft {
    pub title: Seq<char>,
    pub order: int,
    pub blocks: Seq<Seq<char>>,
}

/// All that the parser holds.
pub struct Draft {
    pub state: ParserState,
    pub line_number: int,
    pub title: Option<Seq<char>>,
    pub author: Option<Seq<char>>,
    pub id: Option<Uuid>,
    pub dedication: Option<Seq<char>>,
    pub chapters: Seq<ChapterDraft>,
    pub current_chapter: Option<ChapterDraft>,
    pub current_block: Seq<char>,
}

/// A book as read, before it gets its identifiers and times.
pub struct Document {
    pub title: Seq<char>,
    pub author: Seq<char>,
    pub id: Option<Uuid>,
    pub dedication: Option<Seq<char>>,
    pub chapters: Seq<ChapterDraft>,
}

/// The draft before the first line.
pub open spec fn empty_draft() -> Draft {
    Draft {
        state: ParserState::ReadingMetadata,
        line_number: 0,
        title: None,
        author: None,
        id: None,
        dedication: None,
        chapters: Seq::empty(),
        current_chapter: None,
        current_block: Seq::empty(),
    }
}

/// The draft with the block under construction closed: where it holds
/// text and a chapter is open, the text joins the chapter's blocks,
/// without the white space around it.
pub open spec fn block_finished(draft: Draft) -> Draft {
    if draft.current_block.len() > 0 {
        match draft.current_chapter {
            Some(chapter) => Draft {
                current_chapter: Some(
                    ChapterDraft {
                        title: chapter.title,
                        order: chapter.order,
                        blocks: chapter.blocks.push(trimmed(draft.current_block)),
                    },
                ),
                current_block: Seq::empty(),
                ..draft
            },
            None => draft,
        }
    } else {
        draft
    }
}

/// The draft with the open chapter, if any, added to the chapters.
pub open spec fn chapter_finished(draft: Draft) -> Draft {
    match draft.current_chapter {
        Some(chapter) => Draft {
            chapters: draft.chapters.push(chapter),
            current_chapter: None,
            ..draft
        },
        None => draft,
    }
}

/// The draft with a line of content added to the block under
/// construction, after a line feed where the block holds text already.
pub open spec fn content_added(draft: Draft, line: Seq<char>) -> Draft {
    Draft {
        current_block: if draft.current_block.len() > 0 {
            draft.current_block + seq!['\n'] + line
        } else {
            line
        },
        ..draft
    }
}

/// The draft after a chapter header: block and chapter are closed and a
/// chapter with the header's title is opened; a header without a title
/// is an error.
pub open spec fn chapter_begun(draft: Draft, header: Seq<char>) -> Result<Draft, ParseFailure> {
    let closed = chapter_finished(block_finished(draft));
    let title = trimmed(header.skip("#chapter:"@.len() as int));
    if title.len() == 0 {
        Err(ParseFailure::MissingChapterTitle { line: draft.line_number })
    } else {
        Ok(
            Draft {
                current_chapter: Some(
                    ChapterDraft {
                        title: title,
                        order: closed.chapters.len() as int,
                        blocks: Seq::empty(),
                    },
                ),
                state: ParserState::ReadingChapterHeader,
                ..closed
            },
        )
    }
}

/// The draft after a block marker: the block under construction is
/// closed; without an open chapter the marker is an error.
pub open spec fn block_begun(draft: Draft) -> Result<Draft, ParseFailure> {
    if draft.current_chapter is None {
        Err(ParseFailure::BlockBeforeChapter { line: draft.line_number })
    } else {
        Ok(Draft { state: ParserState::ReadingBlock, ..block_finished(draft) })
    }
}

/// The name of the field of a metadata line: what stands before the
/// first colon, without the `@` signs at its start and the white space
/// around the rest.
pub open spec fn field_of(line: Seq<char>) -> Seq<char> {
    let head = line.take(until(line, ':') as int);
    trimmed(head.skip(run_of(head, '@') as int))
}

/// The value of a metadata line: what follows the first colon, without
/// the white space around it.
pub open spec fn value_of(line: Seq<char>) -> Seq<char> {
    trimmed(line.skip(until(line, ':') as int + 1))
}

/// The draft after a metadata line. A line without a colon is an error,
/// so is a second title, author, identifier or dedication, and so is an
/// identifier that is no UUID. Other fields are passed over.
pub open spec fn metadata_read(draft: Draft, line: Seq<char>) -> Result<Draft, ParseFailure> {
    if until(line, ':') >= line.len() {
        Err(
            ParseFailure::MalformedMetadata {
                line: draft.line_number,
                reason: "Expected format '@field: value'"@,
            },
        )
    } else {
        let field = field_of(line);
        let value = value_of(line);
        if field == "title"@ {
            if draft.title is Some {
                Err(ParseFailure::DuplicateMetadata { field: "title"@, line: draft.line_number })
            } else {
                Ok(Draft { title: Some(value), ..draft })
            }
        } else if field == "author"@ {
            if draft.author is Some {
                Err(ParseFailure::DuplicateMetadata { field: "author"@, line: draft.line_number })
            } else {
                Ok(Draft { author: Some(value), ..draft })
            }
        } else if field == "id"@ {
            if draft.id is Some {
                Err(ParseFailure::DuplicateMetadata { field: "id"@, line: draft.line_number })
            } else {
                match parsed_uuid(value) {
                    Some(id) => Ok(Draft { id: Some(id), ..draft }),
                    None => Err(ParseFailure::InvalidUuid),
                }
            }
        } else if field == "dedication"@ {
            if draft.dedication is Some {
                Err(
                    ParseFailure::DuplicateMetadata {
                        field: "dedication"@,
                        line: draft.line_number,
                    },
                )
            } else {
                Ok(Draft { dedication: Some(value), ..draft })
            }
        } else {
            Ok(draft)
        }
    }
}

/// Whether a line that begins with `@` names one of the four metadata
/// fields.
pub open spec fn names_metadata(line: Seq<char>) -> bool {
    starts_with(line, "@title:"@) || starts_with(line, "@author:"@) || starts_with(line, "@id:"@)
        || starts_with(line, "@dedication:"@)
}

/// Whether a line marks the start of a block.
pub open spec fn marks_block(line: Seq<char>) -> bool {
    starts_with(line, "@page:"@) || starts_with(line, "@block:"@)
}

/// The draft after one more line.
///
/// A blank line only counts. A line that begins with `#chapter:` is a
/// chapter header. A line that begins with `@` is metadata while no
/// chapter has begun, or where it names a metadata field; else it is a
/// block marker if it is one; else it is content, as is every other line.
pub open spec fn line_read(draft: Draft, line: Seq<char>) -> Result<Draft, ParseFailure> {
    let counted = Draft { line_number: draft.line_number + 1, ..draft };
    let text = trimmed(line);
    if text.len() == 0 {
        Ok(counted)
    } else if starts_with(text, "#chapter:"@) {
        chapter_begun(counted, text)
    } else if text[0] == '@' {
        if counted.state == ParserState::ReadingMetadata || names_metadata(text) {
            metadata_read(counted, text)
        } else if marks_block(text) {
            block_begun(counted)
        } else {
            Ok(content_added(counted, line))
        }
    } else {
        Ok(content_added(counted, line))
    }
}

/// The draft after a line that is refused: the line is counted, and a
/// chapter header has closed the block and the chapter that were open.
/// Nothing else is changed: a field given twice keeps its first value,
/// an identifier that is no UUID is not set, and no chapter is opened.
pub open spec fn line_refused(draft: Draft, line: Seq<char>) -> Draft {
    let counted = Draft { line_number: draft.line_number + 1, ..draft };
    if starts_with(trimmed(line), "#chapter:"@) {
        chapter_finished(block_finished(counted))
    } else {
        counted
    }
}

/// The draft after the first `count` lines, or the first error.
pub open spec fn lines_read(lines: Seq<Seq<char>>, count: int) -> Result<Draft, ParseFailure>
    decreases count,
{
    if count <= 0 {
        Ok(empty_draft())
    } else {
        match lines_read(lines, count - 1) {
            Ok(draft) => line_read(draft, lines[count - 1]),
            Err(failure) => Err(failure),
        }
    }
}

/// The document that a draft amounts to at the end of the text: block
/// and chapter are closed; a missing title, a missing author and a book
/// without chapters are errors, in this order.
pub open spec fn document_of(draft: Draft) -> Result<Document, ParseFailure> {
    let closed = chapter_finished(block_finished(draft));
    if closed.title is None {
        Err(ParseFailure::MissingMetadata { field: "title"@ })
    } else if closed.author is None {
        Err(ParseFailure::MissingMetadata { field: "author"@ })
    } else if closed.chapters.len() == 0 {
        Err(ParseFailure::NoChapters)
    } else {
        Ok(
            Document {
                title: closed.title.unwrap(),
                author: closed.author.unwrap(),
                id: closed.id,
                dedication: closed.dedication,
                chapters: closed.chapters,
            },
        )
    }
}

/// The document that a text holds, or what is wrong with the text.
pub open spec fn parsed(content: Seq<char>) -> Result<Document, ParseFailure> {
    let lines = lines_of(content);
    match lines_read(lines, lines.len() as int) {
        Ok(draft) => document_of(draft),
        Err(failure) => Err(failure),
    }
}

/// Whether `chapter` is the chapter made of `draft` in the book
/// `book_id` at the given times: title, position and the blocks' texts
/// are the draft's, and the identifiers are derived from the book's.
pub open spec fn is_chapter_of(
    chapter: crate::models::Chapter,
    draft: ChapterDraft,
    book_id: Uuid,
    created_at: Timestamp,
    updated_at: Timestamp,
) -> bool {
    &&& chapter.title@ == draft.title
    &&& chapter.order == draft.order
    &&& chapter.id == v5_uuid(book_id, chapter_name(draft.order as nat, draft.title))
    &&& chapter.created_at == created_at
    &&& chapter.updated_at == updated_at
    &&& chapter.blocks@.len() == draft.blocks.len()
    &&& forall|j: int|
        0 <= j < draft.blocks.len() ==> {
            let block = #[trigger] chapter.blocks@[j];
            &&& block.content@ == draft.blocks[j]
            &&& block.order == j
            &&& block.block_type == BlockType::Page
            &&& block.id == v5_uuid(chapter.id, decimal(j as nat))
        }
}

/// Whether `book` is the book made of `document` at the given times. A
/// document without an identifier gets one at random.
pub open spec fn is_book_of(
    book: Book,
    document: Document,
    created_at: Timestamp,
    updated_at: Timestamp,
) -> bool {
    &&& book.title@ == document.title
    &&& book.author@ == document.author
    &&& match document.dedication {
        Some(text) => book.dedication is Some && book.dedication.unwrap()@ == text,
        None => book.dedication is None,
    }
    &&& document.id is Some ==> book.id == document.id.unwrap()
    &&& book.created_at == created_at
    &&& book.updated_at == updated_at
    &&& book.chapters@.len() == document.chapters.len()
    &&& forall|i: int|
        0 <= i < document.chapters.len() ==> is_chapter_of(
            #[trigger] book.chapters@[i],
            document.chapters[i],
            book.id,
            created_at,
            updated_at,
        )
}

} // verus!
