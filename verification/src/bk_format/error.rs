//! What can be wrong with a book file.

use vstd::prelude::*;
use vstd::string::StringExecFns;

verus! {

/// Errors that can occur while parsing a book file.
#[derive(Debug)]
pub enum BkParseError {
    /// A required metadata field is missing.
    MissingMetadata { field: String },
    /// The `@id` field is not a UUID.
    InvalidUuid(uuid::Error),
    /// A metadata line has no colon.
    MalformedMetadata { line: usize, reason: String },
    /// A chapter header has no title.
    MissingChapterTitle { line: usize },
    /// A block marker stands before any chapter.
    BlockBeforeChapter { line: usize },
    /// The file holds nothing.
    EmptyFile,
    /// The book has no chapters.
    NoChapters,
    /// A metadata field is given twice.
    DuplicateMetadata { field: String, line: usize },
}

/// What a [`BkParseError`] says, without the detail of why a UUID was
/// refused.
pub enum ParseFailure {
    MissingMetadata { field: Seq<char> },
    InvalidUuid,
    MalformedMetadata { line: int, reason: Seq<char> },
    MissingChapterTitle { line: int },
    BlockBeforeChapter { line: int },
    EmptyFile,
    NoChapters,
    DuplicateMetadata { field: Seq<char>, line: int },
}

impl View for BkParseError {
    type V = ParseFailure;

    open spec fn view(&self) -> ParseFailure {
        match *self {
            BkParseError::MissingMetadata { field } => ParseFailure::MissingMetadata {
                field: field@,
            },
            BkParseError::InvalidUuid(_) => ParseFailure::InvalidUuid,
            BkParseError::MalformedMetadata { line, reason } => ParseFailure::MalformedMetadata {
                line: line as int,
                reason: reason@,
            },
            BkParseError::MissingChapterTitle { line } => ParseFailure::MissingChapterTitle {
                line: line as int,
            },
            BkParseError::BlockBeforeChapter { line } => ParseFailure::BlockBeforeChapter {
                line: line as int,
            },
            BkParseError::EmptyFile => ParseFailure::EmptyFile,
            BkParseError::NoChapters => ParseFailure::NoChapters,
            BkParseError::DuplicateMetadata { field, line } => ParseFailure::DuplicateMetadata {
                field: field@,
                line: line as int,
            },
        }
    }
}

/// Guidance for mending what a failure reports; nothing for an empty
/// file.
pub open spec fn help_text(failure: ParseFailure) -> Seq<char> {
    match failure {
        ParseFailure::MissingMetadata { field } => "Add the required '@"@ + field
            + ":' field at the top of your .bk file"@,
        ParseFailure::InvalidUuid =>
            "The @id field must be a valid UUID (e.g., 550e8400-e29b-41d4-a009-426655440000). You can omit @id to generate one automatically."@,
        ParseFailure::BlockBeforeChapter { line } =>
            "Move @page: blocks inside a #chapter: section"@,
        ParseFailure::NoChapters => "Add at least one chapter using '#chapter: Chapter Title'"@,
        ParseFailure::MalformedMetadata { line, reason } => "Check the metadata format: "@
            + reason,
        ParseFailure::MissingChapterTitle { line } =>
            "Chapter declaration must include a title: '#chapter: Your Title'"@,
        ParseFailure::DuplicateMetadata { field, line } => "Remove duplicate '@"@ + field
            + ":' field - it should only appear once"@,
        ParseFailure::EmptyFile => Seq::empty(),
    }
}

impl BkParseError {
    /// Guidance for mending the error.
    pub fn help_message(&self) -> (out: String)
        ensures
            out@ == help_text(self@),
    {
        match self {
            BkParseError::MissingMetadata { field } => {
                let mut out = String::from_str("Add the required '@");
                out.append(field.as_str());
                out.append(":' field at the top of your .bk file");
                out
            },
            BkParseError::InvalidUuid(_) => String::from_str(
                "The @id field must be a valid UUID (e.g., 550e8400-e29b-41d4-a009-426655440000). You can omit @id to generate one automatically.",
            ),
            BkParseError::BlockBeforeChapter { .. } => String::from_str(
                "Move @page: blocks inside a #chapter: section",
            ),
            BkParseError::NoChapters => String::from_str(
                "Add at least one chapter using '#chapter: Chapter Title'",
            ),
            BkParseError::MalformedMetadata { reason, .. } => {
                let mut out = String::from_str("Check the metadata format: ");
                out.append(reason.as_str());
                out
            },
            BkParseError::MissingChapterTitle { .. } => String::from_str(
                "Chapter declaration must include a title: '#chapter: Your Title'",
            ),
            BkParseError::DuplicateMetadata { field, .. } => {
                let mut out = String::from_str("Remove duplicate '@");
                out.append(field.as_str());
                out.append(":' field - it should only appear once");
                out
            },
            BkParseError::EmptyFile => String::new(),
        }
    }
}

} // verus!
