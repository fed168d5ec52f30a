use bookwriter_core::bk_format::error::BkParseError;
use bookwriter_core::bk_format::parser::BkParser;
use bookwriter_core::models::Timestamp;
use chrono::Utc;

/// The current time, as the library holds times.
fn now() -> Timestamp {
    let t = Utc::now();
    Timestamp { secs: t.timestamp(), nanos: t.timestamp_subsec_nanos() }
}

#[test]
fn test_parse_complete_book() {
    let content = r#"
@title: The Way of Iron
@author: Tej
@id: 550e8400-e29b-41d4-a009-426655440000
@dedication: To my family...

#chapter: Chapter One
@block:
The morning sun cracked over the horizon...

@block:
Another day began...
    "#;

    let book = BkParser::parse_string(content, now(), now()).unwrap();
    assert_eq!(book.title, "The Way of Iron");
    assert_eq!(book.author, "Tej");
    assert_eq!(book.dedication, Some("To my family...".to_string()));
    assert_eq!(book.id.to_string(), "550e8400-e29b-41d4-a009-426655440000");
    assert_eq!(book.chapters.len(), 1);
    assert_eq!(book.chapters[0].title, "Chapter One");
    assert_eq!(book.chapters[0].blocks.len(), 2);
    assert_eq!(
        book.chapters[0].blocks[0].content,
        "The morning sun cracked over the horizon..."
    );
    assert_eq!(book.chapters[0].blocks[1].content, "Another day began...");
}

#[test]
fn test_parse_minimal_book() {
    let content = r#"
@title: My Book
@author: John Doe

#chapter: Intro
@block:
Once upon a time...
    "#;

    let book = BkParser::parse_string(content, now(), now()).unwrap();
    assert_eq!(book.title, "My Book");
    assert_eq!(book.author, "John Doe");
    assert_eq!(book.dedication, None);
    assert_eq!(book.chapters.len(), 1);
    assert_eq!(book.chapters[0].blocks.len(), 1);
}

#[test]
fn test_parse_book_without_id() {
    let content = r#"
@title: Generated ID Book
@author: Author

#chapter: Chapter 1
@block:
Content here
    "#;

    let book = BkParser::parse_string(content, now(), now()).unwrap();
    // ID should be generated automatically
    assert_ne!(book.id.to_string(), "");
}

#[test]
fn test_parse_multiple_chapters() {
    let content = r#"
@title: Multi Chapter Book
@author: Writer

#chapter: First
@block:
First content

#chapter: Second
@block:
Second content

#chapter: Third
@block:
Third content
    "#;

    let book = BkParser::parse_string(content, now(), now()).unwrap();
    assert_eq!(book.chapters.len(), 3);
    assert_eq!(book.chapters[0].title, "First");
    assert_eq!(book.chapters[1].title, "Second");
    assert_eq!(book.chapters[2].title, "Third");
    assert_eq!(book.chapters[0].order, 0);
    assert_eq!(book.chapters[1].order, 1);
    assert_eq!(book.chapters[2].order, 2);
}

#[test]
fn test_parse_multiline_content() {
    let content = r#"
@title: Multiline Book
@author: Author

#chapter: Chapter One
@block:
Line 1
Line 2
Line 3
    "#;

    let book = BkParser::parse_string(content, now(), now()).unwrap();
    assert_eq!(book.chapters[0].blocks[0].content, "Line 1\nLine 2\nLine 3");
}

#[test]
fn test_error_missing_title() {
    let content = r#"
@author: Author

#chapter: Chapter
@block:
Content
    "#;

    let result = BkParser::parse_string(content, now(), now());
    assert!(matches!(
        result,
        Err(BkParseError::MissingMetadata { field }) if field == "title"
    ));
}

#[test]
fn test_error_missing_author() {
    let content = r#"
@title: My Book

#chapter: Chapter
@block:
Content
    "#;

    let result = BkParser::parse_string(content, now(), now());
    assert!(matches!(
        result,
        Err(BkParseError::MissingMetadata { field }) if field == "author"
    ));
}

#[test]
fn test_error_invalid_uuid() {
    let content = r#"
@title: Book
@author: Author
@id: not-a-valid-uuid

#chapter: Chapter
@block:
Content
    "#;

    let result = BkParser::parse_string(content, now(), now());
    assert!(matches!(result, Err(BkParseError::InvalidUuid(_))));
}

#[test]
fn test_error_no_chapters() {
    let content = r#"
@title: Book
@author: Author
    "#;

    let result = BkParser::parse_string(content, now(), now());
    assert!(matches!(result, Err(BkParseError::NoChapters)));
}

#[test]
fn test_error_page_before_chapter() {
    let content = r#"
@title: Book
@author: Author

@block:
Content before any chapter
    "#;

    let result = BkParser::parse_string(content, now(), now());
    match &result {
        Err(BkParseError::BlockBeforeChapter { .. }) => {
            // This is the expected error
        }
        Err(BkParseError::NoChapters) => {
            // This is also acceptable - we have no chapters because @page failed to create one
            // The error shows as NoChapters at the end of the parse
        }
        _ => panic!(
            "Expected BlockBeforeChapter or NoChapters error, got: {:?}",
            result
        ),
    }
}

#[test]
fn test_error_chapter_without_title() {
    let content = r#"
@title: Book
@author: Author

#chapter:
@block:
Content
    "#;

    let result = BkParser::parse_string(content, now(), now());
    assert!(matches!(
        result,
        Err(BkParseError::MissingChapterTitle { .. })
    ));
}

#[test]
fn test_error_duplicate_title() {
    let content = r#"
@title: Book One
@title: Book Two
@author: Author

#chapter: Chapter
@block:
Content
    "#;

    let result = BkParser::parse_string(content, now(), now());
    assert!(matches!(
        result,
        Err(BkParseError::DuplicateMetadata { field, .. }) if field == "title"
    ));
}

#[test]
fn test_deterministic_chapter_ids() {
    let content = r#"
@title: Book
@author: Author
@id: 550e8400-e29b-41d4-a009-426655440000

#chapter: Chapter One
@block:
Content
    "#;

    let book1 = BkParser::parse_string(content, now(), now()).unwrap();
    let book2 = BkParser::parse_string(content, now(), now()).unwrap();

    // Same content should produce same chapter IDs
    assert_eq!(book1.chapters[0].id, book2.chapters[0].id);
}

#[test]
fn test_deterministic_block_ids() {
    let content = r#"
@title: Book
@author: Author
@id: 550e8400-e29b-41d4-a009-426655440000

#chapter: Chapter One
@block:
First block

@block:
Second block
    "#;

    let book1 = BkParser::parse_string(content, now(), now()).unwrap();
    let book2 = BkParser::parse_string(content, now(), now()).unwrap();

    // Same content should produce same block IDs
    assert_eq!(
        book1.chapters[0].blocks[0].id,
        book2.chapters[0].blocks[0].id
    );
    assert_eq!(
        book1.chapters[0].blocks[1].id,
        book2.chapters[0].blocks[1].id
    );

    // Different blocks should have different IDs
    assert_ne!(
        book1.chapters[0].blocks[0].id,
        book1.chapters[0].blocks[1].id
    );
}

#[test]
fn test_empty_blocks_ignored() {
    let content = r#"
@title: Book
@author: Author

#chapter: Chapter
@block:

@block:
Content
    "#;

    let book = BkParser::parse_string(content, now(), now()).unwrap();
    // Empty block should not create a block entry
    assert_eq!(book.chapters[0].blocks.len(), 1);
    assert_eq!(book.chapters[0].blocks[0].content, "Content");
}

#[test]
fn test_whitespace_handling() {
    let content = "  @title:   Whitespace Book  \n  @author:  Author  \n\n#chapter:  My Chapter  \n@block:\n  Content with spaces  ";

    let book = BkParser::parse_string(content, now(), now()).unwrap();
    assert_eq!(book.title, "Whitespace Book");
    assert_eq!(book.author, "Author");
    assert_eq!(book.chapters[0].title, "My Chapter");
    assert_eq!(book.chapters[0].blocks[0].content, "Content with spaces");
}

#[test]
fn test_unicode_content() {
    let content = r#"
@title: Unicode Book 📚
@author: 作者

#chapter: Chapitre Un
@block:
Hello 世界! Привет мир! 🌍
    "#;

    let book = BkParser::parse_string(content, now(), now()).unwrap();
    assert_eq!(book.title, "Unicode Book 📚");
    assert_eq!(book.author, "作者");
    assert_eq!(book.chapters[0].title, "Chapitre Un");
    assert_eq!(
        book.chapters[0].blocks[0].content,
        "Hello 世界! Привет мир! 🌍"
    );
}

#[test]
fn test_chapter_content_helper() {
    let content = r#"
@title: Book
@author: Author

#chapter: Chapter
@block:
First page

@block:
Second page
    "#;

    let book = BkParser::parse_string(content, now(), now()).unwrap();
    let chapter_content = book.chapters[0].content();
    assert!(chapter_content.contains("First page"));
    assert!(chapter_content.contains("Second page"));
    assert!(chapter_content.contains("\n\n")); // Blocks joined with double newline
}

#[test]
fn test_help_messages() {
    let error = BkParseError::MissingMetadata {
        field: "title".to_string(),
    };
    assert!(error.help_message().contains("@title:"));

    // Test InvalidUuid error help message
    let invalid_uuid_result = uuid::Uuid::parse_str("not-a-uuid");
    if let Err(uuid_err) = invalid_uuid_result {
        let error = BkParseError::InvalidUuid(uuid_err);
        assert!(error.help_message().contains("UUID"));
    }

    let error = BkParseError::NoChapters;
    assert!(error.help_message().contains("#chapter:"));
}

fn at(secs: i64) -> Timestamp {
    Timestamp { secs, nanos: 0 }
}

#[test]
fn book_gets_times_and_derived_ids() {
    let content = "@title: T\n@author: A\n@id: 550e8400-e29b-41d4-a009-426655440000\n#chapter: One\n@page:\nfirst\n@page:\nsecond\n#chapter: Two\n@block:\nthird\n";
    let book = BkParser::parse_string(content, at(10), at(20)).unwrap();
    assert_eq!(book.created_at, at(10));
    assert_eq!(book.updated_at, at(20));
    assert_eq!(book.chapters.len(), 2);
    let id = uuid::Uuid::parse_str("550e8400-e29b-41d4-a009-426655440000").unwrap();
    assert_eq!(book.id, id);
    let one = uuid::Uuid::new_v5(&id, b"0-One");
    let two = uuid::Uuid::new_v5(&id, b"1-Two");
    assert_eq!(book.chapters[0].id, one);
    assert_eq!(book.chapters[1].id, two);
    assert_eq!(book.chapters[0].created_at, at(10));
    assert_eq!(book.chapters[1].updated_at, at(20));
    assert_eq!(book.chapters[0].blocks.len(), 2);
    assert_eq!(book.chapters[0].blocks[0].id, uuid::Uuid::new_v5(&one, b"0"));
    assert_eq!(book.chapters[0].blocks[1].id, uuid::Uuid::new_v5(&one, b"1"));
    assert_eq!(book.chapters[0].blocks[1].order, 1);
    assert_eq!(book.chapters[0].blocks[1].content, "second");
    assert_eq!(book.chapters[1].blocks[0].content, "third");
    assert_eq!(book.chapters[0].content(), "first\n\nsecond");
    assert_eq!(book.chapters[1].content(), "third");
}

#[test]
fn both_block_markers_are_read() {
    let content = "@title: T\n@author: A\n#chapter: One\n@page:\na\n@block:\nb\n@other:\nc";
    let book = BkParser::parse_string(content, at(0), at(0)).unwrap();
    let blocks: Vec<&str> = book.chapters[0].blocks.iter().map(|b| b.content.as_str()).collect();
    assert_eq!(blocks, vec!["a", "b\n@other:\nc"]);
}

#[test]
fn metadata_may_follow_chapters() {
    let content = "@title: T\n#chapter: One\n@page:\na\n@author:  A  \n@dedication: D";
    let book = BkParser::parse_string(content, at(0), at(0)).unwrap();
    assert_eq!(book.author, "A");
    assert_eq!(book.dedication, Some("D".to_string()));
    assert_eq!(book.chapters[0].blocks[0].content, "a");
}

#[test]
fn unknown_metadata_is_passed_over() {
    let content = "@title: T\n@author: A\n@@ title :x\n@publisher: P\n#chapter: One\n";
    let result = BkParser::parse_string(content, at(0), at(0));
    assert!(matches!(
        result,
        Err(BkParseError::DuplicateMetadata { field, line }) if field == "title" && line == 3
    ));
    let content = "@title: T\n@author: A\n@publisher: P\n#chapter: One\n";
    let book = BkParser::parse_string(content, at(0), at(0)).unwrap();
    assert_eq!(book.chapters.len(), 1);
    assert_eq!(book.chapters[0].blocks.len(), 0);
}

#[test]
fn errors_name_the_line() {
    let result = BkParser::parse_string("\n\n@title", at(0), at(0));
    assert!(matches!(
        result,
        Err(BkParseError::MalformedMetadata { line, reason })
            if line == 3 && reason == "Expected format '@field: value'"
    ));
    let result = BkParser::parse_string("@title: T\n@author: A\n\n#chapter:   \n", at(0), at(0));
    assert!(matches!(result, Err(BkParseError::MissingChapterTitle { line }) if line == 4));
    let result = BkParser::parse_string("@title: T\n@author: A\n@author: B", at(0), at(0));
    assert!(matches!(
        result,
        Err(BkParseError::DuplicateMetadata { field, line }) if field == "author" && line == 3
    ));
    let result = BkParser::parse_string("@id: 550e8400-e29b-41d4-a009-426655440000\n@id: x", at(0), at(0));
    assert!(matches!(
        result,
        Err(BkParseError::DuplicateMetadata { field, line }) if field == "id" && line == 2
    ));
    let result = BkParser::parse_string("@dedication: a\n@dedication: b", at(0), at(0));
    assert!(matches!(
        result,
        Err(BkParseError::DuplicateMetadata { field, line }) if field == "dedication" && line == 2
    ));
    let result = BkParser::parse_string("", at(0), at(0));
    assert!(matches!(
        result,
        Err(BkParseError::MissingMetadata { field }) if field == "title"
    ));
}

#[test]
fn content_before_the_first_chapter_joins_its_first_block() {
    let content = "@title: T\n@author: A\nstray\n#chapter: One\nmore\n";
    let book = BkParser::parse_string(content, at(0), at(0)).unwrap();
    assert_eq!(book.chapters[0].blocks.len(), 1);
    assert_eq!(book.chapters[0].blocks[0].content, "stray\nmore");
}

#[test]
fn carriage_returns_end_lines_with_line_feeds() {
    let content = "@title: T\r\n@author: A\r\n#chapter: One\r\n@page:\r\na\r\nb\r\n";
    let book = BkParser::parse_string(content, at(0), at(0)).unwrap();
    assert_eq!(book.title, "T");
    assert_eq!(book.chapters[0].blocks[0].content, "a\nb");
}

#[test]
fn help_messages_in_full() {
    let error = BkParseError::MissingMetadata { field: "author".to_string() };
    assert_eq!(
        error.help_message(),
        "Add the required '@author:' field at the top of your .bk file"
    );
    let error = BkParseError::DuplicateMetadata { field: "id".to_string(), line: 2 };
    assert_eq!(
        error.help_message(),
        "Remove duplicate '@id:' field - it should only appear once"
    );
    let error = BkParseError::MalformedMetadata { line: 1, reason: "why".to_string() };
    assert_eq!(error.help_message(), "Check the metadata format: why");
    let error = BkParseError::MissingChapterTitle { line: 1 };
    assert_eq!(
        error.help_message(),
        "Chapter declaration must include a title: '#chapter: Your Title'"
    );
    let error = BkParseError::BlockBeforeChapter { line: 1 };
    assert_eq!(error.help_message(), "Move @page: blocks inside a #chapter: section");
    assert_eq!(
        BkParseError::NoChapters.help_message(),
        "Add at least one chapter using '#chapter: Chapter Title'"
    );
    assert_eq!(BkParseError::EmptyFile.help_message(), "");
}
