use bookwriter_core::bk_format::models::BkChapter;
use bookwriter_core::models::{
    generate_block_id, generate_chapter_id, BlockType, Book, Timestamp,
};
use uuid::Uuid;

#[test]
fn chapter_ids_are_derived_from_position_and_title() {
    let book_id = Uuid::parse_str("550e8400-e29b-41d4-a009-426655440000").unwrap();
    for (order, title) in [(0usize, "Intro"), (7, ""), (10, "Ünïcode 世界"), (12345678901, "x-y")] {
        let name = format!("{}-{}", order, title);
        assert_eq!(
            generate_chapter_id(&book_id, order, title),
            Uuid::new_v5(&book_id, name.as_bytes())
        );
    }
    assert_eq!(
        generate_chapter_id(&book_id, usize::MAX, "t"),
        Uuid::new_v5(&book_id, format!("{}-t", usize::MAX).as_bytes())
    );
    assert_ne!(generate_chapter_id(&book_id, 0, "a"), book_id);
    assert_ne!(generate_chapter_id(&book_id, 0, "a"), generate_chapter_id(&book_id, 1, "a"));
}

#[test]
fn block_ids_are_derived_from_position() {
    let chapter_id = Uuid::parse_str("550e8400-e29b-41d4-a009-426655440000").unwrap();
    for order in [0usize, 9, 10, 99, 100, 4096] {
        assert_eq!(
            generate_block_id(&chapter_id, order),
            Uuid::new_v5(&chapter_id, format!("{}", order).as_bytes())
        );
    }
}

#[test]
fn new_book_is_empty() {
    let book = Book::new("Title".into(), "Author".into());
    assert_eq!(book.title, "Title");
    assert_eq!(book.author, "Author");
    assert_eq!(book.dedication, None);
    assert_eq!(book.created_at, book.updated_at);
    assert!(book.chapters.is_empty());
    assert!(book.created_at.secs > 1_600_000_000);
    let other = Book::new("Title".into(), "Author".into());
    assert_ne!(book.id, other.id);
}

#[test]
fn add_chapter_appends_one_block() {
    let id = Uuid::parse_str("550e8400-e29b-41d4-a009-426655440000").unwrap();
    let made = Timestamp { secs: 5, nanos: 6 };
    let mut book = Book::with_identity("T".into(), "A".into(), id, made);
    assert_eq!(book.id, id);
    assert_eq!(book.created_at, made);
    let later = Timestamp { secs: 7, nanos: 8 };
    book.add_chapter_at("One".into(), "text".into(), later);
    book.add_chapter_at("Two".into(), "more".into(), later);
    assert_eq!(book.created_at, made);
    assert_eq!(book.updated_at, later);
    assert_eq!(book.chapters.len(), 2);
    let chapter = &book.chapters[1];
    assert_eq!(chapter.title, "Two");
    assert_eq!(chapter.order, 1);
    assert_eq!(chapter.id, Uuid::new_v5(&id, b"1-Two"));
    assert_eq!(chapter.created_at, later);
    assert_eq!(chapter.blocks.len(), 1);
    assert_eq!(chapter.blocks[0].content, "more");
    assert_eq!(chapter.blocks[0].order, 0);
    assert_eq!(chapter.blocks[0].block_type, BlockType::Page);
    assert_eq!(chapter.blocks[0].id, Uuid::new_v5(&chapter.id, b"0"));
    assert_eq!(chapter.content(), "more");
    book.add_chapter("Three".into(), "now".into());
    assert_eq!(book.chapters.len(), 3);
    assert!(book.updated_at.secs > 1_600_000_000);
}

#[test]
fn a_clone_keeps_the_identifiers() {
    let mut book = Book::new("Title".into(), "Author".into());
    book.add_chapter("One".into(), "text".into());
    let copy = book.clone();
    assert_eq!(copy.id, book.id);
    assert_eq!(copy.chapters[0].id, book.chapters[0].id);
    assert_eq!(copy.chapters[0].blocks[0].id, book.chapters[0].blocks[0].id);
    assert_eq!(copy.chapters[0].blocks[0].content, "text");
}

#[test]
fn new_draft_chapter_has_no_blocks() {
    let chapter = BkChapter::new("Title".to_string(), 3);
    assert_eq!(chapter.title, "Title");
    assert_eq!(chapter.order, 3);
    assert!(chapter.blocks.is_empty());
}
