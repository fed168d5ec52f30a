//! The layout engine: from a book to pages of positioned text.

pub mod config;
pub mod determinism;
pub mod line_breaker;
pub mod metrics;
pub mod page_growth;
pub mod page_soundness;
pub mod pagination;
pub mod paginator;
pub mod reading_order;
pub mod types;

use crate::models::Book;
use config::{LayoutConfig, LayoutError};
use metrics::{SimpleTextMetrics, TextMetrics};
use pagination::{laid_out, layout_error, numbered};
use paginator::Paginator;
use types::RenderTree;
use vstd::prelude::*;

verus! {

/// Lays a book out with the default metrics: the render tree, or the
/// error that [`layout_error`] names.
pub fn layout_book(book: &Book, config: &LayoutConfig) -> (out: Result<RenderTree, LayoutError>)
    ensures
        match layout_error(*book, *config, &(SimpleTextMetrics { avg_char_width_ratio: 600 })) {
            Some(e) => out == Err::<RenderTree, LayoutError>(e),
            None => {
                &&& out is Ok
                &&& out.unwrap()@ == laid_out(
                    *book,
                    *config,
                    &(SimpleTextMetrics { avg_char_width_ratio: 600 }),
                )
                &&& numbered(out.unwrap()@.pages)
                &&& out.unwrap().metadata.total_pages == out.unwrap().pages@.len()
                &&& out.unwrap().metadata.total_chapters == book.chapters@.len()
            },
        },
{
    let metrics = SimpleTextMetrics::default();
    layout_book_with_metrics(book, config, &metrics)
}

/// Lays a book out with the given metrics: the render tree, or the error
/// that [`layout_error`] names.
pub fn layout_book_with_metrics<M: TextMetrics>(
    book: &Book,
    config: &LayoutConfig,
    metrics: &M,
) -> (out: Result<RenderTree, LayoutError>)
    ensures
        match layout_error(*book, *config, metrics) {
            Some(e) => out == Err::<RenderTree, LayoutError>(e),
            None => {
                &&& out is Ok
                &&& out.unwrap()@ == laid_out(*book, *config, metrics)
                &&& numbered(out.unwrap()@.pages)
                &&& out.unwrap().metadata.total_pages == out.unwrap().pages@.len()
                &&& out.unwrap().metadata.total_chapters == book.chapters@.len()
            },
        },
{
    let mut paginator = Paginator::new(config, metrics);
    paginator.paginate(book)
}

} // verus!
