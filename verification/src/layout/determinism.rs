//! A layout is determined by the book, the configuration and the
//! metrics: nothing in it is drawn at random or taken from an earlier
//! layout.

use super::config::LayoutConfig;
use super::metrics::TextMetrics;
use super::pagination::laid_out;
use super::types::TreeView;
use crate::models::Book;
use vstd::prelude::*;

verus! {

/// Laying out the same book with the same configuration and the same
/// metrics twice gives the same tree: every page, frame, identifier,
/// line and fragment of the one is that of the other.
pub proof fn lemma_same_input_same_layout<M: TextMetrics>(
    book: Book,
    config: LayoutConfig,
    metrics: &M,
    first: TreeView,
    second: TreeView,
)
    requires
        first == laid_out(book, config, metrics),
        second == laid_out(book, config, metrics),
    ensures
        first == second,
{
}

} // verus!
