//! The core of a book writer: the document, its textual format, and the
//! layout engine that breaks a book into lines and fills pages with
//! them.
//!
//! Lengths are whole numbers of units, a thousand to the point, and
//! ratios are whole numbers of thousandths, so that every layout decision
//! is exact.

pub mod bk_format;
pub mod ids;
pub mod layout;
pub mod models;
pub mod text;
pub mod utils;
