//! Layout configuration: page geometry, margins and text styles, and the
//! rules a configuration has to meet before anything is laid out.

use super::types::{Alignment, TextStyle, MAX_LENGTH};
use vstd::prelude::*;

verus! {

/// Configuration for the layout engine.
#[derive(Debug, Clone, Copy, PartialEq, Eq, Structural)]
pub struct LayoutConfig {
    pub page_size: PageSize,
    pub margins: Margins,
    pub body_style: TextStyle,
    pub chapter_title_style: TextStyle,
    /// Whether every chapter after the first starts on a right-hand page.
    pub first_chapter_on_odd_page: bool,
}

/// Page dimensions in units.
#[derive(Debug, Clone, Copy, PartialEq, Eq, Structural)]
pub struct PageSize {
    pub width: i64,
    pub height: i64,
}

/// Page margins in units. The inner margin lies at the binding.
#[derive(Debug, Clone, Copy, PartialEq, Eq, Structural)]
pub struct Margins {
    pub top: i64,
    pub bottom: i64,
    pub inner: i64,
    pub outer: i64,
}

/// Why a layout was refused.
#[derive(Debug, Clone, Copy, PartialEq, Eq, Structural)]
pub enum LayoutError {
    /// A page dimension or a margin is beyond `MAX_LENGTH` in magnitude.
    GeometryOutOfRange,
    /// A font size is negative or beyond `MAX_LENGTH`.
    InvalidFontSize,
    /// A line-height multiplier is negative or beyond `MAX_LENGTH`, or a
    /// measured line height is negative.
    InvalidLineHeight,
    /// The margins leave no width for a line.
    NoLineWidth,
    /// A line of body text is taller than what the margins leave of the
    /// page.
    LineTallerThanPage,
    /// A title or a block is so long that its wrapped height could pass
    /// `MAX_EXTENT`.
    TextTooLong,
}

impl PageSize {
    /// US Letter: 8.5 by 11 inches, 612 by 792 points.
    pub fn us_letter() -> (size: PageSize)
        ensures
            size == (PageSize { width: 612_000, height: 792_000 }),
    {
        PageSize { width: 612_000, height: 792_000 }
    }

    /// A4: 210 by 297 millimetres, 595 by 842 points.
    pub fn a4() -> (size: PageSize)
        ensures
            size == (PageSize { width: 595_000, height: 842_000 }),
    {
        PageSize { width: 595_000, height: 842_000 }
    }
}

impl Margins {
    /// The same margin on all four sides.
    pub fn uniform(margin: i64) -> (margins: Margins)
        ensures
            margins == (Margins { top: margin, bottom: margin, inner: margin, outer: margin }),
    {
        Margins { top: margin, bottom: margin, inner: margin, outer: margin }
    }

    /// One margin above and below, another at both sides.
    pub fn symmetric(vertical: i64, horizontal: i64) -> (margins: Margins)
        ensures
            margins == (Margins {
                top: vertical,
                bottom: vertical,
                inner: horizontal,
                outer: horizontal,
            }),
    {
        Margins { top: vertical, bottom: vertical, inner: horizontal, outer: horizontal }
    }
}

impl Default for LayoutConfig {
    /// US Letter with one-inch margins, twelve-point body text at one and
    /// a half times the font size, twenty-four-point chapter titles at
    /// 1.2 times, and chapters that start on right-hand pages.
    fn default() -> (config: Self)
        ensures
            config == (LayoutConfig {
                page_size: PageSize { width: 612_000, height: 792_000 },
                margins: Margins { top: 72_000, bottom: 72_000, inner: 72_000, outer: 72_000 },
                body_style: TextStyle {
                    font_size: 12_000,
                    line_height: 1_500,
                    alignment: Alignment::Left,
                },
                chapter_title_style: TextStyle {
                    font_size: 24_000,
                    line_height: 1_200,
                    alignment: Alignment::Left,
                },
                first_chapter_on_odd_page: true,
            }),
            config.check() is None,
    {
        LayoutConfig {
            page_size: PageSize::us_letter(),
            margins: Margins::uniform(72_000),
            body_style: TextStyle {
                font_size: 12_000,
                line_height: 1_500,
                alignment: Alignment::Left,
            },
            chapter_title_style: TextStyle {
                font_size: 24_000,
                line_height: 1_200,
                alignment: Alignment::Left,
            },
            first_chapter_on_odd_page: true,
        }
    }
}

/// Whether `x` is at most `MAX_LENGTH` in magnitude.
pub open spec fn in_range(x: int) -> bool {
    -MAX_LENGTH <= x <= MAX_LENGTH
}

/// Whether `x` is at least zero and at most `MAX_LENGTH`.
pub open spec fn in_positive_range(x: int) -> bool {
    0 <= x <= MAX_LENGTH
}

impl LayoutConfig {
    /// The height that the top and bottom margins leave of the page.
    pub open spec fn content_height(&self) -> int {
        self.page_size.height - self.margins.top - self.margins.bottom
    }

    /// The width that the inner and outer margins leave of the page.
    pub open spec fn content_width(&self) -> int {
        self.page_size.width - self.margins.inner - self.margins.outer
    }

    /// What is wrong with the configuration by itself, the first that
    /// applies of: geometry out of range, an invalid font size, an invalid
    /// line-height multiplier, no line width; or `None`.
    pub open spec fn check(&self) -> Option<LayoutError> {
        if !(in_range(self.page_size.width as int) && in_range(self.page_size.height as int)
            && in_range(self.margins.top as int) && in_range(self.margins.bottom as int)
            && in_range(self.margins.inner as int) && in_range(self.margins.outer as int)) {
            Some(LayoutError::GeometryOutOfRange)
        } else if !(in_positive_range(self.body_style.font_size as int) && in_positive_range(
            self.chapter_title_style.font_size as int,
        )) {
            Some(LayoutError::InvalidFontSize)
        } else if !(in_positive_range(self.body_style.line_height as int) && in_positive_range(
            self.chapter_title_style.line_height as int,
        )) {
            Some(LayoutError::InvalidLineHeight)
        } else if self.content_width() <= 0 {
            Some(LayoutError::NoLineWidth)
        } else {
            None
        }
    }

    /// Checks the configuration by itself: `Ok` where nothing is wrong
    /// with it, else the error that [`LayoutConfig::check`] names.
    pub fn validate(&self) -> (out: Result<(), LayoutError>)
        ensures
            out == match self.check() {
                Some(e) => Err::<(), LayoutError>(e),
                None => Ok(()),
            },
    {
        if !(within(self.page_size.width) && within(self.page_size.height) && within(
            self.margins.top,
        ) && within(self.margins.bottom) && within(self.margins.inner) && within(
            self.margins.outer,
        )) {
            return Err(LayoutError::GeometryOutOfRange);
        }
        if !(within_positive(self.body_style.font_size) && within_positive(
            self.chapter_title_style.font_size,
        )) {
            return Err(LayoutError::InvalidFontSize);
        }
        if !(within_positive(self.body_style.line_height) && within_positive(
            self.chapter_title_style.line_height,
        )) {
            return Err(LayoutError::InvalidLineHeight);
        }
        if self.page_size.width - self.margins.inner - self.margins.outer <= 0 {
            return Err(LayoutError::NoLineWidth);
        }
        Ok(())
    }
}

/// Decides [`in_range`].
fn within(x: i64) -> (b: bool)
    ensures
        b == in_range(x as int),
{
    -MAX_LENGTH <= x && x <= MAX_LENGTH
}

/// Decides [`in_positive_range`].
fn within_positive(x: i64) -> (b: bool)
    ensures
        b == in_positive_range(x as int),
{
    0 <= x && x <= MAX_LENGTH
}

} // verus!
