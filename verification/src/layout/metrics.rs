//! Text measurement: how wide a text is and how tall a line, at a font
//! size.

use vstd::prelude::*;
use vstd::string::StrSliceExecFns;

verus! {

/// A strategy for measuring text. Font sizes and results are in units; a
/// multiplier is in thousandths.
///
/// What an implementation returns is a function of its arguments alone,
/// named by the three spec functions, and no width is negative.
pub trait TextMetrics {
    /// The width of `text` at `font_size`.
    spec fn text_width(&self, text: Seq<char>, font_size: int) -> int;

    /// The width of the character `c` at `font_size`.
    spec fn char_width(&self, c: char, font_size: int) -> int;

    /// The height of a line at `font_size` under `multiplier`.
    spec fn line_height_of(&self, font_size: int, multiplier: int) -> int;

    /// No width is negative.
    proof fn widths_not_negative(&self, text: Seq<char>, c: char, font_size: int)
        requires
            font_size >= 0,
        ensures
            self.text_width(text, font_size) >= 0,
            self.char_width(c, font_size) >= 0,
    ;

    /// Measures the width of a text at a font size.
    fn measure_text(&self, text: &str, font_size: i64) -> (width: i64)
        requires
            font_size >= 0,
        ensures
            width == self.text_width(text@, font_size as int),
            width >= 0,
    ;

    /// Measures the width of a single character at a font size.
    fn measure_char(&self, c: char, font_size: i64) -> (width: i64)
        requires
            font_size >= 0,
        ensures
            width == self.char_width(c, font_size as int),
            width >= 0,
    ;

    /// Computes the line height for a font size and a multiplier.
    fn line_height(&self, font_size: i64, multiplier: i64) -> (height: i64)
        requires
            font_size >= 0,
            multiplier >= 0,
        ensures
            height == self.line_height_of(font_size as int, multiplier as int),
    ;
}

/// `x`, or the largest `i64` where `x` is beyond it.
pub open spec fn capped(x: int) -> int {
    if x > i64::MAX {
        i64::MAX as int
    } else {
        x
    }
}

/// Measurement by character count: every character is as wide as a fixed
/// share of the font size.
#[derive(Debug, Clone, Copy, PartialEq, Eq, Structural)]
pub struct SimpleTextMetrics {
    /// The width of a character in thousandths of the font size.
    pub avg_char_width_ratio: u32,
}

impl SimpleTextMetrics {
    /// The width of one character at `font_size`.
    pub open spec fn unit_width(&self, font_size: int) -> int {
        capped(font_size * self.avg_char_width_ratio / 1000)
    }

    /// A character is not narrower than nothing.
    pub proof fn unit_width_not_negative(&self, font_size: int)
        requires
            font_size >= 0,
        ensures
            self.unit_width(font_size) >= 0,
    {
        assert(font_size * self.avg_char_width_ratio >= 0) by (nonlinear_arith)
            requires
                font_size >= 0,
                self.avg_char_width_ratio >= 0,
        ;
    }
}

impl Default for SimpleTextMetrics {
    /// Six tenths of the font size for each character.
    fn default() -> (metrics: Self)
        ensures
            metrics.avg_char_width_ratio == 600,
    {
        SimpleTextMetrics { avg_char_width_ratio: 600 }
    }
}

/// `a * b / 1000` for two numbers that are not negative, capped at the
/// largest `i64`.
fn scaled(a: i64, b: i64) -> (out: i64)
    requires
        a >= 0,
        b >= 0,
    ensures
        out == capped(a * b / 1000),
        out >= 0,
{
    assert(0 <= a * b <= 0x7fff_ffff_ffff_ffff * 0x7fff_ffff_ffff_ffff) by (nonlinear_arith)
        requires
            0 <= a <= 0x7fff_ffff_ffff_ffff,
            0 <= b <= 0x7fff_ffff_ffff_ffff,
    ;
    let product: i128 = (a as i128) * (b as i128);
    let q: i128 = product / 1000;
    if q > i64::MAX as i128 {
        i64::MAX
    } else {
        q as i64
    }
}

/// `n * w` for a count and a width that is not negative, capped at the
/// largest `i64`.
fn repeated(n: usize, w: i64) -> (out: i64)
    requires
        w >= 0,
    ensures
        out == capped(n * w),
        out >= 0,
{
    assert(0 <= n * w <= 0xffff_ffff_ffff_ffff * 0x7fff_ffff_ffff_ffff) by (nonlinear_arith)
        requires
            0 <= n <= 0xffff_ffff_ffff_ffff,
            0 <= w <= 0x7fff_ffff_ffff_ffff,
    ;
    let product: i128 = (n as i128) * (w as i128);
    if product > i64::MAX as i128 {
        i64::MAX
    } else {
        product as i64
    }
}

impl TextMetrics for SimpleTextMetrics {
    open spec fn text_width(&self, text: Seq<char>, font_size: int) -> int {
        capped(text.len() * self.unit_width(font_size))
    }

    open spec fn char_width(&self, c: char, font_size: int) -> int {
        self.unit_width(font_size)
    }

    open spec fn line_height_of(&self, font_size: int, multiplier: int) -> int {
        capped(font_size * multiplier / 1000)
    }

    proof fn widths_not_negative(&self, text: Seq<char>, c: char, font_size: int) {
        self.unit_width_not_negative(font_size);
        assert(text.len() * self.unit_width(font_size) >= 0) by (nonlinear_arith)
            requires
                self.unit_width(font_size) >= 0,
                text.len() >= 0,
        ;
    }

    fn measure_text(&self, text: &str, font_size: i64) -> (width: i64) {
        let unit = scaled(font_size, self.avg_char_width_ratio as i64);
        repeated(text.unicode_len(), unit)
    }

    fn measure_char(&self, _c: char, font_size: i64) -> (width: i64) {
        scaled(font_size, self.avg_char_width_ratio as i64)
    }

    fn line_height(&self, font_size: i64, multiplier: i64) -> (height: i64) {
        scaled(font_size, multiplier)
    }
}

/// The width of a text at a font size, as it was measured.
#[derive(Debug, Clone)]
pub struct TextMeasure {
    pub text: String,
    pub font_size: i64,
    pub width: i64,
}

/// The width of a character at a font size, as it was measured.
#[derive(Debug, Clone, Copy, PartialEq, Eq, Structural)]
pub struct CharMeasure {
    pub c: char,
    pub font_size: i64,
    pub width: i64,
}

/// The height of a line at a font size under a multiplier, as it was
/// measured.
#[derive(Debug, Clone, Copy, PartialEq, Eq, Structural)]
pub struct LineMeasure {
    pub font_size: i64,
    pub multiplier: i64,
    pub height: i64,
}

/// Measurement by table: what was measured beforehand, by whatever
/// means, is looked up. The first entry that matches counts; what was not
/// measured measures nothing, and a negative width counts as none.
#[derive(Debug, Clone)]
pub struct MeasuredMetrics {
    pub texts: Vec<TextMeasure>,
    pub chars: Vec<CharMeasure>,
    pub lines: Vec<LineMeasure>,
}

/// `x`, or zero where `x` is negative.
pub open spec fn not_negative(x: int) -> int {
    if x < 0 {
        0
    } else {
        x
    }
}

/// The width that the table gives for `text` at `font_size`.
pub open spec fn measured_text(entries: Seq<TextMeasure>, text: Seq<char>, font_size: int) -> int
    decreases entries.len(),
{
    if entries.len() == 0 {
        0
    } else if entries[0].text@ == text && entries[0].font_size == font_size {
        not_negative(entries[0].width as int)
    } else {
        measured_text(entries.drop_first(), text, font_size)
    }
}

/// The width that the table gives for `c` at `font_size`.
pub open spec fn measured_char(entries: Seq<CharMeasure>, c: char, font_size: int) -> int
    decreases entries.len(),
{
    if entries.len() == 0 {
        0
    } else if entries[0].c == c && entries[0].font_size == font_size {
        not_negative(entries[0].width as int)
    } else {
        measured_char(entries.drop_first(), c, font_size)
    }
}

/// The line height that the table gives for `font_size` under
/// `multiplier`.
pub open spec fn measured_line(entries: Seq<LineMeasure>, font_size: int, multiplier: int) -> int
    decreases entries.len(),
{
    if entries.len() == 0 {
        0
    } else if entries[0].font_size == font_size && entries[0].multiplier == multiplier {
        entries[0].height as int
    } else {
        measured_line(entries.drop_first(), font_size, multiplier)
    }
}

/// No width in a table is negative.
proof fn lemma_measured_not_negative(
    texts: Seq<TextMeasure>,
    chars: Seq<CharMeasure>,
    text: Seq<char>,
    c: char,
    font_size: int,
)
    ensures
        measured_text(texts, text, font_size) >= 0,
        measured_char(chars, c, font_size) >= 0,
    decreases texts.len() + chars.len(),
{
    if texts.len() > 0 {
        lemma_measured_not_negative(texts.drop_first(), chars, text, c, font_size);
    } else if chars.len() > 0 {
        lemma_measured_not_negative(texts, chars.drop_first(), text, c, font_size);
    }
}

impl TextMetrics for MeasuredMetrics {
    open spec fn text_width(&self, text: Seq<char>, font_size: int) -> int {
        measured_text(self.texts@, text, font_size)
    }

    open spec fn char_width(&self, c: char, font_size: int) -> int {
        measured_char(self.chars@, c, font_size)
    }

    open spec fn line_height_of(&self, font_size: int, multiplier: int) -> int {
        measured_line(self.lines@, font_size, multiplier)
    }

    proof fn widths_not_negative(&self, text: Seq<char>, c: char, font_size: int) {
        lemma_measured_not_negative(self.texts@, self.chars@, text, c, font_size);
    }

    fn measure_text(&self, text: &str, font_size: i64) -> (width: i64) {
        let wanted = text.to_owned();
        let mut i: usize = 0;
        proof {
            assert(self.texts@.skip(0) =~= self.texts@);
        }
        while i < self.texts.len()
            invariant
                i <= self.texts@.len(),
                wanted@ == text@,
                measured_text(self.texts@, text@, font_size as int) == measured_text(
                    self.texts@.skip(i as int),
                    text@,
                    font_size as int,
                ),
            decreases self.texts@.len() - i,
        {
            proof {
                assert(self.texts@.skip(i as int).drop_first() =~= self.texts@.skip(i + 1));
            }
            let entry = &self.texts[i];
            if entry.font_size == font_size && entry.text == wanted {
                return if entry.width < 0 {
                    0
                } else {
                    entry.width
                };
            }
            i = i + 1;
        }
        0
    }

    fn measure_char(&self, c: char, font_size: i64) -> (width: i64) {
        let mut i: usize = 0;
        proof {
            assert(self.chars@.skip(0) =~= self.chars@);
        }
        while i < self.chars.len()
            invariant
                i <= self.chars@.len(),
                measured_char(self.chars@, c, font_size as int) == measured_char(
                    self.chars@.skip(i as int),
                    c,
                    font_size as int,
                ),
            decreases self.chars@.len() - i,
        {
            proof {
                assert(self.chars@.skip(i as int).drop_first() =~= self.chars@.skip(i + 1));
            }
            let entry = &self.chars[i];
            if entry.c == c && entry.font_size == font_size {
                return if entry.width < 0 {
                    0
                } else {
                    entry.width
                };
            }
            i = i + 1;
        }
        0
    }

    fn line_height(&self, font_size: i64, multiplier: i64) -> (height: i64) {
        let mut i: usize = 0;
        proof {
            assert(self.lines@.skip(0) =~= self.lines@);
        }
        while i < self.lines.len()
            invariant
                i <= self.lines@.len(),
                measured_line(self.lines@, font_size as int, multiplier as int) == measured_line(
                    self.lines@.skip(i as int),
                    font_size as int,
                    multiplier as int,
                ),
            decreases self.lines@.len() - i,
        {
            proof {
                assert(self.lines@.skip(i as int).drop_first() =~= self.lines@.skip(i + 1));
            }
            let entry = &self.lines[i];
            if entry.font_size == font_size && entry.multiplier == multiplier {
                return entry.height;
            }
            i = i + 1;
        }
        0
    }
}

} // verus!
