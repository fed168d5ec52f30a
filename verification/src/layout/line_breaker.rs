//! Greedy line breaking: words go onto the current line until one would
//! pass the maximum width, and that word starts the next line.

use super::metrics::{SimpleTextMetrics, TextMetrics};
use super::types::{line_views, FragmentView, LineView, TextFragment, TextLine, TextStyle};
use crate::text::{join, join_words, split_words, texts, words_of};
use uuid::Uuid;
use vstd::prelude::*;
use vstd::slice::slice_subrange;

verus! {

/// The lines that greedy fitting makes of `words`, when the line under
/// construction holds `current` with the accumulated width `width`.
///
/// A line that is empty takes the next word whatever its width. Any
/// other line takes it where the line's width, a space and the word
/// together stay within `max_width`; else the line is closed and the word
/// starts the next one.
pub open spec fn wrap<M: TextMetrics>(
    metrics: &M,
    font_size: int,
    max_width: int,
    words: Seq<Seq<char>>,
    current: Seq<Seq<char>>,
    width: int,
) -> Seq<Seq<Seq<char>>>
    decreases words.len(),
{
    if words.len() == 0 {
        if current.len() == 0 {
            Seq::empty()
        } else {
            seq![current]
        }
    } else {
        let word = words[0];
        let word_width = metrics.text_width(word, font_size);
        let rest = words.drop_first();
        if current.len() == 0 {
            wrap(metrics, font_size, max_width, rest, seq![word], word_width)
        } else {
            let with_word = width + metrics.char_width(' ', font_size) + word_width;
            if with_word <= max_width {
                wrap(metrics, font_size, max_width, rest, current.push(word), with_word)
            } else {
                seq![current] + wrap(metrics, font_size, max_width, rest, seq![word], word_width)
            }
        }
    }
}

/// The lines, each a sequence of words, that `words` are wrapped into.
pub open spec fn wrapped<M: TextMetrics>(
    metrics: &M,
    font_size: int,
    max_width: int,
    words: Seq<Seq<char>>,
) -> Seq<Seq<Seq<char>>> {
    wrap(metrics, font_size, max_width, words, Seq::empty(), 0)
}

/// The line with the given words at position `index`: one fragment that
/// holds the words joined by single spaces, flush left, `index` line
/// heights below the top.
pub open spec fn line_of(
    words: Seq<Seq<char>>,
    index: int,
    line_height: int,
    style: TextStyle,
    source_id: Uuid,
) -> LineView {
    LineView {
        y_offset: index * line_height,
        fragments: seq![
            FragmentView {
                text: join_words(words),
                x_offset: 0,
                style: style,
                source_block_id: source_id,
            },
        ],
    }
}

/// The lines for the given groups of words, in order.
pub open spec fn lines_for(
    groups: Seq<Seq<Seq<char>>>,
    line_height: int,
    style: TextStyle,
    source_id: Uuid,
) -> Seq<LineView> {
    Seq::new(groups.len(), |i: int| line_of(groups[i], i, line_height, style, source_id))
}

/// The lines that `text` is broken into at `max_width` under `style`.
pub open spec fn broken_lines<M: TextMetrics>(
    metrics: &M,
    max_width: int,
    text: Seq<char>,
    style: TextStyle,
    source_id: Uuid,
) -> Seq<LineView> {
    lines_for(
        wrapped(metrics, style.font_size as int, max_width, words_of(text)),
        metrics.line_height_of(style.font_size as int, style.line_height as int),
        style,
        source_id,
    )
}

/// The accumulated width of a line: the widths of its words and of one
/// space between each two.
pub open spec fn line_width<M: TextMetrics>(metrics: &M, font_size: int, words: Seq<Seq<char>>) -> int
    decreases words.len(),
{
    if words.len() == 0 {
        0
    } else if words.len() == 1 {
        metrics.text_width(words[0], font_size)
    } else {
        line_width(metrics, font_size, words.drop_last()) + metrics.char_width(' ', font_size)
            + metrics.text_width(words.last(), font_size)
    }
}

/// Whether every element of `words` is a word.
pub open spec fn all_words(words: Seq<Seq<char>>) -> bool {
    forall|i: int| 0 <= i < words.len() ==> crate::text::is_word(#[trigger] words[i])
}

/// The width of a line with one more word.
pub proof fn lemma_line_width_push<M: TextMetrics>(
    metrics: &M,
    font_size: int,
    words: Seq<Seq<char>>,
    word: Seq<char>,
)
    ensures
        line_width(metrics, font_size, words.push(word)) == if words.len() == 0 {
            metrics.text_width(word, font_size)
        } else {
            line_width(metrics, font_size, words) + metrics.char_width(' ', font_size)
                + metrics.text_width(word, font_size)
        },
{
    assert(words.push(word).drop_last() =~= words);
}

/// A line is at least as wide as each of its beginnings, and as each of
/// its words.
pub proof fn lemma_line_width_grows<M: TextMetrics>(
    metrics: &M,
    font_size: int,
    words: Seq<Seq<char>>,
    k: int,
)
    requires
        font_size >= 0,
        0 <= k <= words.len(),
    ensures
        0 <= line_width(metrics, font_size, words.take(k)) <= line_width(metrics, font_size, words),
        k < words.len() ==> metrics.text_width(words[k], font_size) <= line_width(
            metrics,
            font_size,
            words,
        ),
    decreases words.len(),
{
    if words.len() == 0 {
        assert(words.take(k) =~= words);
    } else {
        let front = words.drop_last();
        metrics.widths_not_negative(words.last(), ' ', font_size);
        if k == words.len() {
            assert(words.take(k) =~= words);
            lemma_line_width_grows(metrics, font_size, front, 0);
            assert(front.take(0) =~= Seq::<Seq<char>>::empty());
        } else {
            lemma_line_width_grows(metrics, font_size, front, k);
            assert(front.take(k) =~= words.take(k));
            if k < front.len() {
                assert(front[k] == words[k]);
            }
        }
    }
}

/// No word is lost, doubled or moved: the lines of `wrap`, one after the
/// other, are the words of the line under construction followed by the
/// words still to come.
pub proof fn lemma_wrap_keeps_words<M: TextMetrics>(
    metrics: &M,
    font_size: int,
    max_width: int,
    words: Seq<Seq<char>>,
    current: Seq<Seq<char>>,
    width: int,
)
    ensures
        wrap(metrics, font_size, max_width, words, current, width).flatten() == current + words,
    decreases words.len(),
{
    let out = wrap(metrics, font_size, max_width, words, current, width);
    if words.len() == 0 {
        if current.len() == 0 {
            assert(out.flatten() =~= current + words);
        } else {
            seq![current].lemma_flatten_one_element();
            assert(seq![current].flatten() =~= current + words);
        }
    } else {
        let word = words[0];
        let word_width = metrics.text_width(word, font_size);
        let rest = words.drop_first();
        if current.len() == 0 {
            lemma_wrap_keeps_words(metrics, font_size, max_width, rest, seq![word], word_width);
            assert(seq![word] + rest =~= current + words);
        } else {
            let with_word = width + metrics.char_width(' ', font_size) + word_width;
            if with_word <= max_width {
                lemma_wrap_keeps_words(
                    metrics,
                    font_size,
                    max_width,
                    rest,
                    current.push(word),
                    with_word,
                );
                assert(current.push(word) + rest =~= current + words);
            } else {
                let tail = wrap(metrics, font_size, max_width, rest, seq![word], word_width);
                lemma_wrap_keeps_words(metrics, font_size, max_width, rest, seq![word], word_width);
                assert((seq![current] + tail).drop_first() =~= tail);
                assert(out.flatten() == current + tail.flatten());
                assert(current + (seq![word] + rest) =~= current + words);
            }
        }
    }
}

/// What holds of a line that `wrap` makes: it has at least one word, has
/// words only, and, where it has two or more, is no wider than the
/// maximum width.
pub open spec fn well_filled<M: TextMetrics>(
    metrics: &M,
    font_size: int,
    max_width: int,
    line: Seq<Seq<char>>,
) -> bool {
    &&& line.len() > 0
    &&& all_words(line)
    &&& line.len() >= 2 ==> line_width(metrics, font_size, line) <= max_width
}

/// Every line of `wrap` is well filled.
pub proof fn lemma_wrap_lines<M: TextMetrics>(
    metrics: &M,
    font_size: int,
    max_width: int,
    words: Seq<Seq<char>>,
    current: Seq<Seq<char>>,
    width: int,
)
    requires
        all_words(words),
        all_words(current),
        current.len() > 0 ==> width == line_width(metrics, font_size, current),
        current.len() >= 2 ==> width <= max_width,
    ensures
        forall|i: int|
            0 <= i < wrap(metrics, font_size, max_width, words, current, width).len()
                ==> well_filled(
                metrics,
                font_size,
                max_width,
                #[trigger] wrap(metrics, font_size, max_width, words, current, width)[i],
            ),
    decreases words.len(),
{
    let out = wrap(metrics, font_size, max_width, words, current, width);
    if words.len() == 0 {
        if current.len() > 0 {
            assert(out[0] == current);
        }
    } else {
        let word = words[0];
        let word_width = metrics.text_width(word, font_size);
        let rest = words.drop_first();
        assert(all_words(seq![word])) by {
            assert(crate::text::is_word(words[0]));
        }
        assert(line_width(metrics, font_size, seq![word]) == word_width);
        assert(all_words(current.push(word))) by {
            assert(crate::text::is_word(words[0]));
            assert forall|i: int| 0 <= i < current.push(word).len() implies crate::text::is_word(
                #[trigger] current.push(word)[i],
            ) by {
                if i < current.len() {
                    assert(current.push(word)[i] == current[i]);
                }
            }
        }
        assert(all_words(rest)) by {
            assert forall|i: int| 0 <= i < rest.len() implies crate::text::is_word(
                #[trigger] rest[i],
            ) by {
                assert(rest[i] == words[i + 1]);
            }
        }
        if current.len() == 0 {
            lemma_wrap_lines(metrics, font_size, max_width, rest, seq![word], word_width);
            assert(out == wrap(metrics, font_size, max_width, rest, seq![word], word_width));
        } else {
            let with_word = width + metrics.char_width(' ', font_size) + word_width;
            if with_word <= max_width {
                lemma_line_width_push(metrics, font_size, current, word);
                lemma_wrap_lines(
                    metrics,
                    font_size,
                    max_width,
                    rest,
                    current.push(word),
                    with_word,
                );
                assert(out == wrap(
                    metrics,
                    font_size,
                    max_width,
                    rest,
                    current.push(word),
                    with_word,
                ));
            } else {
                let tail = wrap(metrics, font_size, max_width, rest, seq![word], word_width);
                lemma_wrap_lines(metrics, font_size, max_width, rest, seq![word], word_width);
                assert(out == seq![current] + tail);
                assert forall|i: int| 0 <= i < out.len() implies well_filled(
                    metrics,
                    font_size,
                    max_width,
                    #[trigger] out[i],
                ) by {
                    if i > 0 {
                        assert(out[i] == tail[i - 1]);
                    } else {
                        assert(out[0] == current);
                    }
                }
            }
        }
    }
}

/// The first line of `wrap` begins with the words of the line under
/// construction, or, where that holds none, with the first word to come.
proof fn lemma_wrap_first_line<M: TextMetrics>(
    metrics: &M,
    font_size: int,
    max_width: int,
    words: Seq<Seq<char>>,
    current: Seq<Seq<char>>,
    width: int,
)
    requires
        current.len() > 0 || words.len() > 0,
    ensures
        wrap(metrics, font_size, max_width, words, current, width).len() > 0,
        wrap(metrics, font_size, max_width, words, current, width)[0].len() > 0,
        wrap(metrics, font_size, max_width, words, current, width)[0][0] == if current.len() > 0 {
            current[0]
        } else {
            words[0]
        },
    decreases words.len(),
{
    if words.len() > 0 {
        let word = words[0];
        let word_width = metrics.text_width(word, font_size);
        let rest = words.drop_first();
        if current.len() == 0 {
            lemma_wrap_first_line(metrics, font_size, max_width, rest, seq![word], word_width);
        } else {
            let with_word = width + metrics.char_width(' ', font_size) + word_width;
            if with_word <= max_width {
                lemma_wrap_first_line(
                    metrics,
                    font_size,
                    max_width,
                    rest,
                    current.push(word),
                    with_word,
                );
            }
        }
    }
}

/// Lines are filled greedily: a line that is followed by another could
/// not have taken the first word of that other line, for with a space
/// and that word it would have passed the maximum width.
pub proof fn lemma_wrap_is_greedy<M: TextMetrics>(
    metrics: &M,
    font_size: int,
    max_width: int,
    words: Seq<Seq<char>>,
    current: Seq<Seq<char>>,
    width: int,
    i: int,
)
    requires
        current.len() > 0 ==> width == line_width(metrics, font_size, current),
        0 <= i,
        i + 1 < wrap(metrics, font_size, max_width, words, current, width).len(),
    ensures
        wrap(metrics, font_size, max_width, words, current, width)[i + 1].len() > 0,
        line_width(
            metrics,
            font_size,
            wrap(metrics, font_size, max_width, words, current, width)[i],
        ) + metrics.char_width(' ', font_size) + metrics.text_width(
            wrap(metrics, font_size, max_width, words, current, width)[i + 1][0],
            font_size,
        ) > max_width,
    decreases words.len(),
{
    if words.len() > 0 {
        let word = words[0];
        let word_width = metrics.text_width(word, font_size);
        let rest = words.drop_first();
        assert(line_width(metrics, font_size, seq![word]) == word_width);
        if current.len() == 0 {
            lemma_wrap_is_greedy(metrics, font_size, max_width, rest, seq![word], word_width, i);
        } else {
            let with_word = width + metrics.char_width(' ', font_size) + word_width;
            if with_word <= max_width {
                lemma_line_width_push(metrics, font_size, current, word);
                lemma_wrap_is_greedy(
                    metrics,
                    font_size,
                    max_width,
                    rest,
                    current.push(word),
                    with_word,
                    i,
                );
            } else {
                let tail = wrap(metrics, font_size, max_width, rest, seq![word], word_width);
                let out = wrap(metrics, font_size, max_width, words, current, width);
                assert(out == seq![current] + tail);
                assert(out[i + 1] == tail[i]);
                if i == 0 {
                    lemma_wrap_first_line(
                        metrics,
                        font_size,
                        max_width,
                        rest,
                        seq![word],
                        word_width,
                    );
                    assert(out[0] == current);
                } else {
                    assert(out[i] == tail[i - 1]);
                    lemma_wrap_is_greedy(
                        metrics,
                        font_size,
                        max_width,
                        rest,
                        seq![word],
                        word_width,
                        i - 1,
                    );
                }
            }
        }
    }
}

/// Where no word is wider than the maximum width, no line is: every line
/// that `text` is wrapped into has an accumulated width within
/// `max_width`.
pub proof fn lemma_lines_fit<M: TextMetrics>(
    metrics: &M,
    font_size: int,
    max_width: int,
    text: Seq<char>,
)
    requires
        forall|i: int|
            0 <= i < words_of(text).len() ==> metrics.text_width(
                #[trigger] words_of(text)[i],
                font_size,
            ) <= max_width,
    ensures
        forall|i: int|
            0 <= i < wrapped(metrics, font_size, max_width, words_of(text)).len() ==> line_width(
                metrics,
                font_size,
                #[trigger] wrapped(metrics, font_size, max_width, words_of(text))[i],
            ) <= max_width,
{
    let words = words_of(text);
    let lines = wrapped(metrics, font_size, max_width, words);
    crate::text::lemma_words_are_words(text);
    lemma_wrap_lines(metrics, font_size, max_width, words, Seq::empty(), 0);
    lemma_wrap_keeps_words(metrics, font_size, max_width, words, Seq::empty(), 0);
    assert(Seq::<Seq<char>>::empty() + words =~= words);
    assert forall|i: int| 0 <= i < lines.len() implies line_width(
        metrics,
        font_size,
        #[trigger] lines[i],
    ) <= max_width by {
        let line = lines[i];
        assert(well_filled(metrics, font_size, max_width, line));
        if line.len() == 1 {
            lemma_flatten_holds(lines, i, 0);
            let k = choose|k: int| 0 <= k < words.len() && words[k] == line[0];
            assert(metrics.text_width(words_of(text)[k], font_size) <= max_width);
        }
    }
}

/// Each word of each line is one of the flattened sequence.
pub proof fn lemma_flatten_holds(lines: Seq<Seq<Seq<char>>>, i: int, j: int)
    requires
        0 <= i < lines.len(),
        0 <= j < lines[i].len(),
    ensures
        exists|k: int| 0 <= k < lines.flatten().len() && lines.flatten()[k] == lines[i][j],
    decreases lines.len(),
{
    let rest = lines.drop_first();
    if i == 0 {
        assert(lines.flatten()[j] == lines[0][j]);
    } else {
        lemma_flatten_holds(rest, i - 1, j);
        let k = choose|k: int| 0 <= k < rest.flatten().len() && rest.flatten()[k] == rest[i - 1][j];
        assert(lines.flatten()[lines[0].len() + k] == lines[i][j]);
    }
}

/// A word wider than the maximum width stands alone on its line.
pub proof fn lemma_wide_word_alone<M: TextMetrics>(
    metrics: &M,
    font_size: int,
    max_width: int,
    text: Seq<char>,
    i: int,
    j: int,
)
    requires
        font_size >= 0,
        0 <= i < wrapped(metrics, font_size, max_width, words_of(text)).len(),
        0 <= j < wrapped(metrics, font_size, max_width, words_of(text))[i].len(),
        metrics.text_width(
            wrapped(metrics, font_size, max_width, words_of(text))[i][j],
            font_size,
        ) > max_width,
    ensures
        wrapped(metrics, font_size, max_width, words_of(text))[i].len() == 1,
{
    let words = words_of(text);
    let line = wrapped(metrics, font_size, max_width, words)[i];
    crate::text::lemma_words_are_words(text);
    lemma_wrap_lines(metrics, font_size, max_width, words, Seq::empty(), 0);
    assert(well_filled(metrics, font_size, max_width, line));
    lemma_line_width_grows(metrics, font_size, line, j);
}

/// A text of one word gives one line that holds the word, however wide
/// the word is.
pub proof fn lemma_single_word<M: TextMetrics>(
    metrics: &M,
    font_size: int,
    max_width: int,
    word: Seq<char>,
)
    ensures
        wrapped(metrics, font_size, max_width, seq![word]) == seq![seq![word]],
{
    let rest = seq![word].drop_first();
    assert(rest.len() == 0);
    assert(wrap(metrics, font_size, max_width, rest, seq![word], metrics.text_width(word, font_size))
        == seq![seq![word]]);
}

/// Words whose accumulated width is within the maximum width, or exactly
/// the maximum width, share one line.
pub proof fn lemma_fitting_words_share_a_line<M: TextMetrics>(
    metrics: &M,
    font_size: int,
    max_width: int,
    words: Seq<Seq<char>>,
)
    requires
        font_size >= 0,
        words.len() > 0,
        line_width(metrics, font_size, words) <= max_width,
    ensures
        wrapped(metrics, font_size, max_width, words) == seq![words],
{
    let first = seq![words[0]];
    assert(first =~= words.take(1));
    assert(words.skip(1) =~= words.drop_first());
    lemma_fill(metrics, font_size, max_width, words, 1);
}

/// While the words fit, `wrap` keeps adding to the line.
proof fn lemma_fill<M: TextMetrics>(
    metrics: &M,
    font_size: int,
    max_width: int,
    words: Seq<Seq<char>>,
    k: int,
)
    requires
        font_size >= 0,
        1 <= k <= words.len(),
        line_width(metrics, font_size, words) <= max_width,
    ensures
        wrap(
            metrics,
            font_size,
            max_width,
            words.skip(k),
            words.take(k),
            line_width(metrics, font_size, words.take(k)),
        ) == seq![words],
    decreases words.len() - k,
{
    if k == words.len() {
        assert(words.take(k) =~= words);
    } else {
        let current = words.take(k);
        let rest = words.skip(k);
        lemma_line_width_push(metrics, font_size, current, words[k]);
        assert(current.push(words[k]) =~= words.take(k + 1));
        assert(rest.drop_first() =~= words.skip(k + 1));
        lemma_line_width_grows(metrics, font_size, words, k + 1);
        lemma_fill(metrics, font_size, max_width, words, k + 1);
    }
}

/// Every line of a broken text holds one fragment, flush left, in the
/// given style and with the given source, and lies as many line heights
/// below the top as lines come before it.
pub proof fn lemma_lines_name_source<M: TextMetrics>(
    metrics: &M,
    max_width: int,
    text: Seq<char>,
    style: TextStyle,
    source_id: Uuid,
    i: int,
)
    requires
        0 <= i < broken_lines(metrics, max_width, text, style, source_id).len(),
    ensures
        ({
            let line = broken_lines(metrics, max_width, text, style, source_id)[i];
            &&& line.y_offset == i * metrics.line_height_of(
                style.font_size as int,
                style.line_height as int,
            )
            &&& line.fragments.len() == 1
            &&& line.fragments[0].x_offset == 0
            &&& line.fragments[0].style == style
            &&& line.fragments[0].source_block_id == source_id
        }),
{
}

/// A text without a character that is not white space, an empty text
/// among them, gives no line.
pub proof fn lemma_blank_text_gives_no_line<M: TextMetrics>(
    metrics: &M,
    max_width: int,
    text: Seq<char>,
    style: TextStyle,
    source_id: Uuid,
)
    requires
        forall|i: int| 0 <= i < text.len() ==> crate::text::is_space(#[trigger] text[i]),
    ensures
        broken_lines(metrics, max_width, text, style, source_id).len() == 0,
{
    crate::text::lemma_no_words(text);
}

/// Splitting the text of each line into words, line after line, gives the
/// words of the text that was broken: none lost, doubled or moved.
pub proof fn lemma_lines_keep_words<M: TextMetrics>(
    metrics: &M,
    max_width: int,
    text: Seq<char>,
    style: TextStyle,
    source_id: Uuid,
)
    ensures
        forall|i: int|
            0 <= i < broken_lines(metrics, max_width, text, style, source_id).len() ==> (
            #[trigger] broken_lines(metrics, max_width, text, style, source_id)[i]).fragments.len()
                == 1,
        broken_lines(metrics, max_width, text, style, source_id).map_values(
            |line: LineView| words_of(line.fragments[0].text),
        ).flatten() == words_of(text),
{
    let words = words_of(text);
    let fs = style.font_size as int;
    let groups = wrapped(metrics, fs, max_width, words);
    let lines = broken_lines(metrics, max_width, text, style, source_id);
    crate::text::lemma_words_are_words(text);
    lemma_wrap_lines(metrics, fs, max_width, words, Seq::empty(), 0);
    lemma_wrap_keeps_words(metrics, fs, max_width, words, Seq::empty(), 0);
    assert(Seq::<Seq<char>>::empty() + words =~= words);
    let split = lines.map_values(|line: LineView| words_of(line.fragments[0].text));
    assert forall|i: int| 0 <= i < groups.len() implies split[i] == groups[i] by {
        assert(well_filled(metrics, fs, max_width, groups[i]));
        crate::text::lemma_words_of_join(groups[i]);
    }
    assert(split =~= groups);
}

/// The joined words have the characters of the words and one space
/// between each two.
pub proof fn lemma_join_len(words: Seq<Seq<char>>)
    ensures
        join_words(words).len() == if words.len() == 0 {
            0
        } else {
            join_words(words.drop_last()).len() + (if words.len() == 1 {
                0int
            } else {
                1int
            }) + words.last().len()
        },
{
    if words.len() > 0 {
        crate::text::lemma_join_push(words.drop_last(), words.last());
        assert(words.drop_last().push(words.last()) =~= words);
        if words.len() == 1 {
            assert(join_words(words.drop_last()).len() == 0);
        }
    }
}

/// By character count, a line measures no more than its accumulated
/// width: the widths of its words and of the spaces between them.
pub proof fn lemma_simple_line_width(
    metrics: &SimpleTextMetrics,
    font_size: int,
    words: Seq<Seq<char>>,
)
    requires
        font_size >= 0,
    ensures
        metrics.text_width(join_words(words), font_size) <= line_width(metrics, font_size, words),
    decreases words.len(),
{
    let unit = metrics.unit_width(font_size);
    metrics.unit_width_not_negative(font_size);
    if words.len() == 0 {
        assert(join_words(words).len() == 0);
        assert(0 * unit == 0);
    } else if words.len() == 1 {
    } else {
        let front = words.drop_last();
        lemma_simple_line_width(metrics, font_size, front);
        lemma_join_len(words);
        let a = join_words(front).len() as int;
        let c = words.last().len() as int;
        assert((a + 1 + c) * unit == a * unit + unit + c * unit) by (nonlinear_arith);
        assert(a * unit >= 0 && c * unit >= 0) by (nonlinear_arith)
            requires
                a >= 0,
                c >= 0,
                unit >= 0,
        ;
    }
}

/// With the default way of measuring, where no word of a text measures
/// more than the maximum width, no line of the text does.
pub proof fn lemma_simple_lines_fit(
    metrics: &SimpleTextMetrics,
    max_width: int,
    text: Seq<char>,
    style: TextStyle,
    source_id: Uuid,
)
    requires
        style.font_size >= 0,
        forall|i: int|
            0 <= i < words_of(text).len() ==> metrics.text_width(
                #[trigger] words_of(text)[i],
                style.font_size as int,
            ) <= max_width,
    ensures
        forall|i: int|
            0 <= i < broken_lines(metrics, max_width, text, style, source_id).len()
                ==> metrics.text_width(
                (#[trigger] broken_lines(
                    metrics,
                    max_width,
                    text,
                    style,
                    source_id,
                )[i]).fragments[0].text,
                style.font_size as int,
            ) <= max_width,
{
    let fs = style.font_size as int;
    let groups = wrapped(metrics, fs, max_width, words_of(text));
    let lines = broken_lines(metrics, max_width, text, style, source_id);
    lemma_lines_fit(metrics, fs, max_width, text);
    assert forall|i: int| 0 <= i < lines.len() implies metrics.text_width(
        (#[trigger] lines[i]).fragments[0].text,
        fs,
    ) <= max_width by {
        lemma_simple_line_width(metrics, fs, groups[i]);
        assert(line_width(metrics, fs, groups[i]) <= max_width);
    }
}

/// Whether the offset of every line of a text of `len` characters fits the
/// offsets' type, at the given line height.
pub open spec fn offsets_fit(len: int, line_height: int) -> bool {
    i64::MIN <= len * line_height <= i64::MAX
}

/// There are no more lines than words.
pub proof fn lemma_wrap_len<M: TextMetrics>(
    metrics: &M,
    font_size: int,
    max_width: int,
    words: Seq<Seq<char>>,
    current: Seq<Seq<char>>,
    width: int,
)
    ensures
        wrap(metrics, font_size, max_width, words, current, width).len() <= words.len() + (if current.len()
            == 0 {
            0int
        } else {
            1int
        }),
    decreases words.len(),
{
    if words.len() > 0 {
        let word = words[0];
        let word_width = metrics.text_width(word, font_size);
        let rest = words.drop_first();
        if current.len() == 0 {
            lemma_wrap_len(metrics, font_size, max_width, rest, seq![word], word_width);
        } else {
            let with_word = width + metrics.char_width(' ', font_size) + word_width;
            if with_word <= max_width {
                lemma_wrap_len(metrics, font_size, max_width, rest, current.push(word), with_word);
            } else {
                lemma_wrap_len(metrics, font_size, max_width, rest, seq![word], word_width);
            }
        }
    }
}

/// A text is broken into no more lines than it has characters.
pub proof fn lemma_broken_len<M: TextMetrics>(
    metrics: &M,
    max_width: int,
    text: Seq<char>,
    style: TextStyle,
    source_id: Uuid,
)
    ensures
        broken_lines(metrics, max_width, text, style, source_id).len() <= text.len(),
{
    crate::text::lemma_words_are_words(text);
    lemma_wrap_len(metrics, style.font_size as int, max_width, words_of(text), Seq::empty(), 0);
}

/// An offset below a bound that fits is within the bound.
pub proof fn lemma_offset_fits(index: int, len: int, line_height: int)
    requires
        0 <= index <= len,
        offsets_fit(len, line_height),
    ensures
        i64::MIN <= index * line_height <= i64::MAX,
        line_height >= 0 ==> 0 <= index * line_height <= len * line_height,
{
    assert(line_height >= 0 ==> 0 <= index * line_height <= len * line_height)
        by (nonlinear_arith)
        requires
            0 <= index <= len,
    ;
    assert(line_height <= 0 ==> len * line_height <= index * line_height <= 0)
        by (nonlinear_arith)
        requires
            0 <= index <= len,
    ;
}

/// Appending the line for one more group of words.
proof fn lemma_lines_push(
    lines: Seq<TextLine>,
    line: TextLine,
    groups: Seq<Seq<Seq<char>>>,
    words: Seq<Seq<char>>,
    line_height: int,
    style: TextStyle,
    source_id: Uuid,
)
    requires
        lines.len() == groups.len(),
        line_views(lines) == lines_for(groups, line_height, style, source_id),
        line@ == line_of(words, groups.len() as int, line_height, style, source_id),
    ensures
        line_views(lines.push(line)) == lines_for(groups.push(words), line_height, style, source_id),
{
    let a = line_views(lines.push(line));
    let b = lines_for(groups.push(words), line_height, style, source_id);
    assert forall|k: int| 0 <= k < a.len() implies a[k] == b[k] by {
        if k < lines.len() {
            assert(a[k] == line_views(lines)[k]);
            assert(groups.push(words)[k] == groups[k]);
        }
    }
    assert(a =~= b);
}

/// Line breaker using the greedy algorithm.
pub struct LineBreaker<'a, M: TextMetrics> {
    pub metrics: &'a M,
    pub max_width: i64,
}

impl<'a, M: TextMetrics> LineBreaker<'a, M> {
    /// A line breaker that measures with `metrics` and fills lines up to
    /// `max_width`.
    pub fn new(metrics: &'a M, max_width: i64) -> (breaker: Self)
        ensures
            breaker.metrics == metrics,
            breaker.max_width == max_width,
    {
        LineBreaker { metrics, max_width }
    }

    /// Breaks `text` into lines no wider than the maximum width, but for
    /// lines of a single word that is wider by itself. A text without
    /// words gives no line.
    pub fn break_lines(&self, text: &str, style: &TextStyle, source_id: Uuid) -> (lines: Vec<
        TextLine,
    >)
        requires
            style.font_size >= 0,
            style.line_height >= 0,
            offsets_fit(
                text@.len() as int,
                self.metrics.line_height_of(style.font_size as int, style.line_height as int),
            ),
        ensures
            line_views(lines@) == broken_lines(
                self.metrics,
                self.max_width as int,
                text@,
                *style,
                source_id,
            ),
    {
        let words = self.split_into_words(text);
        let n = words.len();
        let ghost all = words_of(text@);
        let ghost fs = style.font_size as int;
        let ghost max = self.max_width as int;
        let ghost lh = self.metrics.line_height_of(fs, style.line_height as int);
        let mut lines: Vec<TextLine> = Vec::new();
        if n == 0 {
            proof {
                assert(line_views(lines@) =~= broken_lines(
                    self.metrics,
                    max,
                    text@,
                    *style,
                    source_id,
                ));
            }
            return lines;
        }
        let space_width = self.metrics.measure_char(' ', style.font_size);
        let mut start: usize = 0;
        let mut width: i64 = 0;
        let mut i: usize = 0;
        let ghost mut closed: Seq<Seq<Seq<char>>> = Seq::empty();
        proof {
            crate::text::lemma_words_are_words(text@);
            assert(all.skip(0) =~= all);
            assert(all.subrange(0, 0) =~= Seq::<Seq<char>>::empty());
            assert(closed + wrap(self.metrics, fs, max, all, Seq::empty(), 0) =~= wrapped(
                self.metrics,
                fs,
                max,
                all,
            ));
        }
        while i < n
            invariant
                n == words@.len(),
                texts(words@) == all,
                all.len() <= text@.len(),
                fs == style.font_size,
                fs >= 0,
                style.line_height >= 0,
                max == self.max_width,
                lh == self.metrics.line_height_of(fs, style.line_height as int),
                offsets_fit(text@.len() as int, lh),
                space_width == self.metrics.char_width(' ', fs),
                start <= i <= n,
                i > 0 ==> start < i,
                closed.len() <= start,
                lines@.len() == closed.len(),
                width >= 0,
                space_width >= 0,
                wrapped(self.metrics, fs, max, all) == closed + wrap(
                    self.metrics,
                    fs,
                    max,
                    all.skip(i as int),
                    all.subrange(start as int, i as int),
                    width as int,
                ),
                line_views(lines@) == lines_for(closed, lh, *style, source_id),
            decreases n - i,
        {
            let word_width = self.metrics.measure_text(words[i].as_str(), style.font_size);
            let ghost rest = all.skip(i as int);
            let ghost current = all.subrange(start as int, i as int);
            proof {
                assert(rest[0] == words@[i as int]@);
                assert(rest.drop_first() =~= all.skip(i + 1));
                assert(current.push(rest[0]) =~= all.subrange(start as int, i + 1));
                assert(seq![rest[0]] =~= all.subrange(i as int, i + 1));
            }
            if start == i {
                width = word_width;
            } else {
                let with_word: i128 = width as i128 + space_width as i128 + word_width as i128;
                if with_word <= self.max_width as i128 {
                    width = with_word as i64;
                } else {
                    proof {
                        lemma_offset_fits(closed.len() as int, text@.len() as int, lh);
                    }
                    let line = self.build_line(
                        slice_subrange(words.as_slice(), start, i),
                        style,
                        source_id,
                        lines.len(),
                    );
                    proof {
                        assert(texts(words@.subrange(start as int, i as int)) =~= current);
                        let before = closed;
                        closed = closed.push(current);
                        assert(before + (seq![current] + wrap(
                            self.metrics,
                            fs,
                            max,
                            all.skip(i + 1),
                            all.subrange(i as int, i + 1),
                            word_width as int,
                        )) =~= closed + wrap(
                            self.metrics,
                            fs,
                            max,
                            all.skip(i + 1),
                            all.subrange(i as int, i + 1),
                            word_width as int,
                        ));
                        lemma_lines_push(lines@, line, before, current, lh, *style, source_id);
                    }
                    lines.push(line);
                    start = i;
                    width = word_width;
                }
            }
            i = i + 1;
        }
        proof {
            lemma_offset_fits(closed.len() as int, text@.len() as int, lh);
        }
        let line = self.build_line(
            slice_subrange(words.as_slice(), start, n),
            style,
            source_id,
            lines.len(),
        );
        proof {
            let current = all.subrange(start as int, n as int);
            assert(texts(words@.subrange(start as int, n as int)) =~= current);
            assert(all.skip(n as int).len() == 0);
            assert(wrapped(self.metrics, fs, max, all) == closed + seq![current]);
            lemma_lines_push(lines@, line, closed, current, lh, *style, source_id);
            assert(closed.push(current) =~= closed + seq![current]);
        }
        lines.push(line);
        lines
    }

    /// Splits text into words at white space.
    fn split_into_words(&self, text: &str) -> (words: Vec<String>)
        ensures
            texts(words@) == words_of(text@),
    {
        split_words(text)
    }

    /// Builds the line at position `line_index` from its words.
    fn build_line(
        &self,
        words: &[String],
        style: &TextStyle,
        source_id: Uuid,
        line_index: usize,
    ) -> (line: TextLine)
        requires
            style.font_size >= 0,
            style.line_height >= 0,
            i64::MIN <= line_index * self.metrics.line_height_of(
                style.font_size as int,
                style.line_height as int,
            ) <= i64::MAX,
        ensures
            line@ == line_of(
                texts(words@),
                line_index as int,
                self.metrics.line_height_of(style.font_size as int, style.line_height as int),
                *style,
                source_id,
            ),
    {
        let line_height = self.metrics.line_height(style.font_size, style.line_height);
        let y_offset = (line_index as i128 * line_height as i128) as i64;
        let text = join(words);
        let fragment = TextFragment { text, x_offset: 0, style: *style, source_block_id: source_id };
        let mut fragments: Vec<TextFragment> = Vec::new();
        fragments.push(fragment);
        let line = TextLine { y_offset, fragments };
        proof {
            assert(line@.fragments =~= seq![fragment@]);
        }
        line
    }
}

} // verus!
