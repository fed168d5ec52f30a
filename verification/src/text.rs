//! Text as sequences of characters: white space, words, lines, trimming
//! and joining.

use vstd::prelude::*;
use vstd::string::StringExecFns;

verus! {

/// Whether `c` is white space: the code points that Unicode gives the
/// `White_Space` property.
pub open spec fn is_space(c: char) -> bool {
    let n = c as u32;
    ||| 0x09 <= n <= 0x0D
    ||| n == 0x20
    ||| n == 0x85
    ||| n == 0xA0
    ||| n == 0x1680
    ||| 0x2000 <= n <= 0x200A
    ||| n == 0x2028
    ||| n == 0x2029
    ||| n == 0x202F
    ||| n == 0x205F
    ||| n == 0x3000
}

/// Decides [`is_space`].
pub fn is_whitespace(c: char) -> (b: bool)
    ensures
        b == is_space(c),
{
    let n: u32 = c as u32;
    (0x09 <= n && n <= 0x0D) || n == 0x20 || n == 0x85 || n == 0xA0 || n == 0x1680 || (0x2000 <= n
        && n <= 0x200A) || n == 0x2028 || n == 0x2029 || n == 0x202F || n == 0x205F || n == 0x3000
}

/// The characters of `text`, in order.
pub fn chars_of(text: &str) -> (out: Vec<char>)
    ensures
        out@ == text@,
{
    let mut out: Vec<char> = Vec::new();
    for c in it: text.chars()
        invariant
            out@ == it.seq().take(it.index() as int),
            it.seq() == text@,
    {
        out.push(c);
    }
    out
}

/// How many leading characters of `s` are white space (`space` true) or are
/// not (`space` false).
pub open spec fn leading(s: Seq<char>, space: bool) -> nat
    decreases s.len(),
{
    if s.len() > 0 && is_space(s[0]) == space {
        1 + leading(s.drop_first(), space)
    } else {
        0
    }
}

/// The words of `s`: its maximal runs of characters that are not white space,
/// in order.
pub open spec fn words_of(s: Seq<char>) -> Seq<Seq<char>>
    decreases s.len(),
{
    if s.len() == 0 {
        Seq::empty()
    } else if is_space(s[0]) {
        words_of(s.drop_first())
    } else {
        let k = leading(s, false);
        proof {
            lemma_leading(s, false);
        }
        seq![s.take(k as int)] + words_of(s.skip(k as int))
    }
}

/// A word: not empty, and without white space.
pub open spec fn is_word(w: Seq<char>) -> bool {
    w.len() > 0 && forall|i: int| 0 <= i < w.len() ==> !is_space(#[trigger] w[i])
}

/// The words joined by single spaces.
pub open spec fn join_words(words: Seq<Seq<char>>) -> Seq<char>
    decreases words.len(),
{
    if words.len() == 0 {
        Seq::empty()
    } else if words.len() == 1 {
        words[0]
    } else {
        words[0] + seq![' '] + join_words(words.drop_first())
    }
}

/// `leading` stops at the first character of the other kind.
pub proof fn lemma_leading(s: Seq<char>, space: bool)
    ensures
        leading(s, space) <= s.len(),
        forall|i: int| 0 <= i < leading(s, space) ==> is_space(#[trigger] s[i]) == space,
        leading(s, space) < s.len() ==> is_space(s[leading(s, space) as int]) != space,
    decreases s.len(),
{
    if s.len() > 0 && is_space(s[0]) == space {
        let t = s.drop_first();
        lemma_leading(t, space);
        assert forall|i: int| 0 <= i < leading(s, space) implies is_space(#[trigger] s[i])
            == space by {
            if i > 0 {
                assert(s[i] == t[i - 1]);
            }
        }
        if leading(s, space) < s.len() {
            assert(s[leading(s, space) as int] == t[leading(t, space) as int]);
        }
    }
}

/// A run of `k` characters of one kind that ends the text or is followed by
/// a character of the other kind is the leading run.
pub proof fn lemma_leading_is(s: Seq<char>, space: bool, k: int)
    requires
        0 <= k <= s.len(),
        forall|i: int| 0 <= i < k ==> is_space(#[trigger] s[i]) == space,
        k < s.len() ==> is_space(s[k]) != space,
    ensures
        leading(s, space) == k,
    decreases k,
{
    if k > 0 {
        let t = s.drop_first();
        assert forall|i: int| 0 <= i < k - 1 implies is_space(#[trigger] t[i]) == space by {
            assert(t[i] == s[i + 1]);
        }
        if k - 1 < t.len() {
            assert(t[k - 1] == s[k]);
        }
        lemma_leading_is(t, space, k - 1);
        assert(is_space(s[0]) == space);
    }
}

/// Every element of `words_of` is a word, and there are no more of them than
/// characters.
pub proof fn lemma_words_are_words(s: Seq<char>)
    ensures
        forall|i: int| 0 <= i < words_of(s).len() ==> is_word(#[trigger] words_of(s)[i]),
        words_of(s).len() <= s.len(),
    decreases s.len(),
{
    if s.len() == 0 {
    } else if is_space(s[0]) {
        lemma_words_are_words(s.drop_first());
    } else {
        let k = leading(s, false);
        lemma_leading(s, false);
        lemma_words_are_words(s.skip(k as int));
        let first = s.take(k as int);
        let rest = words_of(s.skip(k as int));
        assert(is_word(first));
        assert forall|i: int| 0 <= i < words_of(s).len() implies is_word(
            #[trigger] words_of(s)[i],
        ) by {
            if i > 0 {
                assert(words_of(s)[i] == rest[i - 1]);
            }
        }
    }
}

/// A text without a character that is not white space has no words, and
/// only such a text has none.
pub proof fn lemma_no_words(s: Seq<char>)
    ensures
        words_of(s).len() == 0 <==> forall|i: int| 0 <= i < s.len() ==> is_space(#[trigger] s[i]),
    decreases s.len(),
{
    if s.len() == 0 {
    } else if is_space(s[0]) {
        let t = s.drop_first();
        lemma_no_words(t);
        if words_of(s).len() == 0 {
            assert forall|i: int| 0 <= i < s.len() implies is_space(#[trigger] s[i]) by {
                if i > 0 {
                    assert(s[i] == t[i - 1]);
                }
            }
        } else {
            if forall|i: int| 0 <= i < s.len() ==> is_space(#[trigger] s[i]) {
                assert forall|i: int| 0 <= i < t.len() implies is_space(#[trigger] t[i]) by {
                    assert(t[i] == s[i + 1]);
                }
            }
        }
    } else {
        assert(words_of(s).len() > 0);
    }
}

/// Splitting the joined words gives the words back.
pub proof fn lemma_words_of_join(words: Seq<Seq<char>>)
    requires
        forall|i: int| 0 <= i < words.len() ==> is_word(#[trigger] words[i]),
    ensures
        words_of(join_words(words)) == words,
    decreases words.len(),
{
    if words.len() == 0 {
    } else {
        let w = words[0];
        let s = join_words(words);
        assert(is_word(w));
        if words.len() == 1 {
            assert(s == w);
            lemma_leading_is(s, false, w.len() as int);
            assert(s.take(w.len() as int) == w);
            assert(s.skip(w.len() as int).len() == 0);
            assert(words_of(s.skip(w.len() as int)) == Seq::<Seq<char>>::empty());
            assert(words_of(s) == seq![s.take(w.len() as int)] + words_of(s.skip(w.len() as int)));
            assert(words_of(s) =~= words);
        } else {
            let rest = words.drop_first();
            let tail = join_words(rest);
            assert(s == w + seq![' '] + tail);
            assert forall|i: int| 0 <= i < rest.len() implies is_word(#[trigger] rest[i]) by {
                assert(rest[i] == words[i + 1]);
            }
            lemma_words_of_join(rest);
            assert forall|i: int| 0 <= i < w.len() implies !is_space(#[trigger] s[i]) by {
                assert(s[i] == w[i]);
            }
            assert(s[w.len() as int] == ' ');
            assert(is_space(' '));
            lemma_leading_is(s, false, w.len() as int);
            assert(s.take(w.len() as int) =~= w);
            let after = s.skip(w.len() as int);
            assert(after =~= seq![' '] + tail);
            assert(after.drop_first() =~= tail);
            assert(words_of(after) == words_of(tail));
            assert(words_of(s) == seq![w] + words_of(after));
            assert(words_of(s) =~= words);
        }
    }
}

/// Joining one more word onto a line.
pub proof fn lemma_join_push(words: Seq<Seq<char>>, w: Seq<char>)
    ensures
        join_words(words.push(w)) == if words.len() == 0 {
            w
        } else {
            join_words(words) + seq![' '] + w
        },
    decreases words.len(),
{
    let all = words.push(w);
    if words.len() == 0 {
        assert(all.len() == 1);
    } else if words.len() == 1 {
        assert(all.drop_first() =~= seq![w]);
        assert(join_words(seq![w]) == w) by {
            assert(seq![w].len() == 1);
        }
    } else {
        let rest = words.drop_first();
        lemma_join_push(rest, w);
        assert(all.drop_first() =~= rest.push(w));
        assert(join_words(all) == words[0] + seq![' '] + (join_words(rest) + seq![' '] + w));
        assert(join_words(all) =~= join_words(words) + seq![' '] + w);
    }
}

/// How many trailing characters of `s` are white space.
pub open spec fn trailing_spaces(s: Seq<char>) -> nat
    decreases s.len(),
{
    if s.len() > 0 && is_space(s.last()) {
        1 + trailing_spaces(s.drop_last())
    } else {
        0
    }
}

/// `s` without the white space at its end.
pub open spec fn trimmed_end(s: Seq<char>) -> Seq<char> {
    s.take(s.len() - trailing_spaces(s))
}

/// `s` without the white space at its start.
pub open spec fn trimmed_start(s: Seq<char>) -> Seq<char> {
    s.skip(leading(s, true) as int)
}

/// `s` without the white space at its start and at its end.
pub open spec fn trimmed(s: Seq<char>) -> Seq<char> {
    trimmed_end(trimmed_start(s))
}

/// Whether `s` begins with `prefix`.
pub open spec fn starts_with(s: Seq<char>, prefix: Seq<char>) -> bool {
    prefix.len() <= s.len() && s.take(prefix.len() as int) == prefix
}

/// How many characters of `s` come before the first `c`: all of them
/// where there is none.
pub open spec fn until(s: Seq<char>, c: char) -> nat
    decreases s.len(),
{
    if s.len() > 0 && s[0] != c {
        1 + until(s.drop_first(), c)
    } else {
        0
    }
}

/// How many times `c` stands at the start of `s`.
pub open spec fn run_of(s: Seq<char>, c: char) -> nat
    decreases s.len(),
{
    if s.len() > 0 && s[0] == c {
        1 + run_of(s.drop_first(), c)
    } else {
        0
    }
}

/// A run of `k` white-space characters at the end of `s`, with none
/// before it, is the trailing white space.
pub proof fn lemma_trailing_spaces_is(s: Seq<char>, k: int)
    requires
        0 <= k <= s.len(),
        forall|i: int| s.len() - k <= i < s.len() ==> is_space(#[trigger] s[i]),
        k < s.len() ==> !is_space(s[s.len() - k - 1]),
    ensures
        trailing_spaces(s) == k,
    decreases k,
{
    if k > 0 {
        let t = s.drop_last();
        assert(is_space(s[s.len() - 1]));
        assert forall|i: int| t.len() - (k - 1) <= i < t.len() implies is_space(
            #[trigger] t[i],
        ) by {
            assert(t[i] == s[i]);
        }
        if k - 1 < t.len() {
            assert(t[t.len() - (k - 1) - 1] == s[s.len() - k - 1]);
        }
        lemma_trailing_spaces_is(t, k - 1);
    }
}

/// `until` stops at the first `c`.
pub proof fn lemma_until(s: Seq<char>, c: char)
    ensures
        until(s, c) <= s.len(),
        forall|i: int| 0 <= i < until(s, c) ==> #[trigger] s[i] != c,
        until(s, c) < s.len() ==> s[until(s, c) as int] == c,
    decreases s.len(),
{
    if s.len() > 0 && s[0] != c {
        let t = s.drop_first();
        lemma_until(t, c);
        assert forall|i: int| 0 <= i < until(s, c) implies #[trigger] s[i] != c by {
            if i > 0 {
                assert(s[i] == t[i - 1]);
            }
        }
        if until(s, c) < s.len() {
            assert(s[until(s, c) as int] == t[until(t, c) as int]);
        }
    }
}

/// `k` characters other than `c`, followed by `c` or by nothing, are
/// what comes before the first `c`.
pub proof fn lemma_until_is(s: Seq<char>, c: char, k: int)
    requires
        0 <= k <= s.len(),
        forall|i: int| 0 <= i < k ==> #[trigger] s[i] != c,
        k < s.len() ==> s[k] == c,
    ensures
        until(s, c) == k,
    decreases k,
{
    if k > 0 {
        let t = s.drop_first();
        assert(s[0] != c);
        assert forall|i: int| 0 <= i < k - 1 implies #[trigger] t[i] != c by {
            assert(t[i] == s[i + 1]);
        }
        if k - 1 < t.len() {
            assert(t[k - 1] == s[k]);
        }
        lemma_until_is(t, c, k - 1);
    }
}

/// `k` times `c`, followed by another character or by nothing, are the
/// run of `c` at the start.
pub proof fn lemma_run_of_is(s: Seq<char>, c: char, k: int)
    requires
        0 <= k <= s.len(),
        forall|i: int| 0 <= i < k ==> #[trigger] s[i] == c,
        k < s.len() ==> s[k] != c,
    ensures
        run_of(s, c) == k,
    decreases k,
{
    if k > 0 {
        let t = s.drop_first();
        assert(s[0] == c);
        assert forall|i: int| 0 <= i < k - 1 implies #[trigger] t[i] == c by {
            assert(t[i] == s[i + 1]);
        }
        if k - 1 < t.len() {
            assert(t[k - 1] == s[k]);
        }
        lemma_run_of_is(t, c, k - 1);
    }
}

/// The bounds of `chars[from..to]` without the white space at its start
/// and at its end.
pub fn trim_bounds(chars: &Vec<char>, from: usize, to: usize) -> (bounds: (usize, usize))
    requires
        from <= to <= chars@.len(),
    ensures
        from <= bounds.0 <= bounds.1 <= to,
        bounds.0 - from == leading(chars@.subrange(from as int, to as int), true),
        chars@.subrange(bounds.0 as int, bounds.1 as int) == trimmed(
            chars@.subrange(from as int, to as int),
        ),
{
    let ghost s = chars@.subrange(from as int, to as int);
    let mut a: usize = from;
    while a < to && is_whitespace(chars[a])
        invariant
            from <= a <= to <= chars@.len(),
            forall|i: int| from <= i < a ==> is_space(#[trigger] chars@[i]),
        decreases to - a,
    {
        a = a + 1;
    }
    let mut b: usize = to;
    while b > a && is_whitespace(chars[b - 1])
        invariant
            a <= b <= to <= chars@.len(),
            forall|i: int| b <= i < to ==> is_space(#[trigger] chars@[i]),
        decreases b,
    {
        b = b - 1;
    }
    proof {
        assert forall|i: int| 0 <= i < a - from implies is_space(#[trigger] s[i]) == true by {
            assert(s[i] == chars@[from + i]);
        }
        lemma_leading_is(s, true, a - from);
        let t = trimmed_start(s);
        assert(t =~= chars@.subrange(a as int, to as int));
        assert forall|i: int| t.len() - (to - b) <= i < t.len() implies is_space(
            #[trigger] t[i],
        ) by {
            assert(t[i] == chars@[a + i]);
        }
        if to - b < t.len() {
            assert(t[t.len() - (to - b) - 1] == chars@[b - 1]);
        }
        lemma_trailing_spaces_is(t, to - b);
        assert(trimmed_end(t) =~= chars@.subrange(a as int, b as int));
    }
    (a, b)
}

/// Whether `chars[from..to]` begins with `prefix`.
pub fn begins_with(chars: &Vec<char>, from: usize, to: usize, prefix: &Vec<char>) -> (yes: bool)
    requires
        from <= to <= chars@.len(),
    ensures
        yes == starts_with(chars@.subrange(from as int, to as int), prefix@),
{
    let ghost s = chars@.subrange(from as int, to as int);
    let n = prefix.len();
    if n > to - from {
        return false;
    }
    let mut i: usize = 0;
    while i < n
        invariant
            from <= to <= chars@.len(),
            n == prefix@.len(),
            n <= to - from,
            i <= n,
            s == chars@.subrange(from as int, to as int),
            forall|k: int| 0 <= k < i ==> s[k] == #[trigger] prefix@[k],
        decreases n - i,
    {
        if chars[from + i] != prefix[i] {
            proof {
                assert(s[i as int] == chars@[from + i]);
                assert(s.take(n as int)[i as int] != prefix@[i as int]);
            }
            return false;
        }
        proof {
            assert(s[i as int] == chars@[from + i]);
        }
        i = i + 1;
    }
    proof {
        assert(s.take(n as int) =~= prefix@);
    }
    true
}

/// Whether `chars[from..to]` is `other`.
pub fn same_text(chars: &Vec<char>, from: usize, to: usize, other: &Vec<char>) -> (yes: bool)
    requires
        from <= to <= chars@.len(),
    ensures
        yes == (chars@.subrange(from as int, to as int) == other@),
{
    if other.len() != to - from {
        return false;
    }
    let yes = begins_with(chars, from, to, other);
    proof {
        let s = chars@.subrange(from as int, to as int);
        assert(s.take(s.len() as int) =~= s);
    }
    yes
}

/// The index of the first `c` in `chars[from..to]`, or `to` where there
/// is none.
pub fn find(chars: &Vec<char>, from: usize, to: usize, c: char) -> (at: usize)
    requires
        from <= to <= chars@.len(),
    ensures
        from <= at <= to,
        at - from == until(chars@.subrange(from as int, to as int), c),
{
    let ghost s = chars@.subrange(from as int, to as int);
    let mut at: usize = from;
    while at < to && chars[at] != c
        invariant
            from <= at <= to <= chars@.len(),
            forall|i: int| from <= i < at ==> #[trigger] chars@[i] != c,
        decreases to - at,
    {
        at = at + 1;
    }
    proof {
        assert forall|i: int| 0 <= i < at - from implies #[trigger] s[i] != c by {
            assert(s[i] == chars@[from + i]);
        }
        if at < to {
            assert(s[at - from] == chars@[at as int]);
        }
        lemma_until_is(s, c, at - from);
    }
    at
}

/// The index after the run of `c` at the start of `chars[from..to]`.
pub fn skip_run(chars: &Vec<char>, from: usize, to: usize, c: char) -> (at: usize)
    requires
        from <= to <= chars@.len(),
    ensures
        from <= at <= to,
        at - from == run_of(chars@.subrange(from as int, to as int), c),
{
    let ghost s = chars@.subrange(from as int, to as int);
    let mut at: usize = from;
    while at < to && chars[at] == c
        invariant
            from <= at <= to <= chars@.len(),
            forall|i: int| from <= i < at ==> #[trigger] chars@[i] == c,
        decreases to - at,
    {
        at = at + 1;
    }
    proof {
        assert forall|i: int| 0 <= i < at - from implies #[trigger] s[i] == c by {
            assert(s[i] == chars@[from + i]);
        }
        if at < to {
            assert(s[at - from] == chars@[at as int]);
        }
        lemma_run_of_is(s, c, at - from);
    }
    at
}

/// Appends a character to a string.
///
/// Trusted: calls `String::push` of the standard library, which appends
/// the character to the end of the string.
#[verifier::external_body]
pub(crate) fn push_char(text: &mut String, c: char)
    ensures
        final(text)@ == old(text)@.push(c),
{
    text.push(c)
}

/// The text of `chars[from..to]`.
pub fn string_from(chars: &Vec<char>, from: usize, to: usize) -> (out: String)
    requires
        from <= to <= chars@.len(),
    ensures
        out@ == chars@.subrange(from as int, to as int),
{
    let mut out = String::new();
    let mut i: usize = from;
    while i < to
        invariant
            from <= i <= to <= chars@.len(),
            out@ == chars@.subrange(from as int, i as int),
        decreases to - i,
    {
        push_char(&mut out, chars[i]);
        proof {
            assert(out@ =~= chars@.subrange(from as int, i + 1));
        }
        i = i + 1;
    }
    out
}

/// The character sequences of a sequence of strings.
pub open spec fn texts(strings: Seq<String>) -> Seq<Seq<char>> {
    strings.map_values(|s: String| s@)
}

/// Splits `text` at runs of white space and returns its words.
pub fn split_words(text: &str) -> (out: Vec<String>)
    ensures
        texts(out@) == words_of(text@),
{
    let chars = chars_of(text);
    let n = chars.len();
    let mut out: Vec<String> = Vec::new();
    let ghost mut done: Seq<Seq<char>> = Seq::empty();
    let mut i: usize = 0;
    proof {
        assert(chars@.skip(0) =~= chars@);
    }
    while i < n
        invariant
            n == chars@.len(),
            chars@ == text@,
            i <= n,
            out@.len() == done.len(),
            forall|k: int| 0 <= k < out@.len() ==> (#[trigger] out@[k])@ == done[k],
            words_of(chars@) == done + words_of(chars@.skip(i as int)),
        decreases n - i,
    {
        let ghost rest = chars@.skip(i as int);
        if is_whitespace(chars[i]) {
            proof {
                assert(rest.drop_first() =~= chars@.skip(i + 1));
            }
            i = i + 1;
        } else {
            let mut j: usize = i + 1;
            while j < n && !is_whitespace(chars[j])
                invariant
                    n == chars@.len(),
                    i < j <= n,
                    forall|k: int| i <= k < j ==> !is_space(#[trigger] chars@[k]),
                decreases n - j,
            {
                j = j + 1;
            }
            let word = string_from(&chars, i, j);
            proof {
                assert forall|k: int| 0 <= k < j - i implies is_space(#[trigger] rest[k])
                    == false by {
                    assert(rest[k] == chars@[i + k]);
                }
                lemma_leading_is(rest, false, j - i);
                assert(rest.take(j - i) =~= chars@.subrange(i as int, j as int));
                assert(rest.skip(j - i) =~= chars@.skip(j as int));
                assert(words_of(rest) == seq![word@] + words_of(chars@.skip(j as int)));
                assert(done + words_of(rest) =~= done.push(word@) + words_of(
                    chars@.skip(j as int),
                ));
                done = done.push(word@);
            }
            out.push(word);
            i = j;
        }
    }
    proof {
        assert(chars@.skip(n as int).len() == 0);
        assert(done + Seq::<Seq<char>>::empty() =~= done);
        assert(texts(out@) =~= done);
    }
    out
}

/// `line` without a carriage return at its end.
pub open spec fn without_cr(line: Seq<char>) -> Seq<char> {
    if line.len() > 0 && line.last() == '\r' {
        line.drop_last()
    } else {
        line
    }
}

/// The lines of `s`. A line ends at a line feed, which is not part of
/// it, nor is a carriage return just before the line feed. What follows
/// the last line feed is a line if it is not empty.
pub open spec fn lines_of(s: Seq<char>) -> Seq<Seq<char>>
    decreases s.len(),
{
    if s.len() == 0 {
        Seq::empty()
    } else {
        let k = until(s, '\n');
        proof {
            lemma_until(s, '\n');
        }
        if k >= s.len() {
            seq![s]
        } else {
            seq![without_cr(s.take(k as int))] + lines_of(s.skip(k as int + 1))
        }
    }
}

/// Splits `text` into its lines.
pub fn split_lines(text: &str) -> (out: Vec<String>)
    ensures
        texts(out@) == lines_of(text@),
{
    let chars = chars_of(text);
    let n = chars.len();
    let mut out: Vec<String> = Vec::new();
    let ghost mut done: Seq<Seq<char>> = Seq::empty();
    let mut i: usize = 0;
    proof {
        assert(chars@.skip(0) =~= chars@);
    }
    while i < n
        invariant
            n == chars@.len(),
            i <= n,
            texts(out@) == done,
            lines_of(chars@) == done + lines_of(chars@.skip(i as int)),
        decreases n - i,
    {
        let ghost rest = chars@.skip(i as int);
        let j = find(&chars, i, n, '\n');
        proof {
            assert(chars@.subrange(i as int, n as int) =~= rest);
        }
        if j == n {
            let line = string_from(&chars, i, n);
            proof {
                assert(lines_of(rest) == seq![rest]);
                assert(texts(out@.push(line)) =~= done.push(rest));
                done = done.push(rest);
                assert(chars@.skip(n as int).len() == 0);
                assert(lines_of(chars@) =~= done + lines_of(chars@.skip(n as int)));
            }
            out.push(line);
            i = n;
        } else {
            let end = if j > i && chars[j - 1] == '\r' {
                j - 1
            } else {
                j
            };
            let line = string_from(&chars, i, end);
            proof {
                let k = j - i;
                let raw = rest.take(k);
                assert(raw =~= chars@.subrange(i as int, j as int));
                if k > 0 {
                    assert(raw.last() == chars@[j - 1]);
                }
                assert(without_cr(raw) =~= chars@.subrange(i as int, end as int));
                assert(rest.skip(k + 1) =~= chars@.skip(j + 1));
                assert(lines_of(rest) == seq![line@] + lines_of(chars@.skip(j + 1)));
                assert(texts(out@.push(line)) =~= done.push(line@));
                assert(done + lines_of(rest) =~= done.push(line@) + lines_of(chars@.skip(j + 1)));
                done = done.push(line@);
            }
            out.push(line);
            i = j + 1;
        }
    }
    proof {
        assert(chars@.skip(n as int).len() == 0);
        assert(done + Seq::<Seq<char>>::empty() =~= done);
    }
    out
}

/// Joins `words` with single spaces.
pub fn join(words: &[String]) -> (out: String)
    ensures
        out@ == join_words(texts(words@)),
{
    let mut out = String::new();
    let mut i: usize = 0;
    let n = words.len();
    proof {
        assert(texts(words@).take(0) =~= Seq::<Seq<char>>::empty());
    }
    while i < n
        invariant
            n == words@.len(),
            i <= n,
            out@ == join_words(texts(words@).take(i as int)),
        decreases n - i,
    {
        proof {
            reveal_strlit(" ");
            lemma_join_push(texts(words@).take(i as int), words@[i as int]@);
            assert(texts(words@).take(i + 1) =~= texts(words@).take(i as int).push(
                words@[i as int]@,
            ));
            assert(" "@ =~= seq![' ']);
        }
        if i > 0 {
            out.append(" ");
        }
        out.append(words[i].as_str());
        i = i + 1;
    }
    proof {
        assert(texts(words@).take(n as int) =~= texts(words@));
    }
    out
}

} // verus!
