//! Whitespace-separated tokens of a text.
//!
//! A token is a maximal run of characters that are not whitespace. The model
//! is [`split_tokens`]; [`token_spans`] finds the tokens of a text in one pass.

use vstd::prelude::*;

verus! {

/// Whether `c` has the Unicode property `White_Space`: tab, line feed and
/// the like, the space, and the other spaces and line separators of Unicode.
pub open spec fn is_whitespace(c: char) -> bool {
    ||| '\u{0009}' <= c <= '\u{000D}'
    ||| c == '\u{0020}'
    ||| c == '\u{0085}'
    ||| c == '\u{00A0}'
    ||| c == '\u{1680}'
    ||| '\u{2000}' <= c <= '\u{200A}'
    ||| c == '\u{2028}'
    ||| c == '\u{2029}'
    ||| c == '\u{202F}'
    ||| c == '\u{205F}'
    ||| c == '\u{3000}'
}

/// Whether no character of `text` is whitespace.
pub open spec fn no_whitespace(text: Seq<char>) -> bool {
    forall|i: int| 0 <= i < text.len() ==> !is_whitespace(#[trigger] text[i])
}

/// The length of the longest prefix of `text` whose characters all are
/// whitespace (`blank`) or all are not (`!blank`).
pub open spec fn run_length(text: Seq<char>, blank: bool) -> nat
    decreases text.len(),
{
    if text.len() > 0 && is_whitespace(text[0]) == blank {
        1 + run_length(text.drop_first(), blank)
    } else {
        0
    }
}

/// The tokens of `text`: its maximal runs of characters that are not
/// whitespace, from left to right. Whitespace only separates; it never is
/// part of a token, and no token is empty.
pub open spec fn split_tokens(text: Seq<char>) -> Seq<Seq<char>>
    decreases text.len(),
    via split_tokens_terminates
{
    let body = text.skip(run_length(text, true) as int);
    let first = run_length(body, false);
    if first == 0 {
        Seq::empty()
    } else {
        seq![body.take(first as int)] + split_tokens(body.skip(first as int))
    }
}

#[via_fn]
proof fn split_tokens_terminates(text: Seq<char>) {
    lemma_run_is_maximal(text, true);
    lemma_run_is_maximal(text.skip(run_length(text, true) as int), false);
}

/// The texts that `spans` cut out of `text`.
pub open spec fn span_texts(text: Seq<char>, spans: Seq<(usize, usize)>) -> Seq<Seq<char>> {
    Seq::new(spans.len(), |k: int| text.subrange(spans[k].0 as int, spans[k].1 as int))
}

/// Whether `c` is whitespace: see [`is_whitespace`].
pub fn char_is_whitespace(c: char) -> (yes: bool)
    ensures
        yes == is_whitespace(c),
{
    ('\u{0009}' <= c && c <= '\u{000D}') || c == '\u{0020}' || c == '\u{0085}' || c == '\u{00A0}'
        || c == '\u{1680}' || ('\u{2000}' <= c && c <= '\u{200A}') || c == '\u{2028}' || c
        == '\u{2029}' || c == '\u{202F}' || c == '\u{205F}' || c == '\u{3000}'
}

/// The end of the run of whitespace (`blank`) or of other characters
/// (`!blank`) that starts at `from`.
fn run_end(text: &[char], from: usize, blank: bool) -> (to: usize)
    requires
        from <= text@.len(),
    ensures
        from <= to <= text@.len(),
        to - from == run_length(text@.skip(from as int), blank),
        to == text@.len() || is_whitespace(text@[to as int]) != blank,
{
    let mut to: usize = from;
    while to < text.len() && char_is_whitespace(text[to]) == blank
        invariant
            from <= to <= text@.len(),
            forall|j: int| from <= j < to ==> is_whitespace(#[trigger] text@[j]) == blank,
        decreases text@.len() - to,
    {
        to = to + 1;
    }
    proof {
        lemma_run_scanned(text@, from as int, to as int, blank);
    }
    to
}

/// Where the tokens of `text` stand: for each token of [`split_tokens`], in
/// order, the index of its first character and the index after its last.
/// The spans lie in the text, one after the other and apart.
pub fn token_spans(text: &[char]) -> (spans: Vec<(usize, usize)>)
    ensures
        span_texts(text@, spans@) == split_tokens(text@),
        forall|k: int|
            0 <= k < spans@.len() ==> (#[trigger] spans@[k]).0 < spans@[k].1 <= text@.len(),
        forall|j: int, k: int|
            0 <= j < k < spans@.len() ==> (#[trigger] spans@[j]).1 < (#[trigger] spans@[k]).0,
{
    let mut spans: Vec<(usize, usize)> = Vec::new();
    let mut pos: usize = 0;
    assert(text@.skip(0) =~= text@);
    loop
        invariant
            pos <= text@.len(),
            split_tokens(text@) == span_texts(text@, spans@) + split_tokens(
                text@.skip(pos as int),
            ),
            forall|k: int|
                0 <= k < spans@.len() ==> (#[trigger] spans@[k]).0 < spans@[k].1 <= pos,
            forall|j: int, k: int|
                0 <= j < k < spans@.len() ==> (#[trigger] spans@[j]).1 < (#[trigger] spans@[k]).0,
            spans@.len() > 0 ==> pos == text@.len() || is_whitespace(text@[pos as int]),
        ensures
            span_texts(text@, spans@) == split_tokens(text@),
            forall|k: int|
                0 <= k < spans@.len() ==> (#[trigger] spans@[k]).0 < spans@[k].1 <= text@.len(),
            forall|j: int, k: int|
                0 <= j < k < spans@.len() ==> (#[trigger] spans@[j]).1 < (#[trigger] spans@[k]).0,
        decreases text@.len() - pos,
    {
        let start = run_end(text, pos, true);
        let end = run_end(text, start, false);
        proof {
            let body = text@.skip(pos as int).skip(start - pos);
            assert(body =~= text@.skip(start as int));
            assert(body.take(end - start) =~= text@.subrange(start as int, end as int));
            assert(body.skip(end - start) =~= text@.skip(end as int));
        }
        if end == start {
            break ;
        }
        spans.push((start, end));
        pos = end;
    }
    spans
}

/// A stretch of `text` whose characters all are whitespace, or all are not,
/// and that ends where the text ends or the next character differs, is the
/// run that starts there.
proof fn lemma_run_scanned(text: Seq<char>, from: int, to: int, blank: bool)
    requires
        0 <= from <= to <= text.len(),
        forall|j: int| from <= j < to ==> is_whitespace(#[trigger] text[j]) == blank,
        to == text.len() || is_whitespace(text[to]) != blank,
    ensures
        run_length(text.skip(from), blank) == to - from,
    decreases to - from,
{
    if from < to {
        assert(text.skip(from).drop_first() =~= text.skip(from + 1));
        lemma_run_scanned(text, from + 1, to, blank);
    }
}

/// A run lies in its text, its characters all are of its kind, and it ends
/// where the text ends or the next character is of the other kind.
pub proof fn lemma_run_is_maximal(text: Seq<char>, blank: bool)
    ensures
        run_length(text, blank) <= text.len(),
        forall|i: int|
            0 <= i < run_length(text, blank) ==> is_whitespace(#[trigger] text[i]) == blank,
        run_length(text, blank) < text.len() ==> is_whitespace(
            text[run_length(text, blank) as int],
        ) != blank,
    decreases text.len(),
{
    if text.len() > 0 && is_whitespace(text[0]) == blank {
        let rest = text.drop_first();
        lemma_run_is_maximal(rest, blank);
        assert forall|i: int| 0 <= i < run_length(text, blank) implies is_whitespace(
            #[trigger] text[i],
        ) == blank by {
            if i > 0 {
                assert(text[i] == rest[i - 1]);
            }
        }
    }
}

/// The run that starts a concatenation is the run that starts its left
/// part, and goes on into the right part only where it takes all of the left.
pub proof fn lemma_run_of_concat(left: Seq<char>, right: Seq<char>, blank: bool)
    ensures
        run_length(left + right, blank) == if run_length(left, blank) == left.len() {
            left.len() + run_length(right, blank)
        } else {
            run_length(left, blank)
        },
    decreases left.len(),
{
    if left.len() > 0 {
        assert((left + right).drop_first() =~= left.drop_first() + right);
        lemma_run_of_concat(left.drop_first(), right, blank);
    }
}

/// No token is empty, and none holds whitespace.
pub proof fn lemma_tokens_are_words(text: Seq<char>)
    ensures
        forall|k: int|
            0 <= k < split_tokens(text).len() ==> {
                &&& (#[trigger] split_tokens(text)[k]).len() > 0
                &&& no_whitespace(split_tokens(text)[k])
            },
    decreases text.len(),
{
    lemma_run_is_maximal(text, true);
    let body = text.skip(run_length(text, true) as int);
    let first = run_length(body, false);
    lemma_run_is_maximal(body, false);
    if first > 0 {
        let rest = body.skip(first as int);
        lemma_tokens_are_words(rest);
        let tokens = split_tokens(text);
        assert forall|k: int| 0 <= k < tokens.len() implies (#[trigger] tokens[k]).len() > 0
            && no_whitespace(tokens[k]) by {
            if k > 0 {
                assert(tokens[k] == split_tokens(rest)[k - 1]);
            }
        }
    }
}

/// A text of whitespace only, the empty text among them, holds no token.
pub proof fn lemma_split_blank(blank: Seq<char>)
    requires
        forall|i: int| 0 <= i < blank.len() ==> is_whitespace(#[trigger] blank[i]),
    ensures
        split_tokens(blank) == Seq::<Seq<char>>::empty(),
{
    lemma_run_is_maximal(blank, true);
}

/// A text without whitespace is one token, or none where it is empty.
pub proof fn lemma_split_word(word: Seq<char>)
    requires
        no_whitespace(word),
    ensures
        split_tokens(word) == if word.len() == 0 {
            Seq::<Seq<char>>::empty()
        } else {
            seq![word]
        },
{
    lemma_run_is_maximal(word, true);
    lemma_run_is_maximal(word, false);
    if word.len() > 0 {
        assert(word.take(word.len() as int) =~= word);
        lemma_split_blank(word.skip(word.len() as int));
    }
}

/// Where whitespace, or the end of either text, stands between two texts, the
/// tokens of their concatenation are those of the left and then those of the
/// right: no token reaches across.
pub proof fn lemma_split_concat(left: Seq<char>, right: Seq<char>)
    requires
        left.len() == 0 || right.len() == 0 || is_whitespace(left.last()) || is_whitespace(
            right[0],
        ),
    ensures
        split_tokens(left + right) == split_tokens(left) + split_tokens(right),
    decreases left.len(),
{
    let lead = run_length(left, true);
    lemma_run_is_maximal(left, true);
    lemma_run_of_concat(left, right, true);
    if lead == left.len() {
        // The left part is whitespace only: the first token is one of the right part.
        lemma_split_blank(left);
        lemma_run_is_maximal(right, true);
        assert((left + right).skip((left.len() + run_length(right, true)) as int) =~= right.skip(
            run_length(right, true) as int,
        ));
    } else {
        // The first token starts in the left part.
        let body = left.skip(lead as int);
        let first = run_length(body, false);
        let token = body.take(first as int);
        let rest = body.skip(first as int);
        lemma_run_is_maximal(body, false);
        lemma_run_of_concat(body, right, false);
        assert((left + right).skip(lead as int) =~= body + right);
        assert((body + right).take(first as int) =~= token);
        assert((body + right).skip(first as int) =~= rest + right);
        if first == body.len() {
            // It ends with the left part, so the right part starts apart from it.
            assert(body.last() == left.last());
            lemma_split_blank(rest);
        } else {
            lemma_split_concat(rest, right);
        }
    }
}

} // verus!
