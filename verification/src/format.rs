//! The result formatter: from a roll result to its line of text.
//!
//! A line is `<count>d<sides>: <outcomes>`, the outcomes in roll order with
//! one space between two of them. The laws of this module say that a line
//! can be read back: its notation parses to the request, and its tokens are
//! the numerals of the outcomes.

use vstd::prelude::*;
use crate::die::{lemma_catalog_round_trip, DELIMITER};
use crate::error::{NumberError, ParseErrorKind, ParseFailure};
use crate::parser::{
    count_part, has_delimiter, is_notation, lemma_notation_of_parts, parse_notation,
    parse_parts, parse_token, parse_whole, sides_part,
};
use crate::roll::{RollResultView, RollRequest, RollResult};
use crate::text::{
    all_digits, decimal_text, decimal_value, is_digit, lemma_decimal_round_trip, push_decimal,
};
use crate::tokens::{
    is_whitespace, lemma_split_blank, lemma_split_concat, lemma_split_word, no_whitespace,
    split_tokens,
};

verus! {

/// The outcomes as decimal numerals in roll order, one space between two of
/// them and none at either end.
pub open spec fn outcomes_text(outcomes: Seq<u8>) -> Seq<char>
    decreases outcomes.len(),
{
    if outcomes.len() == 0 {
        Seq::empty()
    } else if outcomes.len() == 1 {
        decimal_text(outcomes[0] as nat)
    } else {
        outcomes_text(outcomes.drop_last()) + seq![' '] + decimal_text(outcomes.last() as nat)
    }
}

/// The numerals of the outcomes, in roll order.
pub open spec fn outcome_numerals(outcomes: Seq<u8>) -> Seq<Seq<char>> {
    Seq::new(outcomes.len(), |k: int| decimal_text(outcomes[k] as nat))
}

/// The notation of a request: `<count>d<sides>`.
pub open spec fn request_text(request: RollRequest) -> Seq<char> {
    decimal_text(request.count as nat) + request.die.label_text()
}

/// The line of a result: `<count>d<sides>: <outcomes>`.
pub open spec fn line_text(result: RollResultView) -> Seq<char> {
    request_text(result.request) + seq![':', ' '] + outcomes_text(result.outcomes)
}

/// Renders outcomes as text: see [`outcomes_text`]. Order and number are kept;
/// nothing is sorted or left out.
pub fn fmt_roll(rvec: &Vec<u8>) -> (rollstr: String)
    ensures
        rollstr@ == outcomes_text(rvec@),
{
    let mut rollstr = String::new();
    let mut i: usize = 0;
    while i < rvec.len()
        invariant
            i <= rvec.len(),
            rollstr@ == outcomes_text(rvec@.take(i as int)),
        decreases rvec.len() - i,
    {
        if i > 0 {
            proof {
                reveal_strlit(" ");
            }
            rollstr.append(" ");
        }
        push_decimal(&mut rollstr, rvec[i]);
        proof {
            let next = rvec@.take(i + 1);
            assert(next.drop_last() =~= rvec@.take(i as int));
        }
        i = i + 1;
    }
    assert(rvec@.take(rvec.len() as int) =~= rvec@);
    rollstr
}

/// Renders a result as its line of text: see [`line_text`].
pub fn fmt_line(result: &RollResult) -> (line: String)
    ensures
        line@ == line_text(result@),
{
    let mut line = String::new();
    push_decimal(&mut line, result.request.count);
    let label = result.request.die.label();
    line.append(label.as_str());
    proof {
        reveal_strlit(": ");
    }
    line.append(": ");
    let outcomes = fmt_roll(&result.outcomes);
    line.append(outcomes.as_str());
    line
}

/// Formatting is repeatable: two renderings of one result are the same text.
pub proof fn lemma_fmt_line_repeatable(result: RollResult, first: String, second: String)
    requires
        first@ == line_text(result@),
        second@ == line_text(result@),
    ensures
        first@ == second@,
{
}

/// A text of digits holds neither the delimiter nor whitespace.
proof fn lemma_digits_are_plain(digits: Seq<char>)
    requires
        all_digits(digits),
    ensures
        !has_delimiter(digits),
        no_whitespace(digits),
{
    assert forall|i: int| 0 <= i < digits.len() implies #[trigger] digits[i] != DELIMITER
        && !is_whitespace(digits[i]) by {
        assert(is_digit(digits[i]));
    }
}

/// The notation of a request holds no whitespace, and the parser splits it
/// into the numeral of the count and the numeral of the sides.
proof fn lemma_request_text_parts(request: RollRequest)
    ensures
        no_whitespace(request_text(request)),
        has_delimiter(request_text(request)),
        count_part(request_text(request)) == decimal_text(request.count as nat),
        sides_part(request_text(request)) == decimal_text(request.die.sides() as nat),
        parse_notation(request_text(request)) == parse_parts(
            decimal_text(request.count as nat),
            decimal_text(request.die.sides() as nat),
        ),
{
    let left = decimal_text(request.count as nat);
    let right = decimal_text(request.die.sides() as nat);
    let text = left + seq![DELIMITER] + right;
    lemma_decimal_round_trip(request.count as nat);
    lemma_decimal_round_trip(request.die.sides() as nat);
    lemma_digits_are_plain(left);
    lemma_digits_are_plain(right);
    assert(request_text(request) =~= text);
    lemma_notation_of_parts(left, right);
    assert forall|i: int| 0 <= i < text.len() implies !is_whitespace(#[trigger] text[i]) by {
        if i < left.len() {
            assert(text[i] == left[i]);
        } else if i > left.len() {
            assert(text[i] == right[i - left.len() - 1]);
        }
    }
}

/// The notation of a well-formed request is a token that the parser reads
/// back as that request.
pub proof fn lemma_notation_round_trip(request: RollRequest)
    requires
        request.wf(),
    ensures
        is_notation(request_text(request)),
        parse_notation(request_text(request)) == Ok::<_, ParseErrorKind>(request),
        parse_token(request_text(request)) == Ok::<_, ParseFailure>(request),
{
    lemma_request_text_parts(request);
    lemma_numeral_reads_back(request.count as nat);
    lemma_numeral_reads_back(request.die.sides() as nat);
    lemma_catalog_round_trip(request.die, request.die.sides() as nat);
}

/// The notation of a request names that request only.
pub proof fn lemma_request_text_is_faithful(first: RollRequest, second: RollRequest)
    requires
        request_text(first) == request_text(second),
    ensures
        first == second,
{
    // One text has one count part and one sides part, and a numeral one value.
    lemma_request_text_parts(first);
    lemma_request_text_parts(second);
    lemma_decimal_round_trip(first.count as nat);
    lemma_decimal_round_trip(second.count as nat);
    lemma_decimal_round_trip(first.die.sides() as nat);
    lemma_decimal_round_trip(second.die.sides() as nat);
    assert(first.count == second.count);
    assert(first.die.sides() == second.die.sides());
    lemma_catalog_round_trip(first.die, first.die.sides() as nat);
    lemma_catalog_round_trip(second.die, second.die.sides() as nat);
}

/// The numeral of a number is read as that number.
proof fn lemma_numeral_reads_back(n: nat)
    ensures
        parse_whole(decimal_text(n)) == Ok::<nat, NumberError>(n),
{
    lemma_decimal_round_trip(n);
    assert(is_digit(decimal_text(n)[0]));
}

/// A numeral is a word: it is not empty and holds no whitespace.
proof fn lemma_numeral_is_word(n: nat)
    ensures
        decimal_text(n).len() > 0,
        no_whitespace(decimal_text(n)),
{
    lemma_decimal_round_trip(n);
    lemma_digits_are_plain(decimal_text(n));
}

/// A word after a text and a space is one more token at the end.
proof fn lemma_split_then_word(text: Seq<char>, word: Seq<char>)
    requires
        word.len() > 0,
        no_whitespace(word),
    ensures
        split_tokens(text + seq![' '] + word) == split_tokens(text).push(word),
{
    let gap = seq![' '];
    lemma_split_concat(text + gap, word);
    lemma_split_concat(text, gap);
    lemma_split_blank(gap);
    lemma_split_word(word);
    assert(split_tokens(text) + split_tokens(gap) + split_tokens(word) =~= split_tokens(
        text,
    ).push(word));
}

/// The text of the outcomes splits into their numerals, one token for each
/// outcome and in roll order, and each token denotes its outcome: nothing is
/// lost, added or moved.
pub proof fn lemma_outcomes_read_back(outcomes: Seq<u8>)
    ensures
        split_tokens(outcomes_text(outcomes)) == outcome_numerals(outcomes),
        forall|k: int|
            0 <= k < outcomes.len() ==> decimal_value(#[trigger] outcome_numerals(outcomes)[k])
                == outcomes[k],
    decreases outcomes.len(),
{
    if outcomes.len() == 0 {
        lemma_split_blank(Seq::<char>::empty());
    } else if outcomes.len() == 1 {
        lemma_numeral_is_word(outcomes[0] as nat);
        lemma_split_word(decimal_text(outcomes[0] as nat));
    } else {
        let before = outcomes.drop_last();
        let numeral = decimal_text(outcomes.last() as nat);
        lemma_outcomes_read_back(before);
        lemma_numeral_is_word(outcomes.last() as nat);
        lemma_split_then_word(outcomes_text(before), numeral);
        assert(outcome_numerals(before).push(numeral) =~= outcome_numerals(outcomes));
    }
    assert forall|k: int| 0 <= k < outcomes.len() implies decimal_value(
        #[trigger] outcome_numerals(outcomes)[k],
    ) == outcomes[k] by {
        lemma_decimal_round_trip(outcomes[k] as nat);
    }
}

/// The line of a result splits into the notation of its request with the
/// colon, and then the numerals of its outcomes in roll order.
pub proof fn lemma_line_read_back(result: RollResultView)
    ensures
        split_tokens(line_text(result)) == seq![request_text(result.request).push(':')]
            + outcome_numerals(result.outcomes),
{
    let head = request_text(result.request).push(':');
    let gap = seq![' '];
    let tail = outcomes_text(result.outcomes);
    lemma_request_text_parts(result.request);
    assert(no_whitespace(head));
    assert(line_text(result) =~= head + gap + tail);
    lemma_split_concat(head + gap, tail);
    lemma_split_concat(head, gap);
    lemma_split_word(head);
    lemma_split_blank(gap);
    lemma_outcomes_read_back(result.outcomes);
}

/// Two lists of outcomes with one text are one list.
pub proof fn lemma_outcomes_text_is_faithful(first: Seq<u8>, second: Seq<u8>)
    requires
        outcomes_text(first) == outcomes_text(second),
    ensures
        first == second,
{
    lemma_outcomes_read_back(first);
    lemma_outcomes_read_back(second);
    assert(outcome_numerals(first) == outcome_numerals(second));
    assert(first.len() == outcome_numerals(first).len());
    assert(second.len() == outcome_numerals(second).len());
    assert forall|k: int| 0 <= k < first.len() implies first[k] == second[k] by {
        assert(decimal_value(outcome_numerals(first)[k]) == first[k]);
        assert(decimal_value(outcome_numerals(second)[k]) == second[k]);
    }
    assert(first =~= second);
}

/// The line of a result is the line of that result only: the request and the
/// outcomes, their number and their order, can be read back from it.
pub proof fn lemma_line_is_faithful(first: RollResultView, second: RollResultView)
    requires
        line_text(first) == line_text(second),
    ensures
        first == second,
{
    // The first token of the line gives the request.
    lemma_line_read_back(first);
    lemma_line_read_back(second);
    let first_head = request_text(first.request).push(':');
    let second_head = request_text(second.request).push(':');
    assert(split_tokens(line_text(first))[0] == first_head);
    assert(split_tokens(line_text(second))[0] == second_head);
    assert(first_head.drop_last() =~= request_text(first.request));
    assert(second_head.drop_last() =~= request_text(second.request));
    lemma_request_text_is_faithful(first.request, second.request);
    // What follows the notation, the colon and the space gives the outcomes.
    let prefix = request_text(first.request) + seq![':', ' '];
    assert(line_text(first).skip(prefix.len() as int) =~= outcomes_text(first.outcomes));
    assert(line_text(second).skip(prefix.len() as int) =~= outcomes_text(second.outcomes));
    lemma_outcomes_text_is_faithful(first.outcomes, second.outcomes);
}

} // verus!
