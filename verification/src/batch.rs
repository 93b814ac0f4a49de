//! The batch driver: from a text of whitespace-separated tokens to the
//! failures and the roll results of its tokens.

use vstd::prelude::*;
use vstd::slice::slice_subrange;
use rand::rngs::StdRng;
use crate::die::die_with_sides;
use crate::error::{NumberError, ParseError, ParseFailure};
use crate::format::{fmt_line, line_text};
use crate::parser::{
    count_part, lemma_malformed_tokens_rejected, parse_chars, parse_token, parse_whole,
    sides_part,
};
use crate::roll::{RollRequest, RollResult, RollResultView};
use crate::text::to_chars;
use crate::tokens::{
    is_whitespace, lemma_split_concat, lemma_split_word, no_whitespace, span_texts, split_tokens,
    token_spans,
};

verus! {

/// The tokens that the parser accepts.
pub open spec fn accepted() -> spec_fn(Seq<char>) -> bool {
    |token: Seq<char>| parse_token(token) is Ok
}

/// The tokens that the parser rejects.
pub open spec fn rejected() -> spec_fn(Seq<char>) -> bool {
    |token: Seq<char>| parse_token(token) is Err
}

/// The request that an accepted token denotes.
pub open spec fn request_of() -> spec_fn(Seq<char>) -> RollRequest {
    |token: Seq<char>| parse_token(token)->Ok_0
}

/// The failure that a rejected token causes.
pub open spec fn failure_of() -> spec_fn(Seq<char>) -> ParseFailure {
    |token: Seq<char>| parse_token(token)->Err_0
}

/// The requests of a batch: those of its accepted tokens, in the order of the
/// tokens.
pub open spec fn batch_requests(tokens: Seq<Seq<char>>) -> Seq<RollRequest> {
    tokens.filter(accepted()).map_values(request_of())
}

/// The failures of a batch: those of its rejected tokens, in the order of the
/// tokens.
pub open spec fn batch_failures(tokens: Seq<Seq<char>>) -> Seq<ParseFailure> {
    tokens.filter(rejected()).map_values(failure_of())
}

/// The mathematical values of a list of errors.
pub open spec fn failures(errors: Seq<ParseError>) -> Seq<ParseFailure> {
    Seq::new(errors.len(), |k: int| errors[k]@)
}

/// The mathematical values of a list of results.
pub open spec fn result_views(results: Seq<RollResult>) -> Seq<RollResultView> {
    Seq::new(results.len(), |k: int| results[k]@)
}

/// The texts of a list of strings.
pub open spec fn texts(lines: Seq<String>) -> Seq<Seq<char>> {
    Seq::new(lines.len(), |k: int| lines[k]@)
}

/// The line that reports a failure.
pub open spec fn diagnostic_text(failure: ParseFailure) -> Seq<char> {
    "error: "@ + failure.message() + ". continuing..."@
}

/// What came of parsing a batch.
#[derive(Clone, Debug, PartialEq, Eq)]
pub struct ParsedBatch {
    /// The requests of the accepted tokens, in the order of the tokens.
    pub requests: Vec<RollRequest>,
    /// The failures of the rejected tokens, in the order of the tokens.
    pub errors: Vec<ParseError>,
}

/// What came of running a batch.
#[derive(Clone, Debug, PartialEq, Eq)]
pub struct BatchReport {
    /// The failures of the rejected tokens, in the order of the tokens.
    pub errors: Vec<ParseError>,
    /// The results of the accepted tokens, in the order of the tokens.
    pub results: Vec<RollResult>,
}

/// The mathematical value of a [`BatchReport`].
pub struct BatchReportView {
    pub failures: Seq<ParseFailure>,
    pub results: Seq<RollResultView>,
}

impl View for BatchReport {
    type V = BatchReportView;

    open spec fn view(&self) -> BatchReportView {
        BatchReportView { failures: failures(self.errors@), results: result_views(self.results@) }
    }
}

impl BatchReportView {
    /// The requests that the results answer, in their order.
    pub open spec fn requests(self) -> Seq<RollRequest> {
        Seq::new(self.results.len(), |k: int| self.results[k].request)
    }

    /// Every result holds one face of its die for each die asked for.
    pub open spec fn wf(self) -> bool {
        forall|k: int| 0 <= k < self.results.len() ==> (#[trigger] self.results[k]).wf()
    }

    /// The diagnostics of the failures, in their order.
    pub open spec fn diagnostics(self) -> Seq<Seq<char>> {
        Seq::new(self.failures.len(), |k: int| diagnostic_text(self.failures[k]))
    }

    /// The lines of the results, in their order.
    pub open spec fn successes(self) -> Seq<Seq<char>> {
        Seq::new(self.results.len(), |k: int| line_text(self.results[k]))
    }

    /// The lines of the report: the diagnostics, then the lines of the
    /// results.
    pub open spec fn lines(self) -> Seq<Seq<char>> {
        self.diagnostics() + self.successes()
    }
}

/// Splits `input` into tokens and parses each of them. A token that is
/// rejected is recorded and the batch goes on.
pub fn parse_batch(input: &str) -> (parsed: ParsedBatch)
    ensures
        parsed.requests@ == batch_requests(split_tokens(input@)),
        failures(parsed.errors@) == batch_failures(split_tokens(input@)),
        forall|k: int| 0 <= k < parsed.requests@.len() ==> (#[trigger] parsed.requests@[k]).wf(),
{
    let chars = to_chars(input);
    let spans = token_spans(chars.as_slice());
    let ghost tokens = split_tokens(input@);
    let mut requests: Vec<RollRequest> = Vec::new();
    let mut errors: Vec<ParseError> = Vec::new();
    let mut k: usize = 0;
    proof {
        lemma_batch_empty();
    }
    while k < spans.len()
        invariant
            k <= spans@.len(),
            chars@ == input@,
            tokens == split_tokens(input@),
            span_texts(chars@, spans@) == tokens,
            forall|i: int|
                0 <= i < spans@.len() ==> (#[trigger] spans@[i]).0 < spans@[i].1 <= chars@.len(),
            requests@ == batch_requests(tokens.take(k as int)),
            failures(errors@) == batch_failures(tokens.take(k as int)),
            forall|i: int| 0 <= i < requests@.len() ==> (#[trigger] requests@[i]).wf(),
        decreases spans@.len() - k,
    {
        let (from, to) = spans[k];
        let ghost token = tokens[k as int];
        proof {
            assert(tokens.take(k + 1) =~= tokens.take(k as int).push(token));
            lemma_batch_push(tokens.take(k as int), token);
        }
        match parse_chars(slice_subrange(chars.as_slice(), from, to)) {
            Ok(request) => {
                requests.push(request);
            },
            Err(kind) => {
                let text = input.substring_char(from, to);
                errors.push(ParseError { kind, token: text.to_owned() });
            },
        }
        k = k + 1;
    }
    assert(tokens.take(spans@.len() as int) =~= tokens);
    ParsedBatch { requests, errors }
}

/// Rolls each request in turn, all against one random source.
pub fn roll_batch(requests: &Vec<RollRequest>, rng: &mut StdRng) -> (results: Vec<RollResult>)
    ensures
        results@.len() == requests@.len(),
        forall|k: int|
            0 <= k < results@.len() ==> {
                &&& (#[trigger] results@[k]).request == requests@[k]
                &&& results@[k]@.wf()
            },
{
    let mut results: Vec<RollResult> = Vec::new();
    let mut k: usize = 0;
    while k < requests.len()
        invariant
            k <= requests@.len(),
            results@.len() == k,
            forall|i: int|
                0 <= i < results@.len() ==> {
                    &&& (#[trigger] results@[i]).request == requests@[i]
                    &&& results@[i]@.wf()
                },
        decreases requests@.len() - k,
    {
        let result = requests[k].do_roll(rng);
        results.push(result);
        k = k + 1;
    }
    results
}

/// Runs a batch: parses every token of `input`, then rolls the requests of
/// the accepted tokens in their order, all against `rng`.
///
/// A rejected token yields a failure and no result; it neither ends the
/// batch nor changes what the other tokens yield.
pub fn run_batch(input: &str, rng: &mut StdRng) -> (report: BatchReport)
    ensures
        report@.failures == batch_failures(split_tokens(input@)),
        report@.requests() == batch_requests(split_tokens(input@)),
        report@.wf(),
{
    let parsed = parse_batch(input);
    let results = roll_batch(&parsed.requests, rng);
    BatchReport { errors: parsed.errors, results }
}

/// The line that reports `error`: see [`diagnostic_text`].
pub fn diagnostic(error: &ParseError) -> (line: String)
    ensures
        line@ == diagnostic_text(error@),
{
    let mut line = "error: ".to_owned();
    let message = error.message();
    line.append(message.as_str());
    line.append(". continuing...");
    line
}

impl BatchReport {
    /// The lines of the report: one diagnostic for each failure, then one
    /// line for each result, both in the order of the tokens.
    pub fn lines(&self) -> (lines: Vec<String>)
        ensures
            texts(lines@) == self@.lines(),
    {
        let mut lines: Vec<String> = Vec::new();
        let mut i: usize = 0;
        while i < self.errors.len()
            invariant
                i <= self.errors@.len(),
                texts(lines@) == self@.diagnostics().take(i as int),
            decreases self.errors@.len() - i,
        {
            let line = diagnostic(&self.errors[i]);
            lines.push(line);
            assert(self@.diagnostics().take(i + 1) =~= self@.diagnostics().take(i as int).push(
                line@,
            ));
            i = i + 1;
        }
        let mut j: usize = 0;
        while j < self.results.len()
            invariant
                j <= self.results@.len(),
                texts(lines@) == self@.diagnostics() + self@.successes().take(j as int),
            decreases self.results@.len() - j,
        {
            let line = fmt_line(&self.results[j]);
            lines.push(line);
            assert(self@.diagnostics() + self@.successes().take(j + 1) =~= (self@.diagnostics()
                + self@.successes().take(j as int)).push(line@));
            j = j + 1;
        }
        lines
    }
}

/// A result that answers the request of an accepted token holds as many
/// outcomes as the count of the token says, each of them between 1 and the
/// number of sides that the token names.
pub proof fn lemma_outcomes_of_valid_token(token: Seq<char>, result: RollResultView)
    requires
        parse_token(token) == Ok::<_, ParseFailure>(result.request),
        result.wf(),
    ensures
        parse_whole(count_part(token)) == Ok::<nat, NumberError>(result.outcomes.len()),
        1 <= result.outcomes.len() <= 255,
        parse_whole(sides_part(token)) matches Ok(sides) && die_with_sides(sides) is Some
            && forall|i: int|
            0 <= i < result.outcomes.len() ==> 1 <= #[trigger] result.outcomes[i] <= sides,
{
    lemma_malformed_tokens_rejected(token);
}

/// A batch without tokens has neither requests nor failures.
pub proof fn lemma_batch_empty()
    ensures
        batch_requests(Seq::empty()) == Seq::<RollRequest>::empty(),
        batch_failures(Seq::empty()) == Seq::<ParseFailure>::empty(),
{
    reveal(Seq::filter);
}

/// One more token at the end of a batch adds its request or its failure at
/// the end, and leaves all before it as it was.
pub proof fn lemma_batch_push(tokens: Seq<Seq<char>>, token: Seq<char>)
    ensures
        parse_token(token) matches Ok(request) ==> {
            &&& batch_requests(tokens.push(token)) == batch_requests(tokens).push(request)
            &&& batch_failures(tokens.push(token)) == batch_failures(tokens)
        },
        parse_token(token) matches Err(failure) ==> {
            &&& batch_requests(tokens.push(token)) == batch_requests(tokens)
            &&& batch_failures(tokens.push(token)) == batch_failures(tokens).push(failure)
        },
{
    tokens.lemma_filter_push(token, accepted());
    tokens.lemma_filter_push(token, rejected());
}

/// A batch made of two batches has the requests of the first and then those
/// of the second, and likewise the failures: what a token yields does not
/// depend on the tokens around it.
pub proof fn lemma_batch_concat(first: Seq<Seq<char>>, second: Seq<Seq<char>>)
    ensures
        batch_requests(first + second) == batch_requests(first) + batch_requests(second),
        batch_failures(first + second) == batch_failures(first) + batch_failures(second),
{
    Seq::filter_distributes_over_add(first, second, accepted());
    Seq::filter_distributes_over_add(first, second, rejected());
}

/// Every token of a batch yields one request or one failure, never both and
/// never none.
pub proof fn lemma_every_token_answered(tokens: Seq<Seq<char>>)
    ensures
        batch_requests(tokens).len() + batch_failures(tokens).len() == tokens.len(),
    decreases tokens.len(),
{
    if tokens.len() == 0 {
        lemma_batch_empty();
    } else {
        lemma_every_token_answered(tokens.drop_last());
        lemma_batch_push(tokens.drop_last(), tokens.last());
        assert(tokens.drop_last().push(tokens.last()) =~= tokens);
    }
}

/// A rejected token among the tokens of a batch takes no request away and
/// moves none: the requests are those of the batch without it. The token
/// shows among the failures, between those before and those after it.
pub proof fn lemma_rejected_token_is_skipped(
    before: Seq<Seq<char>>,
    token: Seq<char>,
    after: Seq<Seq<char>>,
)
    requires
        parse_token(token) is Err,
    ensures
        batch_requests(before + seq![token] + after) == batch_requests(before + after),
        batch_failures(before + seq![token] + after) == batch_failures(before) + seq![
            parse_token(token)->Err_0,
        ] + batch_failures(after),
{
    lemma_batch_concat(before + seq![token], after);
    lemma_batch_concat(before, after);
    assert(before + seq![token] =~= before.push(token));
    lemma_batch_push(before, token);
}

/// Batch independence, on the text of a batch: a rejected token that stands
/// between whitespace or the ends of the text changes nothing about the
/// requests of the batch. They are those of the text without the token, which
/// are those of the text before it and then those of the text after it. The
/// token adds its one failure, between those before and those after it.
pub proof fn lemma_batch_independence(before: Seq<char>, token: Seq<char>, after: Seq<char>)
    requires
        before.len() == 0 || is_whitespace(before.last()),
        after.len() == 0 || is_whitespace(after[0]),
        no_whitespace(token),
        parse_token(token) is Err,
    ensures
        batch_requests(split_tokens(before + token + after)) == batch_requests(
            split_tokens(before + after),
        ),
        batch_requests(split_tokens(before + token + after)) == batch_requests(
            split_tokens(before),
        ) + batch_requests(split_tokens(after)),
        token.len() > 0 ==> batch_failures(split_tokens(before + token + after))
            == batch_failures(split_tokens(before)) + seq![parse_token(token)->Err_0]
            + batch_failures(split_tokens(after)),
{
    lemma_split_word(token);
    lemma_split_concat(before, token);
    lemma_split_concat(before, after);
    if token.len() > 0 {
        lemma_split_concat(before + token, after);
        lemma_rejected_token_is_skipped(split_tokens(before), token, split_tokens(after));
    }
    lemma_batch_concat(split_tokens(before), split_tokens(after));
}

} // verus!
