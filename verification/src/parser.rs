//! The notation parser: from one token `<count>d<sides>` to a roll request.

use vstd::prelude::*;
use vstd::slice::slice_subrange;
use crate::die::{die_with_sides, DieType, DELIMITER};
use crate::error::{NumberError, ParseError, ParseErrorKind, ParseFailure};
use crate::roll::RollRequest;
use crate::text::{
    all_digits, decimal_value, is_digit, lemma_decimal_value_push, to_chars, to_digit,
};

verus! {

/// Whether `token` holds a delimiter.
pub open spec fn has_delimiter(token: Seq<char>) -> bool {
    exists|i: int| 0 <= i < token.len() && #[trigger] token[i] == DELIMITER
}

/// Whether the first delimiter of `token` stands at index `at`.
pub open spec fn is_first_delimiter(token: Seq<char>, at: int) -> bool {
    &&& 0 <= at < token.len()
    &&& token[at] == DELIMITER
    &&& forall|j: int| 0 <= j < at ==> #[trigger] token[j] != DELIMITER
}

/// The index of the first delimiter of a token that has one.
pub open spec fn delimiter_index(token: Seq<char>) -> int
    recommends
        has_delimiter(token),
{
    choose|at: int| is_first_delimiter(token, at)
}

/// The digits of a numeral: the text itself, or what follows its leading
/// `+` where more than the sign is there.
pub open spec fn numeral_digits(text: Seq<char>) -> Seq<char> {
    if text.len() > 1 && text[0] == '+' {
        text.drop_first()
    } else {
        text
    }
}

/// Reads `text` as a whole number: an optional `+` and then one or more
/// decimal digits, nothing before, between or after them. A `-` is no digit,
/// so no negative number is read. The value is not bounded.
pub open spec fn parse_whole(text: Seq<char>) -> Result<nat, NumberError> {
    if text.len() == 0 {
        Err(NumberError::Empty)
    } else if !all_digits(numeral_digits(text)) {
        Err(NumberError::InvalidDigit)
    } else {
        Ok(decimal_value(numeral_digits(text)))
    }
}

/// The part of a token before its first delimiter: the count.
pub open spec fn count_part(token: Seq<char>) -> Seq<char>
    recommends
        has_delimiter(token),
{
    token.subrange(0, delimiter_index(token))
}

/// The part of a token after its first delimiter: the number of sides.
pub open spec fn sides_part(token: Seq<char>) -> Seq<char>
    recommends
        has_delimiter(token),
{
    token.subrange(delimiter_index(token) + 1, token.len() as int)
}

/// What the parser makes of the two parts of a token.
///
/// The left part is read as the count, which must lie in `1..=255`; then the
/// right part is read as the number of sides, which must be in the die
/// catalog. The first check that fails decides the kind of the failure.
pub open spec fn parse_parts(left: Seq<char>, right: Seq<char>) -> Result<
    RollRequest,
    ParseErrorKind,
> {
    match parse_whole(left) {
        Err(e) => Err(ParseErrorKind::NumberParseFailure(e)),
        Ok(count) => if count == 0 || count > 255 {
            Err(ParseErrorKind::InvalidCount)
        } else {
            match parse_whole(right) {
                Err(e) => Err(ParseErrorKind::NumberParseFailure(e)),
                Ok(sides) => match die_with_sides(sides) {
                    None => Err(ParseErrorKind::UnrecognizedDieType),
                    Some(die) => Ok(RollRequest { die, count: count as u8 }),
                },
            }
        },
    }
}

/// What the parser makes of `token`, without the token itself: a token
/// without a delimiter is malformed; any other is split at its first
/// delimiter, and [`parse_parts`] decides on the two parts.
pub open spec fn parse_notation(token: Seq<char>) -> Result<RollRequest, ParseErrorKind> {
    if !has_delimiter(token) {
        Err(ParseErrorKind::MalformedSyntax)
    } else {
        parse_parts(count_part(token), sides_part(token))
    }
}

/// What the parser makes of `token`: a request, or the kind of the failure
/// together with the token.
pub open spec fn parse_token(token: Seq<char>) -> Result<RollRequest, ParseFailure> {
    match parse_notation(token) {
        Ok(request) => Ok(request),
        Err(kind) => Err(ParseFailure { kind, token }),
    }
}

/// The first delimiter of a token stands at one index only.
pub proof fn lemma_first_delimiter_unique(token: Seq<char>, at: int)
    requires
        is_first_delimiter(token, at),
    ensures
        has_delimiter(token),
        delimiter_index(token) == at,
{
    // The index chosen is a first delimiter too, since there is one. Of two
    // first delimiters the later would have the earlier before it.
    let other = delimiter_index(token);
    assert(is_first_delimiter(token, other));
    if other < at {
        assert(token[other] != DELIMITER);
    } else if at < other {
        assert(token[at] != DELIMITER);
    }
}

/// A token put together from a left part without delimiter, a delimiter and
/// any right part is split into just these parts, whatever the right part
/// holds: only the first delimiter counts.
pub proof fn lemma_notation_of_parts(left: Seq<char>, right: Seq<char>)
    requires
        !has_delimiter(left),
    ensures
        has_delimiter(left + seq![DELIMITER] + right),
        count_part(left + seq![DELIMITER] + right) == left,
        sides_part(left + seq![DELIMITER] + right) == right,
        parse_notation(left + seq![DELIMITER] + right) == parse_parts(left, right),
{
    let token = left + seq![DELIMITER] + right;
    let at = left.len() as int;
    assert forall|j: int| 0 <= j < at implies #[trigger] token[j] != DELIMITER by {
        assert(token[j] == left[j]);
    }
    lemma_first_delimiter_unique(token, at);
    assert(token.subrange(0, at) =~= left);
    assert(token.subrange(at + 1, token.len() as int) =~= right);
}

/// Whether `token` is well-formed dice notation: it holds a delimiter, its
/// count is a whole number in `1..=255`, and its number of sides is a whole
/// number that the die catalog lists.
pub open spec fn is_notation(token: Seq<char>) -> bool {
    &&& has_delimiter(token)
    &&& parse_whole(count_part(token)) matches Ok(count) && 1 <= count <= 255
    &&& parse_whole(sides_part(token)) matches Ok(sides) && die_with_sides(sides) is Some
}

/// The parser accepts the well-formed tokens and no others. What it accepts
/// is the request with the count and the die that the token names. Each way
/// of being malformed has its kind of failure: no delimiter; a count that is
/// no whole number; a count of zero or above 255; a number of sides that is
/// no whole number; a number of sides that the catalog does not list. Where
/// several apply, the first in this order decides.
pub proof fn lemma_malformed_tokens_rejected(token: Seq<char>)
    ensures
        parse_notation(token) is Ok <==> is_notation(token),
        parse_token(token) is Ok <==> is_notation(token),
        parse_token(token) matches Err(failure) ==> failure.token == token,
        parse_notation(token) matches Ok(request) ==> {
            &&& request.wf()
            &&& parse_whole(count_part(token)) == Ok::<nat, NumberError>(request.count as nat)
            &&& parse_whole(sides_part(token)) == Ok::<nat, NumberError>(
                request.die.sides() as nat,
            )
        },
        !has_delimiter(token) ==> parse_notation(token) == Err::<RollRequest, _>(
            ParseErrorKind::MalformedSyntax,
        ),
        has_delimiter(token) ==> match parse_whole(count_part(token)) {
            Err(e) => parse_notation(token) == Err::<RollRequest, _>(
                ParseErrorKind::NumberParseFailure(e),
            ),
            Ok(count) => if count == 0 || count > 255 {
                parse_notation(token) == Err::<RollRequest, _>(ParseErrorKind::InvalidCount)
            } else {
                match parse_whole(sides_part(token)) {
                    Err(e) => parse_notation(token) == Err::<RollRequest, _>(
                        ParseErrorKind::NumberParseFailure(e),
                    ),
                    Ok(sides) => die_with_sides(sides) is None ==> parse_notation(token) == Err::<
                        RollRequest,
                        _,
                    >(ParseErrorKind::UnrecognizedDieType),
                }
            },
        },
{
}

/// The value of a numeral, if it fits in a byte.
pub open spec fn as_byte(value: nat) -> Option<u8> {
    if value <= 255 {
        Some(value as u8)
    } else {
        None
    }
}

/// Reads `text` as a whole number: see [`parse_whole`]. The value is handed
/// back if it fits in a byte; `None` stands for any larger value.
pub fn read_whole(text: &[char]) -> (read: Result<Option<u8>, NumberError>)
    ensures
        match parse_whole(text@) {
            Err(e) => read == Err::<Option<u8>, _>(e),
            Ok(value) => read == Ok::<_, NumberError>(as_byte(value)),
        },
{
    let n: usize = text.len();
    if n == 0 {
        return Err(NumberError::Empty);
    }
    let start: usize = if n > 1 && text[0] == '+' {
        1
    } else {
        0
    };
    let ghost digits = numeral_digits(text@);
    assert(digits =~= text@.subrange(start as int, n as int));
    let mut value: u16 = 0;
    let mut large = false;
    let mut i: usize = start;
    while i < n
        invariant
            start <= i <= n,
            0 < n == text@.len(),
            digits == numeral_digits(text@),
            digits == text@.subrange(start as int, n as int),
            all_digits(digits.take(i - start)),
            !large ==> value == decimal_value(digits.take(i - start)) && value <= 255,
            large ==> decimal_value(digits.take(i - start)) > 255,
        decreases n - i,
    {
        let c = text[i];
        let digit = match to_digit(c) {
            None => {
                assert(!is_digit(digits[i - start]));
                return Err(NumberError::InvalidDigit);
            },
            Some(digit) => digit,
        };
        proof {
            let before = digits.take(i - start);
            assert(digits.take(i - start + 1) =~= before.push(c));
            lemma_decimal_value_push(before, c);
        }
        if !large {
            let next: u16 = value * 10 + (digit as u16);
            if next > 255 {
                large = true;
            } else {
                value = next;
            }
        }
        i = i + 1;
    }
    assert(digits.take(n - start) =~= digits);
    if large {
        Ok(None)
    } else {
        Ok(Some(value as u8))
    }
}

/// Parses the characters of one token: see [`parse_notation`].
pub fn parse_chars(token: &[char]) -> (parsed: Result<RollRequest, ParseErrorKind>)
    ensures
        parsed == parse_notation(token@),
        parsed matches Ok(request) ==> request.wf(),
{
    let n: usize = token.len();
    let mut at: usize = 0;
    while at < n && token[at] != DELIMITER
        invariant
            at <= n,
            n == token@.len(),
            forall|j: int| 0 <= j < at ==> #[trigger] token@[j] != DELIMITER,
        decreases n - at,
    {
        at = at + 1;
    }
    if at == n {
        return Err(ParseErrorKind::MalformedSyntax);
    }
    proof {
        lemma_first_delimiter_unique(token@, at as int);
    }
    let count = match read_whole(slice_subrange(token, 0, at)) {
        Err(e) => {
            return Err(ParseErrorKind::from(e));
        },
        Ok(None) => {
            return Err(ParseErrorKind::InvalidCount);
        },
        Ok(Some(count)) => count,
    };
    if count == 0 {
        return Err(ParseErrorKind::InvalidCount);
    }
    let sides = match read_whole(slice_subrange(token, at + 1, n)) {
        Err(e) => {
            return Err(ParseErrorKind::from(e));
        },
        Ok(None) => {
            return Err(ParseErrorKind::UnrecognizedDieType);
        },
        Ok(Some(sides)) => sides,
    };
    match DieType::try_from(sides) {
        Err(kind) => Err(kind),
        Ok(die) => Ok(RollRequest { die, count }),
    }
}

/// Parses one token of dice notation.
///
/// Gives the request that the token denotes, or the failure that
/// [`parse_token`] names, which carries the token as it was given.
pub fn roll_parser(dstr: &str) -> (parsed: Result<RollRequest, ParseError>)
    ensures
        match parsed {
            Ok(request) => parse_token(dstr@) == Ok::<_, ParseFailure>(request),
            Err(e) => parse_token(dstr@) == Err::<RollRequest, _>(e@),
        },
        parsed matches Ok(request) ==> request.wf(),
{
    let chars = to_chars(dstr);
    match parse_chars(chars.as_slice()) {
        Ok(request) => Ok(request),
        Err(kind) => Err(ParseError { kind, token: dstr.to_owned() }),
    }
}

} // verus!
