//! The grammar of a single argument: padded numbers and words, quoted text.
use crate::framework::text::{
    after_run, chars_of, digits_value, is_digit, is_rest_of, lemma_after_run_is_rest,
    lemma_rest_of_rest, lemma_run_len, lemma_run_len_bounds, read_digits, run_len, scan, CharClass,
};
use vstd::prelude::*;
use vstd::string::*;

verus! {

/// The widths of the integer parameters.
#[derive(Clone, Copy, Debug, PartialEq, Eq, Structural)]
pub enum Width {
    W8,
    W16,
    W32,
    W64,
}

impl Width {
    /// The largest unsigned number of this width.
    pub open spec fn unsigned_max(self) -> nat {
        match self {
            Width::W8 => 0xff,
            Width::W16 => 0xffff,
            Width::W32 => 0xffff_ffff,
            Width::W64 => 0xffff_ffff_ffff_ffff,
        }
    }

    /// The largest signed number of this width.
    pub open spec fn signed_max(self) -> nat {
        match self {
            Width::W8 => 0x7f,
            Width::W16 => 0x7fff,
            Width::W32 => 0x7fff_ffff,
            Width::W64 => 0x7fff_ffff_ffff_ffff,
        }
    }

    /// The largest unsigned number of this width.
    pub fn max_unsigned(self) -> (n: u64)
        ensures
            n == self.unsigned_max(),
    {
        match self {
            Width::W8 => 0xff,
            Width::W16 => 0xffff,
            Width::W32 => 0xffff_ffff,
            Width::W64 => 0xffff_ffff_ffff_ffff,
        }
    }

    /// The largest signed number of this width.
    pub fn max_signed(self) -> (n: u64)
        ensures
            n == self.signed_max(),
    {
        match self {
            Width::W8 => 0x7f,
            Width::W16 => 0x7fff,
            Width::W32 => 0x7fff_ffff,
            Width::W64 => 0x7fff_ffff_ffff_ffff,
        }
    }
}

/// What an argument was expected to be where none could be read.
#[derive(Clone, Copy, Debug, PartialEq, Eq, Structural)]
pub enum ParseErrorKind {
    /// A number of the parameter's width and sign.
    ExpectedNumber,
    /// A quoted string or a word.
    ExpectedText,
}

/// Why an argument could not be read, and where.
#[derive(Clone, Debug, PartialEq, Eq)]
pub struct ParseError {
    /// What was expected.
    pub kind: ParseErrorKind,
    /// The input at the point of failure: what was left once leading blanks
    /// were skipped.
    pub at: String,
}

/// The mathematical content of a [`ParseError`].
pub struct ParseFailure {
    pub kind: ParseErrorKind,
    pub at: Seq<char>,
}

impl View for ParseError {
    type V = ParseFailure;

    open spec fn view(&self) -> ParseFailure {
        ParseFailure { kind: self.kind, at: self.at@ }
    }
}

impl ParseFailure {
    /// The failure as a sentence: what was expected, and the input at the
    /// point of failure.
    pub open spec fn sentence(self) -> Seq<char> {
        (match self.kind {
            ParseErrorKind::ExpectedNumber => "expected a number at: "@,
            ParseErrorKind::ExpectedText => "expected text at: "@,
        }) + self.at
    }
}

impl ParseError {
    /// A sentence for the user who typed the command.
    pub fn message(&self) -> (text: String)
        ensures
            text@ == self@.sentence(),
    {
        let lead = match self.kind {
            ParseErrorKind::ExpectedNumber => "expected a number at: ",
            ParseErrorKind::ExpectedText => "expected text at: ",
        };
        String::from_str(lead).concat(self.at.as_str())
    }
}

/// What reading one argument gives: the input that is left and the value, or
/// the failure.
pub type Parsed<T> = Result<(Seq<char>, T), ParseFailure>;

/// The input at the point of failure of an argument: what is left once the
/// leading blanks are skipped.
pub open spec fn failed(input: Seq<char>, kind: ParseErrorKind) -> ParseFailure {
    ParseFailure { kind, at: after_run(input, CharClass::Blank) }
}

/// The token at the front of the input, and what the input goes on with
/// after it.
///
/// A token is padded with blanks on either side. It is either quoted, and is
/// then what stands between a double quote and the next double quote, white
/// space included; or it is a word, a run of characters that are not white
/// space. A quote that is never closed starts a word. Where neither can be
/// read there is no token.
pub open spec fn token(input: Seq<char>) -> Option<(Seq<char>, Seq<char>)> {
    let body = after_run(input, CharClass::Blank);
    let q = run_len(body.skip(1), CharClass::Unquoted) as int;
    let k = run_len(body, CharClass::Word) as int;
    if body.len() > 0 && body[0] == '"' && q + 1 < body.len() {
        Some((after_run(body.skip(q + 2), CharClass::Blank), body.subrange(1, q + 1)))
    } else if k > 0 {
        Some((after_run(body.skip(k), CharClass::Blank), body.take(k)))
    } else {
        None
    }
}

/// A token is a number where it is one or more digits and nothing else.
pub open spec fn is_number(word: Seq<char>) -> bool {
    word.len() > 0 && run_len(word, CharClass::Digit) == word.len()
}

/// The unsigned number that a token writes, where it is a number of at most
/// `max`.
pub open spec fn unsigned_value(word: Seq<char>, max: nat) -> Option<nat> {
    if is_number(word) && digits_value(word) <= max {
        Some(digits_value(word))
    } else {
        None
    }
}

/// The signed number that a token writes, where it is an optional `+` or `-`
/// and a number, between `-(max + 1)` and `max`.
pub open spec fn signed_value(word: Seq<char>, max: nat) -> Option<int> {
    let negative = word.len() > 0 && word[0] == '-';
    let signed = word.len() > 0 && (word[0] == '-' || word[0] == '+');
    let digits = if signed {
        word.skip(1)
    } else {
        word
    };
    let magnitude = digits_value(digits);
    if is_number(digits) && magnitude <= (if negative {
        max + 1
    } else {
        max
    }) {
        Some(if negative {
            -(magnitude as int)
        } else {
            magnitude as int
        })
    } else {
        None
    }
}

/// A piece of text: the token at the front of the input.
pub open spec fn text_argument(input: Seq<char>) -> Parsed<Seq<char>> {
    match token(input) {
        Some((rest, content)) => Ok((rest, content)),
        None => Err(failed(input, ParseErrorKind::ExpectedText)),
    }
}

/// An unsigned number: the token at the front of the input, where it writes
/// a number of at most `max`. Digits with anything else in their token are
/// no number.
pub open spec fn unsigned_argument(input: Seq<char>, max: nat) -> Parsed<nat> {
    match token(input) {
        Some((rest, word)) => match unsigned_value(word, max) {
            Some(value) => Ok((rest, value)),
            None => Err(failed(input, ParseErrorKind::ExpectedNumber)),
        },
        None => Err(failed(input, ParseErrorKind::ExpectedNumber)),
    }
}

/// A signed number: the token at the front of the input, where it writes a
/// number between `-(max + 1)` and `max`.
pub open spec fn signed_argument(input: Seq<char>, max: nat) -> Parsed<int> {
    match token(input) {
        Some((rest, word)) => match signed_value(word, max) {
            Some(value) => Ok((rest, value)),
            None => Err(failed(input, ParseErrorKind::ExpectedNumber)),
        },
        None => Err(failed(input, ParseErrorKind::ExpectedNumber)),
    }
}

/// The failure of an argument of `input`.
fn failure(input: &str, chars: &Vec<char>, kind: ParseErrorKind) -> (e: ParseError)
    requires
        chars@ == input@,
    ensures
        e@ == failed(input@, kind),
{
    let n = chars.len();
    let a = scan(chars, 0, CharClass::Blank);
    assert(chars@.skip(0) == chars@);
    ParseError { kind, at: String::from_str(input.substring_char(a, n)) }
}

/// Where the token at the front of `chars` lies: it stands from `.0` up to
/// `.1`, and the input goes on at `.2`.
fn find_token(chars: &Vec<char>) -> (r: Option<(usize, usize, usize)>)
    ensures
        match token(chars@) {
            Some((rest, content)) => r matches Some((from, to, next)) && from <= to <= next
                <= chars@.len() && content == chars@.subrange(from as int, to as int) && rest
                == chars@.skip(next as int),
            None => r is None,
        },
{
    let n = chars.len();
    let a = scan(chars, 0, CharClass::Blank);
    let ghost body = chars@.skip(a as int);
    proof {
        assert(chars@.skip(0) == chars@);
    }
    if a < n && chars[a] == '"' {
        let q = scan(chars, a + 1, CharClass::Unquoted);
        proof {
            assert(body.skip(1) == chars@.skip(a + 1));
        }
        if q < n {
            let c = scan(chars, q + 1, CharClass::Blank);
            proof {
                assert(body.skip(q - a + 1) == chars@.skip(q + 1));
                assert(body.subrange(1, q - a) == chars@.subrange(a + 1, q as int));
            }
            return Some((a + 1, q, c));
        }
    }
    let k = scan(chars, a, CharClass::Word);
    if k == a {
        return None;
    }
    let c = scan(chars, k, CharClass::Blank);
    proof {
        assert(body.skip(k - a) == chars@.skip(k as int));
        assert(body.take(k - a) == chars@.subrange(a as int, k as int));
    }
    Some((a, k, c))
}

/// Reads the characters of `chars` from `from` up to `to` as a number, unless
/// they are no number or the number is larger than `limit`.
fn read_number(chars: &Vec<char>, from: usize, to: usize, limit: u64) -> (r: Option<u64>)
    requires
        from <= to <= chars@.len(),
    ensures
        r == match unsigned_value(chars@.subrange(from as int, to as int), limit as nat) {
            Some(value) => Some(value as u64),
            None => None,
        },
{
    let ghost word = chars@.subrange(from as int, to as int);
    let mut i: usize = from;
    while i < to
        invariant
            from <= i <= to <= chars@.len(),
            word == chars@.subrange(from as int, to as int),
            forall|j: int| from <= j < i ==> is_digit(#[trigger] chars@[j]),
        decreases to - i,
    {
        if !CharClass::Digit.test(chars[i]) {
            proof {
                assert forall|j: int| 0 <= j < i - from implies CharClass::Digit.holds(
                    #[trigger] word[j],
                ) by {
                    assert(word[j] == chars@[from + j]);
                }
                assert(word[i - from] == chars@[i as int]);
                lemma_run_len(word, CharClass::Digit, i - from);
            }
            return None;
        }
        i += 1;
    }
    proof {
        assert forall|j: int| 0 <= j < to - from implies CharClass::Digit.holds(
            #[trigger] word[j],
        ) by {
            assert(word[j] == chars@[from + j]);
        }
        lemma_run_len(word, CharClass::Digit, to - from);
    }
    if from == to {
        return None;
    }
    read_digits(chars, from, to, limit)
}

/// Reads an unsigned number of the given width.
pub fn parse_unsigned<'a>(input: &'a str, width: Width) -> (r: Result<(&'a str, u64), ParseError>)
    ensures
        match unsigned_argument(input@, width.unsigned_max()) {
            Ok((rest, value)) => r matches Ok((t, v)) && t@ == rest && v == value,
            Err(failure) => r matches Err(e) && e@ == failure,
        },
{
    let chars = chars_of(input);
    let n = chars.len();
    match find_token(&chars) {
        Some((from, to, next)) => match read_number(&chars, from, to, width.max_unsigned()) {
            Some(value) => Ok((input.substring_char(next, n), value)),
            None => Err(failure(input, &chars, ParseErrorKind::ExpectedNumber)),
        },
        None => Err(failure(input, &chars, ParseErrorKind::ExpectedNumber)),
    }
}

/// Reads a signed number of the given width.
pub fn parse_signed<'a>(input: &'a str, width: Width) -> (r: Result<(&'a str, i64), ParseError>)
    ensures
        match signed_argument(input@, width.signed_max()) {
            Ok((rest, value)) => r matches Ok((t, v)) && t@ == rest && v == value,
            Err(failure) => r matches Err(e) && e@ == failure,
        },
{
    let chars = chars_of(input);
    let n = chars.len();
    let (from, to, next) = match find_token(&chars) {
        Some(found) => found,
        None => {
            return Err(failure(input, &chars, ParseErrorKind::ExpectedNumber));
        },
    };
    let negative = from < to && chars[from] == '-';
    let signed = from < to && (chars[from] == '-' || chars[from] == '+');
    let digits: usize = if signed {
        from + 1
    } else {
        from
    };
    let limit: u64 = if negative {
        width.max_signed() + 1
    } else {
        width.max_signed()
    };
    proof {
        let word = chars@.subrange(from as int, to as int);
        if from < to {
            assert(word[0] == chars@[from as int]);
        }
        if signed {
            assert(word.skip(1) == chars@.subrange(digits as int, to as int));
        }
    }
    match read_number(&chars, digits, to, limit) {
        Some(magnitude) => {
            let value: i128 = if negative {
                -(magnitude as i128)
            } else {
                magnitude as i128
            };
            Ok((input.substring_char(next, n), value as i64))
        },
        None => Err(failure(input, &chars, ParseErrorKind::ExpectedNumber)),
    }
}

/// Reads a quoted string or a word.
pub fn parse_text<'a>(input: &'a str) -> (r: Result<(&'a str, String), ParseError>)
    ensures
        match text_argument(input@) {
            Ok((rest, value)) => r matches Ok((t, v)) && t@ == rest && v@ == value,
            Err(failure) => r matches Err(e) && e@ == failure,
        },
{
    let chars = chars_of(input);
    let n = chars.len();
    match find_token(&chars) {
        Some((from, to, next)) => Ok(
            (input.substring_char(next, n), String::from_str(input.substring_char(from, to))),
        ),
        None => Err(failure(input, &chars, ParseErrorKind::ExpectedText)),
    }
}

/// What a token leaves of the input is shorter than the input: a token takes
/// at least one character. So does a number and a piece of text.
pub proof fn lemma_arguments_shrink(input: Seq<char>, max: nat)
    ensures
        token(input) matches Some((rest, _)) ==> rest.len() < input.len(),
        unsigned_argument(input, max) matches Ok((rest, _)) ==> rest.len() < input.len(),
        signed_argument(input, max) matches Ok((rest, _)) ==> rest.len() < input.len(),
        text_argument(input) matches Ok((rest, _)) ==> rest.len() < input.len(),
{
    lemma_run_len_bounds(input, CharClass::Blank);
    let body = after_run(input, CharClass::Blank);
    lemma_run_len_bounds(body, CharClass::Word);
    lemma_run_len_bounds(body.skip(1), CharClass::Unquoted);
    let w = run_len(body, CharClass::Word) as int;
    lemma_run_len_bounds(body.skip(w), CharClass::Blank);
    let q = run_len(body.skip(1), CharClass::Unquoted) as int;
    if q + 2 <= body.len() {
        lemma_run_len_bounds(body.skip(q + 2), CharClass::Blank);
    }
}

/// What a token leaves is left of the input: nothing is put in, and nothing
/// is taken but from the front. So it is with a number and a piece of text.
pub proof fn lemma_arguments_leave_a_rest(input: Seq<char>, max: nat)
    ensures
        token(input) matches Some((rest, _)) ==> is_rest_of(rest, input),
        unsigned_argument(input, max) matches Ok((rest, _)) ==> is_rest_of(rest, input),
        signed_argument(input, max) matches Ok((rest, _)) ==> is_rest_of(rest, input),
        text_argument(input) matches Ok((rest, _)) ==> is_rest_of(rest, input),
{
    let body = after_run(input, CharClass::Blank);
    lemma_after_run_is_rest(input, CharClass::Blank);
    lemma_run_len_bounds(body, CharClass::Word);
    lemma_run_len_bounds(body.skip(1), CharClass::Unquoted);
    match token(input) {
        Some((rest, _)) => {
            let q = run_len(body.skip(1), CharClass::Unquoted) as int;
            let k = run_len(body, CharClass::Word) as int;
            let cut = if body.len() > 0 && body[0] == '"' && q + 1 < body.len() {
                q + 2
            } else {
                k
            };
            assert(is_rest_of(body.skip(cut), body));
            lemma_after_run_is_rest(body.skip(cut), CharClass::Blank);
            lemma_rest_of_rest(rest, body.skip(cut), body);
            lemma_rest_of_rest(rest, body, input);
        },
        None => {},
    }
}

} // verus!
