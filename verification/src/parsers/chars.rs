//! The character primitives: the leaves of every parser tree.
//!
//! Each primitive first skips with the skipper it is given, then decodes one
//! scalar at the position reached, and matches or not by what was decoded.
//! When it does not match it puts the cursor back where it was on entry.
use vstd::prelude::*;
use crate::parsers::decode::{next_scalar, utf8_decoding, Decoded};
use crate::traits::{
    lemma_empty_parser_skips_nothing, lemma_skip_add, no_skip, skip_fn, EmptyParser, Parser,
    ParserInput, SkipFn, Skipper,
};

verus! {

/// The scalar decoded behind the skipped prefix of `input`, with the number
/// of bytes consumed in all: the skipped prefix and the scalar's encoding.
pub open spec fn skipped_scalar(skip: SkipFn, input: Seq<u8>) -> Option<(char, nat)> {
    let k = skip(input);
    match utf8_decoding(input.skip(k as int)) {
        (Decoded::Scalar(c), n) => Some((c, k + n)),
        _ => None,
    }
}

/// Where nothing is skipped, the scalar is the one decoded at the front.
pub proof fn lemma_unskipped_scalar(input: Seq<u8>)
    ensures
        skipped_scalar(no_skip(), input) == match utf8_decoding(input) {
            (Decoded::Scalar(c), n) => Some((c, n)),
            _ => None,
        },
{
    assert(no_skip()(input) == 0);
    assert(input.skip(0) =~= input);
}

/// Matches any one scalar.
pub struct AnyChar;

impl Parser for AnyChar {
    type Output = char;

    open spec fn parse_spec(&self, skip: SkipFn, input: Seq<u8>) -> Option<(char, nat)> {
        skipped_scalar(skip, input)
    }

    fn attempt<I, S>(&mut self, iter: &mut I, skipper: &mut S) -> (out: Option<char>) where
        I: ParserInput,
        S: Skipper,

        ensures
            old(iter).remaining().len() == 0 ==> out is None,
            out is Some ==> final(iter).remaining().len() < old(iter).remaining().len(),
    {
        let entry = iter.clone();
        proof {
            I::lemma_clone_is_snapshot(&*iter, &entry);
        }
        skipper.skip(iter);
        let ghost input = entry.remaining();
        let ghost skip = skip_fn(*skipper);
        let ghost k = skipper.skip_len(input);
        let ghost n = utf8_decoding(input.skip(k as int)).1;
        proof {
            assert(skip(input) == k);
            assert(self.parse_spec(skip, input) == skipped_scalar(skip, input));
        }
        match next_scalar(iter).into_scalar() {
            Some(c) => {
                proof {
                    lemma_skip_add(input, k, n);
                    assert(c.deep_view() == c);
                }
                Some(c)
            },
            None => {
                *iter = entry;
                None
            },
        }
    }
}

/// Matches one scalar equal to the target it holds.
pub struct Char(pub char);

impl Char {
    /// The decoded scalar if it is the target.
    pub open spec fn accepted(&self, decoded: Decoded) -> Option<char> {
        match decoded {
            Decoded::Scalar(c) if c == self.0 => Some(c),
            _ => None,
        }
    }

    /// The decoded scalar if it is the target.
    pub fn accept(&self, decoded: Decoded) -> (c: Option<char>)
        ensures
            c == self.accepted(decoded),
    {
        match decoded {
            Decoded::Scalar(c) => if c == self.0 {
                Some(c)
            } else {
                None
            },
            _ => None,
        }
    }
}

impl Parser for Char {
    type Output = char;

    open spec fn parse_spec(&self, skip: SkipFn, input: Seq<u8>) -> Option<(char, nat)> {
        match skipped_scalar(skip, input) {
            Some((c, n)) if c == self.0 => Some((c, n)),
            _ => None,
        }
    }

    fn attempt<I, S>(&mut self, iter: &mut I, skipper: &mut S) -> (out: Option<char>) where
        I: ParserInput,
        S: Skipper,

        ensures
            old(iter).remaining().len() == 0 ==> out is None,
            out is Some ==> out == Some(old(self).0),
            out is Some ==> final(iter).remaining().len() < old(iter).remaining().len(),
    {
        let entry = iter.clone();
        proof {
            I::lemma_clone_is_snapshot(&*iter, &entry);
        }
        skipper.skip(iter);
        let ghost input = entry.remaining();
        let ghost skip = skip_fn(*skipper);
        let ghost k = skipper.skip_len(input);
        let ghost n = utf8_decoding(input.skip(k as int)).1;
        proof {
            assert(skip(input) == k);
            assert(self.parse_spec(skip, input) == match skipped_scalar(skip, input) {
                Some((c, n)) if c == self.0 => Some((c, n)),
                _ => None,
            });
        }
        match self.accept(next_scalar(iter)) {
            Some(c) => {
                proof {
                    lemma_skip_add(input, k, n);
                    assert(c.deep_view() == c);
                }
                Some(c)
            },
            None => {
                *iter = entry;
                None
            },
        }
    }
}

/// Whether `c` is an ASCII whitespace character: space, horizontal tab, line
/// feed, form feed or carriage return.
pub open spec fn ascii_whitespace(c: char) -> bool {
    c == ' ' || c == '\t' || c == '\n' || c == '\x0C' || c == '\r'
}

/// Whether `c` is an ASCII letter or an ASCII decimal digit.
pub open spec fn ascii_alphanumeric(c: char) -> bool {
    ('A' <= c && c <= 'Z') || ('a' <= c && c <= 'z') || ('0' <= c && c <= '9')
}

/// Whether `c` is an ASCII decimal digit.
pub open spec fn ascii_digit(c: char) -> bool {
    '0' <= c && c <= '9'
}

/// Trusted: `char::is_ascii_whitespace` holds of U+0020, U+0009, U+000A,
/// U+000C and U+000D and of nothing else, as its documentation lists them.
pub assume_specification[ char::is_ascii_whitespace ](c: &char) -> (b: bool)
    ensures
        b == ascii_whitespace(*c),
;

/// Trusted: `char::is_ascii_alphanumeric` holds of 'A' to 'Z', 'a' to 'z' and
/// '0' to '9' and of nothing else, as its documentation lists them.
pub assume_specification[ char::is_ascii_alphanumeric ](c: &char) -> (b: bool)
    ensures
        b == ascii_alphanumeric(*c),
;

/// Trusted: `char::is_ascii_digit` holds of '0' to '9' and of nothing else,
/// as its documentation lists them.
pub assume_specification[ char::is_ascii_digit ](c: &char) -> (b: bool)
    ensures
        b == ascii_digit(*c),
;

/// A class of scalars, and the parser that matches one scalar of the class.
///
/// The named parsers [`AsciiWhitespace`], [`AsciiAlphaNumeric`] and
/// [`AsciiDigit`] are this parser with the class fixed.
#[derive(Clone, Copy, Debug)]
pub enum CharClass {
    /// The ASCII whitespace characters.
    Whitespace,
    /// The ASCII letters and decimal digits.
    AlphaNumeric,
    /// The ASCII decimal digits.
    Digit,
}

impl CharClass {
    /// Whether `c` belongs to the class.
    pub open spec fn contains(self, c: char) -> bool {
        match self {
            CharClass::Whitespace => ascii_whitespace(c),
            CharClass::AlphaNumeric => ascii_alphanumeric(c),
            CharClass::Digit => ascii_digit(c),
        }
    }

    /// Whether `c` belongs to the class.
    pub fn test(self, c: char) -> (b: bool)
        ensures
            b == self.contains(c),
    {
        match self {
            CharClass::Whitespace => c.is_ascii_whitespace(),
            CharClass::AlphaNumeric => c.is_ascii_alphanumeric(),
            CharClass::Digit => c.is_ascii_digit(),
        }
    }

    /// The scalar `c` if it belongs to the class.
    pub fn accept(self, c: char) -> (out: Option<char>)
        ensures
            out == if self.contains(c) {
                Some(c)
            } else {
                None
            },
    {
        if self.test(c) {
            Some(c)
        } else {
            None
        }
    }
}

impl Parser for CharClass {
    type Output = char;

    open spec fn parse_spec(&self, skip: SkipFn, input: Seq<u8>) -> Option<(char, nat)> {
        match skipped_scalar(skip, input) {
            Some((c, n)) if self.contains(c) => Some((c, n)),
            _ => None,
        }
    }

    /// Skips with `skipper`; then decodes one scalar with [`AnyChar`], which
    /// is told to skip nothing, so that input is skipped once and not twice.
    fn attempt<I, S>(&mut self, iter: &mut I, skipper: &mut S) -> (out: Option<char>) where
        I: ParserInput,
        S: Skipper,

        ensures
            old(iter).remaining().len() == 0 ==> out is None,
            out matches Some(c) ==> old(self).contains(c),
            out is Some ==> final(iter).remaining().len() < old(iter).remaining().len(),
    {
        let entry = iter.clone();
        proof {
            I::lemma_clone_is_snapshot(&*iter, &entry);
        }
        skipper.skip(iter);
        let ghost input = entry.remaining();
        let ghost skip = skip_fn(*skipper);
        let ghost k = skipper.skip_len(input);
        let ghost n = utf8_decoding(input.skip(k as int)).1;
        let mut any = AnyChar;
        let mut none = EmptyParser;
        proof {
            assert(skip(input) == k);
            assert(self.parse_spec(skip, input) == match skipped_scalar(skip, input) {
                Some((c, n)) if self.contains(c) => Some((c, n)),
                _ => None,
            });
            lemma_empty_parser_skips_nothing();
            lemma_unskipped_scalar(iter.remaining());
            assert(any.parse_spec(no_skip(), iter.remaining()) == skipped_scalar(
                no_skip(),
                iter.remaining(),
            ));
        }
        let accepted = match any.attempt(iter, &mut none) {
            Some(c) => self.accept(c),
            None => None,
        };
        match accepted {
            Some(c) => {
                proof {
                    lemma_skip_add(input, k, n);
                    assert(c.deep_view() == c);
                }
                Some(c)
            },
            None => {
                *iter = entry;
                None
            },
        }
    }
}

/// Matches one ASCII whitespace character.
pub struct AsciiWhitespace;

impl Parser for AsciiWhitespace {
    type Output = char;

    open spec fn parse_spec(&self, skip: SkipFn, input: Seq<u8>) -> Option<(char, nat)> {
        CharClass::Whitespace.parse_spec(skip, input)
    }

    fn attempt<I, S>(&mut self, iter: &mut I, skipper: &mut S) -> (out: Option<char>) where
        I: ParserInput,
        S: Skipper,

        ensures
            old(iter).remaining().len() == 0 ==> out is None,
            out matches Some(c) ==> ascii_whitespace(c),
            out is Some ==> final(iter).remaining().len() < old(iter).remaining().len(),
    {
        let mut class = CharClass::Whitespace;
        proof {
            assert(self.parse_spec(skip_fn(*skipper), iter.remaining()) == class.parse_spec(
                skip_fn(*skipper),
                iter.remaining(),
            ));
        }
        class.attempt(iter, skipper)
    }
}

/// Matches one ASCII letter or decimal digit.
pub struct AsciiAlphaNumeric;

impl Parser for AsciiAlphaNumeric {
    type Output = char;

    open spec fn parse_spec(&self, skip: SkipFn, input: Seq<u8>) -> Option<(char, nat)> {
        CharClass::AlphaNumeric.parse_spec(skip, input)
    }

    fn attempt<I, S>(&mut self, iter: &mut I, skipper: &mut S) -> (out: Option<char>) where
        I: ParserInput,
        S: Skipper,

        ensures
            old(iter).remaining().len() == 0 ==> out is None,
            out matches Some(c) ==> ascii_alphanumeric(c),
            out is Some ==> final(iter).remaining().len() < old(iter).remaining().len(),
    {
        let mut class = CharClass::AlphaNumeric;
        proof {
            assert(self.parse_spec(skip_fn(*skipper), iter.remaining()) == class.parse_spec(
                skip_fn(*skipper),
                iter.remaining(),
            ));
        }
        class.attempt(iter, skipper)
    }
}

/// Matches one ASCII decimal digit.
pub struct AsciiDigit;

impl Parser for AsciiDigit {
    type Output = char;

    open spec fn parse_spec(&self, skip: SkipFn, input: Seq<u8>) -> Option<(char, nat)> {
        CharClass::Digit.parse_spec(skip, input)
    }

    fn attempt<I, S>(&mut self, iter: &mut I, skipper: &mut S) -> (out: Option<char>) where
        I: ParserInput,
        S: Skipper,

        ensures
            old(iter).remaining().len() == 0 ==> out is None,
            out matches Some(c) ==> ascii_digit(c),
            out is Some ==> final(iter).remaining().len() < old(iter).remaining().len(),
    {
        let mut class = CharClass::Digit;
        proof {
            assert(self.parse_spec(skip_fn(*skipper), iter.remaining()) == class.parse_spec(
                skip_fn(*skipper),
                iter.remaining(),
            ));
        }
        class.attempt(iter, skipper)
    }
}

} // verus!
