use phrase::chars::{AnyChar, AsciiAlphaNumeric, AsciiDigit, AsciiWhitespace, Char, CharClass};
use phrase::parsers::decode::Decoded;
use phrase::{EmptyParser, Parser, ParserInput, SliceInput};

#[test]
fn any_char() {
    let mut parser = AnyChar;
    let data = [b'a', b'b'];
    let mut iter = SliceInput::new(&data);

    let mut res = 'c';
    assert!(parser.parse_impl(&mut iter, &mut EmptyParser, |ch| res = ch));
    assert_eq!(res, 'a');
    res = 'd';
    assert!(parser.parse_impl(&mut iter, &mut EmptyParser, |ch| res = ch));
    assert_eq!(res, 'b');
}

#[test]
fn any_char_skipping() {
    let mut parser = AnyChar;
    let mut skipper = Char('b');

    let data = [b'b', b'b', b'a', b'b'];
    let mut iter = SliceInput::new(&data);

    let mut res = 'c';
    assert!(parser.parse_impl(&mut iter, &mut skipper, |ch| res = ch));
    assert_eq!(res, 'a');
    res = 'd';
    assert!(!parser.parse_impl(&mut iter, &mut skipper, |ch| res = ch));
    assert_eq!(res, 'd');
}

#[test]
fn char_() {
    let mut parser = Char('a');
    let data = [b'a', b'b'];
    let mut iter = SliceInput::new(&data);

    let mut res = 'c';
    assert!(parser.parse_impl(&mut iter, &mut EmptyParser, |ch| res = ch));
    assert_eq!(res, 'a');
    res = 'd';
    assert!(!parser.parse_impl(&mut iter, &mut EmptyParser, |ch| res = ch));
    assert_eq!(res, 'd');
}

#[test]
fn char_skipping() {
    let mut parser = Char('a');
    let mut skipper = Char('b');

    let data = [b'b', b'b', b'a', b'b'];
    let mut iter = SliceInput::new(&data);

    let mut res = 'c';
    assert!(parser.parse_impl(&mut iter, &mut skipper, |ch| res = ch));
    assert_eq!(res, 'a');
    res = 'd';
    assert!(!parser.parse_impl(&mut iter, &mut skipper, |ch| res = ch));
    assert_eq!(res, 'd');
}

#[test]
fn ascii_digit() {
    let data = [b' ', b'\n', b'1', b'b'];
    let mut iter = SliceInput::new(&data);

    let mut res = 'c';
    assert!(AsciiDigit.parse_impl(&mut iter, &mut AsciiWhitespace, |ch| res = ch));
    assert_eq!(res, '1');
    res = 'd';
    assert!(!AsciiDigit.parse_impl(&mut iter, &mut EmptyParser, |ch| res = ch));
    assert_eq!(res, 'd');
    assert_eq!(iter.next(), Some(b'b'));
}

#[test]
fn any_char_at_end_of_input_fails() {
    let data: [u8; 0] = [];
    let mut iter = SliceInput::new(&data);
    assert_eq!(AnyChar.attempt(&mut iter, &mut EmptyParser), None);
    assert_eq!(iter.remaining_len(), 0);
}

#[test]
fn any_char_decodes_two_byte_scalar() {
    let data = "\u{e9}x".as_bytes();
    assert_eq!(data.len(), 3);
    let mut iter = SliceInput::new(data);
    assert_eq!(AnyChar.attempt(&mut iter, &mut EmptyParser), Some('\u{e9}'));
    assert_eq!(iter.remaining_len(), 1);
    assert_eq!(iter.next(), Some(b'x'));
}

#[test]
fn any_char_decodes_three_and_four_byte_scalars() {
    let data = "\u{20ac}\u{1f30d}".as_bytes();
    assert_eq!(data.len(), 7);
    let mut iter = SliceInput::new(data);
    assert_eq!(AnyChar.attempt(&mut iter, &mut EmptyParser), Some('\u{20ac}'));
    assert_eq!(iter.remaining_len(), 4);
    assert_eq!(AnyChar.attempt(&mut iter, &mut EmptyParser), Some('\u{1f30d}'));
    assert_eq!(iter.remaining_len(), 0);
}

#[test]
fn any_char_rejects_stray_continuation_byte() {
    let data = [0x80u8, b'a'];
    let mut iter = SliceInput::new(&data);
    assert_eq!(AnyChar.attempt(&mut iter, &mut EmptyParser), None);
    assert_eq!(iter.remaining_len(), 2);
    assert_eq!(iter.next(), Some(0x80));
}

#[test]
fn any_char_rejects_invalid_leading_byte() {
    let data = [0xffu8, b'a'];
    let mut iter = SliceInput::new(&data);
    assert_eq!(AnyChar.attempt(&mut iter, &mut EmptyParser), None);
    assert_eq!(iter.remaining_len(), 2);
}

#[test]
fn any_char_rejects_truncated_scalar() {
    let data = [0xc3u8];
    let mut iter = SliceInput::new(&data);
    assert_eq!(AnyChar.attempt(&mut iter, &mut EmptyParser), None);
    assert_eq!(iter.remaining_len(), 1);
    assert_eq!(iter.next(), Some(0xc3));
}

#[test]
fn any_char_rejects_broken_continuation_and_restores() {
    let data = [0xe2u8, 0x82, b'a', b'b'];
    let mut iter = SliceInput::new(&data);
    assert_eq!(AnyChar.attempt(&mut iter, &mut EmptyParser), None);
    assert_eq!(iter.remaining_len(), 4);
    assert_eq!(iter.next(), Some(0xe2));
}

#[test]
fn any_char_rejects_surrogate() {
    let data = [0xedu8, 0xa0, 0x80];
    let mut iter = SliceInput::new(&data);
    assert_eq!(AnyChar.attempt(&mut iter, &mut EmptyParser), None);
    assert_eq!(iter.remaining_len(), 3);
}

#[test]
fn any_char_failure_restores_skipped_input() {
    let data = [b' ', b' ', 0xff];
    let mut iter = SliceInput::new(&data);
    assert_eq!(AnyChar.attempt(&mut iter, &mut AsciiWhitespace), None);
    assert_eq!(iter.remaining_len(), 3);
    assert_eq!(iter.next(), Some(b' '));
}

#[test]
fn literal_matches_only_its_target() {
    let data = [b'a'];
    let mut iter = SliceInput::new(&data);
    assert_eq!(Char('b').attempt(&mut iter, &mut EmptyParser), None);
    assert_eq!(iter.remaining_len(), 1);
    assert_eq!(Char('a').attempt(&mut iter, &mut EmptyParser), Some('a'));
    assert_eq!(iter.remaining_len(), 0);
}

#[test]
fn literal_consumes_skipped_prefix_and_scalar_bytes() {
    let data = " \t\u{e9}z".as_bytes();
    assert_eq!(data.len(), 5);
    let mut iter = SliceInput::new(data);
    assert_eq!(Char('\u{e9}').attempt(&mut iter, &mut AsciiWhitespace), Some('\u{e9}'));
    assert_eq!(iter.remaining_len(), 1);
    assert_eq!(iter.next(), Some(b'z'));
}

#[test]
fn literal_failure_restores_skipped_input() {
    let data = [b' ', b' ', b'b'];
    let mut iter = SliceInput::new(&data);
    assert_eq!(Char('a').attempt(&mut iter, &mut AsciiWhitespace), None);
    assert_eq!(iter.remaining_len(), 3);
    assert_eq!(iter.next(), Some(b' '));
}

#[test]
fn literal_fails_on_malformed_and_on_end() {
    let bad = [0xffu8];
    let mut iter = SliceInput::new(&bad);
    assert_eq!(Char('a').attempt(&mut iter, &mut EmptyParser), None);
    assert_eq!(iter.remaining_len(), 1);
    let empty: [u8; 0] = [];
    let mut iter = SliceInput::new(&empty);
    assert_eq!(Char('a').attempt(&mut iter, &mut EmptyParser), None);
}

#[test]
fn accept_of_literal_takes_only_the_target() {
    assert_eq!(Char('a').accept(Decoded::Scalar('a')), Some('a'));
    assert_eq!(Char('a').accept(Decoded::Scalar('b')), None);
    assert_eq!(Char('a').accept(Decoded::Malformed), None);
    assert_eq!(Char('a').accept(Decoded::End), None);
}

#[test]
fn decoded_into_scalar() {
    assert_eq!(Decoded::Scalar('x').into_scalar(), Some('x'));
    assert_eq!(Decoded::Malformed.into_scalar(), None);
    assert_eq!(Decoded::End.into_scalar(), None);
}

#[test]
fn whitespace_class_members() {
    for c in [' ', '\t', '\n', '\x0c', '\r'] {
        assert!(CharClass::Whitespace.test(c));
        assert_eq!(CharClass::Whitespace.accept(c), Some(c));
    }
    for c in ['\x0b', 'a', '0', '\u{a0}', '\u{2003}', '\0'] {
        assert!(!CharClass::Whitespace.test(c));
        assert_eq!(CharClass::Whitespace.accept(c), None);
    }
}

#[test]
fn alphanumeric_class_members() {
    for c in ['A', 'Z', 'a', 'z', '0', '9', 'm', 'Q', '5'] {
        assert!(CharClass::AlphaNumeric.test(c));
    }
    for c in ['@', '[', '`', '{', '/', ':', ' ', '\u{e9}', '\u{660}'] {
        assert!(!CharClass::AlphaNumeric.test(c));
    }
}

#[test]
fn digit_class_members() {
    for c in ['0', '1', '5', '9'] {
        assert!(CharClass::Digit.test(c));
    }
    for c in ['/', ':', 'a', ' ', '\u{660}', '\u{ff11}'] {
        assert!(!CharClass::Digit.test(c));
    }
}

#[test]
fn class_parser_is_the_template_of_the_named_parsers() {
    let data = [b'7', b'x', b' '];
    let mut a = SliceInput::new(&data);
    let mut b = SliceInput::new(&data);
    assert_eq!(CharClass::Digit.attempt(&mut a, &mut EmptyParser), Some('7'));
    assert_eq!(AsciiDigit.attempt(&mut b, &mut EmptyParser), Some('7'));
    assert_eq!(a.remaining_len(), b.remaining_len());
    assert_eq!(CharClass::AlphaNumeric.attempt(&mut a, &mut EmptyParser), Some('x'));
    assert_eq!(AsciiAlphaNumeric.attempt(&mut b, &mut EmptyParser), Some('x'));
    assert_eq!(CharClass::Whitespace.attempt(&mut a, &mut EmptyParser), Some(' '));
    assert_eq!(AsciiWhitespace.attempt(&mut b, &mut EmptyParser), Some(' '));
    assert_eq!(a.remaining_len(), 0);
    assert_eq!(b.remaining_len(), 0);
}

#[test]
fn classified_parser_skips_with_the_given_skipper() {
    let data = [b'x', b'x', b'4', b'x'];
    let mut iter = SliceInput::new(&data);
    assert_eq!(AsciiDigit.attempt(&mut iter, &mut Char('x')), Some('4'));
    assert_eq!(iter.remaining_len(), 1);
}

#[test]
fn classified_parser_failure_restores_skipped_input() {
    let data = [b' ', b' ', b'x'];
    let mut iter = SliceInput::new(&data);
    assert_eq!(AsciiDigit.attempt(&mut iter, &mut AsciiWhitespace), None);
    assert_eq!(iter.remaining_len(), 3);
    assert_eq!(iter.next(), Some(b' '));
}

#[test]
fn classified_parser_rejects_non_ascii_scalar() {
    let data = "\u{660}".as_bytes();
    let mut iter = SliceInput::new(data);
    assert_eq!(AsciiDigit.attempt(&mut iter, &mut EmptyParser), None);
    assert_eq!(iter.remaining_len(), 2);
    assert_eq!(AsciiAlphaNumeric.attempt(&mut iter, &mut EmptyParser), None);
    assert_eq!(AsciiWhitespace.attempt(&mut iter, &mut EmptyParser), None);
    assert_eq!(iter.remaining_len(), 2);
}

#[test]
fn alphanumeric_parser_matches_letters_and_digits() {
    let data = [b'a', b'Z', b'0', b'_'];
    let mut iter = SliceInput::new(&data);
    assert_eq!(AsciiAlphaNumeric.attempt(&mut iter, &mut EmptyParser), Some('a'));
    assert_eq!(AsciiAlphaNumeric.attempt(&mut iter, &mut EmptyParser), Some('Z'));
    assert_eq!(AsciiAlphaNumeric.attempt(&mut iter, &mut EmptyParser), Some('0'));
    assert_eq!(AsciiAlphaNumeric.attempt(&mut iter, &mut EmptyParser), None);
    assert_eq!(iter.next(), Some(b'_'));
}
