//! What holds of every parser, every skipper and every input.
use vstd::prelude::*;
use crate::adaptors::separated_by::SeparatedBy;
use crate::adaptors::sequence::Sequence;
use crate::parsers::chars::{AnyChar, Char, CharClass};
use crate::parsers::decode::{utf8_decoding, Decoded};
use crate::traits::parser_ext::attempt_outcome;
use crate::traits::{lemma_skip_add, no_skip, Parser, ParserInput, SkipFn, Skipper};

verus! {

/// A parser used as a skipper never skips more than there is.
pub proof fn lemma_skip_len_bounded<P: Parser>(parser: P, input: Seq<u8>)
    ensures
        parser.skip_len(input) <= input.len(),
    decreases input.len(),
{
    match parser.parse_spec(no_skip(), input) {
        Some((_, n)) => {
            if 0 < n <= input.len() {
                lemma_skip_len_bounded(parser, input.skip(n as int));
            }
        },
        None => {},
    }
}

/// Skipping runs to a fixpoint: behind what a parser skipped, it skips
/// nothing more.
pub proof fn lemma_skip_reaches_fixpoint<P: Parser>(parser: P, input: Seq<u8>)
    ensures
        parser.skip_len(input.skip(parser.skip_len(input) as int)) == 0,
    decreases input.len(),
{
    match parser.parse_spec(no_skip(), input) {
        Some((_, n)) => {
            if 0 < n <= input.len() {
                let rest = input.skip(n as int);
                lemma_skip_reaches_fixpoint(parser, rest);
                lemma_skip_len_bounded(parser, rest);
                lemma_skip_add(input, n, parser.skip_len(rest));
            } else {
                assert(input.skip(0) =~= input);
            }
        },
        None => {
            assert(input.skip(0) =~= input);
        },
    }
}

/// A match that consumes nothing ends the skipping: a parser that matches
/// without progress is not asked again.
pub proof fn lemma_zero_width_match_ends_skip<P: Parser>(parser: P, input: Seq<u8>)
    requires
        parser.parse_spec(no_skip(), input) matches Some((_, n)) && n == 0,
    ensures
        parser.skip_len(input) == 0,
{
}

/// A literal matches exactly when the scalar decoded behind the skipped
/// prefix is its target. It then yields the target and consumes the skipped
/// prefix and the bytes of that scalar, and nothing else.
pub proof fn lemma_literal_matches(target: char, skip: SkipFn, input: Seq<u8>)
    ensures
        Char(target).parse_spec(skip, input) is Some <==> utf8_decoding(
            input.skip(skip(input) as int),
        ).0 == Decoded::Scalar(target),
        Char(target).parse_spec(skip, input) is Some ==> Char(target).parse_spec(skip, input)
            == Some((target, skip(input) + utf8_decoding(input.skip(skip(input) as int)).1)),
{
}

/// A classified parser is the any-scalar parser with a test on the scalar:
/// with the same skipper the two consume the same bytes, and the classified
/// parser matches exactly when the scalar belongs to its class. Skipping
/// happens once, with the skipper given, before the scalar is decoded.
pub proof fn lemma_class_filters_any_char(class: CharClass, skip: SkipFn, input: Seq<u8>)
    ensures
        class.parse_spec(skip, input) == match AnyChar.parse_spec(skip, input) {
            Some((c, n)) if class.contains(c) => Some((c, n)),
            _ => None,
        },
{
}

/// A sequence matches exactly when its first parser matches behind the
/// skipped prefix and its second parser matches directly behind the first.
/// It then yields the pair of their values and consumes what was skipped and
/// what the two consumed.
pub proof fn lemma_sequence_matches<First: Parser, Second: Parser>(
    sequence: Sequence<First, Second>,
    skip: SkipFn,
    input: Seq<u8>,
)
    ensures
        ({
            let k = skip(input);
            let first = sequence@.0.parse_spec(skip, input.skip(k as int));
            &&& sequence.parse_spec(skip, input) is Some <==> first is Some
                && sequence@.1.parse_spec(skip, input.skip((k + first.unwrap().1) as int)) is Some
            &&& sequence.parse_spec(skip, input) is Some ==> {
                let (a, n1) = first.unwrap();
                let (b, n2) = sequence@.1.parse_spec(skip, input.skip((k + n1) as int)).unwrap();
                sequence.parse_spec(skip, input) == Some(((a, b), k + n1 + n2))
            }
        }),
{
}

/// A separated list matches exactly when one item matches behind the skipped
/// prefix, and what it yields begins with that item: no list is empty.
pub proof fn lemma_list_needs_item<Item: Parser, Separator: Parser>(
    list: SeparatedBy<Item, Separator>,
    skip: SkipFn,
    input: Seq<u8>,
)
    ensures
        ({
            let first = list@.0.parse_spec(skip, input.skip(skip(input) as int));
            &&& list.parse_spec(skip, input) is Some <==> first is Some
            &&& list.parse_spec(skip, input) matches Some((items, _)) ==> items.len() >= 1
                && items[0] == first.unwrap().0
        }),
{
}

/// A separator that no item follows does not count: where the separator
/// matches and the item behind it does not, the tail of the list is empty
/// and consumes nothing.
pub proof fn lemma_trailing_separator_rolled_back<Item: Parser, Separator: Parser>(
    list: SeparatedBy<Item, Separator>,
    skip: SkipFn,
    input: Seq<u8>,
)
    requires
        list@.1.parse_spec(skip, input) matches Some((_, n)) && list@.0.parse_spec(
            skip,
            input.skip(n as int),
        ) is None,
    ensures
        list.tail_spec(skip, input) == (Seq::<<Item::Output as DeepView>::V>::empty(), 0nat),
{
}

/// A separator and an item that together consume nothing end the list: the
/// pair is not counted, and the list does not go round again.
pub proof fn lemma_zero_width_pair_ends_list<Item: Parser, Separator: Parser>(
    list: SeparatedBy<Item, Separator>,
    skip: SkipFn,
    input: Seq<u8>,
)
    requires
        list@.1.parse_spec(skip, input) matches Some((_, n1)) && n1 == 0,
        list@.0.parse_spec(skip, input.skip(0)) matches Some((_, n2)) && n2 == 0,
    ensures
        list.tail_spec(skip, input) == (Seq::<<Item::Output as DeepView>::V>::empty(), 0nat),
{
}

/// The tail of a separated list never consumes more than there is.
pub proof fn lemma_tail_bounded<Item: Parser, Separator: Parser>(
    list: SeparatedBy<Item, Separator>,
    skip: SkipFn,
    input: Seq<u8>,
)
    ensures
        list.tail_spec(skip, input).1 <= input.len(),
    decreases input.len(),
{
    match list@.1.parse_spec(skip, input) {
        Some((_, n1)) => {
            if n1 <= input.len() {
                match list@.0.parse_spec(skip, input.skip(n1 as int)) {
                    Some((_, n2)) => {
                        if 0 < n1 + n2 <= input.len() {
                            lemma_tail_bounded(list, skip, input.skip((n1 + n2) as int));
                        }
                    },
                    None => {},
                }
            }
        },
        None => {},
    }
}

/// Attempts are deterministic: two attempts of one parser with one skip
/// function, on two cursors at the same position, agree on whether they
/// matched and leave the two cursors at the same position.
pub proof fn lemma_attempt_deterministic<P: Parser, I: ParserInput>(
    parser: P,
    skip: SkipFn,
    first: I,
    second: I,
    first_matched: bool,
    first_after: I,
    second_matched: bool,
    second_after: I,
)
    requires
        first.remaining() == second.remaining(),
        attempt_outcome(parser, skip, first, first_matched, first_after),
        attempt_outcome(parser, skip, second, second_matched, second_after),
    ensures
        first_matched == second_matched,
        first_after.remaining() == second_after.remaining(),
{
}

} // verus!
