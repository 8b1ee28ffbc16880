//! Non-empty separated-list repetition.
use vstd::prelude::*;
use crate::traits::{lemma_skip_add, skip_fn, Parser, ParserInput, SkipFn, Skipper};

verus! {

/// Non-empty separated list: one item, then any number of separator-item
/// pairs, yielding the items in order.
pub struct SeparatedBy<Item, Separator> {
    item_parser: Item,
    separator_parser: Separator,
}

impl<Item, Separator> View for SeparatedBy<Item, Separator> {
    type V = (Item, Separator);

    /// The item parser and the separator parser.
    closed spec fn view(&self) -> (Item, Separator) {
        (self.item_parser, self.separator_parser)
    }
}

impl<Item, Separator> SeparatedBy<Item, Separator> {
    /// The parser of items matched by `item_parser`, separated by what
    /// `separator_parser` matches.
    pub fn new(item_parser: Item, separator_parser: Separator) -> (list: Self)
        ensures
            list@ == (item_parser, separator_parser),
    {
        Self { item_parser, separator_parser }
    }
}

impl<Item, Separator> SeparatedBy<Item, Separator> where Item: Parser, Separator: Parser {
    /// The items that follow the first one, and the bytes they and their
    /// separators consume.
    ///
    /// A separator counts only together with the item behind it. The list
    /// ends before the first separator that no item follows, and before a
    /// separator-item pair that consumes no byte at all. (A pair said to
    /// reach past the end of `input`, which no attempt on a cursor can be,
    /// ends the list too.)
    pub open spec fn tail_spec(&self, skip: SkipFn, input: Seq<u8>) -> (
        Seq<<Item::Output as DeepView>::V>,
        nat,
    )
        decreases input.len(),
    {
        match self@.1.parse_spec(skip, input) {
            Some((_, n1)) if n1 <= input.len() => match self@.0.parse_spec(
                skip,
                input.skip(n1 as int),
            ) {
                Some((item, n2)) if 0 < n1 + n2 <= input.len() => {
                    let (items, m) = self.tail_spec(skip, input.skip((n1 + n2) as int));
                    (seq![item] + items, n1 + n2 + m)
                },
                _ => (Seq::empty(), 0),
            },
            _ => (Seq::empty(), 0),
        }
    }
}

impl<Item, Separator> Parser for SeparatedBy<Item, Separator> where
    Item: Parser,
    Separator: Parser,
 {
    type Output = Vec<Item::Output>;

    /// Skip; then one item, without which there is no match; then the tail.
    open spec fn parse_spec(&self, skip: SkipFn, input: Seq<u8>) -> Option<
        (Seq<<Item::Output as DeepView>::V>, nat),
    > {
        let k = skip(input);
        match self@.0.parse_spec(skip, input.skip(k as int)) {
            Some((first, n)) => {
                let (items, m) = self.tail_spec(skip, input.skip((k + n) as int));
                Some((seq![first] + items, k + n + m))
            },
            None => None,
        }
    }

    fn attempt<I, S>(&mut self, iter: &mut I, skipper: &mut S) -> (out: Option<
        Vec<Item::Output>,
    >) where I: ParserInput, S: Skipper
        ensures
            out matches Some(items) ==> items.len() >= 1,
    {
        let entry = iter.clone();
        proof {
            I::lemma_clone_is_snapshot(&*iter, &entry);
        }
        skipper.skip(iter);
        let ghost input = entry.remaining();
        let ghost skip = skip_fn(*skipper);
        let ghost k = skipper.skip_len(input);
        assert(skip(input) == k);
        let first = match self.item_parser.attempt(iter, skipper) {
            Some(first) => first,
            None => {
                *iter = entry;
                return None;
            },
        };
        let ghost n = self@.0.parse_spec(skip, input.skip(k as int)).unwrap().1;
        let ghost mut done: nat = k + n;
        proof {
            lemma_skip_add(input, k, n);
        }
        let mut items: Vec<Item::Output> = Vec::new();
        items.push(first);
        assert(items.deep_view() =~= seq![first.deep_view()]);
        loop
            invariant
                *self == *old(self),
                *skipper == *old(skipper),
                items.len() >= 1,
                skip == skip_fn(*old(skipper)),
                input == old(iter).remaining(),
                done <= input.len(),
                iter.remaining() == input.skip(done as int),
                old(self).parse_spec(skip, input) == Some(
                    (
                        items.deep_view() + old(self).tail_spec(skip, iter.remaining()).0,
                        done + old(self).tail_spec(skip, iter.remaining()).1,
                    ),
                ),
            ensures
                old(self).tail_spec(skip, iter.remaining()) == (
                    Seq::<<Item::Output as DeepView>::V>::empty(),
                    0nat,
                ),
            decreases iter.remaining().len(),
        {
            let before = iter.remaining_len();
            let save = iter.clone();
            proof {
                I::lemma_clone_is_snapshot(&*iter, &save);
            }
            let ghost here = iter.remaining();
            if self.separator_parser.attempt(iter, skipper).is_none() {
                *iter = save;
                break ;
            }
            let ghost n1 = self@.1.parse_spec(skip, here).unwrap().1;
            let item = match self.item_parser.attempt(iter, skipper) {
                Some(item) => item,
                None => {
                    *iter = save;
                    break ;
                },
            };
            let ghost n2 = self@.0.parse_spec(skip, here.skip(n1 as int)).unwrap().1;
            proof {
                lemma_skip_add(here, n1, n2);
            }
            if iter.remaining_len() >= before {
                *iter = save;
                break ;
            }
            proof {
                let rest = self.tail_spec(skip, here.skip((n1 + n2) as int));
                assert(self.tail_spec(skip, here) == (
                    seq![item.deep_view()] + rest.0,
                    n1 + n2 + rest.1,
                ));
                assert(items.deep_view().push(item.deep_view()) + rest.0 =~= items.deep_view() + (
                    seq![item.deep_view()] + rest.0));
                lemma_skip_add(input, done, n1 + n2);
                done = done + n1 + n2;
            }
            let ghost before_push = items.deep_view();
            items.push(item);
            assert(items.deep_view() =~= before_push.push(item.deep_view()));
        }
        assert(items.deep_view() + Seq::<<Item::Output as DeepView>::V>::empty()
            =~= items.deep_view());
        Some(items)
    }
}

} // verus!
