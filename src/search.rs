//! Looking an item up in a collection by its position or by its name.
use vstd::prelude::*;

use crate::text::{parse_index, parse_usize};

verus! {

/// Lets an item of a collection be found from user input: the input is either
/// the item's position or something that the collection compares its items with.
pub trait IndexSearch {
    type Item;

    /// The items of the collection, in order.
    spec fn collection(&self) -> Seq<Self::Item>;

    /// Whether `item` is the one named by `input`.
    spec fn matches(&self, item: Self::Item, input: Seq<char>) -> bool;

    /// The collection to be searched over.
    fn get_collection(&self) -> (r: &Vec<Self::Item>)
        ensures
            r@ == self.collection(),
    ;

    /// Checks for equality between the user input string and an item from the collection.
    fn is_equal(&self, item: &Self::Item, input: &str) -> (r: bool)
        ensures
            r == self.matches(*item, input@),
    ;

    /// If the input reads as an index, the item at that index, if there is one;
    /// otherwise the first item that the input names.
    fn get_from_input(&self, input: &str) -> (r: Option<(usize, &Self::Item)>)
        ensures
            match r {
                Some((i, item)) => resolve(self.collection(), input@, |it: Self::Item| self.matches(it, input@)) == Some(i as int) && *item
                    == self.collection()[i as int],
                None => resolve(self.collection(), input@, |it: Self::Item| self.matches(it, input@)) is None,
            },
    {
        let collection = self.get_collection();
        match parse_index(input) {
            Some(index) => {
                if index < collection.len() {
                    Some((index, &collection[index]))
                } else {
                    None
                }
            },
            None => {
                let mut i: usize = 0;
                while i < collection.len()
                    invariant
                        i <= collection.len(),
                        collection@ == self.collection(),
                        parse_usize(input@) is None,
                        forall|j: int| 0 <= j < i ==> !self.matches(#[trigger] collection@[j], input@),
                    decreases collection.len() - i,
                {
                    if self.is_equal(&collection[i], input) {
                        proof {
                            let named = |it: Self::Item| self.matches(it, input@);
                            assert(is_first_match(self.collection(), named, i as int));
                        }
                        return Some((i, &collection[i]));
                    }
                    i += 1;
                }
                None
            },
        }
    }
}

/// `i` is the position of the first item of `items` that `named` holds of.
pub open spec fn is_first_match<I>(items: Seq<I>, named: spec_fn(I) -> bool, i: int) -> bool {
    &&& 0 <= i < items.len()
    &&& named(items[i])
    &&& forall|j: int| 0 <= j < i ==> !named(#[trigger] items[j])
}

/// The position of the first item of `items` that `named` holds of, if any.
pub open spec fn first_match<I>(items: Seq<I>, named: spec_fn(I) -> bool) -> Option<int> {
    if exists|i: int| is_first_match(items, named, i) {
        Some(choose|i: int| is_first_match(items, named, i))
    } else {
        None
    }
}

/// The position that `input` resolves to in `items`: the index it denotes when
/// it reads as one (and nothing when that is out of range), else the first item
/// that it names.
pub open spec fn resolve<I>(items: Seq<I>, input: Seq<char>, named: spec_fn(I) -> bool) -> Option<int> {
    match parse_usize(input) {
        Some(n) => if n < items.len() {
            Some(n as int)
        } else {
            None
        },
        None => first_match(items, named),
    }
}

} // verus!
