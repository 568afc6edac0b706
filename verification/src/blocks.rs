//! Blocks of a text between an opening and a closing tag.

use vstd::prelude::*;

use crate::text::chars_of;
use crate::text::find;
use crate::text::find_from;
use crate::text::lemma_find_from;
use crate::text::search_from;

verus! {

/// The first block that begins with `open` and ends with the next `close`: where
/// it begins, where its contents end, and where it ends.
pub open spec fn block(s: Seq<char>, open: Seq<char>, close: Seq<char>) -> Option<(int, int, int)> {
    match find(s, open) {
        Some(from) => match find_from(s, close, from + open.len()) {
            Some(end) => Some((from, end, end + close.len())),
            None => None,
        },
        None => None,
    }
}

/// The contents of the first block.
pub open spec fn block_inner(s: Seq<char>, open: Seq<char>, close: Seq<char>) -> Seq<char> {
    match block(s, open, close) {
        Some((from, end, _)) => s.subrange(from + open.len(), end),
        None => Seq::empty(),
    }
}

/// A block lies in the text.
pub proof fn lemma_block(s: Seq<char>, open: Seq<char>, close: Seq<char>)
    ensures
        block(s, open, close) matches Some((from, end, to)) ==> 0 <= from && from + open.len() <= end
            && end + close.len() == to && to <= s.len(),
{
    lemma_find_from(s, open, 0);
    if let Some(from) = find(s, open) {
        lemma_find_from(s, close, from + open.len());
    }
}

/// Finds the first block.
pub fn find_block(s: &[char], open: &str, close: &str) -> (r: Option<(usize, usize, usize, usize)>)
    ensures
        match r {
            Some((from, inner, end, to)) => block(s@, open@, close@) == Some(
                (from as int, end as int, to as int),
            ) && inner == from + open@.len() && from <= inner <= end <= to <= s@.len(),
            None => block(s@, open@, close@) is None,
        },
{
    proof {
        lemma_block(s@, open@, close@);
    }
    let head = chars_of(open);
    let tail = chars_of(close);
    match search_from(s, head.as_slice(), 0) {
        Some(from) => {
            let inner: usize = from + head.len();
            match search_from(s, tail.as_slice(), inner) {
                Some(end) => Some((from, inner, end, end + tail.len())),
                None => None,
            }
        },
        None => None,
    }
}


/// The pairs of texts that a list of string pairs holds.
pub open spec fn pairs_view(pairs: Seq<(&str, &str)>) -> Seq<(Seq<char>, Seq<char>)> {
    Seq::new(pairs.len(), |i: int| (pairs[i].0@, pairs[i].1@))
}

} // verus!
