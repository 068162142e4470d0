//! Pieces that stand in a text.

use crate::text::joined;
use vstd::prelude::*;

verus! {

/// Whether a piece stands in a text.
pub open spec fn stands(text: Seq<char>, piece: Seq<char>) -> bool {
    exists|a: Seq<char>, b: Seq<char>| text == #[trigger] (a + piece + b)
}

pub proof fn lemma_stands(text: Seq<char>, a: Seq<char>, piece: Seq<char>, b: Seq<char>)
    requires
        text =~= a + piece + b,
    ensures
        stands(text, piece),
{
    assert(text == a + piece + b);
}

/// What stands in a piece stands in the whole.
pub proof fn lemma_stands_in(text: Seq<char>, piece: Seq<char>, inner: Seq<char>)
    requires
        stands(text, piece),
        stands(piece, inner),
    ensures
        stands(text, inner),
{
    let (a, b) = choose|a: Seq<char>, b: Seq<char>| text == #[trigger] (a + piece + b);
    let (c, d) = choose|c: Seq<char>, d: Seq<char>| piece == #[trigger] (c + inner + d);
    lemma_stands(text, a + c, inner, d + b);
}

/// Each of some texts stands in all of them together.
pub proof fn lemma_joined_stands(list: Seq<Seq<char>>, sep: Seq<char>, k: int)
    requires
        0 <= k < list.len(),
    ensures
        stands(joined(list, sep), list[k]),
    decreases list.len(),
{
    let all = joined(list, sep);
    if list.len() == 1 {
        lemma_stands(all, Seq::empty(), list[0], Seq::empty());
    } else {
        let front = list.drop_last();
        assert(all == joined(front, sep) + sep + list.last());
        if k == list.len() - 1 {
            lemma_stands(all, joined(front, sep) + sep, list[k], Seq::empty());
        } else {
            lemma_joined_stands(front, sep, k);
            assert(front[k] == list[k]);
            lemma_stands(all, Seq::empty(), joined(front, sep), sep + list.last());
            lemma_stands_in(all, joined(front, sep), list[k]);
        }
    }
}

/// What stands in a text stands in every text that goes on from it.
pub proof fn lemma_stands_on()
    ensures
        forall|text: Seq<char>, more: Seq<char>, piece: Seq<char>|
            stands(text, piece) ==> #[trigger] stands(text + more, piece),
{
    assert forall|text: Seq<char>, more: Seq<char>, piece: Seq<char>| stands(
        text,
        piece,
    ) implies #[trigger] stands(text + more, piece) by {
        let (a, b) = choose|a: Seq<char>, b: Seq<char>| text == #[trigger] (a + piece + b);
        lemma_stands(text + more, a, piece, b + more);
    }
}

/// Three parts at the end of a text stand in it.
pub proof fn lemma_stands_last(front: Seq<char>, x: Seq<char>, y: Seq<char>, z: Seq<char>)
    ensures
        stands(front + x + y + z, x + y + z),
{
    lemma_stands(front + x + y + z, front, x + y + z, Seq::empty());
}

} // verus!
