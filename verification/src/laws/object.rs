//! Reading the members of objects.

use crate::json::{first_member, JsonV};
use vstd::prelude::*;

verus! {

/// A member is read by its key where no earlier one has the same.
pub proof fn lemma_member_at(m: Seq<(Seq<char>, JsonV)>, i: int)
    requires
        0 <= i < m.len(),
        forall|j: int| 0 <= j < i ==> (#[trigger] m[j]).0 != m[i].0,
    ensures
        first_member(m, m[i].0) == Some(m[i].1),
    decreases m.len(),
{
    if i > 0 {
        assert(m[0].0 != m[i].0);
        let r = m.skip(1);
        assert(r[i - 1] == m[i]);
        assert forall|j: int| 0 <= j < i - 1 implies (#[trigger] r[j]).0 != r[i - 1].0 by {
            assert(r[j] == m[j + 1]);
        }
        lemma_member_at(r, i - 1);
    }
}

} // verus!
