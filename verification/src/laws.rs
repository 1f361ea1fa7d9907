//! Laws of the store, stated and proved once over its mathematical model.

use vstd::prelude::*;
use crate::record::CustomerView;
use crate::store::{
    StoreView, edited_record, email_taken_by_other, emails_unique, supplied,
};

verus! {

/// Identifiers are exactly 1, 2, 3, ... along the stored sequence.
pub open spec fn ids_gapless_from_one(s: Seq<CustomerView>) -> bool {
    forall|i: int| 0 <= i < s.len() ==> (#[trigger] s[i]).id == i + 1
}

/// Law, base case: a fresh store is gapless, with its allocator one past
/// the (empty) sequence of issued identifiers.
pub proof fn lemma_empty_store_gapless()
    ensures
        ids_gapless_from_one(Seq::<CustomerView>::empty()),
{
}

/// Law, inductive step: a successful add appends a record carrying the
/// allocator's value and advances the allocator by exactly 1 (which is what
/// `CustomerStore::add` ensures on success). So after any sequence of
/// successful adds starting from the empty store, the store holds exactly
/// one entry per call and the identifiers are 1, 2, ..., n: strictly
/// increasing, gapless from 1, and never reused.
pub proof fn lemma_add_keeps_gapless(pre: StoreView, post: StoreView, c: CustomerView)
    requires
        ids_gapless_from_one(pre.records),
        pre.next_id == pre.records.len() + 1,
        c.id == pre.next_id,
        post.records == pre.records.push(c),
        post.next_id == pre.next_id + 1,
    ensures
        ids_gapless_from_one(post.records),
        post.next_id == post.records.len() + 1,
{
}

/// Law: an edit whose three replacement fields are all absent or blank
/// stages exactly the current record — committing it changes nothing, and
/// the record stays present under the same identifier.
pub proof fn lemma_blank_edit_is_identity(
    c: CustomerView,
    n: Option<Seq<char>>,
    e: Option<Seq<char>>,
    p: Option<Seq<char>>,
)
    requires
        !supplied(n),
        !supplied(e),
        !supplied(p),
    ensures
        edited_record(c, n, e, p) == c,
{
}

/// Law: a record's own email is never counted as taken by a *different*
/// record while emails are pairwise distinct; editing a record's email to
/// its current value is therefore never refused as a duplicate.
pub proof fn lemma_own_email_not_taken_by_other(s: Seq<CustomerView>, idx: int)
    requires
        emails_unique(s),
        0 <= idx < s.len(),
    ensures
        !email_taken_by_other(s, s[idx].id, s[idx].email),
{
    assert forall|i: int| 0 <= i < s.len() && s[i].email == s[idx].email implies i == idx by {
        if i < idx {
            assert(s[i].email != s[idx].email);
        } else if i > idx {
            assert(s[idx].email != s[i].email);
        }
    }
}

} // verus!
