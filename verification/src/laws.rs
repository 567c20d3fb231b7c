//! Cross-operation laws of the invoice collection, proved from the
//! contracts the operations themselves state.

use vstd::prelude::*;

use crate::assoc::{at_key, has_key};
use crate::invoices::{inv_key, InvoiceView, InvoicesState};

verus! {

/// Law: the verification lock is exclusive.  `lock_for_verification`
/// succeeds exactly on a `Created` invoice and leaves it in `VerifyPayment`;
/// by the same contract a second attempt, made while the first holds the
/// lock, observes a non-`Created` status and is refused with
/// `InvalidState`.  This lemma records the pivot: an invoice under the lock
/// can never satisfy the success condition again until it is settled or
/// explicitly restored.
pub proof fn lemma_verification_lock_excludes(s: &InvoicesState, invoice_id: Seq<u8>)
    requires
        s.wf(),
        has_key(s.invs(), inv_key(), invoice_id),
        at_key(s.invs(), inv_key(), invoice_id).status is VerifyPayment,
    ensures
        !(at_key(s.invs(), inv_key(), invoice_id).status is Created),
        !(at_key(s.invs(), inv_key(), invoice_id).status is Paid),
{
}

/// Law: popping an archive batch and reinserting the same batch leaves the
/// invoice table and the inactive list exactly as they were.
///
/// The hypotheses are the postconditions of `prepare_archive_batch` (from
/// state `invs0`/`ina0` to `invs1`/`ina1`, producing `batch`) and of
/// `reapply_archive_batch` (from `invs1`/`ina1` back to `invs2`/`ina2` with
/// that same batch); the conclusion is that every id is mapped to the same
/// invoice as before the pair of calls, and the inactive list holds the
/// same ids.
pub proof fn lemma_archive_round_trip(
    invs0: Seq<InvoiceView>,
    ina0: Seq<Seq<u8>>,
    batch: Seq<InvoiceView>,
    invs1: Seq<InvoiceView>,
    ina1: Seq<Seq<u8>>,
    invs2: Seq<InvoiceView>,
    ina2: Seq<Seq<u8>>,
)
    requires
        // What prepare_archive_batch ensures:
        0 <= batch.len() <= ina0.len(),
        forall|j: int|
            0 <= j < batch.len() ==> #[trigger] batch[j] == at_key(invs0, inv_key(), ina0[j])
                && batch[j].id == ina0[j],
        ina1 == ina0.skip(batch.len() as int),
        forall|k: Seq<u8>|
            #[trigger] has_key(invs1, inv_key(), k) == (has_key(invs0, inv_key(), k) && !ina0.take(
                batch.len() as int,
            ).contains(k)),
        forall|k: Seq<u8>|
            has_key(invs1, inv_key(), k) ==> #[trigger] at_key(invs1, inv_key(), k) == at_key(
                invs0,
                inv_key(),
                k,
            ),
        // The inactive ids were unique and each named a stored invoice:
        forall|a: int, b: int| 0 <= a < b < ina0.len() ==> ina0[a] != ina0[b],
        forall|j: int| 0 <= j < ina0.len() ==> has_key(invs0, inv_key(), #[trigger] ina0[j]),
        // What reapply_archive_batch ensures:
        forall|k: Seq<u8>|
            #[trigger] has_key(invs2, inv_key(), k) == (has_key(invs1, inv_key(), k) || (
            exists|j: int| 0 <= j < batch.len() && (#[trigger] batch[j]).id == k)),
        forall|j: int|
            0 <= j < batch.len() ==> at_key(invs2, inv_key(), (#[trigger] batch[j]).id)
                == batch[j],
        forall|k: Seq<u8>|
            has_key(invs1, inv_key(), k) ==> #[trigger] at_key(invs2, inv_key(), k) == at_key(
                invs1,
                inv_key(),
                k,
            ),
        ina2 == ina1 + Seq::new(batch.len(), |j: int| batch[j].id),
    ensures
        forall|k: Seq<u8>| #[trigger] has_key(invs2, inv_key(), k) == has_key(invs0, inv_key(), k),
        forall|k: Seq<u8>|
            has_key(invs0, inv_key(), k) ==> #[trigger] at_key(invs2, inv_key(), k) == at_key(
                invs0,
                inv_key(),
                k,
            ),
        forall|id: Seq<u8>| #[trigger] ina2.contains(id) == ina0.contains(id),
{
    let n = batch.len() as int;
    assert forall|k: Seq<u8>| #[trigger] has_key(invs2, inv_key(), k) == has_key(
        invs0,
        inv_key(),
        k,
    ) by {
        if has_key(invs2, inv_key(), k) {
            if !has_key(invs1, inv_key(), k) {
                let j = choose|j: int| 0 <= j < n && (#[trigger] batch[j]).id == k;
                assert(has_key(invs0, inv_key(), ina0[j]));
            }
        }
        if has_key(invs0, inv_key(), k) && !has_key(invs1, inv_key(), k) {
            assert(ina0.take(n).contains(k));
            let c = choose|c: int| 0 <= c < ina0.take(n).len() && ina0.take(n)[c] == k;
            assert(ina0[c] == k);
            assert(batch[c].id == k);
        }
    }
    assert forall|k: Seq<u8>| has_key(invs0, inv_key(), k) implies #[trigger] at_key(
        invs2,
        inv_key(),
        k,
    ) == at_key(invs0, inv_key(), k) by {
        if has_key(invs1, inv_key(), k) {
        } else {
            assert(ina0.take(n).contains(k));
            let c = choose|c: int| 0 <= c < ina0.take(n).len() && ina0.take(n)[c] == k;
            assert(ina0[c] == k);
            assert(batch[c].id == k);
            assert(at_key(invs2, inv_key(), k) == batch[c]);
            assert(batch[c] == at_key(invs0, inv_key(), ina0[c]));
        }
    }
    assert forall|id: Seq<u8>| #[trigger] ina2.contains(id) == ina0.contains(id) by {
        if ina2.contains(id) {
            let c = choose|c: int| 0 <= c < ina2.len() && ina2[c] == id;
            if c < ina1.len() {
                assert(ina1[c] == id);
                assert(ina0[n + c] == id);
                assert(ina0.contains(id));
            } else {
                assert(ina2[c] == batch[c - ina1.len()].id);
                assert(ina0[c - ina1.len()] == id);
                assert(ina0.contains(id));
            }
        }
        if ina0.contains(id) {
            let c = choose|c: int| 0 <= c < ina0.len() && ina0[c] == id;
            if c < n {
                assert(ina2[ina1.len() + c] == batch[c].id);
                assert(ina2.contains(id));
            } else {
                assert(ina1[c - n] == id);
                assert(ina2[c - n] == id);
                assert(ina2.contains(id));
            }
        }
    }
}

} // verus!
