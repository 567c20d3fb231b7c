//! The historical-invoice archive: an append-only log of settled invoices
//! pushed out of the hub's hot state.

use vstd::prelude::*;

use crate::ids::PrincipalData;

verus! {

/// An archived invoice, versioned for forward compatibility.
pub enum ArchivedInvoice {
    V0001(ArchivedInvoiceV0001),
}

/// The first archived-invoice layout.
pub struct ArchivedInvoiceV0001 {
}

/// The archive's state: an optional successor archive and the log itself.
pub struct HistoryState {
    pub next: Option<PrincipalData>,
    pub log: Vec<ArchivedInvoice>,
}

impl HistoryState {
    pub fn new() -> (r: HistoryState)
        ensures
            r.log@.len() == 0,
            r.next is None,
    {
        HistoryState { next: None, log: Vec::new() }
    }

    /// Appends a batch to the log, in order.
    pub fn push_batch(&mut self, batch: Vec<ArchivedInvoice>)
        ensures
            final(self).log@ == old(self).log@ + batch@,
            final(self).next == old(self).next,
    {
        let ghost l0 = self.log@;
        let ghost b0 = batch@;
        let mut rest = batch;
        while rest.len() > 0
            invariant
                self.log@ + rest@ =~= l0 + b0,
                self.next == old(self).next,
            decreases rest@.len(),
        {
            let ghost lp = self.log@;
            let ghost rp = rest@;
            let item = rest.remove(0);
            self.log.push(item);
            proof {
                assert(self.log@ + rest@ =~= lp + rp);
            }
        }
        proof {
            assert(self.log@ =~= self.log@ + rest@);
        }
    }

    /// The archived invoice at log index `idx`, if any.
    pub fn get_invoice(&self, idx: u64) -> (r: Option<&ArchivedInvoice>)
        ensures
            idx < self.log@.len() ==> r == Some(&self.log@[idx as int]),
            idx >= self.log@.len() ==> r is None,
    {
        if idx < self.log.len() as u64 {
            Some(&self.log[idx as usize])
        } else {
            None
        }
    }
}

/// Whether the caller is the parent hub allowed to push batches.
pub fn only_parent(caller: &PrincipalData, parent: &PrincipalData) -> (r: bool)
    ensures
        r == (caller@ == parent@),
{
    caller.eq_principal(parent)
}

} // verus!
