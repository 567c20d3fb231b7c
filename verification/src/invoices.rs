//! The invoice collection and its state machine.
//!
//! An invoice is created against a shop and an exchange-rate snapshot, passes
//! through `VerifyPayment` while an external ledger record is fetched and
//! checked, and either settles as `Paid` or returns to `Created`.  A periodic
//! sweep decrements the ttl of unpaid invoices and discards the expired ones.
//!
//! The collection keeps three structures: the invoice table itself, the
//! active index (for every non-terminal invoice, the exchange-rate timestamp
//! it locks), and the inactive list of settled invoices awaiting archival.
//! An invoice is in the active index exactly while its status is non-terminal
//! and in the inactive list exactly while it is `Paid`.

use vstd::prelude::*;

use crate::assoc::{at_key, has_key, lemma_at_index, lemma_push_frame, lemma_remove_frame,
    unique_keys};
use crate::decimal::{dec_mul, dec_rescale, DecimalView, EDs, USD_DECIMALS};
use crate::error::{Error, ValidationReason};
use crate::hashing::{derive_invoice_id, invoice_id_of, invoice_memo_of, make_invoice_memo,
    shop_subaccount_of, calc_shop_subaccount};
use crate::ids::{bytes32_eq, InvoiceId, PrincipalData, ShopId, Timestamp};
use crate::txn::{TransferTxn, TransferTxnView};

verus! {

/// The ttl an invoice starts with.
pub const DEFAULT_TTL: u8 = 1;

/// The ttl floor: an invoice swept at this ttl is discarded.
pub const RECYCLING_TTL: u8 = 0;

/// The mathematical content of an invoice status.
pub ghost enum InvoiceStatusView {
    Created { ttl: u8 },
    VerifyPayment,
    Paid { timestamp: Timestamp, token_id: Seq<u8>, qty: DecimalView, exchange_rate: DecimalView },
}

/// The status of an invoice: freshly created (with a sweep ttl), locked while
/// a payment is being verified, or settled.
#[derive(Debug)]
pub enum InvoiceStatus {
    Created { ttl: u8 },
    VerifyPayment,
    Paid { timestamp: Timestamp, token_id: PrincipalData, qty: EDs, exchange_rate: EDs },
}

impl View for InvoiceStatus {
    type V = InvoiceStatusView;

    open spec fn view(&self) -> InvoiceStatusView {
        match self {
            InvoiceStatus::Created { ttl } => InvoiceStatusView::Created { ttl: *ttl },
            InvoiceStatus::VerifyPayment => InvoiceStatusView::VerifyPayment,
            InvoiceStatus::Paid { timestamp, token_id, qty, exchange_rate } =>
                InvoiceStatusView::Paid {
                timestamp: *timestamp,
                token_id: token_id@,
                qty: qty@,
                exchange_rate: exchange_rate@,
            },
        }
    }
}

impl InvoiceStatus {
    /// A copy holding the same data.
    pub fn duplicate(&self) -> (r: InvoiceStatus)
        ensures
            r@ == self@,
    {
        match self {
            InvoiceStatus::Created { ttl } => InvoiceStatus::Created { ttl: *ttl },
            InvoiceStatus::VerifyPayment => InvoiceStatus::VerifyPayment,
            InvoiceStatus::Paid { timestamp, token_id, qty, exchange_rate } => InvoiceStatus::Paid {
                timestamp: *timestamp,
                token_id: token_id.duplicate(),
                qty: qty.clone(),
                exchange_rate: exchange_rate.clone(),
            },
        }
    }
}

/// Whether some entry of an active index locks the timestamp `ts`.
pub open spec fn spec_references(act: Seq<ActiveRefView>, ts: Timestamp) -> bool {
    exists|i: int| 0 <= i < act.len() && (#[trigger] act[i]).timestamp == ts
}

/// A status that keeps the invoice in the active index.
pub open spec fn is_active_status(s: InvoiceStatusView) -> bool {
    s is Created || s is VerifyPayment
}

/// The mathematical content of an invoice.
pub ghost struct InvoiceView {
    pub id: Seq<u8>,
    pub status: InvoiceStatusView,
    pub creator: Seq<u8>,
    pub qty_usd: DecimalView,
    pub created_at: Timestamp,
    pub exchange_rates_timestamp: Timestamp,
    pub shop_id: ShopId,
}

/// An invoice: a request to receive a fixed USD amount for a shop, locked to
/// the exchange-rate snapshot current at its creation.
#[derive(Debug)]
pub struct Invoice {
    pub id: InvoiceId,
    pub status: InvoiceStatus,
    pub creator: PrincipalData,
    pub qty_usd: EDs,
    pub created_at: Timestamp,
    pub exchange_rates_timestamp: Timestamp,
    pub shop_id: ShopId,
}

impl View for Invoice {
    type V = InvoiceView;

    open spec fn view(&self) -> InvoiceView {
        InvoiceView {
            id: self.id@,
            status: self.status@,
            creator: self.creator@,
            qty_usd: self.qty_usd@,
            created_at: self.created_at,
            exchange_rates_timestamp: self.exchange_rates_timestamp,
            shop_id: self.shop_id,
        }
    }
}

impl Invoice {
    /// A copy holding the same data.
    pub fn duplicate(&self) -> (r: Invoice)
        ensures
            r@ == self@,
    {
        Invoice {
            id: self.id,
            status: self.status.duplicate(),
            creator: self.creator.duplicate(),
            qty_usd: self.qty_usd.clone(),
            created_at: self.created_at,
            exchange_rates_timestamp: self.exchange_rates_timestamp,
            shop_id: self.shop_id,
        }
    }
}

/// Scale sanity of an invoice: the USD amount is held at the standard scale,
/// and a settled invoice's recorded quantities carry supported scales.
pub open spec fn invoice_scales_wf(v: InvoiceView) -> bool {
    &&& v.qty_usd.scale == USD_DECIMALS as nat
    &&& match v.status {
        InvoiceStatusView::Paid { qty, exchange_rate, .. } => qty.scale <= 31 && exchange_rate.scale
            <= 31,
        _ => true,
    }
}

/// The mathematical content of an active-index entry.
pub ghost struct ActiveRefView {
    pub id: Seq<u8>,
    pub timestamp: Timestamp,
}

/// One active-index entry: a non-terminal invoice and the exchange-rate
/// timestamp it locks.
pub struct ActiveRef {
    pub id: InvoiceId,
    pub timestamp: Timestamp,
}

impl View for ActiveRef {
    type V = ActiveRefView;

    open spec fn view(&self) -> ActiveRefView {
        ActiveRefView { id: self.id@, timestamp: self.timestamp }
    }
}

/// The key of an invoice: its id.
pub open spec fn inv_key() -> spec_fn(InvoiceView) -> Seq<u8> {
    |v: InvoiceView| v.id
}

/// The key of an active-index entry: its invoice id.
pub open spec fn aref_key() -> spec_fn(ActiveRefView) -> Seq<u8> {
    |v: ActiveRefView| v.id
}

/// The key of an inactive-list entry: the id itself.
pub open spec fn raw_key() -> spec_fn(Seq<u8>) -> Seq<u8> {
    |v: Seq<u8>| v
}

/// The invoice collection.
pub struct InvoicesState {
    pub invoice_id_generator: InvoiceId,
    pub all_invoices: Vec<Invoice>,
    pub active_invoices: Vec<ActiveRef>,
    pub inactive_invoices: Vec<InvoiceId>,
    pub total_processed_in_usd: EDs,
}

impl InvoicesState {
    /// The invoice table, as views.
    pub open spec fn invs(&self) -> Seq<InvoiceView> {
        Seq::new(self.all_invoices@.len(), |i: int| self.all_invoices@[i]@)
    }

    /// The active index, as views.
    pub open spec fn active(&self) -> Seq<ActiveRefView> {
        Seq::new(self.active_invoices@.len(), |i: int| self.active_invoices@[i]@)
    }

    /// The inactive list, as views.
    pub open spec fn inactive(&self) -> Seq<Seq<u8>> {
        Seq::new(self.inactive_invoices@.len(), |i: int| self.inactive_invoices@[i]@)
    }

    /// Collection well-formedness: ids are unique in each structure; the
    /// active index holds exactly the non-terminal invoices, each under its
    /// locked exchange-rate timestamp; the inactive list holds exactly the
    /// settled ones; and every stored amount carries a supported scale.
    pub open spec fn wf(&self) -> bool {
        &&& unique_keys(self.invs(), inv_key())
        &&& unique_keys(self.active(), aref_key())
        &&& unique_keys(self.inactive(), raw_key())
        &&& forall|i: int|
            0 <= i < self.active().len() ==> {
                let e = #[trigger] self.active()[i];
                &&& has_key(self.invs(), inv_key(), e.id)
                &&& at_key(self.invs(), inv_key(), e.id).exchange_rates_timestamp == e.timestamp
                &&& is_active_status(at_key(self.invs(), inv_key(), e.id).status)
            }
        &&& forall|i: int|
            0 <= i < self.inactive().len() ==> {
                let id = #[trigger] self.inactive()[i];
                &&& has_key(self.invs(), inv_key(), id)
                &&& at_key(self.invs(), inv_key(), id).status is Paid
            }
        &&& forall|i: int|
            0 <= i < self.invs().len() ==> {
                let v = #[trigger] self.invs()[i];
                &&& invoice_scales_wf(v)
                &&& is_active_status(v.status) ==> has_key(self.active(), aref_key(), v.id)
                &&& v.status is Paid ==> has_key(self.inactive(), raw_key(), v.id)
            }
    }

    pub fn new() -> (r: InvoicesState)
        ensures
            r.wf(),
            r.invs().len() == 0,
            r.active().len() == 0,
            r.inactive().len() == 0,
            r.invoice_id_generator@ == Seq::new(32, |i: int| 0u8),
    {
        let r = InvoicesState {
            invoice_id_generator: [0u8; 32],
            all_invoices: Vec::new(),
            active_invoices: Vec::new(),
            inactive_invoices: Vec::new(),
            total_processed_in_usd: EDs { val: crate::bignat::big_from_u64(0), decimals: 8 },
        };
        proof {
            assert(r.invoice_id_generator@ =~= Seq::new(32, |i: int| 0u8));
        }
        r
    }

    /// Seeds the id generator, typically from a secure randomness source at
    /// startup.
    pub fn init_id_seed(&mut self, seed: &[u8; 32])
        ensures
            final(self).invoice_id_generator@ == seed@,
            final(self).all_invoices == old(self).all_invoices,
            final(self).active_invoices == old(self).active_invoices,
            final(self).inactive_invoices == old(self).inactive_invoices,
            final(self).total_processed_in_usd == old(self).total_processed_in_usd,
            final(self).wf() == old(self).wf(),
    {
        self.invoice_id_generator = *seed;
    }

    /// The index of the invoice with this id, if any.
    fn find_invoice(&self, id: &InvoiceId) -> (r: Option<usize>)
        ensures
            match r {
                Some(i) => i < self.invs().len() && self.invs()[i as int].id == id@,
                None => !has_key(self.invs(), inv_key(), id@),
            },
    {
        let n = self.all_invoices.len();
        for i in 0..n
            invariant
                n == self.all_invoices@.len(),
                forall|j: int| 0 <= j < i ==> self.invs()[j].id != id@,
        {
            if bytes32_eq(&self.all_invoices[i].id, id) {
                return Some(i);
            }
        }
        None
    }

    /// The index of the active entry with this id, if any.
    fn find_active(&self, id: &InvoiceId) -> (r: Option<usize>)
        ensures
            match r {
                Some(i) => i < self.active().len() && self.active()[i as int].id == id@,
                None => !has_key(self.active(), aref_key(), id@),
            },
    {
        let n = self.active_invoices.len();
        for i in 0..n
            invariant
                n == self.active_invoices@.len(),
                forall|j: int| 0 <= j < i ==> self.active()[j].id != id@,
        {
            if bytes32_eq(&self.active_invoices[i].id, id) {
                return Some(i);
            }
        }
        None
    }

    /// Whether some non-terminal invoice still locks the exchange-rate
    /// snapshot taken at `ts`.
    pub fn has_active_reference(&self, ts: Timestamp) -> (r: bool)
        ensures
            r == spec_references(self.active(), ts),
    {
        let n = self.active_invoices.len();
        for i in 0..n
            invariant
                n == self.active_invoices@.len(),
                forall|j: int| 0 <= j < i ==> (#[trigger] self.active()[j]).timestamp != ts,
        {
            if self.active_invoices[i].timestamp == ts {
                proof {
                    assert((#[trigger] self.active()[i as int]).timestamp == ts);
                }
                return true;
            }
        }
        false
    }

    /// The invoice with this id, if any.
    pub fn get_invoice(&self, id: &InvoiceId) -> (r: Option<&Invoice>)
        requires
            self.wf(),
        ensures
            match r {
                Some(inv) => has_key(self.invs(), inv_key(), id@) && inv@ == at_key(
                    self.invs(),
                    inv_key(),
                    id@,
                ),
                None => !has_key(self.invs(), inv_key(), id@),
            },
    {
        match self.find_invoice(id) {
            Some(i) => {
                proof {
                    lemma_at_index(self.invs(), inv_key(), i as int);
                }
                Some(&self.all_invoices[i])
            },
            None => None,
        }
    }

    /// Creates an invoice: derives a fresh id from the generator (feeding the
    /// id forward as the next generator state), stores the invoice in
    /// `Created` state with the default ttl, and registers it in the active
    /// index under `exchange_rates_timestamp`.
    pub fn create(
        &mut self,
        qty_usd: EDs,
        shop_id: ShopId,
        timestamp: Timestamp,
        exchange_rates_timestamp: Timestamp,
        caller: PrincipalData,
    ) -> (r: InvoiceId)
        requires
            old(self).wf(),
            qty_usd.wf(),
            qty_usd@.scale == USD_DECIMALS as nat,
            !has_key(
                old(self).invs(),
                inv_key(),
                invoice_id_of(old(self).invoice_id_generator@, timestamp),
            ),
        ensures
            final(self).wf(),
            r@ == invoice_id_of(old(self).invoice_id_generator@, timestamp),
            final(self).invoice_id_generator@ == r@,
            has_key(final(self).invs(), inv_key(), r@),
            at_key(final(self).invs(), inv_key(), r@) == (InvoiceView {
                id: r@,
                status: InvoiceStatusView::Created { ttl: DEFAULT_TTL },
                creator: caller@,
                qty_usd: qty_usd@,
                created_at: timestamp,
                exchange_rates_timestamp,
                shop_id,
            }),
            forall|k: Seq<u8>|
                k != r@ ==> #[trigger] has_key(final(self).invs(), inv_key(), k) == has_key(
                    old(self).invs(),
                    inv_key(),
                    k,
                ),
            forall|k: Seq<u8>|
                k != r@ && has_key(final(self).invs(), inv_key(), k) ==> #[trigger] at_key(
                    final(self).invs(),
                    inv_key(),
                    k,
                ) == at_key(old(self).invs(), inv_key(), k),
            has_key(final(self).active(), aref_key(), r@),
            at_key(final(self).active(), aref_key(), r@) == (ActiveRefView {
                id: r@,
                timestamp: exchange_rates_timestamp,
            }),
            forall|k: Seq<u8>|
                k != r@ ==> #[trigger] has_key(final(self).active(), aref_key(), k) == has_key(
                    old(self).active(),
                    aref_key(),
                    k,
                ),
            forall|k: Seq<u8>|
                k != r@ && has_key(final(self).active(), aref_key(), k) ==> #[trigger] at_key(
                    final(self).active(),
                    aref_key(),
                    k,
                ) == at_key(old(self).active(), aref_key(), k),
            final(self).inactive() == old(self).inactive(),
            final(self).total_processed_in_usd == old(self).total_processed_in_usd,
    {
        let id = derive_invoice_id(&self.invoice_id_generator, timestamp);
        self.invoice_id_generator = id;
        let inv = Invoice {
            id,
            status: InvoiceStatus::Created { ttl: DEFAULT_TTL },
            creator: caller,
            qty_usd,
            created_at: timestamp,
            exchange_rates_timestamp,
            shop_id,
        };
        let ghost invs0 = self.invs();
        let ghost act0 = self.active();
        let ghost newv = inv@;
        proof {
            assert(!has_key(act0, aref_key(), id@)) by {
                if has_key(act0, aref_key(), id@) {
                    let c = choose|c: int| 0 <= c < act0.len() && act0[c].id == id@;
                    assert(has_key(invs0, inv_key(), act0[c].id));
                }
            }
            lemma_push_frame(invs0, inv_key(), newv);
        }
        self.all_invoices.push(inv);
        proof {
            assert(self.invs() =~= invs0.push(newv));
        }
        let aref = ActiveRef { id, timestamp: exchange_rates_timestamp };
        let ghost arefv = aref@;
        proof {
            lemma_push_frame(act0, aref_key(), arefv);
        }
        self.active_invoices.push(aref);
        proof {
            assert(self.active() =~= act0.push(arefv));
            assert(self.inactive() =~= old(self).inactive());
            lemma_at_index(self.invs(), inv_key(), invs0.len() as int);
            lemma_at_index(self.active(), aref_key(), act0.len() as int);
            assert_wf_after_create(old(self), self, newv, arefv);
        }
        id
    }

    /// Creates an invoice after checking that the derived id is indeed fresh;
    /// the check never fails in practice, the id being a cryptographic hash
    /// of a generator state that feeds forward.
    pub fn create_checked(
        &mut self,
        qty_usd: EDs,
        shop_id: ShopId,
        timestamp: Timestamp,
        exchange_rates_timestamp: Timestamp,
        caller: PrincipalData,
    ) -> (r: Result<InvoiceId, Error>)
        requires
            old(self).wf(),
            qty_usd.wf(),
            qty_usd@.scale == USD_DECIMALS as nat,
        ensures
            final(self).wf(),
            match r {
                Ok(id) => !has_key(
                    old(self).invs(),
                    inv_key(),
                    invoice_id_of(old(self).invoice_id_generator@, timestamp),
                ) && id@ == invoice_id_of(old(self).invoice_id_generator@, timestamp) && has_key(
                    final(self).invs(),
                    inv_key(),
                    id@,
                ) && at_key(final(self).invs(), inv_key(), id@) == (InvoiceView {
                    id: id@,
                    status: InvoiceStatusView::Created { ttl: DEFAULT_TTL },
                    creator: caller@,
                    qty_usd: qty_usd@,
                    created_at: timestamp,
                    exchange_rates_timestamp,
                    shop_id,
                }) && (forall|k: Seq<u8>|
                    k != id@ ==> #[trigger] has_key(final(self).invs(), inv_key(), k) == has_key(
                        old(self).invs(),
                        inv_key(),
                        k,
                    )) && (forall|k: Seq<u8>|
                    k != id@ && has_key(final(self).invs(), inv_key(), k) ==> #[trigger] at_key(
                        final(self).invs(),
                        inv_key(),
                        k,
                    ) == at_key(old(self).invs(), inv_key(), k)),
                Err(e) => e == Error::IdCollision && has_key(
                    old(self).invs(),
                    inv_key(),
                    invoice_id_of(old(self).invoice_id_generator@, timestamp),
                ) && *final(self) == *old(self),
            },
    {
        let id = derive_invoice_id(&self.invoice_id_generator, timestamp);
        if self.find_invoice(&id).is_some() {
            proof {
                let i = choose|i: int| 0 <= i < self.invs().len() && self.invs()[i].id == id@;
            }
            return Err(Error::IdCollision);
        }
        Ok(self.create(qty_usd, shop_id, timestamp, exchange_rates_timestamp, caller))
    }
}

/// The subaccount a transfer record names, with a missing subaccount read as
/// all zeroes.
pub open spec fn txn_subaccount(t: TransferTxnView) -> Seq<u8> {
    match t.to.subaccount {
        Some(s) => s,
        None => Seq::new(32, |i: int| 0u8),
    }
}

/// Whether the transferred quantity, valued at the locked rate and rescaled
/// to the transfer token's scale, covers the owed USD amount minus the 1%
/// tolerance.
pub open spec fn spec_amount_sufficient(
    rate: DecimalView,
    qty: DecimalView,
    qty_usd: DecimalView,
) -> bool {
    let rate_t = dec_rescale(rate, qty.scale);
    let exp = dec_rescale(qty_usd, qty.scale);
    let actual = dec_mul(rate_t, qty);
    actual.mag >= exp.mag - exp.mag / 100
}

/// The status an invoice settles into for a given transfer record.
pub open spec fn paid_status_of(
    t: TransferTxnView,
    rate: DecimalView,
    now: Timestamp,
) -> InvoiceStatusView {
    InvoiceStatusView::Paid {
        timestamp: now,
        token_id: t.token_id,
        qty: t.qty,
        exchange_rate: dec_rescale(rate, t.qty.scale),
    }
}

impl InvoicesState {
    /// Atomically locks an invoice for payment verification: the caller must
    /// be its creator and it must be in `Created` state.  Returns the locked
    /// exchange-rate timestamp and the ttl to restore should verification
    /// fail.  A second call for the same invoice observes `InvalidState`
    /// until the invoice is settled or restored: this is the mutual
    /// exclusion that makes concurrent duplicate verification impossible.
    pub fn lock_for_verification(&mut self, invoice_id: &InvoiceId, caller: &PrincipalData) -> (r:
        Result<(Timestamp, u8), Error>)
        requires
            old(self).wf(),
        ensures
            final(self).wf(),
            !has_key(old(self).invs(), inv_key(), invoice_id@) ==> r == Err::<(Timestamp, u8),
                Error,
            >(Error::NotFound) && *final(self) == *old(self),
            has_key(old(self).invs(), inv_key(), invoice_id@) ==> {
                let v0 = at_key(old(self).invs(), inv_key(), invoice_id@);
                &&& v0.creator != caller@ ==> r == Err::<(Timestamp, u8), Error>(
                    Error::AccessDenied,
                ) && *final(self) == *old(self)
                &&& v0.creator == caller@ && !(v0.status is Created) ==> r == Err::<(
                    Timestamp,
                    u8,
                ), Error>(Error::InvalidState) && *final(self) == *old(self)
                &&& v0.creator == caller@ ==> match v0.status {
                    InvoiceStatusView::Created { ttl } => {
                    &&& r == Ok::<(Timestamp, u8), Error>((v0.exchange_rates_timestamp, ttl))
                    &&& has_key(final(self).invs(), inv_key(), invoice_id@)
                    &&& at_key(final(self).invs(), inv_key(), invoice_id@) == (InvoiceView {
                        status: InvoiceStatusView::VerifyPayment,
                        ..v0
                    })
                    &&& forall|k: Seq<u8>|
                        k != invoice_id@ ==> #[trigger] has_key(final(self).invs(), inv_key(), k)
                            == has_key(old(self).invs(), inv_key(), k)
                    &&& forall|k: Seq<u8>|
                        k != invoice_id@ && has_key(final(self).invs(), inv_key(), k)
                            ==> #[trigger] at_key(final(self).invs(), inv_key(), k) == at_key(
                            old(self).invs(),
                            inv_key(),
                            k,
                        )
                    &&& final(self).active() == old(self).active()
                    &&& final(self).inactive() == old(self).inactive()
                    &&& final(self).invoice_id_generator == old(self).invoice_id_generator
                    &&& final(self).total_processed_in_usd == old(self).total_processed_in_usd
                    },
                    _ => true,
                }
            },
    {
        let i = match self.find_invoice(invoice_id) {
            Some(i) => i,
            None => {
                return Err(Error::NotFound);
            },
        };
        proof {
            lemma_at_index(self.invs(), inv_key(), i as int);
        }
        if !self.all_invoices[i].creator.eq_principal(caller) {
            return Err(Error::AccessDenied);
        }
        let ttl = match &self.all_invoices[i].status {
            InvoiceStatus::Created { ttl } => *ttl,
            _ => {
                return Err(Error::InvalidState);
            },
        };
        let ghost invs0 = self.invs();
        let ghost v0 = invs0[i as int];
        let inv = self.all_invoices.remove(i);
        proof {
            assert(self.invs() =~= invs0.remove(i as int));
            lemma_remove_frame(invs0, inv_key(), i as int);
        }
        let ghost mid = self.invs();
        let ts = inv.exchange_rates_timestamp;
        let inv2 = Invoice {
            id: inv.id,
            status: InvoiceStatus::VerifyPayment,
            creator: inv.creator,
            qty_usd: inv.qty_usd,
            created_at: inv.created_at,
            exchange_rates_timestamp: inv.exchange_rates_timestamp,
            shop_id: inv.shop_id,
        };
        let ghost v1 = inv2@;
        proof {
            lemma_push_frame(mid, inv_key(), v1);
        }
        self.all_invoices.push(inv2);
        proof {
            assert(self.invs() =~= mid.push(v1));
            lemma_at_index(self.invs(), inv_key(), mid.len() as int);
            assert(self.active() =~= old(self).active());
            assert(self.inactive() =~= old(self).inactive());
            assert(v1 == (InvoiceView { status: InvoiceStatusView::VerifyPayment, ..v0 }));
            assert_wf_after_restatus(old(self), self, v0, v1);
        }
        Ok((ts, ttl))
    }

    /// Restores an invoice from the verification lock back to `Created` with
    /// the given ttl: the explicit failure path after an unsuccessful
    /// verification attempt.
    pub fn restore_invoice(&mut self, invoice_id: &InvoiceId, ttl: u8) -> (r: Result<(), Error>)
        requires
            old(self).wf(),
        ensures
            final(self).wf(),
            !has_key(old(self).invs(), inv_key(), invoice_id@) ==> r == Err::<(), Error>(
                Error::NotFound,
            ) && *final(self) == *old(self),
            has_key(old(self).invs(), inv_key(), invoice_id@) ==> {
                let v0 = at_key(old(self).invs(), inv_key(), invoice_id@);
                &&& !(v0.status is VerifyPayment) ==> r == Err::<(), Error>(Error::InvalidState)
                    && *final(self) == *old(self)
                &&& v0.status is VerifyPayment ==> {
                    &&& r == Ok::<(), Error>(())
                    &&& has_key(final(self).invs(), inv_key(), invoice_id@)
                    &&& at_key(final(self).invs(), inv_key(), invoice_id@) == (InvoiceView {
                        status: InvoiceStatusView::Created { ttl },
                        ..v0
                    })
                    &&& forall|k: Seq<u8>|
                        k != invoice_id@ ==> #[trigger] has_key(final(self).invs(), inv_key(), k)
                            == has_key(old(self).invs(), inv_key(), k)
                    &&& forall|k: Seq<u8>|
                        k != invoice_id@ && has_key(final(self).invs(), inv_key(), k)
                            ==> #[trigger] at_key(final(self).invs(), inv_key(), k) == at_key(
                            old(self).invs(),
                            inv_key(),
                            k,
                        )
                    &&& final(self).active() == old(self).active()
                    &&& final(self).inactive() == old(self).inactive()
                    &&& final(self).invoice_id_generator == old(self).invoice_id_generator
                    &&& final(self).total_processed_in_usd == old(self).total_processed_in_usd
                }
            },
    {
        let i = match self.find_invoice(invoice_id) {
            Some(i) => i,
            None => {
                return Err(Error::NotFound);
            },
        };
        proof {
            lemma_at_index(self.invs(), inv_key(), i as int);
        }
        match &self.all_invoices[i].status {
            InvoiceStatus::VerifyPayment => {},
            _ => {
                return Err(Error::InvalidState);
            },
        }
        let ghost invs0 = self.invs();
        let ghost v0 = invs0[i as int];
        let inv = self.all_invoices.remove(i);
        proof {
            assert(self.invs() =~= invs0.remove(i as int));
            lemma_remove_frame(invs0, inv_key(), i as int);
        }
        let ghost mid = self.invs();
        let inv2 = Invoice {
            id: inv.id,
            status: InvoiceStatus::Created { ttl },
            creator: inv.creator,
            qty_usd: inv.qty_usd,
            created_at: inv.created_at,
            exchange_rates_timestamp: inv.exchange_rates_timestamp,
            shop_id: inv.shop_id,
        };
        let ghost v1 = inv2@;
        proof {
            lemma_push_frame(mid, inv_key(), v1);
        }
        self.all_invoices.push(inv2);
        proof {
            assert(self.invs() =~= mid.push(v1));
            lemma_at_index(self.invs(), inv_key(), mid.len() as int);
            assert(self.active() =~= old(self).active());
            assert(self.inactive() =~= old(self).inactive());
            assert(v1 == (InvoiceView { status: InvoiceStatusView::Created { ttl }, ..v0 }));
            assert_wf_after_restatus(old(self), self, v0, v1);
        }
        Ok(())
    }
}

impl InvoicesState {
    /// Validates an external transfer record against a locked invoice and
    /// settles it.  The invoice must be under the verification lock.  The
    /// checks run in order and fail fast: the recipient principal must be
    /// this hub (else the funds are unrecoverable), the recipient subaccount
    /// must be the shop's derived subaccount, the memo must be the invoice's
    /// derived memo, and the transferred quantity valued at the locked rate
    /// must cover the owed USD amount minus the 1% rounding tolerance.  On
    /// success the invoice becomes `Paid`, leaves the active index and joins
    /// the inactive list; the returned flag says whether the active index is
    /// now empty, the signal that snapshot cleanup may be possible.
    pub fn verify_payment(
        &mut self,
        invoice_id: &InvoiceId,
        transfer_txn: TransferTxn,
        exchange_rate: EDs,
        this_canister_id: &PrincipalData,
        now: Timestamp,
    ) -> (r: Result<(Invoice, bool), Error>)
        requires
            old(self).wf(),
            transfer_txn.wf(),
            exchange_rate.wf(),
            exchange_rate@.scale == USD_DECIMALS as nat,
        ensures
            final(self).wf(),
            !has_key(old(self).invs(), inv_key(), invoice_id@) ==> (r matches Err(e) && e
                == Error::NotFound && *final(self) == *old(self)),
            has_key(old(self).invs(), inv_key(), invoice_id@) ==> {
                let v0 = at_key(old(self).invs(), inv_key(), invoice_id@);
                &&& !(v0.status is VerifyPayment) ==> (r matches Err(e) && e == Error::InvalidState
                    && *final(self) == *old(self))
                &&& v0.status is VerifyPayment ==> {
                    &&& transfer_txn@.to.owner != this_canister_id@ ==> (r matches Err(e) && e
                        == Error::FundsAtRisk && *final(self) == *old(self))
                    &&& transfer_txn@.to.owner == this_canister_id@ && txn_subaccount(
                        transfer_txn@,
                    ) != shop_subaccount_of(v0.shop_id) ==> (r matches Err(e) && e
                        == Error::ValidationFailed(ValidationReason::SubaccountMismatch)
                        && *final(self) == *old(self))
                    &&& transfer_txn@.to.owner == this_canister_id@ && txn_subaccount(
                        transfer_txn@,
                    ) == shop_subaccount_of(v0.shop_id) && transfer_txn@.memo != invoice_memo_of(
                        v0.id,
                    ) ==> (r matches Err(e) && e == Error::ValidationFailed(
                        ValidationReason::MemoMismatch,
                    ) && *final(self) == *old(self))
                    &&& transfer_txn@.to.owner == this_canister_id@ && txn_subaccount(
                        transfer_txn@,
                    ) == shop_subaccount_of(v0.shop_id) && transfer_txn@.memo == invoice_memo_of(
                        v0.id,
                    ) && !spec_amount_sufficient(exchange_rate@, transfer_txn@.qty, v0.qty_usd)
                        ==> (r matches Err(e) && e == Error::ValidationFailed(
                        ValidationReason::InsufficientAmount,
                    ) && *final(self) == *old(self))
                    &&& transfer_txn@.to.owner == this_canister_id@ && txn_subaccount(
                        transfer_txn@,
                    ) == shop_subaccount_of(v0.shop_id) && transfer_txn@.memo == invoice_memo_of(
                        v0.id,
                    ) && spec_amount_sufficient(exchange_rate@, transfer_txn@.qty, v0.qty_usd)
                        ==> {
                        let v1 = InvoiceView {
                            status: paid_status_of(transfer_txn@, exchange_rate@, now),
                            ..v0
                        };
                        &&& r matches Ok((inv, empty)) && inv@ == v1 && empty == (final(
                            self).active().len() == 0)
                        &&& has_key(final(self).invs(), inv_key(), invoice_id@)
                        &&& at_key(final(self).invs(), inv_key(), invoice_id@) == v1
                        &&& forall|k: Seq<u8>|
                            k != invoice_id@ ==> #[trigger] has_key(
                                final(self).invs(),
                                inv_key(),
                                k,
                            ) == has_key(old(self).invs(), inv_key(), k)
                        &&& forall|k: Seq<u8>|
                            k != invoice_id@ && has_key(final(self).invs(), inv_key(), k)
                                ==> #[trigger] at_key(final(self).invs(), inv_key(), k) == at_key(
                                old(self).invs(),
                                inv_key(),
                                k,
                            )
                        &&& !has_key(final(self).active(), aref_key(), invoice_id@)
                        &&& forall|k: Seq<u8>|
                            k != invoice_id@ ==> #[trigger] has_key(
                                final(self).active(),
                                aref_key(),
                                k,
                            ) == has_key(old(self).active(), aref_key(), k)
                        &&& forall|k: Seq<u8>|
                            k != invoice_id@ && has_key(final(self).active(), aref_key(), k)
                                ==> #[trigger] at_key(final(self).active(), aref_key(), k)
                                == at_key(old(self).active(), aref_key(), k)
                        &&& final(self).inactive() == old(self).inactive().push(invoice_id@)
                        &&& final(self).invoice_id_generator == old(self).invoice_id_generator
                        &&& final(self).total_processed_in_usd == old(
                            self).total_processed_in_usd
                    }
                }
            },
    {
        let i = match self.find_invoice(invoice_id) {
            Some(i) => i,
            None => {
                return Err(Error::NotFound);
            },
        };
        proof {
            lemma_at_index(self.invs(), inv_key(), i as int);
        }
        match &self.all_invoices[i].status {
            InvoiceStatus::VerifyPayment => {},
            _ => {
                return Err(Error::InvalidState);
            },
        }
        if !transfer_txn.to.owner.eq_principal(this_canister_id) {
            return Err(Error::FundsAtRisk);
        }
        let shop_id = self.all_invoices[i].shop_id;
        let expected_subaccount = calc_shop_subaccount(shop_id);
        let actual_subaccount: [u8; 32] = match &transfer_txn.to.subaccount {
            Some(s) => *s,
            None => [0u8; 32],
        };
        proof {
            assert(actual_subaccount@ =~= txn_subaccount(transfer_txn@));
        }
        if !bytes32_eq(&actual_subaccount, &expected_subaccount) {
            return Err(Error::ValidationFailed(ValidationReason::SubaccountMismatch));
        }
        let expected_memo = make_invoice_memo(&self.all_invoices[i].id);
        if !bytes32_eq(&transfer_txn.memo, &expected_memo) {
            return Err(Error::ValidationFailed(ValidationReason::MemoMismatch));
        }
        let qty_decimals = transfer_txn.qty.decimals;
        let rate_t = match exchange_rate.to_decimals(qty_decimals) {
            Ok(v) => v,
            Err(_) => {
                proof {
                    assert(false);
                }
                return Err(Error::InvalidState);
            },
        };
        let expected_qty = match self.all_invoices[i].qty_usd.to_decimals(qty_decimals) {
            Ok(v) => v,
            Err(_) => {
                proof {
                    assert(false);
                }
                return Err(Error::InvalidState);
            },
        };
        let actual_qty = match rate_t.mul(&transfer_txn.qty) {
            Ok(v) => v,
            Err(_) => {
                proof {
                    assert(false);
                }
                return Err(Error::InvalidState);
            },
        };
        let der = expected_qty.div_u64(100);
        proof {
            vstd::arithmetic::div_mod::lemma_div_nonincreasing(
                expected_qty@.mag as int,
                100,
            );
        }
        let min_qty = match expected_qty.sub(&der) {
            Ok(v) => v,
            Err(_) => {
                proof {
                    assert(false);
                }
                return Err(Error::InvalidState);
            },
        };
        if actual_qty.lt(&min_qty) {
            return Err(Error::ValidationFailed(ValidationReason::InsufficientAmount));
        }
        // All checks pass: settle.
        let ghost invs0 = self.invs();
        let ghost act0 = self.active();
        let ghost ina0 = self.inactive();
        let ghost v0 = invs0[i as int];
        let inv = self.all_invoices.remove(i);
        proof {
            assert(self.invs() =~= invs0.remove(i as int));
            lemma_remove_frame(invs0, inv_key(), i as int);
        }
        let ghost mid = self.invs();
        let inv2 = Invoice {
            id: inv.id,
            status: InvoiceStatus::Paid {
                timestamp: now,
                token_id: transfer_txn.token_id,
                qty: transfer_txn.qty,
                exchange_rate: rate_t,
            },
            creator: inv.creator,
            qty_usd: inv.qty_usd,
            created_at: inv.created_at,
            exchange_rates_timestamp: inv.exchange_rates_timestamp,
            shop_id: inv.shop_id,
        };
        let out = inv2.duplicate();
        let ghost v1 = inv2@;
        proof {
            lemma_push_frame(mid, inv_key(), v1);
        }
        self.all_invoices.push(inv2);
        proof {
            assert(self.invs() =~= mid.push(v1));
            lemma_at_index(self.invs(), inv_key(), mid.len() as int);
        }
        let j = match self.find_active(invoice_id) {
            Some(j) => j,
            None => {
                proof {
                    assert(is_active_status(v0.status));
                    let c = choose|c: int| 0 <= c < invs0.len() && invs0[c].id == v0.id;
                    assert(false);
                }
                return Err(Error::InvalidState);
            },
        };
        self.active_invoices.remove(j);
        proof {
            assert(self.active() =~= act0.remove(j as int));
            lemma_remove_frame(act0, aref_key(), j as int);
        }
        proof {
            assert(!has_key(ina0, raw_key(), v0.id)) by {
                if has_key(ina0, raw_key(), v0.id) {
                    let c = choose|c: int| 0 <= c < ina0.len() && ina0[c] == v0.id;
                }
            }
            lemma_push_frame(ina0, raw_key(), v0.id);
        }
        self.inactive_invoices.push(*invoice_id);
        proof {
            assert(self.inactive() =~= ina0.push(v0.id));
            assert_wf_after_settle(old(self), self, v0, v1);
        }
        let empty = self.active_invoices.len() == 0;
        Ok((out, empty))
    }
}

/// Whether one sweep pass discards this invoice: it is `Created` and its ttl
/// has already reached the floor.
pub open spec fn sweep_doomed(v: InvoiceView) -> bool {
    match v.status {
        InvoiceStatusView::Created { ttl } => ttl <= RECYCLING_TTL,
        _ => false,
    }
}

/// What one sweep pass leaves of a surviving invoice: a `Created` invoice
/// loses one ttl unit, any other is untouched.
pub open spec fn sweep_inv(v: InvoiceView) -> InvoiceView {
    match v.status {
        InvoiceStatusView::Created { ttl } => if ttl > RECYCLING_TTL {
            InvoiceView { status: InvoiceStatusView::Created { ttl: (ttl - 1) as u8 }, ..v }
        } else {
            v
        },
        _ => v,
    }
}

impl InvoicesState {
    /// One expiry sweep: every `Created` invoice in the active index loses
    /// one ttl unit; those already at the floor are discarded outright (no
    /// settlement happened, so they are dropped, not archived).  Invoices
    /// under the verification lock are left untouched.
    pub fn sweep_expired(&mut self)
        requires
            old(self).wf(),
        ensures
            final(self).wf(),
            forall|k: Seq<u8>|
                #[trigger] has_key(final(self).invs(), inv_key(), k) == (has_key(
                    old(self).invs(),
                    inv_key(),
                    k,
                ) && !(has_key(old(self).active(), aref_key(), k) && sweep_doomed(
                    at_key(old(self).invs(), inv_key(), k),
                ))),
            forall|k: Seq<u8>|
                has_key(final(self).invs(), inv_key(), k) ==> #[trigger] at_key(
                    final(self).invs(),
                    inv_key(),
                    k,
                ) == if has_key(old(self).active(), aref_key(), k) {
                    sweep_inv(at_key(old(self).invs(), inv_key(), k))
                } else {
                    at_key(old(self).invs(), inv_key(), k)
                },
            forall|k: Seq<u8>|
                #[trigger] has_key(final(self).active(), aref_key(), k) == (has_key(
                    old(self).active(),
                    aref_key(),
                    k,
                ) && !sweep_doomed(at_key(old(self).invs(), inv_key(), k))),
            forall|k: Seq<u8>|
                has_key(final(self).active(), aref_key(), k) ==> #[trigger] at_key(
                    final(self).active(),
                    aref_key(),
                    k,
                ) == at_key(old(self).active(), aref_key(), k),
            final(self).inactive() == old(self).inactive(),
            final(self).invoice_id_generator == old(self).invoice_id_generator,
            final(self).total_processed_in_usd == old(self).total_processed_in_usd,
    {
        let ghost invs0 = self.invs();
        let ghost act0 = self.active();
        let mut kept: Vec<ActiveRef> = Vec::new();
        let ghost mut p: int = 0;
        let ghost mut keptv: Seq<ActiveRefView> = Seq::empty();
        proof {
            assert(self.active() =~= act0.skip(0));
            assert(act0.take(0) =~= Seq::<ActiveRefView>::empty());
        }
        while self.active_invoices.len() > 0
            invariant
                0 <= p <= act0.len(),
                self.active() =~= act0.skip(p),
                unique_keys(act0, aref_key()),
                unique_keys(invs0, inv_key()),
                old(self).wf(),
                invs0 == old(self).invs(),
                act0 == old(self).active(),
                self.inactive_invoices == old(self).inactive_invoices,
                self.invoice_id_generator == old(self).invoice_id_generator,
                self.total_processed_in_usd == old(self).total_processed_in_usd,
                unique_keys(self.invs(), inv_key()),
                keptv =~= Seq::new(kept@.len(), |i: int| kept@[i]@),
                unique_keys(keptv, aref_key()),
                forall|k: Seq<u8>|
                    #[trigger] has_key(self.invs(), inv_key(), k) == (has_key(invs0, inv_key(), k)
                        && !(has_key(act0.take(p), aref_key(), k) && sweep_doomed(
                        at_key(invs0, inv_key(), k),
                    ))),
                forall|k: Seq<u8>|
                    has_key(self.invs(), inv_key(), k) ==> #[trigger] at_key(
                        self.invs(),
                        inv_key(),
                        k,
                    ) == if has_key(act0.take(p), aref_key(), k) {
                        sweep_inv(at_key(invs0, inv_key(), k))
                    } else {
                        at_key(invs0, inv_key(), k)
                    },
                forall|k: Seq<u8>|
                    #[trigger] has_key(keptv, aref_key(), k) == (has_key(
                        act0.take(p),
                        aref_key(),
                        k,
                    ) && !sweep_doomed(at_key(invs0, inv_key(), k))),
                forall|k: Seq<u8>|
                    has_key(keptv, aref_key(), k) ==> #[trigger] at_key(keptv, aref_key(), k)
                        == at_key(act0, aref_key(), k),
            decreases self.active_invoices@.len(),
        {
            let ghost keptv0 = keptv;
            let ghost act_pre = self.active();
            let ghost vec_pre = self.active_invoices@;
            let e = self.active_invoices.remove(0);
            let ghost ev = e@;
            proof {
                assert(act_pre == act0.skip(p));
                assert(vec_pre.len() > 0);
                assert(act_pre.len() == vec_pre.len());
                assert(act0.skip(p).len() == act0.len() - p);
                assert(p < act0.len());
                assert(act_pre[0] == vec_pre[0]@);
                assert(ev == act0.skip(p)[0]);
                assert(act0.skip(p)[0] == act0[p]);
                assert(ev == act0[p]);
                assert forall|x: int| 0 <= x < self.active().len() implies self.active()[x]
                    == act0.skip(p + 1)[x] by {
                    assert(self.active_invoices@[x] == vec_pre[x + 1]);
                    assert(self.active()[x] == act_pre[x + 1]);
                    assert(act_pre[x + 1] == act0[p + 1 + x]);
                }
                assert(self.active() =~= act0.skip(p + 1));
                assert(act0.take(p + 1) =~= act0.take(p).push(ev));
                assert(unique_keys(act0.take(p), aref_key())) by {
                    assert forall|a: int, b: int|
                        0 <= a < b < act0.take(p).len() implies aref_key()(act0.take(p)[a])
                        != aref_key()(act0.take(p)[b]) by {
                        assert(act0.take(p)[a] == act0[a]);
                        assert(act0.take(p)[b] == act0[b]);
                    }
                }
                assert(!has_key(act0.take(p), aref_key(), ev.id)) by {
                    if has_key(act0.take(p), aref_key(), ev.id) {
                        let c = choose|c: int|
                            0 <= c < act0.take(p).len() && act0.take(p)[c].id == ev.id;
                        assert(act0[c].id == act0[p].id);
                    }
                }
                lemma_push_frame(act0.take(p), aref_key(), ev);
                // The entry's invoice is still present and untouched.
                lemma_at_index(act0, aref_key(), p);
                assert(has_key(invs0, inv_key(), ev.id));
                assert(at_key(act0, aref_key(), ev.id) == ev);
                assert(has_key(self.invs(), inv_key(), ev.id));
                assert(at_key(self.invs(), inv_key(), ev.id) == at_key(invs0, inv_key(), ev.id));
            }
            let i = match self.find_invoice(&e.id) {
                Some(i) => i,
                None => {
                    proof {
                        assert(false);
                    }
                    return ;
                },
            };
            proof {
                lemma_at_index(self.invs(), inv_key(), i as int);
            }
            let ghost v0 = at_key(invs0, inv_key(), ev.id);
            match &self.all_invoices[i].status {
                InvoiceStatus::Created { ttl } => {
                    let t = *ttl;
                    let ghost invs_pre = self.invs();
                    let inv = self.all_invoices.remove(i);
                    proof {
                        assert(self.invs() =~= invs_pre.remove(i as int));
                        lemma_remove_frame(invs_pre, inv_key(), i as int);
                    }
                    if t > RECYCLING_TTL {
                        let ghost mid = self.invs();
                        let inv2 = Invoice {
                            id: inv.id,
                            status: InvoiceStatus::Created { ttl: t - 1 },
                            creator: inv.creator,
                            qty_usd: inv.qty_usd,
                            created_at: inv.created_at,
                            exchange_rates_timestamp: inv.exchange_rates_timestamp,
                            shop_id: inv.shop_id,
                        };
                        let ghost v1 = inv2@;
                        proof {
                            lemma_push_frame(mid, inv_key(), v1);
                        }
                        self.all_invoices.push(inv2);
                        proof {
                            assert(self.invs() =~= mid.push(v1));
                            lemma_at_index(self.invs(), inv_key(), mid.len() as int);
                            assert(v1 == sweep_inv(v0));
                            assert(!sweep_doomed(v0));
                            lemma_push_frame(keptv0, aref_key(), ev);
                        }
                        kept.push(e);
                        proof {
                            keptv = keptv0.push(ev);
                            assert(keptv =~= Seq::new(kept@.len(), |x: int| kept@[x]@));
                        }
                    } else {
                        proof {
                            assert(sweep_doomed(v0));
                        }
                    }
                },
                InvoiceStatus::VerifyPayment => {
                    proof {
                        assert(!sweep_doomed(v0));
                        assert(sweep_inv(v0) == v0);
                        lemma_push_frame(keptv0, aref_key(), ev);
                    }
                    kept.push(e);
                    proof {
                        keptv = keptv0.push(ev);
                        assert(keptv =~= Seq::new(kept@.len(), |x: int| kept@[x]@));
                    }
                },
                InvoiceStatus::Paid { .. } => {
                    proof {
                        assert(is_active_status(v0.status));
                        assert(false);
                    }
                    return ;
                },
            }
            proof {
                p = p + 1;
            }
        }
        proof {
            assert(act0.take(p) =~= act0);
        }
        self.active_invoices = kept;
        proof {
            assert(self.active() =~= keptv);
            assert(self.inactive() =~= old(self).inactive());
            assert_wf_after_sweep(old(self), self);
        }
    }
}

impl InvoicesState {
    /// Pops up to `size` settled invoices off the inactive list, removing
    /// them from the table, for handoff to the archive service.  Should the
    /// handoff fail, `reapply_archive_batch` undoes the pop, so no invoice is
    /// lost to a transient failure.
    pub fn prepare_archive_batch(&mut self, size: usize) -> (r: Vec<Invoice>)
        requires
            old(self).wf(),
        ensures
            final(self).wf(),
            r@.len() == vstd::math::min(size as int, old(self).inactive().len() as int),
            forall|j: int|
                0 <= j < r@.len() ==> (#[trigger] r@[j])@ == at_key(
                    old(self).invs(),
                    inv_key(),
                    old(self).inactive()[j],
                ) && r@[j]@.id == old(self).inactive()[j],
            final(self).inactive() == old(self).inactive().skip(r@.len() as int),
            forall|k: Seq<u8>|
                #[trigger] has_key(final(self).invs(), inv_key(), k) == (has_key(
                    old(self).invs(),
                    inv_key(),
                    k,
                ) && !old(self).inactive().take(r@.len() as int).contains(k)),
            forall|k: Seq<u8>|
                has_key(final(self).invs(), inv_key(), k) ==> #[trigger] at_key(
                    final(self).invs(),
                    inv_key(),
                    k,
                ) == at_key(old(self).invs(), inv_key(), k),
            final(self).active() == old(self).active(),
            final(self).invoice_id_generator == old(self).invoice_id_generator,
            final(self).total_processed_in_usd == old(self).total_processed_in_usd,
    {
        let ghost invs0 = self.invs();
        let ghost ina0 = self.inactive();
        let mut batch: Vec<Invoice> = Vec::new();
        let ghost mut q: int = 0;
        proof {
            assert(self.inactive() =~= ina0.skip(0));
            assert(ina0.take(0) =~= Seq::<Seq<u8>>::empty());
        }
        while batch.len() < size && self.inactive_invoices.len() > 0
            invariant
                0 <= q <= ina0.len(),
                q <= size,
                q == batch@.len(),
                self.inactive() =~= ina0.skip(q),
                old(self).wf(),
                invs0 == old(self).invs(),
                ina0 == old(self).inactive(),
                self.active_invoices == old(self).active_invoices,
                self.invoice_id_generator == old(self).invoice_id_generator,
                self.total_processed_in_usd == old(self).total_processed_in_usd,
                unique_keys(self.invs(), inv_key()),
                forall|j: int|
                    0 <= j < q ==> (#[trigger] batch@[j])@ == at_key(invs0, inv_key(), ina0[j])
                        && batch@[j]@.id == ina0[j],
                forall|k: Seq<u8>|
                    #[trigger] has_key(self.invs(), inv_key(), k) == (has_key(invs0, inv_key(), k)
                        && !ina0.take(q).contains(k)),
                forall|k: Seq<u8>|
                    has_key(self.invs(), inv_key(), k) ==> #[trigger] at_key(
                        self.invs(),
                        inv_key(),
                        k,
                    ) == at_key(invs0, inv_key(), k),
            decreases self.inactive_invoices@.len(),
        {
            let ghost ina_pre = self.inactive();
            let ghost vec_pre = self.inactive_invoices@;
            let id = self.inactive_invoices.remove(0);
            proof {
                assert(ina_pre == ina0.skip(q));
                assert(vec_pre.len() > 0);
                assert(ina_pre.len() == vec_pre.len());
                assert(ina0.skip(q).len() == ina0.len() - q);
                assert(q < ina0.len());
                assert(ina_pre[0] == vec_pre[0]@);
                assert(id@ == ina0[q]);
                assert forall|x: int| 0 <= x < self.inactive().len() implies self.inactive()[x]
                    == ina0.skip(q + 1)[x] by {
                    assert(self.inactive_invoices@[x] == vec_pre[x + 1]);
                    assert(self.inactive()[x] == ina_pre[x + 1]);
                    assert(ina_pre[x + 1] == ina0[q + 1 + x]);
                }
                assert(self.inactive() =~= ina0.skip(q + 1));
                assert(ina0.take(q + 1) =~= ina0.take(q).push(id@));
                assert(!ina0.take(q).contains(id@)) by {
                    if ina0.take(q).contains(id@) {
                        let c = choose|c: int| 0 <= c < ina0.take(q).len() && ina0.take(q)[c]
                            == id@;
                        assert(ina0[c] == ina0[q]);
                        assert(raw_key()(ina0[c]) == raw_key()(ina0[q]));
                    }
                }
                // The settled invoice is still in the table.
                lemma_at_index(ina0, raw_key(), q);
                assert(has_key(invs0, inv_key(), ina0[q]));
                assert(has_key(self.invs(), inv_key(), id@));
            }
            let i = match self.find_invoice(&id) {
                Some(i) => i,
                None => {
                    proof {
                        assert(false);
                    }
                    return batch;
                },
            };
            proof {
                lemma_at_index(self.invs(), inv_key(), i as int);
            }
            let ghost invs_pre = self.invs();
            let inv = self.all_invoices.remove(i);
            proof {
                assert(self.invs() =~= invs_pre.remove(i as int));
                lemma_remove_frame(invs_pre, inv_key(), i as int);
                assert(inv@ == at_key(invs_pre, inv_key(), id@));
                assert(inv@ == at_key(invs0, inv_key(), ina0[q]));
            }
            batch.push(inv);
            proof {
                q = q + 1;
                assert forall|k: Seq<u8>| #[trigger]
                    has_key(self.invs(), inv_key(), k) == (has_key(invs0, inv_key(), k)
                        && !ina0.take(q).contains(k)) by {
                    if k == id@ {
                        assert(!has_key(self.invs(), inv_key(), k));
                        assert(ina0.take(q).contains(k)) by {
                            assert(ina0.take(q)[q - 1] == id@);
                        }
                    } else {
                        let tq = ina0.take(q);
                        let tp = ina0.take(q - 1);
                        assert(tq.contains(k) == tp.contains(k)) by {
                            if tq.contains(k) {
                                let c = choose|c: int| 0 <= c < tq.len() && tq[c] == k;
                                assert(c < q - 1 || tq[c] == id@);
                                if c < q - 1 {
                                    assert(tp[c] == k);
                                }
                            }
                            if tp.contains(k) {
                                let c = choose|c: int| 0 <= c < tp.len() && tp[c] == k;
                                assert(tq[c] == k);
                            }
                        }
                    }
                }
            }
        }
        proof {
            assert(q == vstd::math::min(size as int, ina0.len() as int)) by {
                if q < size {
                    assert(self.inactive_invoices@.len() == 0);
                    assert(ina0.skip(q).len() == 0);
                }
            }
            assert_wf_after_prepare(old(self), self, q);
        }
        batch
    }

    /// Reinserts a batch taken by `prepare_archive_batch`: each invoice
    /// returns to the table and its id to the inactive list.
    pub fn reapply_archive_batch(&mut self, batch: Vec<Invoice>)
        requires
            old(self).wf(),
            forall|a: int, b: int|
                0 <= a < b < batch@.len() ==> (#[trigger] batch@[a])@.id != (
                #[trigger] batch@[b])@.id,
            forall|j: int|
                0 <= j < batch@.len() ==> (#[trigger] batch@[j])@.status is Paid
                    && invoice_scales_wf(batch@[j]@) && !has_key(
                    old(self).invs(),
                    inv_key(),
                    batch@[j]@.id,
                ),
        ensures
            final(self).wf(),
            forall|k: Seq<u8>|
                #[trigger] has_key(final(self).invs(), inv_key(), k) == (has_key(
                    old(self).invs(),
                    inv_key(),
                    k,
                ) || (exists|j: int| 0 <= j < batch@.len() && (#[trigger] batch@[j])@.id == k)),
            forall|j: int|
                0 <= j < batch@.len() ==> at_key(
                    final(self).invs(),
                    inv_key(),
                    (#[trigger] batch@[j])@.id,
                ) == batch@[j]@,
            forall|k: Seq<u8>|
                has_key(old(self).invs(), inv_key(), k) ==> #[trigger] at_key(
                    final(self).invs(),
                    inv_key(),
                    k,
                ) == at_key(old(self).invs(), inv_key(), k),
            final(self).inactive() == old(self).inactive() + Seq::new(
                batch@.len(),
                |j: int| batch@[j]@.id,
            ),
            final(self).active() == old(self).active(),
            final(self).invoice_id_generator == old(self).invoice_id_generator,
            final(self).total_processed_in_usd == old(self).total_processed_in_usd,
    {
        let ghost invs0 = self.invs();
        let ghost ina0 = self.inactive();
        let ghost bv = Seq::new(batch@.len(), |j: int| batch@[j]@);
        let mut rest = batch;
        let ghost mut q: int = 0;
        proof {
            assert(self.inactive() =~= ina0 + Seq::new(bv.take(0).len(), |j: int| bv.take(0)[j].id));
        }
        while rest.len() > 0
            invariant
                0 <= q <= bv.len(),
                bv.len() - q == rest@.len(),
                forall|x: int| 0 <= x < rest@.len() ==> (#[trigger] rest@[x])@ == bv[q + x],
                forall|a: int, b: int|
                    0 <= a < b < bv.len() ==> (#[trigger] bv[a]).id != (#[trigger] bv[b]).id,
                forall|j: int|
                    0 <= j < bv.len() ==> (#[trigger] bv[j]).status is Paid && invoice_scales_wf(
                        bv[j],
                    ) && !has_key(invs0, inv_key(), bv[j].id),
                old(self).wf(),
                invs0 == old(self).invs(),
                ina0 == old(self).inactive(),
                self.active_invoices == old(self).active_invoices,
                self.invoice_id_generator == old(self).invoice_id_generator,
                self.total_processed_in_usd == old(self).total_processed_in_usd,
                unique_keys(self.invs(), inv_key()),
                self.inactive() =~= ina0 + Seq::new(q as nat, |j: int| bv[j].id),
                forall|k: Seq<u8>|
                    #[trigger] has_key(self.invs(), inv_key(), k) == (has_key(invs0, inv_key(), k)
                        || (exists|j: int| 0 <= j < q && (#[trigger] bv[j]).id == k)),
                forall|j: int|
                    0 <= j < q ==> at_key(self.invs(), inv_key(), (#[trigger] bv[j]).id) == bv[j],
                forall|k: Seq<u8>|
                    has_key(invs0, inv_key(), k) ==> #[trigger] at_key(self.invs(), inv_key(), k)
                        == at_key(invs0, inv_key(), k),
            decreases rest@.len(),
        {
            let ghost rest_pre = rest@;
            let inv = rest.remove(0);
            let ghost v = inv@;
            proof {
                assert(v == bv[q]);
                assert forall|x: int| 0 <= x < rest@.len() implies (#[trigger] rest@[x])@ == bv[
                    q + 1 + x
                ] by {
                    assert(rest@[x] == rest_pre[x + 1]);
                }
                assert(!has_key(self.invs(), inv_key(), v.id)) by {
                    if has_key(self.invs(), inv_key(), v.id) {
                        if exists|j: int| 0 <= j < q && (#[trigger] bv[j]).id == v.id {
                            let j = choose|j: int| 0 <= j < q && (#[trigger] bv[j]).id == v.id;
                        }
                    }
                }
            }
            let ghost invs_pre = self.invs();
            let ghost ina_pre = self.inactive();
            proof {
                lemma_push_frame(invs_pre, inv_key(), v);
                assert(!has_key(ina_pre, raw_key(), v.id)) by {
                    if has_key(ina_pre, raw_key(), v.id) {
                        let c = choose|c: int| 0 <= c < ina_pre.len() && ina_pre[c] == v.id;
                        if c < ina0.len() {
                            assert(ina0[c] == v.id);
                            assert(has_key(invs0, inv_key(), ina0[c]));
                        } else {
                            assert(ina_pre[c] == bv[c - ina0.len()].id);
                        }
                    }
                }
                lemma_push_frame(ina_pre, raw_key(), v.id);
            }
            self.inactive_invoices.push(inv.id);
            self.all_invoices.push(inv);
            proof {
                assert(self.invs() =~= invs_pre.push(v));
                assert(self.inactive() =~= ina_pre.push(v.id));
                lemma_at_index(self.invs(), inv_key(), invs_pre.len() as int);
                q = q + 1;
                assert(self.inactive() =~= ina0 + Seq::new(q as nat, |j: int| bv[j].id));
                assert forall|j: int| 0 <= j < q implies at_key(
                    self.invs(),
                    inv_key(),
                    (#[trigger] bv[j]).id,
                ) == bv[j] by {
                    if j < q - 1 {
                        assert(bv[j].id != v.id);
                    }
                }
            }
        }
        proof {
            assert(bv.len() == q);
            assert(self.inactive() =~= ina0 + Seq::new(batch@.len(), |j: int| batch@[j]@.id));
            assert forall|k: Seq<u8>| #[trigger]
                has_key(self.invs(), inv_key(), k) == (has_key(invs0, inv_key(), k) || (
                exists|j: int| 0 <= j < batch@.len() && (#[trigger] batch@[j])@.id == k)) by {
                if exists|j: int| 0 <= j < bv.len() && (#[trigger] bv[j]).id == k {
                    let j = choose|j: int| 0 <= j < bv.len() && (#[trigger] bv[j]).id == k;
                    assert((batch@[j])@.id == k);
                }
                if exists|j: int| 0 <= j < batch@.len() && (#[trigger] batch@[j])@.id == k {
                    let j = choose|j: int|
                        0 <= j < batch@.len() && (#[trigger] batch@[j])@.id == k;
                    assert(bv[j].id == k);
                }
            }
            assert forall|j: int| 0 <= j < batch@.len() implies at_key(
                self.invs(),
                inv_key(),
                (#[trigger] batch@[j])@.id,
            ) == batch@[j]@ by {
                assert(bv[j] == batch@[j]@);
                assert(at_key(self.invs(), inv_key(), bv[j].id) == bv[j]);
            }
            assert_wf_after_reapply(old(self), self, bv);
        }
    }
}

impl InvoicesState {
    /// Reinserts a batch after checking at run time that it can be: every
    /// entry settled, carrying sound scales, no id duplicated or already
    /// present.  A batch straight from `prepare_archive_batch` always
    /// passes; anything else is refused whole, leaving the state untouched.
    pub fn reapply_archive_batch_checked(&mut self, batch: Vec<Invoice>) -> (r: bool)
        requires
            old(self).wf(),
        ensures
            final(self).wf(),
            !r ==> *final(self) == *old(self),
            r ==> forall|j: int|
                0 <= j < batch@.len() ==> has_key(
                    final(self).invs(),
                    inv_key(),
                    (#[trigger] batch@[j])@.id,
                ) && at_key(final(self).invs(), inv_key(), batch@[j]@.id) == batch@[j]@,
            r ==> forall|k: Seq<u8>|
                has_key(old(self).invs(), inv_key(), k) ==> #[trigger] at_key(
                    final(self).invs(),
                    inv_key(),
                    k,
                ) == at_key(old(self).invs(), inv_key(), k),
            r ==> final(self).inactive() == old(self).inactive() + Seq::new(
                batch@.len(),
                |j: int| batch@[j]@.id,
            ),
            r ==> final(self).active() == old(self).active(),
    {
        let n = batch.len();
        for j in 0..n
            invariant
                n == batch@.len(),
                self == old(self),
                old(self).wf(),
                forall|l: int|
                    0 <= l < j ==> (#[trigger] batch@[l])@.status is Paid && invoice_scales_wf(
                        batch@[l]@,
                    ) && !has_key(old(self).invs(), inv_key(), batch@[l]@.id),
                forall|a: int, b: int|
                    0 <= a < b < j ==> (#[trigger] batch@[a])@.id != (#[trigger] batch@[b])@.id,
        {
            let inv = &batch[j];
            match &inv.status {
                InvoiceStatus::Paid { qty, exchange_rate, .. } => {
                    if qty.decimals > 31 || exchange_rate.decimals > 31 {
                        return false;
                    }
                },
                _ => {
                    return false;
                },
            }
            if inv.qty_usd.decimals != USD_DECIMALS {
                return false;
            }
            if self.find_invoice(&inv.id).is_some() {
                proof {
                    let c = choose|c: int|
                        0 <= c < self.invs().len() && self.invs()[c].id == inv.id@;
                }
                return false;
            }
            for l in 0..j
                invariant
                    j < batch@.len(),
                    self == old(self),
                    old(self).wf(),
                    forall|x: int| 0 <= x < l ==> (#[trigger] batch@[x])@.id != batch@[j as int]@.id,
            {
                if bytes32_eq(&batch[l].id, &batch[j].id) {
                    return false;
                }
            }
            proof {
                if has_key(old(self).invs(), inv_key(), batch@[j as int]@.id) {
                    let c = choose|c: int|
                        0 <= c < self.invs().len() && self.invs()[c].id == batch@[j as int]@.id;
                }
            }
        }
        self.reapply_archive_batch(batch);
        true
    }
}

/// After popping an archive batch the collection is well-formed again.
proof fn assert_wf_after_prepare(pre: &InvoicesState, post: &InvoicesState, q: int)
    requires
        pre.wf(),
        0 <= q <= pre.inactive().len(),
        unique_keys(post.invs(), inv_key()),
        post.inactive() == pre.inactive().skip(q),
        forall|k: Seq<u8>|
            #[trigger] has_key(post.invs(), inv_key(), k) == (has_key(pre.invs(), inv_key(), k)
                && !pre.inactive().take(q).contains(k)),
        forall|k: Seq<u8>|
            has_key(post.invs(), inv_key(), k) ==> #[trigger] at_key(post.invs(), inv_key(), k)
                == at_key(pre.invs(), inv_key(), k),
        post.active() == pre.active(),
    ensures
        post.wf(),
{
    let invs0 = pre.invs();
    let invs1 = post.invs();
    let ina0 = pre.inactive();
    let ina1 = post.inactive();
    assert forall|a: int, b: int| 0 <= a < b < ina1.len() implies raw_key()(ina1[a]) != raw_key()(
        ina1[b],
    ) by {
        assert(ina1[a] == ina0[q + a]);
        assert(ina1[b] == ina0[q + b]);
        assert(raw_key()(ina0[q + a]) != raw_key()(ina0[q + b]));
    }
    assert forall|i: int| 0 <= i < post.active().len() implies {
        let e = #[trigger] post.active()[i];
        &&& has_key(invs1, inv_key(), e.id)
        &&& at_key(invs1, inv_key(), e.id).exchange_rates_timestamp == e.timestamp
        &&& is_active_status(at_key(invs1, inv_key(), e.id).status)
    } by {
        let e = post.active()[i];
        assert(pre.active()[i] == e);
        assert(has_key(invs0, inv_key(), e.id));
        assert(!ina0.take(q).contains(e.id)) by {
            if ina0.take(q).contains(e.id) {
                let c = choose|c: int| 0 <= c < ina0.take(q).len() && ina0.take(q)[c] == e.id;
                assert(ina0[c] == e.id);
                assert(at_key(invs0, inv_key(), ina0[c]).status is Paid);
            }
        }
    }
    assert forall|i: int| 0 <= i < ina1.len() implies {
        let id = #[trigger] ina1[i];
        &&& has_key(invs1, inv_key(), id)
        &&& at_key(invs1, inv_key(), id).status is Paid
    } by {
        let id = ina1[i];
        assert(id == ina0[q + i]);
        assert(has_key(invs0, inv_key(), id));
        assert(!ina0.take(q).contains(id)) by {
            if ina0.take(q).contains(id) {
                let c = choose|c: int| 0 <= c < ina0.take(q).len() && ina0.take(q)[c] == id;
                assert(raw_key()(ina0[c]) == raw_key()(ina0[q + i]));
            }
        }
    }
    assert forall|i: int| 0 <= i < invs1.len() implies {
        let v = #[trigger] invs1[i];
        &&& invoice_scales_wf(v)
        &&& is_active_status(v.status) ==> has_key(post.active(), aref_key(), v.id)
        &&& v.status is Paid ==> has_key(post.inactive(), raw_key(), v.id)
    } by {
        let v = invs1[i];
        lemma_at_index(invs1, inv_key(), i);
        assert(has_key(invs0, inv_key(), v.id));
        let c = choose|c: int| 0 <= c < invs0.len() && invs0[c].id == v.id;
        lemma_at_index(invs0, inv_key(), c);
        assert(v == invs0[c]);
        if v.status is Paid {
            assert(has_key(ina0, raw_key(), v.id));
            let d = choose|d: int| 0 <= d < ina0.len() && ina0[d] == v.id;
            assert(!ina0.take(q).contains(v.id));
            assert(d >= q) by {
                if d < q {
                    assert(ina0.take(q)[d] == v.id);
                }
            }
            assert(ina1[d - q] == v.id);
            assert(has_key(ina1, raw_key(), v.id));
        }
    }
}

/// After reinserting an archive batch the collection is well-formed again.
proof fn assert_wf_after_reapply(pre: &InvoicesState, post: &InvoicesState, bv: Seq<InvoiceView>)
    requires
        pre.wf(),
        forall|a: int, b: int|
            0 <= a < b < bv.len() ==> (#[trigger] bv[a]).id != (#[trigger] bv[b]).id,
        forall|j: int|
            0 <= j < bv.len() ==> (#[trigger] bv[j]).status is Paid && invoice_scales_wf(bv[j])
                && !has_key(pre.invs(), inv_key(), bv[j].id),
        unique_keys(post.invs(), inv_key()),
        forall|k: Seq<u8>|
            #[trigger] has_key(post.invs(), inv_key(), k) == (has_key(pre.invs(), inv_key(), k) || (
            exists|j: int| 0 <= j < bv.len() && (#[trigger] bv[j]).id == k)),
        forall|j: int|
            0 <= j < bv.len() ==> at_key(post.invs(), inv_key(), (#[trigger] bv[j]).id) == bv[j],
        forall|k: Seq<u8>|
            has_key(pre.invs(), inv_key(), k) ==> #[trigger] at_key(post.invs(), inv_key(), k)
                == at_key(pre.invs(), inv_key(), k),
        post.inactive() == pre.inactive() + Seq::new(bv.len(), |j: int| bv[j].id),
        post.active() == pre.active(),
    ensures
        post.wf(),
{
    let invs0 = pre.invs();
    let invs1 = post.invs();
    let ina0 = pre.inactive();
    let ina1 = post.inactive();
    let n0 = ina0.len() as int;
    assert forall|a: int, b: int| 0 <= a < b < ina1.len() implies raw_key()(ina1[a]) != raw_key()(
        ina1[b],
    ) by {
        if b < n0 {
            assert(raw_key()(ina0[a]) != raw_key()(ina0[b]));
        } else if a < n0 {
            assert(ina1[a] == ina0[a]);
            assert(ina1[b] == bv[b - n0].id);
            assert(has_key(invs0, inv_key(), ina0[a]));
            if ina0[a] == bv[b - n0].id {
                assert(!has_key(invs0, inv_key(), bv[b - n0].id));
            }
        } else {
            assert(ina1[a] == bv[a - n0].id);
            assert(ina1[b] == bv[b - n0].id);
        }
    }
    assert forall|i: int| 0 <= i < post.active().len() implies {
        let e = #[trigger] post.active()[i];
        &&& has_key(invs1, inv_key(), e.id)
        &&& at_key(invs1, inv_key(), e.id).exchange_rates_timestamp == e.timestamp
        &&& is_active_status(at_key(invs1, inv_key(), e.id).status)
    } by {
        let e = post.active()[i];
        assert(pre.active()[i] == e);
        assert(has_key(invs0, inv_key(), e.id));
    }
    assert forall|i: int| 0 <= i < ina1.len() implies {
        let id = #[trigger] ina1[i];
        &&& has_key(invs1, inv_key(), id)
        &&& at_key(invs1, inv_key(), id).status is Paid
    } by {
        if i < n0 {
            let id = ina0[i];
            assert(ina1[i] == id);
            assert(has_key(invs0, inv_key(), id));
        } else {
            assert(ina1[i] == bv[i - n0].id);
            assert(at_key(invs1, inv_key(), bv[i - n0].id) == bv[i - n0]);
            assert(has_key(invs1, inv_key(), bv[i - n0].id));
        }
    }
    assert forall|i: int| 0 <= i < invs1.len() implies {
        let v = #[trigger] invs1[i];
        &&& invoice_scales_wf(v)
        &&& is_active_status(v.status) ==> has_key(post.active(), aref_key(), v.id)
        &&& v.status is Paid ==> has_key(post.inactive(), raw_key(), v.id)
    } by {
        let v = invs1[i];
        lemma_at_index(invs1, inv_key(), i);
        if has_key(invs0, inv_key(), v.id) {
            let c = choose|c: int| 0 <= c < invs0.len() && invs0[c].id == v.id;
            lemma_at_index(invs0, inv_key(), c);
            assert(v == invs0[c]);
            if v.status is Paid {
                assert(has_key(ina0, raw_key(), v.id));
                let d = choose|d: int| 0 <= d < ina0.len() && ina0[d] == v.id;
                assert(ina1[d] == v.id);
                assert(has_key(ina1, raw_key(), v.id));
            }
        } else {
            let j = choose|j: int| 0 <= j < bv.len() && (#[trigger] bv[j]).id == v.id;
            assert(v == bv[j]);
            assert(ina1[n0 + j] == v.id);
            assert(has_key(ina1, raw_key(), v.id));
        }
    }
}

/// After a sweep pass the collection is well-formed again.
proof fn assert_wf_after_sweep(pre: &InvoicesState, post: &InvoicesState)
    requires
        pre.wf(),
        unique_keys(post.invs(), inv_key()),
        unique_keys(post.active(), aref_key()),
        forall|k: Seq<u8>|
            #[trigger] has_key(post.invs(), inv_key(), k) == (has_key(pre.invs(), inv_key(), k) && !(
            has_key(pre.active(), aref_key(), k) && sweep_doomed(at_key(pre.invs(), inv_key(), k)))),
        forall|k: Seq<u8>|
            has_key(post.invs(), inv_key(), k) ==> #[trigger] at_key(post.invs(), inv_key(), k)
                == if has_key(pre.active(), aref_key(), k) {
                sweep_inv(at_key(pre.invs(), inv_key(), k))
            } else {
                at_key(pre.invs(), inv_key(), k)
            },
        forall|k: Seq<u8>|
            #[trigger] has_key(post.active(), aref_key(), k) == (has_key(pre.active(), aref_key(), k)
                && !sweep_doomed(at_key(pre.invs(), inv_key(), k))),
        forall|k: Seq<u8>|
            has_key(post.active(), aref_key(), k) ==> #[trigger] at_key(post.active(), aref_key(), k)
                == at_key(pre.active(), aref_key(), k),
        post.inactive() == pre.inactive(),
    ensures
        post.wf(),
{
    let invs0 = pre.invs();
    let invs1 = post.invs();
    let act0 = pre.active();
    let act1 = post.active();
    assert(unique_keys(post.inactive(), raw_key()));
    assert forall|i: int| 0 <= i < act1.len() implies {
        let e = #[trigger] act1[i];
        &&& has_key(invs1, inv_key(), e.id)
        &&& at_key(invs1, inv_key(), e.id).exchange_rates_timestamp == e.timestamp
        &&& is_active_status(at_key(invs1, inv_key(), e.id).status)
    } by {
        let e = act1[i];
        lemma_at_index(act1, aref_key(), i);
        assert(has_key(act1, aref_key(), e.id));
        assert(has_key(act0, aref_key(), e.id));
        let c = choose|c: int| 0 <= c < act0.len() && act0[c].id == e.id;
        lemma_at_index(act0, aref_key(), c);
        assert(e == act0[c]);
        assert(has_key(invs0, inv_key(), e.id));
        assert(!sweep_doomed(at_key(invs0, inv_key(), e.id)));
        assert(has_key(invs1, inv_key(), e.id));
        assert(at_key(invs1, inv_key(), e.id) == sweep_inv(at_key(invs0, inv_key(), e.id)));
    }
    assert forall|i: int| 0 <= i < post.inactive().len() implies {
        let id = #[trigger] post.inactive()[i];
        &&& has_key(invs1, inv_key(), id)
        &&& at_key(invs1, inv_key(), id).status is Paid
    } by {
        let id = post.inactive()[i];
        assert(pre.inactive()[i] == id);
        assert(has_key(invs0, inv_key(), id));
        assert(at_key(invs0, inv_key(), id).status is Paid);
        assert(!has_key(act0, aref_key(), id)) by {
            if has_key(act0, aref_key(), id) {
                let c = choose|c: int| 0 <= c < act0.len() && act0[c].id == id;
                lemma_at_index(act0, aref_key(), c);
                assert(is_active_status(at_key(invs0, inv_key(), id).status));
            }
        }
    }
    assert forall|i: int| 0 <= i < invs1.len() implies {
        let v = #[trigger] invs1[i];
        &&& invoice_scales_wf(v)
        &&& is_active_status(v.status) ==> has_key(act1, aref_key(), v.id)
        &&& v.status is Paid ==> has_key(post.inactive(), raw_key(), v.id)
    } by {
        let v = invs1[i];
        lemma_at_index(invs1, inv_key(), i);
        assert(has_key(invs1, inv_key(), v.id));
        assert(has_key(invs0, inv_key(), v.id));
        let w = at_key(invs0, inv_key(), v.id);
        let c = choose|c: int| 0 <= c < invs0.len() && invs0[c].id == v.id;
        lemma_at_index(invs0, inv_key(), c);
        assert(w == invs0[c]);
        assert(invoice_scales_wf(w));
        if has_key(act0, aref_key(), v.id) {
            assert(v == sweep_inv(w));
            assert(!sweep_doomed(w));
        } else {
            assert(v == w);
        }
    }
}

/// Settling an invoice (non-terminal to `Paid`, leaving the active index,
/// joining the inactive list) keeps the collection well-formed.
proof fn assert_wf_after_settle(
    pre: &InvoicesState,
    post: &InvoicesState,
    v0: InvoiceView,
    v1: InvoiceView,
)
    requires
        pre.wf(),
        has_key(pre.invs(), inv_key(), v0.id),
        at_key(pre.invs(), inv_key(), v0.id) == v0,
        v1 == (InvoiceView { status: v1.status, ..v0 }),
        is_active_status(v0.status),
        v1.status is Paid,
        invoice_scales_wf(v1),
        unique_keys(post.invs(), inv_key()),
        has_key(post.invs(), inv_key(), v0.id),
        at_key(post.invs(), inv_key(), v0.id) == v1,
        forall|k: Seq<u8>|
            k != v0.id ==> #[trigger] has_key(post.invs(), inv_key(), k) == has_key(
                pre.invs(),
                inv_key(),
                k,
            ),
        forall|k: Seq<u8>|
            k != v0.id && has_key(post.invs(), inv_key(), k) ==> #[trigger] at_key(
                post.invs(),
                inv_key(),
                k,
            ) == at_key(pre.invs(), inv_key(), k),
        unique_keys(post.active(), aref_key()),
        !has_key(post.active(), aref_key(), v0.id),
        forall|k: Seq<u8>|
            k != v0.id ==> #[trigger] has_key(post.active(), aref_key(), k) == has_key(
                pre.active(),
                aref_key(),
                k,
            ),
        forall|k: Seq<u8>|
            k != v0.id && has_key(post.active(), aref_key(), k) ==> #[trigger] at_key(
                post.active(),
                aref_key(),
                k,
            ) == at_key(pre.active(), aref_key(), k),
        post.inactive() == pre.inactive().push(v0.id),
        !has_key(pre.inactive(), raw_key(), v0.id),
    ensures
        post.wf(),
{
    let invs0 = pre.invs();
    let invs1 = post.invs();
    let act1 = post.active();
    let ina0 = pre.inactive();
    let ina1 = post.inactive();
    lemma_push_frame(ina0, raw_key(), v0.id);
    assert forall|i: int| 0 <= i < act1.len() implies {
        let e = #[trigger] act1[i];
        &&& has_key(invs1, inv_key(), e.id)
        &&& at_key(invs1, inv_key(), e.id).exchange_rates_timestamp == e.timestamp
        &&& is_active_status(at_key(invs1, inv_key(), e.id).status)
    } by {
        let e = act1[i];
        lemma_at_index(act1, aref_key(), i);
        assert(e.id != v0.id);
        assert(has_key(pre.active(), aref_key(), e.id));
        let c = choose|c: int| 0 <= c < pre.active().len() && pre.active()[c].id == e.id;
        lemma_at_index(pre.active(), aref_key(), c);
        assert(at_key(act1, aref_key(), e.id) == e);
        assert(e == pre.active()[c]);
    }
    assert forall|i: int| 0 <= i < ina1.len() implies {
        let id = #[trigger] ina1[i];
        &&& has_key(invs1, inv_key(), id)
        &&& at_key(invs1, inv_key(), id).status is Paid
    } by {
        let id = ina1[i];
        if i < ina0.len() {
            assert(ina1[i] == ina0[i]);
            assert(has_key(invs0, inv_key(), id));
            if id != v0.id {
            }
        } else {
            assert(id == v0.id);
        }
    }
    assert forall|i: int| 0 <= i < invs1.len() implies {
        let v = #[trigger] invs1[i];
        &&& invoice_scales_wf(v)
        &&& is_active_status(v.status) ==> has_key(act1, aref_key(), v.id)
        &&& v.status is Paid ==> has_key(ina1, raw_key(), v.id)
    } by {
        let v = invs1[i];
        lemma_at_index(invs1, inv_key(), i);
        if v.id == v0.id {
            assert(v == v1);
        } else {
            assert(has_key(invs0, inv_key(), v.id));
            let j = choose|j: int| 0 <= j < invs0.len() && invs0[j].id == v.id;
            lemma_at_index(invs0, inv_key(), j);
            assert(v == invs0[j]);
        }
    }
}

/// Replacing one non-terminal invoice's status by another non-terminal
/// status keeps the collection well-formed.
proof fn assert_wf_after_restatus(
    pre: &InvoicesState,
    post: &InvoicesState,
    v0: InvoiceView,
    v1: InvoiceView,
)
    requires
        pre.wf(),
        has_key(pre.invs(), inv_key(), v0.id),
        at_key(pre.invs(), inv_key(), v0.id) == v0,
        v1 == (InvoiceView { status: v1.status, ..v0 }),
        is_active_status(v0.status),
        is_active_status(v1.status),
        unique_keys(post.invs(), inv_key()),
        has_key(post.invs(), inv_key(), v0.id),
        at_key(post.invs(), inv_key(), v0.id) == v1,
        forall|k: Seq<u8>|
            k != v0.id ==> #[trigger] has_key(post.invs(), inv_key(), k) == has_key(
                pre.invs(),
                inv_key(),
                k,
            ),
        forall|k: Seq<u8>|
            k != v0.id && has_key(post.invs(), inv_key(), k) ==> #[trigger] at_key(
                post.invs(),
                inv_key(),
                k,
            ) == at_key(pre.invs(), inv_key(), k),
        post.active() == pre.active(),
        post.inactive() == pre.inactive(),
    ensures
        post.wf(),
{
    let invs0 = pre.invs();
    let invs1 = post.invs();
    assert forall|i: int| 0 <= i < post.active().len() implies {
        let e = #[trigger] post.active()[i];
        &&& has_key(invs1, inv_key(), e.id)
        &&& at_key(invs1, inv_key(), e.id).exchange_rates_timestamp == e.timestamp
        &&& is_active_status(at_key(invs1, inv_key(), e.id).status)
    } by {
        let e = post.active()[i];
        assert(has_key(invs0, inv_key(), e.id));
    }
    assert forall|i: int| 0 <= i < post.inactive().len() implies {
        let id = #[trigger] post.inactive()[i];
        &&& has_key(invs1, inv_key(), id)
        &&& at_key(invs1, inv_key(), id).status is Paid
    } by {
        let id = post.inactive()[i];
        assert(has_key(invs0, inv_key(), id));
        assert(id != v0.id);
    }
    assert forall|i: int| 0 <= i < invs1.len() implies {
        let v = #[trigger] invs1[i];
        &&& invoice_scales_wf(v)
        &&& is_active_status(v.status) ==> has_key(post.active(), aref_key(), v.id)
        &&& v.status is Paid ==> has_key(post.inactive(), raw_key(), v.id)
    } by {
        let v = invs1[i];
        lemma_at_index(invs1, inv_key(), i);
        if v.id == v0.id {
            assert(v == v1);
            let j = choose|j: int| 0 <= j < invs0.len() && invs0[j].id == v0.id;
            lemma_at_index(invs0, inv_key(), j);
        } else {
            assert(has_key(invs0, inv_key(), v.id));
            let j = choose|j: int| 0 <= j < invs0.len() && invs0[j].id == v.id;
            lemma_at_index(invs0, inv_key(), j);
        }
    }
}

/// After pushing a fresh invoice and its active entry, the collection is
/// well-formed again.
proof fn assert_wf_after_create(
    pre: &InvoicesState,
    post: &InvoicesState,
    newv: InvoiceView,
    arefv: ActiveRefView,
)
    requires
        pre.wf(),
        !has_key(pre.invs(), inv_key(), newv.id),
        !has_key(pre.active(), aref_key(), newv.id),
        post.invs() == pre.invs().push(newv),
        post.active() == pre.active().push(arefv),
        post.inactive() == pre.inactive(),
        arefv.id == newv.id,
        arefv.timestamp == newv.exchange_rates_timestamp,
        newv.status == (InvoiceStatusView::Created { ttl: DEFAULT_TTL }),
        newv.qty_usd.scale == USD_DECIMALS as nat,
    ensures
        post.wf(),
{
    let invs0 = pre.invs();
    let act0 = pre.active();
    let invs1 = post.invs();
    let act1 = post.active();
    lemma_push_frame(invs0, inv_key(), newv);
    lemma_push_frame(act0, aref_key(), arefv);
    lemma_at_index(invs1, inv_key(), invs0.len() as int);
    lemma_at_index(act1, aref_key(), act0.len() as int);
    assert forall|i: int| 0 <= i < act1.len() implies {
        let e = #[trigger] act1[i];
        &&& has_key(invs1, inv_key(), e.id)
        &&& at_key(invs1, inv_key(), e.id).exchange_rates_timestamp == e.timestamp
        &&& is_active_status(at_key(invs1, inv_key(), e.id).status)
    } by {
        if i < act0.len() {
            assert(act1[i] == act0[i]);
            assert(act0[i].id != newv.id) by {
                if act0[i].id == newv.id {
                    assert(has_key(act0, aref_key(), newv.id));
                }
            }
        } else {
            assert(act1[i] == arefv);
        }
    }
    assert forall|i: int| 0 <= i < post.inactive().len() implies {
        let id = #[trigger] post.inactive()[i];
        &&& has_key(invs1, inv_key(), id)
        &&& at_key(invs1, inv_key(), id).status is Paid
    } by {
        assert(post.inactive()[i] == pre.inactive()[i]);
        assert(has_key(invs0, inv_key(), pre.inactive()[i]));
        assert(pre.inactive()[i] != newv.id);
    }
    assert forall|i: int| 0 <= i < invs1.len() implies {
        let v = #[trigger] invs1[i];
        &&& invoice_scales_wf(v)
        &&& is_active_status(v.status) ==> has_key(act1, aref_key(), v.id)
        &&& v.status is Paid ==> has_key(post.inactive(), raw_key(), v.id)
    } by {
        if i < invs0.len() {
            assert(invs1[i] == invs0[i]);
            assert(invs0[i].id != newv.id) by {
                lemma_at_index(invs0, inv_key(), i);
            }
        } else {
            assert(invs1[i] == newv);
        }
    }
}

} // verus!
