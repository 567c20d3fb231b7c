//! The top-level state: shops, invoices, supported tokens and exchange-rate
//! snapshots as one unit, with the operations that tie the invoice lifecycle
//! to the snapshot lifecycle.

use vstd::prelude::*;

use crate::assoc::{at_key, has_key, unique_keys};
use crate::decimal::{dec_add, dec_rescale, DecimalView, EDs, USD_DECIMALS, MAX_DECIMALS};
use crate::error::Error;
use crate::exchange_rates::{rate_key, snap_entry_at, snap_entry_has, snap_key, ExchangeRatesState,
    RateEntryView, RateSnapshot};
use crate::ids::{AccountData, InvoiceId, PrincipalData, ShopId, Ticker, Timestamp};
use crate::hashing::{invoice_memo_of, shop_subaccount_of};
use crate::invoices::{aref_key, inv_key, paid_status_of, spec_amount_sufficient, txn_subaccount,
    InvoiceStatusView, Invoice, InvoiceView, InvoicesState};
use crate::shops::{shop_key, ShopsState};
use crate::tokens::{spec_has_ticker, spec_has_token, spec_token_at, SupportedTokensState};
use crate::txn::TransferTxn;

verus! {

/// One rate as the oracle reports it: a ticker, an integer rate value and
/// the decimal count that value carries.
pub struct ExternalRate {
    pub ticker: Ticker,
    pub rate: u64,
    pub decimals: u8,
}

/// The mathematical content of an oracle rate.
pub ghost struct ExternalRateView {
    pub ticker: Seq<u8>,
    pub rate: u64,
    pub decimals: u8,
}

impl View for ExternalRate {
    type V = ExternalRateView;

    open spec fn view(&self) -> ExternalRateView {
        ExternalRateView { ticker: self.ticker@, rate: self.rate, decimals: self.decimals }
    }
}

/// An oracle rate converted to the internal 8-decimal standard.
pub open spec fn conv_rate(r: ExternalRateView) -> DecimalView {
    dec_rescale(
        DecimalView { mag: r.rate as nat, scale: r.decimals as nat },
        USD_DECIMALS as nat,
    )
}

/// Whether `v` is the value of the last entry for ticker `t` among the first
/// `upto` oracle rates.
pub open spec fn latest_rate(
    rates: Seq<ExternalRateView>,
    upto: int,
    t: Seq<u8>,
    v: DecimalView,
) -> bool {
    exists|j: int|
        0 <= j < upto && (#[trigger] rates[j]).ticker == t && v == conv_rate(rates[j]) && (forall|
            l: int,
        |
            j < l < upto ==> (#[trigger] rates[l]).ticker != t)
}

/// Whether one of the first `upto` oracle reports names ticker `t`.
pub open spec fn reports_ticker(rates: Seq<ExternalRateView>, upto: int, t: Seq<u8>) -> bool {
    exists|j: int| 0 <= j < upto && (#[trigger] rates[j]).ticker == t
}

/// The whole hub state.
pub struct State {
    pub shops: ShopsState,
    pub invoices: InvoicesState,
    pub supported_tokens: SupportedTokensState,
    pub exchange_rates: ExchangeRatesState,
    pub fee_collector_account: Option<AccountData>,
}

impl State {
    /// Every component is well-formed.
    pub open spec fn wf(&self) -> bool {
        &&& self.shops.wf()
        &&& self.invoices.wf()
        &&& self.supported_tokens.wf()
        &&& self.exchange_rates.wf()
    }

    pub fn new() -> (r: State)
        ensures
            r.wf(),
            r.invoices.invs().len() == 0,
            r.exchange_rates@.len() == 0,
            r.shops.shops_view().len() == 0,
            r.supported_tokens@.len() == 0,
            r.fee_collector_account is None,
    {
        State {
            shops: ShopsState::new(),
            invoices: InvoicesState::new(),
            supported_tokens: SupportedTokensState::new(),
            exchange_rates: ExchangeRatesState::new(),
            fee_collector_account: None,
        }
    }

    pub fn set_fee_collector_account(&mut self, account: Option<AccountData>)
        ensures
            final(self).fee_collector_account == account,
            final(self).shops == old(self).shops,
            final(self).invoices == old(self).invoices,
            final(self).supported_tokens == old(self).supported_tokens,
            final(self).exchange_rates == old(self).exchange_rates,
            final(self).wf() == old(self).wf(),
    {
        self.fee_collector_account = account;
    }

    /// Creates an invoice for a shop at the current exchange-rate snapshot;
    /// the caller must be one of the shop's authorized invoice creators.
    pub fn create_invoice(
        &mut self,
        qty_usd: EDs,
        shop_id: ShopId,
        now: Timestamp,
        caller: PrincipalData,
    ) -> (r: Result<InvoiceId, Error>)
        requires
            old(self).wf(),
            qty_usd.wf(),
            qty_usd@.scale == USD_DECIMALS as nat,
        ensures
            final(self).wf(),
            final(self).shops == old(self).shops,
            final(self).supported_tokens == old(self).supported_tokens,
            final(self).exchange_rates == old(self).exchange_rates,
            !(has_key(old(self).shops.shops_view(), shop_key(), shop_id) && at_key(
                old(self).shops.shops_view(),
                shop_key(),
                shop_id,
            ).invoice_creators.contains(caller@)) ==> r == Err::<InvoiceId, Error>(
                Error::AccessDenied,
            ) && final(self).invoices == old(self).invoices,
            (has_key(old(self).shops.shops_view(), shop_key(), shop_id) && at_key(
                old(self).shops.shops_view(),
                shop_key(),
                shop_id,
            ).invoice_creators.contains(caller@)) ==> match r {
                Ok(id) => {
                    &&& has_key(final(self).invoices.invs(), inv_key(), id@)
                    &&& at_key(final(self).invoices.invs(), inv_key(), id@) == (InvoiceView {
                        id: id@,
                        status: InvoiceStatusView::Created { ttl: crate::invoices::DEFAULT_TTL },
                        creator: caller@,
                        qty_usd: qty_usd@,
                        created_at: now,
                        exchange_rates_timestamp: old(self).exchange_rates.last_updated_at,
                        shop_id,
                    })
                    &&& forall|k: Seq<u8>|
                        k != id@ ==> #[trigger] has_key(final(self).invoices.invs(), inv_key(), k)
                            == has_key(old(self).invoices.invs(), inv_key(), k)
                },
                // A failure is owed only to an actual id collision: the id
                // derived from the current generator state is already taken.
                Err(e) => e == Error::IdCollision && final(self).invoices == old(self).invoices
                    && has_key(
                    old(self).invoices.invs(),
                    inv_key(),
                    crate::hashing::invoice_id_of(
                        old(self).invoices.invoice_id_generator@,
                        now,
                    ),
                ),
            },
    {
        if !self.shops.can_create_invoices(shop_id, &caller) {
            return Err(Error::AccessDenied);
        }
        let ts = self.exchange_rates.last_updated_at;
        match self.invoices.create_checked(qty_usd, shop_id, now, ts, caller) {
            Ok(id) => Ok(id),
            Err(e) => Err(e),
        }
    }

    /// Begins payment verification: locks the invoice (the caller must be
    /// its creator and it must be `Created`) and returns the locked
    /// exchange-rate timestamp, the ttl to restore on failure, and the
    /// paying token's decimal count.  An unknown token leaves the invoice
    /// unlocked.
    pub fn begin_verification(
        &mut self,
        invoice_id: &InvoiceId,
        asset_id: &PrincipalData,
        caller: &PrincipalData,
    ) -> (r: Result<(Timestamp, u8, u8), Error>)
        requires
            old(self).wf(),
        ensures
            final(self).wf(),
            final(self).shops == old(self).shops,
            final(self).supported_tokens == old(self).supported_tokens,
            final(self).exchange_rates == old(self).exchange_rates,
            final(self).invoices.active() == old(self).invoices.active(),
            final(self).invoices.inactive() == old(self).invoices.inactive(),
            forall|k: Seq<u8>|
                #[trigger] has_key(final(self).invoices.invs(), inv_key(), k) == has_key(
                    old(self).invoices.invs(),
                    inv_key(),
                    k,
                ),
            !has_key(old(self).invoices.invs(), inv_key(), invoice_id@) ==> r == Err::<
                (Timestamp, u8, u8),
                Error,
            >(Error::NotFound),
            has_key(old(self).invoices.invs(), inv_key(), invoice_id@) ==> {
                let v0 = at_key(old(self).invoices.invs(), inv_key(), invoice_id@);
                &&& v0.creator != caller@ ==> r == Err::<(Timestamp, u8, u8), Error>(
                    Error::AccessDenied,
                ) && final(self).invoices == old(self).invoices
                &&& v0.creator == caller@ && !(v0.status is Created) ==> r == Err::<
                    (Timestamp, u8, u8),
                    Error,
                >(Error::InvalidState) && final(self).invoices == old(self).invoices
                &&& v0.creator == caller@ ==> match v0.status {
                    InvoiceStatusView::Created { ttl } => {
                        &&& !spec_has_token(old(self).supported_tokens@, asset_id@) ==> r == Err::<
                            (Timestamp, u8, u8),
                            Error,
                        >(Error::NotFound) && at_key(
                            final(self).invoices.invs(),
                            inv_key(),
                            invoice_id@,
                        ) == v0
                        &&& spec_has_token(old(self).supported_tokens@, asset_id@) ==> {
                            &&& r == Ok::<(Timestamp, u8, u8), Error>(
                                (
                                    v0.exchange_rates_timestamp,
                                    ttl,
                                    spec_token_at(
                                        old(self).supported_tokens@,
                                        asset_id@,
                                    ).fee.scale as u8,
                                ),
                            )
                            &&& at_key(final(self).invoices.invs(), inv_key(), invoice_id@) == (
                            InvoiceView { status: InvoiceStatusView::VerifyPayment, ..v0 })
                        }
                        &&& forall|k: Seq<u8>|
                            k != invoice_id@ && has_key(final(self).invoices.invs(), inv_key(), k)
                                ==> #[trigger] at_key(final(self).invoices.invs(), inv_key(), k)
                                == at_key(old(self).invoices.invs(), inv_key(), k)
                    },
                    _ => true,
                }
            },
    {
        let (ts, ttl) = match self.invoices.lock_for_verification(invoice_id, caller) {
            Ok(v) => v,
            Err(e) => {
                return Err(e);
            },
        };
        let decimals = match self.supported_tokens.get_by_id(asset_id) {
            Some(t) => t.fee.decimals,
            None => {
                let restored = self.invoices.restore_invoice(invoice_id, ttl);
                proof {
                    assert(restored is Ok);
                    let v0 = at_key(old(self).invoices.invs(), inv_key(), invoice_id@);
                    assert(at_key(final(self).invoices.invs(), inv_key(), invoice_id@) == v0);
                }
                return Err(Error::NotFound);
            },
        };
        Ok((ts, ttl, decimals))
    }

    /// Completes a verification attempt with a fetched transfer record: the
    /// record is validated against the locked invoice at the rate locked for
    /// the paying token.  On success the invoice settles, the shop's
    /// earnings grow by the invoice's USD amount, and, when no active
    /// invoice remains, the locked snapshot is dropped unless current.  On
    /// any failure the invoice is restored to `Created` with `ttl_restore`:
    /// no error leaves an invoice stuck under the verification lock.
    pub fn settle_payment(
        &mut self,
        invoice_id: &InvoiceId,
        transfer_txn: TransferTxn,
        this_canister_id: &PrincipalData,
        now: Timestamp,
        ttl_restore: u8,
    ) -> (r: Result<Invoice, Error>)
        requires
            old(self).wf(),
            transfer_txn.wf(),
        ensures
            final(self).wf(),
            !has_key(old(self).invoices.invs(), inv_key(), invoice_id@) ==> (r matches Err(e) && e
                == Error::NotFound && *final(self) == *old(self)),
            has_key(old(self).invoices.invs(), inv_key(), invoice_id@) ==> {
                let v0 = at_key(old(self).invoices.invs(), inv_key(), invoice_id@);
                &&& !(v0.status is VerifyPayment) ==> (r matches Err(e) && e == Error::InvalidState
                    && *final(self) == *old(self))
                &&& v0.status is VerifyPayment ==> {
                    &&& r matches Err(e) ==> has_key(
                        final(self).invoices.invs(),
                        inv_key(),
                        invoice_id@,
                    ) && at_key(final(self).invoices.invs(), inv_key(), invoice_id@) == (
                    InvoiceView { status: InvoiceStatusView::Created { ttl: ttl_restore }, ..v0 })
                    &&& r matches Ok(inv) ==> {
                        let rate = at_key(
                            at_key(
                                old(self).exchange_rates@,
                                snap_key(),
                                v0.exchange_rates_timestamp,
                            ).entries,
                            rate_key(),
                            spec_token_at(old(self).supported_tokens@, transfer_txn@.token_id).ticker,
                        ).rate;
                        &&& spec_has_token(old(self).supported_tokens@, transfer_txn@.token_id)
                        &&& transfer_txn@.to.owner == this_canister_id@
                        &&& spec_amount_sufficient(rate, transfer_txn@.qty, v0.qty_usd)
                        &&& inv@ == (InvoiceView {
                            status: paid_status_of(transfer_txn@, rate, now),
                            ..v0
                        })
                        &&& at_key(final(self).invoices.invs(), inv_key(), invoice_id@) == inv@
                        &&& !has_key(final(self).invoices.active(), aref_key(), invoice_id@)
                        &&& has_key(old(self).shops.shops_view(), shop_key(), v0.shop_id)
                            ==> at_key(
                            final(self).shops.shops_view(),
                            shop_key(),
                            v0.shop_id,
                        ).total_earned_usd == dec_add(
                            at_key(
                                old(self).shops.shops_view(),
                                shop_key(),
                                v0.shop_id,
                            ).total_earned_usd,
                            v0.qty_usd,
                        )
                    }
                    &&& forall|k: Seq<u8>|
                        k != invoice_id@ && has_key(final(self).invoices.invs(), inv_key(), k)
                            ==> #[trigger] at_key(final(self).invoices.invs(), inv_key(), k)
                            == at_key(old(self).invoices.invs(), inv_key(), k)
                    // Success is owed: with the paying token registered, its
                    // rate present in the locked snapshot, and all four
                    // checks passing on that rate, the invoice settles.
                    &&& {
                        let ticker = spec_token_at(
                            old(self).supported_tokens@,
                            transfer_txn@.token_id,
                        ).ticker;
                        let rate = at_key(
                            at_key(
                                old(self).exchange_rates@,
                                snap_key(),
                                v0.exchange_rates_timestamp,
                            ).entries,
                            rate_key(),
                            ticker,
                        ).rate;
                        (spec_has_token(old(self).supported_tokens@, transfer_txn@.token_id)
                            && has_key(
                            old(self).exchange_rates@,
                            snap_key(),
                            v0.exchange_rates_timestamp,
                        ) && has_key(
                            at_key(
                                old(self).exchange_rates@,
                                snap_key(),
                                v0.exchange_rates_timestamp,
                            ).entries,
                            rate_key(),
                            ticker,
                        ) && transfer_txn@.to.owner == this_canister_id@ && txn_subaccount(
                            transfer_txn@,
                        ) == shop_subaccount_of(v0.shop_id) && transfer_txn@.memo
                            == invoice_memo_of(v0.id) && spec_amount_sufficient(
                            rate,
                            transfer_txn@.qty,
                            v0.qty_usd,
                        )) ==> r is Ok
                    }
                }
            },
    {
        let (locked_ts, shop_id) = match self.invoices.get_invoice(invoice_id) {
            Some(inv) => {
                match &inv.status {
                    crate::invoices::InvoiceStatus::VerifyPayment => (),
                    _ => {
                        return Err(Error::InvalidState);
                    },
                }
                (inv.exchange_rates_timestamp, inv.shop_id)
            },
            None => {
                return Err(Error::NotFound);
            },
        };
        let ticker = match self.supported_tokens.ticker_by_token_id(&transfer_txn.token_id) {
            Some(t) => t,
            None => {
                let restored = self.invoices.restore_invoice(invoice_id, ttl_restore);
                proof {
                    assert(restored is Ok);
                }
                return Err(Error::NotFound);
            },
        };
        let rate = match self.exchange_rates.get_exchange_rate(locked_ts, &ticker) {
            Some(r) => r.clone(),
            None => {
                let restored = self.invoices.restore_invoice(invoice_id, ttl_restore);
                proof {
                    assert(restored is Ok);
                }
                return Err(Error::NotFound);
            },
        };
        let (settled, index_empty) = match self.invoices.verify_payment(
            invoice_id,
            transfer_txn,
            rate,
            this_canister_id,
            now,
        ) {
            Ok(v) => v,
            Err(e) => {
                let restored = self.invoices.restore_invoice(invoice_id, ttl_restore);
                proof {
                    assert(restored is Ok);
                }
                return Err(e);
            },
        };
        let earned = self.shops.record_earning(shop_id, &settled.qty_usd);
        proof {
            if has_key(old(self).shops.shops_view(), shop_key(), shop_id) {
                assert(earned is Ok);
            }
        }
        if index_empty {
            self.exchange_rates.delete_outdated(locked_ts);
        }
        Ok(settled)
    }

    /// One periodic purge: sweeps the invoice ttls, then drops every
    /// snapshot that is neither current nor still referenced by an active
    /// invoice.
    pub fn purge_expired_invoices(&mut self)
        requires
            old(self).wf(),
        ensures
            final(self).wf(),
            final(self).shops == old(self).shops,
            final(self).supported_tokens == old(self).supported_tokens,
            final(self).fee_collector_account == old(self).fee_collector_account,
            final(self).exchange_rates.last_updated_at == old(self).exchange_rates.last_updated_at,
            forall|k: Seq<u8>|
                #[trigger] has_key(final(self).invoices.invs(), inv_key(), k) == (has_key(
                    old(self).invoices.invs(),
                    inv_key(),
                    k,
                ) && !(has_key(old(self).invoices.active(), aref_key(), k)
                    && crate::invoices::sweep_doomed(
                    at_key(old(self).invoices.invs(), inv_key(), k),
                ))),
            forall|k: Seq<u8>|
                has_key(final(self).invoices.invs(), inv_key(), k) ==> #[trigger] at_key(
                    final(self).invoices.invs(),
                    inv_key(),
                    k,
                ) == if has_key(old(self).invoices.active(), aref_key(), k) {
                    crate::invoices::sweep_inv(at_key(old(self).invoices.invs(), inv_key(), k))
                } else {
                    at_key(old(self).invoices.invs(), inv_key(), k)
                },
            forall|k: Seq<u8>|
                #[trigger] has_key(final(self).invoices.active(), aref_key(), k) == (has_key(
                    old(self).invoices.active(),
                    aref_key(),
                    k,
                ) && !crate::invoices::sweep_doomed(
                    at_key(old(self).invoices.invs(), inv_key(), k),
                )),
            final(self).invoices.inactive() == old(self).invoices.inactive(),
            // A snapshot survives the purge exactly when it is the current
            // one or some active invoice still locks it.
            forall|ts: Timestamp|
                #[trigger] has_key(final(self).exchange_rates@, snap_key(), ts) == (has_key(
                    old(self).exchange_rates@,
                    snap_key(),
                    ts,
                ) && (ts == old(self).exchange_rates.last_updated_at
                    || crate::invoices::spec_references(final(self).invoices.active(), ts))),
            forall|ts: Timestamp|
                has_key(final(self).exchange_rates@, snap_key(), ts) ==> #[trigger] at_key(
                    final(self).exchange_rates@,
                    snap_key(),
                    ts,
                ) == at_key(old(self).exchange_rates@, snap_key(), ts),
    {
        self.invoices.sweep_expired();
        let ghost inv_mid = self.invoices;
        let tss = self.exchange_rates.snapshot_timestamps();
        let ghost rates0 = self.exchange_rates@;
        let ghost last = self.exchange_rates.last_updated_at;
        let n = tss.len();
        for i in 0..n
            invariant
                n == tss@.len(),
                old(self).wf(),
                self.invoices.wf(),
                self.exchange_rates.wf(),
                self.invoices == inv_mid,
                self.shops == old(self).shops,
                self.supported_tokens == old(self).supported_tokens,
                self.fee_collector_account == old(self).fee_collector_account,
                self.exchange_rates.last_updated_at == last,
                self.exchange_rates.mock == old(self).exchange_rates.mock,
                rates0.len() == tss@.len(),
                rates0 == old(self).exchange_rates@,
                unique_keys(rates0, snap_key()),
                forall|j: int| 0 <= j < tss@.len() ==> tss@[j] == (#[trigger] rates0[j]).timestamp,
                forall|ts: Timestamp|
                    #[trigger] has_key(self.exchange_rates@, snap_key(), ts) == (has_key(
                        rates0,
                        snap_key(),
                        ts,
                    ) && !(tss@.take(i as int).contains(ts) && ts != last
                        && !crate::invoices::spec_references(self.invoices.active(), ts))),
                forall|ts: Timestamp|
                    has_key(self.exchange_rates@, snap_key(), ts) ==> #[trigger] at_key(
                        self.exchange_rates@,
                        snap_key(),
                        ts,
                    ) == at_key(rates0, snap_key(), ts),
        {
            let ts = tss[i];
            let ghost pre = self.exchange_rates@;
            proof {
                assert(forall|t: Timestamp| #[trigger]
                    has_key(pre, snap_key(), t) == (has_key(rates0, snap_key(), t) && !(
                    tss@.take(i as int).contains(t) && t != last
                        && !crate::invoices::spec_references(self.invoices.active(), t))));
            }
            if ts != self.exchange_rates.last_updated_at && !self.invoices.has_active_reference(ts)
            {
                self.exchange_rates.remove_snapshot(ts);
            }
            proof {
                assert(tss@.take(i + 1) =~= tss@.take(i as int).push(ts));
                assert(!tss@.take(i as int).contains(ts)) by {
                    if tss@.take(i as int).contains(ts) {
                        let c = choose|c: int|
                            0 <= c < tss@.take(i as int).len() && tss@.take(i as int)[c] == ts;
                        assert(rates0[c].timestamp == rates0[i as int].timestamp);
                        assert(snap_key()(rates0[c]) == snap_key()(rates0[i as int]));
                    }
                }
                assert forall|t: Timestamp| #[trigger]
                    has_key(self.exchange_rates@, snap_key(), t) == (has_key(rates0, snap_key(), t)
                        && !(tss@.take(i + 1).contains(t) && t != last
                        && !crate::invoices::spec_references(self.invoices.active(), t))) by {
                    assert(tss@.take(i + 1).contains(t) == (tss@.take(i as int).contains(t) || t
                        == ts)) by {
                        let tq = tss@.take(i + 1);
                        let tp = tss@.take(i as int);
                        if tq.contains(t) {
                            let c = choose|c: int| 0 <= c < tq.len() && tq[c] == t;
                            if c < i {
                                assert(tp[c] == t);
                            }
                        }
                        if tp.contains(t) {
                            let c = choose|c: int| 0 <= c < tp.len() && tp[c] == t;
                            assert(tq[c] == t);
                        }
                        if t == ts {
                            assert(tq[i as int] == ts);
                        }
                    }
                    assert(has_key(pre, snap_key(), t) == (has_key(rates0, snap_key(), t) && !(
                    tss@.take(i as int).contains(t) && t != last
                        && !crate::invoices::spec_references(self.invoices.active(), t))));
                    if ts != last && !crate::invoices::spec_references(
                        self.invoices.active(),
                        ts,
                    ) {
                        if t != ts {
                            assert(has_key(self.exchange_rates@, snap_key(), t) == has_key(
                                pre,
                                snap_key(),
                                t,
                            ));
                        } else {
                            assert(!has_key(self.exchange_rates@, snap_key(), ts));
                        }
                    } else {
                        assert(self.exchange_rates@ == pre);
                    }
                }
            }
        }
        proof {
            assert forall|ts: Timestamp| #[trigger]
                has_key(self.exchange_rates@, snap_key(), ts) == (has_key(rates0, snap_key(), ts)
                    && (ts == last || crate::invoices::spec_references(
                    self.invoices.active(),
                    ts,
                ))) by {
                if has_key(rates0, snap_key(), ts) {
                    let c = choose|c: int| 0 <= c < rates0.len() && rates0[c].timestamp == ts;
                    assert(tss@[c] == ts);
                    assert(tss@.take(n as int).contains(ts)) by {
                        assert(tss@.take(n as int)[c] == ts);
                    }
                }
            }
        }
    }

    /// Records a fresh set of oracle rates as the current snapshot at `now`:
    /// the previous current snapshot is dropped if no active invoice
    /// references it, `now` becomes current, and each reported rate whose
    /// ticker is a supported token is stored, converted to the 8-decimal
    /// standard (unsupported tickers are deliberately dropped).
    pub fn update_exchange_rates(&mut self, external_rates: Vec<ExternalRate>, now: Timestamp)
        requires
            old(self).wf(),
            forall|j: int|
                0 <= j < external_rates@.len() ==> (#[trigger] external_rates@[j]).decimals
                    <= MAX_DECIMALS,
        ensures
            final(self).wf(),
            final(self).shops == old(self).shops,
            final(self).invoices == old(self).invoices,
            final(self).supported_tokens == old(self).supported_tokens,
            final(self).fee_collector_account == old(self).fee_collector_account,
            final(self).exchange_rates.last_updated_at == now,
            final(self).exchange_rates.mock == old(self).exchange_rates.mock,
            // The previous current snapshot is dropped exactly when no
            // active invoice references it (unless it is `now` itself).
            forall|ts: Timestamp|
                ts != now && ts != old(self).exchange_rates.last_updated_at ==> #[trigger] has_key(
                    final(self).exchange_rates@,
                    snap_key(),
                    ts,
                ) == has_key(old(self).exchange_rates@, snap_key(), ts),
            old(self).exchange_rates.last_updated_at != now ==> has_key(
                final(self).exchange_rates@,
                snap_key(),
                old(self).exchange_rates.last_updated_at,
            ) == (has_key(
                old(self).exchange_rates@,
                snap_key(),
                old(self).exchange_rates.last_updated_at,
            ) && crate::invoices::spec_references(
                old(self).invoices.active(),
                old(self).exchange_rates.last_updated_at,
            )),
            forall|ts: Timestamp|
                ts != now && has_key(final(self).exchange_rates@, snap_key(), ts)
                    ==> #[trigger] at_key(final(self).exchange_rates@, snap_key(), ts) == at_key(
                    old(self).exchange_rates@,
                    snap_key(),
                    ts,
                ),
            // Every supported reported ticker ends up in the snapshot at
            // `now` with its last reported value, rescaled.
            forall|t: Seq<u8>, v: DecimalView|
                latest_rate(
                    Seq::new(external_rates@.len(), |j: int| external_rates@[j]@),
                    external_rates@.len() as int,
                    t,
                    v,
                ) && spec_has_ticker(old(self).supported_tokens@, t) ==> has_key(
                    final(self).exchange_rates@,
                    snap_key(),
                    now,
                ) && has_key(
                    at_key(final(self).exchange_rates@, snap_key(), now).entries,
                    rate_key(),
                    t,
                ) && at_key(
                    at_key(final(self).exchange_rates@, snap_key(), now).entries,
                    rate_key(),
                    t,
                ) == (RateEntryView { ticker: t, rate: v }),
            // Nothing else enters the snapshot at `now`: a ticker without a
            // supported report keeps exactly the entry (if any) that a kept
            // snapshot at `now` already carried.  In particular a reported
            // but unsupported ticker is deliberately dropped.
            forall|t: Seq<u8>|
                !(reports_ticker(
                    Seq::new(external_rates@.len(), |j: int| external_rates@[j]@),
                    external_rates@.len() as int,
                    t,
                ) && spec_has_ticker(old(self).supported_tokens@, t)) ==> #[trigger] snap_entry_has(
                    final(self).exchange_rates@,
                    now,
                    t,
                ) == (snap_entry_has(old(self).exchange_rates@, now, t) && !(now == old(
                    self,
                ).exchange_rates.last_updated_at && !crate::invoices::spec_references(
                    old(self).invoices.active(),
                    now,
                ))),
            forall|t: Seq<u8>|
                !(reports_ticker(
                    Seq::new(external_rates@.len(), |j: int| external_rates@[j]@),
                    external_rates@.len() as int,
                    t,
                ) && spec_has_ticker(old(self).supported_tokens@, t)) && snap_entry_has(
                    final(self).exchange_rates@,
                    now,
                    t,
                ) ==> #[trigger] snap_entry_at(final(self).exchange_rates@, now, t) == snap_entry_at(
                    old(self).exchange_rates@,
                    now,
                    t,
                ),
    {
        let prev = self.exchange_rates.last_updated_at;
        if !self.invoices.has_active_reference(prev) {
            self.exchange_rates.remove_snapshot(prev);
        }
        self.exchange_rates.last_updated_at = now;
        proof {
            assert forall|t: Seq<u8>| #[trigger]
                snap_entry_has(self.exchange_rates@, now, t) == (snap_entry_has(
                    old(self).exchange_rates@,
                    now,
                    t,
                ) && !(now == prev && !crate::invoices::spec_references(
                    old(self).invoices.active(),
                    now,
                ))) by {
                if now != prev || crate::invoices::spec_references(
                    old(self).invoices.active(),
                    now,
                ) {
                    if has_key(self.exchange_rates@, snap_key(), now) || has_key(
                        old(self).exchange_rates@,
                        snap_key(),
                        now,
                    ) {
                        assert(has_key(self.exchange_rates@, snap_key(), now) == has_key(
                            old(self).exchange_rates@,
                            snap_key(),
                            now,
                        ));
                    }
                } else {
                    assert(!has_key(self.exchange_rates@, snap_key(), now));
                }
            }
        }
        let ghost rv = Seq::new(external_rates@.len(), |j: int| external_rates@[j]@);
        let mut rest = external_rates;
        let ghost total = rv.len() as int;
        let ghost mut done: int = 0;
        while rest.len() > 0
            invariant
                0 <= done <= total,
                total == rv.len(),
                total - done == rest@.len(),
                forall|x: int| 0 <= x < rest@.len() ==> (#[trigger] rest@[x])@ == rv[done + x],
                forall|j: int| 0 <= j < rv.len() ==> (#[trigger] rv[j]).decimals <= MAX_DECIMALS,
                old(self).wf(),
                prev == old(self).exchange_rates.last_updated_at,
                self.shops == old(self).shops,
                self.invoices == old(self).invoices,
                self.supported_tokens == old(self).supported_tokens,
                self.fee_collector_account == old(self).fee_collector_account,
                self.exchange_rates.wf(),
                self.exchange_rates.last_updated_at == now,
                self.exchange_rates.mock == old(self).exchange_rates.mock,
                forall|ts: Timestamp|
                    ts != now ==> #[trigger] has_key(self.exchange_rates@, snap_key(), ts) == (
                    has_key(old(self).exchange_rates@, snap_key(), ts) && !(ts == old(
                        self).exchange_rates.last_updated_at && !crate::invoices::spec_references(
                        old(self).invoices.active(),
                        ts,
                    ))),
                forall|ts: Timestamp|
                    ts != now && has_key(self.exchange_rates@, snap_key(), ts) ==> #[trigger] at_key(
                        self.exchange_rates@,
                        snap_key(),
                        ts,
                    ) == at_key(old(self).exchange_rates@, snap_key(), ts),
                forall|t: Seq<u8>, v: DecimalView|
                    latest_rate(rv, done, t, v) && spec_has_ticker(old(self).supported_tokens@, t)
                        ==> has_key(self.exchange_rates@, snap_key(), now) && has_key(
                        at_key(self.exchange_rates@, snap_key(), now).entries,
                        rate_key(),
                        t,
                    ) && at_key(
                        at_key(self.exchange_rates@, snap_key(), now).entries,
                        rate_key(),
                        t,
                    ) == (RateEntryView { ticker: t, rate: v }),
                forall|t: Seq<u8>|
                    !(reports_ticker(rv, done, t) && spec_has_ticker(
                        old(self).supported_tokens@,
                        t,
                    )) ==> #[trigger] snap_entry_has(self.exchange_rates@, now, t) == (
                    snap_entry_has(old(self).exchange_rates@, now, t) && !(now == old(
                        self).exchange_rates.last_updated_at && !crate::invoices::spec_references(
                        old(self).invoices.active(),
                        now,
                    ))),
                forall|t: Seq<u8>|
                    !(reports_ticker(rv, done, t) && spec_has_ticker(
                        old(self).supported_tokens@,
                        t,
                    )) && snap_entry_has(self.exchange_rates@, now, t) ==> #[trigger] snap_entry_at(
                        self.exchange_rates@,
                        now,
                        t,
                    ) == snap_entry_at(old(self).exchange_rates@, now, t),
            decreases rest@.len(),
        {
            let ghost rest_pre = rest@;
            let er = rest.remove(0);
            proof {
                assert(er@ == rv[done]);
                assert forall|x: int| 0 <= x < rest@.len() implies (#[trigger] rest@[x])@ == rv[
                    done + 1 + x
                ] by {
                    assert(rest@[x] == rest_pre[x + 1]);
                }
            }
            let ghost pre_rates = self.exchange_rates@;
            if self.supported_tokens.contains_ticker(&er.ticker) {
                let raw = match EDs::new(crate::bignat::big_from_u64(er.rate), er.decimals) {
                    Ok(v) => v,
                    Err(_) => {
                        proof {
                            assert(false);
                        }
                        return ;
                    },
                };
                let rate8 = match raw.to_decimals(USD_DECIMALS) {
                    Ok(v) => v,
                    Err(_) => {
                        proof {
                            assert(false);
                        }
                        return ;
                    },
                };
                proof {
                    assert(rate8@ == conv_rate(rv[done]));
                }
                self.exchange_rates.insert_rate(now, er.ticker, rate8);
            }
            proof {
                done = done + 1;
                assert forall|t: Seq<u8>, v: DecimalView|
                    latest_rate(rv, done, t, v) && spec_has_ticker(
                        old(self).supported_tokens@,
                        t,
                    ) implies has_key(self.exchange_rates@, snap_key(), now) && has_key(
                    at_key(self.exchange_rates@, snap_key(), now).entries,
                    rate_key(),
                    t,
                ) && at_key(at_key(self.exchange_rates@, snap_key(), now).entries, rate_key(), t)
                    == (RateEntryView { ticker: t, rate: v }) by {
                    let j = choose|j: int|
                        0 <= j < done && (#[trigger] rv[j]).ticker == t && v == conv_rate(rv[j]) && (
                        forall|l: int| j < l < done ==> (#[trigger] rv[l]).ticker != t);
                    if j == done - 1 {
                        assert(t == rv[done - 1].ticker);
                    } else {
                        assert(rv[done - 1].ticker != t);
                        assert(latest_rate(rv, done - 1, t, v));
                    }
                }
                let ghost carried = |t: Seq<u8>|
                    snap_entry_has(old(self).exchange_rates@, now, t) && !(now == prev
                        && !crate::invoices::spec_references(old(self).invoices.active(), now));
                assert forall|t: Seq<u8>|
                    !(reports_ticker(rv, done, t) && spec_has_ticker(
                        old(self).supported_tokens@,
                        t,
                    )) implies {
                    &&& #[trigger] snap_entry_has(self.exchange_rates@, now, t) == carried(t)
                    &&& snap_entry_has(self.exchange_rates@, now, t) ==> snap_entry_at(
                        self.exchange_rates@,
                        now,
                        t,
                    ) == snap_entry_at(old(self).exchange_rates@, now, t)
                } by {
                    assert(!(reports_ticker(rv, done - 1, t) && spec_has_ticker(
                        old(self).supported_tokens@,
                        t,
                    ))) by {
                        if reports_ticker(rv, done - 1, t) {
                            let w = choose|w: int|
                                0 <= w < done - 1 && (#[trigger] rv[w]).ticker == t;
                            assert(reports_ticker(rv, done, t));
                        }
                    }
                    assert(snap_entry_has(pre_rates, now, t) == carried(t));
                    assert(snap_entry_has(pre_rates, now, t) ==> snap_entry_at(pre_rates, now, t)
                        == snap_entry_at(old(self).exchange_rates@, now, t));
                    let tick = rv[done - 1].ticker;
                    if spec_has_ticker(old(self).supported_tokens@, tick) {
                        // This iteration inserted an entry, but only for the
                        // reported supported ticker, which `t` is not.
                        assert(t != tick) by {
                            if t == tick {
                                assert((#[trigger] rv[done - 1]).ticker == t);
                                assert(reports_ticker(rv, done, t));
                            }
                        }
                        if has_key(pre_rates, snap_key(), now) {
                            assert(has_key(
                                at_key(self.exchange_rates@, snap_key(), now).entries,
                                rate_key(),
                                t,
                            ) == has_key(
                                at_key(pre_rates, snap_key(), now).entries,
                                rate_key(),
                                t,
                            ));
                            assert(snap_entry_has(self.exchange_rates@, now, t)
                                == snap_entry_has(pre_rates, now, t));
                            if snap_entry_has(self.exchange_rates@, now, t) {
                                assert(at_key(
                                    at_key(self.exchange_rates@, snap_key(), now).entries,
                                    rate_key(),
                                    t,
                                ) == at_key(
                                    at_key(pre_rates, snap_key(), now).entries,
                                    rate_key(),
                                    t,
                                ));
                                assert(snap_entry_at(self.exchange_rates@, now, t)
                                    == snap_entry_at(pre_rates, now, t));
                            }
                        } else {
                            assert(!snap_entry_has(pre_rates, now, t));
                            // The freshly created snapshot holds only the
                            // inserted ticker's entry.
                            let entries = at_key(self.exchange_rates@, snap_key(), now).entries;
                            assert(entries.len() == 1);
                            assert(has_key(entries, rate_key(), tick));
                            if has_key(entries, rate_key(), t) {
                                let c = choose|i: int|
                                    0 <= i < entries.len() && rate_key()(#[trigger] entries[i])
                                        == t;
                                let d = choose|i: int|
                                    0 <= i < entries.len() && rate_key()(#[trigger] entries[i])
                                        == tick;
                                assert(c == 0 && d == 0);
                                assert(entries[0].ticker == t && entries[0].ticker == tick);
                            }
                            assert(!snap_entry_has(self.exchange_rates@, now, t));
                        }
                    } else {
                        assert(self.exchange_rates@ == pre_rates);
                    }
                }
            }
        }
        proof {
            assert(done == total);
        }
    }

    /// The most recent snapshot at or before the requested time, or the
    /// current snapshot when no time is given.
    pub fn get_rates_at(&self, timestamp_opt: Option<Timestamp>) -> (r: Option<&RateSnapshot>)
        requires
            self.wf(),
        ensures
            match timestamp_opt {
                Some(t) => match r {
                    Some(s) => s@.timestamp <= t && has_key(
                        self.exchange_rates@,
                        snap_key(),
                        s@.timestamp,
                    ),
                    None => forall|i: int|
                        0 <= i < self.exchange_rates@.len() ==> (
                        #[trigger] self.exchange_rates@[i]).timestamp > t,
                },
                None => match r {
                    Some(s) => s@ == at_key(
                        self.exchange_rates@,
                        snap_key(),
                        self.exchange_rates.last_updated_at,
                    ) && has_key(
                        self.exchange_rates@,
                        snap_key(),
                        self.exchange_rates.last_updated_at,
                    ),
                    None => !has_key(
                        self.exchange_rates@,
                        snap_key(),
                        self.exchange_rates.last_updated_at,
                    ),
                },
            },
    {
        match timestamp_opt {
            Some(t) => self.exchange_rates.get_rates(t),
            None => {
                let ts = self.exchange_rates.last_updated_at;
                let n = self.exchange_rates.rates.len();
                for i in 0..n
                    invariant
                        n == self.exchange_rates.rates@.len(),
                        unique_keys(self.exchange_rates@, snap_key()),
                        timestamp_opt is None,
                        ts == self.exchange_rates.last_updated_at,
                        forall|j: int|
                            0 <= j < i ==> (#[trigger] self.exchange_rates@[j]).timestamp != ts,
                {
                    if self.exchange_rates.rates[i].timestamp == ts {
                        proof {
                            assert(self.exchange_rates@[i as int]
                                == self.exchange_rates.rates@[i as int]@);
                            crate::assoc::lemma_at_index(self.exchange_rates@, snap_key(), i as int);
                        }
                        return Some(&self.exchange_rates.rates[i]);
                    }
                }
                None
            },
        }
    }
}

/// Discards expired invoices and the snapshots nothing references any more:
/// pure delegation to `State::purge_expired_invoices`, with the same
/// contract.
pub fn garbage_collect_invoices(state: &mut State)
    requires
        old(state).wf(),
    ensures
        final(state).wf(),
        final(state).shops == old(state).shops,
        final(state).supported_tokens == old(state).supported_tokens,
        final(state).fee_collector_account == old(state).fee_collector_account,
        final(state).exchange_rates.last_updated_at == old(state).exchange_rates.last_updated_at,
        forall|k: Seq<u8>|
            #[trigger] has_key(final(state).invoices.invs(), inv_key(), k) == (has_key(
                old(state).invoices.invs(),
                inv_key(),
                k,
            ) && !(has_key(old(state).invoices.active(), aref_key(), k)
                && crate::invoices::sweep_doomed(
                at_key(old(state).invoices.invs(), inv_key(), k),
            ))),
        forall|k: Seq<u8>|
            has_key(final(state).invoices.invs(), inv_key(), k) ==> #[trigger] at_key(
                final(state).invoices.invs(),
                inv_key(),
                k,
            ) == if has_key(old(state).invoices.active(), aref_key(), k) {
                crate::invoices::sweep_inv(at_key(old(state).invoices.invs(), inv_key(), k))
            } else {
                at_key(old(state).invoices.invs(), inv_key(), k)
            },
        forall|k: Seq<u8>|
            #[trigger] has_key(final(state).invoices.active(), aref_key(), k) == (has_key(
                old(state).invoices.active(),
                aref_key(),
                k,
            ) && !crate::invoices::sweep_doomed(
                at_key(old(state).invoices.invs(), inv_key(), k),
            )),
        final(state).invoices.inactive() == old(state).invoices.inactive(),
        forall|ts: Timestamp|
            #[trigger] has_key(final(state).exchange_rates@, snap_key(), ts) == (has_key(
                old(state).exchange_rates@,
                snap_key(),
                ts,
            ) && (ts == old(state).exchange_rates.last_updated_at
                || crate::invoices::spec_references(final(state).invoices.active(), ts))),
        forall|ts: Timestamp|
            has_key(final(state).exchange_rates@, snap_key(), ts) ==> #[trigger] at_key(
                final(state).exchange_rates@,
                snap_key(),
                ts,
            ) == at_key(old(state).exchange_rates@, snap_key(), ts),
{
    state.purge_expired_invoices();
}

/// The periodic expiry tick: one garbage-collection pass, with the same
/// contract.
pub fn handle_discard_expired_invoices_interval(state: &mut State)
    requires
        old(state).wf(),
    ensures
        final(state).wf(),
        final(state).shops == old(state).shops,
        final(state).supported_tokens == old(state).supported_tokens,
        final(state).fee_collector_account == old(state).fee_collector_account,
        final(state).exchange_rates.last_updated_at == old(state).exchange_rates.last_updated_at,
        forall|k: Seq<u8>|
            #[trigger] has_key(final(state).invoices.invs(), inv_key(), k) == (has_key(
                old(state).invoices.invs(),
                inv_key(),
                k,
            ) && !(has_key(old(state).invoices.active(), aref_key(), k)
                && crate::invoices::sweep_doomed(
                at_key(old(state).invoices.invs(), inv_key(), k),
            ))),
        forall|k: Seq<u8>|
            has_key(final(state).invoices.invs(), inv_key(), k) ==> #[trigger] at_key(
                final(state).invoices.invs(),
                inv_key(),
                k,
            ) == if has_key(old(state).invoices.active(), aref_key(), k) {
                crate::invoices::sweep_inv(at_key(old(state).invoices.invs(), inv_key(), k))
            } else {
                at_key(old(state).invoices.invs(), inv_key(), k)
            },
        forall|k: Seq<u8>|
            #[trigger] has_key(final(state).invoices.active(), aref_key(), k) == (has_key(
                old(state).invoices.active(),
                aref_key(),
                k,
            ) && !crate::invoices::sweep_doomed(
                at_key(old(state).invoices.invs(), inv_key(), k),
            )),
        final(state).invoices.inactive() == old(state).invoices.inactive(),
        forall|ts: Timestamp|
            #[trigger] has_key(final(state).exchange_rates@, snap_key(), ts) == (has_key(
                old(state).exchange_rates@,
                snap_key(),
                ts,
            ) && (ts == old(state).exchange_rates.last_updated_at
                || crate::invoices::spec_references(final(state).invoices.active(), ts))),
        forall|ts: Timestamp|
            has_key(final(state).exchange_rates@, snap_key(), ts) ==> #[trigger] at_key(
                final(state).exchange_rates@,
                snap_key(),
                ts,
            ) == at_key(old(state).exchange_rates@, snap_key(), ts),
{
    garbage_collect_invoices(state);
}

} // verus!
