//! The exchange-rate snapshot store: for each fetch timestamp, the USD rate
//! of every supported ticker at that moment, plus the distinguished "current"
//! timestamp.  Invoices lock to a snapshot at creation; a snapshot may be
//! dropped once no active invoice references it (and it is not current).

use vstd::prelude::*;

use crate::assoc::{at_key, has_key, lemma_at_index, lemma_push_frame, lemma_remove_frame,
    lemma_update_frame, unique_keys};
use crate::decimal::{DecimalView, EDs, USD_DECIMALS};
use crate::ids::{Ticker, Timestamp};
use vstd::pervasive::VecAdditionalExecFns;

verus! {

/// The index of the entry for `ticker`, if any.
fn find_entry(entries: &Vec<RateEntry>, ticker: &Ticker) -> (r: Option<usize>)
    ensures
        match r {
            Some(j) => j < entries@.len() && entries@[j as int]@.ticker == ticker@,
            None => forall|l: int|
                0 <= l < entries@.len() ==> (#[trigger] entries@[l])@.ticker != ticker@,
        },
{
    let m = entries.len();
    for j in 0..m
        invariant
            m == entries@.len(),
            forall|l: int| 0 <= l < j ==> (#[trigger] entries@[l])@.ticker != ticker@,
    {
        if entries[j].ticker.eq_ticker(ticker) {
            return Some(j);
        }
    }
    None
}

/// The mathematical content of one ticker's rate entry.
pub ghost struct RateEntryView {
    pub ticker: Seq<u8>,
    pub rate: DecimalView,
}

/// One ticker's USD rate inside a snapshot, at the standard 8-decimal scale.
pub struct RateEntry {
    pub ticker: Ticker,
    pub rate: EDs,
}

impl View for RateEntry {
    type V = RateEntryView;

    open spec fn view(&self) -> RateEntryView {
        RateEntryView { ticker: self.ticker@, rate: self.rate@ }
    }
}

/// The mathematical content of a snapshot.
pub ghost struct SnapshotView {
    pub timestamp: Timestamp,
    pub entries: Seq<RateEntryView>,
}

/// All rates captured at one point in time.
pub struct RateSnapshot {
    pub timestamp: Timestamp,
    pub entries: Vec<RateEntry>,
}

impl View for RateSnapshot {
    type V = SnapshotView;

    open spec fn view(&self) -> SnapshotView {
        SnapshotView {
            timestamp: self.timestamp,
            entries: Seq::new(self.entries@.len(), |i: int| self.entries@[i]@),
        }
    }
}

/// The key of a snapshot: its timestamp.
pub open spec fn snap_key() -> spec_fn(SnapshotView) -> Timestamp {
    |s: SnapshotView| s.timestamp
}

/// The key of a rate entry: its ticker.
pub open spec fn rate_key() -> spec_fn(RateEntryView) -> Seq<u8> {
    |e: RateEntryView| e.ticker
}

/// A snapshot is well-formed when its tickers are unique and every rate is a
/// well-formed decimal at the 8-decimal USD scale.
pub open spec fn snapshot_wf(s: SnapshotView) -> bool {
    &&& unique_keys(s.entries, rate_key())
    &&& forall|i: int|
        0 <= i < s.entries.len() ==> (#[trigger] s.entries[i]).rate.scale == USD_DECIMALS as nat
}

/// Whether the store holds a snapshot at `ts` with an entry for ticker `t`.
pub open spec fn snap_entry_has(snaps: Seq<SnapshotView>, ts: Timestamp, t: Seq<u8>) -> bool {
    has_key(snaps, snap_key(), ts) && has_key(
        at_key(snaps, snap_key(), ts).entries,
        rate_key(),
        t,
    )
}

/// The entry for ticker `t` in the snapshot at `ts` (meaningful when
/// `snap_entry_has` holds).
pub open spec fn snap_entry_at(snaps: Seq<SnapshotView>, ts: Timestamp, t: Seq<u8>) -> RateEntryView {
    at_key(at_key(snaps, snap_key(), ts).entries, rate_key(), t)
}

/// The exchange-rate snapshot store.
pub struct ExchangeRatesState {
    pub mock: bool,
    pub last_updated_at: Timestamp,
    pub rates: Vec<RateSnapshot>,
}

impl View for ExchangeRatesState {
    type V = Seq<SnapshotView>;

    open spec fn view(&self) -> Seq<SnapshotView> {
        Seq::new(self.rates@.len(), |i: int| self.rates@[i]@)
    }
}

impl ExchangeRatesState {
    /// Store well-formedness: snapshot timestamps are unique and every
    /// snapshot is well-formed.
    pub open spec fn wf(&self) -> bool {
        &&& unique_keys(self@, snap_key())
        &&& forall|i: int| 0 <= i < self@.len() ==> snapshot_wf(#[trigger] self@[i])
    }

    pub fn new() -> (r: ExchangeRatesState)
        ensures
            r.wf(),
            r@.len() == 0,
            r.mock == false,
            r.last_updated_at == 0,
    {
        ExchangeRatesState { mock: false, last_updated_at: 0, rates: Vec::new() }
    }

    pub fn should_mock(&self) -> (r: bool)
        ensures
            r == self.mock,
    {
        self.mock
    }

    pub fn set_should_mock(&mut self, mock: bool)
        ensures
            final(self).mock == mock,
            final(self)@ == old(self)@,
            final(self).last_updated_at == old(self).last_updated_at,
            final(self).wf() == old(self).wf(),
    {
        self.mock = mock;
    }

    /// The index of the snapshot taken at `ts`, if any.
    fn find_snapshot(&self, ts: Timestamp) -> (r: Option<usize>)
        ensures
            match r {
                Some(i) => i < self@.len() && self@[i as int].timestamp == ts,
                None => !has_key(self@, snap_key(), ts),
            },
    {
        let n = self.rates.len();
        for i in 0..n
            invariant
                n == self.rates@.len(),
                forall|j: int| 0 <= j < i ==> self@[j].timestamp != ts,
        {
            if self.rates[i].timestamp == ts {
                return Some(i);
            }
        }
        None
    }

    /// The most recent snapshot taken at or before `timestamp`, if any.
    pub fn get_rates(&self, timestamp: Timestamp) -> (r: Option<&RateSnapshot>)
        requires
            self.wf(),
        ensures
            match r {
                Some(s) => {
                    &&& s@.timestamp <= timestamp
                    &&& has_key(self@, snap_key(), s@.timestamp)
                    &&& at_key(self@, snap_key(), s@.timestamp) == s@
                    &&& forall|i: int|
                        0 <= i < self@.len() && (#[trigger] self@[i]).timestamp <= timestamp
                            ==> self@[i].timestamp <= s@.timestamp
                },
                None => forall|i: int|
                    0 <= i < self@.len() ==> (#[trigger] self@[i]).timestamp > timestamp,
            },
    {
        let n = self.rates.len();
        let mut best: Option<usize> = None;
        for i in 0..n
            invariant
                n == self.rates@.len(),
                match best {
                    Some(b) => {
                        &&& b < i <= n
                        &&& self@[b as int].timestamp <= timestamp
                        &&& forall|j: int|
                            0 <= j < i && (#[trigger] self@[j]).timestamp <= timestamp
                                ==> self@[j].timestamp <= self@[b as int].timestamp
                    },
                    None => forall|j: int|
                        0 <= j < i ==> (#[trigger] self@[j]).timestamp > timestamp,
                },
        {
            if self.rates[i].timestamp <= timestamp {
                match best {
                    Some(b) => {
                        if self.rates[b].timestamp <= self.rates[i].timestamp {
                            best = Some(i);
                        }
                    },
                    None => {
                        best = Some(i);
                    },
                }
            }
        }
        match best {
            Some(b) => {
                proof {
                    lemma_at_index(self@, snap_key(), b as int);
                }
                Some(&self.rates[b])
            },
            None => None,
        }
    }

    /// The rate of `ticker` in the snapshot taken at `ts`, if both exist.
    pub fn get_exchange_rate(&self, ts: Timestamp, ticker: &Ticker) -> (r: Option<&EDs>)
        requires
            self.wf(),
        ensures
            match r {
                Some(rate) => {
                    &&& has_key(self@, snap_key(), ts)
                    &&& has_key(at_key(self@, snap_key(), ts).entries, rate_key(), ticker@)
                    &&& rate@ == at_key(
                        at_key(self@, snap_key(), ts).entries,
                        rate_key(),
                        ticker@,
                    ).rate
                    &&& rate.wf()
                    &&& rate@.scale == USD_DECIMALS as nat
                },
                None => !has_key(self@, snap_key(), ts) || !has_key(
                    at_key(self@, snap_key(), ts).entries,
                    rate_key(),
                    ticker@,
                ),
            },
    {
        let i = match self.find_snapshot(ts) {
            Some(i) => i,
            None => {
                return None;
            },
        };
        proof {
            lemma_at_index(self@, snap_key(), i as int);
        }
        let snap = &self.rates[i];
        proof {
            assert(snap@ == self@[i as int]);
            assert(snapshot_wf(snap@));
        }
        match find_entry(&snap.entries, ticker) {
            Some(j) => {
                proof {
                    assert(snap@.entries[j as int] == snap.entries@[j as int]@);
                    lemma_at_index(snap@.entries, rate_key(), j as int);
                }
                Some(&snap.entries[j].rate)
            },
            None => {
                proof {
                    if has_key(snap@.entries, rate_key(), ticker@) {
                        let c = choose|c: int|
                            0 <= c < snap@.entries.len() && snap@.entries[c].ticker == ticker@;
                        assert(snap.entries@[c]@.ticker == ticker@);
                    }
                }
                None
            },
        }
    }

    /// The timestamps of all held snapshots.
    pub fn snapshot_timestamps(&self) -> (r: Vec<Timestamp>)
        ensures
            r@.len() == self@.len(),
            forall|i: int| 0 <= i < r@.len() ==> r@[i] == (#[trigger] self@[i]).timestamp,
    {
        let mut r: Vec<Timestamp> = Vec::new();
        let n = self.rates.len();
        for i in 0..n
            invariant
                n == self.rates@.len(),
                r@.len() == i,
                forall|j: int| 0 <= j < i ==> r@[j] == (#[trigger] self@[j]).timestamp,
        {
            r.push(self.rates[i].timestamp);
        }
        r
    }

    /// Removes the snapshot taken at `ts`, whatever references it.
    pub fn remove_snapshot(&mut self, ts: Timestamp)
        requires
            old(self).wf(),
        ensures
            final(self).wf(),
            !has_key(final(self)@, snap_key(), ts),
            forall|t: Timestamp|
                t != ts ==> #[trigger] has_key(final(self)@, snap_key(), t) == has_key(
                    old(self)@,
                    snap_key(),
                    t,
                ),
            forall|t: Timestamp|
                t != ts && has_key(final(self)@, snap_key(), t) ==> #[trigger] at_key(
                    final(self)@,
                    snap_key(),
                    t,
                ) == at_key(old(self)@, snap_key(), t),
            final(self).mock == old(self).mock,
            final(self).last_updated_at == old(self).last_updated_at,
    {
        let ghost s0 = self@;
        match self.find_snapshot(ts) {
            Some(i) => {
                self.rates.remove(i);
                proof {
                    assert(self@ =~= s0.remove(i as int));
                    lemma_remove_frame(s0, snap_key(), i as int);
                }
            },
            None => {},
        }
    }

    /// Removes the snapshot taken at `ts` unless it is the current one, which
    /// is never evicted.
    pub fn delete_outdated(&mut self, ts: Timestamp)
        requires
            old(self).wf(),
        ensures
            final(self).wf(),
            ts == old(self).last_updated_at ==> *final(self) == *old(self),
            ts != old(self).last_updated_at ==> !has_key(final(self)@, snap_key(), ts),
            forall|t: Timestamp|
                t != ts ==> #[trigger] has_key(final(self)@, snap_key(), t) == has_key(
                    old(self)@,
                    snap_key(),
                    t,
                ),
            forall|t: Timestamp|
                t != ts && has_key(final(self)@, snap_key(), t) ==> #[trigger] at_key(
                    final(self)@,
                    snap_key(),
                    t,
                ) == at_key(old(self)@, snap_key(), t),
            final(self).mock == old(self).mock,
            final(self).last_updated_at == old(self).last_updated_at,
    {
        if ts == self.last_updated_at {
            return;
        }
        self.remove_snapshot(ts);
    }

    /// Records the USD rate of one ticker in the snapshot taken at `ts`,
    /// creating the snapshot or replacing the ticker's previous entry.
    pub fn insert_rate(&mut self, ts: Timestamp, ticker: Ticker, rate: EDs)
        requires
            old(self).wf(),
            rate.wf(),
            rate@.scale == USD_DECIMALS as nat,
        ensures
            final(self).wf(),
            has_key(final(self)@, snap_key(), ts),
            has_key(at_key(final(self)@, snap_key(), ts).entries, rate_key(), ticker@),
            at_key(at_key(final(self)@, snap_key(), ts).entries, rate_key(), ticker@)
                == (RateEntryView { ticker: ticker@, rate: rate@ }),
            forall|t: Seq<u8>|
                t != ticker@ && has_key(old(self)@, snap_key(), ts) ==> #[trigger] has_key(
                    at_key(final(self)@, snap_key(), ts).entries,
                    rate_key(),
                    t,
                ) == has_key(at_key(old(self)@, snap_key(), ts).entries, rate_key(), t),
            forall|t: Seq<u8>|
                t != ticker@ && has_key(old(self)@, snap_key(), ts) && has_key(
                    at_key(final(self)@, snap_key(), ts).entries,
                    rate_key(),
                    t,
                ) ==> #[trigger] at_key(at_key(final(self)@, snap_key(), ts).entries, rate_key(), t)
                    == at_key(at_key(old(self)@, snap_key(), ts).entries, rate_key(), t),
            !has_key(old(self)@, snap_key(), ts) ==> at_key(
                final(self)@,
                snap_key(),
                ts,
            ).entries.len() == 1,
            forall|t: Timestamp|
                t != ts ==> #[trigger] has_key(final(self)@, snap_key(), t) == has_key(
                    old(self)@,
                    snap_key(),
                    t,
                ),
            forall|t: Timestamp|
                t != ts && has_key(final(self)@, snap_key(), t) ==> #[trigger] at_key(
                    final(self)@,
                    snap_key(),
                    t,
                ) == at_key(old(self)@, snap_key(), t),
            final(self).mock == old(self).mock,
            final(self).last_updated_at == old(self).last_updated_at,
    {
        let ghost s0 = self@;
        let entry = RateEntry { ticker, rate };
        match self.find_snapshot(ts) {
            Some(i) => {
                let mut snap = self.rates.remove(i);
                proof {
                    assert(self@ =~= s0.remove(i as int));
                    lemma_remove_frame(s0, snap_key(), i as int);
                    lemma_at_index(s0, snap_key(), i as int);
                }
                let ghost mid = self@;
                let ghost e0 = snap@.entries;
                let found = find_entry(&snap.entries, &entry.ticker);
                match found {
                    Some(j) => {
                        proof {
                            assert(e0[j as int] == snap.entries@[j as int]@);
                        }
                        snap.entries.set(j, entry);
                        proof {
                            assert(snap@.entries =~= e0.update(j as int, entry@));
                            lemma_update_frame(e0, rate_key(), j as int, entry@);
                        }
                    },
                    None => {
                        proof {
                            if has_key(e0, rate_key(), entry@.ticker) {
                                let c = choose|c: int|
                                    0 <= c < e0.len() && e0[c].ticker == entry@.ticker;
                                assert(snap.entries@[c]@.ticker == entry@.ticker);
                            }
                        }
                        snap.entries.push(entry);
                        proof {
                            assert(snap@.entries =~= e0.push(entry@));
                            lemma_push_frame(e0, rate_key(), entry@);
                        }
                    },
                }
                let ghost snew = snap@;
                self.rates.push(snap);
                proof {
                    assert(self@ =~= mid.push(snew));
                    lemma_push_frame(mid, snap_key(), snew);
                }
            },
            None => {
                let mut entries: Vec<RateEntry> = Vec::new();
                entries.push(entry);
                let snap = RateSnapshot { timestamp: ts, entries };
                let ghost snew = snap@;
                proof {
                    assert(snew.entries =~= Seq::empty().push(entry@));
                    lemma_push_frame(Seq::<RateEntryView>::empty(), rate_key(), entry@);
                }
                self.rates.push(snap);
                proof {
                    assert(self@ =~= s0.push(snew));
                    lemma_push_frame(s0, snap_key(), snew);
                }
            },
        }
    }
}

} // verus!
