//! The transfer record extracted from a ledger block: who paid whom, how
//! much, and under which memo.  Payment verification cross-checks this
//! untrusted record against the invoice.

use vstd::prelude::*;

use crate::decimal::{DecimalView, EDs};
use crate::ids::{AccountData, AccountView, PrincipalData};

verus! {

/// The mathematical content of a transfer record.
pub ghost struct TransferTxnView {
    pub from: AccountView,
    pub to: AccountView,
    pub qty: DecimalView,
    pub token_id: Seq<u8>,
    pub memo: Seq<u8>,
}

/// One token transfer as read from a ledger block.
#[derive(Debug)]
pub struct TransferTxn {
    pub from: AccountData,
    pub to: AccountData,
    pub qty: EDs,
    pub token_id: PrincipalData,
    pub memo: [u8; 32],
}

impl View for TransferTxn {
    type V = TransferTxnView;

    open spec fn view(&self) -> TransferTxnView {
        TransferTxnView {
            from: self.from@,
            to: self.to@,
            qty: self.qty@,
            token_id: self.token_id@,
            memo: self.memo@,
        }
    }
}

impl TransferTxn {
    /// The quantity carries a supported scale (the token's decimal count).
    pub open spec fn wf(&self) -> bool {
        self.qty.wf()
    }
}

} // verus!
