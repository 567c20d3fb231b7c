//! The request and response shapes of the hub's exposed operations.  The
//! host-runtime layer around the library converts these to and from its
//! wire encoding.

use vstd::prelude::*;

use crate::decimal::EDs;
use crate::exchange_rates::RateEntry;
use crate::history::ArchivedInvoice;
use crate::ids::{AccountData, InvoiceId, PrincipalData, ShopId, Ticker, Timestamp};
use crate::invoices::Invoice;
use crate::shops::{PubShop, ReferredShop, Shop};
use crate::tokens::Token;

verus! {

pub struct GetInvoiceRequest {
    pub invoice_id: InvoiceId,
}

pub struct GetInvoiceResponse {
    pub invoice_opt: Option<Invoice>,
}

pub struct CreateInvoiceRequest {
    pub shop_id: ShopId,
    pub qty_usd: EDs,
}

pub struct CreateInvoiceResponse {
    pub invoice_id: InvoiceId,
}

pub struct VerifyPaymentRequest {
    pub invoice_id: InvoiceId,
    pub asset_id: PrincipalData,
    pub block_idx: num_bigint::BigUint,
}

pub struct GetExchangeRatesRequest {
    pub timestamp: Option<Timestamp>,
}

pub struct GetExchangeRatesResponse {
    pub rates: Option<Vec<RateEntry>>,
}

pub struct RegisterShopRequest {
    pub invoice_creators: Vec<PrincipalData>,
    pub name: String,
    pub description: String,
    pub icon_base64: String,
    pub referal: Option<PrincipalData>,
}

pub struct RegisterShopResponse {
    pub shop_id: ShopId,
}

pub struct UpdateShopRequest {
    pub id: ShopId,
    pub new_owner_opt: Option<PrincipalData>,
    pub new_invoice_creators_opt: Option<Vec<PrincipalData>>,
    pub new_name_opt: Option<String>,
    pub new_description_opt: Option<String>,
    pub new_icon_base64_opt: Option<String>,
}

pub struct UpdateShopRespose {
}

pub struct GetMyShopsRequest {
}

pub struct GetMyShopsResponse {
    pub shops: Vec<Shop>,
}

pub struct GetMyReferredShopsRequest {
}

pub struct GetMyReferredShopsResponse {
    pub shops: Vec<ReferredShop>,
}

pub struct GetShopByIdRequest {
    pub id: ShopId,
}

pub struct GetShopByIdResponse {
    pub shop: Option<PubShop>,
}

pub struct WithdrawProfitRequest {
    pub shop_id: ShopId,
    pub asset_id: PrincipalData,
    pub to: AccountData,
    pub qty: EDs,
    pub memo: Option<Vec<u8>>,
}

pub struct WithdrawProfitResponse {
    pub block_idx: num_bigint::BigUint,
}

pub struct GetSupportedTokensRequest {
}

pub struct GetSupportedTokensResponse {
    pub supported_tokens: Vec<Token>,
}

pub struct AddSupportedTokenRequest {
    pub token: Token,
}

pub struct AddSupportedTokenResponse {
}

pub struct RemoveSupportedTokenRequest {
    pub ticker: Ticker,
}

pub struct RemoveSupportedTokenResponse {
}

pub struct PushBatchRequest {
    pub batch: Vec<ArchivedInvoice>,
}

pub struct PushBatchResponse {
}

pub struct HistoryGetInvoiceRequest {
    pub idx: u64,
}

pub struct SetNextRequest {
    pub next: PrincipalData,
}

pub struct SetNextResponse {
}

} // verus!
