//! The shop registry and earnings ledger: shops with their owners and
//! authorized invoice creators, per-shop accumulated USD earnings, and
//! per-referral per-shop earnings.

use vstd::prelude::*;

use crate::assoc::{at_key, has_key, lemma_at_index, lemma_push_frame, lemma_remove_frame,
    unique_keys};
use crate::decimal::{dec_add, DecimalView, EDs, USD_DECIMALS};
use crate::error::Error;
use crate::ids::{PrincipalData, ShopId};

verus! {

/// The mathematical content of a shop record.
pub ghost struct ShopView {
    pub id: ShopId,
    pub owner: Seq<u8>,
    pub invoice_creators: Seq<Seq<u8>>,
    pub name: Seq<char>,
    pub description: Seq<char>,
    pub icon_base64: Seq<char>,
    pub referral: Option<Seq<u8>>,
    pub total_earned_usd: DecimalView,
}

/// A registered shop.
pub struct Shop {
    pub id: ShopId,
    pub owner: PrincipalData,
    pub invoice_creators: Vec<PrincipalData>,
    pub name: String,
    pub description: String,
    pub icon_base64: String,
    pub referral: Option<PrincipalData>,
    pub total_earned_usd: EDs,
}

impl View for Shop {
    type V = ShopView;

    open spec fn view(&self) -> ShopView {
        ShopView {
            id: self.id,
            owner: self.owner@,
            invoice_creators: Seq::new(
                self.invoice_creators@.len(),
                |i: int| self.invoice_creators@[i]@,
            ),
            name: self.name@,
            description: self.description@,
            icon_base64: self.icon_base64@,
            referral: match self.referral {
                Some(ref p) => Some(p@),
                None => None,
            },
            total_earned_usd: self.total_earned_usd@,
        }
    }
}

impl Shop {
    /// The earnings total is held at the standard USD scale.
    pub open spec fn wf(&self) -> bool {
        &&& self.total_earned_usd.wf()
        &&& self.total_earned_usd@.scale == USD_DECIMALS as nat
    }

    /// A copy holding the same data.
    pub fn duplicate(&self) -> (r: Shop)
        ensures
            r@ == self@,
            r.wf() == self.wf(),
    {
        let mut creators: Vec<PrincipalData> = Vec::new();
        let n = self.invoice_creators.len();
        for i in 0..n
            invariant
                n == self.invoice_creators@.len(),
                creators@.len() == i,
                forall|j: int| 0 <= j < i ==> (#[trigger] creators@[j])@
                    == self.invoice_creators@[j]@,
        {
            creators.push(self.invoice_creators[i].duplicate());
        }
        let r = Shop {
            id: self.id,
            owner: self.owner.duplicate(),
            invoice_creators: creators,
            name: self.name.clone(),
            description: self.description.clone(),
            icon_base64: self.icon_base64.clone(),
            referral: match &self.referral {
                Some(p) => Some(p.duplicate()),
                None => None,
            },
            total_earned_usd: self.total_earned_usd.clone(),
        };
        proof {
            assert(r@.invoice_creators =~= self@.invoice_creators);
        }
        r
    }

    /// The shop's public face: id and display metadata.
    pub fn as_pub(&self) -> (r: PubShop)
        ensures
            r.id == self.id,
            r.name@ == self.name@,
            r.description@ == self.description@,
            r.icon_base64@ == self.icon_base64@,
    {
        PubShop {
            id: self.id,
            name: self.name.clone(),
            description: self.description.clone(),
            icon_base64: self.icon_base64.clone(),
        }
    }
}

/// A shop as shown to anyone.
pub struct PubShop {
    pub id: ShopId,
    pub name: String,
    pub description: String,
    pub icon_base64: String,
}

/// A shop as shown to its referrer, with the referrer's earnings from it.
pub struct ReferredShop {
    pub id: ShopId,
    pub name: String,
    pub description: String,
    pub icon_base64: String,
    pub referral: PrincipalData,
    pub referral_earnings_usd: EDs,
}

/// One referrer's accumulated earnings from one shop.
pub struct ReferralEarning {
    pub referral: PrincipalData,
    pub shop_id: ShopId,
    pub amount: EDs,
}

/// The mathematical content of a referral-earnings entry.
pub ghost struct ReferralEarningView {
    pub referral: Seq<u8>,
    pub shop_id: ShopId,
    pub amount: DecimalView,
}

impl View for ReferralEarning {
    type V = ReferralEarningView;

    open spec fn view(&self) -> ReferralEarningView {
        ReferralEarningView { referral: self.referral@, shop_id: self.shop_id, amount: self.amount@ }
    }
}

/// The key of a shop: its id.
pub open spec fn shop_key() -> spec_fn(ShopView) -> ShopId {
    |s: ShopView| s.id
}

/// The key of a referral-earnings entry: the referrer together with the shop.
pub open spec fn earn_key() -> spec_fn(ReferralEarningView) -> (Seq<u8>, ShopId) {
    |e: ReferralEarningView| (e.referral, e.shop_id)
}

/// The shop registry and earnings ledger.
pub struct ShopsState {
    pub shop_id_generator: ShopId,
    pub shops: Vec<Shop>,
    pub referral_to_shops: Vec<ReferralEarning>,
}

impl ShopsState {
    /// The shops, as views.
    pub open spec fn shops_view(&self) -> Seq<ShopView> {
        Seq::new(self.shops@.len(), |i: int| self.shops@[i]@)
    }

    /// The referral-earnings ledger, as views.
    pub open spec fn earnings_view(&self) -> Seq<ReferralEarningView> {
        Seq::new(self.referral_to_shops@.len(), |i: int| self.referral_to_shops@[i]@)
    }

    /// Registry well-formedness: shop ids are unique and below the id
    /// generator, totals carry the USD scale, referral-earnings entries are
    /// unique per (referrer, shop) and point at shops referred by that
    /// referrer.
    pub open spec fn wf(&self) -> bool {
        &&& unique_keys(self.shops_view(), shop_key())
        &&& forall|i: int|
            0 <= i < self.shops@.len() ==> (#[trigger] self.shops@[i]).wf()
                && self.shops@[i].id < self.shop_id_generator
        &&& unique_keys(self.earnings_view(), earn_key())
        &&& forall|i: int|
            0 <= i < self.earnings_view().len() ==> {
                let e = #[trigger] self.earnings_view()[i];
                &&& e.amount.scale == USD_DECIMALS as nat
                &&& has_key(self.shops_view(), shop_key(), e.shop_id)
                &&& at_key(self.shops_view(), shop_key(), e.shop_id).referral == Some(e.referral)
            }
    }

    pub fn new() -> (r: ShopsState)
        ensures
            r.wf(),
            r.shops_view().len() == 0,
            r.earnings_view().len() == 0,
            r.shop_id_generator == 0,
    {
        ShopsState { shop_id_generator: 0, shops: Vec::new(), referral_to_shops: Vec::new() }
    }

    /// The index of the shop with this id, if any.
    fn find_shop(&self, id: ShopId) -> (r: Option<usize>)
        ensures
            match r {
                Some(i) => i < self.shops_view().len() && self.shops_view()[i as int].id == id,
                None => !has_key(self.shops_view(), shop_key(), id),
            },
    {
        let n = self.shops.len();
        for i in 0..n
            invariant
                n == self.shops@.len(),
                forall|j: int| 0 <= j < i ==> self.shops_view()[j].id != id,
        {
            if self.shops[i].id == id {
                return Some(i);
            }
        }
        None
    }

    /// The index of the earnings entry for this referrer and shop, if any.
    fn find_earning(&self, referral: &PrincipalData, shop_id: ShopId) -> (r: Option<usize>)
        ensures
            match r {
                Some(i) => i < self.earnings_view().len() && self.earnings_view()[i as int].referral
                    == referral@ && self.earnings_view()[i as int].shop_id == shop_id,
                None => !has_key(self.earnings_view(), earn_key(), (referral@, shop_id)),
            },
    {
        let n = self.referral_to_shops.len();
        for i in 0..n
            invariant
                n == self.referral_to_shops@.len(),
                forall|j: int|
                    0 <= j < i ==> (#[trigger] self.earnings_view()[j]).referral != referral@
                        || self.earnings_view()[j].shop_id != shop_id,
        {
            let e = &self.referral_to_shops[i];
            if e.shop_id == shop_id && e.referral.eq_principal(referral) {
                return Some(i);
            }
        }
        proof {
            if has_key(self.earnings_view(), earn_key(), (referral@, shop_id)) {
                let c = choose|c: int|
                    0 <= c < self.earnings_view().len() && earn_key()(self.earnings_view()[c]) == (
                    referral@,
                    shop_id,
                );
                assert(self.earnings_view()[c].referral == referral@);
            }
        }
        None
    }

    /// Registers a shop under a fresh id, owned by the caller, with no
    /// earnings yet; a referrer, when given, starts with a zero earnings
    /// entry for the shop.
    pub fn create_shop(
        &mut self,
        invoice_creators: Vec<PrincipalData>,
        name: String,
        description: String,
        icon_base64: String,
        referral_opt: Option<PrincipalData>,
        caller: PrincipalData,
    ) -> (r: ShopId)
        requires
            old(self).wf(),
            old(self).shop_id_generator < ShopId::MAX,
        ensures
            final(self).wf(),
            r == old(self).shop_id_generator,
            final(self).shop_id_generator == r + 1,
            has_key(final(self).shops_view(), shop_key(), r),
            at_key(final(self).shops_view(), shop_key(), r) == (ShopView {
                id: r,
                owner: caller@,
                invoice_creators: Seq::new(
                    invoice_creators@.len(),
                    |i: int| invoice_creators@[i]@,
                ),
                name: name@,
                description: description@,
                icon_base64: icon_base64@,
                referral: match referral_opt {
                    Some(ref p) => Some(p@),
                    None => None,
                },
                total_earned_usd: DecimalView { mag: 0, scale: USD_DECIMALS as nat },
            }),
            forall|k: ShopId|
                k != r ==> #[trigger] has_key(final(self).shops_view(), shop_key(), k) == has_key(
                    old(self).shops_view(),
                    shop_key(),
                    k,
                ),
            forall|k: ShopId|
                k != r && has_key(final(self).shops_view(), shop_key(), k) ==> #[trigger] at_key(
                    final(self).shops_view(),
                    shop_key(),
                    k,
                ) == at_key(old(self).shops_view(), shop_key(), k),
            referral_opt matches Some(p) ==> final(self).earnings_view() == old(
                self,
            ).earnings_view().push(
                ReferralEarningView {
                    referral: p@,
                    shop_id: r,
                    amount: DecimalView { mag: 0, scale: USD_DECIMALS as nat },
                },
            ),
            referral_opt is None ==> final(self).earnings_view() == old(self).earnings_view(),
    {
        let id = self.shop_id_generator;
        self.shop_id_generator = id + 1;
        let zero = EDs { val: crate::bignat::big_from_u64(0), decimals: USD_DECIMALS };
        let has_referral = referral_opt.is_some();
        let referral_for_earning = match &referral_opt {
            Some(p) => Some(p.duplicate()),
            None => None,
        };
        let shop = Shop {
            id,
            owner: caller,
            invoice_creators,
            name,
            description,
            icon_base64,
            referral: referral_opt,
            total_earned_usd: zero,
        };
        let ghost s0 = self.shops_view();
        let ghost e0 = self.earnings_view();
        let ghost sv = shop@;
        proof {
            assert(!has_key(s0, shop_key(), id)) by {
                if has_key(s0, shop_key(), id) {
                    let c = choose|c: int| 0 <= c < s0.len() && s0[c].id == id;
                    assert(self.shops@[c].id < self.shop_id_generator);
                }
            }
            lemma_push_frame(s0, shop_key(), sv);
        }
        self.shops.push(shop);
        proof {
            assert(self.shops_view() =~= s0.push(sv));
            lemma_at_index(self.shops_view(), shop_key(), s0.len() as int);
        }
        match referral_for_earning {
            Some(p) => {
                let entry = ReferralEarning {
                    referral: p,
                    shop_id: id,
                    amount: EDs { val: crate::bignat::big_from_u64(0), decimals: USD_DECIMALS },
                };
                let ghost ev = entry@;
                proof {
                    assert(!has_key(e0, earn_key(), ev.referral_pair())) by {
                        if has_key(e0, earn_key(), (ev.referral, ev.shop_id)) {
                            let c = choose|c: int|
                                0 <= c < e0.len() && earn_key()(e0[c]) == (ev.referral, ev.shop_id);
                            assert(has_key(s0, shop_key(), e0[c].shop_id));
                            let d = choose|d: int| 0 <= d < s0.len() && s0[d].id == e0[c].shop_id;
                            assert(self.shops@[d].id < id + 1);
                        }
                    }
                    lemma_push_frame(e0, earn_key(), ev);
                }
                self.referral_to_shops.push(entry);
                proof {
                    assert(self.earnings_view() =~= e0.push(ev));
                    assert_shops_wf_after_entry_push(old(self), self, sv, Some(ev), id);
                }
            },
            None => {
                proof {
                    assert(self.earnings_view() =~= e0);
                    assert_shops_wf_after_entry_push(old(self), self, sv, None, id);
                }
            },
        }
        id
    }
}

/// The shop record after an update request: each given field replaces the
/// old one, the rest (and the earnings total, the referrer and the id) stay.
pub open spec fn apply_shop_update(
    v0: ShopView,
    new_owner: Option<Seq<u8>>,
    new_creators: Option<Seq<Seq<u8>>>,
    new_name: Option<Seq<char>>,
    new_description: Option<Seq<char>>,
    new_icon: Option<Seq<char>>,
) -> ShopView {
    ShopView {
        owner: match new_owner {
            Some(o) => o,
            None => v0.owner,
        },
        invoice_creators: match new_creators {
            Some(c) => c,
            None => v0.invoice_creators,
        },
        name: match new_name {
            Some(x) => x,
            None => v0.name,
        },
        description: match new_description {
            Some(x) => x,
            None => v0.description,
        },
        icon_base64: match new_icon {
            Some(x) => x,
            None => v0.icon_base64,
        },
        ..v0
    }
}

/// The view of an optional principal.
pub open spec fn opt_principal_view(o: Option<PrincipalData>) -> Option<Seq<u8>> {
    match o {
        Some(p) => Some(p@),
        None => None,
    }
}

/// The view of an optional creator list.
pub open spec fn opt_creators_view(o: Option<Vec<PrincipalData>>) -> Option<Seq<Seq<u8>>> {
    match o {
        Some(c) => Some(Seq::new(c@.len(), |i: int| c@[i]@)),
        None => None,
    }
}

/// The view of an optional string.
pub open spec fn opt_string_view(o: Option<String>) -> Option<Seq<char>> {
    match o {
        Some(s) => Some(s@),
        None => None,
    }
}

impl ShopsState {
    /// Updates a shop's owner, creator list or display fields; only its
    /// owner may do so.
    pub fn update_shop(
        &mut self,
        id: ShopId,
        new_owner_opt: Option<PrincipalData>,
        new_invoice_creators_opt: Option<Vec<PrincipalData>>,
        new_name_opt: Option<String>,
        new_description_opt: Option<String>,
        new_icon_base64_opt: Option<String>,
        caller: PrincipalData,
    ) -> (r: Result<(), Error>)
        requires
            old(self).wf(),
        ensures
            final(self).wf(),
            !has_key(old(self).shops_view(), shop_key(), id) ==> r == Err::<(), Error>(
                Error::NotFound,
            ) && *final(self) == *old(self),
            has_key(old(self).shops_view(), shop_key(), id) ==> {
                let v0 = at_key(old(self).shops_view(), shop_key(), id);
                &&& v0.owner != caller@ ==> r == Err::<(), Error>(Error::AccessDenied)
                    && *final(self) == *old(self)
                &&& v0.owner == caller@ ==> {
                    &&& r == Ok::<(), Error>(())
                    &&& has_key(final(self).shops_view(), shop_key(), id)
                    &&& at_key(final(self).shops_view(), shop_key(), id) == apply_shop_update(
                        v0,
                        opt_principal_view(new_owner_opt),
                        opt_creators_view(new_invoice_creators_opt),
                        opt_string_view(new_name_opt),
                        opt_string_view(new_description_opt),
                        opt_string_view(new_icon_base64_opt),
                    )
                    &&& forall|k: ShopId|
                        k != id ==> #[trigger] has_key(final(self).shops_view(), shop_key(), k)
                            == has_key(old(self).shops_view(), shop_key(), k)
                    &&& forall|k: ShopId|
                        k != id && has_key(final(self).shops_view(), shop_key(), k)
                            ==> #[trigger] at_key(final(self).shops_view(), shop_key(), k)
                            == at_key(old(self).shops_view(), shop_key(), k)
                    &&& final(self).earnings_view() == old(self).earnings_view()
                    &&& final(self).shop_id_generator == old(self).shop_id_generator
                }
            },
    {
        let i = match self.find_shop(id) {
            Some(i) => i,
            None => {
                return Err(Error::NotFound);
            },
        };
        proof {
            lemma_at_index(self.shops_view(), shop_key(), i as int);
        }
        if !self.shops[i].owner.eq_principal(&caller) {
            return Err(Error::AccessDenied);
        }
        let ghost s0 = self.shops_view();
        let ghost v0 = s0[i as int];
        let shop = self.shops.remove(i);
        proof {
            assert(self.shops_view() =~= s0.remove(i as int));
            lemma_remove_frame(s0, shop_key(), i as int);
        }
        let ghost mid = self.shops_view();
        let shop2 = Shop {
            id: shop.id,
            owner: match new_owner_opt {
                Some(o) => o,
                None => shop.owner,
            },
            invoice_creators: match new_invoice_creators_opt {
                Some(c) => c,
                None => shop.invoice_creators,
            },
            name: match new_name_opt {
                Some(x) => x,
                None => shop.name,
            },
            description: match new_description_opt {
                Some(x) => x,
                None => shop.description,
            },
            icon_base64: match new_icon_base64_opt {
                Some(x) => x,
                None => shop.icon_base64,
            },
            referral: shop.referral,
            total_earned_usd: shop.total_earned_usd,
        };
        let ghost v1 = shop2@;
        proof {
            lemma_push_frame(mid, shop_key(), v1);
        }
        self.shops.push(shop2);
        proof {
            assert(self.shops_view() =~= mid.push(v1));
            lemma_at_index(self.shops_view(), shop_key(), mid.len() as int);
            assert(self.earnings_view() =~= old(self).earnings_view());
            assert_shops_wf_after_replace(old(self), self, v0, v1);
        }
        Ok(())
    }

    /// The shop's referrer, when the shop exists and has one.
    pub fn get_referral(&self, shop_id: ShopId) -> (r: Option<PrincipalData>)
        requires
            self.wf(),
        ensures
            match r {
                Some(p) => has_key(self.shops_view(), shop_key(), shop_id) && at_key(
                    self.shops_view(),
                    shop_key(),
                    shop_id,
                ).referral == Some(p@),
                None => !has_key(self.shops_view(), shop_key(), shop_id) || at_key(
                    self.shops_view(),
                    shop_key(),
                    shop_id,
                ).referral is None,
            },
    {
        match self.find_shop(shop_id) {
            Some(i) => {
                proof {
                    lemma_at_index(self.shops_view(), shop_key(), i as int);
                }
                match &self.shops[i].referral {
                    Some(p) => Some(p.duplicate()),
                    None => None,
                }
            },
            None => None,
        }
    }

    /// Whether the caller is an authorized invoice creator for the shop.
    pub fn can_create_invoices(&self, shop_id: ShopId, caller: &PrincipalData) -> (r: bool)
        requires
            self.wf(),
        ensures
            r == (has_key(self.shops_view(), shop_key(), shop_id) && at_key(
                self.shops_view(),
                shop_key(),
                shop_id,
            ).invoice_creators.contains(caller@)),
    {
        let i = match self.find_shop(shop_id) {
            Some(i) => i,
            None => {
                return false;
            },
        };
        proof {
            lemma_at_index(self.shops_view(), shop_key(), i as int);
        }
        let creators = &self.shops[i].invoice_creators;
        let n = creators.len();
        for j in 0..n
            invariant
                n == creators@.len(),
                i < self.shops@.len(),
                creators == &self.shops@[i as int].invoice_creators,
                at_key(self.shops_view(), shop_key(), shop_id) == self.shops_view()[i as int],
                has_key(self.shops_view(), shop_key(), shop_id),
                self.shops_view()[i as int].invoice_creators == Seq::new(
                    creators@.len(),
                    |l: int| creators@[l]@,
                ),
                forall|l: int| 0 <= l < j ==> (#[trigger] creators@[l])@ != caller@,
        {
            if creators[j].eq_principal(caller) {
                proof {
                    assert(at_key(self.shops_view(), shop_key(), shop_id).invoice_creators[j as int]
                        == caller@);
                }
                return true;
            }
        }
        proof {
            if at_key(self.shops_view(), shop_key(), shop_id).invoice_creators.contains(caller@) {
                let c = choose|c: int|
                    0 <= c < creators@.len() && at_key(
                        self.shops_view(),
                        shop_key(),
                        shop_id,
                    ).invoice_creators[c] == caller@;
                assert(creators@[c]@ == caller@);
            }
        }
        false
    }

    /// The shop with this id, if any.
    pub fn get_shop(&self, shop_id: ShopId) -> (r: Option<&Shop>)
        requires
            self.wf(),
        ensures
            match r {
                Some(s) => has_key(self.shops_view(), shop_key(), shop_id) && s@ == at_key(
                    self.shops_view(),
                    shop_key(),
                    shop_id,
                ) && s.wf(),
                None => !has_key(self.shops_view(), shop_key(), shop_id),
            },
    {
        match self.find_shop(shop_id) {
            Some(i) => {
                proof {
                    lemma_at_index(self.shops_view(), shop_key(), i as int);
                }
                Some(&self.shops[i])
            },
            None => None,
        }
    }

    /// Adds a settled invoice's USD amount to the shop's earnings total.
    pub fn record_earning(&mut self, shop_id: ShopId, amount: &EDs) -> (r: Result<(), Error>)
        requires
            old(self).wf(),
            amount.wf(),
            amount@.scale == USD_DECIMALS as nat,
        ensures
            final(self).wf(),
            !has_key(old(self).shops_view(), shop_key(), shop_id) ==> r == Err::<(), Error>(
                Error::NotFound,
            ) && *final(self) == *old(self),
            has_key(old(self).shops_view(), shop_key(), shop_id) ==> {
                let v0 = at_key(old(self).shops_view(), shop_key(), shop_id);
                &&& r == Ok::<(), Error>(())
                &&& has_key(final(self).shops_view(), shop_key(), shop_id)
                &&& at_key(final(self).shops_view(), shop_key(), shop_id) == (ShopView {
                    total_earned_usd: dec_add(v0.total_earned_usd, amount@),
                    ..v0
                })
                &&& forall|k: ShopId|
                    k != shop_id ==> #[trigger] has_key(final(self).shops_view(), shop_key(), k)
                        == has_key(old(self).shops_view(), shop_key(), k)
                &&& forall|k: ShopId|
                    k != shop_id && has_key(final(self).shops_view(), shop_key(), k)
                        ==> #[trigger] at_key(final(self).shops_view(), shop_key(), k) == at_key(
                        old(self).shops_view(),
                        shop_key(),
                        k,
                    )
                &&& final(self).earnings_view() == old(self).earnings_view()
                &&& final(self).shop_id_generator == old(self).shop_id_generator
            },
    {
        let i = match self.find_shop(shop_id) {
            Some(i) => i,
            None => {
                return Err(Error::NotFound);
            },
        };
        proof {
            lemma_at_index(self.shops_view(), shop_key(), i as int);
        }
        let ghost s0 = self.shops_view();
        let ghost v0 = s0[i as int];
        let shop = self.shops.remove(i);
        proof {
            assert(self.shops_view() =~= s0.remove(i as int));
            lemma_remove_frame(s0, shop_key(), i as int);
        }
        let ghost mid = self.shops_view();
        let new_total = match shop.total_earned_usd.add(amount) {
            Ok(v) => v,
            Err(_) => {
                proof {
                    assert(false);
                }
                return Err(Error::NotFound);
            },
        };
        let shop2 = Shop {
            id: shop.id,
            owner: shop.owner,
            invoice_creators: shop.invoice_creators,
            name: shop.name,
            description: shop.description,
            icon_base64: shop.icon_base64,
            referral: shop.referral,
            total_earned_usd: new_total,
        };
        let ghost v1 = shop2@;
        proof {
            lemma_push_frame(mid, shop_key(), v1);
        }
        self.shops.push(shop2);
        proof {
            assert(self.shops_view() =~= mid.push(v1));
            lemma_at_index(self.shops_view(), shop_key(), mid.len() as int);
            assert(self.earnings_view() =~= old(self).earnings_view());
            assert_shops_wf_after_replace(old(self), self, v0, v1);
        }
        Ok(())
    }

    /// Adds a paid referral fee to the referrer's earnings entry for the
    /// shop.
    pub fn record_referral_earning(
        &mut self,
        referral: &PrincipalData,
        shop_id: ShopId,
        amount: &EDs,
    ) -> (r: Result<(), Error>)
        requires
            old(self).wf(),
            amount.wf(),
            amount@.scale == USD_DECIMALS as nat,
        ensures
            final(self).wf(),
            !has_key(old(self).earnings_view(), earn_key(), (referral@, shop_id)) ==> r == Err::<
                (),
                Error,
            >(Error::NotFound) && *final(self) == *old(self),
            has_key(old(self).earnings_view(), earn_key(), (referral@, shop_id)) ==> {
                let e0 = at_key(old(self).earnings_view(), earn_key(), (referral@, shop_id));
                &&& r == Ok::<(), Error>(())
                &&& has_key(final(self).earnings_view(), earn_key(), (referral@, shop_id))
                &&& at_key(final(self).earnings_view(), earn_key(), (referral@, shop_id)) == (
                ReferralEarningView { amount: dec_add(e0.amount, amount@), ..e0 })
                &&& forall|k: (Seq<u8>, ShopId)|
                    k != (referral@, shop_id) ==> #[trigger] has_key(
                        final(self).earnings_view(),
                        earn_key(),
                        k,
                    ) == has_key(old(self).earnings_view(), earn_key(), k)
                &&& forall|k: (Seq<u8>, ShopId)|
                    k != (referral@, shop_id) && has_key(final(self).earnings_view(), earn_key(), k)
                        ==> #[trigger] at_key(final(self).earnings_view(), earn_key(), k)
                        == at_key(old(self).earnings_view(), earn_key(), k)
                &&& final(self).shops_view() == old(self).shops_view()
                &&& final(self).shop_id_generator == old(self).shop_id_generator
            },
    {
        let i = match self.find_earning(referral, shop_id) {
            Some(i) => i,
            None => {
                return Err(Error::NotFound);
            },
        };
        proof {
            lemma_at_index(self.earnings_view(), earn_key(), i as int);
        }
        let ghost e0all = self.earnings_view();
        let ghost e0 = e0all[i as int];
        let entry = self.referral_to_shops.remove(i);
        proof {
            assert(self.earnings_view() =~= e0all.remove(i as int));
            lemma_remove_frame(e0all, earn_key(), i as int);
        }
        let ghost mid = self.earnings_view();
        let new_amount = match entry.amount.add(amount) {
            Ok(v) => v,
            Err(_) => {
                proof {
                    assert(false);
                }
                return Err(Error::NotFound);
            },
        };
        let entry2 = ReferralEarning { referral: entry.referral, shop_id: entry.shop_id, amount: new_amount };
        let ghost e1 = entry2@;
        proof {
            lemma_push_frame(mid, earn_key(), e1);
        }
        self.referral_to_shops.push(entry2);
        proof {
            assert(self.earnings_view() =~= mid.push(e1));
            lemma_at_index(self.earnings_view(), earn_key(), mid.len() as int);
            assert(self.shops_view() =~= old(self).shops_view());
            assert_earnings_wf_after_replace(old(self), self, e0, e1);
        }
        Ok(())
    }
}

/// Whether a shop belongs to `owner`.
pub open spec fn owned_by(owner: Seq<u8>) -> spec_fn(ShopView) -> bool {
    |s: ShopView| s.owner == owner
}

/// Whether an earnings entry belongs to `referral`.
pub open spec fn referred_by(referral: Seq<u8>) -> spec_fn(ReferralEarningView) -> bool {
    |e: ReferralEarningView| e.referral == referral
}

impl ShopsState {
    /// All shops owned by `owner`, in registry order.
    pub fn get_shops_by_owner(&self, owner: &PrincipalData) -> (r: Vec<Shop>)
        requires
            self.wf(),
        ensures
            Seq::new(r@.len(), |j: int| r@[j]@) == self.shops_view().filter(owned_by(owner@)),
    {
        let mut r: Vec<Shop> = Vec::new();
        let ghost mut rv: Seq<ShopView> = Seq::empty();
        let n = self.shops.len();
        proof {
            assert(self.shops_view().take(0) =~= Seq::<ShopView>::empty());
            assert(Seq::<ShopView>::empty().filter(owned_by(owner@)) =~= Seq::<
                ShopView,
            >::empty()) by {
                reveal_with_fuel(Seq::filter, 2);
            }
        }
        for i in 0..n
            invariant
                n == self.shops@.len(),
                rv =~= Seq::new(r@.len(), |j: int| r@[j]@),
                rv =~= self.shops_view().take(i as int).filter(owned_by(owner@)),
        {
            let ghost rv0 = rv;
            let ghost prefix = self.shops_view().take(i as int);
            let ghost next = self.shops_view().take(i + 1);
            proof {
                assert(next.drop_last() =~= prefix);
                assert(next.last() == self.shops_view()[i as int]);
                assert(next.filter(owned_by(owner@)) == if owned_by(owner@)(next.last()) {
                    prefix.filter(owned_by(owner@)).push(next.last())
                } else {
                    prefix.filter(owned_by(owner@))
                }) by {
                    reveal_with_fuel(Seq::filter, 2);
                }
            }
            if self.shops[i].owner.eq_principal(owner) {
                r.push(self.shops[i].duplicate());
                proof {
                    rv = rv0.push(self.shops_view()[i as int]);
                    assert(rv =~= Seq::new(r@.len(), |j: int| r@[j]@));
                }
            }
        }
        proof {
            assert(self.shops_view().take(n as int) =~= self.shops_view());
        }
        r
    }

    /// All shops referred by `referral`, each with that referrer's earnings
    /// from it, in ledger order.
    pub fn get_shops_by_referral(&self, referral: &PrincipalData) -> (r: Vec<ReferredShop>)
        requires
            self.wf(),
        ensures
            r@.len() == self.earnings_view().filter(referred_by(referral@)).len(),
            forall|j: int|
                0 <= j < r@.len() ==> {
                    let e = self.earnings_view().filter(referred_by(referral@))[j];
                    let s = at_key(self.shops_view(), shop_key(), e.shop_id);
                    &&& (#[trigger] r@[j]).id == e.shop_id
                    &&& r@[j].name@ == s.name
                    &&& r@[j].description@ == s.description
                    &&& r@[j].icon_base64@ == s.icon_base64
                    &&& r@[j].referral@ == referral@
                    &&& r@[j].referral_earnings_usd@ == e.amount
                },
    {
        let mut r: Vec<ReferredShop> = Vec::new();
        let n = self.referral_to_shops.len();
        proof {
            assert(self.earnings_view().take(0) =~= Seq::<ReferralEarningView>::empty());
            assert(Seq::<ReferralEarningView>::empty().filter(referred_by(referral@)) =~= Seq::<
                ReferralEarningView,
            >::empty()) by {
                reveal_with_fuel(Seq::filter, 2);
            }
        }
        for i in 0..n
            invariant
                n == self.referral_to_shops@.len(),
                self.wf(),
                r@.len() == self.earnings_view().take(i as int).filter(
                    referred_by(referral@),
                ).len(),
                forall|j: int|
                    0 <= j < r@.len() ==> {
                        let e = self.earnings_view().take(i as int).filter(
                            referred_by(referral@),
                        )[j];
                        let s = at_key(self.shops_view(), shop_key(), e.shop_id);
                        &&& (#[trigger] r@[j]).id == e.shop_id
                        &&& r@[j].name@ == s.name
                        &&& r@[j].description@ == s.description
                        &&& r@[j].icon_base64@ == s.icon_base64
                        &&& r@[j].referral@ == referral@
                        &&& r@[j].referral_earnings_usd@ == e.amount
                    },
        {
            let ghost prefix = self.earnings_view().take(i as int);
            let ghost next = self.earnings_view().take(i + 1);
            proof {
                assert(next.drop_last() =~= prefix);
                assert(next.last() == self.earnings_view()[i as int]);
                assert(next.filter(referred_by(referral@)) == if referred_by(referral@)(
                    next.last(),
                ) {
                    prefix.filter(referred_by(referral@)).push(next.last())
                } else {
                    prefix.filter(referred_by(referral@))
                }) by {
                    reveal_with_fuel(Seq::filter, 2);
                }
            }
            let entry = &self.referral_to_shops[i];
            if entry.referral.eq_principal(referral) {
                let shop = match self.find_shop(entry.shop_id) {
                    Some(si) => {
                        proof {
                            lemma_at_index(self.shops_view(), shop_key(), si as int);
                        }
                        &self.shops[si]
                    },
                    None => {
                        proof {
                            assert(has_key(
                                self.shops_view(),
                                shop_key(),
                                self.earnings_view()[i as int].shop_id,
                            ));
                            assert(false);
                        }
                        return r;
                    },
                };
                r.push(
                    ReferredShop {
                        id: shop.id,
                        name: shop.name.clone(),
                        description: shop.description.clone(),
                        icon_base64: shop.icon_base64.clone(),
                        referral: referral.duplicate(),
                        referral_earnings_usd: entry.amount.clone(),
                    },
                );
            }
        }
        proof {
            assert(self.earnings_view().take(n as int) =~= self.earnings_view());
        }
        r
    }
}

/// Replacing one shop record by another with the same id, referrer and a
/// well-formed total keeps the registry well-formed.
proof fn assert_shops_wf_after_replace(
    pre: &ShopsState,
    post: &ShopsState,
    v0: ShopView,
    v1: ShopView,
)
    requires
        pre.wf(),
        has_key(pre.shops_view(), shop_key(), v0.id),
        at_key(pre.shops_view(), shop_key(), v0.id) == v0,
        v1.id == v0.id,
        v1.referral == v0.referral,
        v1.total_earned_usd.scale == USD_DECIMALS as nat,
        unique_keys(post.shops_view(), shop_key()),
        has_key(post.shops_view(), shop_key(), v0.id),
        at_key(post.shops_view(), shop_key(), v0.id) == v1,
        forall|k: ShopId|
            k != v0.id ==> #[trigger] has_key(post.shops_view(), shop_key(), k) == has_key(
                pre.shops_view(),
                shop_key(),
                k,
            ),
        forall|k: ShopId|
            k != v0.id && has_key(post.shops_view(), shop_key(), k) ==> #[trigger] at_key(
                post.shops_view(),
                shop_key(),
                k,
            ) == at_key(pre.shops_view(), shop_key(), k),
        post.earnings_view() == pre.earnings_view(),
        post.shop_id_generator == pre.shop_id_generator,
        forall|i: int|
            0 <= i < post.shops@.len() ==> (#[trigger] post.shops@[i]).wf() && post.shops@[i].id
                < post.shop_id_generator,
    ensures
        post.wf(),
{
    let s0 = pre.shops_view();
    let s1 = post.shops_view();
    assert forall|i: int| 0 <= i < post.earnings_view().len() implies {
        let e = #[trigger] post.earnings_view()[i];
        &&& e.amount.scale == USD_DECIMALS as nat
        &&& has_key(s1, shop_key(), e.shop_id)
        &&& at_key(s1, shop_key(), e.shop_id).referral == Some(e.referral)
    } by {
        let e = post.earnings_view()[i];
        assert(pre.earnings_view()[i] == e);
        assert(has_key(s0, shop_key(), e.shop_id));
        if e.shop_id == v0.id {
            assert(at_key(s1, shop_key(), e.shop_id) == v1);
        }
    }
}

/// Replacing one earnings entry by another with the same key and a
/// well-formed amount keeps the registry well-formed.
proof fn assert_earnings_wf_after_replace(
    pre: &ShopsState,
    post: &ShopsState,
    e0: ReferralEarningView,
    e1: ReferralEarningView,
)
    requires
        pre.wf(),
        has_key(pre.earnings_view(), earn_key(), (e0.referral, e0.shop_id)),
        at_key(pre.earnings_view(), earn_key(), (e0.referral, e0.shop_id)) == e0,
        e1.referral == e0.referral,
        e1.shop_id == e0.shop_id,
        e1.amount.scale == USD_DECIMALS as nat,
        unique_keys(post.earnings_view(), earn_key()),
        has_key(post.earnings_view(), earn_key(), (e0.referral, e0.shop_id)),
        at_key(post.earnings_view(), earn_key(), (e0.referral, e0.shop_id)) == e1,
        forall|k: (Seq<u8>, ShopId)|
            k != (e0.referral, e0.shop_id) ==> #[trigger] has_key(
                post.earnings_view(),
                earn_key(),
                k,
            ) == has_key(pre.earnings_view(), earn_key(), k),
        forall|k: (Seq<u8>, ShopId)|
            k != (e0.referral, e0.shop_id) && has_key(post.earnings_view(), earn_key(), k)
                ==> #[trigger] at_key(post.earnings_view(), earn_key(), k) == at_key(
                pre.earnings_view(),
                earn_key(),
                k,
            ),
        post.shops_view() == pre.shops_view(),
        post.shops@ == pre.shops@,
        post.shop_id_generator == pre.shop_id_generator,
    ensures
        post.wf(),
{
    assert forall|i: int| 0 <= i < post.earnings_view().len() implies {
        let e = #[trigger] post.earnings_view()[i];
        &&& e.amount.scale == USD_DECIMALS as nat
        &&& has_key(post.shops_view(), shop_key(), e.shop_id)
        &&& at_key(post.shops_view(), shop_key(), e.shop_id).referral == Some(e.referral)
    } by {
        let e = post.earnings_view()[i];
        lemma_at_index(post.earnings_view(), earn_key(), i);
        if (e.referral, e.shop_id) == (e0.referral, e0.shop_id) {
            assert(e == e1);
            let c = choose|c: int|
                0 <= c < pre.earnings_view().len() && earn_key()(pre.earnings_view()[c]) == (
                e0.referral,
                e0.shop_id,
            );
            assert(pre.earnings_view()[c].shop_id == e.shop_id);
        } else {
            assert(has_key(pre.earnings_view(), earn_key(), (e.referral, e.shop_id)));
            let c = choose|c: int|
                0 <= c < pre.earnings_view().len() && earn_key()(pre.earnings_view()[c]) == (
                e.referral,
                e.shop_id,
            );
            assert(pre.earnings_view()[c].shop_id == e.shop_id);
        }
    }
}

impl ReferralEarningView {
    /// The entry's (referrer, shop) key.
    pub open spec fn referral_pair(&self) -> (Seq<u8>, ShopId) {
        (self.referral, self.shop_id)
    }
}

/// After pushing a fresh shop (and possibly its zero referral-earnings
/// entry), the registry is well-formed again.
proof fn assert_shops_wf_after_entry_push(
    pre: &ShopsState,
    post: &ShopsState,
    sv: ShopView,
    ev: Option<ReferralEarningView>,
    id: ShopId,
)
    requires
        pre.wf(),
        id == sv.id,
        pre.shop_id_generator == id,
        post.shop_id_generator == id + 1,
        sv.total_earned_usd == (DecimalView { mag: 0, scale: USD_DECIMALS as nat }),
        post.shops_view() == pre.shops_view().push(sv),
        post.shops@.len() == pre.shops@.len() + 1,
        forall|i: int| 0 <= i < pre.shops@.len() ==> post.shops@[i] == pre.shops@[i],
        post.shops@[post.shops@.len() - 1].wf(),
        post.shops@[post.shops@.len() - 1]@ == sv,
        !has_key(pre.shops_view(), shop_key(), id),
        match ev {
            Some(e) => post.earnings_view() == pre.earnings_view().push(e) && e.shop_id == id
                && e.amount == (DecimalView { mag: 0, scale: USD_DECIMALS as nat }) && sv.referral
                == Some(e.referral),
            None => post.earnings_view() == pre.earnings_view(),
        },
    ensures
        post.wf(),
{
    let s0 = pre.shops_view();
    let s1 = post.shops_view();
    let e1 = post.earnings_view();
    lemma_push_frame(s0, shop_key(), sv);
    lemma_at_index(s1, shop_key(), s0.len() as int);
    assert forall|i: int| 0 <= i < post.shops@.len() implies (#[trigger] post.shops@[i]).wf()
        && post.shops@[i].id < post.shop_id_generator by {
        if i < pre.shops@.len() {
            assert(post.shops@[i] == pre.shops@[i]);
        }
    }
    if ev is Some {
        let e = ev->Some_0;
        lemma_push_frame(pre.earnings_view(), earn_key(), e);
        assert(unique_keys(e1, earn_key())) by {
            assert forall|a: int, b: int| 0 <= a < b < e1.len() implies earn_key()(e1[a])
                != earn_key()(e1[b]) by {
                if b < e1.len() - 1 {
                    assert(e1[a] == pre.earnings_view()[a]);
                    assert(e1[b] == pre.earnings_view()[b]);
                } else {
                    assert(e1[b] == e);
                    assert(e1[a] == pre.earnings_view()[a]);
                    assert(has_key(s0, shop_key(), e1[a].shop_id));
                    if e1[a].shop_id == id {
                        assert(!has_key(s0, shop_key(), id));
                    }
                }
            }
        }
    }
    assert forall|i: int| 0 <= i < e1.len() implies {
        let e = #[trigger] e1[i];
        &&& e.amount.scale == USD_DECIMALS as nat
        &&& has_key(s1, shop_key(), e.shop_id)
        &&& at_key(s1, shop_key(), e.shop_id).referral == Some(e.referral)
    } by {
        let e = e1[i];
        if i < pre.earnings_view().len() {
            assert(e == pre.earnings_view()[i]);
            assert(has_key(s0, shop_key(), e.shop_id));
            assert(e.shop_id != id);
        } else {
            assert(e == ev->Some_0);
            assert(at_key(s1, shop_key(), id) == sv);
        }
    }
}

} // verus!
