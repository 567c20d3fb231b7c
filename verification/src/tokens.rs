//! The supported-token registry: a bidirectional index between token ids
//! (ledger principals) and ticker symbols, carrying each token's fee and
//! decimal metadata.

use vstd::prelude::*;

use crate::decimal::{DecimalView, EDs};
use crate::ids::{PrincipalData, Ticker};

verus! {

/// The mathematical content of a supported-token entry.
pub ghost struct TokenView {
    pub id: Seq<u8>,
    pub ticker: Seq<u8>,
    pub xrc_ticker: Seq<u8>,
    pub fee: DecimalView,
    pub logo_src: Seq<char>,
}

/// A supported token: its ledger id, ticker symbols, transfer fee (carrying
/// the token's native decimal count) and display metadata.
pub struct Token {
    pub id: PrincipalData,
    pub ticker: Ticker,
    pub xrc_ticker: Ticker,
    pub fee: EDs,
    pub logo_src: String,
}

impl View for Token {
    type V = TokenView;

    open spec fn view(&self) -> TokenView {
        TokenView {
            id: self.id@,
            ticker: self.ticker@,
            xrc_ticker: self.xrc_ticker@,
            fee: self.fee@,
            logo_src: self.logo_src@,
        }
    }
}

impl Token {
    /// The token's fee scale stays within the supported range.
    pub open spec fn wf(&self) -> bool {
        self.fee.wf()
    }

    /// A copy holding the same data.
    pub fn duplicate(&self) -> (r: Token)
        ensures
            r@ == self@,
            r.wf() == self.wf(),
    {
        Token {
            id: self.id.duplicate(),
            ticker: self.ticker.duplicate(),
            xrc_ticker: self.xrc_ticker.duplicate(),
            fee: self.fee.clone(),
            logo_src: self.logo_src.clone(),
        }
    }
}

/// Whether some entry of `s` has token id `id`.
pub open spec fn spec_has_token(s: Seq<TokenView>, id: Seq<u8>) -> bool {
    exists|i: int| 0 <= i < s.len() && s[i].id == id
}

/// The entry of `s` with token id `id` (meaningful when keys are unique).
pub open spec fn spec_token_at(s: Seq<TokenView>, id: Seq<u8>) -> TokenView {
    s[choose|i: int| 0 <= i < s.len() && s[i].id == id]
}

/// Whether some entry of `s` has ticker `t`.
pub open spec fn spec_has_ticker(s: Seq<TokenView>, t: Seq<u8>) -> bool {
    exists|i: int| 0 <= i < s.len() && s[i].ticker == t
}

/// The entry of `s` with ticker `t` (meaningful when tickers are unique).
pub open spec fn spec_token_by_ticker(s: Seq<TokenView>, t: Seq<u8>) -> TokenView {
    s[choose|i: int| 0 <= i < s.len() && s[i].ticker == t]
}

/// When ids are unique, the entry found for an id is the one at any witness
/// index.
pub proof fn lemma_token_at_index(s: Seq<TokenView>, j: int)
    requires
        forall|a: int, b: int| 0 <= a < b < s.len() ==> s[a].id != s[b].id,
        0 <= j < s.len(),
    ensures
        spec_has_token(s, s[j].id),
        spec_token_at(s, s[j].id) == s[j],
{
    let k = s[j].id;
    assert(spec_has_token(s, k));
    let c = choose|i: int| 0 <= i < s.len() && s[i].id == k;
    if c < j {
        assert(s[c].id != s[j].id);
    } else if j < c {
        assert(s[j].id != s[c].id);
    }
}

/// When tickers are unique, the entry found for a ticker is the one at any
/// witness index.
pub proof fn lemma_ticker_at_index(s: Seq<TokenView>, j: int)
    requires
        forall|a: int, b: int| 0 <= a < b < s.len() ==> s[a].ticker != s[b].ticker,
        0 <= j < s.len(),
    ensures
        spec_has_ticker(s, s[j].ticker),
        spec_token_by_ticker(s, s[j].ticker) == s[j],
{
    let k = s[j].ticker;
    assert(spec_has_ticker(s, k));
    let c = choose|i: int| 0 <= i < s.len() && s[i].ticker == k;
    if c < j {
        assert(s[c].ticker != s[j].ticker);
    } else if j < c {
        assert(s[j].ticker != s[c].ticker);
    }
}

/// Removing an entry keeps ids and tickers pairwise distinct.
proof fn lemma_unique_remove(s: Seq<TokenView>, i: int)
    requires
        0 <= i < s.len(),
        forall|a: int, b: int| 0 <= a < b < s.len() ==> s[a].id != s[b].id && s[a].ticker
            != s[b].ticker,
    ensures
        forall|a: int, b: int|
            0 <= a < b < s.remove(i).len() ==> s.remove(i)[a].id != s.remove(i)[b].id && s.remove(
                i,
            )[a].ticker != s.remove(i)[b].ticker,
{
    let t = s.remove(i);
    assert forall|a: int, b: int| 0 <= a < b < t.len() implies t[a].id != t[b].id && t[a].ticker
        != t[b].ticker by {
        let a2: int = if a < i {
            a
        } else {
            a + 1
        };
        let b2: int = if b < i {
            b
        } else {
            b + 1
        };
        assert(t[a] == s[a2]);
        assert(t[b] == s[b2]);
        assert(s[a2].id != s[b2].id && s[a2].ticker != s[b2].ticker);
    }
}

/// Membership in a sequence with one index removed, in both directions.
proof fn lemma_has_token_remove(s: Seq<TokenView>, i: int, k: Seq<u8>)
    requires
        0 <= i < s.len(),
    ensures
        spec_has_token(s.remove(i), k) <==> exists|j: int|
            0 <= j < s.len() && j != i && s[j].id == k,
        spec_has_ticker(s.remove(i), k) <==> exists|j: int|
            0 <= j < s.len() && j != i && s[j].ticker == k,
{
    let t = s.remove(i);
    if spec_has_token(t, k) {
        let j = choose|j: int| 0 <= j < t.len() && t[j].id == k;
        if j < i {
            assert(s[j].id == k && j != i);
        } else {
            assert(s[j + 1].id == k && j + 1 != i);
        }
    }
    if exists|j: int| 0 <= j < s.len() && j != i && s[j].id == k {
        let j = choose|j: int| 0 <= j < s.len() && j != i && s[j].id == k;
        if j < i {
            assert(t[j].id == k);
        } else {
            assert(t[j - 1].id == k);
        }
    }
    if spec_has_ticker(t, k) {
        let j = choose|j: int| 0 <= j < t.len() && t[j].ticker == k;
        if j < i {
            assert(s[j].ticker == k && j != i);
        } else {
            assert(s[j + 1].ticker == k && j + 1 != i);
        }
    }
    if exists|j: int| 0 <= j < s.len() && j != i && s[j].ticker == k {
        let j = choose|j: int| 0 <= j < s.len() && j != i && s[j].ticker == k;
        if j < i {
            assert(t[j].ticker == k);
        } else {
            assert(t[j - 1].ticker == k);
        }
    }
}

/// Removing the (unique) entry with id `kid` changes membership for that id
/// alone and moves no other entry.
proof fn lemma_step_removed_id(s: Seq<TokenView>, i: int, kid: Seq<u8>)
    requires
        0 <= i < s.len(),
        s[i].id == kid,
        forall|a: int, b: int| 0 <= a < b < s.len() ==> s[a].id != s[b].id && s[a].ticker
            != s[b].ticker,
    ensures
        !spec_has_token(s.remove(i), kid),
        forall|k: Seq<u8>|
            k != kid ==> #[trigger] spec_has_token(s.remove(i), k) == spec_has_token(s, k),
        forall|k: Seq<u8>|
            k != kid && spec_has_token(s.remove(i), k) ==> #[trigger] spec_token_at(s.remove(i), k)
                == spec_token_at(s, k),
{
    let t = s.remove(i);
    lemma_unique_remove(s, i);
    if spec_has_token(t, kid) {
        lemma_has_token_remove(s, i, kid);
        let j = choose|j: int| 0 <= j < s.len() && j != i && s[j].id == kid;
        if j < i {
            assert(s[j].id != s[i].id);
        } else {
            assert(s[i].id != s[j].id);
        }
    }
    assert forall|k: Seq<u8>| k != kid implies #[trigger] spec_has_token(t, k) == spec_has_token(
        s,
        k,
    ) by {
        lemma_has_token_remove(s, i, k);
        if spec_has_token(s, k) {
            let j = choose|j: int| 0 <= j < s.len() && s[j].id == k;
            assert(j != i && s[j].id == k);
        }
    }
    assert forall|k: Seq<u8>| k != kid && spec_has_token(t, k) implies #[trigger] spec_token_at(
        t,
        k,
    ) == spec_token_at(s, k) by {
        let c = choose|c: int| 0 <= c < t.len() && t[c].id == k;
        lemma_token_at_index(t, c);
        let c2: int = if c < i {
            c
        } else {
            c + 1
        };
        assert(t[c] == s[c2]);
        lemma_token_at_index(s, c2);
    }
}

/// Removing the (unique) entry with ticker `tt` removes exactly the token
/// whose entry carries that ticker and moves no other entry.
proof fn lemma_step_removed_ticker(s: Seq<TokenView>, i: int, tt: Seq<u8>)
    requires
        0 <= i < s.len(),
        s[i].ticker == tt,
        forall|a: int, b: int| 0 <= a < b < s.len() ==> s[a].id != s[b].id && s[a].ticker
            != s[b].ticker,
    ensures
        !spec_has_ticker(s.remove(i), tt),
        forall|k: Seq<u8>|
            #[trigger] spec_has_token(s.remove(i), k) == (spec_has_token(s, k) && spec_token_at(
                s,
                k,
            ).ticker != tt),
        forall|k: Seq<u8>|
            spec_has_token(s.remove(i), k) ==> #[trigger] spec_token_at(s.remove(i), k)
                == spec_token_at(s, k),
{
    let t = s.remove(i);
    lemma_unique_remove(s, i);
    if spec_has_ticker(t, tt) {
        lemma_has_token_remove(s, i, tt);
        let j = choose|j: int| 0 <= j < s.len() && j != i && s[j].ticker == tt;
        if j < i {
            assert(s[j].ticker != s[i].ticker);
        } else {
            assert(s[i].ticker != s[j].ticker);
        }
    }
    assert forall|k: Seq<u8>| #[trigger] spec_has_token(t, k) == (spec_has_token(s, k)
        && spec_token_at(s, k).ticker != tt) by {
        if spec_has_token(t, k) {
            let c = choose|c: int| 0 <= c < t.len() && t[c].id == k;
            let c2: int = if c < i {
                c
            } else {
                c + 1
            };
            assert(t[c] == s[c2]);
            lemma_token_at_index(s, c2);
            if c2 < i {
                assert(s[c2].ticker != s[i].ticker);
            } else {
                assert(s[i].ticker != s[c2].ticker);
            }
        }
        if spec_has_token(s, k) && spec_token_at(s, k).ticker != tt {
            let j = choose|j: int| 0 <= j < s.len() && s[j].id == k;
            lemma_token_at_index(s, j);
            assert(j != i);
            lemma_has_token_remove(s, i, k);
        }
    }
    assert forall|k: Seq<u8>| spec_has_token(t, k) implies #[trigger] spec_token_at(t, k)
        == spec_token_at(s, k) by {
        let c = choose|c: int| 0 <= c < t.len() && t[c].id == k;
        lemma_token_at_index(t, c);
        let c2: int = if c < i {
            c
        } else {
            c + 1
        };
        assert(t[c] == s[c2]);
        lemma_token_at_index(s, c2);
    }
}

/// The supported-token registry.
pub struct SupportedTokensState {
    pub tokens: Vec<Token>,
}

impl View for SupportedTokensState {
    type V = Seq<TokenView>;

    open spec fn view(&self) -> Seq<TokenView> {
        Seq::new(self.tokens@.len(), |i: int| self.tokens@[i]@)
    }
}

impl SupportedTokensState {
    /// Registry well-formedness: ids and tickers are unique, entries are
    /// well-formed decimals.
    pub open spec fn wf(&self) -> bool {
        &&& forall|i: int, j: int|
            0 <= i < j < self@.len() ==> self@[i].id != self@[j].id && self@[i].ticker
                != self@[j].ticker
        &&& forall|i: int| 0 <= i < self.tokens@.len() ==> (#[trigger] self.tokens@[i]).wf()
    }

    pub fn new() -> (r: SupportedTokensState)
        ensures
            r.wf(),
            r@.len() == 0,
    {
        SupportedTokensState { tokens: Vec::new() }
    }

    /// The index of the entry with id `id`, if any.
    fn find_by_id(&self, id: &PrincipalData) -> (r: Option<usize>)
        requires
            self.wf(),
        ensures
            match r {
                Some(i) => i < self@.len() && self@[i as int].id == id@,
                None => !spec_has_token(self@, id@),
            },
    {
        let n = self.tokens.len();
        for i in 0..n
            invariant
                n == self.tokens@.len(),
                forall|j: int| 0 <= j < i ==> self@[j].id != id@,
        {
            if self.tokens[i].id.eq_principal(id) {
                return Some(i);
            }
        }
        None
    }

    /// The index of the entry with ticker `t`, if any.
    fn find_by_ticker(&self, t: &Ticker) -> (r: Option<usize>)
        requires
            self.wf(),
        ensures
            match r {
                Some(i) => i < self@.len() && self@[i as int].ticker == t@,
                None => !spec_has_ticker(self@, t@),
            },
    {
        let n = self.tokens.len();
        for i in 0..n
            invariant
                n == self.tokens@.len(),
                forall|j: int| 0 <= j < i ==> self@[j].ticker != t@,
        {
            if self.tokens[i].ticker.eq_ticker(t) {
                return Some(i);
            }
        }
        None
    }

    /// Registers a token, replacing any entry that shares its id or its
    /// ticker.
    pub fn add_token(&mut self, token: Token)
        requires
            old(self).wf(),
            token.wf(),
        ensures
            final(self).wf(),
            spec_has_token(final(self)@, token@.id),
            spec_token_at(final(self)@, token@.id) == token@,
            spec_has_ticker(final(self)@, token@.ticker),
            spec_token_by_ticker(final(self)@, token@.ticker) == token@,
            forall|k: Seq<u8>|
                k != token@.id ==> #[trigger] spec_has_token(final(self)@, k) == (spec_has_token(
                    old(self)@,
                    k,
                ) && spec_token_at(old(self)@, k).ticker != token@.ticker),
            forall|k: Seq<u8>|
                k != token@.id && spec_has_token(final(self)@, k) ==> #[trigger] spec_token_at(
                    final(self)@,
                    k,
                ) == spec_token_at(old(self)@, k),
    {
        let ghost s0 = self@;
        match self.find_by_id(&token.id) {
            Some(i) => {
                self.tokens.remove(i);
                proof {
                    assert(self@ =~= s0.remove(i as int));
                    lemma_unique_remove(s0, i as int);
                    lemma_step_removed_id(s0, i as int, token@.id);
                }
            },
            None => {},
        }
        let ghost s1 = self@;
        proof {
            assert(!spec_has_token(s1, token@.id));
            assert(forall|k: Seq<u8>|
                k != token@.id ==> #[trigger] spec_has_token(s1, k) == spec_has_token(s0, k));
            assert(forall|k: Seq<u8>|
                k != token@.id && spec_has_token(s1, k) ==> #[trigger] spec_token_at(s1, k)
                    == spec_token_at(s0, k));
        }
        match self.find_by_ticker(&token.ticker) {
            Some(j) => {
                self.tokens.remove(j);
                proof {
                    assert(self@ =~= s1.remove(j as int));
                    lemma_unique_remove(s1, j as int);
                    lemma_step_removed_ticker(s1, j as int, token@.ticker);
                }
            },
            None => {
                proof {
                    assert forall|k: Seq<u8>| #[trigger]
                        spec_has_token(self@, k) implies spec_has_token(s1, k) && spec_token_at(
                        s1,
                        k,
                    ).ticker != token@.ticker by {
                        let c = choose|c: int| 0 <= c < s1.len() && s1[c].id == k;
                        lemma_token_at_index(s1, c);
                        assert(spec_has_ticker(s1, s1[c].ticker));
                    }
                }
            },
        }
        let ghost s2 = self@;
        proof {
            assert(!spec_has_ticker(s2, token@.ticker));
            assert(!spec_has_token(s2, token@.id)) by {
                if spec_has_token(s2, token@.id) {
                    assert(spec_has_token(s1, token@.id));
                }
            }
        }
        self.tokens.push(token);
        proof {
            let sf = self@;
            let n = sf.len() - 1;
            assert(sf =~= s2.push(token@));
            assert forall|a: int, b: int| 0 <= a < b < sf.len() implies sf[a].id != sf[b].id
                && sf[a].ticker != sf[b].ticker by {
                if b < n {
                } else {
                    assert(sf[b] == token@);
                    assert(sf[a] == s2[a]);
                    if s2[a].id == token@.id {
                        assert(spec_has_token(s2, token@.id));
                    }
                    if s2[a].ticker == token@.ticker {
                        assert(spec_has_ticker(s2, token@.ticker));
                    }
                }
            }
            lemma_token_at_index(sf, n);
            lemma_ticker_at_index(sf, n);
            assert forall|k: Seq<u8>| k != token@.id implies #[trigger] spec_has_token(sf, k)
                == (spec_has_token(s0, k) && spec_token_at(s0, k).ticker != token@.ticker) by {
                if spec_has_token(sf, k) {
                    let c = choose|c: int| 0 <= c < sf.len() && sf[c].id == k;
                    assert(c < n);
                    assert(s2[c].id == k);
                    assert(spec_has_token(s2, k));
                }
                if spec_has_token(s2, k) {
                    let c = choose|c: int| 0 <= c < s2.len() && s2[c].id == k;
                    assert(sf[c].id == k);
                    assert(spec_has_token(sf, k));
                }
            }
            assert forall|k: Seq<u8>| k != token@.id && spec_has_token(sf, k) implies #[trigger]
                spec_token_at(sf, k) == spec_token_at(s0, k) by {
                let c = choose|c: int| 0 <= c < sf.len() && sf[c].id == k;
                assert(c < n);
                lemma_token_at_index(sf, c);
                assert(s2[c].id == k);
                lemma_token_at_index(s2, c);
            }
        }
    }

    /// Removes the token registered under ticker `t`, if any.
    pub fn remove_token(&mut self, t: &Ticker)
        requires
            old(self).wf(),
        ensures
            final(self).wf(),
            !spec_has_ticker(final(self)@, t@),
            forall|k: Seq<u8>|
                #[trigger] spec_has_token(final(self)@, k) == (spec_has_token(old(self)@, k)
                    && spec_token_at(old(self)@, k).ticker != t@),
            forall|k: Seq<u8>|
                spec_has_token(final(self)@, k) ==> #[trigger] spec_token_at(final(self)@, k)
                    == spec_token_at(old(self)@, k),
    {
        let ghost s0 = self@;
        match self.find_by_ticker(t) {
            Some(j) => {
                self.tokens.remove(j);
                proof {
                    assert(self@ =~= s0.remove(j as int));
                    lemma_unique_remove(s0, j as int);
                    lemma_step_removed_ticker(s0, j as int, t@);
                }
            },
            None => {
                proof {
                    assert forall|k: Seq<u8>| #[trigger]
                        spec_has_token(self@, k) implies spec_token_at(self@, k).ticker
                        != t@ by {
                        let c = choose|c: int| 0 <= c < s0.len() && s0[c].id == k;
                        lemma_token_at_index(s0, c);
                        assert(spec_has_ticker(s0, s0[c].ticker));
                    }
                }
            },
        }
    }

    /// Whether a token with this ledger id is registered.
    pub fn contains_id(&self, id: &PrincipalData) -> (r: bool)
        requires
            self.wf(),
        ensures
            r == spec_has_token(self@, id@),
    {
        self.find_by_id(id).is_some()
    }

    /// Whether a token with this ticker is registered.
    pub fn contains_ticker(&self, t: &Ticker) -> (r: bool)
        requires
            self.wf(),
        ensures
            r == spec_has_ticker(self@, t@),
    {
        self.find_by_ticker(t).is_some()
    }

    /// The registered token with this ledger id, if any.
    pub fn get_by_id(&self, id: &PrincipalData) -> (r: Option<&Token>)
        requires
            self.wf(),
        ensures
            match r {
                Some(t) => spec_has_token(self@, id@) && t@ == spec_token_at(self@, id@)
                    && t.wf(),
                None => !spec_has_token(self@, id@),
            },
    {
        match self.find_by_id(id) {
            Some(i) => Some(&self.tokens[i]),
            None => None,
        }
    }

    /// The ticker of the token with this ledger id, if any.
    pub fn ticker_by_token_id(&self, id: &PrincipalData) -> (r: Option<Ticker>)
        requires
            self.wf(),
        ensures
            match r {
                Some(t) => spec_has_token(self@, id@) && t@ == spec_token_at(self@, id@).ticker,
                None => !spec_has_token(self@, id@),
            },
    {
        match self.find_by_id(id) {
            Some(i) => Some(self.tokens[i].ticker.duplicate()),
            None => None,
        }
    }

    /// All registered tokens.
    pub fn get(&self) -> (r: &Vec<Token>)
        ensures
            r == &self.tokens,
    {
        &self.tokens
    }
}

} // verus!
