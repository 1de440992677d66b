//! The registry: the ledger's state and the operations on it.
use vstd::prelude::*;
use crate::error::Error;
use crate::token_ids::{token_id, token_id_for};
use crate::ledger::{
    apply_batch, approval_held, approved_all, approved_in, authorized, changed, check_owned,
    fresh_batch, ids_view, is_live, lemma_apply_step, lemma_count_push, lemma_count_update,
    lemma_first_unowned, lemma_not_live, lemma_owned_prefix, lemma_slot, live_at, live_count,
    meta_in, minted, opt_view, owned, owner_in, slot, unique_live, Change, Event, EventView, Meta,
    Principal, RecordView, TokenId, TokenRecord,
};

verus! {

/// The registry's state as mathematical values.
pub ghost struct LedgerView {
    pub name: Seq<char>,
    pub symbol: Seq<char>,
    pub meta: Map<String, String>,
    pub total_supply: nat,
    pub nonce: nat,
    pub records: Seq<RecordView>,
    pub events: Seq<EventView>,
}

/// An NFT registry held in memory. Operations that act for someone take the
/// authenticated caller as their first argument; emitted events collect in
/// order until a sink takes them.
pub struct CEP47 {
    name: String,
    symbol: String,
    meta: Meta,
    total_supply: u64,
    nonce: u32,
    tokens: Vec<TokenRecord>,
    events: Vec<Event>,
}

impl View for CEP47 {
    type V = LedgerView;

    closed spec fn view(&self) -> LedgerView {
        LedgerView {
            name: self.name@,
            symbol: self.symbol@,
            meta: self.meta@,
            total_supply: self.total_supply as nat,
            nonce: self.nonce as nat,
            records: self.tokens@.map_values(|r: TokenRecord| r@),
            events: self.events@.map_values(|e: Event| e@),
        }
    }
}

/// Live identifiers are unique and the supply counts the live tokens.
pub open spec fn valid(v: LedgerView) -> bool {
    &&& unique_live(v.records)
    &&& v.total_supply == live_count(v.records)
}

/// The registry after a batch operation whose checks passed: `c` applied to
/// the live tokens of `ids`, and `e` emitted.
pub open spec fn after_batch(v: LedgerView, ids: Seq<Seq<char>>, c: Change, e: EventView) -> LedgerView {
    let recs = apply_batch(v.records, ids, c);
    LedgerView { records: recs, total_supply: live_count(recs), events: v.events.push(e), ..v }
}

/// The registry after minting `ids`, with `metas`, to `recipient`.
pub open spec fn after_mint(
    v: LedgerView,
    ids: Seq<Seq<char>>,
    metas: Seq<Map<String, String>>,
    recipient: Seq<char>,
) -> LedgerView {
    LedgerView {
        records: v.records + minted(ids, metas, recipient),
        total_supply: v.total_supply + ids.len(),
        events: v.events.push(EventView::Mint { recipient, token_ids: ids }),
        ..v
    }
}

/// The `n` identifiers made at `time` from nonce `nonce` on.
pub open spec fn generated(time: u64, nonce: nat, n: nat) -> Seq<Seq<char>> {
    Seq::new(n, |k: int| token_id_for(time, (nonce + k) as nat))
}

/// The metadata of a mint whose identifiers are generated: an empty list
/// stands for one empty blob.
pub open spec fn generated_metas(metas: Seq<Map<String, String>>) -> Seq<Map<String, String>> {
    if metas.len() == 0 {
        seq![Map::empty()]
    } else {
        metas
    }
}

pub open spec fn metas_view(metas: Seq<Meta>) -> Seq<Map<String, String>> {
    metas.map_values(|m: Meta| m@)
}

pub open spec fn opt_ids_view(ids: Option<Vec<TokenId>>) -> Option<Seq<Seq<char>>> {
    match ids {
        Some(v) => Some(ids_view(v@)),
        None => None,
    }
}

pub open spec fn ids_result_view(r: Result<Vec<TokenId>, Error>) -> Result<Seq<Seq<char>>, Error> {
    match r {
        Ok(v) => Ok(ids_view(v@)),
        Err(e) => Err(e),
    }
}

/// A mint from `v` to `w` with result `r`. Supplied identifiers must match
/// the metadata in number (else `WrongArguments`) and be fresh (else
/// `TokenIdAlreadyExists`). Otherwise identifiers are generated at `time`,
/// which advances the nonce whatever follows; where the generator yields an
/// identifier that is not fresh the mint is refused with
/// `TokenIdAlreadyExists`.
pub open spec fn mint_outcome(
    v: LedgerView,
    recipient: Seq<char>,
    ids: Option<Seq<Seq<char>>>,
    metas: Seq<Map<String, String>>,
    time: u64,
    r: Result<Seq<Seq<char>>, Error>,
    w: LedgerView,
) -> bool {
    match ids {
        Some(ids) => if ids.len() != metas.len() {
            r == Err::<Seq<Seq<char>>, Error>(Error::WrongArguments) && w == v
        } else if !fresh_batch(v.records, ids) {
            r == Err::<Seq<Seq<char>>, Error>(Error::TokenIdAlreadyExists) && w == v
        } else {
            r == Ok::<Seq<Seq<char>>, Error>(ids) && w == after_mint(v, ids, metas, recipient)
        },
        None => {
            let ms = generated_metas(metas);
            let g = generated(time, v.nonce, ms.len());
            let v1 = LedgerView { nonce: v.nonce + ms.len(), ..v };
            if fresh_batch(v.records, g) {
                r == Ok::<Seq<Seq<char>>, Error>(g) && w == after_mint(v1, g, ms, recipient)
            } else {
                r == Err::<Seq<Seq<char>>, Error>(Error::TokenIdAlreadyExists) && w == v1
            }
        },
    }
}

/// A batch operation on `owner`'s tokens `ids`, from `v` to `w` with result
/// `r`: refused with the error of the first token that `owner` does not hold
/// (`absent` where it is not live), else `c` applied and `e` emitted.
pub open spec fn owned_outcome(
    v: LedgerView,
    owner: Seq<char>,
    ids: Seq<Seq<char>>,
    absent: Error,
    c: Change,
    e: EventView,
    r: Result<(), Error>,
    w: LedgerView,
) -> bool {
    &&& r == check_owned(v.records, owner, ids, absent)
    &&& r is Err ==> w == v
    &&& r is Ok ==> w == after_batch(v, ids, c, e)
}

/// As `owned_outcome`, on behalf of `caller`: refused with
/// `PermissionDenied`, and nothing changed, unless `caller` is `owner` or
/// holds an approval for each token.
pub open spec fn delegated_outcome(
    v: LedgerView,
    caller: Seq<char>,
    owner: Seq<char>,
    ids: Seq<Seq<char>>,
    c: Change,
    e: EventView,
    r: Result<(), Error>,
    w: LedgerView,
) -> bool {
    if !authorized(v.records, caller, owner, ids) {
        r == Err::<(), Error>(Error::PermissionDenied) && w == v
    } else {
        owned_outcome(v, owner, ids, Error::TokenIdDoesntExist, c, e, r, w)
    }
}

/// A batch change, as the registry carries it out.
enum Action {
    Burn,
    Give(Principal),
    Approve(Principal),
}

impl Action {
    spec fn change(&self) -> Change {
        match self {
            Action::Burn => Change::Burn,
            Action::Give(to) => Change::Give(to@),
            Action::Approve(spender) => Change::Approve(spender@),
        }
    }
}

/// The metadata of an optional blob, as a map.
pub open spec fn meta_opt_view(o: Option<Meta>) -> Option<Map<String, String>> {
    match o {
        Some(m) => Some(m@),
        None => None,
    }
}

fn copy_principal(o: &Option<Principal>) -> (r: Option<Principal>)
    ensures
        opt_view(r) == opt_view(*o),
{
    match o {
        Some(p) => Some(p.clone()),
        None => None,
    }
}

impl CEP47 {
    /// The registry's invariant: live identifiers are unique and the supply
    /// counts the live tokens.
    pub open spec fn wf(&self) -> bool {
        valid(self@)
    }

    /// A registry with no tokens.
    pub fn init(name: String, symbol: String, meta: Meta) -> (r: Self)
        ensures
            r.wf(),
            r@.name == name@,
            r@.symbol == symbol@,
            r@.meta == meta@,
            r@.total_supply == 0,
            r@.nonce == 0,
            r@.records == Seq::<RecordView>::empty(),
            r@.events == Seq::<EventView>::empty(),
    {
        let r = CEP47 {
            name,
            symbol,
            meta,
            total_supply: 0,
            nonce: 0,
            tokens: Vec::new(),
            events: Vec::new(),
        };
        assert(r@.records =~= Seq::<RecordView>::empty());
        assert(r@.events =~= Seq::<EventView>::empty());
        r
    }

    pub fn name(&self) -> (r: String)
        ensures
            r@ == self@.name,
    {
        self.name.clone()
    }

    pub fn symbol(&self) -> (r: String)
        ensures
            r@ == self@.symbol,
    {
        self.symbol.clone()
    }

    pub fn meta(&self) -> (r: Meta)
        ensures
            r@ == self@.meta,
    {
        self.meta.clone()
    }

    /// Replaces the registry's own metadata.
    pub fn set_meta(&mut self, meta: Meta) -> (r: Result<(), Error>)
        ensures
            r == Ok::<(), Error>(()),
            final(self)@ == (LedgerView { meta: meta@, ..old(self)@ }),
    {
        self.meta = meta;
        Ok(())
    }

    pub fn total_supply(&self) -> (r: u64)
        ensures
            r == self@.total_supply,
    {
        self.total_supply
    }

    /// The counter from which the next generated identifier is made.
    pub fn nonce(&self) -> (r: u32)
        ensures
            r == self@.nonce,
    {
        self.nonce
    }

    /// The events emitted so far, oldest first.
    pub fn events(&self) -> (r: &Vec<Event>)
        ensures
            r@.map_values(|e: Event| e@) == self@.events,
    {
        &self.events
    }

    /// The position of the live record of `id`.
    fn find_live(&self, id: &String) -> (r: Option<usize>)
        requires
            self.wf(),
        ensures
            match r {
                Some(k) => live_at(self@.records, k as int, id@) && slot(self@.records, id@) == k,
                None => !is_live(self@.records, id@),
            },
    {
        let ghost s = self@.records;
        let mut i: usize = 0;
        while i < self.tokens.len()
            invariant
                s == self@.records,
                unique_live(s),
                i <= self.tokens.len(),
                forall|j: int| 0 <= j < i ==> !(s[j].live && s[j].id == id@),
            decreases self.tokens.len() - i,
        {
            if self.tokens[i].live && self.tokens[i].id == *id {
                proof {
                    lemma_slot(s, i as int, id@);
                }
                return Some(i);
            }
            i = i + 1;
        }
        proof {
            lemma_not_live(s, id@);
        }
        None
    }

    /// How many live tokens `owner` holds; 0 for an owner with none.
    pub fn balance_of(&self, owner: Principal) -> (r: u64)
        ensures
            r == owned(self@.records, owner@).len(),
    {
        let ghost s = self@.records;
        let mut count: u64 = 0;
        let mut i: usize = 0;
        while i < self.tokens.len()
            invariant
                s == self@.records,
                i <= self.tokens.len(),
                count == owned(s.take(i as int), owner@).len(),
                count <= i,
            decreases self.tokens.len() - i,
        {
            assert(s.take(i + 1).drop_last() =~= s.take(i as int));
            if self.tokens[i].live && self.tokens[i].owner == owner {
                count = count + 1;
            }
            i = i + 1;
        }
        assert(s.take(i as int) =~= s);
        count
    }

    /// The `index`-th live token of `owner`, in the order of the ledger;
    /// `None` past the end.
    pub fn get_token_by_index(&self, owner: Principal, index: u64) -> (r: Option<TokenId>)
        ensures
            opt_view(r) == if index < owned(self@.records, owner@).len() {
                Some(owned(self@.records, owner@)[index as int])
            } else {
                None
            },
    {
        let ghost s = self@.records;
        let mut count: u64 = 0;
        let mut i: usize = 0;
        while i < self.tokens.len()
            invariant
                s == self@.records,
                i <= self.tokens.len(),
                count == owned(s.take(i as int), owner@).len(),
                count <= index,
            decreases self.tokens.len() - i,
        {
            assert(s.take(i + 1).drop_last() =~= s.take(i as int));
            if self.tokens[i].live && self.tokens[i].owner == owner {
                if count == index {
                    proof {
                        assert(s.take(i + 1).last() == s[i as int]);
                        assert(owned(s.take(i + 1), owner@) == owned(s.take(i as int), owner@).push(s[i as int].id));
                        lemma_owned_prefix(s, i + 1, owner@);
                        assert(owned(s.take(i + 1), owner@)[index as int] == owned(s, owner@)[index as int]);
                    }
                    let id = self.tokens[i].id.clone();
                    assert(id@ == s[i as int].id);
                    return Some(id);
                }
                count = count + 1;
            }
            i = i + 1;
        }
        assert(s.take(i as int) =~= s);
        None
    }

    /// The owner of a live token.
    pub fn owner_of(&self, token_id: TokenId) -> (r: Option<Principal>)
        requires
            self.wf(),
        ensures
            opt_view(r) == owner_in(self@.records, token_id@),
    {
        match self.find_live(&token_id) {
            Some(k) => Some(self.tokens[k].owner.clone()),
            None => None,
        }
    }

    /// The metadata of a live token.
    pub fn token_meta(&self, token_id: TokenId) -> (r: Option<Meta>)
        requires
            self.wf(),
        ensures
            meta_opt_view(r) == meta_in(self@.records, token_id@),
    {
        match self.find_live(&token_id) {
            Some(k) => Some(self.tokens[k].meta.clone()),
            None => None,
        }
    }

    /// Replaces the metadata of a live token.
    pub fn set_token_meta(&mut self, token_id: TokenId, meta: Meta) -> (r: Result<(), Error>)
        requires
            old(self).wf(),
        ensures
            final(self).wf(),
            !is_live(old(self)@.records, token_id@) ==> r == Err::<(), Error>(Error::TokenIdDoesntExist)
                && final(self)@ == old(self)@,
            is_live(old(self)@.records, token_id@) ==> {
                let s = old(self)@.records;
                let k = slot(s, token_id@);
                &&& r == Ok::<(), Error>(())
                &&& final(self)@ == LedgerView {
                    records: s.update(k, RecordView { meta: meta@, ..s[k] }),
                    events: old(self)@.events.push(
                        EventView::MetadataUpdate { token_id: token_id@ },
                    ),
                    ..old(self)@
                }
            },
    {
        let k = match self.find_live(&token_id) {
            Some(k) => k,
            None => {
                return Err(Error::TokenIdDoesntExist);
            },
        };
        let ghost s = self@.records;
        let ghost ev = self@.events;
        let rec = TokenRecord {
            id: self.tokens[k].id.clone(),
            owner: self.tokens[k].owner.clone(),
            meta,
            approved: copy_principal(&self.tokens[k].approved),
            live: true,
        };
        self.tokens.set(k, rec);
        self.events.push(Event::MetadataUpdate { token_id });
        proof {
            assert(self@.records =~= s.update(k as int, RecordView { meta: meta@, ..s[k as int] }));
            assert(self@.events =~= ev.push(EventView::MetadataUpdate { token_id: token_id@ }));
            lemma_count_update(s, k as int, rec@);
        }
        Ok(())
    }

    /// Whether `owner` holds each of `ids`; the error of the first that it does not.
    fn check_holds(&self, owner: &Principal, ids: &Vec<TokenId>, absent: Error) -> (r: Result<(), Error>)
        requires
            self.wf(),
        ensures
            r == check_owned(self@.records, owner@, ids_view(ids@), absent),
    {
        let ghost s = self@.records;
        let ghost v = ids_view(ids@);
        let mut j: usize = 0;
        while j < ids.len()
            invariant
                self.wf(),
                s == self@.records,
                v == ids_view(ids@),
                j <= ids.len(),
                forall|i: int| 0 <= i < j ==> owner_in(s, #[trigger] v[i]) == Some(owner@),
            decreases ids.len() - j,
        {
            match self.find_live(&ids[j]) {
                None => {
                    proof {
                        lemma_first_unowned(s, owner@, v, absent, j as int);
                    }
                    return Err(absent);
                },
                Some(k) => {
                    proof {
                        lemma_slot(s, k as int, v[j as int]);
                    }
                    if self.tokens[k].owner != *owner {
                        proof {
                            lemma_first_unowned(s, owner@, v, absent, j as int);
                        }
                        return Err(Error::PermissionDenied);
                    }
                },
            }
            j = j + 1;
        }
        Ok(())
    }

    /// Applies `action` to the live token of each of `ids`, keeping the supply in step.
    fn apply_action(&mut self, ids: &Vec<TokenId>, action: &Action)
        requires
            old(self).wf(),
        ensures
            final(self).wf(),
            final(self)@ == (LedgerView {
                records: apply_batch(old(self)@.records, ids_view(ids@), action.change()),
                total_supply: live_count(apply_batch(old(self)@.records, ids_view(ids@), action.change())),
                ..old(self)@
            }),
    {
        let ghost pre = self@;
        let ghost s0 = self@.records;
        let ghost v = ids_view(ids@);
        let ghost c = action.change();
        assert(apply_batch(s0, v.take(0), c) =~= s0);
        let mut j: usize = 0;
        while j < ids.len()
            invariant
                self.wf(),
                v == ids_view(ids@),
                c == action.change(),
                j <= ids.len(),
                self@.records == apply_batch(s0, v.take(j as int), c),
                self@ == (LedgerView { records: self@.records, total_supply: self@.total_supply, ..pre }),
            decreases ids.len() - j,
        {
            let ghost cur = self@.records;
            match self.find_live(&ids[j]) {
                None => {
                    proof {
                        lemma_apply_step(s0, v, j as int, c, -1);
                    }
                },
                Some(k) => {
                    let id = self.tokens[k].id.clone();
                    let meta = self.tokens[k].meta.clone();
                    let rec = match action {
                        Action::Burn => TokenRecord {
                            id,
                            owner: self.tokens[k].owner.clone(),
                            meta,
                            approved: None,
                            live: false,
                        },
                        Action::Give(to) => TokenRecord {
                            id,
                            owner: to.clone(),
                            meta,
                            approved: None,
                            live: true,
                        },
                        Action::Approve(spender) => TokenRecord {
                            id,
                            owner: self.tokens[k].owner.clone(),
                            meta,
                            approved: Some(spender.clone()),
                            live: true,
                        },
                    };
                    proof {
                        assert(rec@ == changed(cur[k as int], c));
                        lemma_apply_step(s0, v, j as int, c, k as int);
                        lemma_count_update(cur, k as int, rec@);
                    }
                    self.tokens.set(k, rec);
                    if !rec_live(action) {
                        self.total_supply = self.total_supply - 1;
                    }
                    proof {
                        assert(self@.records =~= cur.update(k as int, rec@));
                    }
                },
            }
            j = j + 1;
        }
        assert(v.take(ids.len() as int) =~= v);
    }

    fn emit(&mut self, event: Event)
        ensures
            final(self)@ == (LedgerView { events: old(self)@.events.push(event@), ..old(self)@ }),
            final(self).wf() == old(self).wf(),
    {
        let ghost pre = self@;
        self.events.push(event);
        assert(self@.events =~= pre.events.push(event@));
    }

    /// Burns `owner`'s tokens `token_ids`, all or none. Each must be live
    /// (else `TokenIdDoesntExist`) and held by `owner` (else `PermissionDenied`);
    /// the first that fails decides the error.
    pub fn burn_internal(&mut self, owner: Principal, token_ids: Vec<TokenId>) -> (r: Result<(), Error>)
        requires
            old(self).wf(),
        ensures
            final(self).wf(),
            owned_outcome(
                old(self)@,
                owner@,
                ids_view(token_ids@),
                Error::TokenIdDoesntExist,
                Change::Burn,
                EventView::Burn { owner: owner@, token_ids: ids_view(token_ids@) },
                r,
                final(self)@,
            ),
    {
        let checked = self.check_holds(&owner, &token_ids, Error::TokenIdDoesntExist);
        if checked.is_err() {
            return checked;
        }
        self.apply_action(&token_ids, &Action::Burn);
        self.emit(Event::Burn { owner, token_ids });
        Ok(())
    }

    /// Burns `owner`'s tokens `token_ids` on behalf of `caller`, who must be
    /// `owner` or hold an approval for each (else `PermissionDenied`).
    pub fn burn(&mut self, caller: Principal, owner: Principal, token_ids: Vec<TokenId>) -> (r: Result<(), Error>)
        requires
            old(self).wf(),
        ensures
            final(self).wf(),
            delegated_outcome(
                old(self)@,
                caller@,
                owner@,
                ids_view(token_ids@),
                Change::Burn,
                EventView::Burn { owner: owner@, token_ids: ids_view(token_ids@) },
                r,
                final(self)@,
            ),
    {
        if caller != owner && !self.approved_for_all(&owner, &token_ids, &caller) {
            return Err(Error::PermissionDenied);
        }
        self.burn_internal(owner, token_ids)
    }

    /// Approves `spender` for each of `token_ids`, which `caller` must hold:
    /// a token that is not live gives `WrongArguments`, one held by another
    /// `PermissionDenied`. A prior approval of the same token is replaced.
    pub fn approve(&mut self, caller: Principal, spender: Principal, token_ids: Vec<TokenId>) -> (r: Result<(), Error>)
        requires
            old(self).wf(),
        ensures
            final(self).wf(),
            owned_outcome(
                old(self)@,
                caller@,
                ids_view(token_ids@),
                Error::WrongArguments,
                Change::Approve(spender@),
                EventView::Approve {
                    owner: caller@,
                    spender: spender@,
                    token_ids: ids_view(token_ids@),
                },
                r,
                final(self)@,
            ),
    {
        let checked = self.check_holds(&caller, &token_ids, Error::WrongArguments);
        if checked.is_err() {
            return checked;
        }
        self.apply_action(&token_ids, &Action::Approve(spender.clone()));
        self.emit(Event::Approve { owner: caller, spender, token_ids });
        Ok(())
    }

    /// Hands `owner`'s tokens `token_ids` to `recipient`, all or none, with
    /// the errors of `burn_internal`. Their approvals are cleared.
    pub fn transfer_from_internal(
        &mut self,
        owner: Principal,
        recipient: Principal,
        token_ids: Vec<TokenId>,
    ) -> (r: Result<(), Error>)
        requires
            old(self).wf(),
        ensures
            final(self).wf(),
            owned_outcome(
                old(self)@,
                owner@,
                ids_view(token_ids@),
                Error::TokenIdDoesntExist,
                Change::Give(recipient@),
                EventView::Transfer {
                    sender: owner@,
                    recipient: recipient@,
                    token_ids: ids_view(token_ids@),
                },
                r,
                final(self)@,
            ),
    {
        let checked = self.check_holds(&owner, &token_ids, Error::TokenIdDoesntExist);
        if checked.is_err() {
            return checked;
        }
        self.apply_action(&token_ids, &Action::Give(recipient.clone()));
        self.emit(Event::Transfer { sender: owner, recipient, token_ids });
        Ok(())
    }

    /// Hands `owner`'s tokens `token_ids` to `recipient` on behalf of
    /// `caller`, who must be `owner` or hold an approval for each (else
    /// `PermissionDenied`). An approval used this way is consumed.
    pub fn transfer_from(
        &mut self,
        caller: Principal,
        owner: Principal,
        recipient: Principal,
        token_ids: Vec<TokenId>,
    ) -> (r: Result<(), Error>)
        requires
            old(self).wf(),
        ensures
            final(self).wf(),
            delegated_outcome(
                old(self)@,
                caller@,
                owner@,
                ids_view(token_ids@),
                Change::Give(recipient@),
                EventView::Transfer {
                    sender: owner@,
                    recipient: recipient@,
                    token_ids: ids_view(token_ids@),
                },
                r,
                final(self)@,
            ),
    {
        if caller != owner && !self.approved_for_all(&owner, &token_ids, &caller) {
            return Err(Error::PermissionDenied);
        }
        self.transfer_from_internal(owner, recipient, token_ids)
    }

    /// Hands `caller`'s own tokens `token_ids` to `recipient`.
    pub fn transfer(&mut self, caller: Principal, recipient: Principal, token_ids: Vec<TokenId>) -> (r: Result<(), Error>)
        requires
            old(self).wf(),
        ensures
            final(self).wf(),
            owned_outcome(
                old(self)@,
                caller@,
                ids_view(token_ids@),
                Error::TokenIdDoesntExist,
                Change::Give(recipient@),
                EventView::Transfer {
                    sender: caller@,
                    recipient: recipient@,
                    token_ids: ids_view(token_ids@),
                },
                r,
                final(self)@,
            ),
    {
        let owner = caller.clone();
        self.transfer_from(caller, owner, recipient, token_ids)
    }

    /// The owner of the live token `token_id` has approved `spender` for it.
    pub fn is_approved(&self, owner: Principal, token_id: TokenId, spender: Principal) -> (r: bool)
        requires
            self.wf(),
        ensures
            r == approval_held(self@.records, owner@, token_id@, spender@),
    {
        match self.find_live(&token_id) {
            None => false,
            Some(k) => {
                proof {
                    lemma_slot(self@.records, k as int, token_id@);
                }
                if self.tokens[k].owner != owner {
                    return false;
                }
                match &self.tokens[k].approved {
                    Some(s) => *s == spender,
                    None => false,
                }
            },
        }
    }

    /// The spender that `owner` has approved for `token_id`, while `owner` holds it.
    pub fn get_approved(&self, owner: Principal, token_id: TokenId) -> (r: Option<Principal>)
        requires
            self.wf(),
        ensures
            opt_view(r) == if owner_in(self@.records, token_id@) == Some(owner@) {
                approved_in(self@.records, token_id@)
            } else {
                None
            },
    {
        match self.find_live(&token_id) {
            None => None,
            Some(k) => {
                proof {
                    lemma_slot(self@.records, k as int, token_id@);
                }
                if self.tokens[k].owner != owner {
                    return None;
                }
                copy_principal(&self.tokens[k].approved)
            },
        }
    }

    /// Whether `spender` holds an approval from `owner` for each of `ids`.
    fn approved_for_all(&self, owner: &Principal, ids: &Vec<TokenId>, spender: &Principal) -> (r: bool)
        requires
            self.wf(),
        ensures
            r == approved_all(self@.records, owner@, ids_view(ids@), spender@),
    {
        let ghost v = ids_view(ids@);
        let mut j: usize = 0;
        while j < ids.len()
            invariant
                self.wf(),
                v == ids_view(ids@),
                j <= ids.len(),
                forall|i: int| 0 <= i < j ==> approval_held(self@.records, owner@, #[trigger] v[i], spender@),
            decreases ids.len() - j,
        {
            assert(v[j as int] == ids@[j as int]@);
            if !self.is_approved(owner.clone(), ids[j].clone(), spender.clone()) {
                assert(!approval_held(self@.records, owner@, v[j as int], spender@));
                return false;
            }
            j = j + 1;
        }
        true
    }
}

fn copy_ids(ids: &Vec<TokenId>) -> (r: Vec<TokenId>)
    ensures
        r@ == ids@,
{
    let mut r: Vec<TokenId> = Vec::new();
    let mut j: usize = 0;
    while j < ids.len()
        invariant
            j <= ids.len(),
            r@ == ids@.take(j as int),
        decreases ids.len() - j,
    {
        r.push(ids[j].clone());
        j = j + 1;
        assert(r@ =~= ids@.take(j as int));
    }
    assert(ids@.take(j as int) =~= ids@);
    r
}

/// No identifier occurs twice in `ids`.
fn all_distinct(ids: &Vec<TokenId>) -> (r: bool)
    ensures
        r == forall|a: int, b: int| 0 <= a < b < ids@.len() ==> ids_view(ids@)[a] != ids_view(ids@)[b],
{
    let ghost v = ids_view(ids@);
    let mut b: usize = 0;
    while b < ids.len()
        invariant
            v == ids_view(ids@),
            b <= ids.len(),
            forall|x: int, y: int| 0 <= x < y < b ==> v[x] != v[y],
        decreases ids.len() - b,
    {
        let mut a: usize = 0;
        while a < b
            invariant
                v == ids_view(ids@),
                a <= b < ids.len(),
                forall|x: int, y: int| 0 <= x < y < b ==> v[x] != v[y],
                forall|x: int| 0 <= x < a ==> v[x] != v[b as int],
            decreases b - a,
        {
            if ids[a] == ids[b] {
                assert(v[a as int] == v[b as int]);
                return false;
            }
            a = a + 1;
        }
        b = b + 1;
    }
    true
}

fn rec_live(action: &Action) -> (r: bool)
    ensures
        r == !(action.change() is Burn),
{
    match action {
        Action::Burn => false,
        _ => true,
    }
}

impl CEP47 {
    /// The next `n` identifiers made at `block_time`; the nonce advances by `n`.
    pub fn generate_token_ids(&mut self, n: u32, block_time: u64) -> (r: Vec<TokenId>)
        requires
            old(self)@.nonce + n <= u32::MAX,
        ensures
            ids_view(r@) == generated(block_time, old(self)@.nonce, n as nat),
            final(self)@ == (LedgerView { nonce: old(self)@.nonce + n as nat, ..old(self)@ }),
            final(self).wf() == old(self).wf(),
    {
        let mut ids: Vec<TokenId> = Vec::new();
        let nonce = self.nonce;
        let end = nonce + n;
        let mut i: u32 = nonce;
        while i < end
            invariant
                nonce <= i <= end,
                end == nonce + n,
                nonce == self.nonce,
                ids_view(ids@) == generated(block_time, nonce as nat, (i - nonce) as nat),
            decreases end - i,
        {
            let id = token_id(block_time, i);
            let ghost before = ids@;
            assert(ids_view(before).len() == before.len());
            assert(before.len() == i - nonce);
            ids.push(id);
            assert(ids_view(ids@)[(i - nonce) as int] == token_id_for(block_time, i as nat));
            i = i + 1;
            assert forall|k: int| 0 <= k < i - nonce implies #[trigger] ids_view(ids@)[k]
                == generated(block_time, nonce as nat, (i - nonce) as nat)[k] by {
                if k < i - nonce - 1 {
                    assert(ids_view(ids@)[k] == ids_view(before)[k]);
                    assert(ids_view(before)[k] == generated(block_time, nonce as nat, (i - 1 - nonce) as nat)[k]);
                }
            }
            assert(ids_view(ids@) =~= generated(block_time, nonce as nat, (i - nonce) as nat));
        }
        self.nonce = end;
        ids
    }

    /// None of `token_ids` is live.
    pub fn validate_token_ids(&self, token_ids: Vec<TokenId>) -> (r: bool)
        requires
            self.wf(),
        ensures
            r == forall|j: int| 0 <= j < token_ids@.len() ==> !is_live(self@.records, #[trigger] ids_view(token_ids@)[j]),
    {
        let ghost v = ids_view(token_ids@);
        let mut j: usize = 0;
        while j < token_ids.len()
            invariant
                self.wf(),
                v == ids_view(token_ids@),
                j <= token_ids.len(),
                forall|i: int| 0 <= i < j ==> !is_live(self@.records, #[trigger] v[i]),
            decreases token_ids.len() - j,
        {
            if self.find_live(&token_ids[j]).is_some() {
                assert(is_live(self@.records, v[j as int]));
                return false;
            }
            j = j + 1;
        }
        true
    }

    /// Adds a fresh batch: record by record, in order, to `recipient`.
    fn mint_fresh(&mut self, recipient: Principal, ids: Vec<TokenId>, metas: Vec<Meta>) -> (r: Vec<TokenId>)
        requires
            old(self).wf(),
            ids@.len() == metas@.len(),
            fresh_batch(old(self)@.records, ids_view(ids@)),
            old(self)@.total_supply + ids@.len() <= u64::MAX,
        ensures
            final(self).wf(),
            r@ == ids@,
            final(self)@ == after_mint(old(self)@, ids_view(ids@), metas_view(metas@), recipient@),
    {
        let ghost pre = self@;
        let ghost s0 = self@.records;
        let ghost v = ids_view(ids@);
        let ghost mv = metas_view(metas@);
        assert(s0 + minted(v.take(0), mv.take(0), recipient@) =~= s0);
        let mut j: usize = 0;
        while j < ids.len()
            invariant
                self.wf(),
                v == ids_view(ids@),
                mv == metas_view(metas@),
                ids@.len() == metas@.len(),
                fresh_batch(s0, v),
                j <= ids.len(),
                self@.records == s0 + minted(v.take(j as int), mv.take(j as int), recipient@),
                self@.total_supply == pre.total_supply + j,
                pre.total_supply + ids@.len() <= u64::MAX,
                self@ == (LedgerView { records: self@.records, total_supply: self@.total_supply, ..pre }),
            decreases ids.len() - j,
        {
            let ghost cur = self@.records;
            let rec = TokenRecord {
                id: ids[j].clone(),
                owner: recipient.clone(),
                meta: metas[j].clone(),
                approved: None,
                live: true,
            };
            proof {
                assert forall|i: int| 0 <= i < cur.len() implies !(cur[i].live && cur[i].id == v[j as int]) by {
                    if i < s0.len() {
                        assert(cur[i] == s0[i]);
                        if s0[i].live && s0[i].id == v[j as int] {
                            assert(live_at(s0, i, v[j as int]));
                        }
                    } else {
                        assert(cur[i].id == v[i - s0.len()]);
                    }
                }
                lemma_count_push(cur, rec@);
            }
            let ghost rv = rec@;
            assert(rv == minted(v.take(j + 1), mv.take(j + 1), recipient@)[j as int]);
            self.tokens.push(rec);
            self.total_supply = self.total_supply + 1;
            proof {
                assert(self@.records =~= cur.push(rv));
                assert(self@.records =~= s0 + minted(v.take(j + 1), mv.take(j + 1), recipient@));
                assert(unique_live(self@.records));
            }
            j = j + 1;
            proof {
                assert(self@.records =~= s0 + minted(v.take(j as int), mv.take(j as int), recipient@));
            }
        }
        proof {
            assert(v.take(j as int) =~= v);
            assert(mv.take(j as int) =~= mv);
        }
        let event_ids = copy_ids(&ids);
        self.emit(Event::Mint { recipient, token_ids: event_ids });
        ids
    }

    /// Mints a batch to `recipient`, all or none, and returns its identifiers
    /// in order: those supplied, or else new ones generated at `block_time`.
    pub fn mint(
        &mut self,
        recipient: Principal,
        token_ids: Option<Vec<TokenId>>,
        token_metas: Vec<Meta>,
        block_time: u64,
    ) -> (r: Result<Vec<TokenId>, Error>)
        requires
            old(self).wf(),
            old(self)@.total_supply + generated_metas(metas_view(token_metas@)).len() <= u64::MAX,
            token_ids is None ==> old(self)@.nonce + generated_metas(metas_view(token_metas@)).len()
                <= u32::MAX,
        ensures
            final(self).wf(),
            mint_outcome(
                old(self)@,
                recipient@,
                opt_ids_view(token_ids),
                metas_view(token_metas@),
                block_time,
                ids_result_view(r),
                final(self)@,
            ),
    {
        let mut metas = token_metas;
        match token_ids {
            Some(ids) => {
                if ids.len() != metas.len() {
                    return Err(Error::WrongArguments);
                }
                if !all_distinct(&ids) || !self.validate_token_ids(copy_ids(&ids)) {
                    return Err(Error::TokenIdAlreadyExists);
                }
                Ok(self.mint_fresh(recipient, ids, metas))
            },
            None => {
                if metas.len() == 0 {
                    metas.push(Meta::new());
                    assert(metas_view(metas@) =~= seq![Map::<String, String>::empty()]);
                }
                let ids = self.generate_token_ids(metas.len() as u32, block_time);
                assert(ids_view(ids@).len() == ids@.len());
                if !all_distinct(&ids) || !self.validate_token_ids(copy_ids(&ids)) {
                    return Err(Error::TokenIdAlreadyExists);
                }
                Ok(self.mint_fresh(recipient, ids, metas))
            },
        }
    }

    /// Mints `count` tokens that share the metadata `token_meta`. Supplied
    /// identifiers must be `count` in number, else `WrongArguments`.
    pub fn mint_copies(
        &mut self,
        recipient: Principal,
        token_ids: Option<Vec<TokenId>>,
        token_meta: Meta,
        count: u32,
        block_time: u64,
    ) -> (r: Result<Vec<TokenId>, Error>)
        requires
            old(self).wf(),
            old(self)@.total_supply + count + 1 <= u64::MAX,
            token_ids is None ==> old(self)@.nonce + count + 1 <= u32::MAX,
        ensures
            final(self).wf(),
            match token_ids {
                Some(ids) if ids@.len() != count => r == Err::<Vec<TokenId>, Error>(Error::WrongArguments)
                    && final(self)@ == old(self)@,
                _ => mint_outcome(
                    old(self)@,
                    recipient@,
                    opt_ids_view(token_ids),
                    Seq::new(count as nat, |i: int| token_meta@),
                    block_time,
                    ids_result_view(r),
                    final(self)@,
                ),
            },
    {
        if let Some(ids) = &token_ids {
            if ids.len() != count as usize {
                return Err(Error::WrongArguments);
            }
        }
        let mut metas: Vec<Meta> = Vec::new();
        let mut i: u32 = 0;
        while i < count
            invariant
                i <= count,
                metas_view(metas@) == Seq::new(i as nat, |k: int| token_meta@),
            decreases count - i,
        {
            let m = token_meta.clone();
            let ghost before = metas@;
            assert(metas_view(before).len() == before.len());
            metas.push(m);
            assert forall|k: int| 0 <= k < i + 1 implies #[trigger] metas_view(metas@)[k] == token_meta@ by {
                if k < i {
                    assert(metas_view(metas@)[k] == metas_view(before)[k]);
                    assert(metas_view(before)[k] == Seq::new(i as nat, |k: int| token_meta@)[k]);
                }
            }
            i = i + 1;
            assert(metas_view(metas@) =~= Seq::new(i as nat, |k: int| token_meta@));
        }
        self.mint(recipient, token_ids, metas, block_time)
    }
}

} // verus!
