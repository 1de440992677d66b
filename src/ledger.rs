//! The ledger's records and the mathematical model that contracts speak of.
use vstd::prelude::*;
use crate::error::Error;

verus! {

/// A token identifier: unique among the live tokens.
pub type TokenId = String;

/// An authenticated principal, in its textual form.
pub type Principal = String;

/// A metadata blob: named attributes.
pub type Meta = std::collections::BTreeMap<String, String>;

/// One token as the ledger holds it. A burned token keeps its record with
/// `live` false; a live identifier has exactly one live record.
pub struct TokenRecord {
    pub id: TokenId,
    pub owner: Principal,
    pub meta: Meta,
    pub approved: Option<Principal>,
    pub live: bool,
}

/// What a record holds, as mathematical values.
pub ghost struct RecordView {
    pub id: Seq<char>,
    pub owner: Seq<char>,
    pub meta: Map<String, String>,
    pub approved: Option<Seq<char>>,
    pub live: bool,
}

pub open spec fn opt_view(o: Option<String>) -> Option<Seq<char>> {
    match o {
        Some(s) => Some(s@),
        None => None,
    }
}

impl View for TokenRecord {
    type V = RecordView;

    open spec fn view(&self) -> RecordView {
        RecordView {
            id: self.id@,
            owner: self.owner@,
            meta: self.meta@,
            approved: opt_view(self.approved),
            live: self.live,
        }
    }
}

/// A change to the ledger, for an outside sink to pick up.
pub enum Event {
    Mint { recipient: Principal, token_ids: Vec<TokenId> },
    Burn { owner: Principal, token_ids: Vec<TokenId> },
    Transfer { sender: Principal, recipient: Principal, token_ids: Vec<TokenId> },
    Approve { owner: Principal, spender: Principal, token_ids: Vec<TokenId> },
    MetadataUpdate { token_id: TokenId },
}

pub ghost enum EventView {
    Mint { recipient: Seq<char>, token_ids: Seq<Seq<char>> },
    Burn { owner: Seq<char>, token_ids: Seq<Seq<char>> },
    Transfer { sender: Seq<char>, recipient: Seq<char>, token_ids: Seq<Seq<char>> },
    Approve { owner: Seq<char>, spender: Seq<char>, token_ids: Seq<Seq<char>> },
    MetadataUpdate { token_id: Seq<char> },
}

/// The identifiers of a list, as character sequences.
pub open spec fn ids_view(v: Seq<String>) -> Seq<Seq<char>> {
    v.map_values(|s: String| s@)
}

impl View for Event {
    type V = EventView;

    open spec fn view(&self) -> EventView {
        match self {
            Event::Mint { recipient, token_ids } => EventView::Mint {
                recipient: recipient@,
                token_ids: ids_view(token_ids@),
            },
            Event::Burn { owner, token_ids } => EventView::Burn {
                owner: owner@,
                token_ids: ids_view(token_ids@),
            },
            Event::Transfer { sender, recipient, token_ids } => EventView::Transfer {
                sender: sender@,
                recipient: recipient@,
                token_ids: ids_view(token_ids@),
            },
            Event::Approve { owner, spender, token_ids } => EventView::Approve {
                owner: owner@,
                spender: spender@,
                token_ids: ids_view(token_ids@),
            },
            Event::MetadataUpdate { token_id } => EventView::MetadataUpdate {
                token_id: token_id@,
            },
        }
    }
}

/// Record `i` is the live record of `id`.
pub open spec fn live_at(s: Seq<RecordView>, i: int, id: Seq<char>) -> bool {
    0 <= i < s.len() && s[i].live && s[i].id == id
}

/// A prefix of the records lists a prefix of each owner's tokens.
pub proof fn lemma_owned_prefix(s: Seq<RecordView>, m: int, owner: Seq<char>)
    requires
        0 <= m <= s.len(),
    ensures
        owned(s.take(m), owner).len() <= owned(s, owner).len(),
        forall|i: int| 0 <= i < owned(s.take(m), owner).len() ==> #[trigger] owned(s.take(m), owner)[i] == owned(s, owner)[i],
    decreases s.len(),
{
    if m < s.len() {
        assert(s.drop_last().take(m) =~= s.take(m));
        lemma_owned_prefix(s.drop_last(), m, owner);
    } else {
        assert(s.take(m) =~= s);
    }
}

/// `id` denotes a live token.
pub open spec fn is_live(s: Seq<RecordView>, id: Seq<char>) -> bool {
    exists|i: int| #[trigger] live_at(s, i, id)
}

/// No two live records share an identifier.
pub open spec fn unique_live(s: Seq<RecordView>) -> bool {
    forall|i: int, j: int|
        0 <= i < s.len() && 0 <= j < s.len() && i != j && #[trigger] s[i].live && #[trigger] s[j].live
            ==> s[i].id != s[j].id
}

/// The position of the live record of `id`, where there is one.
pub open spec fn slot(s: Seq<RecordView>, id: Seq<char>) -> int {
    choose|i: int| live_at(s, i, id)
}

/// The owner of `id`, if it is live.
pub open spec fn owner_in(s: Seq<RecordView>, id: Seq<char>) -> Option<Seq<char>> {
    if is_live(s, id) {
        Some(s[slot(s, id)].owner)
    } else {
        None
    }
}

/// The metadata of `id`, if it is live.
pub open spec fn meta_in(s: Seq<RecordView>, id: Seq<char>) -> Option<Map<String, String>> {
    if is_live(s, id) {
        Some(s[slot(s, id)].meta)
    } else {
        None
    }
}

/// The spender approved for `id` by its owner, if it is live and has one.
pub open spec fn approved_in(s: Seq<RecordView>, id: Seq<char>) -> Option<Seq<char>> {
    if is_live(s, id) {
        s[slot(s, id)].approved
    } else {
        None
    }
}

/// `spender` holds an approval from `owner` for `id`.
pub open spec fn approval_held(
    s: Seq<RecordView>,
    owner: Seq<char>,
    id: Seq<char>,
    spender: Seq<char>,
) -> bool {
    owner_in(s, id) == Some(owner) && approved_in(s, id) == Some(spender)
}

/// The number of live tokens.
pub open spec fn live_count(s: Seq<RecordView>) -> nat
    decreases s.len(),
{
    if s.len() == 0 {
        0
    } else {
        live_count(s.drop_last()) + if s.last().live { 1nat } else { 0nat }
    }
}

/// The live tokens of `owner`, in the order of their records.
pub open spec fn owned(s: Seq<RecordView>, owner: Seq<char>) -> Seq<Seq<char>>
    decreases s.len(),
{
    if s.len() == 0 {
        Seq::empty()
    } else if s.last().live && s.last().owner == owner {
        owned(s.drop_last(), owner).push(s.last().id)
    } else {
        owned(s.drop_last(), owner)
    }
}

/// The error for a token that its expected owner does not hold: `absent`
/// where the token is not live.
pub open spec fn ownership_error(s: Seq<RecordView>, id: Seq<char>, absent: Error) -> Error {
    if is_live(s, id) {
        Error::PermissionDenied
    } else {
        absent
    }
}

/// `ids[k]` is the first of `ids` that `owner` does not hold.
pub open spec fn first_unowned(
    s: Seq<RecordView>,
    owner: Seq<char>,
    ids: Seq<Seq<char>>,
    k: int,
) -> bool {
    &&& 0 <= k < ids.len()
    &&& owner_in(s, ids[k]) != Some(owner)
    &&& forall|j: int| 0 <= j < k ==> owner_in(s, #[trigger] ids[j]) == Some(owner)
}

/// `owner` holds every token of `ids`.
pub open spec fn holds_all(s: Seq<RecordView>, owner: Seq<char>, ids: Seq<Seq<char>>) -> bool {
    forall|j: int| 0 <= j < ids.len() ==> owner_in(s, #[trigger] ids[j]) == Some(owner)
}

/// The outcome of checking that `owner` holds each of `ids`: the error of the
/// first one that it does not hold.
pub open spec fn check_owned(
    s: Seq<RecordView>,
    owner: Seq<char>,
    ids: Seq<Seq<char>>,
    absent: Error,
) -> Result<(), Error> {
    if holds_all(s, owner, ids) {
        Ok(())
    } else {
        Err(ownership_error(s, ids[choose|k: int| first_unowned(s, owner, ids, k)], absent))
    }
}

pub proof fn lemma_first_unowned(
    s: Seq<RecordView>,
    owner: Seq<char>,
    ids: Seq<Seq<char>>,
    absent: Error,
    k: int,
)
    requires
        first_unowned(s, owner, ids, k),
    ensures
        check_owned(s, owner, ids, absent) == Err::<(), Error>(ownership_error(s, ids[k], absent)),
{
    assert(!holds_all(s, owner, ids));
    let c = choose|c: int| first_unowned(s, owner, ids, c);
    assert(first_unowned(s, owner, ids, c));
    if c < k {
        assert(owner_in(s, ids[c]) == Some(owner));
    } else if k < c {
        assert(owner_in(s, ids[k]) == Some(owner));
    }
}

/// `spender` holds an approval from `owner` for each of `ids`.
pub open spec fn approved_all(
    s: Seq<RecordView>,
    owner: Seq<char>,
    ids: Seq<Seq<char>>,
    spender: Seq<char>,
) -> bool {
    forall|j: int| 0 <= j < ids.len() ==> approval_held(s, owner, #[trigger] ids[j], spender)
}

/// `caller` may act on `owner`'s tokens `ids`: it is the owner, or it holds
/// an approval for each.
pub open spec fn authorized(
    s: Seq<RecordView>,
    caller: Seq<char>,
    owner: Seq<char>,
    ids: Seq<Seq<char>>,
) -> bool {
    caller == owner || approved_all(s, owner, ids, caller)
}

/// What a batch operation does to each live token that it names.
pub ghost enum Change {
    Burn,
    Give(Seq<char>),
    Approve(Seq<char>),
}

/// A record after `c`: a burned token is no longer live; a given one has its
/// new owner; either way its approval is gone.
pub open spec fn changed(r: RecordView, c: Change) -> RecordView {
    match c {
        Change::Burn => RecordView { live: false, approved: None, ..r },
        Change::Give(to) => RecordView { owner: to, approved: None, ..r },
        Change::Approve(spender) => RecordView { approved: Some(spender), ..r },
    }
}

/// The records after `c` is applied to each live token of `ids`.
pub open spec fn apply_batch(s: Seq<RecordView>, ids: Seq<Seq<char>>, c: Change) -> Seq<
    RecordView,
> {
    s.map_values(|r: RecordView| if r.live && ids.contains(r.id) { changed(r, c) } else { r })
}

pub proof fn lemma_take_contains(ids: Seq<Seq<char>>, j: int)
    requires
        0 <= j < ids.len(),
    ensures
        forall|x: Seq<char>|
            #[trigger] ids.take(j + 1).contains(x) == (ids.take(j).contains(x) || x == ids[j]),
{
    assert forall|x: Seq<char>| #[trigger]
        ids.take(j + 1).contains(x) == (ids.take(j).contains(x) || x == ids[j]) by {
        if ids.take(j).contains(x) {
            let a = choose|a: int| 0 <= a < j && #[trigger] ids.take(j)[a] == x;
            assert(ids.take(j + 1)[a] == x);
        }
        if x == ids[j] {
            assert(ids.take(j + 1)[j] == x);
        }
        if ids.take(j + 1).contains(x) {
            let a = choose|a: int| 0 <= a < j + 1 && #[trigger] ids.take(j + 1)[a] == x;
            if a < j {
                assert(ids.take(j)[a] == x);
            }
        }
    }
}

/// One more identifier of a batch: the record that holds it, if any, changes.
pub proof fn lemma_apply_step(s: Seq<RecordView>, ids: Seq<Seq<char>>, j: int, c: Change, k: int)
    requires
        0 <= j < ids.len(),
        unique_live(apply_batch(s, ids.take(j), c)),
        k == -1 ==> !is_live(apply_batch(s, ids.take(j), c), ids[j]),
        k != -1 ==> live_at(apply_batch(s, ids.take(j), c), k, ids[j]),
    ensures
        k == -1 ==> apply_batch(s, ids.take(j + 1), c) == apply_batch(s, ids.take(j), c),
        k != -1 ==> apply_batch(s, ids.take(j + 1), c) == apply_batch(s, ids.take(j), c).update(
            k,
            changed(apply_batch(s, ids.take(j), c)[k], c),
        ),
        unique_live(apply_batch(s, ids.take(j + 1), c)),
{
    let cur = apply_batch(s, ids.take(j), c);
    let nxt = apply_batch(s, ids.take(j + 1), c);
    lemma_take_contains(ids, j);
    if k == -1 {
        assert forall|i: int| 0 <= i < s.len() implies nxt[i] == cur[i] by {
            if s[i].live && s[i].id == ids[j] && !ids.take(j).contains(s[i].id) {
                assert(live_at(cur, i, ids[j]));
            }
        }
        assert(nxt =~= cur);
    } else {
        let upd = cur.update(k, changed(cur[k], c));
        assert forall|i: int| 0 <= i < s.len() implies nxt[i] == upd[i] by {
            if i != k && s[i].live && s[i].id == ids[j] && !ids.take(j).contains(s[i].id) {
                assert(cur[i].live && cur[k].live);
            }
        }
        assert(nxt =~= upd);
    }
}

/// The records of a fresh batch of tokens.
pub open spec fn minted(ids: Seq<Seq<char>>, metas: Seq<Map<String, String>>, owner: Seq<char>) -> Seq<
    RecordView,
> {
    Seq::new(
        ids.len(),
        |i: int| RecordView { id: ids[i], owner: owner, meta: metas[i], approved: None, live: true },
    )
}

/// None of `ids` is live, and no identifier occurs twice among them.
pub open spec fn fresh_batch(s: Seq<RecordView>, ids: Seq<Seq<char>>) -> bool {
    &&& forall|j: int| 0 <= j < ids.len() ==> !is_live(s, #[trigger] ids[j])
    &&& forall|a: int, b: int| 0 <= a < b < ids.len() ==> ids[a] != ids[b]
}

pub proof fn lemma_slot(s: Seq<RecordView>, i: int, id: Seq<char>)
    requires
        unique_live(s),
        live_at(s, i, id),
    ensures
        is_live(s, id),
        slot(s, id) == i,
        owner_in(s, id) == Some(s[i].owner),
        meta_in(s, id) == Some(s[i].meta),
        approved_in(s, id) == s[i].approved,
{
    assert(live_at(s, slot(s, id), id));
}

pub proof fn lemma_not_live(s: Seq<RecordView>, id: Seq<char>)
    requires
        forall|i: int| 0 <= i < s.len() ==> !(s[i].live && s[i].id == id),
    ensures
        !is_live(s, id),
        owner_in(s, id) == None::<Seq<char>>,
        meta_in(s, id) == None::<Map<String, String>>,
        approved_in(s, id) == None::<Seq<char>>,
{
}

pub proof fn lemma_count_update(s: Seq<RecordView>, k: int, r: RecordView)
    requires
        0 <= k < s.len(),
    ensures
        live_count(s.update(k, r)) + (if s[k].live { 1int } else { 0int }) == live_count(s) + (
        if r.live { 1int } else { 0int }),
    decreases s.len(),
{
    let t = s.update(k, r);
    if k == s.len() - 1 {
        assert(t.drop_last() =~= s.drop_last());
    } else {
        assert(t.drop_last() =~= s.drop_last().update(k, r));
        lemma_count_update(s.drop_last(), k, r);
    }
}

pub proof fn lemma_count_push(s: Seq<RecordView>, r: RecordView)
    ensures
        live_count(s.push(r)) == live_count(s) + if r.live { 1nat } else { 0nat },
{
    assert(s.push(r).drop_last() =~= s);
}

/// A batch that does not burn leaves each of its live tokens live, in place,
/// changed by `c`; no batch makes two live records share an identifier.
pub proof fn lemma_apply_live(s: Seq<RecordView>, ids: Seq<Seq<char>>, c: Change, k: int, id: Seq<char>)
    requires
        unique_live(s),
        ids.contains(id),
        live_at(s, k, id),
        !(c is Burn),
    ensures
        live_at(apply_batch(s, ids, c), k, id),
        apply_batch(s, ids, c)[k] == changed(s[k], c),
        unique_live(apply_batch(s, ids, c)),
{
    lemma_apply_unique(s, ids, c);
}

pub proof fn lemma_apply_unique(s: Seq<RecordView>, ids: Seq<Seq<char>>, c: Change)
    requires
        unique_live(s),
    ensures
        unique_live(apply_batch(s, ids, c)),
{
    let t = apply_batch(s, ids, c);
    assert forall|i: int, j: int|
        0 <= i < t.len() && 0 <= j < t.len() && i != j && #[trigger] t[i].live && #[trigger] t[j].live
            implies t[i].id != t[j].id by {
        assert(s[i].live && s[j].live);
    }
}

/// A burned identifier is no longer live.
pub proof fn lemma_burned_gone(s: Seq<RecordView>, ids: Seq<Seq<char>>, id: Seq<char>)
    requires
        ids.contains(id),
    ensures
        !is_live(apply_batch(s, ids, Change::Burn), id),
{
    let t = apply_batch(s, ids, Change::Burn);
    assert forall|i: int| 0 <= i < t.len() implies !(t[i].live && t[i].id == id) by {}
}

} // verus!
