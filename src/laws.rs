//! Properties of the registry that relate several operations, or that hold
//! of every reachable state.
use vstd::prelude::*;
use crate::error::Error;
use crate::ledger::{
    apply_batch, approval_held, holds_all, is_live, lemma_apply_live, lemma_burned_gone, lemma_slot,
    live_at, live_count, meta_in, minted, owned, owner_in, slot, unique_live, Change, EventView,
    RecordView,
};
use crate::registry::{
    after_mint, delegated_outcome, generated, mint_outcome, owned_outcome, valid, LedgerView,
};
use crate::token_ids::{id_input, le_bytes, token_id_for};

verus! {

/// The identifiers of the live tokens.
pub open spec fn live_ids(s: Seq<RecordView>) -> Set<Seq<char>> {
    Set::new(|id: Seq<char>| is_live(s, id))
}

proof fn lemma_live_ids_count(s: Seq<RecordView>)
    requires
        unique_live(s),
    ensures
        live_ids(s).finite(),
        live_ids(s).len() == live_count(s),
    decreases s.len(),
{
    if s.len() == 0 {
        assert(live_ids(s) =~= Set::empty());
    } else {
        let d = s.drop_last();
        assert(unique_live(d)) by {
            assert forall|i: int, j: int|
                0 <= i < d.len() && 0 <= j < d.len() && i != j && #[trigger] d[i].live && #[trigger] d[j].live
                    implies d[i].id != d[j].id by {
                assert(s[i] == d[i] && s[j] == d[j]);
            }
        }
        lemma_live_ids_count(d);
        let last = s.last();
        assert forall|id: Seq<char>| is_live(s, id) == (is_live(d, id) || (last.live && last.id == id)) by {
            if is_live(s, id) {
                let i = choose|i: int| live_at(s, i, id);
                if i < d.len() {
                    assert(live_at(d, i, id));
                }
            }
            if is_live(d, id) {
                let i = choose|i: int| live_at(d, i, id);
                assert(live_at(s, i, id));
            }
            if last.live && last.id == id {
                assert(live_at(s, s.len() - 1, id));
            }
        }
        if last.live {
            assert(!is_live(d, last.id)) by {
                if is_live(d, last.id) {
                    let i = choose|i: int| live_at(d, i, last.id);
                    assert(s[i].live && s[s.len() - 1].live);
                }
            }
            assert(live_ids(s) =~= live_ids(d).insert(last.id));
        } else {
            assert(live_ids(s) =~= live_ids(d));
        }
    }
}

/// In every valid state, reached by any sequence of operations, the total
/// supply is the number of live token identifiers.
pub proof fn supply_counts_live_tokens(v: LedgerView)
    requires
        valid(v),
    ensures
        live_ids(v.records).finite(),
        v.total_supply == live_ids(v.records).len(),
{
    lemma_live_ids_count(v.records);
}

proof fn lemma_owned_contents(s: Seq<RecordView>, o: Seq<char>)
    requires
        unique_live(s),
    ensures
        forall|id: Seq<char>|
            #[trigger] owned(s, o).contains(id) <==> exists|p: int| live_at(s, p, id) && s[p].owner == o,
        forall|a: int, b: int|
            0 <= a < b < owned(s, o).len() ==> owned(s, o)[a] != owned(s, o)[b],
    decreases s.len(),
{
    if s.len() > 0 {
        let d = s.drop_last();
        assert(unique_live(d)) by {
            assert forall|i: int, j: int|
                0 <= i < d.len() && 0 <= j < d.len() && i != j && #[trigger] d[i].live && #[trigger] d[j].live
                    implies d[i].id != d[j].id by {
                assert(s[i] == d[i] && s[j] == d[j]);
            }
        }
        lemma_owned_contents(d, o);
        let last = s.last();
        let n = s.len() - 1;
        assert forall|id: Seq<char>|
            #[trigger] owned(s, o).contains(id) <==> exists|p: int| live_at(s, p, id) && s[p].owner == o by {
            if owned(s, o).contains(id) {
                if owned(d, o).contains(id) {
                    let p = choose|p: int| live_at(d, p, id) && d[p].owner == o;
                    assert(live_at(s, p, id) && s[p].owner == o);
                } else {
                    assert(live_at(s, n, id) && s[n].owner == o);
                }
            }
            if exists|p: int| live_at(s, p, id) && s[p].owner == o {
                let p = choose|p: int| live_at(s, p, id) && s[p].owner == o;
                if p < n {
                    assert(live_at(d, p, id) && d[p].owner == o);
                    assert(owned(d, o).contains(id));
                    let q = choose|q: int| 0 <= q < owned(d, o).len() && owned(d, o)[q] == id;
                    assert(owned(s, o)[q] == id);
                } else {
                    assert(owned(s, o) == owned(d, o).push(last.id));
                    assert(owned(s, o)[owned(d, o).len() as int] == id);
                }
            }
        }
        if last.live && last.owner == o {
            assert(!owned(d, o).contains(last.id)) by {
                if owned(d, o).contains(last.id) {
                    let p = choose|p: int| live_at(d, p, last.id) && d[p].owner == o;
                    assert(s[p].live && s[n].live);
                }
            }
            assert forall|a: int, b: int| 0 <= a < b < owned(s, o).len() implies owned(s, o)[a]
                != owned(s, o)[b] by {
                if b == owned(d, o).len() {
                    assert(owned(d, o)[a] == owned(s, o)[a]);
                    assert(owned(d, o).contains(owned(d, o)[a]));
                }
            }
        }
    }
}

/// Each live token is listed exactly once among its owner's tokens, and
/// among no other owner's.
pub proof fn token_listed_once(v: LedgerView, id: Seq<char>, other: Seq<char>)
    requires
        valid(v),
        is_live(v.records, id),
        owner_in(v.records, id) != Some(other),
    ensures
        exists|i: int| 0 <= i < owned(v.records, owner_in(v.records, id)->0).len()
            && #[trigger] owned(v.records, owner_in(v.records, id)->0)[i] == id,
        forall|i: int, j: int|
            0 <= i < owned(v.records, owner_in(v.records, id)->0).len() && 0 <= j < owned(
                v.records,
                owner_in(v.records, id)->0,
            ).len() && #[trigger] owned(v.records, owner_in(v.records, id)->0)[i] == id
                && #[trigger] owned(v.records, owner_in(v.records, id)->0)[j] == id ==> i == j,
        !owned(v.records, other).contains(id),
{
    let s = v.records;
    let k = slot(s, id);
    assert(live_at(s, k, id));
    let o = s[k].owner;
    lemma_slot(s, k, id);
    lemma_owned_contents(s, o);
    lemma_owned_contents(s, other);
    assert(owned(s, o).contains(id));
    assert(owner_in(s, id)->0 == o);
    let w = choose|w: int| 0 <= w < owned(s, o).len() && owned(s, o)[w] == id;
    assert(owned(s, o)[w] == id);
    if owned(s, other).contains(id) {
        let p = choose|p: int| live_at(s, p, id) && s[p].owner == other;
        lemma_slot(s, p, id);
    }
    assert forall|i: int, j: int|
        0 <= i < owned(s, o).len() && 0 <= j < owned(s, o).len() && #[trigger] owned(s, o)[i] == id
            && #[trigger] owned(s, o)[j] == id implies i == j by {
        if i < j {
        } else if j < i {
        }
    }
}

/// An owner that holds no live token has none listed: its balance is 0.
pub proof fn owner_without_tokens_lists_none(v: LedgerView, o: Seq<char>)
    requires
        valid(v),
        forall|p: int| 0 <= p < v.records.len() ==> !(#[trigger] v.records[p].live && v.records[p].owner == o),
    ensures
        owned(v.records, o).len() == 0,
{
    lemma_owned_contents(v.records, o);
    if owned(v.records, o).len() > 0 {
        assert(owned(v.records, o).contains(owned(v.records, o)[0]));
    }
}

/// Minting a fresh token `x` with metadata `m` to `recipient` gives it that
/// owner and that metadata; the owner's burning it afterwards succeeds and
/// leaves it with neither.
pub proof fn mint_then_burn_round_trip(
    v: LedgerView,
    recipient: Seq<char>,
    x: Seq<char>,
    m: Map<String, String>,
    time: u64,
    r: Result<Seq<Seq<char>>, Error>,
    w: LedgerView,
    r2: Result<(), Error>,
    u: LedgerView,
)
    requires
        valid(v),
        !is_live(v.records, x),
        mint_outcome(v, recipient, Some(seq![x]), seq![m], time, r, w),
        valid(w),
        delegated_outcome(
            w,
            recipient,
            recipient,
            seq![x],
            Change::Burn,
            EventView::Burn { owner: recipient, token_ids: seq![x] },
            r2,
            u,
        ),
    ensures
        r == Ok::<Seq<Seq<char>>, Error>(seq![x]),
        owner_in(w.records, x) == Some(recipient),
        meta_in(w.records, x) == Some(m),
        r2 == Ok::<(), Error>(()),
        owner_in(u.records, x) == None::<Seq<char>>,
        meta_in(u.records, x) == None::<Map<String, String>>,
{
    let n = v.records.len() as int;
    assert(w == after_mint(v, seq![x], seq![m], recipient));
    assert(w.records[n] == minted(seq![x], seq![m], recipient)[0]);
    assert(live_at(w.records, n, x));
    lemma_slot(w.records, n, x);
    assert(holds_all(w.records, recipient, seq![x]));
    assert(seq![x][0] == x);
    lemma_burned_gone(w.records, seq![x], x);
}

/// A mint whose supplied identifiers include a live one is refused with
/// `TokenIdAlreadyExists`, and the ledger is left as it was.
pub proof fn mint_of_live_id_refused(
    v: LedgerView,
    recipient: Seq<char>,
    ids: Seq<Seq<char>>,
    metas: Seq<Map<String, String>>,
    time: u64,
    r: Result<Seq<Seq<char>>, Error>,
    w: LedgerView,
    j: int,
)
    requires
        mint_outcome(v, recipient, Some(ids), metas, time, r, w),
        ids.len() == metas.len(),
        0 <= j < ids.len(),
        is_live(v.records, ids[j]),
    ensures
        r == Err::<Seq<Seq<char>>, Error>(Error::TokenIdAlreadyExists),
        w == v,
{
}

/// A transfer whose batch holds a token that `owner` does not hold is
/// refused, with `PermissionDenied` or `TokenIdDoesntExist`, and no token of
/// the batch changes hands.
pub proof fn transfer_with_foreign_token_refused(
    v: LedgerView,
    caller: Seq<char>,
    owner: Seq<char>,
    recipient: Seq<char>,
    ids: Seq<Seq<char>>,
    r: Result<(), Error>,
    w: LedgerView,
    j: int,
)
    requires
        delegated_outcome(
            v,
            caller,
            owner,
            ids,
            Change::Give(recipient),
            EventView::Transfer { sender: owner, recipient, token_ids: ids },
            r,
            w,
        ),
        0 <= j < ids.len(),
        owner_in(v.records, ids[j]) != Some(owner),
    ensures
        r == Err::<(), Error>(Error::PermissionDenied) || r == Err::<(), Error>(Error::TokenIdDoesntExist),
        w == v,
{
    assert(!holds_all(v.records, owner, ids));
}

/// After `owner` approves `spender` for `x`, a transfer of `x` by `spender`
/// succeeds and consumes the approval.
pub proof fn approval_is_consumed(
    v: LedgerView,
    owner: Seq<char>,
    spender: Seq<char>,
    recipient: Seq<char>,
    x: Seq<char>,
    r1: Result<(), Error>,
    w: LedgerView,
    r2: Result<(), Error>,
    u: LedgerView,
)
    requires
        valid(v),
        owner_in(v.records, x) == Some(owner),
        owned_outcome(
            v,
            owner,
            seq![x],
            Error::WrongArguments,
            Change::Approve(spender),
            EventView::Approve { owner, spender, token_ids: seq![x] },
            r1,
            w,
        ),
        valid(w),
        delegated_outcome(
            w,
            spender,
            owner,
            seq![x],
            Change::Give(recipient),
            EventView::Transfer { sender: owner, recipient, token_ids: seq![x] },
            r2,
            u,
        ),
    ensures
        r1 == Ok::<(), Error>(()),
        approval_held(w.records, owner, x, spender),
        r2 == Ok::<(), Error>(()),
        !approval_held(u.records, owner, x, spender),
{
    let s = v.records;
    assert(seq![x][0] == x);
    assert(seq![x].contains(x));
    assert(is_live(s, x));
    let k = slot(s, x);
    assert(live_at(s, k, x));
    lemma_slot(s, k, x);
    assert(holds_all(s, owner, seq![x]));
    lemma_apply_live(s, seq![x], Change::Approve(spender), k, x);
    let t = w.records;
    assert(t == apply_batch(s, seq![x], Change::Approve(spender)));
    lemma_slot(t, k, x);
    assert(holds_all(t, owner, seq![x]));
    lemma_apply_live(t, seq![x], Change::Give(recipient), k, x);
    lemma_slot(u.records, k, x);
}

/// `256` to the power `n`.
pub open spec fn pow256(n: nat) -> nat
    decreases n,
{
    if n == 0 {
        1
    } else {
        256 * pow256((n - 1) as nat)
    }
}

proof fn lemma_le_len(v: nat, n: nat)
    ensures
        le_bytes(v, n).len() == n,
    decreases n,
{
    if n > 0 {
        lemma_le_len(v / 256, (n - 1) as nat);
    }
}

proof fn lemma_le_injective(a: nat, b: nat, n: nat)
    requires
        le_bytes(a, n) == le_bytes(b, n),
        a < pow256(n),
        b < pow256(n),
    ensures
        a == b,
    decreases n,
{
    if n > 0 {
        let p = pow256((n - 1) as nat);
        let ta = le_bytes(a / 256, (n - 1) as nat);
        let tb = le_bytes(b / 256, (n - 1) as nat);
        lemma_le_len(a / 256, (n - 1) as nat);
        lemma_le_len(b / 256, (n - 1) as nat);
        assert(le_bytes(a, n) == seq![(a % 256) as u8] + ta);
        assert(le_bytes(b, n) == seq![(b % 256) as u8] + tb);
        assert(le_bytes(a, n)[0] == (a % 256) as u8);
        assert(le_bytes(b, n)[0] == (b % 256) as u8);
        assert(((a % 256) as u8) as nat == a % 256);
        assert(((b % 256) as u8) as nat == b % 256);
        assert(a % 256 == b % 256);
        assert(le_bytes(a, n).subrange(1, n as int) =~= ta);
        assert(le_bytes(b, n).subrange(1, n as int) =~= tb);
        assert(a / 256 < p) by (nonlinear_arith)
            requires
                a < 256 * p,
        ;
        assert(b / 256 < p) by (nonlinear_arith)
            requires
                b < 256 * p,
        ;
        lemma_le_injective(a / 256, b / 256, (n - 1) as nat);
        assert(a == 256 * (a / 256) + a % 256);
        assert(b == 256 * (b / 256) + b % 256);
    }
}

/// Two consecutive generations of one identifier each, at the same time,
/// hash different bytes: the second uses the next nonce value.
pub proof fn consecutive_generations_hash_distinct_inputs(
    time: u64,
    v0: LedgerView,
    a: Seq<Seq<char>>,
    v1: LedgerView,
    b: Seq<Seq<char>>,
)
    requires
        a == generated(time, v0.nonce, 1),
        v1.nonce == v0.nonce + 1,
        v1.nonce <= u32::MAX,
        b == generated(time, v1.nonce, 1),
    ensures
        a[0] == token_id_for(time, v0.nonce),
        b[0] == token_id_for(time, v1.nonce),
        id_input(time, v0.nonce) != id_input(time, v1.nonce),
{
    let t = le_bytes(time as nat, 8);
    let x = le_bytes(v0.nonce, 4);
    let y = le_bytes(v1.nonce, 4);
    lemma_le_len(time as nat, 8);
    lemma_le_len(v0.nonce, 4);
    lemma_le_len(v1.nonce, 4);
    assert(pow256(0) == 1);
    assert(pow256(1) == 256);
    assert(pow256(2) == 65536);
    assert(pow256(3) == 16777216);
    assert(pow256(4) == 4294967296);
    if id_input(time, v0.nonce) == id_input(time, v1.nonce) {
        assert((t + x).subrange(8, 12) =~= x);
        assert((t + y).subrange(8, 12) =~= y);
        lemma_le_injective(v0.nonce, v1.nonce, 4);
    }
}

} // verus!
