use cep47::token_ids::token_id;
use cep47::{Error, Event, Meta, CEP47};

fn s(x: &str) -> String {
    x.to_string()
}

fn meta(pairs: &[(&str, &str)]) -> Meta {
    let mut m = Meta::new();
    for (k, v) in pairs {
        m.insert(s(k), s(v));
    }
    m
}

fn ids(xs: &[&str]) -> Vec<String> {
    xs.iter().map(|x| s(x)).collect()
}

fn registry() -> CEP47 {
    CEP47::init(s("Casper Punks"), s("CPK"), meta(&[("origin", "test")]))
}

fn registry_with(owner: &str, tokens: &[&str]) -> CEP47 {
    let mut r = registry();
    let metas = tokens.iter().map(|t| meta(&[("name", t)])).collect();
    r.mint(s(owner), Some(ids(tokens)), metas, 0).unwrap();
    r
}

#[test]
fn init_sets_scalars() {
    let r = registry();
    assert_eq!(r.name(), "Casper Punks");
    assert_eq!(r.symbol(), "CPK");
    assert_eq!(r.meta(), meta(&[("origin", "test")]));
    assert_eq!(r.total_supply(), 0);
    assert!(r.events().is_empty());
}

#[test]
fn set_meta_replaces_registry_meta() {
    let mut r = registry();
    assert_eq!(r.set_meta(meta(&[("k", "v")])), Ok(()));
    assert_eq!(r.meta(), meta(&[("k", "v")]));
}

#[test]
fn supply_tracks_live_tokens() {
    let mut r = registry_with("alice", &["a", "b", "c"]);
    assert_eq!(r.total_supply(), 3);
    r.burn(s("alice"), s("alice"), ids(&["b"])).unwrap();
    assert_eq!(r.total_supply(), 2);
    r.transfer(s("alice"), s("bob"), ids(&["a"])).unwrap();
    assert_eq!(r.total_supply(), 2);
    r.burn(s("bob"), s("bob"), ids(&["a"])).unwrap();
    r.burn(s("alice"), s("alice"), ids(&["c"])).unwrap();
    assert_eq!(r.total_supply(), 0);
}

#[test]
fn burn_with_repeated_id_counts_once() {
    let mut r = registry_with("alice", &["a", "b"]);
    r.burn(s("alice"), s("alice"), ids(&["a", "a"])).unwrap();
    assert_eq!(r.total_supply(), 1);
    assert_eq!(r.owner_of(s("a")), None);
}

#[test]
fn each_token_listed_once_by_its_owner() {
    let mut r = registry_with("alice", &["a", "b", "c"]);
    r.transfer(s("alice"), s("bob"), ids(&["b"])).unwrap();
    assert_eq!(r.balance_of(s("alice")), 2);
    assert_eq!(r.balance_of(s("bob")), 1);
    assert_eq!(r.get_token_by_index(s("alice"), 0), Some(s("a")));
    assert_eq!(r.get_token_by_index(s("alice"), 1), Some(s("c")));
    assert_eq!(r.get_token_by_index(s("bob"), 0), Some(s("b")));
    for owner in ["alice", "bob"] {
        for i in 0..r.balance_of(s(owner)) {
            let t = r.get_token_by_index(s(owner), i).unwrap();
            assert_eq!(r.owner_of(t), Some(s(owner)));
        }
    }
}

#[test]
fn mint_then_burn_round_trip() {
    let mut r = registry();
    let m = meta(&[("color", "red")]);
    let minted = r.mint(s("alice"), Some(ids(&["x"])), vec![m.clone()], 0);
    assert_eq!(minted, Ok(ids(&["x"])));
    assert_eq!(r.owner_of(s("x")), Some(s("alice")));
    assert_eq!(r.token_meta(s("x")), Some(m));
    assert_eq!(r.burn(s("alice"), s("alice"), ids(&["x"])), Ok(()));
    assert_eq!(r.owner_of(s("x")), None);
    assert_eq!(r.token_meta(s("x")), None);
}

#[test]
fn mint_of_live_id_refused() {
    let mut r = registry_with("alice", &["a"]);
    let got = r.mint(s("bob"), Some(ids(&["z", "a"])), vec![Meta::new(), Meta::new()], 0);
    assert_eq!(got, Err(Error::TokenIdAlreadyExists));
    assert_eq!(r.total_supply(), 1);
    assert_eq!(r.owner_of(s("a")), Some(s("alice")));
    assert_eq!(r.owner_of(s("z")), None);
}

#[test]
fn mint_of_repeated_id_refused() {
    let mut r = registry();
    let got = r.mint(s("bob"), Some(ids(&["z", "z"])), vec![Meta::new(), Meta::new()], 0);
    assert_eq!(got, Err(Error::TokenIdAlreadyExists));
    assert_eq!(r.total_supply(), 0);
}

#[test]
fn mint_with_mismatched_counts_refused() {
    let mut r = registry();
    let got = r.mint(s("bob"), Some(ids(&["a", "b"])), vec![Meta::new()], 0);
    assert_eq!(got, Err(Error::WrongArguments));
    assert_eq!(r.total_supply(), 0);
}

#[test]
fn transfer_batch_with_foreign_token_changes_nothing() {
    let mut r = registry_with("alice", &["a", "c"]);
    r.mint(s("carol"), Some(ids(&["b"])), vec![Meta::new()], 0).unwrap();
    let got = r.transfer_from(s("alice"), s("alice"), s("bob"), ids(&["a", "b", "c"]));
    assert_eq!(got, Err(Error::PermissionDenied));
    assert_eq!(r.owner_of(s("a")), Some(s("alice")));
    assert_eq!(r.owner_of(s("b")), Some(s("carol")));
    assert_eq!(r.owner_of(s("c")), Some(s("alice")));
    assert_eq!(r.balance_of(s("bob")), 0);
}

#[test]
fn transfer_batch_with_missing_token_changes_nothing() {
    let mut r = registry_with("alice", &["a", "c"]);
    let got = r.transfer_from(s("alice"), s("alice"), s("bob"), ids(&["a", "b", "c"]));
    assert_eq!(got, Err(Error::TokenIdDoesntExist));
    assert_eq!(r.owner_of(s("a")), Some(s("alice")));
    assert_eq!(r.owner_of(s("c")), Some(s("alice")));
}

#[test]
fn approval_is_consumed_by_transfer() {
    let mut r = registry_with("alice", &["x"]);
    assert_eq!(r.approve(s("alice"), s("spender"), ids(&["x"])), Ok(()));
    assert!(r.is_approved(s("alice"), s("x"), s("spender")));
    assert_eq!(r.get_approved(s("alice"), s("x")), Some(s("spender")));
    let got = r.transfer_from(s("spender"), s("alice"), s("bob"), ids(&["x"]));
    assert_eq!(got, Ok(()));
    assert_eq!(r.owner_of(s("x")), Some(s("bob")));
    assert!(!r.is_approved(s("alice"), s("x"), s("spender")));
    assert_eq!(r.get_approved(s("alice"), s("x")), None);
}

#[test]
fn transfer_without_approval_refused() {
    let mut r = registry_with("alice", &["x"]);
    let got = r.transfer_from(s("mallory"), s("alice"), s("mallory"), ids(&["x"]));
    assert_eq!(got, Err(Error::PermissionDenied));
    assert_eq!(r.owner_of(s("x")), Some(s("alice")));
}

#[test]
fn approved_spender_may_burn() {
    let mut r = registry_with("alice", &["x", "y"]);
    r.approve(s("alice"), s("spender"), ids(&["x"])).unwrap();
    assert_eq!(r.burn(s("spender"), s("alice"), ids(&["x", "y"])), Err(Error::PermissionDenied));
    assert_eq!(r.burn(s("spender"), s("alice"), ids(&["x"])), Ok(()));
    assert_eq!(r.owner_of(s("x")), None);
    assert_eq!(r.total_supply(), 1);
}

#[test]
fn burn_errors() {
    let mut r = registry_with("alice", &["a"]);
    assert_eq!(r.burn_internal(s("bob"), ids(&["a"])), Err(Error::PermissionDenied));
    assert_eq!(r.burn_internal(s("alice"), ids(&["nope"])), Err(Error::TokenIdDoesntExist));
    assert_eq!(r.total_supply(), 1);
}

#[test]
fn approve_errors() {
    let mut r = registry_with("alice", &["a"]);
    assert_eq!(r.approve(s("alice"), s("bob"), ids(&["a", "nope"])), Err(Error::WrongArguments));
    assert!(!r.is_approved(s("alice"), s("a"), s("bob")));
    assert_eq!(r.approve(s("bob"), s("bob"), ids(&["a"])), Err(Error::PermissionDenied));
}

#[test]
fn approve_overwrites_prior_spender() {
    let mut r = registry_with("alice", &["a"]);
    r.approve(s("alice"), s("bob"), ids(&["a"])).unwrap();
    r.approve(s("alice"), s("carol"), ids(&["a"])).unwrap();
    assert!(!r.is_approved(s("alice"), s("a"), s("bob")));
    assert!(r.is_approved(s("alice"), s("a"), s("carol")));
}

#[test]
fn set_token_meta_updates_live_token() {
    let mut r = registry_with("alice", &["a"]);
    assert_eq!(r.set_token_meta(s("a"), meta(&[("v", "2")])), Ok(()));
    assert_eq!(r.token_meta(s("a")), Some(meta(&[("v", "2")])));
    assert_eq!(r.owner_of(s("a")), Some(s("alice")));
    assert_eq!(r.set_token_meta(s("b"), Meta::new()), Err(Error::TokenIdDoesntExist));
}

#[test]
fn generation_yields_distinct_ids() {
    let mut r = registry();
    let first = r.generate_token_ids(1, 1000);
    let second = r.generate_token_ids(1, 1000);
    assert_ne!(first, second);
    assert_eq!(first, ids(&["bd1e84ed45e5e0ce4f5c6f577131ecd33cafd759bc6e5e9d574ff5c4f39f8cf5"]));
    assert_eq!(second, ids(&["141ae4772ef51b4853a2f23bab3b6ed53e6e37ce5fbde7c2b4112bfb8422308f"]));
}

#[test]
fn token_id_is_hex_blake2b_of_time_and_nonce() {
    assert_eq!(token_id(0, 0), "d2097ea5ba9ae6f4484fa960dbc0f82a6ac5a08e4c0785cff0b95d510a97ce18");
    assert_eq!(token_id(1000, 2), "4d5e00bfa885786ea928a4fb0a488aefa237b452aea0f26fedf3eb62f316ed7a");
    assert_eq!(token_id(1000, 2), token_id(1000, 2));
}

#[test]
fn mint_without_ids_generates_them() {
    let mut r = registry();
    let got = r.mint(s("alice"), None, vec![Meta::new(), Meta::new()], 1000).unwrap();
    assert_eq!(got.len(), 2);
    assert_eq!(got[0], token_id(1000, 0));
    assert_eq!(got[1], token_id(1000, 1));
    assert_eq!(r.owner_of(got[1].clone()), Some(s("alice")));
    let next = r.mint(s("alice"), None, vec![], 1000).unwrap();
    assert_eq!(next, vec![token_id(1000, 2)]);
    assert_eq!(r.token_meta(next[0].clone()), Some(Meta::new()));
    assert_eq!(r.total_supply(), 3);
}

#[test]
fn mint_copies_replicates_meta() {
    let mut r = registry();
    let m = meta(&[("edition", "1")]);
    let got = r.mint_copies(s("alice"), Some(ids(&["a", "b", "c"])), m.clone(), 3, 0);
    assert_eq!(got, Ok(ids(&["a", "b", "c"])));
    assert_eq!(r.token_meta(s("c")), Some(m.clone()));
    let bad = r.mint_copies(s("alice"), Some(ids(&["d"])), m, 2, 0);
    assert_eq!(bad, Err(Error::WrongArguments));
    assert_eq!(r.total_supply(), 3);
}

#[test]
fn boundary_queries() {
    let r = registry_with("alice", &["a"]);
    assert_eq!(r.balance_of(s("nobody")), 0);
    assert_eq!(r.get_token_by_index(s("alice"), 1), None);
    assert_eq!(r.get_token_by_index(s("nobody"), 0), None);
    assert_eq!(r.owner_of(s("missing")), None);
}

#[test]
fn validate_token_ids_reports_live_ids() {
    let r = registry_with("alice", &["a"]);
    assert!(r.validate_token_ids(ids(&["b", "c"])));
    assert!(!r.validate_token_ids(ids(&["b", "a"])));
}

#[test]
fn events_record_operations_in_order() {
    let mut r = registry_with("alice", &["a"]);
    r.approve(s("alice"), s("bob"), ids(&["a"])).unwrap();
    r.transfer_from(s("bob"), s("alice"), s("bob"), ids(&["a"])).unwrap();
    r.set_token_meta(s("a"), Meta::new()).unwrap();
    r.burn(s("bob"), s("bob"), ids(&["a"])).unwrap();
    let ev = r.events();
    assert_eq!(ev.len(), 5);
    assert!(matches!(&ev[0], Event::Mint { recipient, token_ids } if recipient == "alice" && *token_ids == ids(&["a"])));
    assert!(matches!(&ev[1], Event::Approve { owner, spender, .. } if owner == "alice" && spender == "bob"));
    assert!(matches!(&ev[2], Event::Transfer { sender, recipient, .. } if sender == "alice" && recipient == "bob"));
    assert!(matches!(&ev[3], Event::MetadataUpdate { token_id } if token_id == "a"));
    assert!(matches!(&ev[4], Event::Burn { owner, .. } if owner == "bob"));
}

#[test]
fn error_codes() {
    assert_eq!(Error::PermissionDenied.code(), 1);
    assert_eq!(Error::WrongArguments.code(), 2);
    assert_eq!(Error::TokenIdAlreadyExists.code(), 3);
    assert_eq!(Error::TokenIdDoesntExist.code(), 4);
}
