use ram_manager::api::{AuthenticatedUser, OnlineProfile, UserDetails};
use ram_manager::crypto::generate_key;
use ram_manager::error::AppError;
use ram_manager::models::Account;
use ram_manager::profiles;
use ram_manager::storage::AccountStore;

fn empty_store() -> AccountStore {
    AccountStore::from_loaded(generate_key(), Vec::new(), Vec::new())
}

fn named(name: &str, group: Option<&str>) -> Account {
    let mut a = Account::new(name.to_string());
    a.group = group.map(|g| g.to_string());
    a
}

fn profile(id: u64, name: &str) -> OnlineProfile {
    OnlineProfile {
        user: AuthenticatedUser { id, name: name.to_string(), display_name: format!("{} D", name) },
        robux: Some(5),
        is_premium: Some(false),
        avatar_url: Some("https://img/x.png".to_string()),
    }
}

#[test]
fn added_cookie_reads_back() {
    let mut store = empty_store();
    let a = named("alice", None);
    let id = a.id;
    store.add_account(a, "cookie-a").unwrap();
    assert_eq!(store.get_cookie(&id).unwrap(), "cookie-a");
    assert_eq!(store.count(), 1);
}

#[test]
fn new_accounts_get_the_count_as_sort_order() {
    let mut store = empty_store();
    let a = named("a", None);
    let b = named("b", None);
    let (ia, ib) = (a.id, b.id);
    store.add_account(a, "ca").unwrap();
    store.add_account(b, "cb").unwrap();
    assert_eq!(store.get_account(&ia).unwrap().sort_order, 0);
    assert_eq!(store.get_account(&ib).unwrap().sort_order, 1);
    let list = store.list_accounts();
    assert_eq!(list.len(), 2);
    assert_eq!(list[0].id, ia);
    assert_eq!(list[1].id, ib);
}

#[test]
fn replaced_cookie_reads_back_and_record_stays() {
    let mut store = empty_store();
    let a = named("alice", None);
    let id = a.id;
    store.add_account(a, "old").unwrap();
    store.update_cookie(&id, "new").unwrap();
    assert_eq!(store.get_cookie(&id).unwrap(), "new");
    assert_eq!(store.get_account(&id).unwrap().username, "alice");
}

#[test]
fn unknown_id_is_account_not_found() {
    let mut store = empty_store();
    let id: u128 = 0x0123_4567_89ab_cdef_0123_4567_89ab_cdef;
    let text = "01234567-89ab-cdef-0123-456789abcdef".to_string();
    assert_eq!(uuid::Uuid::from_u128(id).to_string(), text);
    assert_eq!(store.get_cookie(&id).unwrap_err(), AppError::AccountNotFound(text.clone()));
    assert_eq!(store.remove_account(&id).unwrap_err(), AppError::AccountNotFound(text.clone()));
    assert_eq!(store.update_cookie(&id, "x").unwrap_err(), AppError::AccountNotFound(text.clone()));
    assert!(store.get_account(&id).is_err());
}

#[test]
fn removed_account_is_gone_with_its_cookie() {
    let mut store = empty_store();
    let a = named("alice", None);
    let id = a.id;
    store.add_account(a, "c").unwrap();
    store.remove_account(&id).unwrap();
    assert_eq!(store.count(), 0);
    assert!(store.get_account(&id).is_err());
    assert!(matches!(store.get_cookie(&id), Err(AppError::AccountNotFound(_))));
}

#[test]
fn update_account_replaces_record_keeps_cookie() {
    let mut store = empty_store();
    let a = named("alice", None);
    let id = a.id;
    store.add_account(a, "c").unwrap();
    let mut changed = store.get_account(&id).unwrap().duplicate();
    changed.alias = Some("main".to_string());
    store.update_account(changed).unwrap();
    assert_eq!(store.get_account(&id).unwrap().alias.as_deref(), Some("main"));
    assert_eq!(store.get_cookie(&id).unwrap(), "c");
}

#[test]
fn reorder_follows_given_order() {
    let mut store = empty_store();
    let a = named("a", None);
    let b = named("b", None);
    let c = named("c", None);
    let (ia, ib, ic) = (a.id, b.id, c.id);
    store.add_account(a, "1").unwrap();
    store.add_account(b, "2").unwrap();
    store.add_account(c, "3").unwrap();
    store.reorder(&[ic, ia, ib, 42]);
    let list: Vec<u128> = store.list_accounts().iter().map(|x| x.id).collect();
    assert_eq!(list, vec![ic, ia, ib]);
    assert_eq!(store.get_account(&ic).unwrap().sort_order, 0);
    assert_eq!(store.get_account(&ib).unwrap().sort_order, 2);
}

#[test]
fn groups_sorted_without_repetition() {
    let mut store = empty_store();
    store.add_account(named("a", Some("zeta")), "1").unwrap();
    store.add_account(named("b", Some("alpha")), "2").unwrap();
    store.add_account(named("c", Some("zeta")), "3").unwrap();
    store.add_account(named("d", None), "4").unwrap();
    assert_eq!(store.get_groups(), vec!["alpha".to_string(), "zeta".to_string()]);
}

#[test]
fn loaded_records_later_ones_win() {
    let mut a = Account::new("first".to_string());
    a.id = 7;
    let mut b = Account::new("second".to_string());
    b.id = 7;
    let store = AccountStore::from_loaded(generate_key(), vec![a, b], Vec::new());
    assert_eq!(store.count(), 1);
    assert_eq!(store.get_account(&7).unwrap().username, "second");
}

#[test]
fn adding_known_user_updates_instead_of_duplicating() {
    let mut store = empty_store();
    let first = profiles::add_account(&mut store, profile(99, "bob"), None, Some("g1".to_string()), None, "c1").unwrap();
    assert_eq!(first.sort_order, 0);
    assert_eq!(first.group.as_deref(), Some("g1"));
    assert_eq!(first.user_id, Some(99));
    let details = UserDetails { description: Some("hello".to_string()), created: None, is_banned: None, has_verified_badge: None };
    let second = profiles::add_account(&mut store, profile(99, "bobby"), Some(details), None, Some("al".to_string()), "c2").unwrap();
    assert_eq!(store.count(), 1);
    assert_eq!(second.id, first.id);
    assert_eq!(second.username, "bobby");
    assert_eq!(second.group.as_deref(), Some("g1"));
    assert_eq!(second.alias.as_deref(), Some("al"));
    assert_eq!(second.description.as_deref(), Some("hello"));
    assert!(second.last_used.is_some());
    assert_eq!(store.get_cookie(&first.id).unwrap(), "c2");
}

#[test]
fn find_by_user_id_takes_first_in_sort_order() {
    let mut store = empty_store();
    let mut a = Account::new("a".to_string());
    a.user_id = Some(5);
    let mut b = Account::new("b".to_string());
    b.user_id = Some(5);
    let ia = a.id;
    store.add_account(a, "1").unwrap();
    store.add_account(b, "2").unwrap();
    assert_eq!(profiles::find_by_user_id(&store, 5), Some(ia));
    assert_eq!(profiles::find_by_user_id(&store, 6), None);
}

#[test]
fn edit_clears_with_empty_text() {
    let mut store = empty_store();
    let mut a = named("a", Some("g"));
    a.alias = Some("x".to_string());
    let id = a.id;
    store.add_account(a, "1").unwrap();
    let v = profiles::update_account(&mut store, id, Some(String::new()), None, Some("about".to_string()), Some(vec![("k".to_string(), "v".to_string())])).unwrap();
    assert_eq!(v.alias, None);
    assert_eq!(v.group.as_deref(), Some("g"));
    assert_eq!(v.description.as_deref(), Some("about"));
    assert_eq!(v.fields, vec![("k".to_string(), "v".to_string())]);
    assert!(matches!(profiles::update_account(&mut store, 3, None, None, None, None), Err(AppError::AccountNotFound(_))));
}

#[test]
fn refresh_takes_profile_and_keeps_description_without_details() {
    let mut store = empty_store();
    let mut a = named("old", None);
    a.description = Some("d".to_string());
    let id = a.id;
    store.add_account(a, "1").unwrap();
    let v = profiles::refresh_account(&mut store, id, profile(1, "new"), None).unwrap();
    assert_eq!(v.username, "new");
    assert_eq!(v.user_id, Some(1));
    assert_eq!(v.display_name.as_deref(), Some("new D"));
    assert_eq!(v.robux, Some(5));
    assert_eq!(v.description.as_deref(), Some("d"));
}

#[test]
fn touch_marks_used() {
    let mut store = empty_store();
    let a = named("a", None);
    let id = a.id;
    store.add_account(a, "1").unwrap();
    assert!(store.get_account(&id).unwrap().last_used.is_none());
    profiles::touch_account(&mut store, id).unwrap();
    assert!(store.get_account(&id).unwrap().last_used.is_some());
}

#[test]
fn new_account_id_is_version_four() {
    let a = Account::new("x".to_string());
    let text = uuid::Uuid::from_u128(a.id).to_string();
    assert_eq!(&text[14..15], "4");
    assert!(matches!(&text[19..20], "8" | "9" | "a" | "b"));
}

#[test]
fn listing_reloads_into_the_same_store() {
    let key = generate_key();
    let mut store = AccountStore::from_loaded(key, Vec::new(), Vec::new());
    let a = named("alice", Some("main"));
    let b = named("bob", None);
    let (ia, ib) = (a.id, b.id);
    store.add_account(a, "cookie-a").unwrap();
    store.add_account(b, "cookie-b").unwrap();
    let accounts = store.list_accounts();
    let secrets = store.list_secrets();
    assert_eq!(secrets.len(), 2);
    let reloaded = AccountStore::from_loaded(key, accounts, secrets);
    assert_eq!(reloaded.count(), 2);
    assert_eq!(reloaded.get_cookie(&ia).unwrap(), "cookie-a");
    assert_eq!(reloaded.get_cookie(&ib).unwrap(), "cookie-b");
    assert_eq!(reloaded.get_account(&ia).unwrap().group.as_deref(), Some("main"));
    assert_eq!(reloaded.get_account(&ib).unwrap().sort_order, 1);
}

#[test]
fn nonce_checks_see_a_short_nonce() {
    let key = generate_key();
    let a = named("alice", None);
    let id = a.id;
    let good = AccountStore::from_loaded(key, vec![named("x", None)], Vec::new());
    assert!(good.record_nonces_valid());
    let secret = ram_manager::models::AccountSecret { account_id: id, encrypted_cookie: vec![1, 2, 3], nonce: vec![0; 5] };
    let bad = AccountStore::from_loaded(key, vec![a], vec![secret]);
    assert!(!bad.nonce_valid(&id));
    assert!(!bad.record_nonces_valid());
    assert!(bad.nonce_valid(&(id ^ 1)));
}

#[test]
fn display_name_is_recorded() {
    let mut store = empty_store();
    let mut a = named("alice", None);
    a.user_id = Some(42);
    let id = a.id;
    store.add_account(a, "c").unwrap();
    assert_eq!(profiles::user_id_of(&store, id).unwrap(), 42);
    profiles::set_display_name(&mut store, id, "Alice!".to_string()).unwrap();
    assert_eq!(store.get_account(&id).unwrap().display_name.as_deref(), Some("Alice!"));
    let missing = id ^ 1;
    assert!(matches!(profiles::set_display_name(&mut store, missing, "x".to_string()), Err(AppError::AccountNotFound(_))));
}

#[test]
fn account_without_user_id_cannot_be_renamed() {
    let mut store = empty_store();
    let a = named("alice", None);
    let id = a.id;
    store.add_account(a, "c").unwrap();
    match profiles::user_id_of(&store, id) {
        Err(AppError::Other(m)) => assert_eq!(m, "Account has no user ID"),
        other => panic!("unexpected {:?}", other),
    }
}

#[test]
fn reorder_by_permutation_lists_in_that_order() {
    let mut store = empty_store();
    let a = named("a", None);
    let b = named("b", None);
    let c = named("c", None);
    let (ia, ib, ic) = (a.id, b.id, c.id);
    store.add_account(a, "1").unwrap();
    store.add_account(b, "2").unwrap();
    store.add_account(c, "3").unwrap();
    store.reorder(&[ib, ic, ia]);
    let list: Vec<u128> = store.list_accounts().iter().map(|x| x.id).collect();
    assert_eq!(list, vec![ib, ic, ia]);
    store.reorder(&[ia, ic, ib]);
    let list: Vec<u128> = store.list_accounts().iter().map(|x| x.id).collect();
    assert_eq!(list, vec![ia, ic, ib]);
}
