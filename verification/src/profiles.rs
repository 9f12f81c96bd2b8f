use vstd::prelude::*;
use vstd::utf8::encode_utf8;
use vstd::string::StrSliceExecFns;
use crate::api::{OnlineProfile, UserDetails};
use crate::crypto::AES_GCM_MAX_PLAINTEXT;
use crate::error::{AppError, AppResult};
use crate::models::{Account, AccountModel, AccountView, is_v4_id, fields_view};
use crate::storage::{
    AccountStore, lists_exactly, sorted_by_order, has_id, not_found, account_added, unchanged,
};
use crate::text::opt_view;
use crate::time::{Timestamp, utc_now};

verus! {

/// The account carries the profile's user, balance, Premium state and avatar.
pub open spec fn shows_profile(a: AccountModel, p: OnlineProfile) -> bool {
    &&& a.username == p.user.name@
    &&& a.user_id == Some(p.user.id)
    &&& a.display_name == Some(p.user.display_name@)
    &&& a.robux == p.robux
    &&& a.is_premium == p.is_premium
    &&& a.avatar_url == opt_view(p.avatar_url)
}

/// A newly made account: a version-4 id, created at a valid instant, sort
/// order 0, never used, and no fields.
pub open spec fn is_fresh(a: AccountModel) -> bool {
    &&& is_v4_id(a.id)
    &&& a.created_at.is_valid()
    &&& a.sort_order == 0
    &&& a.last_used is None
    &&& a.fields.len() == 0
}

/// The description the user details give, or `old` when they could not be
/// read.
pub open spec fn described(details: Option<UserDetails>, old: Option<Seq<char>>) -> Option<Seq<char>> {
    match details {
        Some(d) => opt_view(d.description),
        None => old,
    }
}

/// A value that replaces the old one only when it is given.
pub open spec fn given_or(v: Option<String>, old: Option<Seq<char>>) -> Option<Seq<char>> {
    match v {
        Some(s) => Some(s@),
        None => old,
    }
}

/// A new account for the owner of a profile, in `group`, with no alias or
/// description.
pub fn account_from_profile(profile: OnlineProfile, group: Option<String>) -> (a: Account)
    ensures
        shows_profile(a@, profile),
        is_fresh(a@),
        a@.group == opt_view(group),
        a@.alias is None,
        a@.description is None,
{
    let OnlineProfile { user, robux, is_premium, avatar_url } = profile;
    let mut a = Account::new(user.name);
    a.user_id = Some(user.id);
    a.display_name = Some(user.display_name);
    a.group = group;
    a.robux = robux;
    a.is_premium = is_premium;
    a.avatar_url = avatar_url;
    a
}

/// Some account of `m` belongs to the Roblox user `user_id`.
pub open spec fn has_user(m: Map<u128, AccountModel>, user_id: u64) -> bool {
    exists|k: u128| m.contains_key(k) && #[trigger] m[k].user_id == Some(user_id)
}

/// `id` is an account of the user `user_id` with the least sort order among
/// that user's accounts.
pub open spec fn first_of_user(m: Map<u128, AccountModel>, user_id: u64, id: u128) -> bool {
    &&& m.contains_key(id)
    &&& m[id].user_id == Some(user_id)
    &&& forall|k: u128|
        m.contains_key(k) && #[trigger] m[k].user_id == Some(user_id) ==> m[id].sort_order
            <= m[k].sort_order
}

/// The first account (in sort order) of a Roblox user, if the store has one.
pub fn find_by_user_id(store: &AccountStore, user_id: u64) -> (r: Option<u128>)
    requires
        store.wf(),
    ensures
        match r {
            Some(id) => first_of_user(store@, user_id, id),
            None => !has_user(store@, user_id),
        },
{
    let list = store.list_accounts();
    let mut i: usize = 0;
    while i < list.len()
        invariant
            i <= list@.len(),
            lists_exactly(list@, store@),
            sorted_by_order(list@),
            forall|j: int| 0 <= j < i ==> #[trigger] list@[j].user_id != Some(user_id),
        decreases list@.len() - i,
    {
        let matches = match list[i].user_id {
            Some(u) => u == user_id,
            None => false,
        };
        if matches {
            let id = list[i].id;
            proof {
                assert(store@.contains_key(list@[i as int].id));
                assert forall|k: u128|
                    store@.contains_key(k) && #[trigger] store@[k].user_id == Some(user_id) implies store@[id].sort_order
                    <= store@[k].sort_order by {
                    assert(has_id(list@, k));
                    let j = choose|j: int| 0 <= j < list@.len() && #[trigger] list@[j].id == k;
                    assert(store@.contains_key(list@[j].id));
                    if j < i {
                        assert(list@[j].user_id == Some(user_id));
                    }
                }
            }
            return Some(id);
        }
        i += 1;
    }
    proof {
        assert forall|k: u128| store@.contains_key(k) implies #[trigger] store@[k].user_id != Some(user_id) by {
            assert(has_id(list@, k));
            let j = choose|j: int| 0 <= j < list@.len() && #[trigger] list@[j].id == k;
            assert(store@.contains_key(list@[j].id));
        }
    }
    None
}

/// What adding a profile does to an existing account of the same user: the
/// user's name, display name, balance, Premium state and avatar are
/// refreshed, the description too when the details were read, group and
/// alias when given, and the account is marked used at `t`.
pub open spec fn merged_into(
    a: AccountModel,
    p: OnlineProfile,
    details: Option<UserDetails>,
    group: Option<String>,
    alias: Option<String>,
    t: Timestamp,
) -> AccountModel {
    AccountModel {
        username: p.user.name@,
        display_name: Some(p.user.display_name@),
        robux: p.robux,
        is_premium: p.is_premium,
        avatar_url: opt_view(p.avatar_url),
        description: described(details, a.description),
        last_used: Some(t),
        group: given_or(group, a.group),
        alias: given_or(alias, a.alias),
        ..a
    }
}

/// The account that adding a profile creates when the user has none yet:
/// what `account_from_profile` makes, with the alias and the description of
/// the details.
pub open spec fn created_for(a: AccountModel, p: OnlineProfile, details: Option<UserDetails>, group: Option<String>, alias: Option<String>) -> bool {
    &&& shows_profile(a, p)
    &&& is_fresh(a)
    &&& a.group == opt_view(group)
    &&& a.alias == opt_view(alias)
    &&& a.description == described(details, None)
}

/// Adds the owner of a validated cookie. When the store already has an
/// account of the same Roblox user, that account (the first in sort order)
/// gets the new cookie and refreshed data; otherwise a new account is added
/// with the cookie. Returns the view of the account (for a new one, as it
/// was before it got its sort order).
pub fn add_account(
    store: &mut AccountStore,
    profile: OnlineProfile,
    details: Option<UserDetails>,
    group: Option<String>,
    alias: Option<String>,
    cookie: &str,
) -> (r: AppResult<AccountView>)
    requires
        old(store).wf(),
    ensures
        final(store).wf(),
        (r is Ok) <==> encode_utf8(cookie@).len() <= AES_GCM_MAX_PLAINTEXT,
        r matches Err(e) ==> e is Encryption && unchanged(*old(store), *final(store)),
        has_user(old(store)@, profile.user.id) ==> (r matches Ok(v) ==> {
            &&& first_of_user(old(store)@, profile.user.id, v@.id)
            &&& v@.last_used matches Some(t) && t.is_valid()
            &&& v@ == merged_into(old(store)@[v@.id], profile, details, group, alias, v@.last_used->0)
            &&& v@.group == match group {
                Some(g) => Some(g@),
                None => old(store)@[v@.id].group,
            }
            &&& v@.alias == match alias {
                Some(a) => Some(a@),
                None => old(store)@[v@.id].alias,
            }
            &&& final(store)@[v@.id].group == v@.group
            &&& final(store)@ == old(store)@.insert(v@.id, v@)
            &&& final(store).key() == old(store).key()
            &&& final(store).stored_cookie(v@.id) == Some(cookie@)
            &&& final(store).nonce_ok(v@.id)
            &&& forall|k: u128|
                k != v@.id && #[trigger] old(store).secret_map().contains_key(k)
                    ==> final(store).secret_map().contains_key(k) && final(store).secret_map()[k]
                    == old(store).secret_map()[k]
        }),
        !has_user(old(store)@, profile.user.id) ==> (r matches Ok(v) ==> {
            &&& created_for(v@, profile, details, group, alias)
            &&& account_added(*old(store), *final(store), v@, cookie@)
        }),
{
    let user_id = profile.user.id;
    proof {
        store.lemma_filed_by_id();
    }
    match find_by_user_id(store, user_id) {
        Some(existing_id) => {
            let mut account = match store.get_account(&existing_id) {
                Ok(a) => a.duplicate(),
                Err(e) => return Err(e),
            };
            let ghost before = account@;
            let OnlineProfile { user, robux, is_premium, avatar_url } = profile;
            account.username = user.name;
            account.display_name = Some(user.display_name);
            account.robux = robux;
            account.is_premium = is_premium;
            account.avatar_url = avatar_url;
            match details {
                Some(d) => {
                    account.description = d.description;
                },
                None => {},
            }
            account.last_used = Some(utc_now());
            match group {
                Some(g) => {
                    account.group = Some(g);
                },
                None => {},
            }
            match alias {
                Some(a) => {
                    account.alias = Some(a);
                },
                None => {},
            }
            match store.update_cookie(&existing_id, cookie) {
                Ok(()) => {},
                Err(e) => return Err(e),
            }
            let view = account.to_view();
            match store.update_account(account) {
                Ok(()) => {},
                Err(e) => return Err(e),
            }
            Ok(view)
        },
        None => {
            let mut account = account_from_profile(profile, group);
            account.alias = alias;
            match details {
                Some(d) => {
                    account.description = d.description;
                },
                None => {},
            }
            let view = account.to_view();
            match store.add_account(account, cookie) {
                Ok(()) => {},
                Err(e) => return Err(e),
            }
            Ok(view)
        },
    }
}

/// What refreshing an account from the API does: the user's name, id,
/// display name, balance, Premium state and avatar are replaced, and the
/// description too when the details were read.
pub open spec fn refreshed(a: AccountModel, p: OnlineProfile, details: Option<UserDetails>) -> AccountModel {
    AccountModel {
        username: p.user.name@,
        user_id: Some(p.user.id),
        display_name: Some(p.user.display_name@),
        robux: p.robux,
        is_premium: p.is_premium,
        avatar_url: opt_view(p.avatar_url),
        description: described(details, a.description),
        ..a
    }
}

/// Refreshes an account with what the API reports about its cookie's owner
/// and returns its view.
pub fn refresh_account(
    store: &mut AccountStore,
    id: u128,
    profile: OnlineProfile,
    details: Option<UserDetails>,
) -> (r: AppResult<AccountView>)
    requires
        old(store).wf(),
    ensures
        final(store).wf(),
        (r is Ok) <==> old(store)@.contains_key(id),
        r matches Ok(v) ==> v@ == refreshed(old(store)@[id], profile, details) && final(store)@
            == old(store)@.insert(id, v@) && final(store).secret_map() == old(store).secret_map()
            && final(store).key() == old(store).key(),
        r matches Err(e) ==> not_found(e, id) && unchanged(*old(store), *final(store)),
{
    proof {
        store.lemma_filed_by_id();
    }
    let mut account = match store.get_account(&id) {
        Ok(a) => a.duplicate(),
        Err(e) => return Err(e),
    };
    let OnlineProfile { user, robux, is_premium, avatar_url } = profile;
    account.username = user.name;
    account.user_id = Some(user.id);
    account.display_name = Some(user.display_name);
    account.robux = robux;
    account.is_premium = is_premium;
    account.avatar_url = avatar_url;
    match details {
        Some(d) => {
            account.description = d.description;
        },
        None => {},
    }
    let view = account.to_view();
    match store.update_account(account) {
        Ok(()) => {},
        Err(e) => return Err(e),
    }
    Ok(view)
}

/// An edited text field: unchanged when no value is given, cleared by an
/// empty value, else set.
pub open spec fn edited_text(v: Option<String>, old: Option<Seq<char>>) -> Option<Seq<char>> {
    match v {
        Some(s) => if s@.len() == 0 {
            None
        } else {
            Some(s@)
        },
        None => old,
    }
}

/// What editing an account's metadata does: alias, group and description as
/// `edited_text` says, and the fields replaced when given.
pub open spec fn edited(
    a: AccountModel,
    alias: Option<String>,
    group: Option<String>,
    description: Option<String>,
    fields: Option<Vec<(String, String)>>,
) -> AccountModel {
    AccountModel {
        alias: edited_text(alias, a.alias),
        group: edited_text(group, a.group),
        description: edited_text(description, a.description),
        fields: match fields {
            Some(f) => fields_view(f@),
            None => a.fields,
        },
        ..a
    }
}

/// An edited text field as a value.
fn edit_text(v: Option<String>, old: Option<String>) -> (r: Option<String>)
    ensures
        opt_view(r) == edited_text(v, opt_view(old)),
{
    match v {
        Some(s) => if s.as_str().unicode_len() == 0 {
            None
        } else {
            Some(s)
        },
        None => old,
    }
}

/// Edits the metadata of an account (alias, group, description, fields)
/// and returns its view.
pub fn update_account(
    store: &mut AccountStore,
    id: u128,
    alias: Option<String>,
    group: Option<String>,
    description: Option<String>,
    fields: Option<Vec<(String, String)>>,
) -> (r: AppResult<AccountView>)
    requires
        old(store).wf(),
    ensures
        final(store).wf(),
        (r is Ok) <==> old(store)@.contains_key(id),
        r matches Ok(v) ==> v@ == edited(old(store)@[id], alias, group, description, fields)
            && final(store)@ == old(store)@.insert(id, v@) && final(store).secret_map()
            == old(store).secret_map() && final(store).key() == old(store).key(),
        r matches Err(e) ==> not_found(e, id) && unchanged(*old(store), *final(store)),
{
    proof {
        store.lemma_filed_by_id();
    }
    let mut account = match store.get_account(&id) {
        Ok(a) => a.duplicate(),
        Err(e) => return Err(e),
    };
    let old_alias = account.alias.take();
    account.alias = edit_text(alias, old_alias);
    let old_group = account.group.take();
    account.group = edit_text(group, old_group);
    let old_description = account.description.take();
    account.description = edit_text(description, old_description);
    match fields {
        Some(f) => {
            account.fields = f;
        },
        None => {},
    }
    let view = account.to_view();
    match store.update_account(account) {
        Ok(()) => {},
        Err(e) => return Err(e),
    }
    Ok(view)
}

/// Marks an account as used now (before a game is joined with it).
pub fn touch_account(store: &mut AccountStore, id: u128) -> (r: AppResult<()>)
    requires
        old(store).wf(),
    ensures
        final(store).wf(),
        (r is Ok) <==> old(store)@.contains_key(id),
        r is Ok ==> final(store)@.dom() == old(store)@.dom() && (final(store)@[id].last_used matches Some(t)
            && t.is_valid() && final(store)@ == old(store)@.insert(
            id,
            AccountModel { last_used: Some(t), ..old(store)@[id] },
        )) && final(store).secret_map() == old(store).secret_map() && final(store).key()
            == old(store).key(),
        r matches Err(e) ==> not_found(e, id) && unchanged(*old(store), *final(store)),
{
    proof {
        store.lemma_filed_by_id();
    }
    let mut account = match store.get_account(&id) {
        Ok(a) => a.duplicate(),
        Err(e) => return Err(e),
    };
    account.last_used = Some(utc_now());
    store.update_account(account)
}

/// Records a new display name for an account (after the API accepted it).
pub fn set_display_name(store: &mut AccountStore, id: u128, name: String) -> (r: AppResult<()>)
    requires
        old(store).wf(),
    ensures
        final(store).wf(),
        (r is Ok) <==> old(store)@.contains_key(id),
        r is Ok ==> final(store)@ == old(store)@.insert(
            id,
            AccountModel { display_name: Some(name@), ..old(store)@[id] },
        ) && final(store).secret_map() == old(store).secret_map() && final(store).key()
            == old(store).key(),
        r matches Err(e) ==> not_found(e, id) && unchanged(*old(store), *final(store)),
{
    proof {
        store.lemma_filed_by_id();
    }
    let mut account = match store.get_account(&id) {
        Ok(a) => a.duplicate(),
        Err(e) => return Err(e),
    };
    account.display_name = Some(name);
    store.update_account(account)
}

/// The Roblox user id of an account, which renaming it needs.
pub fn user_id_of(store: &AccountStore, id: u128) -> (r: AppResult<u64>)
    requires
        store.wf(),
    ensures
        !store@.contains_key(id) ==> (r matches Err(e) && not_found(e, id)),
        store@.contains_key(id) ==> match store@[id].user_id {
            Some(u) => r == Ok::<u64, AppError>(u),
            None => r matches Err(AppError::Other(t)) && t@ == "Account has no user ID"@,
        },
{
    match store.get_account(&id) {
        Ok(a) => match a.user_id {
            Some(u) => Ok(u),
            None => Err(AppError::Other(String::from_str("Account has no user ID"))),
        },
        Err(e) => Err(e),
    }
}

} // verus!
