use vstd::prelude::*;
use vstd::string::StringExecFns;
use crate::format::{parse_uuid, uuid_parsed};
use crate::models::{Account, AccountView};
use crate::storage::{AccountStore, lists_exactly, sorted_by_order};
use crate::text::{opt_view, str_equal};

verus! {

/// The body of an error answer of the local web API.
#[derive(Debug)]
pub struct ApiError {
    pub error: String,
}

/// An error answer: its HTTP status and its body.
pub fn api_error(status: u16, msg: &str) -> (r: (u16, ApiError))
    ensures
        r.0 == status,
        r.1.error@ == msg@,
{
    (status, ApiError { error: String::from_str(msg) })
}

/// The accounts of `l` (in order) that are in `group`, or all of them when
/// no group is asked for.
pub open spec fn in_group(l: Seq<Account>, group: Option<Seq<char>>) -> Seq<Account>
    decreases l.len(),
{
    if l.len() == 0 {
        Seq::empty()
    } else {
        let before = in_group(l.drop_last(), group);
        match group {
            Some(g) => if opt_view(l.last().group) == Some(g) {
                before.push(l.last())
            } else {
                before
            },
            None => before.push(l.last()),
        }
    }
}

/// Whether an account is in the group asked for.
fn group_matches(a: &Account, group: &Option<String>) -> (b: bool)
    ensures
        b == match *group {
            Some(g) => opt_view(a.group) == Some(g@),
            None => true,
        },
{
    match group {
        None => true,
        Some(g) => match &a.group {
            Some(ag) => str_equal(ag.as_str(), g.as_str()),
            None => false,
        },
    }
}

/// The views of the accounts (in sort order) of a group, or of all
/// accounts when no group is asked for (`GET /accounts`).
pub fn accounts_in_group(store: &AccountStore, group: &Option<String>) -> (r: Vec<AccountView>)
    requires
        store.wf(),
    ensures
        exists|l: Seq<Account>|
            #![trigger lists_exactly(l, store@)]
            lists_exactly(l, store@) && sorted_by_order(l) && r@.len() == in_group(l, opt_view(*group)).len()
                && forall|i: int|
                0 <= i < r@.len() ==> (#[trigger] r@[i])@ == in_group(l, opt_view(*group))[i]@,
{
    let accounts = store.list_accounts();
    let ghost l = accounts@;
    let ghost g = opt_view(*group);
    let mut out: Vec<AccountView> = Vec::new();
    let mut i: usize = 0;
    while i < accounts.len()
        invariant
            i <= l.len(),
            l == accounts@,
            g == opt_view(*group),
            out@.len() == in_group(l.take(i as int), g).len(),
            forall|j: int| 0 <= j < out@.len() ==> (#[trigger] out@[j])@ == in_group(l.take(i as int), g)[j]@,
        decreases l.len() - i,
    {
        assert(l.take(i + 1).drop_last() == l.take(i as int));
        assert(l.take(i + 1).last() == l[i as int]);
        let ghost before = out@;
        if group_matches(&accounts[i], group) {
            out.push(accounts[i].to_view());
            proof {
                assert forall|j: int| 0 <= j < out@.len() implies (#[trigger] out@[j])@ == in_group(
                    l.take(i + 1),
                    g,
                )[j]@ by {
                    if j < before.len() {
                        assert(out@[j] == before[j]);
                    }
                }
            }
        }
        i += 1;
    }
    assert(l.take(l.len() as int) == l);
    out
}

/// The view of the account with the given id text (`GET /accounts/{id}`):
/// 400 `Invalid UUID` when the text is not a UUID, 404 `Account not found`
/// when there is no such account.
pub fn account_by_id_text(store: &AccountStore, id: &str) -> (r: Result<AccountView, (u16, ApiError)>)
    ensures
        match uuid_parsed(id@) {
            None => r matches Err(e) && e.0 == 400 && e.1.error@ == "Invalid UUID"@,
            Some(u) => if store@.contains_key(u) {
                r matches Ok(v) && v@ == store@[u]
            } else {
                r matches Err(e) && e.0 == 404 && e.1.error@ == "Account not found"@
            },
        },
{
    let u = match parse_uuid(id) {
        Some(u) => u,
        None => return Err(api_error(400, "Invalid UUID")),
    };
    match store.get_account(&u) {
        Ok(a) => Ok(a.to_view()),
        Err(_) => Err(api_error(404, "Account not found")),
    }
}

/// The cookie of the account with the given id text
/// (`GET /accounts/{id}/cookie`): 400 `Invalid UUID` when the text is not a
/// UUID, 404 `Account not found` when no cookie can be read for it.
pub fn cookie_by_id_text(store: &AccountStore, id: &str) -> (r: Result<String, (u16, ApiError)>)
    requires
        store.wf(),
        uuid_parsed(id@) matches Some(u) ==> store.nonce_ok(u),
    ensures
        match uuid_parsed(id@) {
            None => r matches Err(e) && e.0 == 400 && e.1.error@ == "Invalid UUID"@,
            Some(u) => match store.stored_cookie(u) {
                Some(c) => r matches Ok(v) && v@ == c,
                None => r matches Err(e) && e.0 == 404 && e.1.error@ == "Account not found"@,
            },
        },
{
    let u = match parse_uuid(id) {
        Some(u) => u,
        None => return Err(api_error(400, "Invalid UUID")),
    };
    assert(store.nonce_ok(u));
    match store.get_cookie(&u) {
        Ok(c) => Ok(c),
        Err(_) => Err(api_error(404, "Account not found")),
    }
}

} // verus!
