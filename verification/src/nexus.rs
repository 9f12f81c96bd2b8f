use vstd::prelude::*;
use vstd::string::StringExecFns;
use crate::error::error_detail;
use crate::format::{uuid_to_text, uuid_text_of, parse_uuid, uuid_parsed};
use crate::models::{Account, AccountModel};
use crate::storage::{AccountStore, lists_exactly, sorted_by_order, not_found, cookie_read, read_text};
use crate::text::{opt_view, copy_opt_string};
use crate::crypto::decryption_failure;

verus! {

/// Simplified account information sent to automation clients.
#[derive(Debug)]
pub struct NexusAccount {
    pub id: String,
    pub username: String,
    pub user_id: Option<u64>,
    pub display_name: Option<String>,
    pub group: Option<String>,
    pub alias: Option<String>,
}

/// Messages exchanged with automation clients.
#[derive(Debug)]
pub enum NexusMessage {
    /// Request for the account list.
    GetAccounts,
    /// Response with the account list.
    AccountList { accounts: Vec<NexusAccount> },
    /// Request for the cookie of an account.
    GetCookie { account_id: String },
    /// Response with a cookie.
    Cookie { account_id: String, cookie: String },
    /// Request to launch a game for an account.
    LaunchAccount { account_id: String, place_id: u64, job_id: Option<String> },
    /// Notification that an account was added, removed or updated.
    AccountUpdated { action: String, account_id: String },
    /// Error response.
    Error { message: String },
    /// Keep-alive request.
    Ping,
    /// Keep-alive response.
    Pong,
}

/// `n` carries the client-visible details of account `a`.
pub open spec fn describes(n: NexusAccount, a: AccountModel) -> bool {
    &&& n.id@ == uuid_text_of(a.id)
    &&& n.username@ == a.username
    &&& n.user_id == a.user_id
    &&& opt_view(n.display_name) == a.display_name
    &&& opt_view(n.group) == a.group
    &&& opt_view(n.alias) == a.alias
}

/// `msg` is an error response with the given text.
pub open spec fn is_error_text(msg: NexusMessage, text: Seq<char>) -> bool {
    msg matches NexusMessage::Error { message } && message@ == text
}

/// The client-visible details of an account.
pub fn nexus_account(a: &Account) -> (n: NexusAccount)
    ensures
        describes(n, a@),
{
    NexusAccount {
        id: uuid_to_text(a.id),
        username: a.username.clone(),
        user_id: a.user_id,
        display_name: copy_opt_string(&a.display_name),
        group: copy_opt_string(&a.group),
        alias: copy_opt_string(&a.alias),
    }
}

/// The account list response: every account once, in sort order.
pub fn account_list(store: &AccountStore) -> (r: Vec<NexusAccount>)
    requires
        store.wf(),
    ensures
        exists|l: Seq<Account>|
            lists_exactly(l, store@) && sorted_by_order(l) && r@.len() == l.len() && forall|i: int|
                0 <= i < l.len() ==> describes(#[trigger] r@[i], l[i]@),
{
    let accounts = store.list_accounts();
    let mut out: Vec<NexusAccount> = Vec::new();
    let mut i: usize = 0;
    while i < accounts.len()
        invariant
            i <= accounts@.len(),
            out@.len() == i,
            forall|j: int| 0 <= j < i ==> describes(#[trigger] out@[j], accounts@[j]@),
        decreases accounts@.len() - i,
    {
        out.push(nexus_account(&accounts[i]));
        i += 1;
    }
    out
}

/// Answers a request from an automation client: the account list, the
/// cookie of an account, or `Pong` to `Ping`; any other message is answered
/// with an error.
pub fn handle_request(msg: NexusMessage, store: &AccountStore) -> (r: NexusMessage)
    requires
        store.wf(),
        msg matches NexusMessage::GetCookie { account_id } ==> (uuid_parsed(account_id@) matches Some(u)
            ==> store.nonce_ok(u)),
    ensures
        match msg {
            NexusMessage::GetAccounts => r matches NexusMessage::AccountList { accounts } && exists|
                l: Seq<Account>,
            |
                lists_exactly(l, store@) && sorted_by_order(l) && accounts@.len() == l.len()
                    && forall|i: int| 0 <= i < l.len() ==> describes(#[trigger] accounts@[i], l[i]@),
            NexusMessage::GetCookie { account_id } => match uuid_parsed(account_id@) {
                None => is_error_text(r, "Invalid UUID"@),
                Some(id) => match store.stored_cookie(id) {
                    Some(c) => r matches NexusMessage::Cookie { account_id: rid, cookie } && rid@
                        == account_id@ && cookie@ == c,
                    None => if store.secret_map().contains_key(id) {
                        is_error_text(
                            r,
                            "Decryption error: "@ + decryption_failure(
                                store.key(),
                                store.secret_map()[id].0,
                                store.secret_map()[id].1,
                            ),
                        )
                    } else {
                        is_error_text(r, "Account not found: "@ + uuid_text_of(id))
                    },
                },
            },
            NexusMessage::Ping => r is Pong,
            _ => is_error_text(r, "Unsupported message type"@),
        },
{
    match msg {
        NexusMessage::GetAccounts => NexusMessage::AccountList { accounts: account_list(store) },
        NexusMessage::GetCookie { account_id } => {
            let id = match parse_uuid(account_id.as_str()) {
                Some(u) => u,
                None => {
                    return NexusMessage::Error { message: String::from_str("Invalid UUID") };
                },
            };
            assert(store.nonce_ok(id));
            let read = store.get_cookie(&id);
            match read {
                Ok(cookie) => NexusMessage::Cookie { account_id, cookie },
                Err(e) => {
                    let message = e.message();
                    proof {
                        assert(cookie_read(*store, id, read_text(read)));
                        reveal_strlit("Decryption error: ");
                        reveal_strlit("Account not found: ");
                        if store.secret_map().contains_key(id) {
                            assert(e is Decryption);
                            assert(message@ == "Decryption error: "@ + error_detail(e));
                        } else {
                            assert(not_found(e, id));
                        }
                    }
                    NexusMessage::Error { message }
                },
            }
        },
        NexusMessage::Ping => NexusMessage::Pong,
        _ => NexusMessage::Error { message: String::from_str("Unsupported message type") },
    }
}

} // verus!
