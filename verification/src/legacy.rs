use vstd::prelude::*;
use vstd::string::StringExecFns;
use vstd::string::StrSliceExecFns;
use vstd::utf8::{encode_utf8, is_ascii_chars};
use crate::api::OnlineProfile;
use crate::crypto::AES_GCM_MAX_PLAINTEXT;
use crate::error::AppError;
use crate::format::{decimal, push_decimal};
use crate::import::{warning_prefix, cookie_name_prefix, message_of, stores_chain};
use crate::models::{Account, AccountModel, fields_view, is_v4_id};
use crate::profiles::shows_profile;
use crate::storage::{AccountStore, account_added, unchanged};
use crate::text::{trim, trimmed, strip_repeated_prefix, trim_start_matches, opt_view, copy_opt_string};
use crate::time::{Timestamp, parse_rfc3339, parse_naive_utc, rfc3339_instant, naive_utc_instant};

verus! {

/// An account as the Windows account manager RAM keeps it in its
/// `AccountData.json`.
#[derive(Debug)]
pub struct LegacyAccount {
    pub valid: bool,
    /// The `.ROBLOSECURITY` cookie; unreadable when it was saved encrypted.
    pub security_token: Option<String>,
    pub username: Option<String>,
    pub last_use: Option<String>,
    pub alias: Option<String>,
    pub description: Option<String>,
    /// Never imported.
    pub password: Option<String>,
    pub group: Option<String>,
    pub user_id: Option<u64>,
    pub fields: Option<Vec<(String, String)>>,
}

/// The outcome of importing one legacy account.
#[derive(Debug)]
pub struct LegacyImportResult {
    pub index: usize,
    pub success: bool,
    pub username: Option<String>,
    pub error: Option<String>,
    /// Whether the cookie was checked online.
    pub validated: bool,
}

/// A progress report sent after each legacy account.
#[derive(Debug)]
pub struct LegacyImportProgress {
    pub current: usize,
    pub total: usize,
    pub result: LegacyImportResult,
}

/// The name a legacy account is reported under: its user name, else
/// `Account #` and its position.
pub open spec fn legacy_label_of(index: usize, username: Option<String>) -> Seq<char> {
    match username {
        Some(u) => u@,
        None => "Account #"@ + decimal(index as nat),
    }
}

/// Names a legacy account.
pub fn legacy_label(index: usize, username: &Option<String>) -> (r: String)
    ensures
        r@ == legacy_label_of(index, *username),
{
    match username {
        Some(u) => u.clone(),
        None => {
            let mut s = String::from_str("Account #");
            push_decimal(&mut s, index as u64);
            s
        },
    }
}

/// Why a legacy cookie is refused when the token is missing or empty.
pub open spec fn no_token_text() -> Seq<char> {
    "No security token found"@
}

/// Why a legacy cookie is refused when it is shorter than 50 bytes.
pub open spec fn too_short_text() -> Seq<char> {
    "Cookie too short - may be DPAPI encrypted. Export from original RAM with 'No Encryption' first."@
}

/// Why a legacy cookie is refused when it is not ASCII.
pub open spec fn encrypted_text() -> Seq<char> {
    "Cookie appears to be DPAPI encrypted. Export from original RAM with 'No Encryption' first."@
}

/// The cookie of a legacy account, or why it cannot be imported: the token
/// is trimmed and loses every leading copy of the warning and then of the
/// cookie name; what is left must be at least 50 bytes long and ASCII
/// (an encrypted token is neither).
pub open spec fn legacy_cookie_of(token: Option<String>) -> Result<Seq<char>, Seq<char>> {
    match token {
        Some(t) => if t@.len() == 0 {
            Err(no_token_text())
        } else {
            let clean = strip_repeated_prefix(
                strip_repeated_prefix(trimmed(t@), warning_prefix()),
                cookie_name_prefix(),
            );
            if encode_utf8(clean).len() < 50 {
                Err(too_short_text())
            } else if !is_ascii_chars(clean) {
                Err(encrypted_text())
            } else {
                Ok(clean)
            }
        },
        None => Err(no_token_text()),
    }
}

/// The cookie or refusal as characters.
pub open spec fn checked_view(r: Result<String, String>) -> Result<Seq<char>, Seq<char>> {
    match r {
        Ok(c) => Ok(c@),
        Err(m) => Err(m@),
    }
}

/// Takes the cookie out of a legacy security token.
pub fn check_legacy_cookie(token: &Option<String>) -> (r: Result<String, String>)
    ensures
        checked_view(r) == legacy_cookie_of(*token),
{
    match token {
        Some(t) => {
            if t.as_str().unicode_len() == 0 {
                return Err(String::from_str("No security token found"));
            }
            let trimmed_token = trim(t.as_str());
            let no_warning = trim_start_matches(
                trimmed_token.as_str(),
                "_|WARNING:-DO-NOT-SHARE-THIS.--Sharing-this-will-allow-someone-to-log-in-as-you.--",
            );
            let clean = trim_start_matches(no_warning.as_str(), ".ROBLOSECURITY=");
            if clean.as_str().as_bytes().len() < 50 {
                return Err(String::from_str(
                    "Cookie too short - may be DPAPI encrypted. Export from original RAM with 'No Encryption' first.",
                ));
            }
            if !clean.as_str().is_ascii() {
                return Err(String::from_str(
                    "Cookie appears to be DPAPI encrypted. Export from original RAM with 'No Encryption' first.",
                ));
            }
            Ok(clean)
        },
        None => Err(String::from_str("No security token found")),
    }
}

/// An instant from its parts.
pub open spec fn instant_of(p: Option<(i64, u32)>) -> Option<Timestamp> {
    match p {
        Some(q) => Some(Timestamp { secs: q.0, nanos: q.1 }),
        None => None,
    }
}

/// When a legacy account was last used: its text read as RFC 3339, else as
/// `%Y-%m-%dT%H:%M:%S`, else as `%m/%d/%Y %I:%M:%S %p` (both taken as UTC);
/// nothing when none reads.
pub open spec fn last_use_of(text: Seq<char>) -> Option<Timestamp> {
    if rfc3339_instant(text) is Some {
        instant_of(rfc3339_instant(text))
    } else if naive_utc_instant(text, "%Y-%m-%dT%H:%M:%S"@) is Some {
        instant_of(naive_utc_instant(text, "%Y-%m-%dT%H:%M:%S"@))
    } else {
        instant_of(naive_utc_instant(text, "%m/%d/%Y %I:%M:%S %p"@))
    }
}

/// Reads when a legacy account was last used.
pub fn parse_last_use(text: &str) -> (r: Option<Timestamp>)
    ensures
        r == last_use_of(text@),
        r matches Some(t) ==> t.is_valid(),
{
    match parse_rfc3339(text) {
        Some(t) => return Some(t),
        None => {},
    }
    match parse_naive_utc(text, "%Y-%m-%dT%H:%M:%S") {
        Some(t) => return Some(t),
        None => {},
    }
    parse_naive_utc(text, "%m/%d/%Y %I:%M:%S %p")
}

/// The optional last-use text of a legacy account, read.
pub open spec fn legacy_last_used(last_use: Option<String>) -> Option<Timestamp> {
    match last_use {
        Some(t) => last_use_of(t@),
        None => None,
    }
}

/// The account carries what a legacy record says of group, alias,
/// description, custom fields and last use.
pub open spec fn keeps_legacy_details(a: AccountModel, l: LegacyAccount) -> bool {
    &&& a.group == opt_view(l.group)
    &&& a.alias == opt_view(l.alias)
    &&& a.description == opt_view(l.description)
    &&& a.fields == match l.fields {
        Some(f) => fields_view(f@),
        None => Seq::empty(),
    }
    &&& a.last_used == legacy_last_used(l.last_use)
}

/// A new account record: a version-4 id, created at a valid instant, sort
/// order 0.
pub open spec fn is_new_record(a: AccountModel) -> bool {
    &&& is_v4_id(a.id)
    &&& a.created_at.is_valid()
    &&& a.sort_order == 0
}

/// Copies the details of a legacy record into an account.
fn copy_legacy_details(account: &mut Account, legacy: &LegacyAccount)
    requires
        old(account)@.fields.len() == 0,
        old(account)@.last_used is None,
    ensures
        keeps_legacy_details(final(account)@, *legacy),
        final(account)@.id == old(account)@.id,
        final(account)@.username == old(account)@.username,
        final(account)@.user_id == old(account)@.user_id,
        final(account)@.display_name == old(account)@.display_name,
        final(account)@.robux == old(account)@.robux,
        final(account)@.is_premium == old(account)@.is_premium,
        final(account)@.avatar_url == old(account)@.avatar_url,
        final(account)@.sort_order == old(account)@.sort_order,
        final(account)@.created_at == old(account)@.created_at,
{
    account.group = copy_opt_string(&legacy.group);
    account.alias = copy_opt_string(&legacy.alias);
    account.description = copy_opt_string(&legacy.description);
    match &legacy.fields {
        Some(f) => {
            account.fields = crate::models::copy_fields(f);
        },
        None => {
            assert(account@.fields =~= Seq::<(Seq<char>, Seq<char>)>::empty());
        },
    }
    match &legacy.last_use {
        Some(t) => {
            account.last_used = parse_last_use(t.as_str());
        },
        None => {},
    }
}

/// What importing one legacy account reports: refused cookies and failed
/// checks are failures under the account's label; an unchecked import is
/// reported under the label, a checked one under the user's name, and both
/// succeed exactly when the cookie can be stored. A success carries no
/// error; a cookie that cannot be stored carries the encryption error's
/// message.
pub open spec fn legacy_reported(
    r: LegacyImportResult,
    index: usize,
    l: LegacyAccount,
    validation: Option<Result<OnlineProfile, AppError>>,
) -> bool {
    &&& r.index == index
    &&& r.success ==> r.error is None
    &&& match legacy_cookie_of(l.security_token) {
        Err(m) => !r.success && !r.validated && opt_view(r.username) == Some(
            legacy_label_of(index, l.username),
        ) && opt_view(r.error) == Some(m),
        Ok(c) => match validation {
            None => !r.validated && opt_view(r.username) == Some(legacy_label_of(index, l.username))
                && (r.success <==> encode_utf8(c).len() <= AES_GCM_MAX_PLAINTEXT)
                && store_failure_reported(r),
            Some(Err(e)) => !r.success && !r.validated && opt_view(r.username) == Some(
                legacy_label_of(index, l.username),
            ) && opt_view(r.error) == Some("Cookie validation failed: "@ + message_of(e)),
            Some(Ok(p)) => r.validated && opt_view(r.username) == Some(p.user.name@) && (r.success
                <==> encode_utf8(c).len() <= AES_GCM_MAX_PLAINTEXT) && store_failure_reported(r),
        },
    }
}

/// A record whose cookie could not be stored carries the message of the
/// encryption error.
pub open spec fn store_failure_reported(r: LegacyImportResult) -> bool {
    !r.success ==> r.error is Some && exists|e: AppError|
        e is Encryption && #[trigger] message_of(e) == r.error->0@
}

/// What importing one legacy account does to the store: a successful
/// import adds an account with the legacy details and the cookie (named by
/// the label and carrying the legacy user id when unchecked, carrying the
/// profile when checked); anything else leaves the store as it was.
pub open spec fn legacy_stored(
    old: AccountStore,
    new: AccountStore,
    r: LegacyImportResult,
    index: usize,
    l: LegacyAccount,
    validation: Option<Result<OnlineProfile, AppError>>,
) -> bool {
    &&& new.wf()
    &&& !r.success ==> unchanged(old, new)
    &&& r.success ==> exists|a: AccountModel|
        #[trigger] account_added(old, new, a, legacy_cookie_of(l.security_token)->Ok_0)
            && is_new_record(a) && keeps_legacy_details(a, l) && match validation {
            Some(Ok(p)) => shows_profile(a, p),
            _ => a.username == legacy_label_of(index, l.username) && a.user_id == l.user_id
                && a.display_name is None && a.robux is None && a.is_premium is None
                && a.avatar_url is None,
        }
}

/// Imports one legacy account, given what the API said of its cookie
/// (`None` when it was not checked).
pub fn import_legacy_account(
    store: &mut AccountStore,
    index: usize,
    legacy: &LegacyAccount,
    validation: Option<Result<OnlineProfile, AppError>>,
) -> (r: LegacyImportResult)
    requires
        old(store).wf(),
    ensures
        legacy_reported(r, index, *legacy, validation),
        legacy_stored(*old(store), *final(store), r, index, *legacy, validation),
{
    let label = legacy_label(index, &legacy.username);
    let cookie = match check_legacy_cookie(&legacy.security_token) {
        Ok(c) => {
            assert(legacy_cookie_of(legacy.security_token)->Ok_0 == c@);
            c
        },
        Err(m) => {
            return LegacyImportResult {
                index,
                success: false,
                username: Some(label),
                error: Some(m),
                validated: false,
            };
        },
    };
    match validation {
        None => {
            let mut account = Account::new(label.clone());
            account.user_id = legacy.user_id;
            copy_legacy_details(&mut account, legacy);
            let ghost a = account@;
            match store.add_account(account, cookie.as_str()) {
                Ok(()) => {
                    assert(account_added(*old(store), *store, a, cookie@));
                    assert(a.username == legacy_label_of(index, legacy.username));
                    assert(is_new_record(a));
                    assert(keeps_legacy_details(a, *legacy));
                    LegacyImportResult {
                        index,
                        success: true,
                        username: Some(label),
                        error: None,
                        validated: false,
                    }
                },
                Err(e) => {
                    let m = e.message();
                    assert(message_of(e) == m@);
                    LegacyImportResult {
                        index,
                        success: false,
                        username: Some(label),
                        error: Some(m),
                        validated: false,
                    }
                },
            }
        },
        Some(Err(e)) => {
            let mut m = String::from_str("Cookie validation failed: ");
            let t = e.message();
            m.append(t.as_str());
            LegacyImportResult {
                index,
                success: false,
                username: Some(label),
                error: Some(m),
                validated: false,
            }
        },
        Some(Ok(profile)) => {
            let OnlineProfile { user, robux, is_premium, avatar_url } = profile;
            let mut account = Account::new(user.name);
            account.user_id = Some(user.id);
            account.display_name = Some(user.display_name);
            copy_legacy_details(&mut account, legacy);
            account.robux = robux;
            account.is_premium = is_premium;
            account.avatar_url = avatar_url;
            let ghost a = account@;
            let name = account.username.clone();
            match store.add_account(account, cookie.as_str()) {
                Ok(()) => {
                    assert(account_added(*old(store), *store, a, cookie@));
                    LegacyImportResult {
                        index,
                        success: true,
                        username: Some(name),
                        error: None,
                        validated: true,
                    }
                },
                Err(e) => {
                    let m = e.message();
                    assert(message_of(e) == m@);
                    LegacyImportResult {
                        index,
                        success: false,
                        username: Some(name),
                        error: Some(m),
                        validated: true,
                    }
                },
            }
        },
    }
}

/// Imports legacy accounts in order; `validations` holds, for each, what
/// the API said of its cookie (`None` when it was not checked). Each record
/// goes through `import_legacy_account` with its position, one after the
/// other: a refused token or a failed check leaves the store as it was, a
/// successful record adds one account with its cleaned cookie and details.
pub fn import_legacy_accounts(
    store: &mut AccountStore,
    accounts: &Vec<LegacyAccount>,
    validations: Vec<Option<Result<OnlineProfile, AppError>>>,
) -> (r: Vec<LegacyImportResult>)
    requires
        old(store).wf(),
        accounts@.len() == validations@.len(),
    ensures
        final(store).wf(),
        final(store).key() == old(store).key(),
        r@.len() == accounts@.len(),
        forall|i: int|
            0 <= i < r@.len() ==> legacy_reported(#[trigger] r@[i], i as usize, accounts@[i], validations@[i]),
        exists|stores: Seq<AccountStore>|
            #![trigger stores_chain(stores, *old(store), *final(store), r@.len() as int)]
            stores_chain(stores, *old(store), *final(store), r@.len() as int) && forall|i: int|
                0 <= i < r@.len() ==> legacy_stored(
                    stores[i],
                    #[trigger] stores[i + 1],
                    r@[i],
                    i as usize,
                    accounts@[i],
                    validations@[i],
                ),
{
    let ghost vals = validations@;
    let ghost mut stores: Seq<AccountStore> = seq![*store];
    let mut results: Vec<LegacyImportResult> = Vec::new();
    let mut i: usize = 0;
    let n = accounts.len();
    for validation in it: validations
        invariant
            n == accounts@.len(),
            vals == it.seq(),
            i == it.index(),
            vals.len() == accounts@.len(),
            store.wf(),
            store.key() == old(store).key(),
            results@.len() == i,
            forall|k: int|
                0 <= k < i ==> legacy_reported(#[trigger] results@[k], k as usize, accounts@[k], vals[k]),
            stores_chain(stores, *old(store), *store, i as int),
            forall|k: int|
                0 <= k < i ==> legacy_stored(
                    stores[k],
                    #[trigger] stores[k + 1],
                    results@[k],
                    k as usize,
                    accounts@[k],
                    vals[k],
                ),
    {
        let ghost before = results@;
        let ghost pre = stores;
        let r = import_legacy_account(store, i, &accounts[i], validation);
        proof {
            stores = pre.push(*store);
            assert forall|k: int| 0 <= k < i + 1 implies legacy_stored(
                stores[k],
                #[trigger] stores[k + 1],
                before.push(r)[k],
                k as usize,
                accounts@[k],
                vals[k],
            ) by {
                if k < i {
                    assert(stores[k] == pre[k] && stores[k + 1] == pre[k + 1]);
                    assert(before.push(r)[k] == before[k]);
                } else {
                    assert(stores[k] == pre[i as int]);
                }
            }
        }
        results.push(r);
        assert(results@ == before.push(r));
        i += 1;
    }
    results
}

} // verus!
