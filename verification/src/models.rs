use vstd::prelude::*;
use crate::text::{opt_view, copy_opt_string};
use crate::time::{Timestamp, utc_now};

verus! {

/// The text of a list of named fields.
pub open spec fn fields_view(f: Seq<(String, String)>) -> Seq<(Seq<char>, Seq<char>)> {
    f.map_values(|p: (String, String)| (p.0@, p.1@))
}

/// The abstract content of an account record.
pub struct AccountModel {
    pub id: u128,
    pub username: Seq<char>,
    pub user_id: Option<u64>,
    pub display_name: Option<Seq<char>>,
    pub description: Option<Seq<char>>,
    pub robux: Option<i64>,
    pub is_premium: Option<bool>,
    pub avatar_url: Option<Seq<char>>,
    pub group: Option<Seq<char>>,
    pub alias: Option<Seq<char>>,
    pub sort_order: i32,
    pub last_used: Option<Timestamp>,
    pub created_at: Timestamp,
    pub fields: Seq<(Seq<char>, Seq<char>)>,
}

/// A Roblox account managed by the application. The id is the 128-bit value
/// of a UUID; `fields` holds user-defined name/value pairs.
#[derive(Debug)]
pub struct Account {
    pub id: u128,
    pub username: String,
    pub user_id: Option<u64>,
    pub display_name: Option<String>,
    pub description: Option<String>,
    pub robux: Option<i64>,
    pub is_premium: Option<bool>,
    pub avatar_url: Option<String>,
    pub group: Option<String>,
    pub alias: Option<String>,
    pub sort_order: i32,
    pub last_used: Option<Timestamp>,
    pub created_at: Timestamp,
    pub fields: Vec<(String, String)>,
}

/// The encrypted cookie of an account, stored apart from its record.
#[derive(Debug)]
pub struct AccountSecret {
    pub account_id: u128,
    /// AES-GCM encrypted `.ROBLOSECURITY` cookie.
    pub encrypted_cookie: Vec<u8>,
    /// Nonce used for the encryption.
    pub nonce: Vec<u8>,
}

/// What the front end sees of an account (no secrets).
#[derive(Debug)]
pub struct AccountView {
    pub id: u128,
    pub username: String,
    pub user_id: Option<u64>,
    pub display_name: Option<String>,
    pub description: Option<String>,
    pub robux: Option<i64>,
    pub is_premium: Option<bool>,
    pub avatar_url: Option<String>,
    pub group: Option<String>,
    pub alias: Option<String>,
    pub sort_order: i32,
    pub last_used: Option<Timestamp>,
    pub created_at: Timestamp,
    pub fields: Vec<(String, String)>,
}

impl View for Account {
    type V = AccountModel;

    open spec fn view(&self) -> AccountModel {
        AccountModel {
            id: self.id,
            username: self.username@,
            user_id: self.user_id,
            display_name: opt_view(self.display_name),
            description: opt_view(self.description),
            robux: self.robux,
            is_premium: self.is_premium,
            avatar_url: opt_view(self.avatar_url),
            group: opt_view(self.group),
            alias: opt_view(self.alias),
            sort_order: self.sort_order,
            last_used: self.last_used,
            created_at: self.created_at,
            fields: fields_view(self.fields@),
        }
    }
}

impl View for AccountView {
    type V = AccountModel;

    open spec fn view(&self) -> AccountModel {
        AccountModel {
            id: self.id,
            username: self.username@,
            user_id: self.user_id,
            display_name: opt_view(self.display_name),
            description: opt_view(self.description),
            robux: self.robux,
            is_premium: self.is_premium,
            avatar_url: opt_view(self.avatar_url),
            group: opt_view(self.group),
            alias: opt_view(self.alias),
            sort_order: self.sort_order,
            last_used: self.last_used,
            created_at: self.created_at,
            fields: fields_view(self.fields@),
        }
    }
}

/// A UUID of version 4 (random) in the RFC 4122 variant: version nibble 4,
/// variant bits `10`.
pub open spec fn is_v4_id(id: u128) -> bool {
    id & 0x0000_0000_0000_f000_c000_0000_0000_0000u128 == 0x0000_0000_0000_4000_8000_0000_0000_0000u128
}

/// Calls `uuid::Uuid::new_v4`: a random UUID whose version nibble is 4 and
/// whose variant bits are `10`.
#[verifier::external_body]
pub(crate) fn new_uuid_v4() -> (id: u128)
    ensures
        is_v4_id(id),
{
    uuid::Uuid::new_v4().as_u128()
}

/// A copy of a list of named fields.
pub fn copy_fields(f: &Vec<(String, String)>) -> (r: Vec<(String, String)>)
    ensures
        fields_view(r@) == fields_view(f@),
{
    let mut r: Vec<(String, String)> = Vec::new();
    let mut i: usize = 0;
    while i < f.len()
        invariant
            i <= f@.len(),
            r@.len() == i,
            forall|j: int| 0 <= j < i ==> r@[j].0@ == f@[j].0@ && r@[j].1@ == f@[j].1@,
        decreases f@.len() - i,
    {
        let (a, b) = (f[i].0.clone(), f[i].1.clone());
        r.push((a, b));
        i += 1;
    }
    assert(fields_view(r@) =~= fields_view(f@));
    r
}

impl Account {
    /// A fresh account for `username`: a random version-4 id, created now,
    /// sort order 0 and every optional detail absent.
    pub fn new(username: String) -> (a: Account)
        ensures
            a@.username == username@,
            is_v4_id(a@.id),
            a@.user_id is None,
            a@.display_name is None,
            a@.description is None,
            a@.robux is None,
            a@.is_premium is None,
            a@.avatar_url is None,
            a@.group is None,
            a@.alias is None,
            a@.sort_order == 0,
            a@.last_used is None,
            a@.created_at.is_valid(),
            a@.fields.len() == 0,
    {
        Account {
            id: new_uuid_v4(),
            username,
            user_id: None,
            display_name: None,
            description: None,
            robux: None,
            is_premium: None,
            avatar_url: None,
            group: None,
            alias: None,
            sort_order: 0,
            last_used: None,
            created_at: utc_now(),
            fields: Vec::new(),
        }
    }

    /// The front-end view of this account: the same content.
    pub fn to_view(&self) -> (v: AccountView)
        ensures
            v@ == self@,
    {
        AccountView {
            id: self.id,
            username: self.username.clone(),
            user_id: self.user_id,
            display_name: copy_opt_string(&self.display_name),
            description: copy_opt_string(&self.description),
            robux: self.robux,
            is_premium: self.is_premium,
            avatar_url: copy_opt_string(&self.avatar_url),
            group: copy_opt_string(&self.group),
            alias: copy_opt_string(&self.alias),
            sort_order: self.sort_order,
            last_used: self.last_used,
            created_at: self.created_at,
            fields: copy_fields(&self.fields),
        }
    }

    /// A copy of this account.
    pub fn duplicate(&self) -> (a: Account)
        ensures
            a@ == self@,
    {
        Account {
            id: self.id,
            username: self.username.clone(),
            user_id: self.user_id,
            display_name: copy_opt_string(&self.display_name),
            description: copy_opt_string(&self.description),
            robux: self.robux,
            is_premium: self.is_premium,
            avatar_url: copy_opt_string(&self.avatar_url),
            group: copy_opt_string(&self.group),
            alias: copy_opt_string(&self.alias),
            sort_order: self.sort_order,
            last_used: self.last_used,
            created_at: self.created_at,
            fields: copy_fields(&self.fields),
        }
    }
}

impl AccountSecret {
    /// A copy of this secret.
    pub fn duplicate(&self) -> (s: AccountSecret)
        ensures
            s.account_id == self.account_id,
            s.encrypted_cookie@ == self.encrypted_cookie@,
            s.nonce@ == self.nonce@,
    {
        let encrypted_cookie = self.encrypted_cookie.clone();
        let nonce = self.nonce.clone();
        assert(encrypted_cookie@ =~= self.encrypted_cookie@);
        assert(nonce@ =~= self.nonce@);
        AccountSecret { account_id: self.account_id, encrypted_cookie, nonce }
    }
}

} // verus!
