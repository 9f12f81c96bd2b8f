use std::collections::HashMap;
use vstd::prelude::*;
use vstd::utf8::encode_utf8;
use vstd::std_specs::iter::IteratorSpec;
use crate::crypto::{self, KEY_LEN, NONCE_LEN, AES_GCM_MAX_PLAINTEXT, cookie_plaintext, decryption_failure};
use crate::error::{AppError, AppResult};
use crate::format::{uuid_to_text, uuid_text_of};
use crate::models::{Account, AccountModel, AccountSecret};
use crate::text::{has_text, strictly_sorted, insert_sorted_unique};

verus! {

broadcast use vstd::std_specs::hash::group_hash_axioms;

/// The record of each id, where a later record with the same id replaces an
/// earlier one.
pub open spec fn records_by_id(s: Seq<Account>) -> Map<u128, Account>
    decreases s.len(),
{
    if s.len() == 0 {
        Map::empty()
    } else {
        records_by_id(s.drop_last()).insert(s.last().id, s.last())
    }
}

/// The secret of each id, where a later secret with the same id replaces an
/// earlier one.
pub open spec fn secrets_by_id(s: Seq<AccountSecret>) -> Map<u128, AccountSecret>
    decreases s.len(),
{
    if s.len() == 0 {
        Map::empty()
    } else {
        secrets_by_id(s.drop_last()).insert(s.last().account_id, s.last())
    }
}

/// The content of each account record.
pub open spec fn account_models(m: Map<u128, Account>) -> Map<u128, AccountModel> {
    m.map_values(|a: Account| a@)
}

/// The ciphertext and nonce of each secret.
pub open spec fn secret_models(m: Map<u128, AccountSecret>) -> Map<u128, (Seq<u8>, Seq<u8>)> {
    m.map_values(|s: AccountSecret| (s.encrypted_cookie@, s.nonce@))
}

/// An account record with another sort order.
pub open spec fn with_sort_order(a: AccountModel, n: i32) -> AccountModel {
    AccountModel { sort_order: n, ..a }
}

/// The error reported for an id with no account.
pub open spec fn not_found(e: AppError, id: u128) -> bool {
    e matches AppError::AccountNotFound(s) && s@ == uuid_text_of(id)
}

/// What adding `account` with `cookie` leaves: the record filed under its
/// id with the old number of accounts as its sort order, and a secret for it
/// (with a nonce of the right length) that decrypts to the cookie; every
/// other record and secret stays.
pub open spec fn account_added(
    old: AccountStore,
    new: AccountStore,
    account: AccountModel,
    cookie: Seq<char>,
) -> bool {
    &&& new@ == old@.insert(
        account.id,
        with_sort_order(account, #[verifier::truncate] (old@.dom().len() as i32)),
    )
    &&& new.key() == old.key()
    &&& new.secret_map().dom() == old.secret_map().dom().insert(account.id)
    &&& forall|k: u128|
        k != account.id && #[trigger] old.secret_map().contains_key(k) ==> new.secret_map()[k]
            == old.secret_map()[k]
    &&& new.secret_map()[account.id].1.len() == NONCE_LEN
    &&& new.stored_cookie(account.id) == Some(cookie)
}

/// What replacing the cookie of `id` with `cookie` leaves: the records stay,
/// and the secret of `id` (with a nonce of the right length) decrypts to the
/// new cookie; every other secret stays.
pub open spec fn cookie_replaced(old: AccountStore, new: AccountStore, id: u128, cookie: Seq<char>) -> bool {
    &&& new@ == old@
    &&& new.key() == old.key()
    &&& new.secret_map().dom() == old.secret_map().dom().insert(id)
    &&& forall|k: u128|
        k != id && #[trigger] old.secret_map().contains_key(k) ==> new.secret_map()[k]
            == old.secret_map()[k]
    &&& new.secret_map()[id].1.len() == NONCE_LEN
    &&& new.stored_cookie(id) == Some(cookie)
}

/// The store is left as it was.
pub open spec fn unchanged(old: AccountStore, new: AccountStore) -> bool {
    &&& new@ == old@
    &&& new.secret_map() == old.secret_map()
    &&& new.key() == old.key()
}

/// What reading the cookie of `id` gives: the stored cookie, or which error.
pub open spec fn cookie_read(s: AccountStore, id: u128, r: AppResult<Seq<char>>) -> bool {
    match r {
        Ok(c) => s.stored_cookie(id) == Some(c),
        Err(e) => s.stored_cookie(id) is None && if s.secret_map().contains_key(id) {
            e matches AppError::Decryption(t) && t@ == decryption_failure(
                s.key(),
                s.secret_map()[id].0,
                s.secret_map()[id].1,
            )
        } else {
            not_found(e, id)
        },
    }
}

/// The text of a cookie read, if it was read.
pub open spec fn read_text(r: AppResult<String>) -> AppResult<Seq<char>> {
    match r {
        Ok(s) => Ok(s@),
        Err(e) => Err(e),
    }
}

/// The id, ciphertext and nonce of a secret.
pub open spec fn secret_content(s: AccountSecret) -> (u128, Seq<u8>, Seq<u8>) {
    (s.account_id, s.encrypted_cookie@, s.nonce@)
}

/// `s` lists the secrets of `m`, each exactly once.
pub open spec fn secrets_listed(s: Seq<AccountSecret>, m: Map<u128, (Seq<u8>, Seq<u8>)>) -> bool {
    &&& s.len() == m.dom().len()
    &&& forall|i: int|
        0 <= i < s.len() ==> m.contains_key(#[trigger] s[i].account_id) && m[s[i].account_id] == (
            s[i].encrypted_cookie@,
            s[i].nonce@,
        )
    &&& forall|i: int, j: int| 0 <= i < j < s.len() ==> s[i].account_id != s[j].account_id
    &&& forall|k: u128|
        m.contains_key(k) ==> exists|i: int| 0 <= i < s.len() && #[trigger] s[i].account_id == k
}

/// Some record in `s` has id `k`.
pub open spec fn has_id(s: Seq<Account>, k: u128) -> bool {
    exists|i: int| 0 <= i < s.len() && #[trigger] s[i].id == k
}

/// No two records of `s` share an id.
pub open spec fn ids_distinct(s: Seq<Account>) -> bool {
    forall|i: int, j: int| 0 <= i < j < s.len() ==> s[i].id != s[j].id
}

/// Every record of `s` is the record `m` files under its id.
pub open spec fn all_filed(s: Seq<Account>, m: Map<u128, AccountModel>) -> bool {
    forall|i: int| 0 <= i < s.len() ==> m.contains_key(#[trigger] s[i].id) && m[s[i].id] == s[i]@
}

/// The records of `s` are in non-decreasing sort order.
pub open spec fn sorted_by_order(s: Seq<Account>) -> bool {
    forall|i: int, j: int| 0 <= i <= j < s.len() ==> s[i].sort_order <= s[j].sort_order
}

/// `s` lists the records of `m`, each exactly once.
pub open spec fn lists_exactly(s: Seq<Account>, m: Map<u128, AccountModel>) -> bool {
    &&& s.len() == m.dom().len()
    &&& all_filed(s, m)
    &&& ids_distinct(s)
    &&& forall|k: u128| m.contains_key(k) ==> has_id(s, k)
}

proof fn lemma_has_id_remove(s: Seq<Account>, idx: int, k: u128)
    requires
        0 <= idx < s.len(),
    ensures
        has_id(s, k) <==> (has_id(s.remove(idx), k) || s[idx].id == k),
{
    let t = s.remove(idx);
    if has_id(s, k) {
        let i = choose|i: int| 0 <= i < s.len() && #[trigger] s[i].id == k;
        if i < idx {
            assert(t[i] == s[i]);
        } else if i > idx {
            assert(t[i - 1] == s[i]);
        }
    }
    if has_id(t, k) {
        let i = choose|i: int| 0 <= i < t.len() && #[trigger] t[i].id == k;
        if i < idx {
            assert(t[i] == s[i]);
        } else {
            assert(t[i] == s[i + 1]);
        }
    }
    if s[idx].id == k {
        assert(s[idx].id == k);
    }
}

proof fn lemma_has_id_push(s: Seq<Account>, x: Account, k: u128)
    ensures
        has_id(s.push(x), k) <==> (has_id(s, k) || x.id == k),
{
    let t = s.push(x);
    if has_id(s, k) {
        let i = choose|i: int| 0 <= i < s.len() && #[trigger] s[i].id == k;
        assert(t[i] == s[i]);
    }
    if has_id(t, k) {
        let i = choose|i: int| 0 <= i < t.len() && #[trigger] t[i].id == k;
        if i < s.len() {
            assert(t[i] == s[i]);
        }
    }
    if x.id == k {
        assert(t[s.len() as int] == x);
    }
}

/// The records of `s` filed by id hold exactly its ids, and, where no two
/// records share an id, each record under its own id.
pub proof fn lemma_records_by_id(s: Seq<Account>)
    ensures
        forall|k: u128| #[trigger] records_by_id(s).contains_key(k) <==> has_id(s, k),
        ids_distinct(s) ==> forall|i: int| 0 <= i < s.len() ==> #[trigger] records_by_id(s)[s[i].id] == s[i],
    decreases s.len(),
{
    if s.len() > 0 {
        let p = s.drop_last();
        lemma_records_by_id(p);
        assert(s == p.push(s.last()));
        assert(records_by_id(s) == records_by_id(p).insert(s.last().id, s.last()));
        assert forall|k: u128| #[trigger] records_by_id(s).contains_key(k) <==> has_id(s, k) by {
            lemma_has_id_push(p, s.last(), k);
        }
        if ids_distinct(s) {
            assert(ids_distinct(p)) by {
                assert forall|i: int, j: int| 0 <= i < j < p.len() implies p[i].id != p[j].id by {
                    assert(p[i] == s[i] && p[j] == s[j]);
                }
            }
            assert forall|i: int| 0 <= i < s.len() implies #[trigger] records_by_id(s)[s[i].id] == s[i] by {
                if i < p.len() {
                    assert(p[i] == s[i]);
                    assert(s[i].id != s[s.len() - 1].id);
                }
            }
        }
    }
}

/// Some secret in `s` belongs to `k`.
pub open spec fn has_secret(s: Seq<AccountSecret>, k: u128) -> bool {
    exists|i: int| 0 <= i < s.len() && #[trigger] s[i].account_id == k
}

/// The secrets of `s` filed by id hold exactly its ids, and, where no two
/// secrets share an id, each secret under its own id.
pub proof fn lemma_secrets_by_id(s: Seq<AccountSecret>)
    ensures
        forall|k: u128| #[trigger] secrets_by_id(s).contains_key(k) <==> has_secret(s, k),
        (forall|i: int, j: int| 0 <= i < j < s.len() ==> s[i].account_id != s[j].account_id)
            ==> forall|i: int| 0 <= i < s.len() ==> #[trigger] secrets_by_id(s)[s[i].account_id] == s[i],
    decreases s.len(),
{
    if s.len() > 0 {
        let p = s.drop_last();
        let x = s.last();
        lemma_secrets_by_id(p);
        assert(secrets_by_id(s) == secrets_by_id(p).insert(x.account_id, x));
        assert forall|k: u128| #[trigger] secrets_by_id(s).contains_key(k) <==> has_secret(s, k) by {
            if has_secret(s, k) {
                let i = choose|i: int| 0 <= i < s.len() && #[trigger] s[i].account_id == k;
                if i < p.len() {
                    assert(p[i] == s[i]);
                }
            }
            if has_secret(p, k) {
                let i = choose|i: int| 0 <= i < p.len() && #[trigger] p[i].account_id == k;
                assert(p[i] == s[i]);
            }
            if x.account_id == k {
                assert(s[s.len() - 1].account_id == k);
            }
        }
        if forall|i: int, j: int| 0 <= i < j < s.len() ==> s[i].account_id != s[j].account_id {
            assert forall|i: int, j: int| 0 <= i < j < p.len() implies p[i].account_id != p[j].account_id by {
                assert(p[i] == s[i] && p[j] == s[j]);
            }
            assert forall|i: int| 0 <= i < s.len() implies #[trigger] secrets_by_id(s)[s[i].account_id] == s[i] by {
                if i < p.len() {
                    assert(p[i] == s[i]);
                    assert(s[i].account_id != s[s.len() - 1].account_id);
                }
            }
        }
    }
}

/// The last position of `k` in `order`, or -1.
pub open spec fn last_index(order: Seq<u128>, k: u128) -> int
    decreases order.len(),
{
    if order.len() == 0 {
        -1
    } else if order.last() == k {
        order.len() - 1
    } else {
        last_index(order.drop_last(), k)
    }
}

/// The records after reordering: each record whose id is listed gets the
/// (last) position of its id in `order` as its sort order.
pub open spec fn reordered(m: Map<u128, AccountModel>, order: Seq<u128>) -> Map<u128, AccountModel> {
    Map::new(
        |k: u128| m.contains_key(k),
        |k: u128|
            if last_index(order, k) >= 0 {
                with_sort_order(m[k], #[verifier::truncate] (last_index(order, k) as i32))
            } else {
                m[k]
            },
    )
}

/// Some account of `m` is in group `g`.
pub open spec fn is_group(m: Map<u128, AccountModel>, g: Seq<char>) -> bool {
    exists|k: u128| m.contains_key(k) && #[trigger] m[k].group == Some(g)
}

/// In-memory encrypted store of accounts: the records by id and, apart from
/// them, the encrypted cookie of each account.
pub struct AccountStore {
    encryption_key: [u8; KEY_LEN],
    accounts: HashMap<u128, Account>,
    secrets: HashMap<u128, AccountSecret>,
}

impl AccountStore {
    /// Each record and each secret is filed under its own id.
    pub closed spec fn wf(&self) -> bool {
        &&& forall|k: u128| #[trigger] self.accounts@.contains_key(k) ==> self.accounts@[k].id == k
        &&& forall|k: u128|
            #[trigger] self.secrets@.contains_key(k) ==> self.secrets@[k].account_id == k
    }

    /// The account records by id.
    pub closed spec fn view(&self) -> Map<u128, AccountModel> {
        account_models(self.accounts@)
    }

    /// The encrypted cookies (ciphertext and nonce) by account id.
    pub closed spec fn secret_map(&self) -> Map<u128, (Seq<u8>, Seq<u8>)> {
        secret_models(self.secrets@)
    }

    /// The key the cookies are encrypted with.
    pub closed spec fn key(&self) -> Seq<u8> {
        self.encryption_key@
    }

    /// The cookie stored for an account, when there is one that decrypts.
    pub open spec fn stored_cookie(&self, id: u128) -> Option<Seq<char>> {
        if self.secret_map().contains_key(id) {
            cookie_plaintext(self.key(), self.secret_map()[id].0, self.secret_map()[id].1)
        } else {
            None
        }
    }

    /// The stored nonce for `id`, if any, has the length AES-GCM takes.
    pub open spec fn nonce_ok(&self, id: u128) -> bool {
        self.secret_map().contains_key(id) ==> self.secret_map()[id].1.len() == NONCE_LEN
    }

    /// Every account's stored nonce, if any, has the length AES-GCM takes.
    pub open spec fn record_nonces_ok(&self) -> bool {
        forall|id: u128| #[trigger] self@.contains_key(id) ==> self.nonce_ok(id)
    }

    /// Every record of a well-formed store carries the id it is filed under.
    pub proof fn lemma_filed_by_id(&self)
        requires
            self.wf(),
        ensures
            forall|k: u128| #[trigger] self@.contains_key(k) ==> self@[k].id == k,
    {
    }

    /// A store holds finitely many accounts.
    pub proof fn lemma_finite(&self)
        ensures
            self@.dom().finite(),
    {
        assert(self@.dom() =~= self.accounts@.dom());
    }

    /// A store holding the loaded records and secrets under `encryption_key`;
    /// of records (or secrets) with the same id the later one is kept.
    pub fn from_loaded(
        encryption_key: [u8; KEY_LEN],
        accounts: Vec<Account>,
        secrets: Vec<AccountSecret>,
    ) -> (s: AccountStore)
        ensures
            s@ == account_models(records_by_id(accounts@)),
            s.secret_map() == secret_models(secrets_by_id(secrets@)),
            s.key() == encryption_key@,
            s.wf(),
    {
        let mut amap: HashMap<u128, Account> = HashMap::new();
        let ghost aseq = accounts@;
        for a in it: accounts
            invariant
                aseq == it.seq(),
                amap@ == records_by_id(it.seq().take(it.index() as int)),
                forall|k: u128| #[trigger] amap@.contains_key(k) ==> amap@[k].id == k,
        {
            proof {
                let pre = it.seq().take(it.index() as int);
                assert(it.seq().take(it.index() + 1).drop_last() == pre);
            }
            amap.insert(a.id, a);
        }
        assert(aseq.take(aseq.len() as int) == aseq);
        let mut smap: HashMap<u128, AccountSecret> = HashMap::new();
        let ghost sseq = secrets@;
        for s in it: secrets
            invariant
                sseq == it.seq(),
                smap@ == secrets_by_id(it.seq().take(it.index() as int)),
                forall|k: u128| #[trigger] smap@.contains_key(k) ==> smap@[k].account_id == k,
        {
            proof {
                let pre = it.seq().take(it.index() as int);
                assert(it.seq().take(it.index() + 1).drop_last() == pre);
            }
            smap.insert(s.account_id, s);
        }
        assert(sseq.take(sseq.len() as int) == sseq);
        AccountStore { encryption_key, accounts: amap, secrets: smap }
    }

    /// Whether the stored nonce of `id`, if any, has the length AES-GCM
    /// takes (decrypting with another length panics in the cipher).
    pub fn nonce_valid(&self, id: &u128) -> (b: bool)
        requires
            self.wf(),
        ensures
            b == self.nonce_ok(*id),
    {
        match self.secrets.get(id) {
            Some(s) => {
                assert(self.secret_map()[*id] == (s.encrypted_cookie@, s.nonce@));
                s.nonce.len() == NONCE_LEN
            },
            None => true,
        }
    }

    /// Whether the stored nonce of every account, if any, has the length
    /// AES-GCM takes.
    pub fn record_nonces_valid(&self) -> (b: bool)
        requires
            self.wf(),
        ensures
            b == self.record_nonces_ok(),
    {
        let list = self.list_accounts();
        let mut i: usize = 0;
        while i < list.len()
            invariant
                i <= list@.len(),
                self.wf(),
                lists_exactly(list@, self@),
                forall|j: int| 0 <= j < i ==> self.nonce_ok(#[trigger] list@[j].id),
            decreases list@.len() - i,
        {
            if !self.nonce_valid(&list[i].id) {
                assert(self@.contains_key(list@[i as int].id));
                return false;
            }
            i += 1;
        }
        assert forall|id: u128| #[trigger] self@.contains_key(id) implies self.nonce_ok(id) by {
            assert(has_id(list@, id));
            let j = choose|j: int| 0 <= j < list@.len() && #[trigger] list@[j].id == id;
        }
        true
    }

    /// Every stored secret, each once.
    pub fn list_secrets(&self) -> (r: Vec<AccountSecret>)
        requires
            self.wf(),
        ensures
            secrets_listed(r@, self.secret_map()),
    {
        let ghost m = self.secret_map();
        let mut items: Vec<AccountSecret> = Vec::new();
        for (k, s) in it: self.secrets.iter()
            invariant
                self.wf(),
                m == self.secret_map(),
                items@.len() == it.index(),
                it.seq() == vstd::std_specs::hash::spec_hash_map_iter(&self.secrets).remaining(),
                forall|i: int|
                    0 <= i < items@.len() ==> #[trigger] secret_content(items@[i]) == secret_content(
                        *it.seq()[i].1,
                    ),
        {
            proof {
                let v = vstd::std_specs::hash::spec_hash_map_iter(&self.secrets).remaining();
                assert(self.secrets@.contains_key(*v[it.index() as int].0));
            }
            items.push(s.duplicate());
        }
        proof {
            let v = vstd::std_specs::hash::spec_hash_map_iter(&self.secrets).remaining();
            assert(m.dom() =~= self.secrets@.dom());
            assert forall|i: int| 0 <= i < items@.len() implies m.contains_key(
                #[trigger] items@[i].account_id,
            ) && m[items@[i].account_id] == (items@[i].encrypted_cookie@, items@[i].nonce@) by {
                assert(self.secrets@.contains_key(*v[i].0));
                assert(secret_content(items@[i]) == secret_content(*v[i].1));
            }
            assert forall|i: int, j: int| 0 <= i < j < items@.len() implies items@[i].account_id
                != items@[j].account_id by {
                assert(secret_content(items@[i]) == secret_content(*v[i].1));
                assert(secret_content(items@[j]) == secret_content(*v[j].1));
                if items@[i].account_id == items@[j].account_id {
                    assert(self.secrets@.contains_key(*v[i].0));
                    assert(self.secrets@.contains_key(*v[j].0));
                    assert(v[i] == v[j]);
                }
            }
            assert forall|k: u128| m.contains_key(k) implies exists|i: int|
                0 <= i < items@.len() && #[trigger] items@[i].account_id == k by {
                assert(self.secrets@.contains_key(k));
                assert(v.contains((&k, &self.secrets@[k])));
                let i = choose|i: int| 0 <= i < v.len() && v[i] == (&k, &self.secrets@[k]);
                assert(secret_content(items@[i]) == secret_content(*v[i].1));
                assert(items@[i].account_id == k);
            }
        }
        items
    }

    /// The number of accounts.
    pub fn count(&self) -> (n: usize)
        ensures
            n == self@.dom().len(),
    {
        assert(self@.dom() =~= self.accounts@.dom());
        self.accounts.len()
    }

    /// The account with the given id.
    pub fn get_account(&self, id: &u128) -> (r: AppResult<&Account>)
        ensures
            match r {
                Ok(a) => self@.contains_key(*id) && a@ == self@[*id],
                Err(e) => !self@.contains_key(*id) && not_found(e, *id),
            },
    {
        match self.accounts.get(id) {
            Some(a) => Ok(a),
            None => Err(AppError::AccountNotFound(uuid_to_text(*id))),
        }
    }

    /// Adds an account together with its cookie. The record gets the current
    /// number of accounts as its sort order; the cookie is stored encrypted.
    pub fn add_account(&mut self, account: Account, cookie: &str) -> (r: AppResult<()>)
        requires
            old(self).wf(),
        ensures
            final(self).wf(),
            (r is Ok) <==> encode_utf8(cookie@).len() <= AES_GCM_MAX_PLAINTEXT,
            r is Ok ==> account_added(*old(self), *final(self), account@, cookie@),
            r matches Err(e) ==> e is Encryption && unchanged(*old(self), *final(self)),
    {
        let ghost given = account@;
        let mut account = account;
        account.sort_order = #[verifier::truncate] (self.accounts.len() as i32);
        let (encrypted_cookie, nonce) = match crypto::encrypt_cookie(&self.encryption_key, cookie) {
            Ok(p) => p,
            Err(e) => return Err(e),
        };
        let id = account.id;
        let secret = AccountSecret { account_id: id, encrypted_cookie, nonce };
        self.accounts.insert(id, account);
        self.secrets.insert(id, secret);
        proof {
            assert(old(self)@.dom() =~= old(self).accounts@.dom());
            assert(self@ =~= old(self)@.insert(
                id,
                with_sort_order(given, #[verifier::truncate] (old(self)@.dom().len() as i32)),
            ));
            assert(self.secret_map().dom() =~= old(self).secret_map().dom().insert(id));
        }
        Ok(())
    }

    /// Replaces the record of an existing account (its cookie is kept).
    pub fn update_account(&mut self, account: Account) -> (r: AppResult<()>)
        requires
            old(self).wf(),
        ensures
            final(self).wf(),
            (r is Ok) <==> old(self)@.contains_key(account.id),
            r is Ok ==> final(self)@ == old(self)@.insert(account.id, account@)
                && final(self).secret_map() == old(self).secret_map() && final(self).key() == old(self).key(),
            r matches Err(e) ==> not_found(e, account.id) && unchanged(*old(self), *final(self)),
    {
        if !self.accounts.contains_key(&account.id) {
            return Err(AppError::AccountNotFound(uuid_to_text(account.id)));
        }
        let id = account.id;
        self.accounts.insert(id, account);
        proof {
            assert(self@ =~= old(self)@.insert(id, account@));
        }
        Ok(())
    }

    /// Replaces the cookie of an existing account.
    pub fn update_cookie(&mut self, account_id: &u128, cookie: &str) -> (r: AppResult<()>)
        requires
            old(self).wf(),
        ensures
            final(self).wf(),
            (r is Ok) <==> old(self)@.contains_key(*account_id) && encode_utf8(cookie@).len()
                <= AES_GCM_MAX_PLAINTEXT,
            r is Ok ==> cookie_replaced(*old(self), *final(self), *account_id, cookie@),
            r matches Err(e) ==> unchanged(*old(self), *final(self)) && if old(self)@.contains_key(
                *account_id,
            ) {
                e is Encryption
            } else {
                not_found(e, *account_id)
            },
    {
        if !self.accounts.contains_key(account_id) {
            return Err(AppError::AccountNotFound(uuid_to_text(*account_id)));
        }
        let (encrypted_cookie, nonce) = match crypto::encrypt_cookie(&self.encryption_key, cookie) {
            Ok(p) => p,
            Err(e) => return Err(e),
        };
        let id = *account_id;
        let secret = AccountSecret { account_id: id, encrypted_cookie, nonce };
        self.secrets.insert(id, secret);
        proof {
            assert(self.secret_map().dom() =~= old(self).secret_map().dom().insert(id));
        }
        Ok(())
    }

    /// Decrypts the cookie of an account.
    pub fn get_cookie(&self, account_id: &u128) -> (r: AppResult<String>)
        requires
            self.wf(),
            self.nonce_ok(*account_id),
        ensures
            cookie_read(*self, *account_id, read_text(r)),
    {
        match self.secrets.get(account_id) {
            Some(secret) => {
                assert(self.secret_map()[*account_id] == (secret.encrypted_cookie@, secret.nonce@));
                crypto::decrypt_cookie(
                    &self.encryption_key,
                    secret.encrypted_cookie.as_slice(),
                    secret.nonce.as_slice(),
                )
            },
            None => Err(AppError::AccountNotFound(uuid_to_text(*account_id))),
        }
    }

    /// Removes an account and its secret.
    pub fn remove_account(&mut self, id: &u128) -> (r: AppResult<()>)
        requires
            old(self).wf(),
        ensures
            final(self).wf(),
            (r is Ok) <==> old(self)@.contains_key(*id),
            r is Ok ==> final(self)@ == old(self)@.remove(*id) && final(self).secret_map()
                == old(self).secret_map().remove(*id) && final(self).key() == old(self).key(),
            r matches Err(e) ==> not_found(e, *id) && unchanged(*old(self), *final(self)),
    {
        match self.accounts.remove(id) {
            None => {
                assert(self.accounts@ =~= old(self).accounts@);
                return Err(AppError::AccountNotFound(uuid_to_text(*id)));
            },
            Some(_) => {},
        }
        self.secrets.remove(id);
        proof {
            assert(self@ =~= old(self)@.remove(*id));
            assert(self.secret_map() =~= old(self).secret_map().remove(*id));
        }
        Ok(())
    }

    /// All accounts, each once, in non-decreasing sort order.
    pub fn list_accounts(&self) -> (r: Vec<Account>)
        requires
            self.wf(),
        ensures
            lists_exactly(r@, self@),
            sorted_by_order(r@),
    {
        let ghost m = self@;
        let mut items: Vec<Account> = Vec::new();
        for (k, a) in it: self.accounts.iter()
            invariant
                self.wf(),
                m == self@,
                items@.len() == it.index(),
                it.seq() == vstd::std_specs::hash::spec_hash_map_iter(&self.accounts).remaining(),
                forall|i: int|
                    0 <= i < items@.len() ==> #[trigger] items@[i].id == *it.seq()[i].0
                        && items@[i]@ == (*it.seq()[i].1)@,
        {
            proof {
                let v = vstd::std_specs::hash::spec_hash_map_iter(&self.accounts).remaining();
                assert(self.accounts@.contains_key(*v[it.index() as int].0));
            }
            items.push(a.duplicate());
        }
        proof {
            let v = vstd::std_specs::hash::spec_hash_map_iter(&self.accounts).remaining();
            assert(m.dom() =~= self.accounts@.dom());
            assert forall|i: int| 0 <= i < items@.len() implies m.contains_key(#[trigger] items@[i].id)
                && m[items@[i].id] == items@[i]@ by {
                assert(self.accounts@.contains_key(*v[i].0));
            }
            assert forall|i: int, j: int| 0 <= i < j < items@.len() implies items@[i].id
                != items@[j].id by {
                if items@[i].id == items@[j].id {
                    assert(self.accounts@.contains_key(*v[i].0));
                    assert(self.accounts@.contains_key(*v[j].0));
                    assert(v[i] == v[j]);
                }
            }
            assert forall|k: u128| m.contains_key(k) implies has_id(items@, k) by {
                assert(self.accounts@.contains_key(k));
                assert(v.contains((&k, &self.accounts@[k])));
                let i = choose|i: int| 0 <= i < v.len() && v[i] == (&k, &self.accounts@[k]);
                assert(items@[i].id == k);
            }
        }
        let mut rem = items;
        let mut out: Vec<Account> = Vec::new();
        while rem.len() > 0
            invariant
                out@.len() + rem@.len() == m.dom().len(),
                all_filed(out@, m),
                all_filed(rem@, m),
                ids_distinct(out@),
                ids_distinct(rem@),
                forall|k: u128| !(has_id(out@, k) && has_id(rem@, k)),
                forall|k: u128| m.contains_key(k) ==> has_id(out@, k) || has_id(rem@, k),
                sorted_by_order(out@),
                forall|i: int, j: int|
                    0 <= i < out@.len() && 0 <= j < rem@.len() ==> out@[i].sort_order
                        <= rem@[j].sort_order,
            decreases rem@.len(),
        {
            let mut best: usize = 0;
            let mut j: usize = 1;
            while j < rem.len()
                invariant
                    best < rem@.len(),
                    1 <= j <= rem@.len(),
                    forall|t: int| 0 <= t < j ==> rem@[best as int].sort_order <= rem@[t].sort_order,
                decreases rem@.len() - j,
            {
                if rem[j].sort_order < rem[best].sort_order {
                    best = j;
                }
                j += 1;
            }
            let ghost old_rem = rem@;
            let ghost old_out = out@;
            let x = rem.remove(best);
            proof {
                assert forall|k: u128| #![auto] has_id(old_rem, k) <==> (has_id(rem@, k) || x.id == k) by {
                    lemma_has_id_remove(old_rem, best as int, k);
                }
                assert forall|k: u128| #![auto] has_id(old_out.push(x), k) <==> (has_id(old_out, k) || x.id == k) by {
                    lemma_has_id_push(old_out, x, k);
                }
                assert(has_id(old_rem, x.id));
                assert(!has_id(old_out, x.id));
                assert(!has_id(rem@, x.id)) by {
                    if has_id(rem@, x.id) {
                        let i = choose|i: int| 0 <= i < rem@.len() && #[trigger] rem@[i].id == x.id;
                        if i < best {
                            assert(old_rem[i].id == old_rem[best as int].id);
                        } else {
                            assert(old_rem[i + 1].id == old_rem[best as int].id);
                        }
                    }
                }
                assert forall|i: int| 0 <= i < rem@.len() implies x.sort_order <= #[trigger] rem@[i].sort_order by {
                    if i < best {
                        assert(rem@[i] == old_rem[i]);
                    } else {
                        assert(rem@[i] == old_rem[i + 1]);
                    }
                }
                assert forall|i: int, j: int| 0 <= i < j < rem@.len() implies rem@[i].id != rem@[j].id by {
                    let oi = if i < best { i } else { i + 1 };
                    let oj = if j < best { j } else { j + 1 };
                    assert(rem@[i] == old_rem[oi]);
                    assert(rem@[j] == old_rem[oj]);
                }
                assert forall|i: int| 0 <= i < rem@.len() implies m.contains_key(#[trigger] rem@[i].id)
                    && m[rem@[i].id] == rem@[i]@ by {
                    let oi = if i < best { i } else { i + 1 };
                    assert(rem@[i] == old_rem[oi]);
                }
                assert forall|i: int, j: int|
                    0 <= i < old_out.len() && 0 <= j < rem@.len() implies old_out[i].sort_order
                        <= rem@[j].sort_order by {
                    let oj = if j < best { j } else { j + 1 };
                    assert(rem@[j] == old_rem[oj]);
                }
            }
            out.push(x);
            proof {
                assert(out@ == old_out.push(x));
                assert forall|i: int, j: int|
                    0 <= i < out@.len() && 0 <= j < rem@.len() implies out@[i].sort_order
                        <= rem@[j].sort_order by {
                    if i < old_out.len() {
                        assert(out@[i] == old_out[i]);
                    }
                }
                assert forall|i: int, j: int| 0 <= i < j < out@.len() implies out@[i].id != out@[j].id by {
                    if j == old_out.len() {
                        assert(out@[i] == old_out[i]);
                        assert(has_id(old_out, out@[i].id));
                    } else {
                        assert(out@[i] == old_out[i]);
                        assert(out@[j] == old_out[j]);
                    }
                }
                assert forall|i: int, j: int| 0 <= i <= j < out@.len() implies out@[i].sort_order
                    <= out@[j].sort_order by {
                    if j == old_out.len() {
                        if i < j {
                            assert(out@[i] == old_out[i]);
                            assert(old_rem[best as int].sort_order == x.sort_order);
                        }
                    } else {
                        assert(out@[i] == old_out[i]);
                        assert(out@[j] == old_out[j]);
                    }
                }
                assert forall|i: int| 0 <= i < out@.len() implies m.contains_key(#[trigger] out@[i].id)
                    && m[out@[i].id] == out@[i]@ by {
                    if i < old_out.len() {
                        assert(out@[i] == old_out[i]);
                    }
                }
                assert forall|k: u128| !(has_id(out@, k) && has_id(rem@, k)) by {
                    lemma_has_id_push(old_out, x, k);
                    lemma_has_id_remove(old_rem, best as int, k);
                }
                assert forall|k: u128| m.contains_key(k) implies has_id(out@, k) || has_id(rem@, k) by {
                    lemma_has_id_push(old_out, x, k);
                    lemma_has_id_remove(old_rem, best as int, k);
                }
            }
        }
        proof {
            assert forall|k: u128| m.contains_key(k) implies has_id(out@, k) by {
                if has_id(rem@, k) {
                    let i = choose|i: int| 0 <= i < rem@.len() && #[trigger] rem@[i].id == k;
                }
            }
        }
        out
    }

    /// Gives every listed account the position of its id in `order` (the last
    /// one, if listed twice) as its sort order; unlisted ids are ignored.
    pub fn reorder(&mut self, order: &[u128])
        requires
            old(self).wf(),
        ensures
            final(self).wf(),
            final(self)@ == reordered(old(self)@, order@),
            final(self).secret_map() == old(self).secret_map(),
            final(self).key() == old(self).key(),
    {
        let mut i: usize = 0;
        while i < order.len()
            invariant
                i <= order@.len(),
                self.wf(),
                self@ == reordered(old(self)@, order@.take(i as int)),
                self.secret_map() == old(self).secret_map(),
                self.key() == old(self).key(),
            decreases order@.len() - i,
        {
            let id = order[i];
            let ghost before = self@;
            let found = match self.accounts.get(&id) {
                Some(acc) => {
                    let mut a = acc.duplicate();
                    a.sort_order = #[verifier::truncate] (i as i32);
                    Some(a)
                },
                None => None,
            };
            match found {
                Some(a) => {
                    self.accounts.insert(id, a);
                },
                None => {},
            }
            proof {
                let pre = order@.take(i as int);
                let post = order@.take(i + 1);
                assert(post.drop_last() == pre);
                assert forall|k: u128| #![auto] last_index(post, k) == if k == id { i as int } else { last_index(pre, k) } by {
                }
                let target = reordered(old(self)@, post);
                assert(self@.dom() =~= target.dom());
                assert forall|k: u128| #[trigger] self@.contains_key(k) implies self@[k] == target[k] by {
                    if k == id {
                        assert(before.contains_key(id));
                        assert(self@[k] == with_sort_order(before[id], #[verifier::truncate] (i as i32)));
                    } else {
                        assert(self@[k] == before[k]);
                    }
                }
                assert(self@ =~= target);
            }
            i += 1;
        }
        assert(order@.take(order@.len() as int) == order@);
    }

    /// The names of all groups in use, sorted and without repetition.
    pub fn get_groups(&self) -> (r: Vec<String>)
        requires
            self.wf(),
        ensures
            strictly_sorted(r@),
            forall|g: Seq<char>| has_text(r@, g) <==> is_group(self@, g),
    {
        let mut out: Vec<String> = Vec::new();
        for (k, a) in it: self.accounts.iter()
            invariant
                it.seq() == vstd::std_specs::hash::spec_hash_map_iter(&self.accounts).remaining(),
                strictly_sorted(out@),
                forall|g: Seq<char>|
                    has_text(out@, g) <==> exists|i: int|
                        0 <= i < it.index() && #[trigger] (*it.seq()[i].1)@.group == Some(g),
        {
            let ghost idx = it.index();
            match &a.group {
                Some(g) => {
                    insert_sorted_unique(&mut out, g.clone());
                },
                None => {},
            }
            proof {
                assert forall|g: Seq<char>|
                    has_text(out@, g) <==> exists|i: int|
                        0 <= i < idx + 1 && #[trigger] (*it.seq()[i].1)@.group == Some(g) by {
                    if (*it.seq()[idx].1)@.group == Some(g) {
                        assert(0 <= idx < idx + 1);
                    }
                }
            }
        }
        proof {
            let v = vstd::std_specs::hash::spec_hash_map_iter(&self.accounts).remaining();
            assert forall|g: Seq<char>| has_text(out@, g) <==> is_group(self@, g) by {
                if has_text(out@, g) {
                    let i = choose|i: int| 0 <= i < v.len() && #[trigger] (*v[i].1)@.group == Some(g);
                    assert(self.accounts@.contains_key(*v[i].0));
                    assert(self@[*v[i].0].group == Some(g));
                }
                if is_group(self@, g) {
                    let k = choose|k: u128| self@.contains_key(k) && #[trigger] self@[k].group == Some(g);
                    assert(self.accounts@.contains_key(k));
                    assert(v.contains((&k, &self.accounts@[k])));
                    let i = choose|i: int| 0 <= i < v.len() && v[i] == (&k, &self.accounts@[k]);
                    assert((*v[i].1)@.group == Some(g));
                }
            }
        }
        out
    }
}

} // verus!
