use vstd::prelude::*;
use vstd::utf8::{encode_utf8, is_ascii_chars};
use crate::crypto::{cookie_encrypted, cookie_decrypted, derived_key};
use crate::watcher::{tracked_now, TrackedModel};
use crate::error::{AppError, AppResult};
use crate::import::{cookie_name_prefix, import_cookie_of, readable_cookies, export_text_of, cookie_entries_of, lemma_cookie_export_lines, lemma_clean_entries, readable_logins, login_line, login_reimportable, lemma_login_export_lines, lemma_login_parts, lemma_login_entries, user_pass_entries_of, entry_parts, export_records_of};
use crate::text::{split_lines, lemma_split_joined, lemma_trimmed_empty};
use crate::launcher::{encoded_url, encoded_char, looks_like_uuid, is_numeric_link_code, count_char};
use crate::legacy::legacy_cookie_of;
use crate::models::AccountModel;
use crate::format::{uuid_text_of, lemma_uuid_text_injective};
use crate::page_scan::{page_code, launcher_code, launcher_code_at, json_code_at, first_launcher_at, first_json_at, code_at, is_code_char, is_pattern_space, space_run, launcher_call, access_code_key};
use crate::presets::{recent_added, MAX_RECENT, RecentEntry};
use crate::settings::join_wait;
use crate::sharelinks::{backoff_ms, sharelinks_next, SharelinksReply};
use crate::storage::{lists_exactly, secrets_listed, records_by_id, secrets_by_id, account_models, secret_models, has_id, lemma_records_by_id, lemma_secrets_by_id};
use crate::storage::{AccountStore, account_added, cookie_replaced, cookie_read, with_sort_order, reordered, last_index, sorted_by_order};
use crate::models::{Account, AccountSecret};
use crate::webapi::in_group;
use crate::text::opt_view;
use crate::text::occurs_at;
use crate::profiles::merged_into;
use crate::api::{OnlineProfile, UserDetails};
use crate::time::Timestamp;
use crate::text::{has_prefix, strip_repeated_prefix, trimmed};
use crate::format::all_digits;

verus! {

/// A cookie encrypted under a key decrypts, under the same key, back to
/// the same cookie.
pub proof fn law_cookie_roundtrip(
    key: Seq<u8>,
    cookie: Seq<char>,
    encrypted: Seq<u8>,
    nonce: Seq<u8>,
    read: AppResult<Seq<char>>,
)
    requires
        cookie_encrypted(key, cookie, Ok((encrypted, nonce))),
        cookie_decrypted(key, encrypted, nonce, read),
    ensures
        read == Ok::<Seq<char>, AppError>(cookie),
{
}

/// After an account is added with a cookie, reading its cookie gives that
/// cookie.
pub proof fn law_added_cookie_reads_back(
    old: AccountStore,
    new: AccountStore,
    account: AccountModel,
    cookie: Seq<char>,
    read: AppResult<Seq<char>>,
)
    requires
        account_added(old, new, account, cookie),
        cookie_read(new, account.id, read),
    ensures
        read == Ok::<Seq<char>, AppError>(cookie),
{
}

/// After the cookie of an account is replaced, reading it gives the new
/// cookie.
pub proof fn law_replaced_cookie_reads_back(
    old: AccountStore,
    new: AccountStore,
    id: u128,
    cookie: Seq<char>,
    read: AppResult<Seq<char>>,
)
    requires
        cookie_replaced(old, new, id, cookie),
        cookie_read(new, id, read),
    ensures
        read == Ok::<Seq<char>, AppError>(cookie),
{
}

/// Adding an account leaves the cookies of the other accounts as they were.
pub proof fn law_add_keeps_other_cookies(
    old: AccountStore,
    new: AccountStore,
    account: AccountModel,
    cookie: Seq<char>,
    other: u128,
)
    requires
        account_added(old, new, account, cookie),
        other != account.id,
    ensures
        new.stored_cookie(other) == old.stored_cookie(other),
{
}

/// Adding an account with a new id adds one account, which comes last: its
/// sort order is the number of accounts there were.
pub proof fn law_add_appends(old: AccountStore, new: AccountStore, account: AccountModel, cookie: Seq<char>)
    requires
        account_added(old, new, account, cookie),
        !old@.contains_key(account.id),
        old@.dom().len() < 0x8000_0000,
    ensures
        new@.dom().len() == old@.dom().len() + 1,
        new@[account.id].sort_order == old@.dom().len(),
        new@[account.id] == with_sort_order(account, old@.dom().len() as i32),
{
    old.lemma_finite();
    assert(new@.dom() == old@.dom().insert(account.id));
}

/// Removing an account takes exactly it away, with its cookie.
pub proof fn law_remove_forgets(old: AccountStore, new: AccountStore, id: u128)
    requires
        old@.contains_key(id),
        new@ == old@.remove(id),
        new.secret_map() == old.secret_map().remove(id),
    ensures
        !new@.contains_key(id),
        new.stored_cookie(id) is None,
        new@.dom().len() == old@.dom().len() - 1,
{
    old.lemma_finite();
}

proof fn lemma_strip_no_prefix(s: Seq<char>, p: Seq<char>)
    requires
        p.len() > 0,
    ensures
        !has_prefix(strip_repeated_prefix(s, p), p),
    decreases s.len(),
{
    if has_prefix(s, p) {
        lemma_strip_no_prefix(s.subrange(p.len() as int, s.len() as int), p);
    }
}

/// An imported legacy cookie is ASCII, at least 50 bytes long, and no
/// longer starts with the cookie's name.
pub proof fn law_legacy_cookie_clean(token: Option<String>, cookie: Seq<char>)
    requires
        legacy_cookie_of(token) == Ok::<Seq<char>, Seq<char>>(cookie),
    ensures
        is_ascii_chars(cookie),
        encode_utf8(cookie).len() >= 50,
        !has_prefix(cookie, cookie_name_prefix()),
{
    reveal_strlit(".ROBLOSECURITY=");
    let t = token->0;
    let clean = strip_repeated_prefix(
        strip_repeated_prefix(trimmed(t@), crate::import::warning_prefix()),
        cookie_name_prefix(),
    );
    lemma_strip_no_prefix(
        strip_repeated_prefix(trimmed(t@), crate::import::warning_prefix()),
        cookie_name_prefix(),
    );
}

/// A pasted cookie that starts with the cookie's name is imported without
/// it.
pub proof fn law_import_cookie_drops_name(line: Seq<char>, cookie: Seq<char>)
    requires
        import_cookie_of(line) == Some(cookie),
        has_prefix(trimmed(line), cookie_name_prefix()),
    ensures
        !has_prefix(cookie, cookie_name_prefix()),
{
    reveal_strlit(".ROBLOSECURITY=");
    lemma_strip_no_prefix(trimmed(line), cookie_name_prefix());
}

/// An encoded launcher URL holds none of the characters it escapes.
pub proof fn law_encoded_url_escapes(s: Seq<char>, i: int)
    requires
        0 <= i < encoded_url(s).len(),
    ensures
        encoded_url(s)[i] != ':',
        encoded_url(s)[i] != '/',
        encoded_url(s)[i] != '?',
        encoded_url(s)[i] != '&',
        encoded_url(s)[i] != '=',
    decreases s.len(),
{
    let before = encoded_url(s.drop_last());
    if i < before.len() {
        law_encoded_url_escapes(s.drop_last(), i);
        assert(encoded_url(s)[i] == before[i]);
    } else {
        let c = s.last();
        assert(encoded_url(s)[i] == encoded_char(c)[i - before.len()]);
    }
}

/// The character a percent escape `%<a><b>` of a launcher URL stands for.
pub open spec fn unescaped(a: char, b: char) -> Option<char> {
    if a == '3' && b == 'A' {
        Some(':')
    } else if a == '2' && b == 'F' {
        Some('/')
    } else if a == '3' && b == 'F' {
        Some('?')
    } else if a == '2' && b == '6' {
        Some('&')
    } else if a == '3' && b == 'D' {
        Some('=')
    } else {
        None
    }
}

/// Percent-decoding of a launcher URL, read from the front: each escape of
/// `:`, `/`, `?`, `&` or `=` gives back that character, every other
/// character stands for itself.
pub open spec fn percent_decoded(t: Seq<char>) -> Seq<char>
    decreases t.len(),
{
    if t.len() == 0 {
        Seq::empty()
    } else if t.len() >= 3 && t[0] == '%' && unescaped(t[1], t[2]) is Some {
        seq![unescaped(t[1], t[2])->0] + percent_decoded(t.subrange(3, t.len() as int))
    } else {
        seq![t[0]] + percent_decoded(t.drop_first())
    }
}

/// A character the launcher URL encoding escapes.
pub open spec fn is_reserved(c: char) -> bool {
    c == ':' || c == '/' || c == '?' || c == '&' || c == '='
}

/// How many characters of `s` the encoding escapes.
pub open spec fn reserved_count(s: Seq<char>) -> nat
    decreases s.len(),
{
    if s.len() == 0 {
        0
    } else {
        reserved_count(s.drop_last()) + if is_reserved(s.last()) {
            1nat
        } else {
            0nat
        }
    }
}

proof fn lemma_encoded_url_front(c: char, t: Seq<char>)
    ensures
        encoded_url(seq![c] + t) == encoded_char(c) + encoded_url(t),
    decreases t.len(),
{
    if t.len() == 0 {
        assert(seq![c] + t == seq![c]);
        assert(seq![c].drop_last() == Seq::<char>::empty());
        assert(encoded_url(seq![c]) == encoded_url(Seq::<char>::empty()) + encoded_char(c));
        assert(encoded_char(c) + encoded_url(t) == encoded_char(c));
        assert(Seq::<char>::empty() + encoded_char(c) == encoded_char(c));
    } else {
        let u = seq![c] + t;
        assert(u.drop_last() == seq![c] + t.drop_last());
        assert(u.last() == t.last());
        lemma_encoded_url_front(c, t.drop_last());
        assert(encoded_url(u) == encoded_url(u.drop_last()) + encoded_char(u.last()));
        assert(encoded_url(t) == encoded_url(t.drop_last()) + encoded_char(t.last()));
        assert(encoded_url(u) =~= encoded_char(c) + encoded_url(t));
    }
}

/// Decoding an encoded launcher URL gives the URL back (for a URL without
/// `%`, whose own escapes the encoding leaves as they are): only the five
/// reserved characters are changed, each into its escape.
pub proof fn law_encoded_url_decodes(s: Seq<char>)
    requires
        !s.contains('%'),
    ensures
        percent_decoded(encoded_url(s)) == s,
    decreases s.len(),
{
    if s.len() > 0 {
        let c = s[0];
        let t = s.drop_first();
        assert(s == seq![c] + t);
        assert(!t.contains('%')) by {
            if t.contains('%') {
                let j = choose|j: int| 0 <= j < t.len() && t[j] == '%';
                assert(s[j + 1] == '%');
            }
        }
        assert(c != '%') by {
            assert(s[0] == c);
        }
        lemma_encoded_url_front(c, t);
        law_encoded_url_decodes(t);
        let e = encoded_url(s);
        let rest = encoded_url(t);
        assert(e == encoded_char(c) + rest);
        if is_reserved(c) {
            assert(e.len() >= 3 && e[0] == '%');
            assert(unescaped(e[1], e[2]) == Some(c));
            assert(e.subrange(3, e.len() as int) =~= rest);
            assert(percent_decoded(e) == seq![c] + percent_decoded(rest));
        } else {
            assert(encoded_char(c) == seq![c]);
            assert(e[0] == c);
            assert(e.drop_first() =~= rest);
            assert(percent_decoded(e) == seq![c] + percent_decoded(rest));
        }
    }
}

/// Encoding a launcher URL lengthens it by exactly two characters for each
/// reserved character and keeps every other character.
pub proof fn law_encoded_url_len(s: Seq<char>)
    ensures
        encoded_url(s).len() == s.len() + 2 * reserved_count(s),
    decreases s.len(),
{
    if s.len() > 0 {
        law_encoded_url_len(s.drop_last());
    }
}

/// A link code is never both an access code and a numeric link code.
pub proof fn law_link_code_kinds_exclusive(code: Seq<char>)
    ensures
        !(looks_like_uuid(code) && is_numeric_link_code(code)),
{
    if looks_like_uuid(code) && is_numeric_link_code(code) {
        lemma_digits_have_no_dash(code);
    }
}

proof fn lemma_digits_have_no_dash(s: Seq<char>)
    requires
        all_digits(s),
    ensures
        count_char(s, '-') == 0,
    decreases s.len(),
{
    if s.len() > 0 {
        assert(crate::format::is_digit(s[s.len() - 1]));
        assert forall|i: int| 0 <= i < s.drop_last().len() implies crate::format::is_digit(
            #[trigger] s.drop_last()[i],
        ) by {
            assert(s.drop_last()[i] == s[i]);
        }
        lemma_digits_have_no_dash(s.drop_last());
    }
}

proof fn lemma_space_run_exact(s: Seq<char>, i: int, k: nat)
    requires
        0 <= i,
        i + k < s.len(),
        forall|j: int| i <= j < i + k ==> is_pattern_space(#[trigger] s[j]),
        !is_pattern_space(s[i + k]),
    ensures
        space_run(s, i) == k,
    decreases k,
{
    if k > 0 {
        lemma_space_run_exact(s, i + 1, (k - 1) as nat);
    }
}

/// The JSON pattern finds every embedded `"accessCode"` entry: whatever
/// spaces (none included) stand before and after the colon, when the key
/// is followed by them, a colon, a double quote, 36 access-code characters
/// and a closing double quote, the code is found where it starts.
pub proof fn law_json_code_found(s: Seq<char>, at: int, k1: nat, k2: nat)
    requires
        0 <= at,
        at + 12 <= s.len(),
        s.subrange(at, at + 12) == "\"accessCode\""@,
        at + 12 + k1 + k2 + 39 < s.len(),
        forall|j: int| at + 12 <= j < at + 12 + k1 ==> is_pattern_space(#[trigger] s[j]),
        s[at + 12 + k1] == ':',
        forall|j: int| at + 13 + k1 <= j < at + 13 + k1 + k2 ==> is_pattern_space(#[trigger] s[j]),
        s[at + 13 + k1 + k2] == '"',
        forall|j: int| at + 14 + k1 + k2 <= j < at + 50 + k1 + k2 ==> is_code_char(#[trigger] s[j]),
        s[at + 50 + k1 + k2] == '"',
    ensures
        json_code_at(s, at) == Some(at + 14 + k1 + k2),
{
    reveal_strlit("\"accessCode\"");
    assert(access_code_key().len() == 12);
    assert(occurs_at(s, access_code_key(), at));
    let b = at + 12;
    lemma_space_run_exact(s, b, k1);
    let c = b + k1;
    lemma_space_run_exact(s, c + 1, k2);
    let q = c + 1 + k2;
    assert(code_at(s, q + 1));
}

/// A page whose only content is the compact JSON entry
/// `{"accessCode":"<code>"}` yields that code, for every code of 36
/// access-code characters.
pub proof fn law_compact_json_page(c: Seq<char>)
    requires
        c.len() == 36,
        forall|k: int| 0 <= k < 36 ==> is_code_char(#[trigger] c[k]),
    ensures
        page_code("{\"accessCode\":\""@ + c + "\"}"@) == Some(c),
{
    reveal_strlit("{\"accessCode\":\"");
    reveal_strlit("\"}");
    reveal_strlit("\"accessCode\"");
    reveal_strlit("Roblox.GameLauncher.joinPrivateGame(");
    let head = "{\"accessCode\":\""@;
    let s = head + c + "\"}"@;
    assert(s.len() == 53);
    assert forall|k: int| 0 <= k < 36 implies s[15 + k] == c[k] by {}
    assert(s[51] == '"' && s[52] == '}');
    assert forall|i: int| 0 <= i < s.len() implies s[i] != 'R' by {
        if 15 <= i < 51 {
            assert(s[i] == c[i - 15]);
            assert(is_code_char(c[i - 15]));
        }
    }
    assert forall|at: int| launcher_code_at(s, at) is None by {
        if occurs_at(s, launcher_call(), at) {
            assert(s.subrange(at, at + launcher_call().len())[0] == launcher_call()[0]);
            assert(s[at] == 'R');
        }
    }
    assert(!exists|at: int| first_launcher_at(s, at));
    assert(s.subrange(1, 13) =~= "\"accessCode\""@);
    law_json_code_found(s, 1, 0, 0);
    assert(json_code_at(s, 0) is None) by {
        assert(s[0] == '{');
        if occurs_at(s, access_code_key(), 0) {
            assert(s.subrange(0, 12)[0] == access_code_key()[0]);
        }
    }
    assert(first_json_at(s, 1));
    let at = choose|at: int| first_json_at(s, at);
    assert(at == 1) by {
        if at < 1 {
            assert(json_code_at(s, 0) is None);
        } else if at > 1 {
            assert(json_code_at(s, 1) is None);
        }
    }
    assert(s.subrange(15, 51) =~= c);
}

/// The access code read from a page is 36 access-code characters.
pub proof fn law_page_code_shape(s: Seq<char>, c: Seq<char>)
    requires
        page_code(s) == Some(c),
    ensures
        c.len() == 36,
        forall|k: int| 0 <= k < 36 ==> is_code_char(#[trigger] c[k]),
{
    if launcher_code(s) is Some {
        let at = choose|at: int| first_launcher_at(s, at);
        let q = launcher_code_at(s, at)->0;
        assert(code_at(s, q));
        assert forall|k: int| 0 <= k < 36 implies is_code_char(#[trigger] c[k]) by {
            assert(c[k] == s[q + k]);
        }
    } else {
        let at = choose|at: int| first_json_at(s, at);
        let q = json_code_at(s, at)->0;
        assert(code_at(s, q));
        assert forall|k: int| 0 <= k < 36 implies is_code_char(#[trigger] c[k]) by {
            assert(c[k] == s[q + k]);
        }
    }
}

/// A share-link resolution retries with a fresh token at most twice: a
/// reply only leads to another request on the first two attempts.
pub proof fn law_sharelinks_retries_bounded(attempt: u32, reply: SharelinksReply, place_id: u64)
    requires
        sharelinks_next(attempt, reply, place_id) is Post,
    ensures
        attempt < 2,
        reply.status == 403,
{
}

/// Each back-off before a retry is twice the one before.
pub proof fn law_backoff_doubles(attempt: u32)
    requires
        1 <= attempt < 31,
    ensures
        backoff_ms((attempt + 1) as u32) == 2 * backoff_ms(attempt),
{
    vstd::arithmetic::power2::lemma_pow2_unfold((attempt + 1) as nat);
}

/// A join never waits longer than the least delay, and does not wait once
/// that delay has passed.
pub proof fn law_join_wait(elapsed: u128, min_delay_ms: u64)
    ensures
        0 <= join_wait(elapsed, min_delay_ms) <= min_delay_ms * 1000000,
        join_wait(elapsed, min_delay_ms) == 0 <==> elapsed >= min_delay_ms * 1000000,
{
}

/// A recent list that holds at most `MAX_RECENT` entries still does after
/// an entry is added.
pub proof fn law_recent_bounded(
    old: Seq<RecentEntry>,
    value: Seq<char>,
    label: String,
    timestamp: u64,
    new: Seq<RecentEntry>,
)
    requires
        old.len() <= MAX_RECENT,
        recent_added(old, value, label, timestamp, new),
    ensures
        new.len() <= MAX_RECENT,
{
}

/// A cache entry written can be read back, and writing one key leaves the
/// others as they were.
pub proof fn law_cache_read_after_write(
    before: Map<(u64, Seq<char>), (Seq<char>, Option<Seq<char>>)>,
    after: Map<(u64, Seq<char>), (Seq<char>, Option<Seq<char>>)>,
    key: (u64, Seq<char>),
    value: (Seq<char>, Option<Seq<char>>),
    other: (u64, Seq<char>),
)
    requires
        after == before.insert(key, value),
        other != key,
    ensures
        after.contains_key(key),
        after[key] == value,
        after.contains_key(other) == before.contains_key(other),
        before.contains_key(other) ==> after[other] == before[other],
{
}

/// Adding the owner of a cookie who already has an account changes that
/// account and adds none.
pub proof fn law_existing_user_not_duplicated(
    before: Map<u128, AccountModel>,
    after: Map<u128, AccountModel>,
    id: u128,
    updated: AccountModel,
)
    requires
        before.contains_key(id),
        after == before.insert(id, updated),
    ensures
        after.dom() == before.dom(),
        after.dom().len() == before.dom().len(),
{
    assert(after.dom() =~= before.dom());
}

proof fn lemma_last_index_unique(order: Seq<u128>, i: int)
    requires
        0 <= i < order.len(),
        forall|a: int, b: int| 0 <= a < b < order.len() ==> order[a] != order[b],
    ensures
        last_index(order, order[i]) == i,
    decreases order.len(),
{
    if i < order.len() - 1 {
        let t = order.drop_last();
        assert forall|a: int, b: int| 0 <= a < b < t.len() implies t[a] != t[b] by {
            assert(t[a] == order[a] && t[b] == order[b]);
        }
        assert(order.last() != order[i]);
        lemma_last_index_unique(t, i);
        assert(t[i] == order[i]);
    }
}

/// After reordering by a list of distinct ids, each listed account's sort
/// order is its position in the list.
pub proof fn law_reorder_positions(m: Map<u128, AccountModel>, order: Seq<u128>, i: int)
    requires
        0 <= i < order.len(),
        order.len() < 0x8000_0000,
        forall|a: int, b: int| 0 <= a < b < order.len() ==> order[a] != order[b],
        m.contains_key(order[i]),
    ensures
        reordered(m, order).contains_key(order[i]),
        reordered(m, order)[order[i]].sort_order == i,
{
    lemma_last_index_unique(order, i);
}

/// After reordering by a permutation of the stored ids (each stored id
/// exactly once), every listing of the accounts in sort order gives them in
/// the order of that permutation.
pub proof fn law_reorder_then_list(m: Map<u128, AccountModel>, order: Seq<u128>, l: Seq<Account>)
    requires
        order.len() < 0x8000_0000,
        forall|a: int, b: int| 0 <= a < b < order.len() ==> order[a] != order[b],
        forall|i: int| 0 <= i < order.len() ==> m.contains_key(#[trigger] order[i]),
        forall|k: u128| #[trigger] m.contains_key(k) ==> order.contains(k),
        lists_exactly(l, reordered(m, order)),
        sorted_by_order(l),
    ensures
        l.len() == order.len(),
        forall|i: int| 0 <= i < l.len() ==> #[trigger] l[i].id == order[i],
{
    let r = reordered(m, order);
    assert(r.dom() =~= m.dom());
    assert(order.to_set() =~= m.dom());
    order.unique_seq_to_set();
    let n = l.len();
    assert forall|i: int| 0 <= i < n implies 0 <= #[trigger] l[i].sort_order < n
        && order[l[i].sort_order as int] == l[i].id by {
        let k = l[i].id;
        assert(r.contains_key(k));
        assert(order.contains(k));
        let p = choose|p: int| 0 <= p < order.len() && order[p] == k;
        law_reorder_positions(m, order, p);
    }
    let pos = Seq::new(n, |i: int| l[i].sort_order as int);
    assert forall|i: int, j: int| 0 <= i < j < pos.len() implies pos[i] < pos[j] by {
        assert(l[i].sort_order <= l[j].sort_order);
        assert(l[i].id != l[j].id);
        assert(order[l[i].sort_order as int] == l[i].id);
        assert(order[l[j].sort_order as int] == l[j].id);
    }
    assert forall|i: int| 0 <= i < pos.len() implies 0 <= #[trigger] pos[i] < pos.len() by {
        assert(0 <= l[i].sort_order < n);
    }
    lemma_increasing_is_identity(pos);
    assert forall|i: int| 0 <= i < n implies #[trigger] l[i].id == order[i] by {
        assert(pos[i] == i);
        assert(0 <= l[i].sort_order < n);
    }
}

proof fn lemma_increasing_is_identity(s: Seq<int>)
    requires
        forall|i: int, j: int| 0 <= i < j < s.len() ==> s[i] < s[j],
        forall|i: int| 0 <= i < s.len() ==> 0 <= #[trigger] s[i] < s.len(),
    ensures
        forall|i: int| 0 <= i < s.len() ==> #[trigger] s[i] == i,
    decreases s.len(),
{
    if s.len() > 0 {
        let t = s.drop_last();
        assert forall|i: int| 0 <= i < t.len() implies 0 <= #[trigger] t[i] < t.len() by {
            assert(s[i] < s[s.len() - 1]);
            assert(s[s.len() - 1] < s.len());
        }
        lemma_increasing_is_identity(t);
        if s.len() >= 2 {
            assert(t[s.len() - 2] == s.len() - 2);
            assert(s[s.len() - 2] < s[s.len() - 1]);
        }
        assert forall|i: int| 0 <= i < s.len() implies #[trigger] s[i] == i by {
            if i < t.len() {
                assert(t[i] == i);
            }
        }
    }
}

/// No two accounts share a browser data directory: distinct ids have
/// distinct directory names.
pub proof fn law_session_dirs_isolated(a: u128, b: u128)
    requires
        a != b,
    ensures
        uuid_text_of(a) != uuid_text_of(b),
{
    if uuid_text_of(a) == uuid_text_of(b) {
        lemma_uuid_text_injective(a, b);
    }
}

/// Adding again the account of a user the store already has: a group or
/// alias given replaces the old one, one not given keeps it; the account
/// keeps its id, user id, cookie slot and sort order.
pub proof fn law_readd_takes_given_group(
    a: AccountModel,
    p: OnlineProfile,
    details: Option<UserDetails>,
    group: Option<String>,
    alias: Option<String>,
    t: Timestamp,
)
    ensures
        group matches Some(g) ==> merged_into(a, p, details, group, alias, t).group == Some(g@),
        group is None ==> merged_into(a, p, details, group, alias, t).group == a.group,
        alias matches Some(x) ==> merged_into(a, p, details, group, alias, t).alias == Some(x@),
        alias is None ==> merged_into(a, p, details, group, alias, t).alias == a.alias,
        merged_into(a, p, details, group, alias, t).id == a.id,
        merged_into(a, p, details, group, alias, t).sort_order == a.sort_order,
        merged_into(a, p, details, group, alias, t).username == p.user.name@,
{
}

/// The accounts of a listing whose cookie can be read, in order.
pub open spec fn readable_accounts(s: AccountStore, l: Seq<Account>) -> Seq<Account> {
    l.filter(|a: Account| s.stored_cookie(a.id) is Some)
}

/// A JSON export has one entry per account whose cookie can be read, in
/// the listing's order, and entry `k` carries that account's user name, its
/// cookie, its group and its alias.
pub proof fn law_json_export_entries(s: AccountStore, l: Seq<Account>)
    ensures
        export_records_of(s, l).len() == readable_accounts(s, l).len(),
        forall|k: int|
            0 <= k < export_records_of(s, l).len() ==> {
                let a = #[trigger] readable_accounts(s, l)[k];
                &&& export_records_of(s, l)[k].0 == a.username@
                &&& Some(export_records_of(s, l)[k].1) == s.stored_cookie(a.id)
                &&& export_records_of(s, l)[k].2 == opt_view(a.group)
                &&& export_records_of(s, l)[k].3 == opt_view(a.alias)
            },
    decreases l.len(),
{
    reveal_with_fuel(Seq::<_>::filter, 1);
    if l.len() > 0 {
        law_json_export_entries(s, l.drop_last());
        let before = readable_accounts(s, l.drop_last());
        assert(readable_accounts(s, l.drop_last()) == l.drop_last().filter(|a: Account| s.stored_cookie(a.id) is Some));
        let r = readable_accounts(s, l);
        let e = export_records_of(s, l);
        let eb = export_records_of(s, l.drop_last());
        if s.stored_cookie(l.last().id) is Some {
            assert(r == before.push(l.last()));
            assert forall|k: int| 0 <= k < e.len() implies {
                let a = #[trigger] r[k];
                &&& e[k].0 == a.username@
                &&& Some(e[k].1) == s.stored_cookie(a.id)
                &&& e[k].2 == opt_view(a.group)
                &&& e[k].3 == opt_view(a.alias)
            } by {
                if k < eb.len() {
                    assert(e[k] == eb[k]);
                    assert(r[k] == before[k]);
                }
            }
        } else {
            assert(r == before);
        }
    }
}

/// The web API's group filter keeps exactly the accounts of the group, in
/// order and each as often as it is listed: it is the listing filtered by
/// group; with no group asked for it is the whole listing.
pub proof fn law_group_filter_exact(l: Seq<Account>, g: Seq<char>)
    ensures
        in_group(l, Some(g)) == l.filter(|a: Account| opt_view(a.group) == Some(g)),
        in_group(l, None) == l,
    decreases l.len(),
{
    reveal_with_fuel(Seq::<_>::filter, 1);
    if l.len() > 0 {
        law_group_filter_exact(l.drop_last(), g);
        assert(l.drop_last().push(l.last()) == l);
    }
}

/// Every account of the listing that is in the group is served for it.
pub proof fn law_group_filter_complete(l: Seq<Account>, g: Seq<char>, i: int)
    requires
        0 <= i < l.len(),
        opt_view(l[i].group) == Some(g),
    ensures
        in_group(l, Some(g)).contains(l[i]),
{
    law_group_filter_exact(l, g);
    let pred = |a: Account| opt_view(a.group) == Some(g);
    assert(pred(l[i]));
    l.lemma_filter_contains(pred, i);
}

/// Every account the web API lists for a group is in that group.
pub proof fn law_group_filter(l: Seq<Account>, g: Seq<char>, i: int)
    requires
        0 <= i < in_group(l, Some(g)).len(),
    ensures
        opt_view(in_group(l, Some(g))[i].group) == Some(g),
    decreases l.len(),
{
    let before = in_group(l.drop_last(), Some(g));
    if i < before.len() {
        law_group_filter(l.drop_last(), g, i);
        assert(in_group(l, Some(g))[i] == before[i]);
    }
}

/// Batches put one after the other.
pub open spec fn concat_batches(b: Seq<Seq<u64>>) -> Seq<u64>
    decreases b.len(),
{
    if b.len() == 0 {
        Seq::empty()
    } else {
        concat_batches(b.drop_last()) + b.last()
    }
}

/// The end of batch `i` of ids of length `n`.
pub open spec fn batch_end(i: int, n: int) -> int {
    if 50 * i + 50 < n {
        50 * i + 50
    } else {
        n
    }
}

proof fn lemma_batches_prefix(ids: Seq<u64>, b: Seq<Seq<u64>>, k: int)
    requires
        b.len() == (ids.len() + 49) / 50,
        forall|i: int| 0 <= i < b.len() ==> #[trigger] b[i] == ids.subrange(50 * i, batch_end(i, ids.len() as int)),
        0 <= k <= b.len(),
    ensures
        concat_batches(b.take(k)) == ids.subrange(0, if 50 * k < ids.len() { 50 * k } else { ids.len() as int }),
    decreases k,
{
    let n = ids.len() as int;
    if k == 0 {
        assert(b.take(0).len() == 0);
        assert(ids.subrange(0, 0) =~= Seq::<u64>::empty());
    } else {
        lemma_batches_prefix(ids, b, k - 1);
        assert(b.take(k).drop_last() == b.take(k - 1));
        assert(b.take(k).last() == b[k - 1]);
        assert(50 * (k - 1) < n) by (nonlinear_arith)
            requires
                k - 1 < (n + 49) / 50,
                0 <= k - 1,
        ;
        assert(ids.subrange(0, 50 * (k - 1)) + ids.subrange(50 * (k - 1), batch_end(k - 1, n)) =~= ids.subrange(
            0,
            batch_end(k - 1, n),
        ));
    }
}

/// Presence batches cover the ids: put one after the other they give the
/// ids back, and each holds between one and 50 of them.
pub proof fn law_batches_cover(ids: Seq<u64>, b: Seq<Seq<u64>>)
    requires
        b.len() == (ids.len() + 49) / 50,
        forall|i: int| 0 <= i < b.len() ==> #[trigger] b[i] == ids.subrange(50 * i, batch_end(i, ids.len() as int)),
    ensures
        concat_batches(b) == ids,
        forall|i: int| 0 <= i < b.len() ==> 0 < (#[trigger] b[i]).len() <= 50,
{
    let n = ids.len() as int;
    lemma_batches_prefix(ids, b, b.len() as int);
    assert(b.take(b.len() as int) == b);
    assert(50 * b.len() >= n) by (nonlinear_arith)
        requires
            b.len() == (n + 49) / 50,
            n >= 0,
    ;
    assert(ids.subrange(0, n) == ids);
    assert forall|i: int| 0 <= i < b.len() implies 0 < (#[trigger] b[i]).len() <= 50 by {
        assert(50 * i < n) by (nonlinear_arith)
            requires
                i < (n + 49) / 50,
                0 <= i,
        ;
    }
}


/// What the store lists, it loads back: every record and every secret of a
/// store, each listed once, load into the same records and secrets.
pub proof fn law_listing_reloads(store: AccountStore, accounts: Seq<Account>, secrets: Seq<AccountSecret>)
    requires
        lists_exactly(accounts, store@),
        secrets_listed(secrets, store.secret_map()),
    ensures
        account_models(records_by_id(accounts)) == store@,
        secret_models(secrets_by_id(secrets)) == store.secret_map(),
{
    let m = store@;
    let sm = store.secret_map();
    lemma_records_by_id(accounts);
    lemma_secrets_by_id(secrets);
    assert forall|k: u128| #[trigger] m.contains_key(k) <==> has_id(accounts, k) by {
        if has_id(accounts, k) {
            let i = choose|i: int| 0 <= i < accounts.len() && #[trigger] accounts[i].id == k;
        }
    }
    assert forall|k: u128| #[trigger] m.contains_key(k) implies account_models(records_by_id(accounts))[k] == m[k] by {
        let i = choose|i: int| 0 <= i < accounts.len() && #[trigger] accounts[i].id == k;
    }
    assert(account_models(records_by_id(accounts)) =~= m);
    assert forall|k: u128| #[trigger] sm.contains_key(k) <==> secrets_by_id(secrets).contains_key(k) by {
        if secrets_by_id(secrets).contains_key(k) {
            let i = choose|i: int| 0 <= i < secrets.len() && #[trigger] secrets[i].account_id == k;
        }
    }
    assert forall|k: u128| #[trigger] sm.contains_key(k) implies secret_models(secrets_by_id(secrets))[k] == sm[k] by {
        let i = choose|i: int| 0 <= i < secrets.len() && #[trigger] secrets[i].account_id == k;
    }
    assert(secret_models(secrets_by_id(secrets)) =~= sm);
}

/// The key derived from a password depends on the password alone: the same
/// password always gives the same key.
pub proof fn law_derive_key_deterministic(password: Seq<char>, k1: Seq<u8>, k2: Seq<u8>)
    requires
        k1 == derived_key(encode_utf8(password)),
        k2 == derived_key(encode_utf8(password)),
    ensures
        k1 == k2,
{
}

/// Tracking a process that was not watched and then untracking it leaves
/// the watcher as it was.
pub proof fn law_untrack_undoes_track(
    before: Map<u32, TrackedModel>,
    watched: Map<u32, TrackedModel>,
    pid: u32,
    account_id: Seq<char>,
    place_id: u64,
)
    requires
        !before.contains_key(pid),
        tracked_now(before, watched, pid, account_id, place_id),
    ensures
        watched.remove(pid) == before,
{
    assert(watched.remove(pid) =~= before);
}

/// A `cookies` export imports back: split into lines, it yields, line by
/// line and in the export's order, the cookie of every account whose cookie
/// can be read. This holds of cookies that an import keeps as they are
/// (trimmed, not led by `.ROBLOSECURITY=`) and that hold no line break.
pub proof fn law_cookie_export_reimports(store: AccountStore, list: Seq<Account>, lines: Seq<String>)
    requires
        forall|k: int|
            0 <= k < readable_cookies(store, list).len() ==> import_cookie_of(
                #[trigger] readable_cookies(store, list)[k],
            ) == Some(readable_cookies(store, list)[k]) && !readable_cookies(store, list)[k].contains('\n'),
        lines.map_values(|l: String| l@) == split_lines(export_text_of(store, list, false)),
    ensures
        cookie_entries_of(lines) == Seq::new(
            readable_cookies(store, list).len(),
            |k: int| (k as usize, readable_cookies(store, list)[k]),
        ),
{
    let cs = readable_cookies(store, list);
    lemma_cookie_export_lines(store, list);
    lemma_split_joined(cs);
    let views = lines.map_values(|l: String| l@);
    assert(views == cs.push(Seq::<char>::empty()));
    assert(views.len() == lines.len());
    assert(lines.len() == cs.len() + 1);
    let front = lines.drop_last();
    assert(lines.last()@ == views[cs.len() as int]);
    assert(lines.last()@ =~= Seq::<char>::empty());
    lemma_trimmed_empty();
    assert(import_cookie_of(lines.last()@) is None);
    assert forall|k: int| 0 <= k < front.len() implies import_cookie_of((#[trigger] front[k])@) == Some(front[k]@) by {
        assert(front[k] == lines[k]);
        assert(views[k] == lines[k]@);
        assert(views[k] == cs[k]);
    }
    lemma_clean_entries(front);
    assert forall|k: int| 0 <= k < cs.len() implies front[k]@ == cs[k] by {
        assert(front[k] == lines[k]);
        assert(views[k] == lines[k]@);
    }
    assert(cookie_entries_of(lines) == cookie_entries_of(front));
    assert(cookie_entries_of(lines) =~= Seq::new(cs.len(), |k: int| (k as usize, cs[k])));
}

/// A `user:cookie` export imports back as `user:cookie` entries: split into
/// lines, it yields, entry by entry and in the export's order, the user name
/// and cookie of every account whose cookie can be read. This holds of names
/// and cookies without colons or line breaks whose line needs no trimming.
pub proof fn law_login_export_reimports(store: AccountStore, list: Seq<Account>, lines: Seq<String>)
    requires
        forall|k: int|
            0 <= k < readable_logins(store, list).len() ==> login_reimportable(
                #[trigger] readable_logins(store, list)[k],
            ),
        lines.map_values(|l: String| l@) == split_lines(export_text_of(store, list, true)),
    ensures
        user_pass_entries_of(lines) == Seq::new(
            readable_logins(store, list).len(),
            |k: int| (k as usize, Some(readable_logins(store, list)[k])),
        ),
{
    reveal_strlit(":");
    let ps = readable_logins(store, list);
    let f = |p: (Seq<char>, Seq<char>)| login_line(p);
    let ls = ps.map_values(f);
    lemma_login_export_lines(store, list);
    assert forall|k: int| 0 <= k < ls.len() implies !(#[trigger] ls[k]).contains('\n') by {
        let p = ps[k];
        assert(login_reimportable(p));
        assert(ls[k] =~= p.0 + ":"@ + p.1);
        if ls[k].contains('\n') {
            let j = choose|j: int| 0 <= j < ls[k].len() && ls[k][j] == '\n';
            if j < p.0.len() {
                assert(p.0[j] == '\n');
                assert(p.0.contains('\n'));
            } else if j > p.0.len() {
                assert(p.1[j - p.0.len() - 1] == '\n');
                assert(p.1.contains('\n'));
            }
        }
    }
    lemma_split_joined(ls);
    let views = lines.map_values(|l: String| l@);
    assert(views == ls.push(Seq::<char>::empty()));
    assert(views.len() == lines.len());
    let front = lines.drop_last();
    assert(lines.last()@ == views[ls.len() as int]);
    lemma_trimmed_empty();
    assert(trimmed(lines.last()@).len() == 0);
    assert forall|k: int| 0 <= k < front.len() implies trimmed((#[trigger] front[k])@) == front[k]@
        && front[k]@.len() > 0 by {
        assert(front[k] == lines[k]);
        assert(views[k] == lines[k]@);
        assert(views[k] == ls[k]);
        assert(login_reimportable(ps[k]));
        assert(ls[k] =~= ps[k].0 + ":"@ + ps[k].1);
    }
    lemma_login_entries(front);
    assert forall|k: int| 0 <= k < ps.len() implies entry_parts(front[k]@) == Some(ps[k]) by {
        assert(front[k] == lines[k]);
        assert(views[k] == lines[k]@);
        assert(login_reimportable(ps[k]));
        lemma_login_parts(ps[k].0, ps[k].1);
    }
    assert(user_pass_entries_of(lines) == user_pass_entries_of(front));
    assert(user_pass_entries_of(lines) =~= Seq::new(ps.len(), |k: int| (k as usize, Some(ps[k]))));
}

/// Changes that leave the secrets and the key alone (editing, refreshing,
/// renaming or touching an account, reordering) leave every stored cookie
/// readable as before.
pub proof fn law_metadata_edits_keep_cookies(before: AccountStore, after: AccountStore, id: u128)
    requires
        after.secret_map() == before.secret_map(),
        after.key() == before.key(),
    ensures
        after.stored_cookie(id) == before.stored_cookie(id),
{
}

} // verus!
