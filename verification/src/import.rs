use vstd::prelude::*;
use vstd::string::StringExecFns;
use vstd::utf8::encode_utf8;
use crate::api::OnlineProfile;
use crate::crypto::AES_GCM_MAX_PLAINTEXT;
use crate::error::{AppError, AppResult, error_prefix, error_detail};
use crate::models::{Account, AccountModel};
use crate::profiles::{account_from_profile, shows_profile, is_fresh};
use crate::storage::{AccountStore, account_added, unchanged, lists_exactly, sorted_by_order};
use crate::text::{
    chars_of, string_of, trim, trimmed, has_prefix, strip_repeated_prefix, trim_start_matches,
    starts_with, str_equal, opt_view, joined_lines, lemma_joined_push,
};

verus! {

/// The outcome of importing one entry.
#[derive(Debug)]
pub struct ImportResult {
    pub index: usize,
    pub success: bool,
    pub username: Option<String>,
    pub error: Option<String>,
}

/// A progress report sent after each imported entry.
#[derive(Debug)]
pub struct ImportProgress {
    pub current: usize,
    pub total: usize,
    pub result: ImportResult,
}

/// An account with its cookie, as exported to JSON.
#[derive(Debug)]
pub struct ExportedAccount {
    pub username: String,
    pub cookie: String,
    pub group: Option<String>,
    pub alias: Option<String>,
}

/// The warning Roblox puts at the front of every session cookie.
pub open spec fn warning_prefix() -> Seq<char> {
    "_|WARNING:-DO-NOT-SHARE-THIS.--Sharing-this-will-allow-someone-to-log-in-as-you.--"@
}

/// The name of the session cookie, as it may precede a pasted cookie.
pub open spec fn cookie_name_prefix() -> Seq<char> {
    ".ROBLOSECURITY="@
}

/// The message text of an error: its kind's prefix and its detail.
pub open spec fn message_of(e: AppError) -> Seq<char> {
    error_prefix(e) + error_detail(e)
}

proof fn lemma_strip_shortens(s: Seq<char>, p: Seq<char>)
    ensures
        strip_repeated_prefix(s, p).len() <= s.len(),
        p.len() > 0 && has_prefix(s, p) ==> strip_repeated_prefix(s, p).len() < s.len(),
        !(p.len() > 0 && has_prefix(s, p)) ==> strip_repeated_prefix(s, p) == s,
    decreases s.len(),
{
    if p.len() > 0 && has_prefix(s, p) {
        lemma_strip_shortens(s.subrange(p.len() as int, s.len() as int), p);
    }
}

/// The cookie a pasted line stands for: none for a blank line; a line that
/// starts with `.ROBLOSECURITY=` loses every leading copy of that name; any
/// other line is taken as it is, trimmed.
pub open spec fn import_cookie_of(line: Seq<char>) -> Option<Seq<char>> {
    let c = trimmed(line);
    if c.len() == 0 {
        None
    } else if has_prefix(c, cookie_name_prefix()) {
        Some(strip_repeated_prefix(c, cookie_name_prefix()))
    } else {
        Some(c)
    }
}

/// Cleans one pasted cookie line. The warning prefix is stripped only to see
/// whether the line had a prefix; a line that had one but does not start
/// with `.ROBLOSECURITY=` is kept whole.
pub fn clean_import_cookie(line: &str) -> (r: Option<String>)
    ensures
        opt_view(r) == import_cookie_of(line@),
{
    let cookie = trim(line);
    if cookie.as_str().unicode_len() == 0 {
        return None;
    }
    let stripped_warning = trim_start_matches(cookie.as_str(), "_|WARNING:-DO-NOT-SHARE-THIS.--Sharing-this-will-allow-someone-to-log-in-as-you.--");
    let clean = trim_start_matches(stripped_warning.as_str(), ".ROBLOSECURITY=");
    proof {
        let c = cookie@;
        reveal_strlit("_|WARNING:-DO-NOT-SHARE-THIS.--Sharing-this-will-allow-someone-to-log-in-as-you.--");
        reveal_strlit(".ROBLOSECURITY=");
        lemma_strip_shortens(c, warning_prefix());
        lemma_strip_shortens(stripped_warning@, cookie_name_prefix());
        if has_prefix(c, cookie_name_prefix()) {
            assert(c.subrange(0, cookie_name_prefix().len() as int)[0] == '.');
            assert(c[0] == '.');
            if has_prefix(c, warning_prefix()) {
                assert(c.subrange(0, warning_prefix().len() as int)[0] == '_');
            }
            assert(stripped_warning@ == c);
        }
    }
    if str_equal(clean.as_str(), cookie.as_str()) {
        Some(cookie)
    } else if starts_with(cookie.as_str(), ".ROBLOSECURITY=") {
        Some(trim_start_matches(cookie.as_str(), ".ROBLOSECURITY="))
    } else {
        Some(cookie)
    }
}

/// The cookies to check from pasted lines: for each non-blank line, its
/// position and its cleaned cookie, in order.
pub open spec fn cookie_entries_of(lines: Seq<String>) -> Seq<(usize, Seq<char>)>
    decreases lines.len(),
{
    if lines.len() == 0 {
        Seq::empty()
    } else {
        let before = cookie_entries_of(lines.drop_last());
        match import_cookie_of(lines.last()@) {
            Some(c) => before.push(((lines.len() - 1) as usize, c)),
            None => before,
        }
    }
}

/// Positions and cookies as characters.
pub open spec fn entries_view(v: Seq<(usize, String)>) -> Seq<(usize, Seq<char>)> {
    v.map_values(|e: (usize, String)| (e.0, e.1@))
}

/// Picks the cookies to check out of pasted lines.
pub fn import_cookie_entries(lines: &Vec<String>) -> (r: Vec<(usize, String)>)
    ensures
        entries_view(r@) == cookie_entries_of(lines@),
{
    let mut r: Vec<(usize, String)> = Vec::new();
    let mut i: usize = 0;
    while i < lines.len()
        invariant
            i <= lines@.len(),
            entries_view(r@) == cookie_entries_of(lines@.take(i as int)),
        decreases lines@.len() - i,
    {
        let ghost before = r@;
        assert(lines@.take(i + 1).drop_last() == lines@.take(i as int));
        match clean_import_cookie(lines[i].as_str()) {
            Some(c) => {
                r.push((i, c));
                assert(entries_view(r@) =~= entries_view(before).push((i, r@.last().1@)));
            },
            None => {},
        }
        i += 1;
    }
    assert(lines@.take(lines@.len() as int) == lines@);
    r
}

/// The number of lines that are not blank.
pub open spec fn non_blank_count(lines: Seq<String>) -> nat
    decreases lines.len(),
{
    if lines.len() == 0 {
        0
    } else {
        non_blank_count(lines.drop_last()) + if trimmed(lines.last()@).len() > 0 {
            1nat
        } else {
            0nat
        }
    }
}

/// Counts the lines that are not blank (the total a progress report gives).
pub fn non_blank_lines(lines: &Vec<String>) -> (n: usize)
    ensures
        n == non_blank_count(lines@),
{
    let mut n: usize = 0;
    let mut i: usize = 0;
    while i < lines.len()
        invariant
            i <= lines@.len(),
            n == non_blank_count(lines@.take(i as int)),
            n <= i,
        decreases lines@.len() - i,
    {
        assert(lines@.take(i + 1).drop_last() == lines@.take(i as int));
        let t = trim(lines[i].as_str());
        if t.as_str().unicode_len() > 0 {
            n += 1;
        }
        i += 1;
    }
    assert(lines@.take(lines@.len() as int) == lines@);
    n
}

/// `i` is the first position of `c` in `s`.
pub open spec fn is_first(s: Seq<char>, c: char, i: int) -> bool {
    &&& 0 <= i < s.len()
    &&& s[i] == c
    &&& forall|j: int| 0 <= j < i ==> s[j] != c
}

/// The first position of `c` in `v` at or after `from`.
fn find_char(v: &[char], c: char, from: usize) -> (r: Option<usize>)
    requires
        from <= v@.len(),
    ensures
        match r {
            Some(i) => from <= i < v@.len() && v@[i as int] == c && forall|j: int|
                from <= j < i ==> v@[j] != c,
            None => forall|j: int| from <= j < v@.len() ==> v@[j] != c,
        },
{
    let mut i = from;
    while i < v.len()
        invariant
            from <= i <= v@.len(),
            forall|j: int| from <= j < i ==> v@[j] != c,
        decreases v@.len() - i,
    {
        if v[i] == c {
            return Some(i);
        }
        i += 1;
    }
    None
}

/// The user name and cookie of a `user:pass:cookie` or `user:cookie` entry
/// (what `splitn(3, ':')` yields): none when the entry has no colon; the
/// user is the text before the first colon, and the cookie what follows the
/// second colon, or the first when there is only one.
pub open spec fn entry_parts(e: Seq<char>) -> Option<(Seq<char>, Seq<char>)> {
    if !e.contains(':') {
        None
    } else {
        let i = choose|i: int| is_first(e, ':', i);
        let rest = e.subrange(i + 1, e.len() as int);
        if !rest.contains(':') {
            Some((e.subrange(0, i), rest))
        } else {
            let j = choose|j: int| is_first(rest, ':', j);
            Some((e.subrange(0, i), rest.subrange(j + 1, rest.len() as int)))
        }
    }
}

proof fn lemma_first_unique(s: Seq<char>, c: char, i: int)
    requires
        is_first(s, c, i),
    ensures
        s.contains(c),
        (choose|k: int| is_first(s, c, k)) == i,
{
    assert(s[i] == c);
    let k = choose|k: int| is_first(s, c, k);
    assert(is_first(s, c, k));
    if k < i {
        assert(s[k] != c);
    }
    if k > i {
        assert(s[i] != c);
    }
}

/// Splits an entry into user name and cookie.
pub fn split_entry(entry: &str) -> (r: Option<(String, String)>)
    ensures
        match r {
            Some(p) => entry_parts(entry@) == Some((p.0@, p.1@)),
            None => entry_parts(entry@) is None,
        },
{
    let v = chars_of(entry);
    let n = v.len();
    let ghost e = entry@;
    match find_char(v.as_slice(), ':', 0) {
        None => {
            assert(!e.contains(':'));
            None
        },
        Some(i) => {
            proof {
                lemma_first_unique(e, ':', i as int);
            }
            let ghost rest = e.subrange(i + 1, e.len() as int);
            let user = string_of(v.as_slice(), 0, i);
            match find_char(v.as_slice(), ':', i + 1) {
                None => {
                    assert(!rest.contains(':')) by {
                        if rest.contains(':') {
                            let k = choose|k: int| 0 <= k < rest.len() && rest[k] == ':';
                            assert(v@[i + 1 + k] == ':');
                        }
                    }
                    let cookie = string_of(v.as_slice(), i + 1, v.len());
                    Some((user, cookie))
                },
                Some(j) => {
                    proof {
                        assert(is_first(rest, ':', j - i - 1));
                        lemma_first_unique(rest, ':', j - i - 1);
                        assert(rest.subrange(j - i, rest.len() as int) == e.subrange(j + 1, e.len() as int));
                    }
                    let cookie = string_of(v.as_slice(), j + 1, v.len());
                    Some((user, cookie))
                },
            }
        },
    }
}

/// One non-blank `user:pass:cookie` line: its position and, when it splits,
/// its user name and cookie.
#[derive(Debug)]
pub struct UserPassEntry {
    pub index: usize,
    pub parts: Option<(String, String)>,
}

/// The entries of `user:pass:cookie` lines: each non-blank line, trimmed and
/// split, with its position, in order.
pub open spec fn user_pass_entries_of(lines: Seq<String>) -> Seq<(usize, Option<(Seq<char>, Seq<char>)>)>
    decreases lines.len(),
{
    if lines.len() == 0 {
        Seq::empty()
    } else {
        let before = user_pass_entries_of(lines.drop_last());
        let t = trimmed(lines.last()@);
        if t.len() == 0 {
            before
        } else {
            before.push(((lines.len() - 1) as usize, entry_parts(t)))
        }
    }
}

/// The parts of an entry as characters.
pub open spec fn parts_view(p: Option<(String, String)>) -> Option<(Seq<char>, Seq<char>)> {
    match p {
        Some(q) => Some((q.0@, q.1@)),
        None => None,
    }
}

/// User-pass entries as characters.
pub open spec fn user_pass_view(v: Seq<UserPassEntry>) -> Seq<(usize, Option<(Seq<char>, Seq<char>)>)> {
    v.map_values(|e: UserPassEntry| (e.index, parts_view(e.parts)))
}

/// Splits the non-blank lines of a `user:pass:cookie` import.
pub fn user_pass_entries(lines: &Vec<String>) -> (r: Vec<UserPassEntry>)
    ensures
        user_pass_view(r@) == user_pass_entries_of(lines@),
{
    let mut r: Vec<UserPassEntry> = Vec::new();
    let mut i: usize = 0;
    while i < lines.len()
        invariant
            i <= lines@.len(),
            user_pass_view(r@) == user_pass_entries_of(lines@.take(i as int)),
        decreases lines@.len() - i,
    {
        let ghost before = r@;
        assert(lines@.take(i + 1).drop_last() == lines@.take(i as int));
        let t = trim(lines[i].as_str());
        if t.as_str().unicode_len() > 0 {
            let parts = split_entry(t.as_str());
            r.push(UserPassEntry { index: i, parts });
            assert(parts_view(r@.last().parts) == entry_parts(t@));
            assert(user_pass_view(r@) =~= user_pass_view(before).push((i, entry_parts(t@))));
        }
        i += 1;
    }
    assert(lines@.take(lines@.len() as int) == lines@);
    r
}

/// The result for an entry whose format is not understood.
pub fn malformed_entry_result(index: usize) -> (r: ImportResult)
    ensures
        r.index == index,
        !r.success,
        r.username is None,
        opt_view(r.error) == Some("Invalid format. Expected user:pass:cookie or user:cookie"@),
{
    ImportResult {
        index,
        success: false,
        username: None,
        error: Some(String::from_str("Invalid format. Expected user:pass:cookie or user:cookie")),
    }
}

/// What importing one checked cookie did: a failed check leaves the store
/// as it was and reports the check's error under the fallback name; a
/// passed one names the user and adds a new account for the profile in the
/// group, unless storing the cookie fails.
pub open spec fn import_done(
    old: AccountStore,
    new: AccountStore,
    r: ImportResult,
    index: usize,
    outcome: Result<OnlineProfile, AppError>,
    group: Option<String>,
    cookie: Seq<char>,
    fallback: Option<String>,
) -> bool {
    &&& r.index == index
    &&& new.wf()
    &&& match outcome {
        Err(e) => {
            &&& !r.success
            &&& opt_view(r.username) == opt_view(fallback)
            &&& opt_view(r.error) == Some(message_of(e))
            &&& unchanged(old, new)
        },
        Ok(p) => {
            &&& opt_view(r.username) == Some(p.user.name@)
            &&& (r.success <==> encode_utf8(cookie).len() <= AES_GCM_MAX_PLAINTEXT)
            &&& r.success ==> r.error is None && exists|a: AccountModel|
                shows_profile(a, p) && is_fresh(a) && a.group == opt_view(group) && a.alias is None
                    && a.description is None && #[trigger] account_added(old, new, a, cookie)
            &&& !r.success ==> unchanged(old, new) && exists|e: AppError|
                e is Encryption && #[trigger] message_of(e) == r.error->0@ && r.error is Some
        },
    }
}

/// Finishes importing one cookie once it has been checked against the API
/// (`outcome`): adds the new account, or records why it could not be.
pub fn finish_import(
    store: &mut AccountStore,
    index: usize,
    outcome: Result<OnlineProfile, AppError>,
    group: Option<String>,
    cookie: &str,
    fallback: Option<String>,
) -> (r: ImportResult)
    requires
        old(store).wf(),
    ensures
        import_done(*old(store), *final(store), r, index, outcome, group, cookie@, fallback),
{
    match outcome {
        Err(e) => ImportResult { index, success: false, username: fallback, error: Some(e.message()) },
        Ok(profile) => {
            let account = account_from_profile(profile, group);
            let ghost a = account@;
            let username = account.username.clone();
            match store.add_account(account, cookie) {
                Ok(()) => {
                    assert(account_added(*old(store), *store, a, cookie@));
                    ImportResult { index, success: true, username: Some(username), error: None }
                },
                Err(e) => {
                    let m = e.message();
                    assert(message_of(e) == m@);
                    ImportResult { index, success: false, username: Some(username), error: Some(m) }
                },
            }
        },
    }
}

/// What an export gives: text, or the accounts to write as JSON.
#[derive(Debug)]
pub enum Export {
    Text(String),
    Json(Vec<ExportedAccount>),
}

/// The line an account contributes to a text export: its cookie, or in
/// `user:cookie` format its user name, a colon and its cookie.
pub open spec fn export_line(with_user: bool, username: Seq<char>, cookie: Seq<char>) -> Seq<char> {
    if with_user {
        username + ":"@ + cookie + "\n"@
    } else {
        cookie + "\n"@
    }
}

/// The text export of the accounts in `list`, skipping those whose cookie
/// cannot be read.
pub open spec fn export_text_of(s: AccountStore, list: Seq<Account>, with_user: bool) -> Seq<char>
    decreases list.len(),
{
    if list.len() == 0 {
        Seq::empty()
    } else {
        let before = export_text_of(s, list.drop_last(), with_user);
        match s.stored_cookie(list.last().id) {
            Some(c) => before + export_line(with_user, list.last().username@, c),
            None => before,
        }
    }
}

/// The cookies of the accounts in `list` that can be read, in order.
pub open spec fn readable_cookies(s: AccountStore, list: Seq<Account>) -> Seq<Seq<char>>
    decreases list.len(),
{
    if list.len() == 0 {
        Seq::empty()
    } else {
        let before = readable_cookies(s, list.drop_last());
        match s.stored_cookie(list.last().id) {
            Some(c) => before.push(c),
            None => before,
        }
    }
}

/// A `cookies` export is the readable cookies, one per line.
pub proof fn lemma_cookie_export_lines(s: AccountStore, list: Seq<Account>)
    ensures
        export_text_of(s, list, false) == joined_lines(readable_cookies(s, list)),
    decreases list.len(),
{
    if list.len() > 0 {
        lemma_cookie_export_lines(s, list.drop_last());
        match s.stored_cookie(list.last().id) {
            Some(c) => {
                lemma_joined_push(readable_cookies(s, list.drop_last()), c);
                assert(export_text_of(s, list, false) =~= joined_lines(readable_cookies(s, list)));
            },
            None => {},
        }
    }
}

/// Importing lines that are cookies an import keeps as they are yields
/// each of them, with its position.
pub proof fn lemma_clean_entries(lines: Seq<String>)
    requires
        forall|k: int| 0 <= k < lines.len() ==> import_cookie_of((#[trigger] lines[k])@) == Some(lines[k]@),
    ensures
        cookie_entries_of(lines) == Seq::new(lines.len(), |k: int| (k as usize, lines[k]@)),
    decreases lines.len(),
{
    if lines.len() > 0 {
        let p = lines.drop_last();
        assert forall|k: int| 0 <= k < p.len() implies import_cookie_of((#[trigger] p[k])@) == Some(p[k]@) by {
            assert(p[k] == lines[k]);
        }
        lemma_clean_entries(p);
        assert(import_cookie_of(lines[lines.len() - 1]@) == Some(lines[lines.len() - 1]@));
        assert(cookie_entries_of(lines) =~= Seq::new(lines.len(), |k: int| (k as usize, lines[k]@)));
    }
}

/// The user names and cookies of the accounts in `list` whose cookie can
/// be read, in order.
pub open spec fn readable_logins(s: AccountStore, list: Seq<Account>) -> Seq<(Seq<char>, Seq<char>)>
    decreases list.len(),
{
    if list.len() == 0 {
        Seq::empty()
    } else {
        let before = readable_logins(s, list.drop_last());
        match s.stored_cookie(list.last().id) {
            Some(c) => before.push((list.last().username@, c)),
            None => before,
        }
    }
}

/// A user name and a cookie as one `user:cookie` line.
pub open spec fn login_line(p: (Seq<char>, Seq<char>)) -> Seq<char> {
    p.0 + ":"@ + p.1
}

/// A user name and cookie that a `user:cookie` line carries back unchanged:
/// neither holds a colon or a line break, and the line needs no trimming.
pub open spec fn login_reimportable(p: (Seq<char>, Seq<char>)) -> bool {
    &&& !p.0.contains(':')
    &&& !p.1.contains(':')
    &&& !p.0.contains('\n')
    &&& !p.1.contains('\n')
    &&& trimmed(login_line(p)) == login_line(p)
}

/// A `user:cookie` export is the readable logins, one per line.
pub proof fn lemma_login_export_lines(s: AccountStore, list: Seq<Account>)
    ensures
        export_text_of(s, list, true) == joined_lines(readable_logins(s, list).map_values(|p: (Seq<char>, Seq<char>)| login_line(p))),
    decreases list.len(),
{
    if list.len() > 0 {
        let prev = readable_logins(s, list.drop_last());
        lemma_login_export_lines(s, list.drop_last());
        match s.stored_cookie(list.last().id) {
            Some(c) => {
                let p = (list.last().username@, c);
                let f = |q: (Seq<char>, Seq<char>)| login_line(q);
                assert(prev.push(p).map_values(f) =~= prev.map_values(f).push(login_line(p)));
                lemma_joined_push(prev.map_values(f), login_line(p));
                assert(export_text_of(s, list, true) =~= joined_lines(readable_logins(s, list).map_values(f)));
            },
            None => {},
        }
    }
}

/// A `user:cookie` line whose parts hold no colon splits back into them.
pub proof fn lemma_login_parts(u: Seq<char>, c: Seq<char>)
    requires
        !u.contains(':'),
        !c.contains(':'),
    ensures
        entry_parts(login_line((u, c))) == Some((u, c)),
{
    reveal_strlit(":");
    let e = login_line((u, c));
    assert(e =~= u + ":"@ + c);
    assert(e[u.len() as int] == ':');
    assert forall|j: int| 0 <= j < u.len() implies e[j] != ':' by {
        assert(e[j] == u[j]);
        if u[j] == ':' {
            assert(u.contains(':'));
        }
    }
    assert(is_first(e, ':', u.len() as int));
    lemma_first_unique(e, ':', u.len() as int);
    assert(e.subrange((u.len() + 1) as int, e.len() as int) =~= c);
    assert(e.subrange(0, u.len() as int) =~= u);
}

/// Splitting lines that are `user:cookie` entries (trimmed, nothing blank)
/// yields each entry's parts, with its position.
pub proof fn lemma_login_entries(lines: Seq<String>)
    requires
        forall|k: int| 0 <= k < lines.len() ==> trimmed((#[trigger] lines[k])@) == lines[k]@ && lines[k]@.len() > 0,
    ensures
        user_pass_entries_of(lines) == Seq::new(lines.len(), |k: int| (k as usize, entry_parts(lines[k]@))),
    decreases lines.len(),
{
    if lines.len() > 0 {
        let p = lines.drop_last();
        assert forall|k: int| 0 <= k < p.len() implies trimmed((#[trigger] p[k])@) == p[k]@ && p[k]@.len() > 0 by {
            assert(p[k] == lines[k]);
        }
        lemma_login_entries(p);
        assert(trimmed(lines[lines.len() - 1]@) == lines[lines.len() - 1]@);
        assert(user_pass_entries_of(lines) =~= Seq::new(lines.len(), |k: int| (k as usize, entry_parts(lines[k]@))));
    }
}

/// The JSON export entries of the accounts in `list` whose cookie can be read.
pub open spec fn export_records_of(s: AccountStore, list: Seq<Account>) -> Seq<(Seq<char>, Seq<char>, Option<Seq<char>>, Option<Seq<char>>)>
    decreases list.len(),
{
    if list.len() == 0 {
        Seq::empty()
    } else {
        let before = export_records_of(s, list.drop_last());
        let a = list.last();
        match s.stored_cookie(a.id) {
            Some(c) => before.push((a.username@, c, opt_view(a.group), opt_view(a.alias))),
            None => before,
        }
    }
}

/// Exported accounts as characters.
pub open spec fn exported_view(v: Seq<ExportedAccount>) -> Seq<(Seq<char>, Seq<char>, Option<Seq<char>>, Option<Seq<char>>)> {
    v.map_values(|e: ExportedAccount| (e.username@, e.cookie@, opt_view(e.group), opt_view(e.alias)))
}

/// Exports all accounts with their cookies, in sort order: `cookies` gives
/// one cookie per line, `user:cookie` one `user:cookie` per line, `json` the
/// records to serialize; accounts whose cookie cannot be read are skipped.
/// Any other format is an error.
pub fn export_accounts(store: &AccountStore, format: &str) -> (r: AppResult<Export>)
    requires
        store.wf(),
        format@ == "cookies"@ || format@ == "user:cookie"@ || format@ == "json"@ ==> store.record_nonces_ok(),
    ensures
        format@ == "cookies"@ ==> (r matches Ok(Export::Text(t)) && exists|l: Seq<Account>|
            lists_exactly(l, store@) && sorted_by_order(l) && t@ == export_text_of(*store, l, false)),
        format@ == "user:cookie"@ ==> (r matches Ok(Export::Text(t)) && exists|l: Seq<Account>|
            lists_exactly(l, store@) && sorted_by_order(l) && t@ == export_text_of(*store, l, true)),
        format@ == "json"@ ==> (r matches Ok(Export::Json(v)) && exists|l: Seq<Account>|
            lists_exactly(l, store@) && sorted_by_order(l) && exported_view(v@) == export_records_of(*store, l)),
        format@ != "cookies"@ && format@ != "user:cookie"@ && format@ != "json"@ ==> (r matches Err(
            AppError::Other(t),
        ) && t@ == "Unknown export format: "@ + format@
            + ". Use 'cookies', 'user:cookie', or 'json'"@),
{
    proof {
        reveal_strlit("cookies");
        reveal_strlit("user:cookie");
        reveal_strlit("json");
        assert("cookies"@ != "json"@ && "cookies"@ != "user:cookie"@ && "json"@ != "user:cookie"@) by {
            assert("cookies"@[0] != "json"@[0]);
            assert("cookies"@[0] != "user:cookie"@[0]);
            assert("json"@[0] != "user:cookie"@[0]);
        }
    }
    let accounts = store.list_accounts();
    let is_cookies = str_equal(format, "cookies");
    let is_user = str_equal(format, "user:cookie");
    let is_json = str_equal(format, "json");
    if !is_cookies && !is_user && !is_json {
        let mut t = String::from_str("Unknown export format: ");
        t.append(format);
        t.append(". Use 'cookies', 'user:cookie', or 'json'");
        return Err(AppError::Other(t));
    }
    if is_json {
        let mut out: Vec<ExportedAccount> = Vec::new();
        let mut i: usize = 0;
        while i < accounts.len()
            invariant
                i <= accounts@.len(),
                store.wf(),
                store.record_nonces_ok(),
                lists_exactly(accounts@, store@),
                exported_view(out@) == export_records_of(*store, accounts@.take(i as int)),
            decreases accounts@.len() - i,
        {
            let ghost before = out@;
            assert(accounts@.take(i + 1).drop_last() == accounts@.take(i as int));
            let a = &accounts[i];
            assert(store@.contains_key(a.id));
            assert(store@.contains_key(a.id));
        assert(store.nonce_ok(a.id));
            let read = store.get_cookie(&a.id);
            match read {
                Ok(cookie) => {
                    out.push(ExportedAccount {
                        username: a.username.clone(),
                        cookie,
                        group: crate::text::copy_opt_string(&a.group),
                        alias: crate::text::copy_opt_string(&a.alias),
                    });
                    assert(exported_view(out@) =~= exported_view(before).push(
                        (a.username@, out@.last().cookie@, opt_view(a.group), opt_view(a.alias)),
                    ));
                },
                Err(_) => {},
            }
            i += 1;
        }
        assert(accounts@.take(accounts@.len() as int) == accounts@);
        return Ok(Export::Json(out));
    }
    let mut output = String::new();
    let mut i: usize = 0;
    while i < accounts.len()
        invariant
            i <= accounts@.len(),
            store.wf(),
            store.record_nonces_ok(),
            lists_exactly(accounts@, store@),
            output@ == export_text_of(*store, accounts@.take(i as int), is_user),
        decreases accounts@.len() - i,
    {
        assert(accounts@.take(i + 1).drop_last() == accounts@.take(i as int));
        let a = &accounts[i];
        assert(store@.contains_key(a.id));
        assert(store.nonce_ok(a.id));
        let read = store.get_cookie(&a.id);
        match read {
            Ok(cookie) => {
                if is_user {
                    output.append(a.username.as_str());
                    output.append(":");
                }
                output.append(cookie.as_str());
                output.append("\n");
            },
            Err(_) => {},
        }
        i += 1;
    }
    assert(accounts@.take(accounts@.len() as int) == accounts@);
    Ok(Export::Text(output))
}

/// The step of a batch import: what importing entry `k` did, from the store
/// before it to the store after it.
pub open spec fn stores_chain(stores: Seq<AccountStore>, old: AccountStore, new: AccountStore, n: int) -> bool {
    &&& stores.len() == n + 1
    &&& stores[0] == old
    &&& stores[n] == new
}

/// Imports checked cookies, one per non-blank pasted line, in order:
/// `outcomes` holds what the API said of the cookie of each such line (as
/// `import_cookie_entries` picks and cleans them). Each entry goes through
/// `finish_import` with its position and cleaned cookie, in `group`, one
/// after the other: a refused cookie leaves the store as it was, an
/// accepted one adds a new account for its user with that cookie.
pub fn import_cookies(
    store: &mut AccountStore,
    lines: &Vec<String>,
    outcomes: Vec<Result<OnlineProfile, AppError>>,
    group: &Option<String>,
) -> (r: Vec<ImportResult>)
    requires
        old(store).wf(),
        outcomes@.len() == cookie_entries_of(lines@).len(),
    ensures
        final(store).wf(),
        final(store).key() == old(store).key(),
        r@.len() == cookie_entries_of(lines@).len(),
        exists|stores: Seq<AccountStore>|
            #![trigger stores_chain(stores, *old(store), *final(store), r@.len() as int)]
            stores_chain(stores, *old(store), *final(store), r@.len() as int) && forall|i: int|
                0 <= i < r@.len() ==> import_done(
                    stores[i],
                    #[trigger] stores[i + 1],
                    r@[i],
                    cookie_entries_of(lines@)[i].0,
                    outcomes@[i],
                    *group,
                    cookie_entries_of(lines@)[i].1,
                    None,
                ),
{
    let entries = import_cookie_entries(lines);
    let ghost outs = outcomes@;
    let ghost es = cookie_entries_of(lines@);
    let ghost mut stores: Seq<AccountStore> = seq![*store];
    let mut results: Vec<ImportResult> = Vec::new();
    let mut i: usize = 0;
    let n = entries.len();
    assert(entries@.len() == es.len());
    for outcome in it: outcomes
        invariant
            n == entries@.len(),
            entries_view(entries@) == es,
            es == cookie_entries_of(lines@),
            outs == it.seq(),
            i == it.index(),
            outs.len() == es.len(),
            store.wf(),
            store.key() == old(store).key(),
            results@.len() == i,
            stores_chain(stores, *old(store), *store, i as int),
            forall|k: int|
                0 <= k < i ==> import_done(
                    stores[k],
                    #[trigger] stores[k + 1],
                    results@[k],
                    es[k].0,
                    outs[k],
                    *group,
                    es[k].1,
                    None,
                ),
    {
        let ghost before = results@;
        let ghost pre = stores;
        let (index, cookie) = (entries[i].0, &entries[i].1);
        assert(es[i as int] == (index, cookie@));
        let g = crate::text::copy_opt_string(group);
        let r = finish_import(store, index, outcome, g, cookie.as_str(), None);
        proof {
            stores = pre.push(*store);
            assert forall|k: int| 0 <= k < i + 1 implies import_done(
                stores[k],
                #[trigger] stores[k + 1],
                before.push(r)[k],
                es[k].0,
                outs[k],
                *group,
                es[k].1,
                None,
            ) by {
                if k < i {
                    assert(stores[k] == pre[k] && stores[k + 1] == pre[k + 1]);
                    assert(before.push(r)[k] == before[k]);
                } else {
                    assert(stores[k] == pre[i as int]);
                }
            }
        }
        results.push(r);
        assert(results@ == before.push(r));
        i += 1;
    }
    results
}

/// Imports `user:pass:cookie` lines, in order: `outcomes` holds, for each
/// non-blank line (as `user_pass_entries` splits them), what the API said of
/// its cookie, or nothing. A line that did not split is reported as
/// malformed, and an entry without an outcome as failed; both leave the
/// store as it was. Every other entry goes through `finish_import` with its
/// cookie, in `group`, its failures reported under the entry's user name.
pub fn import_user_pass_cookie(
    store: &mut AccountStore,
    lines: &Vec<String>,
    outcomes: Vec<Option<Result<OnlineProfile, AppError>>>,
    group: &Option<String>,
) -> (r: Vec<ImportResult>)
    requires
        old(store).wf(),
        outcomes@.len() == user_pass_entries_of(lines@).len(),
    ensures
        final(store).wf(),
        final(store).key() == old(store).key(),
        r@.len() == user_pass_entries_of(lines@).len(),
        exists|stores: Seq<AccountStore>|
            #![trigger stores_chain(stores, *old(store), *final(store), r@.len() as int)]
            stores_chain(stores, *old(store), *final(store), r@.len() as int) && forall|i: int|
                0 <= i < r@.len() ==> user_pass_done(
                    stores[i],
                    #[trigger] stores[i + 1],
                    r@[i],
                    user_pass_entries_of(lines@)[i],
                    outcomes@[i],
                    *group,
                ),
{
    let entries = user_pass_entries(lines);
    let ghost outs = outcomes@;
    let ghost es = user_pass_entries_of(lines@);
    let ghost mut stores: Seq<AccountStore> = seq![*store];
    let mut results: Vec<ImportResult> = Vec::new();
    let mut i: usize = 0;
    let n = entries.len();
    assert(entries@.len() == es.len());
    for outcome in it: outcomes
        invariant
            n == entries@.len(),
            user_pass_view(entries@) == es,
            outs == it.seq(),
            i == it.index(),
            outs.len() == es.len(),
            store.wf(),
            store.key() == old(store).key(),
            results@.len() == i,
            stores_chain(stores, *old(store), *store, i as int),
            forall|k: int|
                0 <= k < i ==> user_pass_done(stores[k], #[trigger] stores[k + 1], results@[k], es[k], outs[k], *group),
    {
        let ghost before = results@;
        let ghost pre = stores;
        let entry = &entries[i];
        assert(es[i as int] == (entry.index, parts_view(entry.parts)));
        let ghost store_before = *store;
        let r = match &entry.parts {
            None => {
                let r = malformed_entry_result(entry.index);
                assert(user_pass_done(store_before, *store, r, es[i as int], outs[i as int], *group));
                r
            },
            Some(parts) => match outcome {
                Some(o) => {
                    let g = crate::text::copy_opt_string(group);
                    let user = crate::text::copy_opt_string(&Some(parts.0.clone())).unwrap();
                    let ghost u = user;
                    let ghost og = o;
                    let r = finish_import(store, entry.index, o, g, parts.1.as_str(), Some(user));
                    assert(import_done(store_before, *store, r, entry.index, og, *group, parts.1@, Some(u)));
                    assert(outs[i as int] == Some(og));
                    assert(es[i as int].1 == Some((parts.0@, parts.1@)));
                    assert(u@ == parts.0@);
                    let ghost pp = es[i as int].1->Some_0;
                    assert(pp.1 == parts.1@ && pp.0 == parts.0@);
                    assert(es[i as int].0 == entry.index);
                    assert(import_done(store_before, *store, r, es[i as int].0, og, *group, pp.1, Some(u)));
                    assert(user_pass_done(store_before, *store, r, es[i as int], outs[i as int], *group));
                    r
                },
                None => {
                    let r = ImportResult {
                        index: entry.index,
                        success: false,
                        username: Some(parts.0.clone()),
                        error: None,
                    };
                    assert(user_pass_done(store_before, *store, r, es[i as int], outs[i as int], *group));
                    r
                },
            },
        };
        proof {
            stores = pre.push(*store);
            assert(user_pass_done(store_before, *store, r, es[i as int], outs[i as int], *group));
            assert forall|k: int| 0 <= k < i + 1 implies user_pass_done(
                stores[k],
                #[trigger] stores[k + 1],
                before.push(r)[k],
                es[k],
                outs[k],
                *group,
            ) by {
                if k < i {
                    assert(stores[k] == pre[k] && stores[k + 1] == pre[k + 1]);
                    assert(before.push(r)[k] == before[k]);
                } else {
                    assert(stores[k] == pre[i as int]);
                }
            }
        }
        results.push(r);
        assert(results@ == before.push(r));
        i += 1;
    }
    results
}

/// What importing one `user:pass:cookie` entry did: a line that did not
/// split is reported as malformed, an entry without an outcome as failed,
/// and both leave the store as it was; any other entry is imported as
/// `finish_import` does with its cookie, under its user name.
pub open spec fn user_pass_done(
    old: AccountStore,
    new: AccountStore,
    r: ImportResult,
    entry: (usize, Option<(Seq<char>, Seq<char>)>),
    outcome: Option<Result<OnlineProfile, AppError>>,
    group: Option<String>,
) -> bool {
    &&& r.index == entry.0
    &&& new.wf()
    &&& match entry.1 {
        None => !r.success && r.username is None && opt_view(r.error) == Some(
            "Invalid format. Expected user:pass:cookie or user:cookie"@,
        ) && unchanged(old, new),
        Some(p) => match outcome {
            None => !r.success && opt_view(r.username) == Some(p.0) && r.error is None && unchanged(old, new),
            Some(o) => exists|user: String|
                #![trigger import_done(old, new, r, entry.0, o, group, p.1, Some(user))]
                user@ == p.0 && import_done(old, new, r, entry.0, o, group, p.1, Some(user)),
        },
    }
}

} // verus!
