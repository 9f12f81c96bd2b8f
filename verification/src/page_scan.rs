use vstd::prelude::*;
use vstd::string::StringExecFns;
use crate::api::{is_success, status_display, status_display_of};
use crate::error::{AppError, AppResult};
use crate::format::{decimal, push_decimal};
use crate::text::{chars_of, string_of, occurs_at, matches_at};

verus! {

/// A character of an access code: a hexadecimal digit (either case) or `-`.
pub open spec fn is_code_char(c: char) -> bool {
    ('0' <= c && c <= '9') || ('a' <= c && c <= 'f') || ('A' <= c && c <= 'F') || c == '-'
}

/// A space as the page patterns count them: tab, line feed, vertical tab,
/// form feed, carriage return or space.
pub open spec fn is_pattern_space(c: char) -> bool {
    c == '\t' || c == '\n' || c == '\x0B' || c == '\x0C' || c == '\r' || c == ' '
}

/// A decimal digit.
pub open spec fn is_dec_digit(c: char) -> bool {
    '0' <= c && c <= '9'
}

/// How many spaces follow position `i` of `s` (from `i` on).
pub open spec fn space_run(s: Seq<char>, i: int) -> nat
    decreases s.len() - i,
{
    if 0 <= i < s.len() && is_pattern_space(s[i]) {
        1 + space_run(s, i + 1)
    } else {
        0
    }
}

/// How many decimal digits follow position `i` of `s` (from `i` on).
pub open spec fn digit_run(s: Seq<char>, i: int) -> nat
    decreases s.len() - i,
{
    if 0 <= i < s.len() && is_dec_digit(s[i]) {
        1 + digit_run(s, i + 1)
    } else {
        0
    }
}

/// The 36 characters from `i` on are access-code characters.
pub open spec fn code_at(s: Seq<char>, i: int) -> bool {
    &&& 0 <= i
    &&& i + 36 <= s.len()
    &&& forall|k: int| i <= k < i + 36 ==> is_code_char(#[trigger] s[k])
}

/// The call that starts a private game in a game page.
pub open spec fn launcher_call() -> Seq<char> {
    "Roblox.GameLauncher.joinPrivateGame("@
}

/// The key of an access code in the JSON embedded in a game page.
pub open spec fn access_code_key() -> Seq<char> {
    "\"accessCode\""@
}

/// Where the code starts when `s` holds, at `at`, the launcher call with a
/// place id (one or more digits), a comma, spaces and the access code in
/// single quotes: `joinPrivateGame(<digits>,<spaces>'<code>'`.
pub open spec fn launcher_code_at(s: Seq<char>, at: int) -> Option<int> {
    if !occurs_at(s, launcher_call(), at) {
        None
    } else {
        let a = at + launcher_call().len();
        let k = digit_run(s, a);
        if k == 0 || !(a + k < s.len() && s[a + k] == ',') {
            None
        } else {
            let q = a + k + 1 + space_run(s, a + k + 1);
            if q < s.len() && s[q] == '\'' && code_at(s, q + 1) && q + 37 < s.len() && s[q + 37]
                == '\'' {
                Some(q + 1)
            } else {
                None
            }
        }
    }
}

/// Where the code starts when `s` holds, at `at`, the JSON key with spaces,
/// a colon, spaces and the access code in double quotes:
/// `"accessCode"<spaces>:<spaces>"<code>"`.
pub open spec fn json_code_at(s: Seq<char>, at: int) -> Option<int> {
    if !occurs_at(s, access_code_key(), at) {
        None
    } else {
        let b = at + access_code_key().len();
        let c = b + space_run(s, b);
        if !(c < s.len() && s[c] == ':') {
            None
        } else {
            let q = c + 1 + space_run(s, c + 1);
            if q < s.len() && s[q] == '"' && code_at(s, q + 1) && q + 37 < s.len() && s[q + 37]
                == '"' {
                Some(q + 1)
            } else {
                None
            }
        }
    }
}

/// `at` is the leftmost position where the launcher pattern matches.
pub open spec fn first_launcher_at(s: Seq<char>, at: int) -> bool {
    &&& 0 <= at <= s.len()
    &&& launcher_code_at(s, at) is Some
    &&& forall|j: int| 0 <= j < at ==> launcher_code_at(s, j) is None
}

/// `at` is the leftmost position where the JSON pattern matches.
pub open spec fn first_json_at(s: Seq<char>, at: int) -> bool {
    &&& 0 <= at <= s.len()
    &&& json_code_at(s, at) is Some
    &&& forall|j: int| 0 <= j < at ==> json_code_at(s, j) is None
}

/// The access code of the leftmost launcher call in `s`, if any.
pub open spec fn launcher_code(s: Seq<char>) -> Option<Seq<char>> {
    if exists|at: int| first_launcher_at(s, at) {
        let at = choose|at: int| first_launcher_at(s, at);
        let c = launcher_code_at(s, at)->0;
        Some(s.subrange(c, c + 36))
    } else {
        None
    }
}

/// The access code of the leftmost JSON `accessCode` entry in `s`, if any.
pub open spec fn json_code(s: Seq<char>) -> Option<Seq<char>> {
    if exists|at: int| first_json_at(s, at) {
        let at = choose|at: int| first_json_at(s, at);
        let c = json_code_at(s, at)->0;
        Some(s.subrange(c, c + 36))
    } else {
        None
    }
}

/// The access code a game page holds: that of the first launcher call, else
/// that of the first JSON entry.
pub open spec fn page_code(s: Seq<char>) -> Option<Seq<char>> {
    match launcher_code(s) {
        Some(c) => Some(c),
        None => json_code(s),
    }
}

/// Whether a character is a pattern space.
fn space_char(c: char) -> (b: bool)
    ensures
        b == is_pattern_space(c),
{
    c == '\t' || c == '\n' || c == '\x0B' || c == '\x0C' || c == '\r' || c == ' '
}

/// Whether a character is a decimal digit.
fn digit_char(c: char) -> (b: bool)
    ensures
        b == is_dec_digit(c),
{
    '0' <= c && c <= '9'
}

/// Counts the spaces from position `i` on.
fn count_spaces(v: &[char], i: usize) -> (n: usize)
    requires
        i <= v@.len(),
    ensures
        n == space_run(v@, i as int),
        i + n <= v@.len(),
{
    let len = v.len();
    let mut j = i;
    while j < len && space_char(v[j])
        invariant
            len == v@.len(),
            i <= j <= len,
            space_run(v@, i as int) == (j - i) + space_run(v@, j as int),
        decreases len - j,
    {
        j += 1;
    }
    j - i
}

/// Counts the decimal digits from position `i` on.
fn count_digits(v: &[char], i: usize) -> (n: usize)
    requires
        i <= v@.len(),
    ensures
        n == digit_run(v@, i as int),
        i + n <= v@.len(),
{
    let len = v.len();
    let mut j = i;
    while j < len && digit_char(v[j])
        invariant
            len == v@.len(),
            i <= j <= len,
            digit_run(v@, i as int) == (j - i) + digit_run(v@, j as int),
        decreases len - j,
    {
        j += 1;
    }
    j - i
}

/// Whether an access code starts at position `i`.
fn is_code_at(v: &[char], i: usize) -> (b: bool)
    ensures
        b == code_at(v@, i as int),
{
    let len = v.len();
    if i > len || len - i < 36 {
        return false;
    }
    let mut k = i;
    while k < i + 36
        invariant
            len == v@.len(),
            i + 36 <= len,
            i <= k <= i + 36,
            forall|t: int| i <= t < k ==> is_code_char(#[trigger] v@[t]),
        decreases i + 36 - k,
    {
        let c = v[k];
        if !(('0' <= c && c <= '9') || ('a' <= c && c <= 'f') || ('A' <= c && c <= 'F') || c
            == '-') {
            assert(!is_code_char(v@[k as int]));
            return false;
        }
        k += 1;
    }
    true
}

/// Where the code starts if the launcher pattern matches at `at`.
fn launcher_match(v: &[char], pat: &[char], at: usize) -> (r: Option<usize>)
    requires
        pat@ == launcher_call(),
        at <= v@.len(),
    ensures
        match r {
            Some(c) => launcher_code_at(v@, at as int) == Some(c as int),
            None => launcher_code_at(v@, at as int) is None,
        },
{
    let len = v.len();
    if !matches_at(v, pat, at) {
        return None;
    }
    let a = at + pat.len();
    let k = count_digits(v, a);
    if k == 0 || !(a + k < len && v[a + k] == ',') {
        return None;
    }
    let sp = count_spaces(v, a + k + 1);
    let q = a + k + 1 + sp;
    if q < len && v[q] == '\'' && is_code_at(v, q + 1) && q + 37 < len && v[q + 37] == '\'' {
        Some(q + 1)
    } else {
        None
    }
}

/// Where the code starts if the JSON pattern matches at `at`.
fn json_match(v: &[char], key: &[char], at: usize) -> (r: Option<usize>)
    requires
        key@ == access_code_key(),
        at <= v@.len(),
    ensures
        match r {
            Some(c) => json_code_at(v@, at as int) == Some(c as int),
            None => json_code_at(v@, at as int) is None,
        },
{
    let len = v.len();
    if !matches_at(v, key, at) {
        return None;
    }
    let b = at + key.len();
    let s1 = count_spaces(v, b);
    let c = b + s1;
    if !(c < len && v[c] == ':') {
        return None;
    }
    let s2 = count_spaces(v, c + 1);
    let q = c + 1 + s2;
    if q < len && v[q] == '"' && is_code_at(v, q + 1) && q + 37 < len && v[q + 37] == '"' {
        Some(q + 1)
    } else {
        None
    }
}

proof fn lemma_first_launcher_unique(s: Seq<char>, at: int)
    requires
        first_launcher_at(s, at),
    ensures
        (choose|a: int| first_launcher_at(s, a)) == at,
{
    let a = choose|a: int| first_launcher_at(s, a);
    assert(first_launcher_at(s, a));
    if a < at {
        assert(launcher_code_at(s, a) is None);
    }
    if a > at {
        assert(launcher_code_at(s, at) is None);
    }
}

proof fn lemma_first_json_unique(s: Seq<char>, at: int)
    requires
        first_json_at(s, at),
    ensures
        (choose|a: int| first_json_at(s, a)) == at,
{
    let a = choose|a: int| first_json_at(s, a);
    assert(first_json_at(s, a));
    if a < at {
        assert(json_code_at(s, a) is None);
    }
    if a > at {
        assert(json_code_at(s, at) is None);
    }
}

/// The access code of the leftmost launcher call.
fn find_launcher_code(v: &[char]) -> (r: Option<String>)
    ensures
        match r {
            Some(c) => launcher_code(v@) == Some(c@),
            None => launcher_code(v@) is None,
        },
{
    let pat = chars_of("Roblox.GameLauncher.joinPrivateGame(");
    let len = v.len();
    let mut at: usize = 0;
    loop
        invariant
            len == v@.len(),
            pat@ == launcher_call(),
            at <= len,
            forall|j: int| 0 <= j < at ==> launcher_code_at(v@, j) is None,
        decreases len - at,
    {
        match launcher_match(v, pat.as_slice(), at) {
            Some(c) => {
                proof {
                    assert(first_launcher_at(v@, at as int));
                    lemma_first_launcher_unique(v@, at as int);
                }
                return Some(string_of(v, c, c + 36));
            },
            None => {},
        }
        if at == len {
            proof {
                assert forall|a: int| !first_launcher_at(v@, a) by {
                    if 0 <= a <= v@.len() {
                        assert(launcher_code_at(v@, a) is None);
                    }
                }
            }
            return None;
        }
        at += 1;
    }
}

/// The access code of the leftmost JSON entry.
fn find_json_code(v: &[char]) -> (r: Option<String>)
    ensures
        match r {
            Some(c) => json_code(v@) == Some(c@),
            None => json_code(v@) is None,
        },
{
    let key = chars_of("\"accessCode\"");
    let len = v.len();
    let mut at: usize = 0;
    loop
        invariant
            len == v@.len(),
            key@ == access_code_key(),
            at <= len,
            forall|j: int| 0 <= j < at ==> json_code_at(v@, j) is None,
        decreases len - at,
    {
        match json_match(v, key.as_slice(), at) {
            Some(c) => {
                proof {
                    assert(first_json_at(v@, at as int));
                    lemma_first_json_unique(v@, at as int);
                }
                return Some(string_of(v, c, c + 36));
            },
            None => {},
        }
        if at == len {
            proof {
                assert forall|a: int| !first_json_at(v@, a) by {
                    if 0 <= a <= v@.len() {
                        assert(json_code_at(v@, a) is None);
                    }
                }
            }
            return None;
        }
        at += 1;
    }
}

/// Finds the access code in the HTML of a game page: the one the first
/// `Roblox.GameLauncher.joinPrivateGame(..)` call passes, else the first
/// embedded `"accessCode"` value.
pub fn access_code_in_page(body: &str) -> (r: Option<String>)
    ensures
        match r {
            Some(c) => page_code(body@) == Some(c@),
            None => page_code(body@) is None,
        },
{
    let v = chars_of(body);
    match find_launcher_code(v.as_slice()) {
        Some(c) => Some(c),
        None => find_json_code(v.as_slice()),
    }
}

/// What reading the access code from a fetched game page gives: a failed
/// fetch is an error naming the status; a page without a code is an error.
pub open spec fn page_result(code: u16, body: Seq<char>) -> Result<Seq<char>, Seq<char>> {
    if !is_success(code) {
        Err("Game page returned status: "@ + status_display_of(code))
    } else {
        match page_code(body) {
            Some(c) => Ok(c),
            None => Err("Access code not found in page HTML"@),
        }
    }
}

/// Reads the access code from a fetched game page.
pub fn page_access_code(code: u16, body: &str) -> (r: AppResult<String>)
    ensures
        match page_result(code, body@) {
            Ok(c) => r matches Ok(t) && t@ == c,
            Err(m) => r matches Err(AppError::RobloxApi(t)) && t@ == m,
        },
{
    if !(200 <= code && code <= 299) {
        let mut t = String::from_str("Game page returned status: ");
        let d = status_display(code);
        t.append(d.as_str());
        return Err(AppError::RobloxApi(t));
    }
    match access_code_in_page(body) {
        Some(c) => Ok(c),
        None => Err(AppError::RobloxApi(String::from_str("Access code not found in page HTML"))),
    }
}

/// The game page that carries the access code of a numeric private-server
/// link code, on the `www` host or, with `web`, on the `web` host.
pub open spec fn private_server_page_url_of(web: bool, place_id: u64, link_code: Seq<char>) -> Seq<char> {
    (if web {
        "https://web.roblox.com/games/"@
    } else {
        "https://www.roblox.com/games/"@
    }) + decimal(place_id as nat) + "?privateServerLinkCode="@ + link_code
}

/// Builds the game page URL for a numeric private-server link code.
pub fn private_server_page_url(web: bool, place_id: u64, link_code: &str) -> (r: String)
    ensures
        r@ == private_server_page_url_of(web, place_id, link_code@),
{
    let mut s = if web {
        String::from_str("https://web.roblox.com/games/")
    } else {
        String::from_str("https://www.roblox.com/games/")
    };
    push_decimal(&mut s, place_id);
    s.append("?privateServerLinkCode=");
    s.append(link_code);
    s
}

} // verus!
