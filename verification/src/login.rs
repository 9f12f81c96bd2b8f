use vstd::prelude::*;
use vstd::string::StringExecFns;
use vstd::utf8::encode_utf8;
use crate::api::{OnlineProfile, UserDetails};
use crate::crypto::AES_GCM_MAX_PLAINTEXT;
use crate::error::{AppError, AppResult};
use crate::import::message_of;
use crate::models::AccountView;
use crate::profiles::{account_from_profile, shows_profile, is_fresh, described};
use crate::storage::{AccountStore, account_added, unchanged};
use crate::format::{uuid_to_text, uuid_text_of};
use crate::text::{
    chars_of, contains, contains_seq, push_char, byte_prefix, byte_prefix_of, cut_ok, opt_view,
    str_equal, strip_repeated_prefix, trim_start_matches,
};

verus! {

/// The page after a login: a Roblox page under `/home`, not the login page.
pub open spec fn is_logged_in_url(url: Seq<char>) -> bool {
    contains_seq(url, "/home"@) && contains_seq(url, "roblox.com"@) && !contains_seq(url, "/login"@)
}

/// Whether the login window reached the page shown after a login.
pub fn is_logged_in_page(url: &str) -> (b: bool)
    ensures
        b == is_logged_in_url(url@),
{
    contains(url, "/home") && contains(url, "roblox.com") && !contains(url, "/login")
}

/// The name of the session cookie.
pub open spec fn session_cookie_name() -> Seq<char> {
    ".ROBLOSECURITY"@
}

/// The value of the first cookie named `.ROBLOSECURITY` among
/// name/value pairs.
pub open spec fn session_value(cookies: Seq<(String, String)>) -> Option<Seq<char>>
    decreases cookies.len(),
{
    if cookies.len() == 0 {
        None
    } else if cookies[0].0@ == session_cookie_name() {
        Some(cookies[0].1@)
    } else {
        session_value(cookies.drop_first())
    }
}

/// The value of the session cookie among the cookies of the login window:
/// missing or empty, it is an invalid-cookie error.
pub fn session_cookie(cookies: &Vec<(String, String)>) -> (r: AppResult<String>)
    ensures
        match session_value(cookies@) {
            None => r matches Err(AppError::InvalidCookie(t)) && t@
                == "No .ROBLOSECURITY cookie found after login. Try logging in again."@,
            Some(v) => if v.len() == 0 {
                r matches Err(AppError::InvalidCookie(t)) && t@ == ".ROBLOSECURITY cookie is empty"@
            } else {
                r matches Ok(c) && c@ == v
            },
        },
{
    let mut i: usize = 0;
    assert(cookies@.skip(0) == cookies@);
    while i < cookies.len()
        invariant
            i <= cookies@.len(),
            session_value(cookies@) == session_value(cookies@.skip(i as int)),
        decreases cookies@.len() - i,
    {
        let ghost rest = cookies@.skip(i as int);
        assert(rest.drop_first() == cookies@.skip(i + 1));
        assert(rest[0] == cookies@[i as int]);
        if str_equal(cookies[i].0.as_str(), ".ROBLOSECURITY") {
            let v = cookies[i].1.clone();
            if v.as_str().unicode_len() == 0 {
                return Err(AppError::InvalidCookie(String::from_str(".ROBLOSECURITY cookie is empty")));
            }
            return Ok(v);
        }
        i += 1;
    }
    assert(cookies@.skip(i as int).len() == 0);
    Err(
        AppError::InvalidCookie(
            String::from_str("No .ROBLOSECURITY cookie found after login. Try logging in again."),
        ),
    )
}

/// Whether a session cookie is among the cookies.
pub fn has_session_cookie(cookies: &Vec<(String, String)>) -> (b: bool)
    ensures
        b == session_value(cookies@) is Some,
{
    let mut i: usize = 0;
    assert(cookies@.skip(0) == cookies@);
    while i < cookies.len()
        invariant
            i <= cookies@.len(),
            session_value(cookies@) == session_value(cookies@.skip(i as int)),
        decreases cookies@.len() - i,
    {
        let ghost rest = cookies@.skip(i as int);
        assert(rest.drop_first() == cookies@.skip(i + 1));
        assert(rest[0] == cookies@[i as int]);
        if str_equal(cookies[i].0.as_str(), ".ROBLOSECURITY") {
            return true;
        }
        i += 1;
    }
    assert(cookies@.skip(i as int).len() == 0);
    false
}

/// Adds the account a login produced: a new account for the profile with
/// the description of the details, stored with the cookie. Returns its view
/// (as it was before it got its sort order).
pub fn login_account(
    store: &mut AccountStore,
    profile: OnlineProfile,
    details: Option<UserDetails>,
    cookie: &str,
) -> (r: AppResult<AccountView>)
    requires
        old(store).wf(),
    ensures
        final(store).wf(),
        (r is Ok) <==> encode_utf8(cookie@).len() <= AES_GCM_MAX_PLAINTEXT,
        r matches Ok(v) ==> shows_profile(v@, profile) && is_fresh(v@) && v@.group is None
            && v@.alias is None && v@.description == described(details, None) && account_added(
            *old(store),
            *final(store),
            v@,
            cookie@,
        ),
        r matches Err(e) ==> e is Encryption && unchanged(*old(store), *final(store)),
{
    let mut account = account_from_profile(profile, None);
    match details {
        Some(d) => {
            account.description = d.description;
        },
        None => {},
    }
    let view = account.to_view();
    match store.add_account(account, cookie) {
        Ok(()) => Ok(view),
        Err(e) => Err(e),
    }
}

/// What the main window is told when a login ends.
#[derive(Debug)]
pub struct LoginCompletePayload {
    pub success: bool,
    pub account: Option<AccountView>,
    pub error: Option<String>,
}

/// The message for the end of a login: the account added, or the error.
pub fn login_payload(result: AppResult<AccountView>) -> (p: LoginCompletePayload)
    ensures
        match result {
            Ok(v) => p.success && p.account == Some(v) && p.error is None,
            Err(e) => !p.success && p.account is None && opt_view(p.error) == Some(message_of(e)),
        },
{
    match result {
        Ok(v) => LoginCompletePayload { success: true, account: Some(v), error: None },
        Err(e) => LoginCompletePayload { success: false, account: None, error: Some(e.message()) },
    }
}

/// The label of the browser window of an account: `browser-` and the first
/// eight bytes of its id text.
pub fn browser_label(account_id: &str) -> (r: String)
    requires
        cut_ok(account_id@, 8),
    ensures
        r@ == "browser-"@ + byte_prefix_of(account_id@, 8),
{
    let mut s = String::from_str("browser-");
    let head = byte_prefix(account_id, 8);
    s.append(head.as_str());
    s
}

/// The name of an account's browser data directory: the hyphenated text of
/// its whole id, so that each account keeps a session of its own.
pub fn browser_session_dir(account_id: u128) -> (r: String)
    ensures
        r@ == uuid_text_of(account_id),
{
    uuid_to_text(account_id)
}

/// The title of the browser window of an account.
pub fn browser_title(username: &str) -> (r: String)
    ensures
        r@ == "Roblox - "@ + username@,
{
    let mut s = String::from_str("Roblox - ");
    s.append(username);
    s
}

/// The page a browser window opens: the one asked for, else the home page.
pub fn browser_target(url: Option<String>) -> (r: String)
    ensures
        r@ == match url {
            Some(u) => u@,
            None => "https://www.roblox.com/home"@,
        },
{
    match url {
        Some(u) => u,
        None => String::from_str("https://www.roblox.com/home"),
    }
}

/// One character made safe inside a JavaScript string: backslashes and
/// both kinds of quotes get a backslash before them.
pub open spec fn js_escaped_char(c: char) -> Seq<char> {
    if c == '\\' || c == '\'' || c == '"' {
        seq!['\\', c]
    } else {
        seq![c]
    }
}

/// A text made safe inside a JavaScript string.
pub open spec fn js_escaped(s: Seq<char>) -> Seq<char>
    decreases s.len(),
{
    if s.len() == 0 {
        Seq::empty()
    } else {
        js_escaped(s.drop_last()) + js_escaped_char(s.last())
    }
}

/// The session cookie value to inject into a browser window: without any
/// leading `.ROBLOSECURITY=`, escaped for a JavaScript string.
pub fn injected_cookie(cookie: &str) -> (r: String)
    ensures
        r@ == js_escaped(strip_repeated_prefix(cookie@, ".ROBLOSECURITY="@)),
{
    let value = trim_start_matches(cookie, ".ROBLOSECURITY=");
    let v = chars_of(value.as_str());
    let mut s = String::new();
    let mut i: usize = 0;
    while i < v.len()
        invariant
            i <= v@.len(),
            v@ == strip_repeated_prefix(cookie@, ".ROBLOSECURITY="@),
            s@ == js_escaped(v@.take(i as int)),
        decreases v@.len() - i,
    {
        let c = v[i];
        let ghost before = s@;
        assert(v@.take(i + 1).drop_last() == v@.take(i as int));
        if c == '\\' || c == '\'' || c == '"' {
            push_char(&mut s, '\\');
        }
        push_char(&mut s, c);
        assert(s@ =~= before + js_escaped_char(c));
        i += 1;
    }
    assert(v@.take(v@.len() as int) == v@);
    s
}

/// The script run at the start of every page of a browser window: on Roblox
/// pages it replaces the session cookie with the account's, and from the
/// login page it goes on to the target page.
pub open spec fn redirect_script_of(cookie: Seq<char>, url: Seq<char>) -> Seq<char> {
    "\n        (function() {\n            'use strict';\n            if (!location.hostname.includes('roblox.com')) return;\n            // Always set cookie at document_start (before page JS reads it)\n            document.cookie = \".ROBLOSECURITY=expired; domain=.roblox.com; path=/; expires=Thu, 01 Jan 1970 00:00:00 GMT\";\n            document.cookie = \".ROBLOSECURITY="@ + cookie + "; domain=.roblox.com; path=/; secure; max-age=31536000\";\n            // If we landed on login/challenge page, redirect to target immediately\n            if (!window.__RAM_REDIRECTED__ && (location.pathname.startsWith('/login') || location.pathname.startsWith('/Login'))) {\n                window.__RAM_REDIRECTED__ = true;\n                window.location.replace(\""@ + url + "\");\n            }\n        })();\n        "@
}

/// Builds the cookie and redirect script of a browser window from the
/// escaped cookie and the target page.
pub fn redirect_script(cookie: &str, url: &str) -> (r: String)
    ensures
        r@ == redirect_script_of(cookie@, url@),
{
    let mut s = String::from_str("\n        (function() {\n            'use strict';\n            if (!location.hostname.includes('roblox.com')) return;\n            // Always set cookie at document_start (before page JS reads it)\n            document.cookie = \".ROBLOSECURITY=expired; domain=.roblox.com; path=/; expires=Thu, 01 Jan 1970 00:00:00 GMT\";\n            document.cookie = \".ROBLOSECURITY=");
    s.append(cookie);
    s.append("; domain=.roblox.com; path=/; secure; max-age=31536000\";\n            // If we landed on login/challenge page, redirect to target immediately\n            if (!window.__RAM_REDIRECTED__ && (location.pathname.startsWith('/login') || location.pathname.startsWith('/Login'))) {\n                window.__RAM_REDIRECTED__ = true;\n                window.location.replace(\"");
    s.append(url);
    s.append("\");\n            }\n        })();\n        ");
    s
}

} // verus!
