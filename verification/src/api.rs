use vstd::prelude::*;
use vstd::string::StringExecFns;
use vstd::utf8::encode_utf8;
use crate::error::{AppError, AppResult};
use crate::format::{decimal, push_decimal};
use crate::text::{has_prefix, starts_with, strip_repeated_prefix, trim_start_matches, trimmed, trim, str_equal};

verus! {

/// The user a cookie belongs to, as the users API reports it.
#[derive(Debug)]
pub struct AuthenticatedUser {
    pub id: u64,
    pub name: String,
    pub display_name: String,
}

/// Details of a user from the users API.
#[derive(Debug)]
pub struct UserDetails {
    pub description: Option<String>,
    pub created: Option<String>,
    pub is_banned: Option<bool>,
    pub has_verified_badge: Option<bool>,
}

/// A Robux balance from the economy API.
#[derive(Debug)]
pub struct CurrencyResponse {
    pub robux: i64,
}

/// What the API tells about the owner of a cookie: the user, and the
/// balance, Premium state and avatar, each absent when its request failed.
#[derive(Debug)]
pub struct OnlineProfile {
    pub user: AuthenticatedUser,
    pub robux: Option<i64>,
    pub is_premium: Option<bool>,
    pub avatar_url: Option<String>,
}

/// Privacy settings of an account.
#[derive(Debug)]
pub struct PrivacySettings {
    pub phone_discovery: Option<String>,
    pub private_message_privacy: Option<String>,
    pub app_chat_privacy: Option<String>,
    pub game_chat_privacy: Option<String>,
    pub inventory_privacy: Option<String>,
    pub trade_privacy: Option<String>,
    pub trade_value: Option<String>,
}

/// The gender of an account (1 unknown, 2 male, 3 female).
#[derive(Debug)]
pub struct GenderResponse {
    pub gender: u8,
}

/// The birth date of an account.
#[derive(Debug)]
pub struct BirthdateResponse {
    pub birth_month: u32,
    pub birth_day: u32,
    pub birth_year: u32,
}

/// The name under which the session cookie is sent.
pub open spec fn session_cookie_prefix() -> Seq<char> {
    ".ROBLOSECURITY="@
}

/// The `Cookie` header text for a cookie: the cookie itself when it already
/// starts with `.ROBLOSECURITY=`, else the cookie after that name.
pub open spec fn cookie_header_of(cookie: Seq<char>) -> Seq<char> {
    if has_prefix(cookie, session_cookie_prefix()) {
        cookie
    } else {
        session_cookie_prefix() + cookie
    }
}

/// Builds the `Cookie` header text for a cookie.
pub fn cookie_header(cookie: &str) -> (r: String)
    ensures
        r@ == cookie_header_of(cookie@),
{
    if starts_with(cookie, ".ROBLOSECURITY=") {
        String::from_str(cookie)
    } else {
        let mut s = String::from_str(".ROBLOSECURITY=");
        s.append(cookie);
        s
    }
}

/// The `Cookie` header text with every leading `.ROBLOSECURITY=` of the
/// cookie removed and the name put back once.
pub open spec fn normalized_cookie_header_of(cookie: Seq<char>) -> Seq<char> {
    session_cookie_prefix() + strip_repeated_prefix(cookie, session_cookie_prefix())
}

/// Builds the normalized `Cookie` header text for a cookie.
pub fn normalized_cookie_header(cookie: &str) -> (r: String)
    ensures
        r@ == normalized_cookie_header_of(cookie@),
{
    let rest = trim_start_matches(cookie, ".ROBLOSECURITY=");
    let mut s = String::from_str(".ROBLOSECURITY=");
    s.append(rest.as_str());
    s
}

/// A byte `http` accepts in a header value: visible ASCII, space, tab or
/// any byte above 127.
pub open spec fn header_byte_ok(b: u8) -> bool {
    (b >= 32 && b != 127) || b == 9
}

/// Calls `http::HeaderValue::from_str` (as `reqwest` re-exports it) and tells
/// whether it accepts the text; its source accepts exactly the texts whose
/// every byte passes `header_byte_ok`.
#[verifier::external_body]
fn header_value_accepts(s: &str) -> (b: bool)
    ensures
        b == forall|i: int|
            0 <= i < encode_utf8(s@).len() ==> header_byte_ok(#[trigger] encode_utf8(s@)[i]),
{
    reqwest::header::HeaderValue::from_str(s).is_ok()
}

/// The value sent in the `Cookie` header of authenticated API requests: the
/// cookie header text when it is a valid header value, else empty.
pub fn auth_cookie_value(cookie: &str) -> (r: String)
    ensures
        r@ == if forall|i: int|
            0 <= i < encode_utf8(cookie_header_of(cookie@)).len() ==> header_byte_ok(
                #[trigger] encode_utf8(cookie_header_of(cookie@))[i],
            ) {
            cookie_header_of(cookie@)
        } else {
            Seq::empty()
        },
{
    let v = cookie_header(cookie);
    if header_value_accepts(v.as_str()) {
        v
    } else {
        String::new()
    }
}

/// The canonical reason phrase `http` knows for a status code.
pub uninterp spec fn canonical_reason_of(code: u16) -> Option<Seq<char>>;

/// Calls `http::StatusCode::canonical_reason` on the status code, when
/// `StatusCode::from_u16` accepts it.
#[verifier::external_body]
fn canonical_reason(code: u16) -> (r: Option<String>)
    ensures
        match r {
            Some(t) => canonical_reason_of(code) == Some(t@),
            None => canonical_reason_of(code) is None,
        },
{
    match reqwest::StatusCode::from_u16(code) {
        Ok(s) => match s.canonical_reason() {
            Some(t) => Some(t.to_string()),
            None => None,
        },
        Err(_) => None,
    }
}

/// How a status code is displayed: the number, a space and the reason
/// phrase (`<unknown status code>` when there is none).
pub open spec fn status_display_of(code: u16) -> Seq<char> {
    decimal(code as nat) + " "@ + match canonical_reason_of(code) {
        Some(t) => t,
        None => "<unknown status code>"@,
    }
}

/// Displays a status code as `http::StatusCode` does.
pub fn status_display(code: u16) -> (r: String)
    ensures
        r@ == status_display_of(code),
{
    let mut s = String::new();
    push_decimal(&mut s, code as u64);
    s.append(" ");
    match canonical_reason(code) {
        Some(t) => s.append(t.as_str()),
        None => s.append("<unknown status code>"),
    }
    s
}

/// A status code in the success class.
pub open spec fn is_success(code: u16) -> bool {
    200 <= code <= 299
}

/// The text of an API failure: `Failed to get `, what was asked, `: ` and
/// the status.
pub open spec fn failure_text(what: Seq<char>, code: u16) -> Seq<char> {
    "Failed to get "@ + what + ": "@ + status_display_of(code)
}

/// Checks the status of a read from the API: success passes, anything else
/// is a Roblox API error naming what was asked and the status.
pub fn check_status(code: u16, what: &str) -> (r: AppResult<()>)
    ensures
        is_success(code) ==> r is Ok,
        !is_success(code) ==> (r matches Err(AppError::RobloxApi(t)) && t@ == failure_text(what@, code)),
{
    if 200 <= code && code <= 299 {
        Ok(())
    } else {
        let mut t = String::from_str("Failed to get ");
        t.append(what);
        t.append(": ");
        let d = status_display(code);
        t.append(d.as_str());
        Err(AppError::RobloxApi(t))
    }
}

/// Checks the status of the authenticated-user request: 401 means the
/// cookie is invalid or expired; other failures are Roblox API errors.
pub fn check_authenticated_status(code: u16) -> (r: AppResult<()>)
    ensures
        code == 401 ==> (r matches Err(AppError::InvalidCookie(t)) && t@ == "Cookie is invalid or expired"@),
        code != 401 && is_success(code) ==> r is Ok,
        code != 401 && !is_success(code) ==> (r matches Err(AppError::RobloxApi(t)) && t@
            == failure_text("authenticated user"@, code)),
{
    if code == 401 {
        return Err(AppError::InvalidCookie(String::from_str("Cookie is invalid or expired")));
    }
    check_status(code, "authenticated user")
}

/// The text of a failed place-specific read: `Failed to get `, what, ` for
/// place `, the place id, `: ` and the status.
pub open spec fn place_failure_text(what: Seq<char>, place_id: u64, code: u16) -> Seq<char> {
    "Failed to get "@ + what + " for place "@ + decimal(place_id as nat) + ": "@ + status_display_of(code)
}

/// Checks the status of a place-specific read (servers, universe id).
pub fn check_place_status(code: u16, what: &str, place_id: u64) -> (r: AppResult<()>)
    ensures
        is_success(code) ==> r is Ok,
        !is_success(code) ==> (r matches Err(AppError::RobloxApi(t)) && t@ == place_failure_text(
            what@,
            place_id,
            code,
        )),
{
    if 200 <= code && code <= 299 {
        Ok(())
    } else {
        let mut t = String::from_str("Failed to get ");
        t.append(what);
        t.append(" for place ");
        push_decimal(&mut t, place_id);
        t.append(": ");
        let d = status_display(code);
        t.append(d.as_str());
        Err(AppError::RobloxApi(t))
    }
}

/// The text of a failed account change: `Failed to `, the action, ` (`,
/// the status, `): ` and the reply body.
pub open spec fn action_failure_text(action: Seq<char>, code: u16, body: Seq<char>) -> Seq<char> {
    "Failed to "@ + action + " ("@ + status_display_of(code) + "): "@ + body
}

/// Checks the status of an account change (password, email, description,
/// display name); a failure carries the reply body.
pub fn check_action_status(code: u16, action: &str, body: &str) -> (r: AppResult<()>)
    ensures
        is_success(code) ==> r is Ok,
        !is_success(code) ==> (r matches Err(AppError::RobloxApi(t)) && t@ == action_failure_text(
            action@,
            code,
            body@,
        )),
{
    if 200 <= code && code <= 299 {
        Ok(())
    } else {
        let mut t = String::from_str("Failed to ");
        t.append(action);
        t.append(" (");
        let d = status_display(code);
        t.append(d.as_str());
        t.append("): ");
        t.append(body);
        Err(AppError::RobloxApi(t))
    }
}

/// Whether the membership reply says Premium: a successful reply whose body,
/// trimmed, is `true`.
pub fn premium_from_reply(code: u16, body: &str) -> (b: bool)
    ensures
        b == (is_success(code) && trimmed(body@) == "true"@),
{
    if !(200 <= code && code <= 299) {
        return false;
    }
    let t = trim(body);
    str_equal(t.as_str(), "true")
}

/// The avatar URL of a thumbnail reply: the image URL of its first entry.
pub fn first_image_url(data: Vec<Option<String>>) -> (r: Option<String>)
    ensures
        data@.len() == 0 ==> r is None,
        data@.len() > 0 ==> r == data@[0],
{
    let mut data = data;
    if data.len() == 0 {
        None
    } else {
        data.swap_remove(0)
    }
}

impl PrivacySettings {
    /// The settings read from the privacy endpoints; each value is absent
    /// when its endpoint failed, and phone discovery is never read.
    pub fn from_replies(
        app_chat: Option<String>,
        game_chat: Option<String>,
        inventory: Option<String>,
        trade: Option<String>,
        trade_value: Option<String>,
        private_message: Option<String>,
    ) -> (p: PrivacySettings)
        ensures
            p.phone_discovery is None,
            p.app_chat_privacy == app_chat,
            p.game_chat_privacy == game_chat,
            p.inventory_privacy == inventory,
            p.trade_privacy == trade,
            p.trade_value == trade_value,
            p.private_message_privacy == private_message,
    {
        PrivacySettings {
            phone_discovery: None,
            private_message_privacy: private_message,
            app_chat_privacy: app_chat,
            game_chat_privacy: game_chat,
            inventory_privacy: inventory,
            trade_privacy: trade,
            trade_value,
        }
    }
}

/// The value of one privacy endpoint: the field it carries when it
/// answered with success, else nothing.
pub fn privacy_value(code: u16, field: Option<String>) -> (r: Option<String>)
    ensures
        r == if is_success(code) {
            field
        } else {
            None
        },
{
    if 200 <= code && code <= 299 {
        field
    } else {
        None
    }
}

/// The error when no CSRF token could be had.
pub fn csrf_token_missing() -> (e: AppError)
    ensures
        e matches AppError::RobloxApi(t) && t@ == "Failed to get CSRF token"@,
{
    AppError::RobloxApi(String::from_str("Failed to get CSRF token"))
}

/// Checks the status of a request for account information whose failure is
/// reported without the status: `Failed to get` and what was asked for.
pub fn check_info_status(code: u16, what: &str) -> (r: AppResult<()>)
    ensures
        is_success(code) ==> r is Ok,
        !is_success(code) ==> (r matches Err(AppError::RobloxApi(t)) && t@ == "Failed to get "@ + what@),
{
    if 200 <= code && code <= 299 {
        Ok(())
    } else {
        let mut t = String::from_str("Failed to get ");
        t.append(what);
        Err(AppError::RobloxApi(t))
    }
}

} // verus!
