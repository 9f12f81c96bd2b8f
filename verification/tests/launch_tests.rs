use ram_manager::error::AppError;
use ram_manager::launcher::{
    effective_link_code, encode_launcher_url, new_browser_tracker_id,
    placelauncher_url, protocol_uri, retry_delay_ms, share_link_uri, LaunchOptions,
};
use ram_manager::page_scan::{access_code_in_page, page_access_code, private_server_page_url};
use ram_manager::sharelinks::{
    access_code_for_server, after_pages, after_server_lookup, auth_ticket_step, classify_link_code,
    link_code_failure, server_not_found, sharelinks_step, quote_cut_ok, access_code_unresolved, AccessCodeCache, InviteData, LinkCodeKind,
    LinkCodeValue, resolve_start, ResolveAttempts, ResolveStart, SharelinksJson, SharelinksReply, SharelinksStep, TicketStep,
};

const CODE: &str = "0123abcd-0123-abcd-0123-0123456789ab";

fn options() -> LaunchOptions {
    LaunchOptions { place_id: 123, job_id: None, follow_user_id: None, link_code: None, access_code: None, launch_args: None }
}

#[test]
fn launcher_urls() {
    let base = "https://assetgame.roblox.com/game/PlaceLauncher.ashx?request=";
    assert_eq!(placelauncher_url(&options(), 42), format!("{}RequestGame&browserTrackerId=42&placeId=123&isPlayTogetherGame=false", base));
    let mut o = options();
    o.access_code = Some("ac".to_string());
    o.link_code = Some("99".to_string());
    o.job_id = Some("ignored".to_string());
    assert_eq!(placelauncher_url(&o, 42), format!("{}RequestPrivateGame&browserTrackerId=42&placeId=123&accessCode=ac&linkCode=99", base));
    let mut o = options();
    o.access_code = Some("ac".to_string());
    assert_eq!(placelauncher_url(&o, 1), format!("{}RequestPrivateGame&browserTrackerId=1&placeId=123&accessCode=ac&linkCode=", base));
    let mut o = options();
    o.job_id = Some("job1".to_string());
    o.follow_user_id = Some(7);
    assert_eq!(placelauncher_url(&o, 42), format!("{}RequestGameJob&browserTrackerId=42&placeId=123&gameId=job1&isPlayTogetherGame=false", base));
    let mut o = options();
    o.follow_user_id = Some(7);
    assert_eq!(placelauncher_url(&o, 42), format!("{}RequestFollowUser&browserTrackerId=42&userId=7&placeId=123", base));
}

#[test]
fn url_encoding_and_protocol_uri() {
    assert_eq!(encode_launcher_url("https://a.b/c?d=e&f"), "https%3A%2F%2Fa.b%2Fc%3Fd%3De%26f");
    assert_eq!(
        protocol_uri("T", 1000, "ENC", 42),
        "roblox-player:1+launchmode:play+gameinfo:T+launchtime:1000+placelauncherurl:ENC+browsertrackerid:42+robloxLocale:en_us+gameLocale:en_us+channel:+LaunchExp:InApp"
    );
    assert!(protocol_uri("T", -5, "E", 0).contains("+launchtime:-5+"));
    assert_eq!(share_link_uri("abc"), "roblox://navigation/share_links?type=Server&code=abc");
    assert!(new_browser_tracker_id() < 1_000_000_000);
}

#[test]
fn link_codes() {
    assert_eq!(classify_link_code("12345678"), LinkCodeKind::PrivateServerLinkCode);
    assert_eq!(classify_link_code("1234567"), LinkCodeKind::ShareCode);
    assert_eq!(classify_link_code("123e4567-e89b-12d3-a456-426614174000"), LinkCodeKind::AccessCode);
    assert_eq!(classify_link_code("abcdef123"), LinkCodeKind::ShareCode);
    assert_eq!(effective_link_code(None, Some("12ab".to_string())), None);
    assert_eq!(effective_link_code(None, Some("1234".to_string())).as_deref(), Some("1234"));
    assert_eq!(effective_link_code(Some("n".to_string()), Some("x".to_string())).as_deref(), Some("n"));
    assert_eq!(effective_link_code(None, Some(String::new())), None);
}

#[test]
fn retry_delays_double() {
    assert_eq!(retry_delay_ms(0), 500);
    assert_eq!(retry_delay_ms(1), 1000);
    assert_eq!(retry_delay_ms(3), 4000);
}

fn reply(status: u16, token: Option<&str>, body: &str, json: Option<SharelinksJson>) -> SharelinksReply {
    SharelinksReply { status, csrf_token: token.map(|t| t.to_string()), body: body.to_string(), json }
}

fn failed(step: SharelinksStep) -> (String, bool) {
    match step {
        SharelinksStep::Failed { message, retryable } => (message, retryable),
        other => panic!("failure expected, got {:?}", other),
    }
}

fn invite(access: Option<&str>, link: LinkCodeValue, place: Option<u64>, server: Option<u64>) -> SharelinksJson {
    SharelinksJson {
        invite: Some(InviteData { access_code: access.map(|a| a.to_string()), link_code: link, place_id: place, private_server_id: server }),
        access_code: None,
        link_code: None,
    }
}

#[test]
fn sharelinks_status_steps() {
    match sharelinks_step(0, &reply(403, Some("t"), "", None), 1) {
        SharelinksStep::Post { csrf } => assert_eq!(csrf, "t"),
        other => panic!("{:?}", other),
    }
    assert_eq!(failed(sharelinks_step(2, &reply(403, Some("t"), "", None), 1)), ("CSRF token rejected after 3 retries".to_string(), false));
    assert_eq!(failed(sharelinks_step(0, &reply(403, None, "", None), 1)), ("Authentication rejected (403, no CSRF in response)".to_string(), false));
    assert_eq!(failed(sharelinks_step(0, &reply(429, None, "", None), 1)), ("Rate limited (429)".to_string(), true));
    assert_eq!(failed(sharelinks_step(0, &reply(503, None, "", None), 1)), ("Server error: 503 Service Unavailable".to_string(), true));
    assert_eq!(failed(sharelinks_step(0, &reply(404, None, "nope", None), 1)), ("Invalid link code (404 Not Found): nope".to_string(), false));
    assert_eq!(failed(sharelinks_step(0, &reply(302, None, "x", None), 1)), ("Unexpected status 302 Found: x".to_string(), true));
    assert_eq!(failed(sharelinks_step(0, &reply(200, None, "{", None), 1)), ("Invalid JSON response: {".to_string(), false));
    let long = "a".repeat(250);
    let (m, _) = failed(sharelinks_step(0, &reply(400, None, &long, None), 1));
    assert_eq!(m, format!("Invalid link code (400 Bad Request): {}", "a".repeat(200)));
}

#[test]
fn sharelinks_json_steps() {
    match sharelinks_step(0, &reply(200, None, "", Some(invite(Some("AC"), LinkCodeValue::Unsigned(123), None, None))), 1) {
        SharelinksStep::Resolved { access_code, link_code } => {
            assert_eq!(access_code, "AC");
            assert_eq!(link_code.as_deref(), Some("123"));
        },
        other => panic!("{:?}", other),
    }
    match sharelinks_step(0, &reply(200, None, "", Some(invite(Some("AC"), LinkCodeValue::Text("x1".to_string()), None, None))), 1) {
        SharelinksStep::Resolved { link_code, .. } => assert_eq!(link_code, None),
        other => panic!("{:?}", other),
    }
    match sharelinks_step(0, &reply(200, None, "", Some(invite(None, LinkCodeValue::Text("987654321".to_string()), None, None))), 55) {
        SharelinksStep::FetchPages { place_id, link_code } => {
            assert_eq!(place_id, 55);
            assert_eq!(link_code, "987654321");
        },
        other => panic!("{:?}", other),
    }
    match sharelinks_step(0, &reply(200, None, "", Some(invite(None, LinkCodeValue::Negative(-4), Some(8), None))), 55) {
        SharelinksStep::FetchPages { place_id, link_code } => {
            assert_eq!(place_id, 8);
            assert_eq!(link_code, "-4");
        },
        other => panic!("{:?}", other),
    }
    match sharelinks_step(0, &reply(200, None, "", Some(invite(None, LinkCodeValue::Text(CODE.to_string()), None, None))), 1) {
        SharelinksStep::Resolved { access_code, link_code } => {
            assert_eq!(access_code, CODE);
            assert_eq!(link_code, None);
        },
        other => panic!("{:?}", other),
    }
    match sharelinks_step(0, &reply(200, None, "", Some(invite(None, LinkCodeValue::Absent, None, Some(5)))), 1) {
        SharelinksStep::ByServerId { server_id } => assert_eq!(server_id, 5),
        other => panic!("{:?}", other),
    }
    assert_eq!(
        failed(sharelinks_step(0, &reply(200, None, "", Some(invite(None, LinkCodeValue::Text(String::new()), None, None))), 1)),
        ("No privateServerId, accessCode, or linkCode in sharelinks response".to_string(), false)
    );
    let top = SharelinksJson { invite: None, access_code: Some("X".to_string()), link_code: None };
    match sharelinks_step(0, &reply(200, None, "", Some(top)), 1) {
        SharelinksStep::Resolved { access_code, .. } => assert_eq!(access_code, "X"),
        other => panic!("{:?}", other),
    }
    let none = SharelinksJson { invite: None, access_code: None, link_code: Some("short".to_string()) };
    assert_eq!(failed(sharelinks_step(0, &reply(200, None, "{}", Some(none)), 1)), ("No invite data in response: {}".to_string(), false));
}

#[test]
fn sharelinks_follow_ups() {
    let inv = InviteData { access_code: None, link_code: LinkCodeValue::Absent, place_id: None, private_server_id: None };
    match after_pages(Some("code".to_string()), "123".to_string(), &inv) {
        SharelinksStep::Resolved { access_code, link_code } => {
            assert_eq!(access_code, "code");
            assert_eq!(link_code.as_deref(), Some("123"));
        },
        other => panic!("{:?}", other),
    }
    assert!(matches!(after_pages(None, "123".to_string(), &inv), SharelinksStep::Failed { .. }));
    assert_eq!(failed(after_server_lookup(Err(AppError::RobloxApi("x".to_string())))), ("Failed to resolve by server ID: Roblox API error: x".to_string(), true));
    let servers = vec![(1, None), (2, Some("a".to_string())), (2, Some("b".to_string()))];
    assert_eq!(access_code_for_server(&servers, 2).as_deref(), Some("a"));
    let servers = vec![(2, None), (2, Some("b".to_string()))];
    assert_eq!(access_code_for_server(&servers, 2).as_deref(), Some("b"));
    assert_eq!(access_code_for_server(&servers, 3), None);
    assert_eq!(server_not_found(5), AppError::RobloxApi("Could not find accessCode for privateServerId=5".to_string()));
    assert_eq!(
        link_code_failure(),
        AppError::RobloxApi("Could not resolve access code from privateServerLinkCode. The link may be invalid or expired.".to_string())
    );
}

#[test]
fn access_codes_in_pages() {
    let page = format!("foo Roblox.GameLauncher.joinPrivateGame(123,  '{}') bar", CODE);
    assert_eq!(access_code_in_page(&page).as_deref(), Some(CODE));
    let json = "{\"accessCode\" : \"ABCDEF01-2345-6789-abcd-ef0123456789\"}";
    assert_eq!(access_code_in_page(json).as_deref(), Some("ABCDEF01-2345-6789-abcd-ef0123456789"));
    let both = format!("{} {}", json, page);
    assert_eq!(access_code_in_page(&both).as_deref(), Some(CODE));
    assert_eq!(access_code_in_page(&format!("joinPrivateGame(,'{}')", CODE)), None);
    assert_eq!(access_code_in_page(&format!("Roblox.GameLauncher.joinPrivateGame(1,'{}x')", CODE)), None);
    assert_eq!(page_access_code(200, "nothing").unwrap_err(), AppError::RobloxApi("Access code not found in page HTML".to_string()));
    assert_eq!(page_access_code(500, &page).unwrap_err(), AppError::RobloxApi("Game page returned status: 500 Internal Server Error".to_string()));
    assert_eq!(page_access_code(200, &page).unwrap(), CODE);
    assert_eq!(private_server_page_url(false, 5, "12"), "https://www.roblox.com/games/5?privateServerLinkCode=12");
    assert_eq!(private_server_page_url(true, 5, "12"), "https://web.roblox.com/games/5?privateServerLinkCode=12");
}

#[test]
fn cache_reads_back_what_was_written() {
    let mut cache = AccessCodeCache::new();
    assert_eq!(cache.get(1, "lc"), None);
    cache.insert(1, "lc".to_string(), "ac".to_string(), Some("n".to_string()));
    assert_eq!(cache.get(1, "lc"), Some(("ac".to_string(), Some("n".to_string()))));
    assert_eq!(cache.get(2, "lc"), None);
    cache.insert(1, "lc".to_string(), "ac2".to_string(), None);
    cache.insert(2, "lc".to_string(), "other".to_string(), None);
    assert_eq!(cache.get(1, "lc"), Some(("ac2".to_string(), None)));
    assert_eq!(cache.get(2, "lc"), Some(("other".to_string(), None)));
}

#[test]
fn attempts_back_off_and_stop() {
    let mut a = ResolveAttempts::new(4);
    assert_eq!(a.next_attempt(), Some(0));
    assert!(a.record_failure("e1".to_string(), true, true));
    assert_eq!(a.next_attempt(), Some(1000));
    assert!(!a.record_failure("csrf".to_string(), true, false));
    assert_eq!(a.next_attempt(), Some(2000));
    assert!(!a.record_failure("e2".to_string(), false, true));
    assert_eq!(a.next_attempt(), None);
    assert_eq!(
        a.share_code_failure(),
        AppError::RobloxApi("Could not resolve share code. Last error: e2. The link may be invalid or expired.".to_string())
    );
}

#[test]
fn ticket_steps() {
    assert!(matches!(auth_ticket_step(0, 200, Some("T".to_string()), None), TicketStep::Done(Ok(t)) if t == "T"));
    assert!(matches!(auth_ticket_step(0, 200, None, None), TicketStep::Done(Err(AppError::RobloxApi(m))) if m == "No auth ticket in response"));
    assert!(matches!(auth_ticket_step(0, 403, None, Some("c".to_string())), TicketStep::Retry { csrf } if csrf == "c"));
    assert!(matches!(auth_ticket_step(2, 403, None, Some("c".to_string())), TicketStep::Done(Err(AppError::RobloxApi(m))) if m == "Failed to get auth ticket after 3 CSRF retries"));
    assert!(matches!(auth_ticket_step(1, 500, None, None), TicketStep::Done(Err(AppError::RobloxApi(m))) if m == "Failed to get auth ticket: 500 Internal Server Error (attempt 2)"));
    assert!(matches!(auth_ticket_step(0, 403, None, None), TicketStep::Done(Err(AppError::RobloxApi(m))) if m == "Failed to get auth ticket: 403 Forbidden (attempt 1)"));
}

#[test]
fn token_failures_are_recorded_without_stopping() {
    let mut a = ResolveAttempts::new(4);
    a.record_token_failure(&AppError::Http("timed out".to_string()));
    assert_eq!(a.attempt, 1);
    assert!(!a.stopped);
    assert_eq!(a.last_error, "CSRF token failed: HTTP error: timed out");
    assert_eq!(a.next_attempt(), Some(1000));
}

#[test]
fn unresolved_access_code_names_the_cause() {
    let e = access_code_unresolved(&AppError::RobloxApi("gone".to_string()));
    match e {
        AppError::RobloxApi(t) => assert_eq!(
            t,
            "Could not resolve private server access code: Roblox API error: gone. Make sure the link is valid and not expired."
        ),
        other => panic!("unexpected {:?}", other),
    }
}

#[test]
fn quoted_bodies_must_cut_between_characters() {
    let mut body = "x".repeat(199);
    body.push('é');
    let bad = SharelinksReply { status: 404, csrf_token: None, body: body.clone(), json: None };
    assert!(!quote_cut_ok(&bad));
    let unquoted = SharelinksReply { status: 429, csrf_token: None, body, json: None };
    assert!(quote_cut_ok(&unquoted));
    let short = SharelinksReply { status: 404, csrf_token: None, body: "é".to_string(), json: None };
    assert!(quote_cut_ok(&short));
}

#[test]
fn resolving_starts_from_the_cache_then_the_code_kind() {
    let mut cache = AccessCodeCache::new();
    cache.insert(5, "12345678901".to_string(), CODE.to_string(), Some("12345678901".to_string()));
    match resolve_start(&mut cache, 5, "12345678901") {
        ResolveStart::Known(a, n) => {
            assert_eq!(a, CODE);
            assert_eq!(n.as_deref(), Some("12345678901"));
        }
        other => panic!("unexpected {:?}", other),
    }
    assert!(matches!(resolve_start(&mut cache, 6, "12345678901"), ResolveStart::PrivateServerLinkCode));
    assert!(matches!(resolve_start(&mut cache, 5, "a1b2c3d4e5f6a7b8"), ResolveStart::ShareCode));
    match resolve_start(&mut cache, 7, CODE) {
        ResolveStart::Known(a, n) => {
            assert_eq!(a, CODE);
            assert_eq!(n, None);
        }
        other => panic!("unexpected {:?}", other),
    }
    assert_eq!(cache.get(7, CODE), Some((CODE.to_string(), None)));
    assert_eq!(cache.get(6, "12345678901"), None);
}
