use ram_manager::presets::millis_from_reading;
use ram_manager::launcher::tracker_id_from;
use ram_manager::api::{
    auth_cookie_value, check_action_status, check_authenticated_status, check_place_status, check_status, cookie_header,
    first_image_url, normalized_cookie_header, check_info_status, csrf_token_missing, premium_from_reply, privacy_value, status_display, PrivacySettings,
};
use ram_manager::crypto::generate_key;
use ram_manager::error::AppError;
use ram_manager::format::{hex16, parse_account_id, parse_u64_str, u64_text};
use ram_manager::install::{install_dirs, newest_player, registry_program};
use ram_manager::login::{
    browser_label, browser_session_dir, browser_target, browser_title, has_session_cookie, injected_cookie, is_logged_in_page,
    login_payload, redirect_script, session_cookie,
};
use ram_manager::models::Account;
use ram_manager::nexus::{handle_request, NexusMessage};
use ram_manager::presets::{add_recent_entry, JoinData, RecentEntry, MAX_RECENT};
use ram_manager::settings::{get_themes, join_wait_nanos, servers_to_start, tray_action, AppSettings, JoinThrottle, TrayAction};
use ram_manager::storage::AccountStore;
use ram_manager::time::{seconds_between, Timestamp, MAX_CHRONO_SECS, MIN_CHRONO_SECS};
use ram_manager::watcher::{process_status, TrackedProcess};
use ram_manager::watcher::{roblox_processes, WatcherState};
use ram_manager::webapi::{account_by_id_text, accounts_in_group, cookie_by_id_text};

fn store() -> AccountStore {
    AccountStore::from_loaded(generate_key(), Vec::new(), Vec::new())
}

#[test]
fn cookie_headers() {
    assert_eq!(cookie_header("abc"), ".ROBLOSECURITY=abc");
    assert_eq!(cookie_header(".ROBLOSECURITY=abc"), ".ROBLOSECURITY=abc");
    assert_eq!(normalized_cookie_header(".ROBLOSECURITY=.ROBLOSECURITY=x"), ".ROBLOSECURITY=x");
    assert_eq!(normalized_cookie_header("x"), ".ROBLOSECURITY=x");
    assert_eq!(auth_cookie_value("ok"), ".ROBLOSECURITY=ok");
    assert_eq!(auth_cookie_value("a\nb"), "");
}

#[test]
fn status_messages() {
    assert_eq!(status_display(404), "404 Not Found");
    assert_eq!(status_display(999), "999 <unknown status code>");
    assert!(check_status(204, "x").is_ok());
    assert_eq!(check_status(500, "Robux balance").unwrap_err(), AppError::RobloxApi("Failed to get Robux balance: 500 Internal Server Error".to_string()));
    assert_eq!(check_authenticated_status(401).unwrap_err(), AppError::InvalidCookie("Cookie is invalid or expired".to_string()));
    assert_eq!(
        check_authenticated_status(403).unwrap_err(),
        AppError::RobloxApi("Failed to get authenticated user: 403 Forbidden".to_string())
    );
    assert_eq!(check_place_status(404, "servers", 7).unwrap_err(), AppError::RobloxApi("Failed to get servers for place 7: 404 Not Found".to_string()));
    assert_eq!(
        check_action_status(400, "change password", "bad").unwrap_err(),
        AppError::RobloxApi("Failed to change password (400 Bad Request): bad".to_string())
    );
    assert!(premium_from_reply(200, " true\n"));
    assert!(!premium_from_reply(403, "true"));
    assert!(!premium_from_reply(200, "false"));
    assert_eq!(first_image_url(vec![None, Some("u".to_string())]), None);
    assert_eq!(first_image_url(vec![Some("u".to_string())]).as_deref(), Some("u"));
    assert_eq!(first_image_url(Vec::new()), None);
    assert_eq!(privacy_value(500, Some("x".to_string())), None);
    assert_eq!(privacy_value(200, Some("x".to_string())).as_deref(), Some("x"));
    let p = PrivacySettings::from_replies(Some("a".to_string()), None, None, Some("t".to_string()), None, None);
    assert_eq!(p.phone_discovery, None);
    assert_eq!(p.trade_privacy.as_deref(), Some("t"));
}

#[test]
fn numbers_and_ids() {
    assert_eq!(u64_text(0), "0");
    assert_eq!(u64_text(18446744073709551615), "18446744073709551615");
    assert_eq!(hex16(0xabc), "0000000000000abc");
    assert_eq!(parse_u64_str("+12"), Some(12));
    assert_eq!(parse_u64_str(""), None);
    assert_eq!(parse_u64_str("18446744073709551616"), None);
    assert_eq!(parse_u64_str("1a"), None);
    assert_eq!(parse_account_id("01234567-89ab-cdef-0123-456789abcdef").unwrap(), 0x0123_4567_89ab_cdef_0123_4567_89ab_cdef);
    assert!(matches!(parse_account_id("nope"), Err(AppError::Other(m)) if m.starts_with("Invalid UUID: ")));
}

#[test]
fn timestamps() {
    let epoch = Timestamp::from_parts(0, 0).unwrap();
    let p = TrackedProcess { pid: 7, account_id: "acc".to_string(), place_id: 3, started_at: epoch };
    let later_status = process_status(&p, true, Timestamp::from_parts(61, 0).unwrap());
    assert_eq!(later_status.started_at, "1970-01-01T00:00:00+00:00");
    assert_eq!(later_status.uptime_seconds, 61);
    assert!(later_status.is_running);
    let later = Timestamp::from_parts(90, 500_000_000).unwrap();
    assert_eq!(seconds_between(later, epoch), 90);
    assert_eq!(seconds_between(epoch, later), -90);
    assert!(Timestamp::from_parts(0, 2_000_000_000).is_none());
}

#[test]
fn settings_defaults() {
    let s = AppSettings::default();
    assert_eq!((s.api_port, s.nexus_port, s.theme.as_str(), s.auto_refresh_minutes, s.watcher_enabled, s.watcher_interval_seconds), (7963, 7964, "dark", 0, true, 30));
    assert_eq!(get_themes(), vec!["dark", "light", "midnight", "cyberpunk"]);
    assert_eq!(servers_to_start(&s), (Some(7963), Some(7964)));
    let off = AppSettings { api_port: 0, ..AppSettings::default() };
    assert_eq!(servers_to_start(&off), (None, Some(7964)));
    assert_eq!(tray_action("show"), TrayAction::ShowWindow);
    assert_eq!(tray_action("quit"), TrayAction::Quit);
    assert_eq!(tray_action("other"), TrayAction::Ignore);
}

#[test]
fn join_spacing() {
    assert_eq!(join_wait_nanos(1_000_000_000, 3000), 2_000_000_000);
    assert_eq!(join_wait_nanos(5_000_000_000, 3000), 0);
    assert_eq!(join_wait_nanos(3_000_000_000, 3000), 0);
    let mut t = JoinThrottle::new();
    assert_eq!(t.min_delay_ms, 3000);
    assert_eq!(t.wait_nanos(), 0);
    t.record_join();
    assert!(t.last_join.is_some());
    assert!(t.wait_nanos() > 0);
}

#[test]
fn watched_processes() {
    let mut w = WatcherState::new();
    w.track(4_000_000_001, "acc".to_string(), 5);
    w.track(4_000_000_002, "acc2".to_string(), 6);
    w.track(4_000_000_003, "acc3".to_string(), 7);
    let status = w.get_status();
    assert_eq!(status.len(), 3);
    assert!(status.iter().all(|s| !s.is_running && s.uptime_seconds >= 0 && !s.started_at.is_empty()));
    let removed = w.remove_pids(&vec![4_000_000_002, 9]);
    assert_eq!(removed.len(), 1);
    assert_eq!(removed[0].account_id, "acc2");
    assert_eq!(w.get_status().len(), 2);
    w.untrack(4_000_000_001);
    assert_eq!(w.get_status().len(), 1);
    let dead = w.cleanup_dead();
    assert_eq!(dead.len(), 1);
    assert_eq!(dead[0].place_id, 7);
    assert_eq!(w.running_count(), 0);
    let found = roblox_processes(vec![
        (1, "RobloxPlayerBeta.exe".to_string()),
        (2, "chrome".to_string()),
        (3, "ROBLOXPLAYER".to_string()),
    ]);
    assert_eq!(found, vec![(1, "RobloxPlayerBeta.exe".to_string()), (3, "ROBLOXPLAYER".to_string())]);
}

#[test]
fn install_lookup() {
    let line = "    (Default)    REG_SZ    \"C:\\Program Files\\Bloxstrap\\Bloxstrap.exe\" -player \"%1\"";
    assert_eq!(registry_program(line).as_deref(), Some("C:\\Program"));
    assert_eq!(registry_program("  x  REG_SZ  \"C:\\Bloxstrap.exe\"  ").as_deref(), Some("C:\\Bloxstrap.exe"));
    assert_eq!(registry_program("a REG_SZ C:\\B.exe REG_SZ D").as_deref(), Some("C:\\B.exe"));
    assert_eq!(registry_program("no value here"), None);
    let c = vec![
        (Some(5u128), "a".to_string()),
        (Some(9u128), "b".to_string()),
        (Some(9u128), "c".to_string()),
        (None, "d".to_string()),
    ];
    assert_eq!(newest_player(&c).as_deref(), Some("b"));
    assert_eq!(newest_player(&vec![(None, "d".to_string()), (Some(0u128), "e".to_string())]), None);
}

#[test]
fn login_helpers() {
    assert!(is_logged_in_page("https://www.roblox.com/home"));
    assert!(!is_logged_in_page("https://www.roblox.com/login?returnUrl=/home"));
    let cookies = vec![("a".to_string(), "1".to_string()), (".ROBLOSECURITY".to_string(), "v".to_string())];
    assert!(has_session_cookie(&cookies));
    assert_eq!(session_cookie(&cookies).unwrap(), "v");
    let empty = vec![(".ROBLOSECURITY".to_string(), String::new())];
    assert_eq!(session_cookie(&empty).unwrap_err(), AppError::InvalidCookie(".ROBLOSECURITY cookie is empty".to_string()));
    assert_eq!(
        session_cookie(&Vec::new()).unwrap_err(),
        AppError::InvalidCookie("No .ROBLOSECURITY cookie found after login. Try logging in again.".to_string())
    );
    assert_eq!(browser_label("0123456789ab"), "browser-01234567");
    assert_eq!(browser_title("bob"), "Roblox - bob");
    assert_eq!(browser_target(None), "https://www.roblox.com/home");
    assert_eq!(injected_cookie(".ROBLOSECURITY=a'b\"c\\d"), "a\\'b\\\"c\\\\d");
    let script = redirect_script("CK", "https://t/");
    assert!(script.contains("document.cookie = \".ROBLOSECURITY=CK; domain=.roblox.com; path=/; secure; max-age=31536000\";"));
    assert!(script.contains("window.location.replace(\"https://t/\");"));
    let p = login_payload(Err(AppError::Other("x".to_string())));
    assert!(!p.success);
    assert_eq!(p.error.as_deref(), Some("x"));
}

#[test]
fn web_api_answers() {
    let mut s = store();
    let mut a = Account::new("a".to_string());
    a.group = Some("g".to_string());
    let ia = a.id;
    s.add_account(a, "ca").unwrap();
    s.add_account(Account::new("b".to_string()), "cb").unwrap();
    assert_eq!(accounts_in_group(&s, &None).len(), 2);
    let in_g = accounts_in_group(&s, &Some("g".to_string()));
    assert_eq!(in_g.len(), 1);
    assert_eq!(in_g[0].id, ia);
    let bad = account_by_id_text(&s, "bad").unwrap_err();
    assert_eq!((bad.0, bad.1.error.as_str()), (400, "Invalid UUID"));
    let missing = cookie_by_id_text(&s, "01234567-89ab-cdef-0123-456789abcdef").unwrap_err();
    assert_eq!((missing.0, missing.1.error.as_str()), (404, "Account not found"));
    let text = uuid::Uuid::from_u128(ia).to_string();
    assert_eq!(cookie_by_id_text(&s, &text).unwrap(), "ca");
    assert_eq!(account_by_id_text(&s, &text).unwrap().username, "a");
}

#[test]
fn nexus_requests() {
    let mut s = store();
    let a = Account::new("a".to_string());
    let ia = a.id;
    s.add_account(a, "ca").unwrap();
    assert!(matches!(handle_request(NexusMessage::Ping, &s), NexusMessage::Pong));
    match handle_request(NexusMessage::GetAccounts, &s) {
        NexusMessage::AccountList { accounts } => {
            assert_eq!(accounts.len(), 1);
            assert_eq!(accounts[0].username, "a");
        },
        other => panic!("{:?}", other),
    }
    let text = uuid::Uuid::from_u128(ia).to_string();
    match handle_request(NexusMessage::GetCookie { account_id: text.clone() }, &s) {
        NexusMessage::Cookie { account_id, cookie } => {
            assert_eq!(account_id, text);
            assert_eq!(cookie, "ca");
        },
        other => panic!("{:?}", other),
    }
    assert!(matches!(handle_request(NexusMessage::GetCookie { account_id: "x".to_string() }, &s), NexusMessage::Error { message } if message == "Invalid UUID"));
    assert!(matches!(
        handle_request(NexusMessage::GetCookie { account_id: "01234567-89ab-cdef-0123-456789abcdef".to_string() }, &s),
        NexusMessage::Error { message } if message == "Account not found: 01234567-89ab-cdef-0123-456789abcdef"
    ));
    assert!(matches!(handle_request(NexusMessage::Pong, &s), NexusMessage::Error { message } if message == "Unsupported message type"));
}

#[test]
fn recent_lists() {
    let mut list: Vec<RecentEntry> = Vec::new();
    for i in 0..12u64 {
        add_recent_entry(&mut list, &format!("v{}", i), format!("l{}", i), i);
    }
    assert_eq!(list.len(), MAX_RECENT);
    assert_eq!(list[0].value, "v11");
    add_recent_entry(&mut list, " V5 ", "again".to_string(), 99);
    assert_eq!(list.len(), MAX_RECENT);
    assert_eq!(list[0].value, "V5");
    assert_eq!(list.iter().filter(|e| e.value.to_lowercase() == "v5").count(), 1);
    add_recent_entry(&mut list, "   ", "x".to_string(), 1);
    assert_eq!(list[0].value, "V5");
    let mut data = JoinData::default();
    data.add_preset("n".to_string(), "1".to_string(), "".to_string());
    assert_eq!(data.presets.len(), 1);
    assert_eq!(data.presets[0].id.len(), 16);
    assert!(matches!(data.update_preset("zz", "a".to_string(), "b".to_string(), "c".to_string()), Err(AppError::Other(m)) if m == "Preset not found: zz"));
    let id = data.presets[0].id.clone();
    data.update_preset(&id, "m".to_string(), "2".to_string(), "3".to_string()).unwrap();
    assert_eq!(data.presets[0].name, "m");
    data.remove_preset(&id);
    assert!(data.presets.is_empty());
}

#[test]
fn info_failures_do_not_name_the_status() {
    assert!(check_info_status(200, "gender").is_ok());
    match check_info_status(500, "gender") {
        Err(AppError::RobloxApi(t)) => assert_eq!(t, "Failed to get gender"),
        other => panic!("unexpected {:?}", other),
    }
    match csrf_token_missing() {
        AppError::RobloxApi(t) => assert_eq!(t, "Failed to get CSRF token"),
        other => panic!("unexpected {:?}", other),
    }
}

#[test]
fn adding_a_blank_recent_value_reports_no_change() {
    let mut data = JoinData::default();
    assert!(!data.add_recent_place_id("   ", "x".to_string()));
    assert!(data.recent_place_ids.is_empty());
    assert!(data.add_recent_place_id(" 42 ", "game".to_string()));
    assert_eq!(data.recent_place_ids[0].value, "42");
    assert!(data.add_recent_ps_link("https://x", "ps".to_string()));
    assert_eq!(data.recent_ps_links.len(), 1);
}

#[test]
fn cut_points_are_checked() {
    assert!(ram_manager::text::cut_allowed("abcdefghij", 8));
    assert!(ram_manager::text::cut_allowed("abc", 8));
    assert!(!ram_manager::text::cut_allowed("abcdefgé", 8));
}

#[test]
fn untracking_a_new_process_restores_the_watcher() {
    let mut w = WatcherState::new();
    w.track(4_000_000_011, "acc".to_string(), 5);
    w.track(4_000_000_012, "new".to_string(), 6);
    w.untrack(4_000_000_012);
    let status = w.get_status();
    assert_eq!(status.len(), 1);
    assert_eq!(status[0].pid, 4_000_000_011);
    assert_eq!(status[0].account_id, "acc");
}

#[test]
fn clock_readings_become_millis() {
    assert_eq!(millis_from_reading(None), 0);
    assert_eq!(millis_from_reading(Some(1_700_000_000_123)), 1_700_000_000_123);
    assert_eq!(millis_from_reading(Some((1u128 << 64) + 5)), 5);
}

#[test]
fn tracker_ids_stay_below_a_billion() {
    assert_eq!(tracker_id_from(1_234_567_890_123), 567_890_123);
    assert_eq!(tracker_id_from(42), 42);
}

#[test]
fn nexus_reports_why_a_cookie_does_not_decrypt() {
    let key = generate_key();
    let a = Account::new("a".to_string());
    let id = a.id;
    let secret = ram_manager::models::AccountSecret { account_id: id, encrypted_cookie: vec![0; 20], nonce: vec![0; 12] };
    let s = AccountStore::from_loaded(key, vec![a], vec![secret]);
    let text = uuid::Uuid::from_u128(id).to_string();
    match handle_request(NexusMessage::GetCookie { account_id: text }, &s) {
        NexusMessage::Error { message } => assert_eq!(message, "Decryption error: aead::Error"),
        other => panic!("unexpected {:?}", other),
    }
}

#[test]
fn answers_decide_which_processes_are_dead() {
    let mut w = WatcherState::new();
    w.track(4_000_000_011, "a".to_string(), 1);
    w.track(4_000_000_012, "b".to_string(), 2);
    w.track(4_000_000_013, "c".to_string(), 3);
    let answers = vec![
        (4_000_000_013, false),
        (4_000_000_011, true),
        (77, false),
        (4_000_000_012, false),
        (78, true),
    ];
    assert_eq!(w.dead_pids(&answers), vec![4_000_000_013, 4_000_000_012]);
    assert_eq!(w.running_among(&answers), 1);
    assert_eq!(w.dead_pids(&vec![]), Vec::<u32>::new());
    assert_eq!(w.running_among(&vec![(4_000_000_011, true), (4_000_000_012, true)]), 2);
}

#[test]
fn accounts_sharing_an_id_prefix_keep_separate_sessions() {
    let a = 0x0123_4567_89ab_cdef_0123_4567_89ab_cdefu128;
    let b = 0x0123_4567_ffff_cdef_0123_4567_89ab_cdefu128;
    assert_eq!(browser_session_dir(a), "01234567-89ab-cdef-0123-456789abcdef");
    assert_eq!(browser_session_dir(b), "01234567-ffff-cdef-0123-456789abcdef");
    assert_ne!(browser_session_dir(a), browser_session_dir(b));
    assert_eq!(browser_label(&browser_session_dir(a)), browser_label(&browser_session_dir(b)));
}

#[test]
fn install_dirs_are_tried_in_order() {
    let dirs = install_dirs("C:\\Users\\u\\AppData\\Local", "C:\\Program Files (x86)");
    let expected: Vec<(String, String)> = vec![
        ("C:\\Users\\u\\AppData\\Local", "Roblox"),
        ("C:\\Users\\u\\AppData\\Local", "Bloxstrap"),
        ("C:\\Users\\u\\AppData\\Local", "Fishstrap"),
        ("C:\\Users\\u\\AppData\\Local", "Froststrap"),
        ("C:\\Program Files (x86)", "Roblox"),
    ]
    .into_iter()
    .map(|(a, b)| (a.to_string(), b.to_string()))
    .collect();
    assert_eq!(dirs, expected);
}

#[test]
fn chrono_date_range_is_exact() {
    assert!(Timestamp::from_parts(MAX_CHRONO_SECS, 999_999_999).is_some());
    assert!(Timestamp::from_parts(MAX_CHRONO_SECS + 1, 0).is_none());
    assert!(Timestamp::from_parts(MIN_CHRONO_SECS, 0).is_some());
    assert!(Timestamp::from_parts(MIN_CHRONO_SECS - 1, 0).is_none());
    assert!(Timestamp::from_parts(59, 1_500_000_000).is_some());
    assert!(Timestamp::from_parts(58, 1_500_000_000).is_none());
    assert!(Timestamp::from_parts(-1, 1_000_000_000).is_some());
    assert!(Timestamp::from_parts(0, 2_000_000_000).is_none());
}
