use ram_manager::api::{AuthenticatedUser, OnlineProfile};
use ram_manager::crypto::generate_key;
use ram_manager::error::AppError;
use ram_manager::import::{
    clean_import_cookie, export_accounts, finish_import, import_cookie_entries, import_cookies,
    import_user_pass_cookie, malformed_entry_result, non_blank_lines, split_entry, user_pass_entries, Export,
};
use ram_manager::legacy::{check_legacy_cookie, import_legacy_accounts, legacy_label, parse_last_use, LegacyAccount};
use ram_manager::models::Account;
use ram_manager::storage::AccountStore;

const WARNING: &str = "_|WARNING:-DO-NOT-SHARE-THIS.--Sharing-this-will-allow-someone-to-log-in-as-you.--";

fn store() -> AccountStore {
    AccountStore::from_loaded(generate_key(), Vec::new(), Vec::new())
}

fn profile(id: u64, name: &str) -> OnlineProfile {
    OnlineProfile {
        user: AuthenticatedUser { id, name: name.to_string(), display_name: name.to_uppercase() },
        robux: None,
        is_premium: Some(true),
        avatar_url: None,
    }
}

fn legacy(token: Option<String>, username: Option<&str>) -> LegacyAccount {
    LegacyAccount {
        valid: true,
        security_token: token,
        username: username.map(|u| u.to_string()),
        last_use: Some("2024-01-02T03:04:05Z".to_string()),
        alias: Some("al".to_string()),
        description: None,
        password: Some("secret".to_string()),
        group: Some("old".to_string()),
        user_id: Some(77),
        fields: None,
    }
}

#[test]
fn cookie_lines_are_cleaned() {
    assert_eq!(clean_import_cookie("  .ROBLOSECURITY=.ROBLOSECURITY=abc  ").as_deref(), Some("abc"));
    let warned = format!("{}XYZ", WARNING);
    assert_eq!(clean_import_cookie(&warned).as_deref(), Some(warned.as_str()));
    assert_eq!(clean_import_cookie("plain").as_deref(), Some("plain"));
    assert_eq!(clean_import_cookie("   "), None);
}

#[test]
fn cookie_entries_keep_positions() {
    let lines = vec!["".to_string(), " c1 ".to_string(), "   ".to_string(), ".ROBLOSECURITY=c2".to_string()];
    let entries = import_cookie_entries(&lines);
    assert_eq!(entries, vec![(1, "c1".to_string()), (3, "c2".to_string())]);
    assert_eq!(non_blank_lines(&lines), 2);
}

#[test]
fn entries_split_like_splitn_three() {
    assert_eq!(split_entry("user:pass:cookie"), Some(("user".to_string(), "cookie".to_string())));
    assert_eq!(split_entry("user:cookie"), Some(("user".to_string(), "cookie".to_string())));
    assert_eq!(split_entry("a:b:c:d"), Some(("a".to_string(), "c:d".to_string())));
    assert_eq!(split_entry(":x"), Some(("".to_string(), "x".to_string())));
    assert_eq!(split_entry("nocolon"), None);
}

#[test]
fn user_pass_lines_are_trimmed_and_split() {
    let lines = vec![" u:p:c ".to_string(), "".to_string(), "bad".to_string()];
    let entries = user_pass_entries(&lines);
    assert_eq!(entries.len(), 2);
    assert_eq!(entries[0].index, 0);
    assert_eq!(entries[0].parts, Some(("u".to_string(), "c".to_string())));
    assert_eq!(entries[1].index, 2);
    assert_eq!(entries[1].parts, None);
    let r = malformed_entry_result(2);
    assert!(!r.success);
    assert_eq!(r.error.as_deref(), Some("Invalid format. Expected user:pass:cookie or user:cookie"));
}

#[test]
fn failed_check_is_reported_and_store_untouched() {
    let mut s = store();
    let r = finish_import(&mut s, 4, Err(AppError::InvalidCookie("Cookie is invalid or expired".to_string())), None, "c", Some("me".to_string()));
    assert_eq!(r.index, 4);
    assert!(!r.success);
    assert_eq!(r.username.as_deref(), Some("me"));
    assert_eq!(r.error.as_deref(), Some("Invalid cookie: Cookie is invalid or expired"));
    assert_eq!(s.count(), 0);
}

#[test]
fn passed_check_adds_account() {
    let mut s = store();
    let r = finish_import(&mut s, 0, Ok(profile(1, "ann")), Some("grp".to_string()), "ck", None);
    assert!(r.success);
    assert_eq!(r.username.as_deref(), Some("ann"));
    assert_eq!(r.error, None);
    let list = s.list_accounts();
    assert_eq!(list.len(), 1);
    assert_eq!(list[0].group.as_deref(), Some("grp"));
    assert_eq!(list[0].display_name.as_deref(), Some("ANN"));
    assert_eq!(s.get_cookie(&list[0].id).unwrap(), "ck");
}

#[test]
fn import_batches_report_in_order() {
    let mut s = store();
    let pasted = vec![" .ROBLOSECURITY=c0 ".to_string(), "  ".to_string(), "c2".to_string()];
    let results = import_cookies(&mut s, &pasted, vec![Ok(profile(1, "a")), Err(AppError::RobloxApi("x".to_string()))], &Some("g".to_string()));
    assert_eq!(results.len(), 2);
    assert!(results[0].success);
    assert_eq!(results[1].index, 2);
    assert_eq!(results[1].error.as_deref(), Some("Roblox API error: x"));
    let list = s.list_accounts();
    assert_eq!(list.len(), 1);
    assert_eq!(list[0].group.as_deref(), Some("g"));
    assert_eq!(s.get_cookie(&list[0].id).unwrap(), "c0");
    let lines = vec!["u:p:c".to_string(), "broken".to_string()];
    let results = import_user_pass_cookie(&mut s, &lines, vec![Some(Err(AppError::Other("no".to_string()))), None], &None);
    assert_eq!(s.count(), 1);
    assert_eq!(results[0].username.as_deref(), Some("u"));
    assert_eq!(results[0].error.as_deref(), Some("no"));
    assert_eq!(results[1].error.as_deref(), Some("Invalid format. Expected user:pass:cookie or user:cookie"));
}

#[test]
fn export_formats() {
    let mut s = store();
    let a = Account::new("a".to_string());
    let b = Account::new("b".to_string());
    s.add_account(a, "c1").unwrap();
    s.add_account(b, "c2").unwrap();
    match export_accounts(&s, "cookies").unwrap() {
        Export::Text(t) => assert_eq!(t, "c1\nc2\n"),
        _ => panic!("text expected"),
    }
    match export_accounts(&s, "user:cookie").unwrap() {
        Export::Text(t) => assert_eq!(t, "a:c1\nb:c2\n"),
        _ => panic!("text expected"),
    }
    match export_accounts(&s, "json").unwrap() {
        Export::Json(v) => {
            assert_eq!(v.len(), 2);
            assert_eq!(v[1].username, "b");
            assert_eq!(v[1].cookie, "c2");
        },
        _ => panic!("json expected"),
    }
    match export_accounts(&s, "xml") {
        Err(AppError::Other(t)) => assert_eq!(t, "Unknown export format: xml. Use 'cookies', 'user:cookie', or 'json'"),
        _ => panic!("error expected"),
    }
}

#[test]
fn legacy_cookie_checks() {
    assert_eq!(check_legacy_cookie(&None).unwrap_err(), "No security token found");
    assert_eq!(check_legacy_cookie(&Some(String::new())).unwrap_err(), "No security token found");
    let body = "A".repeat(60);
    let token = format!("  {}.ROBLOSECURITY={}  ", WARNING, body);
    assert_eq!(check_legacy_cookie(&Some(token)).unwrap(), body);
    assert_eq!(
        check_legacy_cookie(&Some("abc".to_string())).unwrap_err(),
        "Cookie too short - may be DPAPI encrypted. Export from original RAM with 'No Encryption' first."
    );
    assert_eq!(
        check_legacy_cookie(&Some("é".repeat(30))).unwrap_err(),
        "Cookie appears to be DPAPI encrypted. Export from original RAM with 'No Encryption' first."
    );
}

#[test]
fn legacy_labels_and_dates() {
    assert_eq!(legacy_label(3, &None), "Account #3");
    assert_eq!(legacy_label(3, &Some("zed".to_string())), "zed");
    assert_eq!(parse_last_use("2024-01-02T03:04:05Z").unwrap().secs, 1704164645);
    assert_eq!(parse_last_use("2024-01-02T03:04:05").unwrap().secs, 1704164645);
    assert_eq!(parse_last_use("01/02/2024 03:04:05 PM").unwrap().secs, 1704207845);
    assert!(parse_last_use("garbage").is_none());
}

#[test]
fn legacy_import_offline() {
    let mut s = store();
    let good = legacy(Some(format!("{}{}", WARNING, "B".repeat(55))), None);
    let missing = legacy(None, Some("nobody"));
    let results = import_legacy_accounts(&mut s, &vec![good, missing], vec![None, None]);
    assert_eq!(results.len(), 2);
    assert!(results[0].success);
    assert!(!results[0].validated);
    assert_eq!(results[0].username.as_deref(), Some("Account #0"));
    assert!(!results[1].success);
    assert_eq!(results[1].error.as_deref(), Some("No security token found"));
    let list = s.list_accounts();
    assert_eq!(list.len(), 1);
    assert_eq!(list[0].user_id, Some(77));
    assert_eq!(list[0].group.as_deref(), Some("old"));
    assert_eq!(list[0].last_used.unwrap().secs, 1704164645);
    assert_eq!(s.get_cookie(&list[0].id).unwrap(), "B".repeat(55));
}

#[test]
fn legacy_import_validated() {
    let mut s = store();
    let a = legacy(Some("C".repeat(50)), Some("x"));
    let b = legacy(Some("D".repeat(50)), Some("y"));
    let results = import_legacy_accounts(&mut s, &vec![a, b], vec![Some(Ok(profile(9, "real"))), Some(Err(AppError::InvalidCookie("bad".to_string())))]);
    assert!(results[0].success && results[0].validated);
    assert_eq!(results[0].username.as_deref(), Some("real"));
    assert!(!results[1].success);
    assert_eq!(results[1].username.as_deref(), Some("y"));
    assert_eq!(results[1].error.as_deref(), Some("Cookie validation failed: Invalid cookie: bad"));
    assert_eq!(s.count(), 1);
    assert_eq!(s.list_accounts()[0].user_id, Some(9));
}

#[test]
fn cookie_export_imports_back() {
    let mut s = store();
    let a = Account::new("a".to_string());
    let b = Account::new("b".to_string());
    s.add_account(a, &format!("{}AAA", WARNING)).unwrap();
    s.add_account(b, "plain-cookie").unwrap();
    let text = match export_accounts(&s, "cookies").unwrap() {
        Export::Text(t) => t,
        other => panic!("unexpected {:?}", other),
    };
    let lines: Vec<String> = text.split('\n').map(|l| l.to_string()).collect();
    assert_eq!(lines.len(), 3);
    let entries = import_cookie_entries(&lines);
    assert_eq!(entries, vec![(0, format!("{}AAA", WARNING)), (1, "plain-cookie".to_string())]);
}

#[test]
fn user_cookie_export_imports_back() {
    let mut s = store();
    let a = Account::new("alice".to_string());
    s.add_account(a, "cookie-without-colons").unwrap();
    let text = match export_accounts(&s, "user:cookie").unwrap() {
        Export::Text(t) => t,
        other => panic!("unexpected {:?}", other),
    };
    assert_eq!(text, "alice:cookie-without-colons\n");
    let lines: Vec<String> = text.split('\n').map(|l| l.to_string()).collect();
    let entries = user_pass_entries(&lines);
    assert_eq!(entries.len(), 1);
    assert_eq!(entries[0].index, 0);
    assert_eq!(entries[0].parts, Some(("alice".to_string(), "cookie-without-colons".to_string())));
}

#[test]
fn user_cookie_line_with_a_warning_cookie_reads_as_user_pass_cookie() {
    let line = format!("bob:{}AAA", WARNING);
    let (user, cookie) = split_entry(&line).unwrap();
    assert_eq!(user, "bob");
    assert_eq!(cookie, "-DO-NOT-SHARE-THIS.--Sharing-this-will-allow-someone-to-log-in-as-you.--AAA");
}

#[test]
fn unknown_export_format_reads_no_cookie() {
    let a = Account::new("a".to_string());
    let id = a.id;
    let secret = ram_manager::models::AccountSecret { account_id: id, encrypted_cookie: vec![1], nonce: vec![0; 3] };
    let s = AccountStore::from_loaded(generate_key(), vec![a], vec![secret]);
    match export_accounts(&s, "xml") {
        Err(AppError::Other(t)) => assert_eq!(t, "Unknown export format: xml. Use 'cookies', 'user:cookie', or 'json'"),
        _ => panic!("error expected"),
    }
}

#[test]
fn refused_legacy_tokens_leave_the_store_alone() {
    let mut s = store();
    let short = legacy(Some(format!(".ROBLOSECURITY={}", "A".repeat(40))), Some("bob"));
    let results = import_legacy_accounts(&mut s, &vec![short], vec![None]);
    assert!(!results[0].success);
    assert_eq!(s.count(), 0);
}
