use ram_manager::crypto::generate_key;
use ram_manager::error::AppError;
use ram_manager::game::{
    game_details_of, game_details_url, games_details, invite_privacy_open, link_from_share_reply, link_in_share_page,
    parse_game_url, servers_url, share_code_of, share_link_unresolved, share_resolution_url, universe_url,
    CreatorInfo, GameDetailsRaw,
};
use ram_manager::models::Account;
use ram_manager::presence::{
    first_presence, presence_batches, presence_of, presence_request, single_presence_request, PresenceType, RawPresence,
};
use ram_manager::storage::AccountStore;

#[test]
fn game_urls_parse() {
    assert_eq!(
        parse_game_url("https://www.roblox.com/games/12345/Some-Game?privateServerLinkCode=777").unwrap(),
        (12345, "777".to_string())
    );
    assert_eq!(
        parse_game_url("https://www.roblox.com/games/5?x=1&privateServerLinkCode=a%20b").unwrap(),
        (5, "a b".to_string())
    );
    assert_eq!(parse_game_url("not a url").unwrap_err(), AppError::Other("Invalid URL: not a url".to_string()));
    assert_eq!(
        parse_game_url("https://www.roblox.com/games/abc?privateServerLinkCode=1").unwrap_err(),
        AppError::Other("Could not find Place ID in URL".to_string())
    );
    assert_eq!(
        parse_game_url("https://www.roblox.com/games/5/x").unwrap_err(),
        AppError::Other("Could not find privateServerLinkCode in URL".to_string())
    );
}

#[test]
fn share_pages() {
    let page = "<meta content=\"https://www.roblox.com/games/606849621/Jailbreak?privateServerLinkCode=0123&x\" />";
    assert_eq!(link_in_share_page(page), Some((606849621, "0123".to_string())));
    assert_eq!(link_in_share_page("privateServerLinkCode=5"), None);
    assert_eq!(link_in_share_page("/games/1/a?privateServerLinkCode=\""), None);
    assert_eq!(link_in_share_page("/games/x/a?privateServerLinkCode=9 "), None);
    assert_eq!(link_in_share_page("/games/3/a?privateServerLinkCode=tail"), Some((3, "tail".to_string())));
    assert_eq!(share_code_of("https://www.roblox.com/share?code=abc&type=Server").as_deref(), Some("abc"));
    assert_eq!(share_code_of("nonsense"), None);
    assert_eq!(share_resolution_url("abc"), "https://apis.roblox.com/sharelinks/v1/resolve-link?code=abc&type=Server");
    assert_eq!(link_from_share_reply(Some(5), Some("lc".to_string()), None, "code".to_string()), Some((5, "lc".to_string())));
    assert_eq!(link_from_share_reply(Some(5), Some("lc".to_string()), Some("ps".to_string()), "code".to_string()), Some((5, "ps".to_string())));
    assert_eq!(link_from_share_reply(Some(5), None, None, "code".to_string()), Some((5, "code".to_string())));
    assert_eq!(link_from_share_reply(None, None, None, "code".to_string()), None);
    assert!(matches!(share_link_unresolved(), AppError::Other(m) if m.starts_with("Could not resolve share link.")));
    assert!(invite_privacy_open("{\"x\":\"AllUsers\"}"));
    assert!(!invite_privacy_open("AllUsers"));
}

#[test]
fn server_and_game_urls() {
    let base = "https://games.roblox.com/v1/games/5/servers/Public?sortOrder=Asc&excludeFullGames=false&limit=";
    assert_eq!(servers_url(5, None, None), format!("{}10", base));
    assert_eq!(servers_url(5, Some("cur"), Some(500)), format!("{}100&cursor=cur", base));
    assert_eq!(servers_url(5, None, Some(25)), format!("{}25", base));
    assert_eq!(universe_url(5), "https://apis.roblox.com/universes/v1/places/5/universe");
    assert_eq!(game_details_url(&[]), None);
    assert_eq!(game_details_url(&[1, 22, 333]).as_deref(), Some("https://games.roblox.com/v1/games?universeIds=1,22,333"));
}

fn raw(id: u64, root: Option<u64>, creator: Option<CreatorInfo>) -> GameDetailsRaw {
    GameDetailsRaw {
        id,
        root_place_id: root,
        name: "Game".to_string(),
        description: None,
        creator,
        max_players: Some(10),
        playing: Some(3),
        visits: None,
        favorited_count: Some(4),
    }
}

#[test]
fn game_details_mapping() {
    let d = game_details_of(raw(1, None, Some(CreatorInfo { id: 9, name: "c".to_string() })));
    assert_eq!(d.place_id, 1);
    assert_eq!(d.builder.as_deref(), Some("c"));
    assert_eq!(d.builder_id, Some(9));
    assert_eq!(d.favorites_count, Some(4));
    assert_eq!(d.image_token, None);
    let all = games_details(vec![raw(1, Some(77), None), raw(2, None, None)]);
    assert_eq!(all.len(), 2);
    assert_eq!(all[0].place_id, 77);
    assert_eq!(all[0].builder, None);
    assert_eq!(all[1].place_id, 2);
}

#[test]
fn presence_types_and_batches() {
    assert_eq!(PresenceType::from(2u8), PresenceType::InGame);
    assert_eq!(PresenceType::from(1u8), PresenceType::Online);
    assert_eq!(PresenceType::from(3u8), PresenceType::InStudio);
    assert_eq!(PresenceType::from(9u8), PresenceType::Offline);
    assert_eq!(PresenceType::InStudio.code(), 3);
    let ids: Vec<u64> = (0..120).collect();
    let batches = presence_batches(&ids);
    assert_eq!(batches.len(), 3);
    assert_eq!(batches[0], (0..50).collect::<Vec<u64>>());
    assert_eq!(batches[2], (100..120).collect::<Vec<u64>>());
    assert_eq!(presence_batches(&[]).len(), 0);
    assert_eq!(presence_batches(&(0..50).collect::<Vec<u64>>()).len(), 1);
}

#[test]
fn presences_are_shown() {
    let p = presence_of(RawPresence {
        user_id: 4,
        user_presence_type: 2,
        last_location: None,
        place_id: Some(1),
        game_id: None,
        universe_id: None,
        last_online: None,
    });
    assert_eq!(p.last_location, "");
    assert_eq!(p.presence_type, 2);
    assert_eq!(first_presence(Vec::new()).unwrap_err(), AppError::Other("No presence data returned".to_string()));
    assert_eq!(first_presence(vec![p]).unwrap().user_id, 4);
}

#[test]
fn presence_requests() {
    let mut store = AccountStore::from_loaded(generate_key(), Vec::new(), Vec::new());
    let plain = Account::new("plain".to_string());
    let plain_id = plain.id;
    store.add_account(plain, "c0").unwrap();
    assert!(presence_request(&store).unwrap().is_none());
    assert_eq!(single_presence_request(&store, plain_id).unwrap_err(), AppError::Other("Account has no user_id".to_string()));
    let mut a = Account::new("a".to_string());
    a.user_id = Some(11);
    let mut b = Account::new("b".to_string());
    b.user_id = Some(12);
    let ia = a.id;
    store.add_account(a, "ca").unwrap();
    store.add_account(b, "cb").unwrap();
    let (ids, cookie) = presence_request(&store).unwrap().unwrap();
    assert_eq!(ids, vec![11, 12]);
    assert_eq!(cookie, "ca");
    assert_eq!(single_presence_request(&store, ia).unwrap(), (11, "ca".to_string()));
    assert!(matches!(single_presence_request(&store, 5), Err(AppError::AccountNotFound(_))));
}
