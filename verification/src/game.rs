use vstd::prelude::*;
use vstd::string::StringExecFns;
use crate::error::{AppError, AppResult};
use crate::format::{decimal, push_decimal, parsed_u64, parse_u64};
use crate::text::{
    chars_of, string_of, occurs_at, find_from, rfind_before, is_white_space, is_white_space_char,
    first_index_of, find_char_from, lookup_first, pairs_view, find_pair, opt_view,
};

verus! {

/// The first position at or after `from` where `p` occurs in `s`, or -1.
pub open spec fn first_occurrence(s: Seq<char>, p: Seq<char>, from: int) -> int
    decreases s.len() + 1 - from,
{
    if from < 0 || from > s.len() {
        -1
    } else if occurs_at(s, p, from) {
        from
    } else {
        first_occurrence(s, p, from + 1)
    }
}

/// The last position at or before `top` where `p` occurs in `s`, or -1.
pub open spec fn last_occurrence(s: Seq<char>, p: Seq<char>, top: int) -> int
    decreases top + 1,
{
    if top < 0 {
        -1
    } else if occurs_at(s, p, top) {
        top
    } else {
        last_occurrence(s, p, top - 1)
    }
}

pub proof fn lemma_first_occurrence(s: Seq<char>, p: Seq<char>, from: int, i: int)
    requires
        0 <= from <= i,
        occurs_at(s, p, i),
        forall|j: int| from <= j < i ==> !occurs_at(s, p, j),
    ensures
        first_occurrence(s, p, from) == i,
    decreases i - from,
{
    if from < i {
        lemma_first_occurrence(s, p, from + 1, i);
    }
}

pub proof fn lemma_first_occurrence_none(s: Seq<char>, p: Seq<char>, from: int)
    requires
        0 <= from,
        forall|j: int| from <= j ==> !occurs_at(s, p, j),
    ensures
        first_occurrence(s, p, from) == -1,
    decreases s.len() + 1 - from,
{
    if from <= s.len() {
        lemma_first_occurrence_none(s, p, from + 1);
    }
}

proof fn lemma_last_occurrence(s: Seq<char>, p: Seq<char>, top: int, i: int)
    requires
        0 <= i <= top,
        occurs_at(s, p, i),
        forall|j: int| i < j <= top ==> !occurs_at(s, p, j),
    ensures
        last_occurrence(s, p, top) == i,
    decreases top - i,
{
    if i < top {
        lemma_last_occurrence(s, p, top - 1, i);
    }
}

proof fn lemma_last_occurrence_none(s: Seq<char>, p: Seq<char>, top: int)
    requires
        forall|j: int| 0 <= j <= top ==> !occurs_at(s, p, j),
    ensures
        last_occurrence(s, p, top) == -1,
    decreases top + 1,
{
    if top >= 0 {
        lemma_last_occurrence_none(s, p, top - 1);
    }
}

/// A character that ends a link code quoted in a page: a quote of either
/// kind, `&`, or white space.
pub open spec fn ends_link(c: char) -> bool {
    c == '"' || c == '&' || c == '\'' || is_white_space(c)
}

/// Where a link code starting at `from` ends: the first ending character at
/// or after `from`, else the end of `s`.
pub open spec fn link_end(s: Seq<char>, from: int) -> int
    decreases s.len() - from,
{
    if from < 0 || from >= s.len() {
        s.len() as int
    } else if ends_link(s[from]) {
        from
    } else {
        link_end(s, from + 1)
    }
}

/// The query key that carries a private-server link code.
pub open spec fn link_code_key() -> Seq<char> {
    "privateServerLinkCode="@
}

/// The place id and link code a share page mentions: at the first
/// `privateServerLinkCode=`, the code runs up to the next quote, `&` or
/// white space, and the place id is the number between the last `/games/`
/// before it and the next `/`.
pub open spec fn share_page_link(s: Seq<char>) -> Option<(u64, Seq<char>)> {
    let start = first_occurrence(s, link_code_key(), 0);
    if start < 0 {
        None
    } else {
        let g = last_occurrence(s, "/games/"@, start - 7);
        if g < 0 {
            None
        } else {
            let slash = first_occurrence(s, "/"@, g + 7);
            if slash < 0 {
                None
            } else {
                match parsed_u64(s.subrange(g + 7, slash)) {
                    None => None,
                    Some(pid) => {
                        let cs = start + 22;
                        let ce = link_end(s, cs);
                        if ce > cs {
                            Some((pid, s.subrange(cs, ce)))
                        } else {
                            None
                        }
                    },
                }
            }
        }
    }
}

/// Where the link code starting at `from` ends.
fn find_link_end(v: &[char], from: usize) -> (r: usize)
    requires
        from <= v@.len(),
    ensures
        r == link_end(v@, from as int),
        from <= r <= v@.len(),
{
    let len = v.len();
    let mut i = from;
    while i < len
        invariant
            len == v@.len(),
            from <= i <= len,
            link_end(v@, from as int) == link_end(v@, i as int),
        decreases len - i,
    {
        let c = v[i];
        if c == '"' || c == '&' || c == '\'' || is_white_space_char(c) {
            return i;
        }
        i += 1;
    }
    i
}

/// Finds the place id and link code a share page mentions.
pub fn link_in_share_page(body: &str) -> (r: Option<(u64, String)>)
    ensures
        match r {
            Some(x) => share_page_link(body@) == Some((x.0, x.1@)),
            None => share_page_link(body@) is None,
        },
{
    proof {
        reveal_strlit("privateServerLinkCode=");
        reveal_strlit("/games/");
        reveal_strlit("/");
    }
    let v = chars_of(body);
    let key = chars_of("privateServerLinkCode=");
    let games = chars_of("/games/");
    let slash_pat = chars_of("/");
    let ghost s = v@;
    let n = v.len();
    let start = match find_from(v.as_slice(), key.as_slice(), 0) {
        Some(i) => {
            proof {
                lemma_first_occurrence(s, link_code_key(), 0, i as int);
            }
            i
        },
        None => {
            proof {
                lemma_first_occurrence_none(s, link_code_key(), 0);
            }
            return None;
        },
    };
    assert(start + 22 <= s.len());
    let g = match rfind_before(v.as_slice(), games.as_slice(), start) {
        Some(g) => {
            proof {
                lemma_last_occurrence(s, "/games/"@, start - 7, g as int);
            }
            g
        },
        None => {
            proof {
                lemma_last_occurrence_none(s, "/games/"@, start - 7);
            }
            return None;
        },
    };
    let slash = match find_from(v.as_slice(), slash_pat.as_slice(), g + 7) {
        Some(k) => {
            proof {
                lemma_first_occurrence(s, "/"@, g + 7, k as int);
            }
            k
        },
        None => {
            proof {
                lemma_first_occurrence_none(s, "/"@, g + 7);
            }
            return None;
        },
    };
    assert(slash < s.len());
    let digits = string_of(v.as_slice(), g + 7, slash);
    let dv = chars_of(digits.as_str());
    let pid = match parse_u64(dv.as_slice()) {
        Some(p) => p,
        None => return None,
    };
    let cs = start + 22;
    let ce = find_link_end(v.as_slice(), cs);
    if ce > cs {
        Some((pid, string_of(v.as_slice(), cs, ce)))
    } else {
        None
    }
}

/// What `url::Url::parse` makes of a text: its path and its query pairs
/// (decoded), when it accepts the text.
pub uninterp spec fn url_parse_result(text: Seq<char>) -> Option<(Seq<char>, Seq<(Seq<char>, Seq<char>)>)>;

/// A parsed URL as characters.
pub open spec fn url_view(r: Option<(String, Vec<(String, String)>)>) -> Option<(Seq<char>, Seq<(Seq<char>, Seq<char>)>)> {
    match r {
        Some(u) => Some((u.0@, pairs_view(u.1@))),
        None => None,
    }
}

/// Parses a URL with `url::Url::parse` (as `reqwest::Url`) and gives its path
/// and its decoded query pairs in order.
#[verifier::external_body]
fn parse_url(text: &str) -> (r: Option<(String, Vec<(String, String)>)>)
    ensures
        url_view(r) == url_parse_result(text@),
{
    match reqwest::Url::parse(text) {
        Ok(u) => Some(
            (
                u.path().to_string(),
                u.query_pairs().map(|(k, v)| (k.to_string(), v.to_string())).collect(),
            ),
        ),
        Err(_) => None,
    }
}

/// The first segment of a path (split at `/`) that reads as a number.
pub open spec fn first_numeric_segment(path: Seq<char>) -> Option<u64>
    decreases path.len(),
{
    let i = first_index_of(path, '/');
    if i < 0 {
        parsed_u64(path)
    } else {
        match parsed_u64(path.subrange(0, i)) {
            Some(n) => Some(n),
            None => if 0 <= i < path.len() {
                first_numeric_segment(path.subrange(i + 1, path.len() as int))
            } else {
                None
            },
        }
    }
}

proof fn lemma_first_index_bounds(s: Seq<char>, c: char)
    ensures
        -1 <= first_index_of(s, c) < s.len(),
        first_index_of(s, c) >= 0 ==> s[first_index_of(s, c)] == c,
    decreases s.len(),
{
    if s.len() > 0 && s[0] != c {
        lemma_first_index_bounds(s.drop_first(), c);
    }
}

/// Finds the first path segment that reads as a number.
fn numeric_segment(path: &str) -> (r: Option<u64>)
    ensures
        r == first_numeric_segment(path@),
{
    let v = chars_of(path);
    let len = v.len();
    let mut start: usize = 0;
    assert(v@.subrange(0, len as int) == v@);
    loop
        invariant
            len == v@.len(),
            start <= len,
            first_numeric_segment(path@) == first_numeric_segment(v@.subrange(start as int, len as int)),
        decreases len - start,
    {
        let ghost rest = v@.subrange(start as int, len as int);
        match find_char_from(v.as_slice(), '/', start) {
            Some(e) => {
                let seg = chars_of(string_of(v.as_slice(), start, e).as_str());
                assert(rest.subrange(0, e - start) == v@.subrange(start as int, e as int));
                assert(rest.subrange(e - start + 1, rest.len() as int) == v@.subrange(e + 1, len as int));
                match parse_u64(seg.as_slice()) {
                    Some(n) => return Some(n),
                    None => {},
                }
                start = e + 1;
            },
            None => {
                let seg = chars_of(string_of(v.as_slice(), start, len).as_str());
                return parse_u64(seg.as_slice());
            },
        }
    }
}

/// Reads the place id and private-server link code from a game URL: the
/// first numeric path segment and the `privateServerLinkCode` query value.
pub fn parse_game_url(url: &str) -> (r: AppResult<(u64, String)>)
    ensures
        match url_parse_result(url@) {
            None => r matches Err(AppError::Other(t)) && t@ == "Invalid URL: "@ + url@,
            Some(u) => match first_numeric_segment(u.0) {
                None => r matches Err(AppError::Other(t)) && t@ == "Could not find Place ID in URL"@,
                Some(pid) => match lookup_first(u.1, "privateServerLinkCode"@) {
                    None => r matches Err(AppError::Other(t)) && t@
                        == "Could not find privateServerLinkCode in URL"@,
                    Some(code) => r matches Ok(x) && x.0 == pid && x.1@ == code,
                },
            },
        },
{
    let (path, pairs) = match parse_url(url) {
        Some(u) => u,
        None => {
            let mut t = String::from_str("Invalid URL: ");
            t.append(url);
            return Err(AppError::Other(t));
        },
    };
    let pid = match numeric_segment(path.as_str()) {
        Some(p) => p,
        None => return Err(AppError::Other(String::from_str("Could not find Place ID in URL"))),
    };
    match find_pair(&pairs, "privateServerLinkCode") {
        Some(code) => Ok((pid, code)),
        None => Err(AppError::Other(String::from_str("Could not find privateServerLinkCode in URL"))),
    }
}

/// The `code` query value of a share URL, if the URL parses and has one.
pub fn share_code_of(share_url: &str) -> (r: Option<String>)
    ensures
        opt_view(r) == match url_parse_result(share_url@) {
            Some(u) => lookup_first(u.1, "code"@),
            None => None,
        },
{
    match parse_url(share_url) {
        Some((_, pairs)) => find_pair(&pairs, "code"),
        None => None,
    }
}

/// The share-link API URL for a share code.
pub fn share_resolution_url(code: &str) -> (r: String)
    ensures
        r@ == "https://apis.roblox.com/sharelinks/v1/resolve-link?code="@ + code@ + "&type=Server"@,
{
    let mut s = String::from_str("https://apis.roblox.com/sharelinks/v1/resolve-link?code=");
    s.append(code);
    s.append("&type=Server");
    s
}

/// The place and link a share-link API reply gives: the place id with the
/// private-server link code, else the link code, else the share code
/// itself; nothing without a place id.
pub fn link_from_share_reply(
    place_id: Option<u64>,
    link_code: Option<String>,
    private_server_link_code: Option<String>,
    code: String,
) -> (r: Option<(u64, String)>)
    ensures
        match place_id {
            None => r is None,
            Some(p) => r matches Some(x) && x.0 == p && x.1@ == match private_server_link_code {
                Some(c) => c@,
                None => match link_code {
                    Some(c) => c@,
                    None => code@,
                },
            },
        },
{
    match place_id {
        None => None,
        Some(p) => {
            let link = match private_server_link_code {
                Some(c) => c,
                None => match link_code {
                    Some(c) => c,
                    None => code,
                },
            };
            Some((p, link))
        },
    }
}

/// The error when a share link cannot be resolved.
pub fn share_link_unresolved() -> (e: AppError)
    ensures
        e matches AppError::Other(t) && t@
            == "Could not resolve share link. Make sure the URL is a valid Roblox private server link."@,
{
    AppError::Other(
        String::from_str(
            "Could not resolve share link. Make sure the URL is a valid Roblox private server link.",
        ),
    )
}

/// The server-list page size asked for: 10 unless given, at most 100.
pub open spec fn page_limit(limit: Option<u32>) -> u32 {
    let l = match limit {
        Some(l) => l,
        None => 10,
    };
    if l < 100 {
        l
    } else {
        100
    }
}

/// The public server list URL of a place.
pub open spec fn servers_url_of(place_id: u64, cursor: Option<Seq<char>>, limit: Option<u32>) -> Seq<char> {
    "https://games.roblox.com/v1/games/"@ + decimal(place_id as nat)
        + "/servers/Public?sortOrder=Asc&excludeFullGames=false&limit="@ + decimal(
        page_limit(limit) as nat,
    ) + match cursor {
        Some(c) => "&cursor="@ + c,
        None => Seq::empty(),
    }
}

/// Builds the public server list URL of a place.
pub fn servers_url(place_id: u64, cursor: Option<&str>, limit: Option<u32>) -> (r: String)
    ensures
        r@ == servers_url_of(
            place_id,
            match cursor {
                Some(c) => Some(c@),
                None => None,
            },
            limit,
        ),
{
    let l = match limit {
        Some(l) => l,
        None => 10,
    };
    let l = if l < 100 {
        l
    } else {
        100
    };
    let mut s = String::from_str("https://games.roblox.com/v1/games/");
    push_decimal(&mut s, place_id);
    s.append("/servers/Public?sortOrder=Asc&excludeFullGames=false&limit=");
    push_decimal(&mut s, l as u64);
    match cursor {
        Some(c) => {
            s.append("&cursor=");
            s.append(c);
        },
        None => {},
    }
    s
}

/// The universe lookup URL of a place.
pub fn universe_url(place_id: u64) -> (r: String)
    ensures
        r@ == "https://apis.roblox.com/universes/v1/places/"@ + decimal(place_id as nat) + "/universe"@,
{
    let mut s = String::from_str("https://apis.roblox.com/universes/v1/places/");
    push_decimal(&mut s, place_id);
    s.append("/universe");
    s
}

/// Universe ids in decimal, separated by commas.
pub open spec fn joined_ids(ids: Seq<u64>) -> Seq<char>
    decreases ids.len(),
{
    if ids.len() == 0 {
        Seq::empty()
    } else if ids.len() == 1 {
        decimal(ids[0] as nat)
    } else {
        joined_ids(ids.drop_last()) + ","@ + decimal(ids.last() as nat)
    }
}

/// The game details URL for some universes; none when there are none.
pub fn game_details_url(universe_ids: &[u64]) -> (r: Option<String>)
    ensures
        universe_ids@.len() == 0 ==> r is None,
        universe_ids@.len() > 0 ==> (r matches Some(u) && u@ == "https://games.roblox.com/v1/games?universeIds="@
            + joined_ids(universe_ids@)),
{
    if universe_ids.len() == 0 {
        return None;
    }
    let mut s = String::from_str("https://games.roblox.com/v1/games?universeIds=");
    let ghost head = s@;
    push_decimal(&mut s, universe_ids[0]);
    let mut i: usize = 1;
    assert(universe_ids@.take(1).drop_last().len() == 0);
    while i < universe_ids.len()
        invariant
            1 <= i <= universe_ids@.len(),
            s@ == head + joined_ids(universe_ids@.take(i as int)),
        decreases universe_ids@.len() - i,
    {
        assert(universe_ids@.take(i + 1).drop_last() == universe_ids@.take(i as int));
        s.append(",");
        push_decimal(&mut s, universe_ids[i]);
        i += 1;
    }
    assert(universe_ids@.take(universe_ids@.len() as int) == universe_ids@);
    Some(s)
}

/// The creator of a game.
#[derive(Debug)]
pub struct CreatorInfo {
    pub id: u64,
    pub name: String,
}

/// A game as the games API describes it.
#[derive(Debug)]
pub struct GameDetailsRaw {
    pub id: u64,
    pub root_place_id: Option<u64>,
    pub name: String,
    pub description: Option<String>,
    pub creator: Option<CreatorInfo>,
    pub max_players: Option<u32>,
    pub playing: Option<u64>,
    pub visits: Option<u64>,
    pub favorited_count: Option<u64>,
}

/// Details of a game or place.
#[derive(Debug)]
pub struct GameDetails {
    pub place_id: u64,
    pub name: String,
    pub description: Option<String>,
    pub builder: Option<String>,
    pub builder_id: Option<u64>,
    pub max_players: Option<u32>,
    pub playing: Option<u64>,
    pub visits: Option<u64>,
    pub favorites_count: Option<u64>,
    pub image_token: Option<String>,
}

/// The details shown for a game: its root place (else its own id), name,
/// description, creator, player limits and counts; no image token.
pub open spec fn shows_game(d: GameDetails, g: GameDetailsRaw) -> bool {
    &&& d.place_id == match g.root_place_id {
        Some(p) => p,
        None => g.id,
    }
    &&& d.name@ == g.name@
    &&& opt_view(d.description) == opt_view(g.description)
    &&& opt_view(d.builder) == match g.creator {
        Some(c) => Some(c.name@),
        None => None,
    }
    &&& d.builder_id == match g.creator {
        Some(c) => Some(c.id),
        None => None,
    }
    &&& d.max_players == g.max_players
    &&& d.playing == g.playing
    &&& d.visits == g.visits
    &&& d.favorites_count == g.favorited_count
    &&& d.image_token is None
}

/// The details shown for a game.
pub fn game_details_of(g: GameDetailsRaw) -> (d: GameDetails)
    ensures
        shows_game(d, g),
{
    let place_id = match g.root_place_id {
        Some(p) => p,
        None => g.id,
    };
    let (builder, builder_id) = match g.creator {
        Some(c) => (Some(c.name), Some(c.id)),
        None => (None, None),
    };
    GameDetails {
        place_id,
        name: g.name,
        description: g.description,
        builder,
        builder_id,
        max_players: g.max_players,
        playing: g.playing,
        visits: g.visits,
        favorites_count: g.favorited_count,
        image_token: None,
    }
}

/// The details shown for each game of a reply, in order.
pub fn games_details(games: Vec<GameDetailsRaw>) -> (r: Vec<GameDetails>)
    ensures
        r@.len() == games@.len(),
        forall|i: int| 0 <= i < r@.len() ==> shows_game(#[trigger] r@[i], games@[i]),
{
    let ghost gs = games@;
    let mut out: Vec<GameDetails> = Vec::new();
    for g in it: games
        invariant
            gs == it.seq(),
            out@.len() == it.index(),
            forall|i: int| 0 <= i < out@.len() ==> shows_game(#[trigger] out@[i], gs[i]),
    {
        out.push(game_details_of(g));
    }
    out
}

/// Whether the private-server invite privacy page already allows every
/// user: its body mentions `"AllUsers"`.
pub fn invite_privacy_open(body: &str) -> (b: bool)
    ensures
        b == crate::text::contains_seq(body@, "\"AllUsers\""@),
{
    crate::text::contains(body, "\"AllUsers\"")
}

} // verus!
