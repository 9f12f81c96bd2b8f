use vstd::prelude::*;
use vstd::string::StringExecFns;
use vstd::utf8::encode_utf8;
use crate::format::{decimal, signed_decimal, push_decimal, push_signed_decimal, is_digit, all_digits};
use crate::random::random_u64;
use crate::text::{push_char, chars_of, opt_view};

verus! {

/// Roblox game launch options.
#[derive(Debug)]
pub struct LaunchOptions {
    /// Place to join.
    pub place_id: u64,
    /// Specific server job id.
    pub job_id: Option<String>,
    /// User to follow into their server.
    pub follow_user_id: Option<u64>,
    /// Private server link code (the numeric code from the game URL).
    pub link_code: Option<String>,
    /// Private server access code (the UUID the API resolves).
    pub access_code: Option<String>,
    /// Extra launch arguments.
    pub launch_args: Option<String>,
}

/// The text of an optional string, empty when absent.
pub open spec fn text_or_empty(s: Option<String>) -> Seq<char> {
    match s {
        Some(t) => t@,
        None => Seq::empty(),
    }
}

/// The PlaceLauncher URL for the options: a private game when an access
/// code is given, else a server job when a job id is given, else following a
/// user when one is given, else a plain game request.
pub open spec fn placelauncher_url_of(o: LaunchOptions, tracker: u64) -> Seq<char> {
    let base = "https://assetgame.roblox.com/game/PlaceLauncher.ashx?request="@;
    match o.access_code {
        Some(ac) => base + "RequestPrivateGame&browserTrackerId="@ + decimal(tracker as nat)
            + "&placeId="@ + decimal(o.place_id as nat) + "&accessCode="@ + ac@ + "&linkCode="@
            + text_or_empty(o.link_code),
        None => match o.job_id {
            Some(job) => base + "RequestGameJob&browserTrackerId="@ + decimal(tracker as nat)
                + "&placeId="@ + decimal(o.place_id as nat) + "&gameId="@ + job@
                + "&isPlayTogetherGame=false"@,
            None => match o.follow_user_id {
                Some(user) => base + "RequestFollowUser&browserTrackerId="@ + decimal(tracker as nat)
                    + "&userId="@ + decimal(user as nat) + "&placeId="@ + decimal(o.place_id as nat),
                None => base + "RequestGame&browserTrackerId="@ + decimal(tracker as nat)
                    + "&placeId="@ + decimal(o.place_id as nat) + "&isPlayTogetherGame=false"@,
            },
        },
    }
}

/// Builds the PlaceLauncher URL for the options.
pub fn placelauncher_url(options: &LaunchOptions, tracker: u64) -> (r: String)
    ensures
        r@ == placelauncher_url_of(*options, tracker),
{
    let mut s = String::from_str("https://assetgame.roblox.com/game/PlaceLauncher.ashx?request=");
    match &options.access_code {
        Some(ac) => {
            s.append("RequestPrivateGame&browserTrackerId=");
            push_decimal(&mut s, tracker);
            s.append("&placeId=");
            push_decimal(&mut s, options.place_id);
            s.append("&accessCode=");
            s.append(ac.as_str());
            s.append("&linkCode=");
            match &options.link_code {
                Some(l) => s.append(l.as_str()),
                None => {},
            }
            assert(s@ =~= placelauncher_url_of(*options, tracker));
        },
        None => match &options.job_id {
            Some(job) => {
                s.append("RequestGameJob&browserTrackerId=");
                push_decimal(&mut s, tracker);
                s.append("&placeId=");
                push_decimal(&mut s, options.place_id);
                s.append("&gameId=");
                s.append(job.as_str());
                s.append("&isPlayTogetherGame=false");
            },
            None => match options.follow_user_id {
                Some(user) => {
                    s.append("RequestFollowUser&browserTrackerId=");
                    push_decimal(&mut s, tracker);
                    s.append("&userId=");
                    push_decimal(&mut s, user);
                    s.append("&placeId=");
                    push_decimal(&mut s, options.place_id);
                },
                None => {
                    s.append("RequestGame&browserTrackerId=");
                    push_decimal(&mut s, tracker);
                    s.append("&placeId=");
                    push_decimal(&mut s, options.place_id);
                    s.append("&isPlayTogetherGame=false");
                },
            },
        },
    }
    s
}

/// The percent-encoding of one character of a launcher URL: `:`, `/`, `?`,
/// `&` and `=` are escaped, other characters stay.
pub open spec fn encoded_char(c: char) -> Seq<char> {
    if c == ':' {
        seq!['%', '3', 'A']
    } else if c == '/' {
        seq!['%', '2', 'F']
    } else if c == '?' {
        seq!['%', '3', 'F']
    } else if c == '&' {
        seq!['%', '2', '6']
    } else if c == '=' {
        seq!['%', '3', 'D']
    } else {
        seq![c]
    }
}

/// A launcher URL with its reserved characters percent-encoded.
pub open spec fn encoded_url(s: Seq<char>) -> Seq<char>
    decreases s.len(),
{
    if s.len() == 0 {
        Seq::empty()
    } else {
        encoded_url(s.drop_last()) + encoded_char(s.last())
    }
}

/// Percent-encodes the reserved characters of a launcher URL.
pub fn encode_launcher_url(url: &str) -> (r: String)
    ensures
        r@ == encoded_url(url@),
{
    let v = chars_of(url);
    let mut s = String::new();
    let mut i: usize = 0;
    while i < v.len()
        invariant
            i <= v@.len(),
            v@ == url@,
            s@ == encoded_url(v@.take(i as int)),
        decreases v@.len() - i,
    {
        let c = v[i];
        let ghost before = s@;
        if c == ':' {
            s.append("%3A");
        } else if c == '/' {
            s.append("%2F");
        } else if c == '?' {
            s.append("%3F");
        } else if c == '&' {
            s.append("%26");
        } else if c == '=' {
            s.append("%3D");
        } else {
            push_char(&mut s, c);
        }
        proof {
            reveal_strlit("%3A");
            reveal_strlit("%2F");
            reveal_strlit("%3F");
            reveal_strlit("%26");
            reveal_strlit("%3D");
            assert(v@.take(i + 1).drop_last() == v@.take(i as int));
            assert(s@ =~= before + encoded_char(c));
        }
        i += 1;
    }
    assert(v@.take(v@.len() as int) == v@);
    s
}

/// The `roblox-player:` protocol URI that starts the client.
pub open spec fn protocol_uri_of(ticket: Seq<char>, launch_time: i64, encoded: Seq<char>, tracker: u64) -> Seq<char> {
    "roblox-player:1+launchmode:play+gameinfo:"@ + ticket + "+launchtime:"@ + signed_decimal(
        launch_time as int,
    ) + "+placelauncherurl:"@ + encoded + "+browsertrackerid:"@ + decimal(tracker as nat)
        + "+robloxLocale:en_us+gameLocale:en_us+channel:+LaunchExp:InApp"@
}

/// Builds the `roblox-player:` protocol URI from the authentication ticket,
/// the launch time in milliseconds, the encoded launcher URL and the browser
/// tracker id.
pub fn protocol_uri(ticket: &str, launch_time: i64, encoded: &str, tracker: u64) -> (r: String)
    ensures
        r@ == protocol_uri_of(ticket@, launch_time, encoded@, tracker),
{
    let mut s = String::from_str("roblox-player:1+launchmode:play+gameinfo:");
    s.append(ticket);
    s.append("+launchtime:");
    push_signed_decimal(&mut s, launch_time);
    s.append("+placelauncherurl:");
    s.append(encoded);
    s.append("+browsertrackerid:");
    push_decimal(&mut s, tracker);
    s.append("+robloxLocale:en_us+gameLocale:en_us+channel:+LaunchExp:InApp");
    s
}

/// The URI that opens a share link in the client.
pub fn share_link_uri(share_code: &str) -> (r: String)
    ensures
        r@ == "roblox://navigation/share_links?type=Server&code="@ + share_code@,
{
    let mut s = String::from_str("roblox://navigation/share_links?type=Server&code=");
    s.append(share_code);
    s
}

/// The browser tracker id a random number gives: its remainder by one
/// billion.
pub fn tracker_id_from(n: u64) -> (r: u64)
    ensures
        r == n % 1000000000,
{
    n % 1000000000
}

/// A fresh browser tracker id: a random number below one billion.
pub fn new_browser_tracker_id() -> (r: u64)
    ensures
        r < 1000000000,
{
    tracker_id_from(random_u64())
}

/// How many times `c` occurs in `s`.
pub open spec fn count_char(s: Seq<char>, c: char) -> nat
    decreases s.len(),
{
    if s.len() == 0 {
        0
    } else {
        count_char(s.drop_last(), c) + if s.last() == c {
            1nat
        } else {
            0nat
        }
    }
}

/// A link code that already is an access code: 36 bytes long with four
/// hyphens, as a UUID is written.
pub open spec fn looks_like_uuid(code: Seq<char>) -> bool {
    encode_utf8(code).len() == 36 && count_char(code, '-') == 4
}

/// A numeric private-server link code: at least eight decimal digits.
pub open spec fn is_numeric_link_code(code: Seq<char>) -> bool {
    all_digits(code) && encode_utf8(code).len() >= 8
}

/// Counts the occurrences of a character.
pub fn count_char_in(v: &[char], c: char) -> (n: usize)
    ensures
        n == count_char(v@, c),
{
    let mut n: usize = 0;
    let mut i: usize = 0;
    while i < v.len()
        invariant
            i <= v@.len(),
            n == count_char(v@.take(i as int), c),
            n <= i,
        decreases v@.len() - i,
    {
        assert(v@.take(i + 1).drop_last() == v@.take(i as int));
        if v[i] == c {
            n += 1;
        }
        i += 1;
    }
    assert(v@.take(v@.len() as int) == v@);
    n
}

/// Whether every character is an ASCII decimal digit.
pub fn all_ascii_digits(v: &[char]) -> (b: bool)
    ensures
        b == all_digits(v@),
{
    let mut i: usize = 0;
    while i < v.len()
        invariant
            i <= v@.len(),
            forall|j: int| 0 <= j < i ==> is_digit(#[trigger] v@[j]),
        decreases v@.len() - i,
    {
        if !('0' <= v[i] && v[i] <= '9') {
            assert(!is_digit(v@[i as int]));
            return false;
        }
        i += 1;
    }
    true
}

/// Whether a link code is already an access code (UUID-shaped).
pub fn is_uuid_shaped(code: &str) -> (b: bool)
    ensures
        b == looks_like_uuid(code@),
{
    let v = chars_of(code);
    code.as_bytes().len() == 36 && count_char_in(v.as_slice(), '-') == 4
}

/// Whether a link code is a numeric private-server link code.
pub fn is_private_server_link_code(code: &str) -> (b: bool)
    ensures
        b == is_numeric_link_code(code@),
{
    let v = chars_of(code);
    all_ascii_digits(v.as_slice()) && code.as_bytes().len() >= 8
}

/// The link code handed to the launcher: the numeric code the resolution
/// produced, else the given link code when it is a non-empty run of digits.
pub open spec fn effective_link_code_of(numeric: Option<String>, link_code: Option<String>) -> Option<Seq<char>> {
    match numeric {
        Some(n) => Some(n@),
        None => match link_code {
            Some(l) => if l@.len() > 0 && all_digits(l@) {
                Some(l@)
            } else {
                None
            },
            None => None,
        },
    }
}

/// Chooses the link code handed to the launcher.
pub fn effective_link_code(numeric: Option<String>, link_code: Option<String>) -> (r: Option<String>)
    ensures
        opt_view(r) == effective_link_code_of(numeric, link_code),
{
    match numeric {
        Some(n) => Some(n),
        None => match link_code {
            Some(l) => {
                let v = chars_of(l.as_str());
                if all_ascii_digits(v.as_slice()) && v.len() > 0 {
                    Some(l)
                } else {
                    None
                }
            },
            None => None,
        },
    }
}

/// The pause before retry `attempt` (counting from zero) of an access-code
/// resolution: 500 ms doubled `attempt` times.
pub fn retry_delay_ms(attempt: u32) -> (r: u64)
    requires
        attempt < 32,
    ensures
        r == 500 * vstd::arithmetic::power2::pow2(attempt as nat),
{
    let mut r: u64 = 500;
    let mut k: u32 = 0;
    proof {
        vstd::arithmetic::power2::lemma2_to64();
    }
    while k < attempt
        invariant
            k <= attempt < 32,
            r == 500 * vstd::arithmetic::power2::pow2(k as nat),
        decreases attempt - k,
    {
        proof {
            vstd::arithmetic::power2::lemma_pow2_unfold((k + 1) as nat);
            vstd::arithmetic::power2::lemma_pow2_strictly_increases(k as nat, 32);
            vstd::arithmetic::power2::lemma2_to64();
            vstd::arithmetic::power2::lemma2_to64_rest();
        }
        r = r * 2;
        k += 1;
    }
    r
}

} // verus!
