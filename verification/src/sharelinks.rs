use vstd::prelude::*;
use vstd::string::StringExecFns;
use crate::api::{is_success, status_display, status_display_of};
use crate::error::{AppError, AppResult};
use crate::format::{decimal, signed_decimal, push_decimal, push_signed_decimal, all_digits};
use crate::import::message_of;
use crate::launcher::{looks_like_uuid, is_uuid_shaped, is_private_server_link_code, is_numeric_link_code, all_ascii_digits};
use crate::text::{chars_of, byte_prefix, byte_prefix_of, cut_ok, cut_allowed, opt_view, str_equal};

verus! {

/// The `linkCode` of a share-link reply: text, an unsigned number, a
/// negative number, or absent (missing, null or of another kind).
#[derive(Debug)]
pub enum LinkCodeValue {
    Text(String),
    Unsigned(u64),
    Negative(i64),
    Absent,
}

/// The invite part of a share-link reply (`privateServerInviteData`,
/// `linkData` or `data`, the first present).
#[derive(Debug)]
pub struct InviteData {
    pub access_code: Option<String>,
    pub link_code: LinkCodeValue,
    pub place_id: Option<u64>,
    pub private_server_id: Option<u64>,
}

/// What the logic reads of a share-link reply's JSON.
#[derive(Debug)]
pub struct SharelinksJson {
    pub invite: Option<InviteData>,
    /// Top-level `accessCode`, when it is text.
    pub access_code: Option<String>,
    /// Top-level `linkCode`, when it is text.
    pub link_code: Option<String>,
}

/// The invite part of a share-link reply: `privateServerInviteData` when
/// the reply has that key, else `linkData`, else `data`.
pub fn invite_data_of(
    private_server_invite_data: Option<InviteData>,
    link_data: Option<InviteData>,
    data: Option<InviteData>,
) -> (r: Option<InviteData>)
    ensures
        r == match private_server_invite_data {
            Some(d) => Some(d),
            None => match link_data {
                Some(d) => Some(d),
                None => data,
            },
        },
{
    match private_server_invite_data {
        Some(d) => Some(d),
        None => match link_data {
            Some(d) => Some(d),
            None => data,
        },
    }
}

/// A reply of the share-link resolution endpoint.
#[derive(Debug)]
pub struct SharelinksReply {
    pub status: u16,
    /// A fresh `x-csrf-token` header, when the reply carries one.
    pub csrf_token: Option<String>,
    pub body: String,
    /// The body read as JSON, when it is JSON.
    pub json: Option<SharelinksJson>,
}

/// What to do next while resolving a share link.
#[derive(Debug)]
pub enum SharelinksStep {
    /// Send the resolution request (again) with this CSRF token.
    Post { csrf: String },
    /// Read the access code from the game pages of this place and numeric
    /// link code (`www` host first, then `web`).
    FetchPages { place_id: u64, link_code: String },
    /// Look the access code up by private-server id.
    ByServerId { server_id: u64 },
    /// Resolved: the access code and the numeric link code, if known.
    Resolved { access_code: String, link_code: Option<String> },
    /// Failed, with a message and whether trying again may help.
    Failed { message: String, retryable: bool },
}

/// The content of a step.
pub enum StepModel {
    Post(Seq<char>),
    FetchPages(u64, Seq<char>),
    ByServerId(u64),
    Resolved(Seq<char>, Option<Seq<char>>),
    Failed(Seq<char>, bool),
}

impl SharelinksStep {
    /// The content of this step.
    pub open spec fn model(self) -> StepModel {
        match self {
            SharelinksStep::Post { csrf } => StepModel::Post(csrf@),
            SharelinksStep::FetchPages { place_id, link_code } => StepModel::FetchPages(place_id, link_code@),
            SharelinksStep::ByServerId { server_id } => StepModel::ByServerId(server_id),
            SharelinksStep::Resolved { access_code, link_code } => StepModel::Resolved(access_code@, opt_view(link_code)),
            SharelinksStep::Failed { message, retryable } => StepModel::Failed(message@, retryable),
        }
    }
}

/// The link code as text: text as it is, numbers in decimal.
pub open spec fn link_code_text(v: LinkCodeValue) -> Option<Seq<char>> {
    match v {
        LinkCodeValue::Text(s) => Some(s@),
        LinkCodeValue::Unsigned(n) => Some(decimal(n as nat)),
        LinkCodeValue::Negative(n) => Some(signed_decimal(n as int)),
        LinkCodeValue::Absent => None,
    }
}

/// The numeric link code that goes with an access code: the text or
/// unsigned `linkCode`, when it is all digits.
pub open spec fn numeric_link_code_of(v: LinkCodeValue) -> Option<Seq<char>> {
    match v {
        LinkCodeValue::Text(s) => if all_digits(s@) {
            Some(s@)
        } else {
            None
        },
        LinkCodeValue::Unsigned(n) => Some(decimal(n as nat)),
        _ => None,
    }
}

/// The last resort: look up by private-server id, or fail.
pub open spec fn by_server_id_step(inv: InviteData) -> StepModel {
    match inv.private_server_id {
        Some(id) => StepModel::ByServerId(id),
        None => StepModel::Failed(
            "No privateServerId, accessCode, or linkCode in sharelinks response"@,
            false,
        ),
    }
}

/// What the invite data of a reply leads to: its access code (with the
/// numeric link code); else its link code, taken as the access code when it
/// is UUID-shaped or resolved through the game pages when it is not empty
/// (at the reply's place, else the given one); else the private-server id.
pub open spec fn invite_step(inv: InviteData, place_id: u64) -> StepModel {
    match inv.access_code {
        Some(ac) => StepModel::Resolved(ac@, numeric_link_code_of(inv.link_code)),
        None => match link_code_text(inv.link_code) {
            Some(lc) => if looks_like_uuid(lc) {
                StepModel::Resolved(lc, None)
            } else if lc.len() > 0 {
                StepModel::FetchPages(
                    match inv.place_id {
                        Some(p) => p,
                        None => place_id,
                    },
                    lc,
                )
            } else {
                by_server_id_step(inv)
            },
            None => by_server_id_step(inv),
        },
    }
}

/// How many leading bytes of the body an answer to `reply` quotes (0 for
/// none).
pub open spec fn quoted_bytes(reply: SharelinksReply) -> nat {
    let s = reply.status;
    if s == 403 || s == 429 || (500 <= s <= 599) {
        0
    } else if s == 400 || s == 404 || !is_success(s) {
        200
    } else {
        match reply.json {
            None => 200,
            Some(j) => match j.invite {
                Some(_) => 0,
                None => if j.access_code is Some {
                    0
                } else if j.link_code matches Some(lc) && looks_like_uuid(lc@) {
                    0
                } else {
                    300
                },
            },
        }
    }
}

/// What to do after a reply of the resolution endpoint, on attempt
/// `attempt` (counting from 0) of three: a 403 with a fresh token retries
/// with it (the third is refused), without one it is a permanent failure;
/// 429 and server errors are worth retrying; 400 and 404 mean an invalid
/// link; any other failure is worth retrying; a success is read as JSON.
pub open spec fn sharelinks_next(attempt: u32, reply: SharelinksReply, place_id: u64) -> StepModel {
    let s = reply.status;
    let body = reply.body@;
    if s == 403 {
        match reply.csrf_token {
            Some(t) => if attempt < 2 {
                StepModel::Post(t@)
            } else {
                StepModel::Failed("CSRF token rejected after 3 retries"@, false)
            },
            None => StepModel::Failed("Authentication rejected (403, no CSRF in response)"@, false),
        }
    } else if s == 429 {
        StepModel::Failed("Rate limited (429)"@, true)
    } else if 500 <= s <= 599 {
        StepModel::Failed("Server error: "@ + status_display_of(s), true)
    } else if s == 400 || s == 404 {
        StepModel::Failed(
            "Invalid link code ("@ + status_display_of(s) + "): "@ + byte_prefix_of(body, 200),
            false,
        )
    } else if !is_success(s) {
        StepModel::Failed(
            "Unexpected status "@ + status_display_of(s) + ": "@ + byte_prefix_of(body, 200),
            true,
        )
    } else {
        match reply.json {
            None => StepModel::Failed("Invalid JSON response: "@ + byte_prefix_of(body, 200), false),
            Some(j) => match j.invite {
                Some(inv) => invite_step(inv, place_id),
                None => match j.access_code {
                    Some(ac) => StepModel::Resolved(ac@, None),
                    None => match j.link_code {
                        Some(lc) => if looks_like_uuid(lc@) {
                            StepModel::Resolved(lc@, None)
                        } else {
                            StepModel::Failed(
                                "No invite data in response: "@ + byte_prefix_of(body, 300),
                                false,
                            )
                        },
                        None => StepModel::Failed(
                            "No invite data in response: "@ + byte_prefix_of(body, 300),
                            false,
                        ),
                    },
                },
            },
        }
    }
}

/// The link code as text.
fn link_code_string(v: &LinkCodeValue) -> (r: Option<String>)
    ensures
        opt_view(r) == link_code_text(*v),
{
    match v {
        LinkCodeValue::Text(s) => Some(s.clone()),
        LinkCodeValue::Unsigned(n) => {
            let mut s = String::new();
            push_decimal(&mut s, *n);
            Some(s)
        },
        LinkCodeValue::Negative(n) => {
            let mut s = String::new();
            push_signed_decimal(&mut s, *n);
            Some(s)
        },
        LinkCodeValue::Absent => None,
    }
}

/// The numeric link code that goes with an access code.
fn numeric_link_code(v: &LinkCodeValue) -> (r: Option<String>)
    ensures
        opt_view(r) == numeric_link_code_of(*v),
{
    match v {
        LinkCodeValue::Text(s) => {
            let c = chars_of(s.as_str());
            if all_ascii_digits(c.as_slice()) {
                Some(s.clone())
            } else {
                None
            }
        },
        LinkCodeValue::Unsigned(n) => {
            let mut s = String::new();
            push_decimal(&mut s, *n);
            Some(s)
        },
        _ => None,
    }
}

/// The last resort of an invite: the private-server id.
pub fn server_id_step(inv: &InviteData) -> (r: SharelinksStep)
    ensures
        r.model() == by_server_id_step(*inv),
{
    match inv.private_server_id {
        Some(id) => SharelinksStep::ByServerId { server_id: id },
        None => SharelinksStep::Failed {
            message: String::from_str(
                "No privateServerId, accessCode, or linkCode in sharelinks response",
            ),
            retryable: false,
        },
    }
}

/// What the invite data of a reply leads to.
fn step_for_invite(inv: &InviteData, place_id: u64) -> (r: SharelinksStep)
    ensures
        r.model() == invite_step(*inv, place_id),
{
    match &inv.access_code {
        Some(ac) => SharelinksStep::Resolved {
            access_code: ac.clone(),
            link_code: numeric_link_code(&inv.link_code),
        },
        None => match link_code_string(&inv.link_code) {
            Some(lc) => {
                if is_uuid_shaped(lc.as_str()) {
                    SharelinksStep::Resolved { access_code: lc, link_code: None }
                } else if lc.as_str().unicode_len() > 0 {
                    let p = match inv.place_id {
                        Some(p) => p,
                        None => place_id,
                    };
                    SharelinksStep::FetchPages { place_id: p, link_code: lc }
                } else {
                    server_id_step(inv)
                }
            },
            None => server_id_step(inv),
        },
    }
}

/// A failure message: `head`, then the quoted bytes of the body.
fn quoting(head: String, body: &str, n: usize) -> (r: String)
    requires
        cut_ok(body@, n as nat),
    ensures
        r@ == head@ + byte_prefix_of(body@, n as nat),
{
    let mut m = head;
    let q = byte_prefix(body, n);
    m.append(q.as_str());
    m
}

/// Whether the body of `reply` can be quoted where an answer to it quotes
/// it (the cut falls between characters).
pub fn quote_cut_ok(reply: &SharelinksReply) -> (b: bool)
    ensures
        b == (quoted_bytes(*reply) > 0 ==> cut_ok(reply.body@, quoted_bytes(*reply))),
{
    let s = reply.status;
    let n: usize = if s == 403 || s == 429 || (500 <= s && s <= 599) {
        0
    } else if s == 400 || s == 404 || !(200 <= s && s <= 299) {
        200
    } else {
        match &reply.json {
            None => 200,
            Some(j) => match &j.invite {
                Some(_) => 0,
                None => match &j.access_code {
                    Some(_) => 0,
                    None => match &j.link_code {
                        Some(lc) => if is_uuid_shaped(lc.as_str()) {
                            0
                        } else {
                            300
                        },
                        None => 300,
                    },
                },
            },
        }
    };
    n == 0 || cut_allowed(reply.body.as_str(), n)
}

/// Decides what follows a reply of the share-link resolution endpoint.
pub fn sharelinks_step(attempt: u32, reply: &SharelinksReply, place_id: u64) -> (r: SharelinksStep)
    requires
        quoted_bytes(*reply) > 0 ==> cut_ok(reply.body@, quoted_bytes(*reply)),
    ensures
        r.model() == sharelinks_next(attempt, *reply, place_id),
{
    let s = reply.status;
    let body = reply.body.as_str();
    if s == 403 {
        return match &reply.csrf_token {
            Some(t) => if attempt < 2 {
                SharelinksStep::Post { csrf: t.clone() }
            } else {
                SharelinksStep::Failed {
                    message: String::from_str("CSRF token rejected after 3 retries"),
                    retryable: false,
                }
            },
            None => SharelinksStep::Failed {
                message: String::from_str("Authentication rejected (403, no CSRF in response)"),
                retryable: false,
            },
        };
    }
    if s == 429 {
        return SharelinksStep::Failed { message: String::from_str("Rate limited (429)"), retryable: true };
    }
    if 500 <= s && s <= 599 {
        let mut m = String::from_str("Server error: ");
        let d = status_display(s);
        m.append(d.as_str());
        return SharelinksStep::Failed { message: m, retryable: true };
    }
    if s == 400 || s == 404 {
        let mut m = String::from_str("Invalid link code (");
        let d = status_display(s);
        m.append(d.as_str());
        m.append("): ");
        return SharelinksStep::Failed { message: quoting(m, body, 200), retryable: false };
    }
    if !(200 <= s && s <= 299) {
        let mut m = String::from_str("Unexpected status ");
        let d = status_display(s);
        m.append(d.as_str());
        m.append(": ");
        return SharelinksStep::Failed { message: quoting(m, body, 200), retryable: true };
    }
    match &reply.json {
        None => SharelinksStep::Failed {
            message: quoting(String::from_str("Invalid JSON response: "), body, 200),
            retryable: false,
        },
        Some(j) => match &j.invite {
            Some(inv) => step_for_invite(inv, place_id),
            None => {
                match &j.access_code {
                    Some(ac) => {
                        return SharelinksStep::Resolved { access_code: ac.clone(), link_code: None };
                    },
                    None => {},
                }
                match &j.link_code {
                    Some(lc) => {
                        if is_uuid_shaped(lc.as_str()) {
                            return SharelinksStep::Resolved { access_code: lc.clone(), link_code: None };
                        }
                    },
                    None => {},
                }
                SharelinksStep::Failed {
                    message: quoting(String::from_str("No invite data in response: "), body, 300),
                    retryable: false,
                }
            },
        },
    }
}

/// What follows the game-page lookup of a numeric link code: the code found
/// resolves the link (with that link code), else the private-server id is
/// the last resort.
pub fn after_pages(found: Option<String>, link_code: String, inv: &InviteData) -> (r: SharelinksStep)
    ensures
        r.model() == match found {
            Some(c) => StepModel::Resolved(c@, Some(link_code@)),
            None => by_server_id_step(*inv),
        },
{
    match found {
        Some(c) => SharelinksStep::Resolved { access_code: c, link_code: Some(link_code) },
        None => server_id_step(inv),
    }
}

/// What follows the lookup by private-server id: its access code resolves
/// the link; its failure is worth retrying.
pub fn after_server_lookup(found: AppResult<String>) -> (r: SharelinksStep)
    ensures
        r.model() == match found {
            Ok(c) => StepModel::Resolved(c@, None),
            Err(e) => StepModel::Failed("Failed to resolve by server ID: "@ + message_of(e), true),
        },
{
    match found {
        Ok(c) => SharelinksStep::Resolved { access_code: c, link_code: None },
        Err(e) => {
            let mut m = String::from_str("Failed to resolve by server ID: ");
            let t = e.message();
            m.append(t.as_str());
            SharelinksStep::Failed { message: m, retryable: true }
        },
    }
}

/// The access code of the first listed private server with the given id
/// that has one.
pub open spec fn listed_code(servers: Seq<(u64, Option<String>)>, id: u64) -> Option<Seq<char>>
    decreases servers.len(),
{
    if servers.len() == 0 {
        None
    } else if servers[0].0 == id && servers[0].1 is Some {
        Some(servers[0].1->0@)
    } else {
        listed_code(servers.drop_first(), id)
    }
}

/// Finds the access code of a private server in the place's server list
/// (each entry: its id, 0 when missing, and its access code).
pub fn access_code_for_server(servers: &Vec<(u64, Option<String>)>, id: u64) -> (r: Option<String>)
    ensures
        opt_view(r) == listed_code(servers@, id),
{
    let mut i: usize = 0;
    assert(servers@.skip(0) == servers@);
    while i < servers.len()
        invariant
            i <= servers@.len(),
            listed_code(servers@, id) == listed_code(servers@.skip(i as int), id),
        decreases servers@.len() - i,
    {
        let ghost rest = servers@.skip(i as int);
        assert(rest.drop_first() == servers@.skip(i + 1));
        assert(rest[0] == servers@[i as int]);
        if servers[i].0 == id {
            match &servers[i].1 {
                Some(c) => return Some(c.clone()),
                None => {},
            }
        }
        i += 1;
    }
    assert(servers@.skip(i as int).len() == 0);
    None
}

/// The error when no access code is found for a private-server id.
pub fn server_not_found(id: u64) -> (e: AppError)
    ensures
        e matches AppError::RobloxApi(t) && t@ == "Could not find accessCode for privateServerId="@
            + decimal(id as nat),
{
    let mut t = String::from_str("Could not find accessCode for privateServerId=");
    push_decimal(&mut t, id);
    AppError::RobloxApi(t)
}

/// The kind of link code given to join a private server.
#[derive(Debug, Clone, Copy, PartialEq, Eq, Structural)]
pub enum LinkCodeKind {
    /// Already an access code (UUID-shaped).
    AccessCode,
    /// A numeric private-server link code (eight digits or more).
    PrivateServerLinkCode,
    /// Anything else: a share code.
    ShareCode,
}

/// Tells which kind of link code was given.
pub fn classify_link_code(code: &str) -> (k: LinkCodeKind)
    ensures
        k == if looks_like_uuid(code@) {
            LinkCodeKind::AccessCode
        } else if is_numeric_link_code(code@) {
            LinkCodeKind::PrivateServerLinkCode
        } else {
            LinkCodeKind::ShareCode
        },
{
    if is_uuid_shaped(code) {
        LinkCodeKind::AccessCode
    } else if is_private_server_link_code(code) {
        LinkCodeKind::PrivateServerLinkCode
    } else {
        LinkCodeKind::ShareCode
    }
}

/// A resolved access code remembered for a place and link code.
#[derive(Debug)]
pub struct CacheEntry {
    pub place_id: u64,
    pub link_code: String,
    pub access_code: String,
    pub numeric_link_code: Option<String>,
}

/// The key of a cache entry.
pub open spec fn entry_key(e: CacheEntry) -> (u64, Seq<char>) {
    (e.place_id, e.link_code@)
}

/// The value of a cache entry.
pub open spec fn entry_value(e: CacheEntry) -> (Seq<char>, Option<Seq<char>>) {
    (e.access_code@, opt_view(e.numeric_link_code))
}

/// The entries by key, a later entry replacing an earlier one.
pub open spec fn cache_map(s: Seq<CacheEntry>) -> Map<(u64, Seq<char>), (Seq<char>, Option<Seq<char>>)>
    decreases s.len(),
{
    if s.len() == 0 {
        Map::empty()
    } else {
        cache_map(s.drop_last()).insert(entry_key(s.last()), entry_value(s.last()))
    }
}

proof fn lemma_cache_last(s: Seq<CacheEntry>, k: (u64, Seq<char>), i: int)
    requires
        0 <= i < s.len(),
        entry_key(s[i]) == k,
        forall|j: int| i < j < s.len() ==> entry_key(#[trigger] s[j]) != k,
    ensures
        cache_map(s).contains_key(k),
        cache_map(s)[k] == entry_value(s[i]),
    decreases s.len(),
{
    if i < s.len() - 1 {
        assert(entry_key(s[s.len() - 1]) != k);
        lemma_cache_last(s.drop_last(), k, i);
    }
}

proof fn lemma_cache_absent(s: Seq<CacheEntry>, k: (u64, Seq<char>))
    requires
        forall|j: int| 0 <= j < s.len() ==> entry_key(#[trigger] s[j]) != k,
    ensures
        !cache_map(s).contains_key(k),
    decreases s.len(),
{
    if s.len() > 0 {
        assert(entry_key(s[s.len() - 1]) != k);
        lemma_cache_absent(s.drop_last(), k);
    }
}

proof fn lemma_cache_update(s: Seq<CacheEntry>, i: int, e: CacheEntry)
    requires
        0 <= i < s.len(),
        entry_key(e) == entry_key(s[i]),
        forall|j: int| i < j < s.len() ==> entry_key(#[trigger] s[j]) != entry_key(s[i]),
    ensures
        cache_map(s.update(i, e)) == cache_map(s).insert(entry_key(e), entry_value(e)),
    decreases s.len(),
{
    let t = s.update(i, e);
    if i == s.len() - 1 {
        assert(t.drop_last() == s.drop_last());
        assert(cache_map(t) =~= cache_map(s).insert(entry_key(e), entry_value(e)));
    } else {
        assert(entry_key(s[s.len() - 1]) != entry_key(s[i]));
        lemma_cache_update(s.drop_last(), i, e);
        assert(t.drop_last() == s.drop_last().update(i, e));
        assert(cache_map(t) =~= cache_map(s).insert(entry_key(e), entry_value(e)));
    }
}

/// Access codes already resolved, by place and link code, so that several
/// accounts joining the same private server resolve it once.
pub struct AccessCodeCache {
    entries: Vec<CacheEntry>,
}

impl AccessCodeCache {
    /// The resolved access codes (and numeric link codes) by place and link
    /// code.
    pub closed spec fn view(&self) -> Map<(u64, Seq<char>), (Seq<char>, Option<Seq<char>>)> {
        cache_map(self.entries@)
    }

    /// An empty cache.
    pub fn new() -> (c: AccessCodeCache)
        ensures
            c@ == Map::<(u64, Seq<char>), (Seq<char>, Option<Seq<char>>)>::empty(),
    {
        AccessCodeCache { entries: Vec::new() }
    }

    /// The last position whose entry has the key, if any.
    fn position(&self, place_id: u64, link_code: &str) -> (r: Option<usize>)
        ensures
            match r {
                Some(i) => i < self.entries@.len() && entry_key(self.entries@[i as int]) == (
                    place_id,
                    link_code@,
                ) && forall|j: int|
                    i < j < self.entries@.len() ==> entry_key(#[trigger] self.entries@[j]) != (
                        place_id,
                        link_code@,
                    ),
                None => forall|j: int|
                    0 <= j < self.entries@.len() ==> entry_key(#[trigger] self.entries@[j]) != (
                        place_id,
                        link_code@,
                    ),
            },
    {
        let mut i = self.entries.len();
        while i > 0
            invariant
                i <= self.entries@.len(),
                forall|j: int|
                    i <= j < self.entries@.len() ==> entry_key(#[trigger] self.entries@[j]) != (
                        place_id,
                        link_code@,
                    ),
            decreases i,
        {
            let e = &self.entries[i - 1];
            if e.place_id == place_id && str_equal(e.link_code.as_str(), link_code) {
                return Some(i - 1);
            }
            i -= 1;
        }
        None
    }

    /// The access code (and numeric link code) remembered for a place and
    /// link code.
    pub fn get(&self, place_id: u64, link_code: &str) -> (r: Option<(String, Option<String>)>)
        ensures
            match r {
                Some(v) => self@.contains_key((place_id, link_code@)) && self@[(place_id, link_code@)]
                    == (v.0@, opt_view(v.1)),
                None => !self@.contains_key((place_id, link_code@)),
            },
    {
        match self.position(place_id, link_code) {
            Some(i) => {
                proof {
                    lemma_cache_last(self.entries@, (place_id, link_code@), i as int);
                }
                let e = &self.entries[i];
                Some((e.access_code.clone(), crate::text::copy_opt_string(&e.numeric_link_code)))
            },
            None => {
                proof {
                    lemma_cache_absent(self.entries@, (place_id, link_code@));
                }
                None
            },
        }
    }

    /// Remembers the access code (and numeric link code) of a place and link
    /// code, replacing what was remembered for them.
    pub fn insert(
        &mut self,
        place_id: u64,
        link_code: String,
        access_code: String,
        numeric_link_code: Option<String>,
    )
        ensures
            final(self)@ == old(self)@.insert(
                (place_id, link_code@),
                (access_code@, opt_view(numeric_link_code)),
            ),
    {
        let e = CacheEntry { place_id, link_code, access_code, numeric_link_code };
        match self.position(place_id, e.link_code.as_str()) {
            Some(i) => {
                proof {
                    lemma_cache_update(self.entries@, i as int, e);
                }
                self.entries.set(i, e);
            },
            None => {
                self.entries.push(e);
                assert(self.entries@.drop_last() == old(self).entries@);
            },
        }
    }
}

/// How resolving a link code for a place begins.
#[derive(Debug)]
pub enum ResolveStart {
    /// The access code (and numeric link code) are known already.
    Known(String, Option<String>),
    /// A private-server link code, to be looked up.
    PrivateServerLinkCode,
    /// A share code, to be resolved through the sharelinks API.
    ShareCode,
}

/// The first step of resolving a link code for a place: a remembered
/// resolution is used as it is; a code that is already an access code is
/// remembered for the place and used, with no numeric link code; any other
/// code is to be resolved according to its kind, the cache untouched.
pub fn resolve_start(cache: &mut AccessCodeCache, place_id: u64, link_code: &str) -> (r: ResolveStart)
    ensures
        old(cache)@.contains_key((place_id, link_code@)) ==> final(cache)@ == old(cache)@ && (r matches ResolveStart::Known(a, n)
            && (a@, opt_view(n)) == old(cache)@[(place_id, link_code@)]),
        !old(cache)@.contains_key((place_id, link_code@)) ==> if looks_like_uuid(link_code@) {
            &&& r matches ResolveStart::Known(a, n) && a@ == link_code@ && n is None
            &&& final(cache)@ == old(cache)@.insert((place_id, link_code@), (link_code@, None))
        } else if is_numeric_link_code(link_code@) {
            r is PrivateServerLinkCode && final(cache)@ == old(cache)@
        } else {
            r is ShareCode && final(cache)@ == old(cache)@
        },
{
    match cache.get(place_id, link_code) {
        Some((a, n)) => ResolveStart::Known(a, n),
        None => match classify_link_code(link_code) {
            LinkCodeKind::AccessCode => {
                cache.insert(place_id, String::from_str(link_code), String::from_str(link_code), None);
                ResolveStart::Known(String::from_str(link_code), None)
            },
            LinkCodeKind::PrivateServerLinkCode => ResolveStart::PrivateServerLinkCode,
            LinkCodeKind::ShareCode => ResolveStart::ShareCode,
        },
    }
}

/// The back-off before attempt `attempt` (counting from 0) of resolving a
/// link code: none before the first, else 500 ms doubled `attempt` times.
pub open spec fn backoff_ms(attempt: u32) -> nat {
    if attempt == 0 {
        0
    } else {
        500 * vstd::arithmetic::power2::pow2(attempt as nat)
    }
}

/// Bookkeeping of the attempts to resolve a link code: how many were made,
/// at most how many may be, the last error, and whether a permanent error
/// stopped them.
#[derive(Debug)]
pub struct ResolveAttempts {
    pub attempt: u32,
    pub max_attempts: u32,
    pub last_error: String,
    pub stopped: bool,
}

impl ResolveAttempts {
    /// No attempt made yet, at most `max_attempts` allowed.
    pub fn new(max_attempts: u32) -> (r: ResolveAttempts)
        ensures
            r.attempt == 0,
            r.max_attempts == max_attempts,
            r.last_error@.len() == 0,
            !r.stopped,
    {
        ResolveAttempts { attempt: 0, max_attempts, last_error: String::new(), stopped: false }
    }

    /// Whether another attempt is made, and after how long a pause.
    pub fn next_attempt(&self) -> (r: Option<u64>)
        requires
            self.max_attempts <= 32,
        ensures
            r is Some <==> !self.stopped && self.attempt < self.max_attempts,
            r matches Some(d) ==> d == backoff_ms(self.attempt),
    {
        if self.stopped || self.attempt >= self.max_attempts {
            None
        } else if self.attempt == 0 {
            Some(0)
        } else {
            Some(crate::launcher::retry_delay_ms(self.attempt))
        }
    }

    /// Records a failed attempt: its error becomes the last one, and a
    /// permanent one stops the attempts. Tells whether the cache should be
    /// looked at now (after a failed resolution that may be retried, not
    /// after a failed token request).
    pub fn record_failure(&mut self, message: String, retryable: bool, resolving: bool) -> (check_cache: bool)
        requires
            old(self).attempt < old(self).max_attempts,
        ensures
            final(self).attempt == old(self).attempt + 1,
            final(self).max_attempts == old(self).max_attempts,
            final(self).last_error@ == message@,
            final(self).stopped == (old(self).stopped || !retryable),
            check_cache == (resolving && retryable),
    {
        self.last_error = message;
        if !retryable {
            self.stopped = true;
        }
        self.attempt = self.attempt + 1;
        resolving && retryable
    }

    /// Records an attempt whose CSRF token could not be had: it may be
    /// retried, and the cache is not looked at.
    pub fn record_token_failure(&mut self, e: &AppError)
        requires
            old(self).attempt < old(self).max_attempts,
        ensures
            final(self).attempt == old(self).attempt + 1,
            final(self).max_attempts == old(self).max_attempts,
            final(self).last_error@ == "CSRF token failed: "@ + message_of(*e),
            final(self).stopped == old(self).stopped,
    {
        let mut m = String::from_str("CSRF token failed: ");
        let t = e.message();
        m.append(t.as_str());
        self.record_failure(m, true, false);
    }

    /// The error of a share code that could not be resolved.
    pub fn share_code_failure(&self) -> (e: AppError)
        ensures
            e matches AppError::RobloxApi(t) && t@ == "Could not resolve share code. Last error: "@
                + self.last_error@ + ". The link may be invalid or expired."@,
    {
        let mut t = String::from_str("Could not resolve share code. Last error: ");
        t.append(self.last_error.as_str());
        t.append(". The link may be invalid or expired.");
        AppError::RobloxApi(t)
    }
}

/// The error of a numeric private-server link code that could not be
/// resolved.
pub fn link_code_failure() -> (e: AppError)
    ensures
        e matches AppError::RobloxApi(t) && t@
            == "Could not resolve access code from privateServerLinkCode. The link may be invalid or expired."@,
{
    AppError::RobloxApi(
        String::from_str(
            "Could not resolve access code from privateServerLinkCode. The link may be invalid or expired.",
        ),
    )
}

/// What to do after a reply of the authentication-ticket endpoint.
#[derive(Debug)]
pub enum TicketStep {
    /// Ask again with this fresh CSRF token.
    Retry { csrf: String },
    /// The ticket, or why there is none.
    Done(AppResult<String>),
}

/// Decides what follows a reply of the ticket endpoint on attempt
/// `attempt` (counting from 0) of three: a success gives the ticket header
/// (an error when it is missing); a 403 with a fresh token retries with it
/// (the third is refused); any other status fails with the status and the
/// attempt's number.
pub fn auth_ticket_step(attempt: u32, status: u16, ticket: Option<String>, csrf: Option<String>) -> (r: TicketStep)
    requires
        attempt < 3,
    ensures
        is_success(status) ==> match ticket {
            Some(t) => r matches TicketStep::Done(Ok(v)) && v@ == t@,
            None => r matches TicketStep::Done(Err(AppError::RobloxApi(m))) && m@
                == "No auth ticket in response"@,
        },
        !is_success(status) && status == 403 && csrf is Some && attempt < 2 ==> (r matches TicketStep::Retry { csrf: c }
            && c@ == csrf->0@),
        !is_success(status) && status == 403 && csrf is Some && attempt == 2 ==> (r matches TicketStep::Done(
            Err(AppError::RobloxApi(m)),
        ) && m@ == "Failed to get auth ticket after 3 CSRF retries"@),
        !is_success(status) && !(status == 403 && csrf is Some) ==> (r matches TicketStep::Done(
            Err(AppError::RobloxApi(m)),
        ) && m@ == "Failed to get auth ticket: "@ + status_display_of(status) + " (attempt "@
            + decimal(attempt as nat + 1) + ")"@),
{
    if 200 <= status && status <= 299 {
        return match ticket {
            Some(t) => TicketStep::Done(Ok(t)),
            None => TicketStep::Done(Err(AppError::RobloxApi(String::from_str("No auth ticket in response")))),
        };
    }
    if status == 403 {
        match csrf {
            Some(c) => {
                if attempt < 2 {
                    return TicketStep::Retry { csrf: c };
                }
                return TicketStep::Done(
                    Err(AppError::RobloxApi(String::from_str("Failed to get auth ticket after 3 CSRF retries"))),
                );
            },
            None => {},
        }
    }
    let mut m = String::from_str("Failed to get auth ticket: ");
    let d = status_display(status);
    m.append(d.as_str());
    m.append(" (attempt ");
    push_decimal(&mut m, attempt as u64 + 1);
    m.append(")");
    TicketStep::Done(Err(AppError::RobloxApi(m)))
}

/// The error of a join whose private-server access code could not be
/// resolved.
pub fn access_code_unresolved(e: &AppError) -> (r: AppError)
    ensures
        r matches AppError::RobloxApi(t) && t@ == "Could not resolve private server access code: "@
            + message_of(*e) + ". Make sure the link is valid and not expired."@,
{
    let mut t = String::from_str("Could not resolve private server access code: ");
    let m = e.message();
    t.append(m.as_str());
    t.append(". Make sure the link is valid and not expired.");
    AppError::RobloxApi(t)
}

} // verus!
