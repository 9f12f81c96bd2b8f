use vstd::prelude::*;
use vstd::string::StringExecFns;
use crate::error::{AppError, AppResult};
use crate::models::Account;
use crate::storage::{AccountStore, lists_exactly, sorted_by_order, not_found};
use crate::text::opt_view;

verus! {

/// What a user is doing, as the presence API reports it.
#[derive(Debug, Clone, Copy, PartialEq, Eq, Structural)]
pub enum PresenceType {
    Offline,
    Online,
    InGame,
    InStudio,
}

/// The presence type a code stands for: 1 online, 2 in game, 3 in Studio,
/// anything else offline.
pub open spec fn presence_type_of(code: u8) -> PresenceType {
    if code == 1 {
        PresenceType::Online
    } else if code == 2 {
        PresenceType::InGame
    } else if code == 3 {
        PresenceType::InStudio
    } else {
        PresenceType::Offline
    }
}

impl From<u8> for PresenceType {
    fn from(val: u8) -> (r: PresenceType) {
        if val == 1 {
            PresenceType::Online
        } else if val == 2 {
            PresenceType::InGame
        } else if val == 3 {
            PresenceType::InStudio
        } else {
            PresenceType::Offline
        }
    }
}

impl vstd::std_specs::convert::FromSpecImpl<u8> for PresenceType {
    open spec fn obeys_from_spec() -> bool {
        true
    }

    open spec fn from_spec(v: u8) -> PresenceType {
        presence_type_of(v)
    }
}

impl PresenceType {
    /// The code of a presence type (0 to 3).
    pub fn code(&self) -> (c: u8)
        ensures
            presence_type_of(c) == *self,
            c <= 3,
    {
        match self {
            PresenceType::Offline => 0,
            PresenceType::Online => 1,
            PresenceType::InGame => 2,
            PresenceType::InStudio => 3,
        }
    }
}

/// The presence of one user as the API reports it.
#[derive(Debug)]
pub struct RawPresence {
    pub user_id: u64,
    pub user_presence_type: u8,
    pub last_location: Option<String>,
    pub place_id: Option<u64>,
    pub game_id: Option<String>,
    pub universe_id: Option<u64>,
    pub last_online: Option<String>,
}

/// The presence of one user as the front end sees it.
#[derive(Debug)]
pub struct UserPresence {
    pub user_id: u64,
    pub presence_type: u8,
    pub last_location: String,
    pub place_id: Option<u64>,
    pub game_id: Option<String>,
    pub universe_id: Option<u64>,
    pub last_online: Option<String>,
}

/// The presence shown for a reported one: the same, with an empty location
/// when none was reported.
pub open spec fn shows_presence(p: UserPresence, r: RawPresence) -> bool {
    &&& p.user_id == r.user_id
    &&& p.presence_type == r.user_presence_type
    &&& p.last_location@ == match r.last_location {
        Some(l) => l@,
        None => Seq::empty(),
    }
    &&& p.place_id == r.place_id
    &&& opt_view(p.game_id) == opt_view(r.game_id)
    &&& p.universe_id == r.universe_id
    &&& opt_view(p.last_online) == opt_view(r.last_online)
}

/// The presence shown for a reported one.
pub fn presence_of(r: RawPresence) -> (p: UserPresence)
    ensures
        shows_presence(p, r),
{
    UserPresence {
        user_id: r.user_id,
        presence_type: r.user_presence_type,
        last_location: match r.last_location {
            Some(l) => l,
            None => String::new(),
        },
        place_id: r.place_id,
        game_id: r.game_id,
        universe_id: r.universe_id,
        last_online: r.last_online,
    }
}

/// The presences shown for a reply, in order, appended to `out`.
pub fn append_presences(out: &mut Vec<UserPresence>, raws: Vec<RawPresence>)
    ensures
        final(out)@.len() == old(out)@.len() + raws@.len(),
        forall|i: int| 0 <= i < old(out)@.len() ==> final(out)@[i] == old(out)@[i],
        forall|i: int|
            0 <= i < raws@.len() ==> shows_presence(#[trigger] final(out)@[old(out)@.len() + i], raws@[i]),
{
    let ghost rs = raws@;
    let ghost start = out@.len();
    for r in it: raws
        invariant
            rs == it.seq(),
            out@.len() == start + it.index(),
            start == old(out)@.len(),
            forall|i: int| 0 <= i < start ==> out@[i] == old(out)@[i],
            forall|i: int| 0 <= i < it.index() ==> shows_presence(#[trigger] out@[start + i], rs[i]),
    {
        let ghost before = out@;
        out.push(presence_of(r));
        proof {
            assert forall|i: int| 0 <= i < it.index() + 1 implies shows_presence(
                #[trigger] out@[start + i],
                rs[i],
            ) by {
                if i < it.index() {
                    assert(out@[start + i] == before[start + i]);
                }
            }
        }
    }
}

/// How many user ids one presence request may carry.
pub const PRESENCE_BATCH: usize = 50;

/// Splits user ids into the batches presence requests carry: runs of 50 in
/// order, the last one shorter when the ids do not divide evenly.
pub fn presence_batches(ids: &[u64]) -> (r: Vec<Vec<u64>>)
    ensures
        r@.len() == (ids@.len() + 49) / 50,
        forall|i: int|
            0 <= i < r@.len() ==> (#[trigger] r@[i])@ == ids@.subrange(
                50 * i,
                if 50 * i + 50 < ids@.len() {
                    50 * i + 50
                } else {
                    ids@.len() as int
                },
            ),
{
    let len = ids.len();
    let n = len / 50 + if len % 50 > 0 {
        1
    } else {
        0
    };
    assert(n == (len + 49) / 50) by (nonlinear_arith)
        requires
            n == len / 50 + if len % 50 > 0 {
                1int
            } else {
                0int
            },
    ;
    let mut r: Vec<Vec<u64>> = Vec::new();
    let mut c: usize = 0;
    while c < n
        invariant
            len == ids@.len(),
            n == (len + 49) / 50,
            c <= n,
            r@.len() == c,
            forall|i: int|
                0 <= i < r@.len() ==> (#[trigger] r@[i])@ == ids@.subrange(
                    50 * i,
                    if 50 * i + 50 < ids@.len() {
                        50 * i + 50
                    } else {
                        ids@.len() as int
                    },
                ),
        decreases n - c,
    {
        assert(50 * c < len) by (nonlinear_arith)
            requires
                c < n,
                n == (len + 49) / 50,
        ;
        let start = 50 * c;
        let end = if len - start > 50 {
            start + 50
        } else {
            len
        };
        let mut chunk: Vec<u64> = Vec::new();
        let mut k = start;
        while k < end
            invariant
                start <= k <= end <= len,
                len == ids@.len(),
                chunk@ == ids@.subrange(start as int, k as int),
            decreases end - k,
        {
            chunk.push(ids[k]);
            assert(ids@.subrange(start as int, k + 1) == ids@.subrange(start as int, k as int).push(
                ids@[k as int],
            ));
            k += 1;
        }
        let ghost before = r@;
        r.push(chunk);
        proof {
            assert forall|i: int| 0 <= i < r@.len() implies (#[trigger] r@[i])@ == ids@.subrange(
                50 * i,
                if 50 * i + 50 < ids@.len() {
                    50 * i + 50
                } else {
                    ids@.len() as int
                },
            ) by {
                if i < before.len() {
                    assert(r@[i] == before[i]);
                }
            }
        }
        c += 1;
    }
    r
}

/// The user ids of the accounts in `l` that have one, in order.
pub open spec fn user_ids_of(l: Seq<Account>) -> Seq<u64>
    decreases l.len(),
{
    if l.len() == 0 {
        Seq::empty()
    } else {
        let before = user_ids_of(l.drop_last());
        match l.last().user_id {
            Some(u) => before.push(u),
            None => before,
        }
    }
}

/// The position of the first account in `l` with a user id, or -1.
pub open spec fn first_with_user(l: Seq<Account>) -> int
    decreases l.len(),
{
    if l.len() == 0 {
        -1
    } else if l[0].user_id is Some {
        0
    } else {
        let r = first_with_user(l.drop_first());
        if r < 0 {
            -1
        } else {
            r + 1
        }
    }
}

proof fn lemma_user_ids_len(l: Seq<Account>)
    ensures
        user_ids_of(l).len() == 0 <==> forall|i: int| 0 <= i < l.len() ==> (#[trigger] l[i]).user_id is None,
    decreases l.len(),
{
    if l.len() > 0 {
        let t = l.drop_last();
        lemma_user_ids_len(t);
        assert forall|i: int| 0 <= i < t.len() implies t[i] == l[i] by {}
    }
}

proof fn lemma_first_with_user(l: Seq<Account>)
    ensures
        first_with_user(l) == -1 <==> forall|i: int| 0 <= i < l.len() ==> (#[trigger] l[i]).user_id is None,
        first_with_user(l) >= 0 ==> 0 <= first_with_user(l) < l.len() && l[first_with_user(l)].user_id is Some,
    decreases l.len(),
{
    if l.len() > 0 && l[0].user_id is None {
        let t = l.drop_first();
        lemma_first_with_user(t);
        assert forall|i: int| 0 <= i < t.len() implies t[i] == l[i + 1] by {}
        if forall|i: int| 0 <= i < t.len() ==> (#[trigger] t[i]).user_id is None {
            assert forall|i: int| 0 <= i < l.len() implies (#[trigger] l[i]).user_id is None by {
                if i > 0 {
                    assert(l[i] == t[i - 1]);
                }
            }
        }
    }
}

/// The user ids of some accounts, and the position of the first account
/// that has one.
fn user_ids_and_first(accounts: &Vec<Account>) -> (r: (Vec<u64>, Option<usize>))
    ensures
        r.0@ == user_ids_of(accounts@),
        match r.1 {
            Some(f) => f < accounts@.len() && f as int == first_with_user(accounts@),
            None => first_with_user(accounts@) == -1,
        },
        (r.0@.len() == 0) <==> (r.1 is None),
{
    let ghost l = accounts@;
    let mut ids: Vec<u64> = Vec::new();
    let mut first: Option<usize> = None;
    let mut i: usize = 0;
    while i < accounts.len()
        invariant
            i <= l.len(),
            l == accounts@,
            ids@ == user_ids_of(l.take(i as int)),
            match first {
                Some(f) => f < i && f as int == first_with_user(l),
                None => forall|j: int| 0 <= j < i ==> (#[trigger] l[j]).user_id is None,
            },
        decreases l.len() - i,
    {
        assert(l.take(i + 1).drop_last() == l.take(i as int));
        match accounts[i].user_id {
            Some(u) => {
                ids.push(u);
                if first.is_none() {
                    proof {
                        lemma_first_some(l, i as int);
                    }
                    first = Some(i);
                }
            },
            None => {},
        }
        i += 1;
    }
    assert(l.take(l.len() as int) == l);
    proof {
        lemma_user_ids_len(l);
        lemma_first_with_user(l);
    }
    (ids, first)
}

/// What the presence of all accounts needs: the user ids of the accounts
/// that have one (in sort order) and the cookie of the first such account;
/// nothing to ask when no account has a user id.
pub fn presence_request(store: &AccountStore) -> (r: AppResult<Option<(Vec<u64>, String)>>)
    requires
        store.wf(),
        forall|l: Seq<Account>|
            #![trigger lists_exactly(l, store@)]
            lists_exactly(l, store@) && sorted_by_order(l) && user_ids_of(l).len() > 0 ==> store.nonce_ok(
                l[first_with_user(l)].id,
            ),
    ensures
        exists|l: Seq<Account>|
            #![trigger lists_exactly(l, store@)]
            lists_exactly(l, store@) && sorted_by_order(l) && match r {
                Ok(None) => user_ids_of(l).len() == 0,
                Ok(Some(x)) => x.0@ == user_ids_of(l) && user_ids_of(l).len() > 0 && store.stored_cookie(
                    l[first_with_user(l)].id,
                ) == Some(x.1@),
                Err(e) => user_ids_of(l).len() > 0 && store.stored_cookie(l[first_with_user(l)].id)
                    is None && (e matches AppError::Other(t) && t@
                    == "No account cookie available for presence check"@),
            },
{
    let accounts = store.list_accounts();
    let (ids, first) = user_ids_and_first(&accounts);
    proof {
        lemma_first_with_user(accounts@);
    }
    match first {
        None => Ok(None),
        Some(f) => {
            let id = accounts[f].id;
            assert(lists_exactly(accounts@, store@));
            assert(store.nonce_ok(id));
            match store.get_cookie(&id) {
                Ok(c) => Ok(Some((ids, c))),
                Err(_) => Err(AppError::Other(String::from_str("No account cookie available for presence check"))),
            }
        },
    }
}

proof fn lemma_first_some(l: Seq<Account>, i: int)
    requires
        0 <= i < l.len(),
        l[i].user_id is Some,
        forall|j: int| 0 <= j < i ==> (#[trigger] l[j]).user_id is None,
    ensures
        first_with_user(l) == i,
    decreases i,
{
    if i > 0 {
        let t = l.drop_first();
        assert forall|j: int| 0 <= j < i - 1 implies (#[trigger] t[j]).user_id is None by {
            assert(t[j] == l[j + 1]);
        }
        lemma_first_some(t, i - 1);
    }
}

/// What the presence of one account needs: its user id and its cookie.
pub fn single_presence_request(store: &AccountStore, id: u128) -> (r: AppResult<(u64, String)>)
    requires
        store.wf(),
        store.nonce_ok(id),
    ensures
        !store@.contains_key(id) ==> (r matches Err(e) && not_found(e, id)),
        store@.contains_key(id) && store@[id].user_id is None ==> (r matches Err(AppError::Other(t))
            && t@ == "Account has no user_id"@),
        store@.contains_key(id) && store@[id].user_id is Some ==> match r {
            Ok(x) => x.0 == store@[id].user_id->0 && store.stored_cookie(id) == Some(x.1@),
            Err(e) => store.stored_cookie(id) is None,
        },
{
    let user_id = match store.get_account(&id) {
        Ok(a) => match a.user_id {
            Some(u) => u,
            None => return Err(AppError::Other(String::from_str("Account has no user_id"))),
        },
        Err(e) => return Err(e),
    };
    let read = store.get_cookie(&id);
    match read {
        Ok(c) => Ok((user_id, c)),
        Err(e) => Err(e),
    }
}

/// The first presence of a reply, or an error when there is none.
pub fn first_presence(list: Vec<UserPresence>) -> (r: AppResult<UserPresence>)
    ensures
        list@.len() > 0 ==> r == Ok::<UserPresence, AppError>(list@[0]),
        list@.len() == 0 ==> (r matches Err(AppError::Other(t)) && t@ == "No presence data returned"@),
{
    let mut list = list;
    if list.len() == 0 {
        Err(AppError::Other(String::from_str("No presence data returned")))
    } else {
        Ok(list.swap_remove(0))
    }
}

} // verus!
