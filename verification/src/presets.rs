use vstd::prelude::*;
use crate::error::{AppError, AppResult};
use crate::random::random_u64;
use crate::format::{hex16, hex_fixed};
use crate::text::{trim, trimmed, to_lowercase, lowercase_of, str_equal};
use vstd::string::StringExecFns;

verus! {

/// How many entries each recent-history list keeps.
pub const MAX_RECENT: usize = 10;

/// A recent history entry (a place id or a private-server link).
#[derive(Debug)]
pub struct RecentEntry {
    pub value: String,
    pub label: String,
    pub timestamp: u64,
}

/// A named preset holding a place id and a private-server link.
#[derive(Debug)]
pub struct JoinPreset {
    pub id: String,
    pub name: String,
    pub place_id: String,
    pub ps_link: String,
    pub created_at: u64,
}

/// All join-related persistent data.
#[derive(Debug)]
pub struct JoinData {
    pub recent_place_ids: Vec<RecentEntry>,
    pub recent_ps_links: Vec<RecentEntry>,
    pub presets: Vec<JoinPreset>,
}

impl Default for JoinData {
    fn default() -> (d: JoinData)
        ensures
            d.recent_place_ids@.len() == 0,
            d.recent_ps_links@.len() == 0,
            d.presets@.len() == 0,
    {
        JoinData { recent_place_ids: Vec::new(), recent_ps_links: Vec::new(), presets: Vec::new() }
    }
}

/// Milliseconds since the Unix epoch from `SystemTime::now`, or `None` when
/// the clock reads before the epoch. Nothing is promised of the value.
#[verifier::external_body]
fn epoch_millis() -> Option<u128> {
    match std::time::SystemTime::now().duration_since(std::time::UNIX_EPOCH) {
        Ok(d) => Some(d.as_millis()),
        Err(_) => None,
    }
}

/// Milliseconds as a 64-bit number from a clock reading: the reading
/// truncated to 64 bits, or 0 when the clock read before the epoch.
pub fn millis_from_reading(reading: Option<u128>) -> (r: u64)
    ensures
        r == match reading {
            Some(ms) => (ms % 0x1_0000_0000_0000_0000) as u64,
            None => 0u64,
        },
{
    match reading {
        Some(ms) => {
            let r = #[verifier::truncate] (ms as u64);
            assert(r == ms % 0x1_0000_0000_0000_0000) by (bit_vector)
                requires r == ms as u64;
            r
        },
        None => 0,
    }
}

/// The current time in milliseconds since the Unix epoch (0 when the clock
/// reads before the epoch), truncated to 64 bits.
pub fn now_millis() -> u64 {
    millis_from_reading(epoch_millis())
}

/// An entry differs from the lower-cased key.
pub open spec fn differs_from(key: Seq<char>) -> spec_fn(RecentEntry) -> bool {
    |e: RecentEntry| lowercase_of(e.value@) != key
}

/// The entries of `s` whose value differs from `value` ignoring case.
pub open spec fn without_value(s: Seq<RecentEntry>, value: Seq<char>) -> Seq<RecentEntry> {
    s.filter(differs_from(lowercase_of(value)))
}

/// Removes, in order, the entries whose value equals `value` ignoring case.
fn drop_matching(list: &mut Vec<RecentEntry>, value: &str)
    ensures
        final(list)@ == without_value(old(list)@, value@),
{
    let key = to_lowercase(value);
    let ghost pred = differs_from(key@);
    let mut kept: Vec<RecentEntry> = Vec::new();
    let mut rest: Vec<RecentEntry> = Vec::new();
    std::mem::swap(&mut rest, list);
    let ghost all = rest@;
    for e in it: rest
        invariant
            it.seq() == all,
            all == old(list)@,
            key@ == lowercase_of(value@),
            pred == differs_from(key@),
            kept@ == all.take(it.index() as int).filter(pred),
    {
        proof {
            reveal_with_fuel(Seq::<_>::filter, 1);
            assert(all.take(it.index() + 1).drop_last() == all.take(it.index() as int));
        }
        let lower = to_lowercase(e.value.as_str());
        if !str_equal(lower.as_str(), key.as_str()) {
            kept.push(e);
        }
    }
    assert(all.take(all.len() as int) == all);
    *list = kept;
}

/// What adding `value` (with `label`, at `timestamp`) to a recent list gives:
/// when the trimmed value is empty the list is unchanged; otherwise the
/// trimmed value goes to the front, earlier entries equal to it ignoring case
/// are dropped, and the list is cut to its first `MAX_RECENT` entries.
pub open spec fn recent_added(
    old: Seq<RecentEntry>,
    value: Seq<char>,
    label: String,
    timestamp: u64,
    new: Seq<RecentEntry>,
) -> bool {
    let t = trimmed(value);
    if t.len() == 0 {
        new == old
    } else {
        let rest = without_value(old, t);
        let n = if rest.len() + 1 < MAX_RECENT {
            rest.len() + 1int
        } else {
            MAX_RECENT as int
        };
        &&& new.len() == n
        &&& new[0].value@ == t
        &&& new[0].label == label
        &&& new[0].timestamp == timestamp
        &&& new.subrange(1, n) == rest.subrange(0, n - 1)
    }
}

/// Adds `value` to the front of a recent list at the given time.
pub fn add_recent_entry(list: &mut Vec<RecentEntry>, value: &str, label: String, timestamp: u64) -> (added: bool)
    ensures
        recent_added(old(list)@, value@, label, timestamp, final(list)@),
        added == (trimmed(value@).len() > 0),
{
    let t = trim(value);
    if t.as_str().is_empty() {
        return false;
    }
    drop_matching(list, t.as_str());
    let ghost rest = list@;
    list.insert(0, RecentEntry { value: t, label, timestamp });
    list.truncate(MAX_RECENT);
    proof {
        let n = if rest.len() + 1 < MAX_RECENT {
            rest.len() + 1int
        } else {
            MAX_RECENT as int
        };
        assert(list@.subrange(1, n) =~= rest.subrange(0, n - 1));
    }
    true
}

/// What removing `value` from a recent list gives: every entry equal to it
/// ignoring case is dropped (the value is not trimmed).
pub fn remove_recent_entry(list: &mut Vec<RecentEntry>, value: &str)
    ensures
        final(list)@ == without_value(old(list)@, value@),
{
    drop_matching(list, value);
}

impl JoinData {
    /// Records a place id at the front of the recent place ids, stamped with
    /// the current time.
    pub fn add_recent_place_id(&mut self, value: &str, label: String) -> (added: bool)
        ensures
            added == (trimmed(value@).len() > 0),
            exists|ts: u64|
                recent_added(
                    old(self).recent_place_ids@,
                    value@,
                    label,
                    ts,
                    final(self).recent_place_ids@,
                ),
            final(self).recent_ps_links@ == old(self).recent_ps_links@,
            final(self).presets@ == old(self).presets@,
    {
        let ts = now_millis();
        let ghost lab = label;
        let added = add_recent_entry(&mut self.recent_place_ids, value, label, ts);
        assert(recent_added(old(self).recent_place_ids@, value@, lab, ts, self.recent_place_ids@));
        added
    }

    /// Records a private-server link at the front of the recent links,
    /// stamped with the current time.
    pub fn add_recent_ps_link(&mut self, value: &str, label: String) -> (added: bool)
        ensures
            added == (trimmed(value@).len() > 0),
            exists|ts: u64|
                recent_added(
                    old(self).recent_ps_links@,
                    value@,
                    label,
                    ts,
                    final(self).recent_ps_links@,
                ),
            final(self).recent_place_ids@ == old(self).recent_place_ids@,
            final(self).presets@ == old(self).presets@,
    {
        let ts = now_millis();
        let ghost lab = label;
        let added = add_recent_entry(&mut self.recent_ps_links, value, label, ts);
        assert(recent_added(old(self).recent_ps_links@, value@, lab, ts, self.recent_ps_links@));
        added
    }

    /// Drops the recent place ids equal to `value` ignoring case.
    pub fn remove_recent_place_id(&mut self, value: &str)
        ensures
            final(self).recent_place_ids@ == without_value(old(self).recent_place_ids@, value@),
            final(self).recent_ps_links@ == old(self).recent_ps_links@,
            final(self).presets@ == old(self).presets@,
    {
        remove_recent_entry(&mut self.recent_place_ids, value);
    }

    /// Drops the recent private-server links equal to `value` ignoring case.
    pub fn remove_recent_ps_link(&mut self, value: &str)
        ensures
            final(self).recent_ps_links@ == without_value(old(self).recent_ps_links@, value@),
            final(self).recent_place_ids@ == old(self).recent_place_ids@,
            final(self).presets@ == old(self).presets@,
    {
        remove_recent_entry(&mut self.recent_ps_links, value);
    }

    /// Appends a preset with a fresh random id (sixteen lower-case hex
    /// digits), stamped with the current time.
    pub fn add_preset(&mut self, name: String, place_id: String, ps_link: String)
        ensures
            final(self).presets@.len() == old(self).presets@.len() + 1,
            final(self).presets@.drop_last() == old(self).presets@,
            ({
                let p = final(self).presets@.last();
                &&& p.name == name
                &&& p.place_id == place_id
                &&& p.ps_link == ps_link
                &&& exists|r: u64| p.id@ == hex_fixed(r as nat, 16)
            }),
            final(self).recent_place_ids@ == old(self).recent_place_ids@,
            final(self).recent_ps_links@ == old(self).recent_ps_links@,
    {
        let r = random_u64();
        let id = hex16(r);
        let created_at = now_millis();
        self.presets.push(JoinPreset { id, name, place_id, ps_link, created_at });
        assert(self.presets@.drop_last() == old(self).presets@);
    }

    /// Changes the name, place id and link of the first preset with the
    /// given id; fails when no preset has it.
    pub fn update_preset(&mut self, id: &str, name: String, place_id: String, ps_link: String) -> (r: AppResult<()>)
        ensures
            (r is Ok) <==> exists|i: int| 0 <= i < old(self).presets@.len() && #[trigger] old(self).presets@[i].id@ == id@,
            r is Ok ==> {
                let i = first_preset_with_id(old(self).presets@, id@);
                &&& final(self).presets@.len() == old(self).presets@.len()
                &&& forall|j: int| 0 <= j < old(self).presets@.len() && j != i ==> final(self).presets@[j] == old(self).presets@[j]
                &&& final(self).presets@[i].id == old(self).presets@[i].id
                &&& final(self).presets@[i].created_at == old(self).presets@[i].created_at
                &&& final(self).presets@[i].name == name
                &&& final(self).presets@[i].place_id == place_id
                &&& final(self).presets@[i].ps_link == ps_link
            },
            r matches Err(e) ==> final(self).presets@ == old(self).presets@ && (e matches AppError::Other(m) && m@ == "Preset not found: "@ + id@),
            final(self).recent_place_ids@ == old(self).recent_place_ids@,
            final(self).recent_ps_links@ == old(self).recent_ps_links@,
    {
        let mut i: usize = 0;
        while i < self.presets.len()
            invariant
                i <= self.presets@.len(),
                self.presets@ == old(self).presets@,
                self.recent_place_ids@ == old(self).recent_place_ids@,
                self.recent_ps_links@ == old(self).recent_ps_links@,
                forall|j: int| 0 <= j < i ==> self.presets@[j].id@ != id@,
            decreases self.presets@.len() - i,
        {
            if str_equal(self.presets[i].id.as_str(), id) {
                proof {
                    lemma_first_preset_with_id(old(self).presets@, id@, i as int);
                }
                let old_p = self.presets.remove(i);
                let JoinPreset { id: pid, created_at, .. } = old_p;
                self.presets.insert(i, JoinPreset { id: pid, name, place_id, ps_link, created_at });
                return Ok(());
            }
            i += 1;
        }
        let mut m = String::from_str("Preset not found: ");
        m.append(id);
        Err(AppError::Other(m))
    }

    /// Drops every preset with the given id.
    pub fn remove_preset(&mut self, id: &str)
        ensures
            final(self).presets@ == old(self).presets@.filter(|p: JoinPreset| p.id@ != id@),
            final(self).recent_place_ids@ == old(self).recent_place_ids@,
            final(self).recent_ps_links@ == old(self).recent_ps_links@,
    {
        let ghost pred = |p: JoinPreset| p.id@ != id@;
        let mut kept: Vec<JoinPreset> = Vec::new();
        let mut rest: Vec<JoinPreset> = Vec::new();
        std::mem::swap(&mut rest, &mut self.presets);
        let ghost all = rest@;
        for p in it: rest
            invariant
                it.seq() == all,
                all == old(self).presets@,
                pred == (|p: JoinPreset| p.id@ != id@),
                kept@ == all.take(it.index() as int).filter(pred),
        {
            proof {
                reveal_with_fuel(Seq::<_>::filter, 1);
                assert(all.take(it.index() + 1).drop_last() == all.take(it.index() as int));
            }
            if !str_equal(p.id.as_str(), id) {
                kept.push(p);
            }
        }
        assert(all.take(all.len() as int) == all);
        self.presets = kept;
    }
}

/// The position of the first preset with the given id.
pub open spec fn first_preset_with_id(s: Seq<JoinPreset>, id: Seq<char>) -> int
    decreases s.len(),
{
    if s.len() == 0 {
        0
    } else if s[0].id@ == id {
        0
    } else {
        1 + first_preset_with_id(s.drop_first(), id)
    }
}

proof fn lemma_first_preset_with_id(s: Seq<JoinPreset>, id: Seq<char>, i: int)
    requires
        0 <= i < s.len(),
        s[i].id@ == id,
        forall|j: int| 0 <= j < i ==> s[j].id@ != id,
    ensures
        first_preset_with_id(s, id) == i,
    decreases i,
{
    if i > 0 {
        let t = s.drop_first();
        assert forall|j: int| 0 <= j < i - 1 implies t[j].id@ != id by {
            assert(t[j] == s[j + 1]);
        }
        lemma_first_preset_with_id(t, id, i - 1);
    }
}

} // verus!
