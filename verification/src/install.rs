use vstd::prelude::*;
use vstd::string::StringExecFns;
use crate::game::{first_occurrence, lemma_first_occurrence, lemma_first_occurrence_none};
use crate::text::{
    chars_of, string_of, find_from, trim, trimmed, trim_start_ws, is_white_space, is_white_space_char,
    lemma_trim_start,
};

verus! {

/// `s` without the leading copies of `c`.
pub open spec fn strip_start_char(s: Seq<char>, c: char) -> Seq<char>
    decreases s.len(),
{
    if s.len() > 0 && s[0] == c {
        strip_start_char(s.drop_first(), c)
    } else {
        s
    }
}

/// `s` without the trailing copies of `c`.
pub open spec fn strip_end_char(s: Seq<char>, c: char) -> Seq<char>
    decreases s.len(),
{
    if s.len() > 0 && s.last() == c {
        strip_end_char(s.drop_last(), c)
    } else {
        s
    }
}

/// Where the word starting at `i` ends: the first white space at or after
/// `i`, else the end of `s`.
pub open spec fn word_end(s: Seq<char>, i: int) -> int
    decreases s.len() - i,
{
    if i < 0 || i >= s.len() {
        s.len() as int
    } else if is_white_space(s[i]) {
        i
    } else {
        word_end(s, i + 1)
    }
}

/// The first word of `s` (empty when there is none).
pub open spec fn first_word(s: Seq<char>) -> Seq<char> {
    let t = trim_start_ws(s);
    t.subrange(0, word_end(t, 0))
}

/// The program a `reg query` output line names, when the line holds a
/// `REG_SZ` value: the text after the first `REG_SZ` (up to a second one),
/// trimmed, without surrounding double quotes, up to its first white space.
pub open spec fn registry_program_of(line: Seq<char>) -> Option<Seq<char>> {
    let i = first_occurrence(line, "REG_SZ"@, 0);
    if i < 0 {
        None
    } else {
        let rest = line.subrange(i + 6, line.len() as int);
        let j = first_occurrence(rest, "REG_SZ"@, 0);
        let field = if j < 0 {
            rest
        } else {
            rest.subrange(0, j)
        };
        Some(first_word(strip_end_char(strip_start_char(trimmed(field), '"'), '"')))
    }
}

proof fn lemma_strip_start(s: Seq<char>, c: char, k: int)
    requires
        0 <= k <= s.len(),
        forall|i: int| 0 <= i < k ==> s[i] == c,
        k == s.len() || s[k] != c,
    ensures
        strip_start_char(s, c) == s.subrange(k, s.len() as int),
    decreases k,
{
    if k == 0 {
        assert(s.subrange(0, s.len() as int) == s);
    } else {
        let t = s.drop_first();
        assert forall|i: int| 0 <= i < k - 1 implies t[i] == c by {
            assert(t[i] == s[i + 1]);
        }
        lemma_strip_start(t, c, k - 1);
        assert(t.subrange(k - 1, t.len() as int) == s.subrange(k, s.len() as int));
    }
}

proof fn lemma_strip_end(s: Seq<char>, c: char, k: int)
    requires
        0 <= k <= s.len(),
        forall|i: int| k <= i < s.len() ==> s[i] == c,
        k == 0 || s[k - 1] != c,
    ensures
        strip_end_char(s, c) == s.subrange(0, k),
    decreases s.len() - k,
{
    if k == s.len() {
        assert(s.subrange(0, s.len() as int) == s);
    } else {
        let t = s.drop_last();
        assert forall|i: int| k <= i < t.len() implies t[i] == c by {
            assert(t[i] == s[i]);
        }
        lemma_strip_end(t, c, k);
        assert(t.subrange(0, k) == s.subrange(0, k));
    }
}

proof fn lemma_word_end(s: Seq<char>, i: int, k: int)
    requires
        0 <= i <= k <= s.len(),
        forall|j: int| i <= j < k ==> !is_white_space(#[trigger] s[j]),
        k == s.len() || is_white_space(s[k]),
    ensures
        word_end(s, i) == k,
    decreases k - i,
{
    if i < k {
        lemma_word_end(s, i + 1, k);
    }
}

/// The first word of the characters `v[from..to]`.
fn first_word_of(v: &[char], from: usize, to: usize) -> (r: String)
    requires
        from <= to <= v@.len(),
    ensures
        r@ == first_word(v@.subrange(from as int, to as int)),
{
    let ghost u = v@.subrange(from as int, to as int);
    let mut c = from;
    while c < to && is_white_space_char(v[c])
        invariant
            from <= c <= to <= v@.len(),
            u == v@.subrange(from as int, to as int),
            forall|j: int| from <= j < c ==> is_white_space(#[trigger] v@[j]),
        decreases to - c,
    {
        c += 1;
    }
    proof {
        assert forall|j: int| 0 <= j < c - from implies is_white_space(#[trigger] u[j]) by {
            assert(u[j] == v@[from + j]);
        }
        lemma_trim_start(u, c - from);
        assert(u.subrange(c - from, u.len() as int) == v@.subrange(c as int, to as int));
    }
    let mut d = c;
    while d < to && !is_white_space_char(v[d])
        invariant
            c <= d <= to <= v@.len(),
            forall|j: int| c <= j < d ==> !is_white_space(#[trigger] v@[j]),
        decreases to - d,
    {
        d += 1;
    }
    proof {
        let t = v@.subrange(c as int, to as int);
        assert forall|j: int| 0 <= j < d - c implies !is_white_space(#[trigger] t[j]) by {
            assert(t[j] == v@[c + j]);
        }
        if d < to {
            assert(t[d - c] == v@[d as int]);
        }
        lemma_word_end(t, 0, d - c);
        assert(t.subrange(0, d - c) == v@.subrange(c as int, d as int));
    }
    string_of(v, c, d)
}

/// The program a `reg query` output line names, if the line holds a
/// `REG_SZ` value.
pub fn registry_program(line: &str) -> (r: Option<String>)
    ensures
        match r {
            Some(p) => registry_program_of(line@) == Some(p@),
            None => registry_program_of(line@) is None,
        },
{
    proof {
        reveal_strlit("REG_SZ");
    }
    let v = chars_of(line);
    let n = v.len();
    let pat = chars_of("REG_SZ");
    let i = match find_from(v.as_slice(), pat.as_slice(), 0) {
        Some(i) => {
            proof {
                lemma_first_occurrence(line@, "REG_SZ"@, 0, i as int);
            }
            i
        },
        None => {
            proof {
                lemma_first_occurrence_none(line@, "REG_SZ"@, 0);
            }
            return None;
        },
    };
    let rest = string_of(v.as_slice(), i + 6, n);
    let rv = chars_of(rest.as_str());
    let field = match find_from(rv.as_slice(), pat.as_slice(), 0) {
        Some(j) => {
            proof {
                lemma_first_occurrence(rest@, "REG_SZ"@, 0, j as int);
            }
            string_of(rv.as_slice(), 0, j)
        },
        None => {
            proof {
                lemma_first_occurrence_none(rest@, "REG_SZ"@, 0);
            }
            rest
        },
    };
    let t = trim(field.as_str());
    let tv = chars_of(t.as_str());
    let m = tv.len();
    let mut a: usize = 0;
    while a < m && tv[a] == '"'
        invariant
            a <= m == tv@.len(),
            forall|j: int| 0 <= j < a ==> tv@[j] == '"',
        decreases m - a,
    {
        a += 1;
    }
    let mut b: usize = m;
    while b > a && tv[b - 1] == '"'
        invariant
            a <= b <= m == tv@.len(),
            forall|j: int| b <= j < m ==> tv@[j] == '"',
        decreases b,
    {
        b -= 1;
    }
    proof {
        lemma_strip_start(tv@, '"', a as int);
        let s1 = tv@.subrange(a as int, m as int);
        assert forall|j: int| b - a <= j < s1.len() implies s1[j] == '"' by {
            assert(s1[j] == tv@[a + j]);
        }
        if b > a {
            assert(s1[b - a - 1] == tv@[b - 1]);
        }
        lemma_strip_end(s1, '"', b - a);
        assert(s1.subrange(0, b - a) == tv@.subrange(a as int, b as int));
    }
    Some(first_word_of(tv.as_slice(), a, b))
}

/// When a candidate was last modified, in nanoseconds since the epoch (0 when
/// unknown).
pub open spec fn modified_time(c: (Option<u128>, String)) -> u128 {
    match c.0 {
        Some(t) => t,
        None => 0,
    }
}

/// Candidate `k` is the newest: modified after the epoch, later than every
/// candidate before it and no earlier than any after it.
pub open spec fn is_newest(c: Seq<(Option<u128>, String)>, k: int) -> bool {
    &&& 0 <= k < c.len()
    &&& modified_time(c[k]) > 0
    &&& forall|j: int| 0 <= j < k ==> modified_time(#[trigger] c[j]) < modified_time(c[k])
    &&& forall|j: int| k < j < c.len() ==> modified_time(#[trigger] c[j]) <= modified_time(c[k])
}

/// The most recently modified client among candidate paths (each with its
/// modification time, when known); the first of equally recent ones.
pub fn newest_player(candidates: &Vec<(Option<u128>, String)>) -> (r: Option<String>)
    ensures
        match r {
            Some(p) => exists|k: int| is_newest(candidates@, k) && p@ == candidates@[k].1@,
            None => forall|j: int| 0 <= j < candidates@.len() ==> modified_time(#[trigger] candidates@[j]) == 0,
        },
{
    let mut best: Option<usize> = None;
    let mut best_time: u128 = 0;
    let mut i: usize = 0;
    while i < candidates.len()
        invariant
            i <= candidates@.len(),
            match best {
                Some(k) => k < i && best_time == modified_time(candidates@[k as int]) && best_time > 0
                    && (forall|j: int| 0 <= j < k ==> modified_time(#[trigger] candidates@[j]) < best_time)
                    && (forall|j: int| k < j < i ==> modified_time(#[trigger] candidates@[j]) <= best_time),
                None => best_time == 0 && forall|j: int| 0 <= j < i ==> modified_time(#[trigger] candidates@[j]) == 0,
            },
        decreases candidates@.len() - i,
    {
        let t: u128 = match candidates[i].0 {
            Some(t) => t,
            None => 0,
        };
        if t > best_time {
            best = Some(i);
            best_time = t;
        }
        i += 1;
    }
    match best {
        Some(k) => {
            assert(is_newest(candidates@, k as int));
            Some(candidates[k].1.clone())
        },
        None => None,
    }
}

/// Where the client is looked for, in order, as a base directory and the
/// install under it whose `Versions` directory is searched: the standard
/// install, then those of Bloxstrap, Fishstrap and Froststrap, all under
/// the local application data; then Roblox under Program Files.
pub open spec fn install_dirs_of(local_app_data: Seq<char>, program_files: Seq<char>) -> Seq<(Seq<char>, Seq<char>)> {
    seq![
        (local_app_data, "Roblox"@),
        (local_app_data, "Bloxstrap"@),
        (local_app_data, "Fishstrap"@),
        (local_app_data, "Froststrap"@),
        (program_files, "Roblox"@),
    ]
}

/// Pairs of strings as characters.
pub open spec fn pairs_view(s: Seq<(String, String)>) -> Seq<(Seq<char>, Seq<char>)> {
    s.map_values(|p: (String, String)| (p.0@, p.1@))
}

/// The install directories searched for the client, in the order they are
/// tried.
pub fn install_dirs(local_app_data: &str, program_files: &str) -> (r: Vec<(String, String)>)
    ensures
        pairs_view(r@) == install_dirs_of(local_app_data@, program_files@),
{
    let mut r: Vec<(String, String)> = Vec::new();
    r.push((String::from_str(local_app_data), String::from_str("Roblox")));
    r.push((String::from_str(local_app_data), String::from_str("Bloxstrap")));
    r.push((String::from_str(local_app_data), String::from_str("Fishstrap")));
    r.push((String::from_str(local_app_data), String::from_str("Froststrap")));
    r.push((String::from_str(program_files), String::from_str("Roblox")));
    assert(pairs_view(r@) =~= install_dirs_of(local_app_data@, program_files@));
    r
}

} // verus!
