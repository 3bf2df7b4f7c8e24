//! The backup store of an instance: timestamped snapshots of the world
//! subtree under collision-avoiding names.
//!
//! A backup is named `{subtree}-{YYYYMMDD-HHMMSS}[-{tag}][-{NN}]`: the
//! second-precision timestamp, an optional sanitized tag, and, where that
//! name is already taken, the first free two-digit numeric suffix.

use chrono::{Datelike, Timelike, Utc};

use vstd::prelude::*;
use vstd::string::*;

use vstd::set_lib::{
    lemma_int_range, lemma_len_subset, lemma_map_size, lemma_map_size_bound, set_int_range,
};

use crate::errors::Error;
use crate::text::{
    chars_of, lemma_dec_pad_len, lemma_dec_pad_val, push_dec_pad, spec_dec, spec_dec_pad,
    string_from_chars,
};
use crate::world::{clone_entries, entries_view, has_marker, set_world, WorldEntry};

verus! {

/// One reading of the wall clock, to second precision.
#[derive(Clone, Copy, Debug, PartialEq, Eq, Structural)]
pub struct Timestamp {
    pub year: u32,
    pub month: u32,
    pub day: u32,
    pub hour: u32,
    pub minute: u32,
    pub second: u32,
}

/// Relies on chrono's `Utc::now` read through the `Datelike` and `Timelike`
/// accessors, whose documentation bounds them: month 1 to 12, day 1 to 31,
/// hour 0 to 23, minute and second 0 to 59. Of the reading itself nothing is
/// promised — it is the time now.
#[verifier::external_body]
pub fn current_utc_timestamp() -> (r: Timestamp)
    ensures
        1 <= r.month <= 12,
        1 <= r.day <= 31,
        r.hour <= 23,
        r.minute <= 59,
        r.second <= 59,
{
    let now = Utc::now();
    Timestamp {
        year: now.year() as u32,
        month: now.month(),
        day: now.day(),
        hour: now.hour(),
        minute: now.minute(),
        second: now.second(),
    }
}

/// The `YYYYMMDD-HHMMSS` rendering of a timestamp. Fields too wide for
/// their column are rendered in full rather than truncated.
pub open spec fn spec_timestamp_chars(ts: Timestamp) -> Seq<char> {
    spec_dec_pad(ts.year as nat, 4) + spec_dec_pad(ts.month as nat, 2) + spec_dec_pad(
        ts.day as nat,
        2,
    ) + seq!['-'] + spec_dec_pad(ts.hour as nat, 2) + spec_dec_pad(ts.minute as nat, 2)
        + spec_dec_pad(ts.second as nat, 2)
}

/// Renders a timestamp as `YYYYMMDD-HHMMSS`.
pub fn format_timestamp(ts: &Timestamp) -> (r: Vec<char>)
    ensures
        r@ == spec_timestamp_chars(*ts),
{
    let mut r: Vec<char> = Vec::new();
    push_dec_pad(ts.year as u64, 4, &mut r);
    push_dec_pad(ts.month as u64, 2, &mut r);
    push_dec_pad(ts.day as u64, 2, &mut r);
    r.push('-');
    push_dec_pad(ts.hour as u64, 2, &mut r);
    push_dec_pad(ts.minute as u64, 2, &mut r);
    push_dec_pad(ts.second as u64, 2, &mut r);
    proof {
        assert(r@ =~= spec_timestamp_chars(*ts));
    }
    r
}

/// A tag character that is kept as it is.
pub open spec fn tag_char_kept(c: char) -> bool {
    ('a' <= c && c <= 'z') || ('A' <= c && c <= 'Z') || ('0' <= c && c <= '9') || c == '-' || c
        == '_'
}

/// How one tag character is sanitized: characters outside `[A-Za-z0-9_-]`
/// are replaced, a space by `-` and anything else by `_`.
pub open spec fn map_tag_char(c: char) -> char {
    if tag_char_kept(c) {
        c
    } else if c == ' ' {
        '-'
    } else {
        '_'
    }
}

/// A whole tag, character-sanitized but not yet trimmed.
pub open spec fn mapped_tag(s: Seq<char>) -> Seq<char> {
    s.map_values(|c: char| map_tag_char(c))
}

/// A separator character, trimmed from the ends of a sanitized tag.
pub open spec fn is_sep(c: char) -> bool {
    c == '-' || c == '_'
}

/// A sequence with its leading separators dropped.
pub open spec fn trim_front(s: Seq<char>) -> Seq<char>
    decreases s.len(),
{
    if s.len() > 0 && is_sep(s[0]) {
        trim_front(s.drop_first())
    } else {
        s
    }
}

/// A sequence with its trailing separators dropped.
pub open spec fn trim_back(s: Seq<char>) -> Seq<char>
    decreases s.len(),
{
    if s.len() > 0 && is_sep(s.last()) {
        trim_back(s.drop_last())
    } else {
        s
    }
}

/// The sanitized form of a tag: each character mapped, then separators
/// trimmed from both ends.
pub open spec fn spec_sanitized(tag: Seq<char>) -> Seq<char> {
    trim_back(trim_front(mapped_tag(tag)))
}

/// Dropping leading separators keeps everything from the first kept
/// character on.
proof fn lemma_trim_front_at(s: Seq<char>, a: int)
    requires
        0 <= a <= s.len(),
        forall|j: int| 0 <= j < a ==> is_sep(s[j]),
        a < s.len() ==> !is_sep(s[a]),
    ensures
        trim_front(s) == s.subrange(a, s.len() as int),
    decreases a,
{
    if a == 0 {
        assert(s.subrange(0, s.len() as int) =~= s);
    } else {
        assert(is_sep(s[0]));
        lemma_trim_front_at(s.drop_first(), a - 1);
        assert(s.drop_first().subrange(a - 1, s.drop_first().len() as int) =~= s.subrange(
            a,
            s.len() as int,
        ));
    }
}

/// Dropping trailing separators keeps everything up to the last kept
/// character.
proof fn lemma_trim_back_at(s: Seq<char>, b: int)
    requires
        -1 <= b < s.len(),
        forall|j: int| b < j < s.len() ==> is_sep(s[j]),
        b >= 0 ==> !is_sep(s[b]),
    ensures
        trim_back(s) == s.subrange(0, b + 1),
    decreases s.len() - b,
{
    if b == s.len() - 1 {
        assert(s.subrange(0, s.len() as int) =~= s);
    } else {
        assert(is_sep(s.last()));
        lemma_trim_back_at(s.drop_last(), b);
        assert(s.drop_last().subrange(0, b + 1) =~= s.subrange(0, b + 1));
    }
}

/// Sanitizes a backup tag: characters outside `[A-Za-z0-9_-]` are replaced
/// (space by `-`, anything else by `_`), and separators are trimmed from
/// both ends.
pub fn sanitize_tag(tag: &str) -> (r: String)
    ensures
        r@ == spec_sanitized(tag@),
{
    let cs = chars_of(tag);
    let mut m: Vec<char> = Vec::new();
    let mut i: usize = 0;
    while i < cs.len()
        invariant
            i <= cs@.len(),
            cs@ == tag@,
            m@.len() == i,
            forall|j: int| 0 <= j < i ==> m@[j] == map_tag_char(tag@[j]),
        decreases cs@.len() - i,
    {
        let c = cs[i];
        let kept = (c >= 'a' && c <= 'z') || (c >= 'A' && c <= 'Z') || (c >= '0' && c <= '9') || c
            == '-' || c == '_';
        if kept {
            m.push(c);
        } else if c == ' ' {
            m.push('-');
        } else {
            m.push('_');
        }
        i = i + 1;
    }
    proof {
        assert(m@ =~= mapped_tag(tag@));
    }
    let n = m.len();
    let mut a: usize = 0;
    while a < n && (m[a] == '-' || m[a] == '_')
        invariant
            n == m@.len(),
            a <= n,
            forall|j: int| 0 <= j < a ==> is_sep(m@[j]),
        decreases n - a,
    {
        a = a + 1;
    }
    proof {
        lemma_trim_front_at(m@, a as int);
    }
    if a == n {
        proof {
            assert(trim_front(m@) =~= Seq::<char>::empty());
            assert(trim_back(Seq::<char>::empty()) == Seq::<char>::empty());
        }
        return String::new();
    }
    let mut b: usize = n - 1;
    while m[b] == '-' || m[b] == '_'
        invariant
            n == m@.len(),
            a <= b < n,
            !is_sep(m@[a as int]),
            forall|j: int| b < j < n ==> is_sep(m@[j]),
        decreases b,
    {
        b = b - 1;
    }
    let mut out: Vec<char> = Vec::new();
    let mut k: usize = a;
    while k <= b
        invariant
            a <= k <= b + 1,
            b < n == m@.len(),
            out@ == m@.subrange(a as int, k as int),
        decreases b + 1 - k,
    {
        out.push(m[k]);
        proof {
            assert(m@.subrange(a as int, k + 1 as int) =~= m@.subrange(a as int, k as int).push(
                m@[k as int],
            ));
        }
        k = k + 1;
    }
    proof {
        let s1 = trim_front(m@);
        assert(s1 == m@.subrange(a as int, n as int));
        lemma_trim_back_at(s1, b - a as int);
        assert(s1.subrange(0, b - a + 1 as int) =~= m@.subrange(a as int, b + 1 as int));
    }
    string_from_chars(&out)
}

/// The view of an optional tag.
pub open spec fn tag_view(tag: Option<String>) -> Option<Seq<char>> {
    match tag {
        Some(t) => Some(t@),
        None => None,
    }
}

/// The backup directory name before any numeric suffix:
/// `{subtree}-{timestamp}`, with `-{tag}` appended when the sanitized tag is
/// non-empty.
pub open spec fn spec_backup_name(
    subtree: Seq<char>,
    ts: Timestamp,
    tag: Option<Seq<char>>,
) -> Seq<char> {
    let base = subtree + seq!['-'] + spec_timestamp_chars(ts);
    match tag {
        Some(t) => if spec_sanitized(t).len() > 0 {
            base + seq!['-'] + spec_sanitized(t)
        } else {
            base
        },
        None => base,
    }
}

/// Builds the backup directory name for a subtree, a clock reading and an
/// optional tag.
pub fn build_backup_name(subtree: &str, ts: &Timestamp, tag: &Option<String>) -> (r: String)
    ensures
        r@ == spec_backup_name(
            subtree@,
            *ts,
            match tag {
                Some(t) => Some(t@),
                None => None,
            },
        ),
{
    let mut name = chars_of(subtree);
    name.push('-');
    let mut stamp = format_timestamp(ts);
    name.append(&mut stamp);
    match tag {
        Some(t) => {
            let cleaned = sanitize_tag(t.as_str());
            if cleaned.as_str().unicode_len() > 0 {
                name.push('-');
                let mut cc = chars_of(cleaned.as_str());
                name.append(&mut cc);
            }
        },
        None => {},
    }
    proof {
        assert(name@ =~= spec_backup_name(
            subtree@,
            *ts,
            match tag {
                Some(t) => Some(t@),
                None => None,
            },
        ));
    }
    string_from_chars(&name)
}

/// The `k`-th candidate name: the base itself, then the base with the
/// two-digit suffixes `-01`, `-02`, and so on.
pub open spec fn spec_candidate(base: Seq<char>, k: int) -> Seq<char> {
    if k == 0 {
        base
    } else {
        base + seq!['-'] + spec_dec_pad(k as nat, 2)
    }
}

/// Candidates with different numbers are different names: the base is
/// shorter than any suffixed candidate, and the suffix recovers its number.
proof fn lemma_candidate_injective(base: Seq<char>, k1: int, k2: int)
    requires
        0 <= k1 < k2 <= 99,
    ensures
        spec_candidate(base, k1) != spec_candidate(base, k2),
{
    let c1 = spec_candidate(base, k1);
    let c2 = spec_candidate(base, k2);
    assert(spec_dec(k2 as nat).len() <= 2) by {
        if k2 >= 10 {
            assert(spec_dec(k2 as nat) == spec_dec(k2 as nat / 10) + seq![
                crate::text::digit_char(k2 as nat % 10),
            ]);
        }
    }
    lemma_dec_pad_len(k2 as nat, 2);
    if k1 == 0 {
        assert(c2.len() == base.len() + 3);
    } else {
        assert(spec_dec(k1 as nat).len() <= 2) by {
            if k1 >= 10 {
                assert(spec_dec(k1 as nat) == spec_dec(k1 as nat / 10) + seq![
                    crate::text::digit_char(k1 as nat % 10),
                ]);
            }
        }
        lemma_dec_pad_len(k1 as nat, 2);
        if c1 == c2 {
            let p1 = spec_dec_pad(k1 as nat, 2);
            let p2 = spec_dec_pad(k2 as nat, 2);
            assert(p1 =~= p2) by {
                assert(forall|j: int|
                    0 <= j < 2 ==> c1[base.len() + 1 + j] == #[trigger] p1[j] && c2[base.len() + 1
                        + j] == p2[j]);
            }
            lemma_dec_pad_val(k1 as nat, 2);
            lemma_dec_pad_val(k2 as nat, 2);
        }
    }
}

/// Among the base name and its ninety-nine suffixed candidates, at least one
/// is free whenever fewer than a hundred names are taken.
pub proof fn lemma_candidate_available(existing: Seq<String>, base: Seq<char>)
    requires
        existing.len() <= 99,
    ensures
        exists|k: int| 0 <= k <= 99 && !name_taken(existing, #[trigger] spec_candidate(base, k)),
{
    if forall|k: int| 0 <= k <= 99 ==> name_taken(existing, #[trigger] spec_candidate(base, k)) {
        let f = |k: int| spec_candidate(base, k);
        let xs = set_int_range(0, 100);
        lemma_int_range(0, 100);
        assert(vstd::relations::injective_on(f, xs)) by {
            assert forall|a: int, b: int|
                xs.contains(a) && xs.contains(b) && #[trigger] f(a) == #[trigger] f(
                    b,
                ) implies a == b by {
                if a < b {
                    lemma_candidate_injective(base, a, b);
                }
                if b < a {
                    lemma_candidate_injective(base, b, a);
                }
            }
        }
        let ys = xs.map(f);
        lemma_map_size(xs, ys, f);
        let g = |i: int| existing[i]@;
        let idx = set_int_range(0, existing.len() as int);
        lemma_int_range(0, existing.len() as int);
        let names = idx.map(g);
        lemma_map_size_bound(idx, names, g);
        assert(ys.subset_of(names)) by {
            assert forall|s: Seq<char>| ys.contains(s) implies names.contains(s) by {
                let k = choose|k: int| xs.contains(k) && s == f(k);
                let cand = f(k);
                assert(name_taken(existing, cand));
                let i = choose|i: int| name_at(existing, cand, i);
                assert(idx.contains(i) && s == g(i));
            }
        }
        lemma_len_subset(ys, names);
        assert(false);
    }
}

/// The name at position `i` equals `s`.
pub open spec fn name_at(existing: Seq<String>, s: Seq<char>, i: int) -> bool {
    0 <= i < existing.len() && existing[i]@ == s
}

/// Some existing name equals `s`.
pub open spec fn name_taken(existing: Seq<String>, s: Seq<char>) -> bool {
    exists|i: int| name_at(existing, s, i)
}

/// Whether a name is already in use.
fn name_is_taken(existing: &Vec<String>, name: &String) -> (r: bool)
    ensures
        r == name_taken(existing@, name@),
{
    let mut i: usize = 0;
    while i < existing.len()
        invariant
            i <= existing@.len(),
            forall|j: int| 0 <= j < i ==> existing@[j]@ != name@,
        decreases existing@.len() - i,
    {
        if existing[i] == *name {
            proof {
                assert(name_at(existing@, name@, i as int));
            }
            return true;
        }
        i = i + 1;
    }
    proof {
        assert(forall|j: int| !name_at(existing@, name@, j));
    }
    false
}

/// Picks the first candidate name that is not yet taken: the base name, or
/// the base with the first free two-digit suffix. All hundred candidates
/// taken means no name is available.
pub fn unique_backup_path(existing: &Vec<String>, base_name: &str) -> (r: Option<String>)
    ensures
        match r {
            Some(name) => exists|k: int|
                0 <= k <= 99 && name@ == #[trigger] spec_candidate(base_name@, k) && !name_taken(
                    existing@,
                    name@,
                ) && (forall|m: int|
                    0 <= m < k ==> name_taken(existing@, #[trigger] spec_candidate(base_name@, m))),
            None => existing@.len() >= 100 && (forall|k: int|
                0 <= k <= 99 ==> name_taken(existing@, #[trigger] spec_candidate(base_name@, k))),
        },
{
    let base = chars_of(base_name);
    let mut k: usize = 0;
    while k <= 99
        invariant
            base@ == base_name@,
            k <= 100,
            forall|m: int|
                0 <= m < k ==> name_taken(existing@, #[trigger] spec_candidate(base_name@, m)),
        decreases 100 - k,
    {
        let candidate: String = if k == 0 {
            string_from_chars(&base)
        } else {
            let mut cs = base.clone();
            proof {
                assert(cs@ == base@);
            }
            cs.push('-');
            push_dec_pad(k as u64, 2, &mut cs);
            proof {
                assert(cs@ =~= spec_candidate(base_name@, k as int));
            }
            string_from_chars(&cs)
        };
        if !name_is_taken(existing, &candidate) {
            proof {
                let wk = k as int;
                assert(candidate@ == spec_candidate(base_name@, wk) && !name_taken(
                    existing@,
                    candidate@,
                ));
            }
            return Some(candidate);
        }
        k = k + 1;
    }
    proof {
        if existing@.len() <= 99 {
            lemma_candidate_available(existing@, base_name@);
            let w = choose|k: int|
                0 <= k <= 99 && !name_taken(existing@, #[trigger] spec_candidate(base_name@, k));
            assert(name_taken(existing@, spec_candidate(base_name@, w)));
        }
    }
    None
}

/// One backup: its directory name and a copy of the subtree's entries.
#[derive(Debug)]
pub struct Backup {
    pub name: String,
    pub entries: Vec<WorldEntry>,
}

/// The on-disk data of one instance that this store works on: the live
/// world subtree, if it exists, and the backups directory.
#[derive(Debug)]
pub struct InstanceData {
    pub world: Option<Vec<WorldEntry>>,
    pub backups: Vec<Backup>,
}

/// The backup at position `i` carries the name.
pub open spec fn backup_named_at(backups: Seq<Backup>, name: Seq<char>, i: int) -> bool {
    0 <= i < backups.len() && backups[i].name@ == name
}

/// No backup before position `k` carries the name.
pub open spec fn no_backup_before(backups: Seq<Backup>, name: Seq<char>, k: int) -> bool {
    forall|j: int| 0 <= j < k ==> backups[j].name@ != name
}

/// Some backup carries the name.
pub open spec fn has_backup(backups: Seq<Backup>, name: Seq<char>) -> bool {
    exists|i: int| backup_named_at(backups, name, i)
}

/// Two first-match positions for the same backup name coincide.
pub proof fn lemma_backup_first_match_unique(
    backups: Seq<Backup>,
    name: Seq<char>,
    i: int,
    j: int,
)
    requires
        backup_named_at(backups, name, i),
        no_backup_before(backups, name, i),
        backup_named_at(backups, name, j),
        no_backup_before(backups, name, j),
    ensures
        i == j,
{
    if i < j {
        assert(backups[i].name@ != name);
    }
    if j < i {
        assert(backups[j].name@ != name);
    }
}

/// Restoring is idempotent: any two successful restores of the same backup
/// reference, against the same backups, leave the live world subtree with
/// the same content — restoring a second time changes nothing observable.
pub proof fn lemma_restore_idempotent(
    backups: Seq<Backup>,
    backup_ref: Seq<char>,
    w1: Vec<WorldEntry>,
    w2: Vec<WorldEntry>,
)
    requires
        exists|i: int|
            #[trigger] backup_named_at(backups, backup_ref, i) && no_backup_before(
                backups,
                backup_ref,
                i,
            ) && entries_view(w1@) == entries_view(backups[i].entries@),
        exists|i: int|
            #[trigger] backup_named_at(backups, backup_ref, i) && no_backup_before(
                backups,
                backup_ref,
                i,
            ) && entries_view(w2@) == entries_view(backups[i].entries@),
    ensures
        entries_view(w1@) == entries_view(w2@),
{
    let i1 = choose|i: int|
        #[trigger] backup_named_at(backups, backup_ref, i) && no_backup_before(
            backups,
            backup_ref,
            i,
        ) && entries_view(w1@) == entries_view(backups[i].entries@);
    let i2 = choose|i: int|
        #[trigger] backup_named_at(backups, backup_ref, i) && no_backup_before(
            backups,
            backup_ref,
            i,
        ) && entries_view(w2@) == entries_view(backups[i].entries@);
    lemma_backup_first_match_unique(backups, backup_ref, i1, i2);
}

/// The names of all backups, in order.
fn backup_names(backups: &Vec<Backup>) -> (r: Vec<String>)
    ensures
        r@.len() == backups@.len(),
        forall|i: int| 0 <= i < backups@.len() ==> r@[i]@ == #[trigger] backups@[i].name@,
{
    let mut r: Vec<String> = Vec::new();
    let mut i: usize = 0;
    while i < backups.len()
        invariant
            i <= backups@.len(),
            r@.len() == i,
            forall|j: int| 0 <= j < i ==> r@[j]@ == #[trigger] backups@[j].name@,
        decreases backups@.len() - i,
    {
        r.push(backups[i].name.clone());
        i = i + 1;
    }
    r
}

/// A name occurs among the backups exactly when it occurs among their names.
proof fn lemma_names_taken(backups: Seq<Backup>, names: Seq<String>, s: Seq<char>)
    requires
        names.len() == backups.len(),
        forall|i: int| 0 <= i < backups.len() ==> names[i]@ == #[trigger] backups[i].name@,
    ensures
        name_taken(names, s) == has_backup(backups, s),
{
    if name_taken(names, s) {
        let i = choose|i: int| name_at(names, s, i);
        assert(backup_named_at(backups, s, i));
    }
    if has_backup(backups, s) {
        let i = choose|i: int| backup_named_at(backups, s, i);
        assert(name_at(names, s, i));
    }
}

/// Creates a backup of the live world subtree: validates that the subtree
/// exists and holds the structural marker, builds the timestamped name,
/// avoids collisions with a two-digit numeric suffix, and stores an
/// independent copy of the subtree's entries under the chosen name. The live
/// subtree is left untouched. `IOFailure` is reported when every candidate
/// name is taken.
pub fn create_world_backup(data: &mut InstanceData, ts: &Timestamp, tag: &Option<String>) -> (r:
    Result<String, Error>)
    ensures
        match r {
            Ok(name) => {
                &&& old(data).world matches Some(w) && has_marker(w@)
                &&& !has_backup(old(data).backups@, name@)
                &&& exists|k: int|
                    0 <= k <= 99 && name@ == #[trigger] spec_candidate(
                        spec_backup_name("world"@, *ts, tag_view(*tag)),
                        k,
                    ) && (forall|m: int|
                        0 <= m < k ==> has_backup(
                            old(data).backups@,
                            #[trigger] spec_candidate(
                                spec_backup_name("world"@, *ts, tag_view(*tag)),
                                m,
                            ),
                        ))
                &&& final(data).backups@.len() == old(data).backups@.len() + 1
                &&& final(data).backups@ == old(data).backups@.push(final(data).backups@.last())
                &&& final(data).backups@.last().name@ == name@
                &&& (old(data).world matches Some(w) && entries_view(
                    final(data).backups@.last().entries@,
                ) == entries_view(w@))
                &&& final(data).world == old(data).world
            },
            Err(e) => *final(data) == *old(data) && ((e == Error::SourceInvalid && !(old(
                data,
            ).world matches Some(w) && has_marker(w@))) || (e == Error::IOFailure && old(
                data,
            ).backups@.len() >= 100)),
        },
{
    let world_entries = match data.world.as_ref() {
        Some(w) => w,
        None => {
            return Err(Error::SourceInvalid);
        },
    };
    let copy = clone_entries(world_entries);
    match crate::world::validate_world_root(&data.world) {
        Ok(_) => {},
        Err(e) => {
            return Err(e);
        },
    }
    let base = build_backup_name("world", ts, tag);
    let names = backup_names(&data.backups);
    let name = match unique_backup_path(&names, base.as_str()) {
        Some(n) => n,
        None => {
            return Err(Error::IOFailure);
        },
    };
    proof {
        lemma_names_taken(data.backups@, names@, name@);
        assert forall|m: int| 0 <= m < 100 implies name_taken(
            names@,
            #[trigger] spec_candidate(base@, m),
        ) == has_backup(data.backups@, spec_candidate(base@, m)) by {
            lemma_names_taken(data.backups@, names@, spec_candidate(base@, m));
        }
        assert(entries_view(copy@) == entries_view(world_entries@));
    }
    let stored = Backup { name: name.clone(), entries: copy };
    data.backups.push(stored);
    Ok(name)
}

/// Restores the live world subtree from a named backup: the reference must
/// name an existing backup, the backup must hold the structural marker, and
/// the live subtree is then replaced wholesale by a copy of the backup's
/// entries. The backups themselves are never changed.
pub fn restore_world_backup(data: &mut InstanceData, backup: &String) -> (r: Result<(), Error>)
    ensures
        final(data).backups@ == old(data).backups@,
        match r {
            Ok(_) => exists|i: int|
                #[trigger] backup_named_at(old(data).backups@, backup@, i) && no_backup_before(
                    old(data).backups@,
                    backup@,
                    i,
                ) && has_marker(old(data).backups@[i].entries@) && (final(data).world matches Some(w) && entries_view(w@) == entries_view(
                    old(data).backups@[i].entries@,
                )),
            Err(e) => (e == Error::NotFound && !has_backup(old(data).backups@, backup@)
                && *final(data) == *old(data)) || (e == Error::SourceInvalid && *final(data)
                == *old(data)
                && exists|i: int|
                #[trigger] backup_named_at(old(data).backups@, backup@, i) && no_backup_before(
                    old(data).backups@,
                    backup@,
                    i,
                ) && !has_marker(old(data).backups@[i].entries@)),
        },
{
    let mut i: usize = 0;
    let n = data.backups.len();
    while i < n
        invariant
            n == data.backups@.len(),
            i <= n,
            data == old(data),
            no_backup_before(data.backups@, backup@, i as int),
        decreases n - i,
    {
        if data.backups[i].name == *backup {
            proof {
                assert(backup_named_at(data.backups@, backup@, i as int));
            }
            let r = set_world(&mut data.world, &data.backups[i].entries);
            match r {
                Ok(_) => {
                    return Ok(());
                },
                Err(e) => {
                    return Err(e);
                },
            }
        }
        i = i + 1;
    }
    proof {
        assert(forall|j: int| !backup_named_at(data.backups@, backup@, j));
    }
    Err(Error::NotFound)
}

} // verus!
