//! The reconciler: classifies each manifest entry against the observed
//! filesystem state and decides the action each command takes. Everything
//! here is pure; probing and performing the actions is the caller's side.

use vstd::prelude::*;

use crate::manifest::Config;
use crate::manifest::Entry;
use crate::manifest::has_key;
use crate::manifest::kept_entries;
use crate::manifest::seq_has_str;
use crate::manifest::contains_str;
use crate::paths::base_name;
use crate::paths::base_name_of;
use crate::paths::clean_path;
use crate::paths::cleaned;
use crate::paths::expanded;
use crate::paths::join_paths;
use crate::paths::joined;

verus! {

/// What occupies a declared target location: nothing, a symlink with the
/// given literal link value, or some other filesystem object.
pub enum TargetStatus {
    Absent,
    Symlink(String),
    Occupied,
}

/// The classification of one entry against the filesystem.
#[derive(PartialEq, Eq, Structural, Clone, Copy, Debug)]
pub enum EntryState {
    SourceMissing,
    TargetMissing,
    CorrectLink,
    MismatchedLink,
    Conflict,
}

/// The classification rule: a missing source trumps everything; otherwise
/// the target decides — absent, a symlink whose value is compared with the
/// absolute source path exactly, or a conflicting object.
pub open spec fn classify_spec(
    source_exists: bool,
    target: TargetStatus,
    source_abs: Seq<char>,
) -> EntryState {
    if !source_exists {
        EntryState::SourceMissing
    } else {
        match target {
            TargetStatus::Absent => EntryState::TargetMissing,
            TargetStatus::Symlink(v) => if v@ == source_abs {
                EntryState::CorrectLink
            } else {
                EntryState::MismatchedLink
            },
            TargetStatus::Occupied => EntryState::Conflict,
        }
    }
}

/// Classifies one entry from the probed facts.
pub fn classify(source_exists: bool, target: &TargetStatus, source_abs: &String) -> (s: EntryState)
    ensures
        s == classify_spec(source_exists, *target, source_abs@),
{
    if !source_exists {
        EntryState::SourceMissing
    } else {
        match target {
            TargetStatus::Absent => EntryState::TargetMissing,
            TargetStatus::Symlink(v) => {
                if *v == *source_abs {
                    EntryState::CorrectLink
                } else {
                    EntryState::MismatchedLink
                }
            },
            TargetStatus::Occupied => EntryState::Conflict,
        }
    }
}

/// One entry as observed on the filesystem: its resolved paths and what the
/// probes found there.
pub struct ObservedEntry {
    pub source_abs: String,
    pub target_abs: String,
    pub source_exists: bool,
    pub target_status: TargetStatus,
}

/// The state an observed entry classifies into.
pub open spec fn state_of(o: ObservedEntry) -> EntryState {
    classify_spec(o.source_exists, o.target_status, o.source_abs@)
}

/// The states that do not count as failures: a correct link, and a missing
/// target (repairable).
pub open spec fn state_ok(s: EntryState) -> bool {
    s != EntryState::SourceMissing && s != EntryState::MismatchedLink && s != EntryState::Conflict
}

/// Whether every observed entry is in a non-failing state.
pub open spec fn all_ok(obs: Seq<ObservedEntry>) -> bool {
    forall|i: int| 0 <= i < obs.len() ==> state_ok(state_of(#[trigger] obs[i]))
}

/// Whether a state counts as non-failing.
pub fn is_ok_state(s: &EntryState) -> (r: bool)
    ensures
        r == state_ok(*s),
{
    match s {
        EntryState::SourceMissing => false,
        EntryState::MismatchedLink => false,
        EntryState::Conflict => false,
        _ => true,
    }
}

/// Validate: classifies every entry and reports whether none fails. It only
/// inspects — it takes the observations by shared reference, returns only
/// classifications and a flag, and decides no action.
pub fn validate(obs: &Vec<ObservedEntry>) -> (r: (Vec<EntryState>, bool))
    ensures
        r.0@.len() == obs@.len(),
        forall|i: int| 0 <= i < obs@.len() ==> #[trigger] r.0@[i] == state_of(obs@[i]),
        r.1 == all_ok(obs@),
{
    let mut states: Vec<EntryState> = Vec::new();
    let mut ok = true;
    let mut i: usize = 0;
    while i < obs.len()
        invariant
            0 <= i <= obs@.len(),
            states@.len() == i,
            forall|k: int| 0 <= k < i ==> #[trigger] states@[k] == state_of(obs@[k]),
            ok == (forall|k: int| 0 <= k < i ==> state_ok(state_of(#[trigger] obs@[k]))),
        decreases obs@.len() - i,
    {
        let o = &obs[i];
        let s = classify(o.source_exists, &o.target_status, &o.source_abs);
        ok = ok && is_ok_state(&s);
        states.push(s);
        i = i + 1;
    }
    (states, ok)
}

/// The one corrective action Fix ever takes: create a symlink at `link_at`
/// whose value is `points_to`.
pub struct FixAction {
    pub link_at: String,
    pub points_to: String,
}

/// Whether Fix acts on an entry: only a missing target is repaired.
pub open spec fn fix_needed(o: ObservedEntry) -> bool {
    state_of(o) == EntryState::TargetMissing
}

/// The action Fix takes on one observed entry: a symlink from the target
/// location to the absolute source, exactly when the target is missing;
/// every other state is reported only.
pub fn fix_step(o: &ObservedEntry) -> (r: Option<FixAction>)
    ensures
        r is Some <==> fix_needed(*o),
        r matches Some(a) ==> a.link_at@ == o.target_abs@ && a.points_to@ == o.source_abs@,
{
    let s = classify(o.source_exists, &o.target_status, &o.source_abs);
    if s == EntryState::TargetMissing {
        Some(FixAction { link_at: o.target_abs.clone(), points_to: o.source_abs.clone() })
    } else {
        None
    }
}

/// Fix: decides the action for every entry, plus the aggregate flag computed
/// over the states as observed before any repair — a repair does not flip a
/// failure found elsewhere.
pub fn fix(obs: &Vec<ObservedEntry>) -> (r: (Vec<Option<FixAction>>, bool))
    ensures
        r.0@.len() == obs@.len(),
        forall|i: int| 0 <= i < obs@.len() ==> ((#[trigger] r.0@[i]) is Some <==> fix_needed(
            obs@[i],
        )),
        forall|i: int|
            0 <= i < obs@.len() ==> (#[trigger] r.0@[i] matches Some(a) ==> a.link_at@
                == obs@[i].target_abs@ && a.points_to@ == obs@[i].source_abs@),
        r.1 == all_ok(obs@),
{
    let mut actions: Vec<Option<FixAction>> = Vec::new();
    let mut ok = true;
    let mut i: usize = 0;
    while i < obs.len()
        invariant
            0 <= i <= obs@.len(),
            actions@.len() == i,
            forall|k: int| 0 <= k < i ==> ((#[trigger] actions@[k]) is Some <==> fix_needed(
                obs@[k],
            )),
            forall|k: int|
                0 <= k < i ==> (#[trigger] actions@[k] matches Some(a) ==> a.link_at@
                    == obs@[k].target_abs@ && a.points_to@ == obs@[k].source_abs@),
            ok == (forall|k: int| 0 <= k < i ==> state_ok(state_of(#[trigger] obs@[k]))),
        decreases obs@.len() - i,
    {
        let o = &obs[i];
        let s = classify(o.source_exists, &o.target_status, &o.source_abs);
        ok = ok && is_ok_state(&s);
        actions.push(fix_step(o));
        i = i + 1;
    }
    (actions, ok)
}

/// The observation after Fix's action is carried out: a repaired entry shows
/// a symlink to its source; every other entry is untouched.
pub open spec fn after_fix(o: ObservedEntry) -> ObservedEntry {
    if fix_needed(o) {
        ObservedEntry {
            source_abs: o.source_abs,
            target_abs: o.target_abs,
            source_exists: o.source_exists,
            target_status: TargetStatus::Symlink(o.source_abs),
        }
    } else {
        o
    }
}

/// The whole observation vector after one Fix run.
pub open spec fn after_fix_all(obs: Seq<ObservedEntry>) -> Seq<ObservedEntry> {
    obs.map_values(|o: ObservedEntry| after_fix(o))
}

/// Fix is idempotent on one entry: after its action the entry needs nothing,
/// a second run changes nothing, and whether the entry counts as a failure
/// is unchanged by the repair.
pub proof fn lemma_fix_idempotent(o: ObservedEntry)
    ensures
        !fix_needed(after_fix(o)),
        after_fix(after_fix(o)) == after_fix(o),
        state_ok(state_of(after_fix(o))) == state_ok(state_of(o)),
{
}

/// Fix is idempotent on a whole run: after one run no entry needs an action,
/// a second run decides zero actions and leaves the state identical, and the
/// aggregate flag is the one the first run reported.
pub proof fn lemma_fix_all_idempotent(obs: Seq<ObservedEntry>)
    ensures
        forall|i: int| 0 <= i < obs.len() ==> !fix_needed(#[trigger] after_fix_all(obs)[i]),
        after_fix_all(after_fix_all(obs)) == after_fix_all(obs),
        all_ok(after_fix_all(obs)) == all_ok(obs),
{
    assert forall|i: int| 0 <= i < obs.len() implies !fix_needed(
        #[trigger] after_fix_all(obs)[i],
    ) by {
        lemma_fix_idempotent(obs[i]);
    }
    assert(after_fix_all(after_fix_all(obs)) =~= after_fix_all(obs)) by {
        assert forall|i: int| 0 <= i < obs.len() implies after_fix_all(after_fix_all(obs))[i]
            == after_fix_all(obs)[i] by {
            lemma_fix_idempotent(obs[i]);
        }
    }
    assert(all_ok(after_fix_all(obs)) == all_ok(obs)) by {
        if all_ok(obs) {
            assert forall|i: int| 0 <= i < after_fix_all(obs).len() implies state_ok(state_of(
                #[trigger] after_fix_all(obs)[i],
            )) by {
                assert(state_ok(state_of(obs[i])));
                lemma_fix_idempotent(obs[i]);
            }
        }
        if all_ok(after_fix_all(obs)) {
            assert forall|i: int| 0 <= i < obs.len() implies state_ok(state_of(
                #[trigger] obs[i],
            )) by {
                assert(state_ok(state_of(after_fix_all(obs)[i])));
                lemma_fix_idempotent(obs[i]);
            }
        }
    }
}

/// A conflicting object is reported and preserved: the entry classifies as a
/// conflict, and Fix decides no action for it, so nothing touches the object.
/// Validate decides no action for any entry, so the same holds there.
pub proof fn lemma_conflict_preserved(o: ObservedEntry)
    requires
        o.source_exists,
        o.target_status matches TargetStatus::Occupied,
    ensures
        state_of(o) == EntryState::Conflict,
        !fix_needed(o),
        after_fix(o) == o,
{
}

/// The base name a candidate is stored under in the root.
pub open spec fn add_name(canon: Seq<char>) -> Seq<char> {
    base_name_of(cleaned(canon))
}

/// The in-store destination of an added candidate: its base name under the
/// store root.
pub open spec fn add_dest(root: Seq<char>, canon: Seq<char>) -> Seq<char> {
    joined(root, add_name(canon))
}

/// What Add does with one candidate path.
pub enum AddPlan {
    /// The candidate does not exist: skipped with a warning.
    SkipMissing,
    /// No base name could be determined for the candidate.
    NoName,
    /// An entry under the candidate's base name already exists: rejected.
    AlreadyPresent { dest: String },
    /// Move the candidate to `dest`, record the entry `(name, original)` —
    /// the manifest is keyed by the store-relative name — and create a
    /// symlink at `original` pointing to `dest` if nothing occupies
    /// `original` by then.
    Move { name: String, dest: String, original: String },
}

/// Decides what Add does with one candidate, already canonicalized by the
/// caller: skip a missing one, reject one whose base name is already a key —
/// the collision is keyed by the base name alone, so two unrelated files
/// sharing a base name cannot both be added, whatever root either used —
/// and otherwise move it into the store.
pub fn plan_add(cfg: &Config, root: &String, candidate_exists: bool, canon: &String) -> (p:
    AddPlan)
    ensures
        !candidate_exists ==> p matches AddPlan::SkipMissing,
        candidate_exists && add_name(canon@).len() == 0 ==> p matches AddPlan::NoName,
        candidate_exists && add_name(canon@).len() > 0 && has_key(
            cfg.entries@,
            add_name(canon@),
        ) ==> (p matches AddPlan::AlreadyPresent { dest } && dest@ == add_dest(root@, canon@)),
        candidate_exists && add_name(canon@).len() > 0 && !has_key(
            cfg.entries@,
            add_name(canon@),
        ) ==> (p matches AddPlan::Move { name, dest, original } && name@ == add_name(canon@)
            && dest@ == add_dest(root@, canon@) && original@ == cleaned(canon@)
            && cleaned(original@) == original@ && original@.len() > 0
            && (canon@.len() > 0 && canon@[0] == '/' ==> original@[0] == '/')),
{
    if !candidate_exists {
        return AddPlan::SkipMissing;
    }
    let original = clean_path(canon.as_str());
    match base_name(original.as_str()) {
        None => AddPlan::NoName,
        Some(name) => {
            let dest = join_paths(root.as_str(), name.as_str());
            if cfg.has_source(&name) {
                AddPlan::AlreadyPresent { dest }
            } else {
                AddPlan::Move { name, dest, original }
            }
        },
    }
}

/// A key just recorded is present, so an immediate second Add of any
/// candidate with the same destination is rejected by `plan_add`.
pub proof fn lemma_recorded_key_present(s: Seq<Entry>, source: String, target: String)
    ensures
        has_key(s.push((Entry { source, target })), source@),
{
    let s2 = s.push((Entry { source, target }));
    assert(s2[s.len() as int].source@ == source@);
}

/// One candidate path for Unlink: as the caller resolved it, and whether
/// that resolution is canonical (a path that could not be canonicalized —
/// say a broken symlink — falls back to lexical cleaning).
pub struct CandidatePath {
    pub path: String,
    pub canonical: bool,
}

/// The match set for an Unlink run: each canonical candidate as it is, each
/// other candidate lexically cleaned.
pub fn resolve_candidates(cands: &Vec<CandidatePath>) -> (r: Vec<String>)
    ensures
        r@.len() == cands@.len(),
        forall|i: int|
            0 <= i < cands@.len() ==> (#[trigger] r@[i])@ == (if cands@[i].canonical {
                cands@[i].path@
            } else {
                cleaned(cands@[i].path@)
            }),
{
    let mut r: Vec<String> = Vec::new();
    let mut i: usize = 0;
    while i < cands.len()
        invariant
            0 <= i <= cands@.len(),
            r@.len() == i,
            forall|k: int|
                0 <= k < i ==> (#[trigger] r@[k])@ == (if cands@[k].canonical {
                    cands@[k].path@
                } else {
                    cleaned(cands@[k].path@)
                }),
        decreases cands@.len() - i,
    {
        if cands[i].canonical {
            r.push(cands[i].path.clone());
        } else {
            r.push(clean_path(cands[i].path.as_str()));
        }
        i = i + 1;
    }
    r
}

/// Whether an Unlink run selects an entry: its stored source key or its
/// resolved target stands in the match set.
pub fn entry_matches(source: &String, target_abs: &String, set: &Vec<String>) -> (r: bool)
    ensures
        r == (seq_has_str(set@, source@) || seq_has_str(set@, target_abs@)),
{
    if contains_str(set, source) {
        true
    } else {
        contains_str(set, target_abs)
    }
}

/// What Unlink does with one selected entry.
pub struct UnlinkStep {
    /// Remove the symlink at the resolved target.
    pub remove_link: bool,
    /// The target holds a non-symlink object: warn and leave it.
    pub conflict_warning: bool,
    /// Move the stored file from the source back to the resolved target.
    pub move_back: bool,
    /// The stored file is gone: warn and skip the move.
    pub missing_warning: bool,
}

/// Decides the actions for one selected entry: the symlink at the target is
/// removed exactly when one is there, a non-symlink object is warned about
/// and left, and the stored file moves back exactly when it exists. The
/// entry's key is removed from the manifest in every case.
pub fn unlink_step(source_exists: bool, target_status: &TargetStatus) -> (r: UnlinkStep)
    ensures
        r.remove_link == target_status matches TargetStatus::Symlink(_),
        r.conflict_warning == target_status matches TargetStatus::Occupied,
        r.move_back == source_exists,
        r.missing_warning == !source_exists,
{
    let remove_link = match target_status {
        TargetStatus::Symlink(_) => true,
        _ => false,
    };
    let conflict_warning = match target_status {
        TargetStatus::Occupied => true,
        _ => false,
    };
    UnlinkStep {
        remove_link,
        conflict_warning,
        move_back: source_exists,
        missing_warning: !source_exists,
    }
}

/// A manifest keeps exactly its other entries across an Add of a fresh key
/// followed by an Unlink that removes that key: the round trip restores the
/// entry set.
pub proof fn lemma_add_unlink_roundtrip(s: Seq<Entry>, e: Entry, keys: Seq<String>)
    requires
        seq_has_str(keys, e.source@),
        forall|i: int| 0 <= i < s.len() ==> !seq_has_str(keys, (#[trigger] s[i]).source@),
    ensures
        kept_entries(s.push(e), keys) == s,
{
    assert(s.push(e).drop_last() =~= s);
    lemma_kept_all(s, keys);
}

/// Removal with keys that match no entry keeps the manifest as it is.
pub proof fn lemma_kept_all(s: Seq<Entry>, keys: Seq<String>)
    requires
        forall|i: int| 0 <= i < s.len() ==> !seq_has_str(keys, (#[trigger] s[i]).source@),
    ensures
        kept_entries(s, keys) == s,
    decreases s.len(),
{
    if s.len() > 0 {
        assert forall|i: int| 0 <= i < s.drop_last().len() implies !seq_has_str(
            keys,
            (#[trigger] s.drop_last()[i]).source@,
        ) by {
            assert(s.drop_last()[i] == s[i]);
        }
        lemma_kept_all(s.drop_last(), keys);
        assert(!seq_has_str(keys, s.last().source@));
        assert(s.drop_last().push(s.last()) =~= s);
    }
}

/// A path without a home marker expands to itself.
pub proof fn lemma_no_marker_expands_to_itself(p: Seq<char>, home: Seq<char>)
    requires
        p.len() == 0 || p[0] != '~',
    ensures
        expanded(p, home) == p,
{
}

/// The target location an Unlink resolves for an entry that Add recorded —
/// an absolute path, stored verbatim — differs from the stored path only by
/// the final lexical cleaning. An Add plan stores the cleaning of an
/// absolute canonical path, which is itself absolute (so the hypotheses
/// here hold of it) and which cleaning leaves unchanged, so the resolved
/// location is the stored path itself: the file moves back to the very
/// location it was added from.
pub proof fn lemma_unlink_restores_location(original: Seq<char>, home: Seq<char>)
    requires
        original.len() > 0,
        original[0] == '/',
    ensures
        cleaned(expanded(original, home)) == cleaned(original),
        cleaned(original) == original ==> cleaned(expanded(original, home)) == original,
{
    lemma_no_marker_expands_to_itself(original, home);
}

/// Looks an entry up by the base name of its declared target: the single-name
/// link convenience. Returns the first entry whose resolved target has that
/// base name.
pub fn find_by_target_name(cfg: &Config, name: &String) -> (r: Option<usize>)
    ensures
        r matches Some(i) ==> 0 <= i < cfg.entries@.len() && base_name_of(
            cleaned(cfg.entries@[i as int].target@),
        ) == name@ && (forall|k: int|
            0 <= k < i ==> base_name_of(cleaned((#[trigger] cfg.entries@[k]).target@)) != name@),
        r is None ==> forall|k: int|
            0 <= k < cfg.entries@.len() ==> base_name_of(
                cleaned((#[trigger] cfg.entries@[k]).target@),
            ) != name@,
{
    let mut i: usize = 0;
    while i < cfg.entries.len()
        invariant
            0 <= i <= cfg.entries@.len(),
            forall|k: int|
                0 <= k < i ==> base_name_of(cleaned((#[trigger] cfg.entries@[k]).target@))
                    != name@,
        decreases cfg.entries@.len() - i,
    {
        let t = clean_path(cfg.entries[i].target.as_str());
        match base_name(t.as_str()) {
            Some(n) => {
                if n == *name {
                    return Some(i);
                }
            },
            None => {
                if name.as_str().unicode_len() == 0 {
                    proof {
                        assert(name@ =~= Seq::<char>::empty());
                    }
                    return Some(i);
                }
                proof {
                    assert(base_name_of(cleaned(cfg.entries@[i as int].target@)).len() == 0);
                    assert(name@.len() != 0);
                }
            },
        }
        i = i + 1;
    }
    None
}

} // verus!
