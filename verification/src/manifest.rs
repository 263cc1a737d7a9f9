//! The manifest: the declared mapping from store-relative source paths to
//! target locations, plus the optional store root setting. Source keys act as
//! mapping keys, so they are kept unique.

use vstd::prelude::*;

use crate::paths::clean_path;
use crate::paths::cleaned;
use crate::paths::join_paths;
use crate::paths::joined;

verus! {

/// One manifest record: a file kept in the store under `source`, wanted as a
/// symlink at the declared `target` location.
pub struct Entry {
    pub source: String,
    pub target: String,
}

impl Clone for Entry {
    fn clone(&self) -> (r: Self)
        ensures
            r == *self,
    {
        Entry { source: self.source.clone(), target: self.target.clone() }
    }
}

/// The settings section of a manifest: at most the store root.
pub struct Settings {
    pub dotlink_root: Option<String>,
}

/// A loaded manifest: settings plus the entry mapping.
pub struct Config {
    pub settings: Settings,
    pub entries: Vec<Entry>,
}

/// Whether some string in `ss` reads as `x`.
pub open spec fn seq_has_str(ss: Seq<String>, x: Seq<char>) -> bool {
    exists|i: int| 0 <= i < ss.len() && ss[i]@ == x
}

/// Whether some entry's source key reads as `key`.
pub open spec fn has_key(s: Seq<Entry>, key: Seq<char>) -> bool {
    exists|i: int| 0 <= i < s.len() && s[i].source@ == key
}

/// The entries that survive removal of the listed source keys, in order.
pub open spec fn kept_entries(s: Seq<Entry>, keys: Seq<String>) -> Seq<Entry>
    decreases s.len(),
{
    if s.len() == 0 {
        s
    } else {
        let rest = kept_entries(s.drop_last(), keys);
        if !seq_has_str(keys, s.last().source@) {
            rest.push(s.last())
        } else {
            rest
        }
    }
}

/// Picks the manifest file's location from what discovery probed: the
/// primary candidate (explicitly given, or the fixed name under the working
/// directory) wins when it exists; otherwise the alternative under the
/// environment-named directory, when there is one and it exists; otherwise
/// there is no manifest and the caller reports a fatal error.
pub fn locate_manifest(
    primary: String,
    primary_exists: bool,
    alt: &Option<String>,
    alt_exists: bool,
) -> (r: Option<String>)
    ensures
        r is Some <==> (primary_exists || (alt is Some && alt_exists)),
        r matches Some(p) ==> p@ == (if primary_exists {
            primary@
        } else {
            crate::paths::opt_str_view(*alt)
        }),
{
    if primary_exists {
        Some(primary)
    } else {
        match alt {
            Some(a) => {
                if alt_exists {
                    Some(a.clone())
                } else {
                    None
                }
            },
            None => None,
        }
    }
}

/// Whether a string vector holds `x`; membership in a match set.
pub fn contains_str(ss: &Vec<String>, x: &String) -> (r: bool)
    ensures
        r == seq_has_str(ss@, x@),
{
    let mut i: usize = 0;
    while i < ss.len()
        invariant
            0 <= i <= ss@.len(),
            forall|k: int| 0 <= k < i ==> (#[trigger] ss@[k])@ != x@,
        decreases ss@.len() - i,
    {
        if ss[i] == *x {
            return true;
        }
        i = i + 1;
    }
    false
}

impl Config {
    /// Source keys must act as mapping keys: no two entries share one.
    pub open spec fn wf(&self) -> bool {
        forall|i: int, j: int|
            0 <= i < j < self.entries@.len() ==> self.entries@[i].source@
                != self.entries@[j].source@
    }

    /// A fresh manifest with the given root setting and no entries.
    pub fn new(dotlink_root: Option<String>) -> (c: Config)
        ensures
            c.entries@ == Seq::<Entry>::empty(),
            c.settings.dotlink_root == dotlink_root,
            c.wf(),
    {
        Config { settings: Settings { dotlink_root }, entries: Vec::new() }
    }

    /// Whether an entry with this exact source key exists.
    pub fn has_source(&self, source: &String) -> (r: bool)
        ensures
            r == has_key(self.entries@, source@),
    {
        let mut i: usize = 0;
        while i < self.entries.len()
            invariant
                0 <= i <= self.entries@.len(),
                forall|k: int| 0 <= k < i ==> (#[trigger] self.entries@[k]).source@ != source@,
            decreases self.entries@.len() - i,
        {
            if self.entries[i].source == *source {
                return true;
            }
            i = i + 1;
        }
        false
    }

    /// Every entry resolved for reconciliation, in manifest order: the
    /// cleaned source key, the key joined under the given store root, and the
    /// cleaned declared target.
    pub fn entries(&self, base: &str) -> (v: Vec<(String, String, String)>)
        ensures
            v@.len() == self.entries@.len(),
            forall|i: int|
                0 <= i < v@.len() ==> {
                    &&& (#[trigger] v@[i]).0@ == cleaned(self.entries@[i].source@)
                    &&& v@[i].1@ == joined(base@, cleaned(self.entries@[i].source@))
                    &&& v@[i].2@ == cleaned(self.entries@[i].target@)
                },
    {
        let mut v: Vec<(String, String, String)> = Vec::new();
        let mut i: usize = 0;
        while i < self.entries.len()
            invariant
                0 <= i <= self.entries@.len(),
                v@.len() == i,
                forall|k: int|
                    0 <= k < i ==> {
                        &&& (#[trigger] v@[k]).0@ == cleaned(self.entries@[k].source@)
                        &&& v@[k].1@ == joined(base@, cleaned(self.entries@[k].source@))
                        &&& v@[k].2@ == cleaned(self.entries@[k].target@)
                    },
            decreases self.entries@.len() - i,
        {
            let name = clean_path(self.entries[i].source.as_str());
            let abs = join_paths(base, name.as_str());
            let target = clean_path(self.entries[i].target.as_str());
            v.push((name, abs, target));
            i = i + 1;
        }
        v
    }

    /// Appends a new entry under a source key not yet in the mapping.
    pub fn insert_entry(&mut self, source: String, target: String)
        requires
            !has_key(old(self).entries@, source@),
        ensures
            final(self).entries@ == old(self).entries@.push((Entry { source, target })),
            final(self).settings == old(self).settings,
            old(self).wf() ==> final(self).wf(),
    {
        self.entries.push(Entry { source, target });
        proof {
            if old(self).wf() {
                assert forall|i: int, j: int|
                    0 <= i < j < self.entries@.len() implies (#[trigger] self.entries@[i]).source@
                    != (#[trigger] self.entries@[j]).source@ by {
                    if j < self.entries@.len() - 1 {
                        assert(self.entries@[i] == old(self).entries@[i]);
                        assert(self.entries@[j] == old(self).entries@[j]);
                    } else {
                        assert(self.entries@[i] == old(self).entries@[i]);
                        assert(self.entries@[j].source@ == source@);
                    }
                }
            }
        }
    }

    /// Records a freshly added file: appends the entry unless its source key
    /// is already taken, and says whether it did.
    pub fn record_add(&mut self, source: String, target: String) -> (ok: bool)
        ensures
            ok <==> !has_key(old(self).entries@, source@),
            ok ==> final(self).entries@ == old(self).entries@.push((Entry { source, target })),
            !ok ==> *final(self) == *old(self),
            final(self).settings == old(self).settings,
            old(self).wf() ==> final(self).wf(),
    {
        if self.has_source(&source) {
            false
        } else {
            self.insert_entry(source, target);
            true
        }
    }

    /// Removes every entry whose source key stands in `keys`; the batch
    /// removal that ends an unlink run.
    pub fn remove_sources(&mut self, keys: &Vec<String>)
        ensures
            final(self).entries@ == kept_entries(old(self).entries@, keys@),
            final(self).settings == old(self).settings,
            old(self).wf() ==> final(self).wf(),
    {
        let mut kept: Vec<Entry> = Vec::new();
        let mut i: usize = 0;
        proof {
            assert(old(self).entries@.take(0) =~= Seq::<Entry>::empty());
        }
        while i < self.entries.len()
            invariant
                0 <= i <= self.entries@.len(),
                self.entries@ == old(self).entries@,
                self.settings == old(self).settings,
                kept@ == kept_entries(old(self).entries@.take(i as int), keys@),
            decreases self.entries@.len() - i,
        {
            let e = self.entries[i].clone();
            proof {
                let pre = old(self).entries@.take(i + 1);
                assert(pre.drop_last() =~= old(self).entries@.take(i as int));
                assert(pre.last() == e);
            }
            if !contains_str(keys, &e.source) {
                kept.push(e);
            }
            i = i + 1;
        }
        proof {
            assert(old(self).entries@.take(self.entries@.len() as int) =~= old(self).entries@);
        }
        self.entries = kept;
        proof {
            if old(self).wf() {
                lemma_kept_entries_wf(old(self).entries@, keys@);
            }
        }
    }
}

/// Everything that removal keeps was already an entry of the manifest.
proof fn lemma_kept_members(s: Seq<Entry>, keys: Seq<String>)
    ensures
        forall|k: int|
            0 <= k < kept_entries(s, keys).len() ==> s.contains(
                #[trigger] kept_entries(s, keys)[k],
            ),
    decreases s.len(),
{
    if s.len() > 0 {
        lemma_kept_members(s.drop_last(), keys);
        let rest = kept_entries(s.drop_last(), keys);
        assert forall|k: int| 0 <= k < kept_entries(s, keys).len() implies s.contains(
            #[trigger] kept_entries(s, keys)[k],
        ) by {
            if k < rest.len() {
                assert(s.drop_last().contains(rest[k]));
                let w = choose|w: int|
                    0 <= w < s.drop_last().len() && s.drop_last()[w] == rest[k];
                assert(s[w] == rest[k]);
            } else {
                assert(kept_entries(s, keys)[k] == s.last());
                assert(s[s.len() - 1] == s.last());
            }
        }
    }
}

/// Removal keeps a subsequence, so it cannot introduce a duplicate key.
proof fn lemma_kept_entries_wf(s: Seq<Entry>, keys: Seq<String>)
    requires
        forall|i: int, j: int|
            0 <= i < j < s.len() ==> (#[trigger] s[i]).source@ != (#[trigger] s[j]).source@,
    ensures
        forall|i: int, j: int|
            0 <= i < j < kept_entries(s, keys).len() ==> (#[trigger] kept_entries(s, keys)[i]).source@
                != (#[trigger] kept_entries(s, keys)[j]).source@,
    decreases s.len(),
{
    if s.len() > 0 {
        lemma_kept_entries_wf(s.drop_last(), keys);
        lemma_kept_members(s.drop_last(), keys);
        let rest = kept_entries(s.drop_last(), keys);
        assert forall|i: int, j: int|
            0 <= i < j < kept_entries(s, keys).len() implies (#[trigger] kept_entries(
            s,
            keys,
        )[i]).source@ != (#[trigger] kept_entries(s, keys)[j]).source@ by {
            if j < rest.len() {
                assert(kept_entries(s, keys)[i] == rest[i]);
                assert(kept_entries(s, keys)[j] == rest[j]);
                assert(kept_entries(s.drop_last(), keys)[i].source@ != kept_entries(
                    s.drop_last(),
                    keys,
                )[j].source@);
            } else {
                assert(kept_entries(s, keys)[i] == rest[i]);
                assert(kept_entries(s, keys)[j] == s.last());
                assert(s.drop_last().contains(rest[i]));
                let w = choose|w: int|
                    0 <= w < s.drop_last().len() && s.drop_last()[w] == rest[i];
                assert(s[w] == rest[i]);
                assert(s[w].source@ != s[s.len() - 1].source@);
            }
        }
    }
}

} // verus!
