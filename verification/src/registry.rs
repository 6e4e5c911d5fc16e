//! The registry model and its lifecycle transitions.
//!
//! The registry directory's direct children are the tracked scratch
//! directories: a symlink into the OS temp root is an *ephemeral* entry, a
//! real directory a *persistent* one.  This module models that state and
//! verifies the transitions — create, persist, rename, delete, delete-all,
//! and the stale-link sweep.  The unverified shell reads the directory into
//! a `Registry`, calls a transition, and applies the returned outcome to
//! the filesystem (creating or removing links, moving directories).

use vstd::prelude::*;

use crate::paths::vec_prefix;

verus! {

/// How a registry child is backed.
pub enum EntryKind {
    /// A symlink to a backing directory under the OS temp root.  The
    /// `target_exists` flag records whether that directory is still there;
    /// a link whose target is gone (typically after a reboot cleared the
    /// temp root) is *stale*.
    Ephemeral { target: Vec<String>, target_exists: bool },
    /// A real directory: the entry's own path holds the data.
    Persistent,
}

/// One direct child of the registry directory.
pub struct Entry {
    pub name: String,
    pub kind: EntryKind,
}

/// The registry directory's children.
pub struct Registry {
    pub entries: Vec<Entry>,
}

/// Mathematical image of an entry's backing.
pub enum AbsKind {
    Ephemeral { target: Seq<Seq<char>>, target_exists: bool },
    Persistent,
}

/// Mathematical image of an entry.
pub struct AbsEntry {
    pub name: Seq<char>,
    pub kind: AbsKind,
}

impl View for Entry {
    type V = AbsEntry;

    open spec fn view(&self) -> AbsEntry {
        AbsEntry {
            name: self.name@,
            kind: match self.kind {
                EntryKind::Ephemeral { target, target_exists } => AbsKind::Ephemeral {
                    target: target.deep_view(),
                    target_exists,
                },
                EntryKind::Persistent => AbsKind::Persistent,
            },
        }
    }
}

/// Entry sequence seen mathematically.
pub open spec fn abs_of(entries: Seq<Entry>) -> Seq<AbsEntry> {
    Seq::new(entries.len(), |i: int| entries[i]@)
}

impl View for Registry {
    type V = Seq<AbsEntry>;

    open spec fn view(&self) -> Seq<AbsEntry> {
        abs_of(self.entries@)
    }
}

/// A stale entry: an ephemeral one whose backing directory is gone.
pub open spec fn is_stale(e: AbsEntry) -> bool {
    e.kind matches AbsKind::Ephemeral { target_exists, .. } && !target_exists
}

/// The entries the bulk delete leaves behind: exactly the persistent
/// ones, in order.
pub open spec fn persistent_entries(s: Seq<AbsEntry>) -> Seq<AbsEntry>
    decreases s.len(),
{
    if s.len() == 0 {
        Seq::empty()
    } else {
        let rest = persistent_entries(s.drop_last());
        if s.last().kind is Persistent {
            rest.push(s.last())
        } else {
            rest
        }
    }
}

/// Names of the ephemeral entries, in order.
pub open spec fn ephemeral_names(s: Seq<AbsEntry>) -> Seq<Seq<char>>
    decreases s.len(),
{
    if s.len() == 0 {
        Seq::empty()
    } else {
        let rest = ephemeral_names(s.drop_last());
        if s.last().kind is Persistent {
            rest
        } else {
            rest.push(s.last().name)
        }
    }
}

/// The entries the stale-link sweep leaves behind: everything except
/// stale entries, in order.
pub open spec fn live_entries(s: Seq<AbsEntry>) -> Seq<AbsEntry>
    decreases s.len(),
{
    if s.len() == 0 {
        Seq::empty()
    } else {
        let rest = live_entries(s.drop_last());
        if is_stale(s.last()) {
            rest
        } else {
            rest.push(s.last())
        }
    }
}

/// Names of the stale entries, in order.
pub open spec fn stale_names(s: Seq<AbsEntry>) -> Seq<Seq<char>>
    decreases s.len(),
{
    if s.len() == 0 {
        Seq::empty()
    } else {
        let rest = stale_names(s.drop_last());
        if is_stale(s.last()) {
            rest.push(s.last().name)
        } else {
            rest
        }
    }
}

/// Some entry carries this name.
pub open spec fn has_name(s: Seq<AbsEntry>, n: Seq<char>) -> bool {
    exists|i: int| 0 <= i < s.len() && (#[trigger] s[i]).name == n
}

/// Index of the entry carrying this name (meaningful only when present).
pub open spec fn index_of(s: Seq<AbsEntry>, n: Seq<char>) -> int {
    choose|i: int| 0 <= i < s.len() && (#[trigger] s[i]).name == n
}

/// Entry names are pairwise distinct, as the filesystem namespace forces.
pub open spec fn names_unique(s: Seq<AbsEntry>) -> bool {
    forall|i: int, j: int| 0 <= i < j < s.len() ==> (#[trigger] s[i]).name != (#[trigger] s[j]).name
}

impl Registry {
    pub open spec fn wf(self) -> bool {
        names_unique(self@)
    }

    /// Index of the entry named `name`, if any.
    fn find(&self, name: &String) -> (r: Option<usize>)
        ensures
            match r {
                Some(i) => i < self@.len() && self@[i as int].name == name@,
                None => !has_name(self@, name@),
            },
    {
        let mut i: usize = 0;
        while i < self.entries.len()
            invariant
                0 <= i <= self.entries@.len(),
                forall|j: int| 0 <= j < i ==> (#[trigger] self@[j]).name != name@,
            decreases self.entries@.len() - i,
        {
            if self.entries[i].name == *name {
                assert(self@[i as int].name == name@);
                return Some(i);
            }
            i += 1;
        }
        None
    }

    /// Does the registry hold an entry of this name?
    pub fn contains(&self, name: &String) -> (r: bool)
        ensures
            r == has_name(self@, name@),
    {
        match self.find(name) {
            Some(_) => true,
            None => false,
        }
    }
}

/// How a create request ended.
pub enum CreateOutcome {
    /// The name was taken; nothing changed.
    Conflict,
    /// A visible entry was added: the registry now links the name to the
    /// backing directory.
    Linked,
    /// A hidden directory: the backing path is handed out but never
    /// registered.
    Hidden,
}

/// How a persist request ended.
pub enum PersistOutcome {
    /// No entry of that name.
    NotFound,
    /// The entry already was a real directory; nothing changed.
    AlreadyPersistent,
    /// The entry is now persistent; the caller must move the data from
    /// the returned backing path to the entry's registry path.
    Persisted { target: Vec<String> },
}

impl Registry {
    /// Creates an entry backed by the fresh directory `target`.  A name
    /// conflict is soft: the registry is unchanged and the caller's
    /// original location `orig` is handed back.  A visible entry is
    /// recorded and the caller is sent to `registry/name`; a hidden one
    /// leaves the registry untouched and the caller is sent to the raw
    /// backing path.
    pub fn create_tempdir(
        &mut self,
        registry_path: &Vec<String>,
        name: &String,
        orig: &Vec<String>,
        target: &Vec<String>,
        visible: bool,
    ) -> (r: (CreateOutcome, Vec<String>))
        requires
            old(self).wf(),
        ensures
            final(self).wf(),
            has_name(old(self)@, name@) ==> r.0 is Conflict && final(self)@ == old(self)@
                && r.1.deep_view() == orig.deep_view(),
            !has_name(old(self)@, name@) && visible ==> r.0 is Linked && final(self)@ == old(self)@.push(
                AbsEntry {
                    name: name@,
                    kind: AbsKind::Ephemeral { target: target.deep_view(), target_exists: true },
                },
            ) && r.1.deep_view() == registry_path.deep_view().push(name@),
            !has_name(old(self)@, name@) && !visible ==> r.0 is Hidden && final(self)@ == old(self)@ && r.1.deep_view() == target.deep_view(),
    {
        if self.contains(name) {
            let back = vec_prefix(orig, orig.len());
            proof {
                assert(back.deep_view() =~= orig.deep_view());
            }
            return (CreateOutcome::Conflict, back);
        }
        let t = vec_prefix(target, target.len());
        proof {
            assert(t.deep_view() =~= target.deep_view());
        }
        if visible {
            self.entries.push(
                Entry {
                    name: name.clone(),
                    kind: EntryKind::Ephemeral { target: t, target_exists: true },
                },
            );
            let mut link = vec_prefix(registry_path, registry_path.len());
            proof {
                assert(link.deep_view() =~= registry_path.deep_view());
            }
            link.push(name.clone());
            proof {
                assert(link.deep_view() =~= registry_path.deep_view().push(name@));
                assert(self@ =~= old(self)@.push(
                    AbsEntry {
                        name: name@,
                        kind: AbsKind::Ephemeral {
                            target: target.deep_view(),
                            target_exists: true,
                        },
                    },
                ));
                assert(names_unique(self@)) by {
                    assert(forall|i: int|
                        0 <= i < old(self)@.len() ==> (#[trigger] old(self)@[i]).name != name@);
                }
            }
            (CreateOutcome::Linked, link)
        } else {
            (CreateOutcome::Hidden, t)
        }
    }

    /// Promotes the named entry to persistent.  A missing name and an
    /// already-persistent entry are soft no-ops; on an ephemeral entry the
    /// kind flips to persistent and the backing path is returned so the
    /// caller can move the data to the entry's registry path.
    pub fn persist(&mut self, name: &String) -> (r: PersistOutcome)
        requires
            old(self).wf(),
        ensures
            final(self).wf(),
            !has_name(old(self)@, name@) ==> r is NotFound && final(self)@ == old(self)@,
            has_name(old(self)@, name@) ==> ({
                let i = index_of(old(self)@, name@);
                match old(self)@[i].kind {
                    AbsKind::Persistent => r is AlreadyPersistent && final(self)@ == old(self)@,
                    AbsKind::Ephemeral { target, target_exists } => (r matches
                    PersistOutcome::Persisted { target: t } && t.deep_view() == target) && final(self)@ == old(self)@.update(i, AbsEntry { name: name@, kind: AbsKind::Persistent }),
                }
            }),
    {
        match self.find(name) {
            None => PersistOutcome::NotFound,
            Some(i) => {
                proof {
                    lemma_index_of_found(self@, name@, i as int);
                }
                match &self.entries[i].kind {
                    EntryKind::Persistent => PersistOutcome::AlreadyPersistent,
                    EntryKind::Ephemeral { target, .. } => {
                        let t = vec_prefix(target, target.len());
                        proof {
                            assert(t.deep_view() =~= target.deep_view());
                        }
                        let nm = self.entries[i].name.clone();
                        self.entries[i] = Entry { name: nm, kind: EntryKind::Persistent };
                        proof {
                            assert(self@ =~= old(self)@.update(
                                i as int,
                                AbsEntry { name: name@, kind: AbsKind::Persistent },
                            ));
                        }
                        PersistOutcome::Persisted { target: t }
                    },
                }
            },
        }
    }
}

/// How a delete request ended.
pub enum DeleteOutcome {
    /// No entry of that name.
    NotFound,
    /// An ephemeral entry was dropped: the caller must remove the symlink;
    /// the returned backing directory is either removed eagerly or left
    /// for the stale-link sweep.
    RemovedLink { target: Vec<String> },
    /// A persistent entry was dropped: the caller must remove the real
    /// directory recursively.
    RemovedDir,
}

impl Registry {
    /// Renames the entry `from` to `to`.  An existing `to` is a soft
    /// conflict: nothing changes and `false` comes back — an entry is
    /// never overwritten.  Otherwise only the registry-visible name
    /// changes; the backing (and for ephemeral entries the backing
    /// directory's own name) stays as it was.
    pub fn rename(&mut self, from: &String, to: &String) -> (r: bool)
        requires
            old(self).wf(),
            has_name(old(self)@, from@),
        ensures
            final(self).wf(),
            has_name(old(self)@, to@) ==> r == false && final(self)@ == old(self)@,
            !has_name(old(self)@, to@) ==> r == true && final(self)@ == old(self)@.update(
                index_of(old(self)@, from@),
                AbsEntry { name: to@, kind: old(self)@[index_of(old(self)@, from@)].kind },
            ),
    {
        if self.contains(to) {
            return false;
        }
        let i = match self.find(from) {
            Some(i) => i,
            None => vstd::pervasive::unreached(),
        };
        proof {
            lemma_index_of_found(self@, from@, i as int);
        }
        let mut e = clone_entry(&self.entries[i]);
        e.name = to.clone();
        self.entries[i] = e;
        proof {
            assert(self@ =~= old(self)@.update(
                index_of(old(self)@, from@),
                AbsEntry { name: to@, kind: old(self)@[index_of(old(self)@, from@)].kind },
            ));
            assert(names_unique(self@)) by {
                assert(forall|k: int|
                    0 <= k < old(self)@.len() ==> (#[trigger] old(self)@[k]).name != to@);
            }
        }
        true
    }

    /// Removes the named entry.  A missing name is a soft no-op.  The
    /// outcome tells the caller what to take off the filesystem: the
    /// symlink of an ephemeral entry, or the whole real directory of a
    /// persistent one.
    pub fn delete(&mut self, name: &String) -> (r: DeleteOutcome)
        requires
            old(self).wf(),
        ensures
            final(self).wf(),
            !has_name(old(self)@, name@) ==> r is NotFound && final(self)@ == old(self)@,
            has_name(old(self)@, name@) ==> ({
                let i = index_of(old(self)@, name@);
                final(self)@ == old(self)@.remove(i) && match old(self)@[i].kind {
                    AbsKind::Ephemeral { target, target_exists } => r matches
                        DeleteOutcome::RemovedLink { target: t } && t.deep_view() == target,
                    AbsKind::Persistent => r is RemovedDir,
                }
            }),
    {
        match self.find(name) {
            None => DeleteOutcome::NotFound,
            Some(i) => {
                proof {
                    lemma_index_of_found(self@, name@, i as int);
                }
                let out = match &self.entries[i].kind {
                    EntryKind::Persistent => DeleteOutcome::RemovedDir,
                    EntryKind::Ephemeral { target, .. } => {
                        let t = vec_prefix(target, target.len());
                        proof {
                            assert(t.deep_view() =~= target.deep_view());
                        }
                        DeleteOutcome::RemovedLink { target: t }
                    },
                };
                self.entries.remove(i);
                proof {
                    assert(self@ =~= old(self)@.remove(index_of(old(self)@, name@)));
                    assert(names_unique(self@)) by {
                        assert(forall|a: int, b: int|
                            0 <= a < b < self@.len() ==> (#[trigger] self@[a]).name != (
                            #[trigger] self@[b]).name);
                    }
                }
                out
            },
        }
    }
}

/// Every entry the bulk delete keeps is persistent and one of the
/// original entries.
pub proof fn lemma_persistent_entries_from(s: Seq<AbsEntry>, i: int)
    requires
        0 <= i < persistent_entries(s).len(),
    ensures
        persistent_entries(s)[i].kind is Persistent,
        exists|k: int| 0 <= k < s.len() && #[trigger] s[k] == persistent_entries(s)[i],
    decreases s.len(),
{
    if s.len() > 0 {
        if s.last().kind is Persistent && i == persistent_entries(s).len() - 1 {
            assert(s[s.len() - 1] == persistent_entries(s)[i]);
        } else {
            lemma_persistent_entries_from(s.drop_last(), i);
            let k = choose|k: int|
                0 <= k < s.drop_last().len() && #[trigger] s.drop_last()[k] == persistent_entries(
                    s.drop_last(),
                )[i];
            assert(s[k] == persistent_entries(s)[i]);
        }
    }
}

proof fn lemma_persistent_entries_unique(s: Seq<AbsEntry>)
    requires
        names_unique(s),
    ensures
        names_unique(persistent_entries(s)),
    decreases s.len(),
{
    if s.len() > 0 {
        assert(forall|i: int|
            0 <= i < s.drop_last().len() ==> s.drop_last()[i] == #[trigger] s[i]);
        lemma_persistent_entries_unique(s.drop_last());
        let out = persistent_entries(s);
        if s.last().kind is Persistent {
            assert forall|a: int, b: int| 0 <= a < b < out.len() implies (#[trigger] out[a]).name
                != (#[trigger] out[b]).name by {
                if b == out.len() - 1 {
                    lemma_persistent_entries_from(s.drop_last(), a);
                    let k = choose|k: int|
                        0 <= k < s.drop_last().len() && #[trigger] s.drop_last()[k]
                            == persistent_entries(s.drop_last())[a];
                    assert(s[k].name != s[s.len() - 1].name);
                }
            }
        }
    }
}

/// Every entry the sweep keeps is not stale and one of the original
/// entries.
pub proof fn lemma_live_entries_from(s: Seq<AbsEntry>, i: int)
    requires
        0 <= i < live_entries(s).len(),
    ensures
        !is_stale(live_entries(s)[i]),
        exists|k: int| 0 <= k < s.len() && #[trigger] s[k] == live_entries(s)[i],
    decreases s.len(),
{
    if s.len() > 0 {
        if !is_stale(s.last()) && i == live_entries(s).len() - 1 {
            assert(s[s.len() - 1] == live_entries(s)[i]);
        } else {
            lemma_live_entries_from(s.drop_last(), i);
            let k = choose|k: int|
                0 <= k < s.drop_last().len() && #[trigger] s.drop_last()[k] == live_entries(
                    s.drop_last(),
                )[i];
            assert(s[k] == live_entries(s)[i]);
        }
    }
}

proof fn lemma_live_entries_unique(s: Seq<AbsEntry>)
    requires
        names_unique(s),
    ensures
        names_unique(live_entries(s)),
    decreases s.len(),
{
    if s.len() > 0 {
        assert(forall|i: int|
            0 <= i < s.drop_last().len() ==> s.drop_last()[i] == #[trigger] s[i]);
        lemma_live_entries_unique(s.drop_last());
        let out = live_entries(s);
        if !is_stale(s.last()) {
            assert forall|a: int, b: int| 0 <= a < b < out.len() implies (#[trigger] out[a]).name
                != (#[trigger] out[b]).name by {
                if b == out.len() - 1 {
                    lemma_live_entries_from(s.drop_last(), a);
                    let k = choose|k: int|
                        0 <= k < s.drop_last().len() && #[trigger] s.drop_last()[k] == live_entries(
                            s.drop_last(),
                        )[a];
                    assert(s[k].name != s[s.len() - 1].name);
                }
            }
        }
    }
}

impl Registry {
    /// Removes every ephemeral entry; persistent entries are deliberately
    /// left untouched — persisted data is never deleted in bulk.  Returns
    /// the removed names, whose symlinks the caller must take off the
    /// filesystem (their orphaned backing directories are the sweep's to
    /// collect, or the caller's to remove eagerly).
    pub fn delete_all(&mut self) -> (r: Vec<String>)
        requires
            old(self).wf(),
        ensures
            final(self).wf(),
            final(self)@ == persistent_entries(old(self)@),
            r.deep_view() == ephemeral_names(old(self)@),
    {
        let ghost ov = self@;
        let mut kept: Vec<Entry> = Vec::new();
        let mut removed: Vec<String> = Vec::new();
        proof {
            assert(abs_of(kept@) =~= persistent_entries(ov.take(0)));
            assert(removed.deep_view() =~= ephemeral_names(ov.take(0)));
        }
        let mut i: usize = 0;
        while i < self.entries.len()
            invariant
                0 <= i <= self.entries@.len(),
                self@ == ov,
                abs_of(kept@) == persistent_entries(ov.take(i as int)),
                removed.deep_view() == ephemeral_names(ov.take(i as int)),
            decreases self.entries@.len() - i,
        {
            proof {
                assert(ov.take(i + 1).drop_last() =~= ov.take(i as int));
                assert(ov.take(i + 1).last() == ov[i as int]);
            }
            match &self.entries[i].kind {
                EntryKind::Persistent => {
                    let e = clone_entry(&self.entries[i]);
                    kept.push(e);
                    proof {
                        assert(abs_of(kept@) =~= persistent_entries(ov.take(i + 1)));
                    }
                },
                EntryKind::Ephemeral { .. } => {
                    removed.push(self.entries[i].name.clone());
                    proof {
                        assert(removed.deep_view() =~= ephemeral_names(ov.take(i + 1)));
                    }
                },
            }
            i += 1;
        }
        proof {
            assert(ov.take(self.entries@.len() as int) =~= ov);
        }
        self.entries = kept;
        proof {
            lemma_persistent_entries_unique(ov);
        }
        removed
    }

    /// The stale-link sweep: removes every symlink whose backing
    /// directory no longer exists (typically after a reboot cleared the
    /// temp root); everything else is untouched.  Returns the removed
    /// names, whose dangling symlinks the caller must take off the
    /// filesystem.
    pub fn cleanup(&mut self) -> (r: Vec<String>)
        requires
            old(self).wf(),
        ensures
            final(self).wf(),
            final(self)@ == live_entries(old(self)@),
            r.deep_view() == stale_names(old(self)@),
    {
        let ghost ov = self@;
        let mut kept: Vec<Entry> = Vec::new();
        let mut removed: Vec<String> = Vec::new();
        proof {
            assert(abs_of(kept@) =~= live_entries(ov.take(0)));
            assert(removed.deep_view() =~= stale_names(ov.take(0)));
        }
        let mut i: usize = 0;
        while i < self.entries.len()
            invariant
                0 <= i <= self.entries@.len(),
                self@ == ov,
                abs_of(kept@) == live_entries(ov.take(i as int)),
                removed.deep_view() == stale_names(ov.take(i as int)),
            decreases self.entries@.len() - i,
        {
            proof {
                assert(ov.take(i + 1).drop_last() =~= ov.take(i as int));
                assert(ov.take(i + 1).last() == ov[i as int]);
            }
            let stale = match &self.entries[i].kind {
                EntryKind::Ephemeral { target_exists, .. } => !*target_exists,
                EntryKind::Persistent => false,
            };
            if stale {
                removed.push(self.entries[i].name.clone());
                proof {
                    assert(removed.deep_view() =~= stale_names(ov.take(i + 1)));
                }
            } else {
                let e = clone_entry(&self.entries[i]);
                kept.push(e);
                proof {
                    assert(abs_of(kept@) =~= live_entries(ov.take(i + 1)));
                }
            }
            i += 1;
        }
        proof {
            assert(ov.take(self.entries@.len() as int) =~= ov);
        }
        self.entries = kept;
        proof {
            lemma_live_entries_unique(ov);
        }
        removed
    }

    /// The status report's listing: every entry's name, tagged with
    /// whether it is persistent.
    pub fn active_tempdirs(&self) -> (r: Vec<(String, bool)>)
        ensures
            r@.len() == self@.len(),
            forall|i: int|
                0 <= i < r@.len() ==> (#[trigger] r@[i]).0@ == self@[i].name && r@[i].1 == (
                self@[i].kind is Persistent),
    {
        let mut r: Vec<(String, bool)> = Vec::new();
        let mut i: usize = 0;
        while i < self.entries.len()
            invariant
                0 <= i <= self.entries@.len(),
                r@.len() == i,
                forall|j: int|
                    0 <= j < i ==> (#[trigger] r@[j]).0@ == self@[j].name && r@[j].1 == (
                    self@[j].kind is Persistent),
            decreases self.entries@.len() - i,
        {
            let persistent = match &self.entries[i].kind {
                EntryKind::Persistent => true,
                EntryKind::Ephemeral { .. } => false,
            };
            r.push((self.entries[i].name.clone(), persistent));
            i += 1;
        }
        r
    }
}

/// Which entry an operation acts on when it is invoked without an
/// explicit path.
pub enum Resolution {
    /// The caller stands inside this tracked entry.
    InDir(Vec<String>),
    /// The entry of this name.
    Named(String),
    /// Nothing to act on: the operation degrades to a soft no-op.
    NoContext,
}

/// The name-resolution precedence shared by persist, rename and delete:
/// being inside a tracked directory wins, then the explicit top-level
/// name, then the subcommand's own name argument; with none of these
/// there is no context to act on.
pub fn resolve_target(
    in_dir: Option<Vec<String>>,
    top_name: Option<&String>,
    sub_name: Option<&String>,
) -> (r: Resolution)
    ensures
        in_dir matches Some(p) ==> r matches Resolution::InDir(q) && q == p,
        in_dir is None ==> (top_name matches Some(n) ==> (r matches Resolution::Named(m) && m@
            == n@)),
        in_dir is None && top_name is None ==> (sub_name matches Some(n) ==> (r matches
            Resolution::Named(m) && m@ == n@)),
        in_dir is None && top_name is None && sub_name is None ==> r is NoContext,
{
    match in_dir {
        Some(p) => Resolution::InDir(p),
        None => match top_name {
            Some(n) => Resolution::Named(n.clone()),
            None => match sub_name {
                Some(n) => Resolution::Named(n.clone()),
                None => Resolution::NoContext,
            },
        },
    }
}

impl Registry {
    /// End of an interactive session on the named entry: if it is still
    /// ephemeral — never persisted during the session — it is dropped and
    /// its backing path returned, for the caller to remove the symlink
    /// and the backing directory.  A persisted (or meanwhile deleted)
    /// entry is left alone: the data survives.
    pub fn session_end(&mut self, name: &String) -> (r: Option<Vec<String>>)
        requires
            old(self).wf(),
        ensures
            final(self).wf(),
            !has_name(old(self)@, name@) ==> r is None && final(self)@ == old(self)@,
            has_name(old(self)@, name@) ==> ({
                let i = index_of(old(self)@, name@);
                match old(self)@[i].kind {
                    AbsKind::Persistent => r is None && final(self)@ == old(self)@,
                    AbsKind::Ephemeral { target, target_exists } => (r matches Some(t)
                        && t.deep_view() == target) && final(self)@ == old(self)@.remove(i),
                }
            }),
    {
        match self.find(name) {
            None => None,
            Some(i) => {
                proof {
                    lemma_index_of_found(self@, name@, i as int);
                }
                match &self.entries[i].kind {
                    EntryKind::Persistent => None,
                    EntryKind::Ephemeral { target, .. } => {
                        let t = vec_prefix(target, target.len());
                        proof {
                            assert(t.deep_view() =~= target.deep_view());
                        }
                        self.entries.remove(i);
                        proof {
                            assert(self@ =~= old(self)@.remove(index_of(old(self)@, name@)));
                            assert(names_unique(self@)) by {
                                assert(forall|a: int, b: int|
                                    0 <= a < b < self@.len() ==> (#[trigger] self@[a]).name != (
                                    #[trigger] self@[b]).name);
                            }
                        }
                        Some(t)
                    },
                }
            },
        }
    }
}

/// In a well-formed registry, any index whose entry carries the name is
/// the index the lookup names.
proof fn lemma_index_of_found(s: Seq<AbsEntry>, n: Seq<char>, i: int)
    requires
        names_unique(s),
        0 <= i < s.len(),
        s[i].name == n,
    ensures
        has_name(s, n),
        index_of(s, n) == i,
{
    assert(has_name(s, n));
    let j = index_of(s, n);
    assert(0 <= j < s.len() && s[j].name == n);
}

fn clone_entry(e: &Entry) -> (r: Entry)
    ensures
        r@ == e@,
{
    match &e.kind {
        EntryKind::Ephemeral { target, target_exists } => {
            let t = vec_prefix(target, target.len());
            proof {
                assert(t.deep_view() =~= target.deep_view());
            }
            Entry {
                name: e.name.clone(),
                kind: EntryKind::Ephemeral { target: t, target_exists: *target_exists },
            }
        },
        EntryKind::Persistent => Entry { name: e.name.clone(), kind: EntryKind::Persistent },
    }
}

} // verus!
