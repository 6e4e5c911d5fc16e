//! Properties that tie the components together: what a fresh entry looks
//! like to the status report, that entering it leads back to its registry
//! path, and which names survive the bulk delete and the stale-link
//! sweep.

use vstd::prelude::*;

use crate::paths::classify_spec;
use crate::paths::find_parent_spec;
use crate::paths::has_prefixed_segment;
use crate::paths::tempdir_prefix;
use crate::registry::AbsEntry;
use crate::registry::AbsKind;
use crate::registry::has_name;
use crate::registry::index_of;
use crate::registry::is_stale;
use crate::registry::lemma_live_entries_from;
use crate::registry::lemma_persistent_entries_from;
use crate::registry::live_entries;
use crate::registry::names_unique;
use crate::registry::persistent_entries;

verus! {

/// A name not yet present that is then created shows up in the registry
/// as an ephemeral entry: creating appends exactly the entry
/// `name -> target`, and the lookup finds it, not persistent.
pub proof fn lemma_create_then_status(s: Seq<AbsEntry>, n: Seq<char>, target: Seq<Seq<char>>)
    requires
        names_unique(s),
        !has_name(s, n),
    ensures
        ({
            let s2 = s.push(
                AbsEntry { name: n, kind: AbsKind::Ephemeral { target, target_exists: true } },
            );
            has_name(s2, n) && index_of(s2, n) == s.len() && !(s2[index_of(s2, n)].kind
                is Persistent)
        }),
{
    let e = AbsEntry { name: n, kind: AbsKind::Ephemeral { target, target_exists: true } };
    let s2 = s.push(e);
    assert(s2[s.len() as int] == e);
    assert(has_name(s2, n));
    let j = index_of(s2, n);
    assert(0 <= j < s2.len() && s2[j].name == n);
    if j < s.len() {
        assert(s[j] == s2[j]);
        assert(has_name(s, n));
    }
}

/// A working directory set to a freshly created entry's registry path
/// resolves back to that same path: the shell reports `registry/<name>`,
/// its resolved form is the backing directory `tmp/<t>` whose name
/// carries the recognizable prefix, and the classifier walks up from the
/// reported path to the registry boundary.
pub proof fn lemma_created_entry_resolves(
    registry: Seq<Seq<char>>,
    tmp: Seq<Seq<char>>,
    cwd: Seq<Seq<char>>,
    n: Seq<char>,
    t: Seq<char>,
)
    requires
        tempdir_prefix().is_prefix_of(t),
    ensures
        classify_spec(registry, tmp, cwd, Some((registry.push(n), tmp.push(t)))) == Some(
            registry.push(n),
        ),
{
    let reported = registry.push(n);
    let resolved = tmp.push(t);
    assert(resolved[resolved.len() - 1] == t);
    assert(has_prefixed_segment(resolved));
    assert(reported.drop_last() =~= registry);
    assert(find_parent_spec(reported, tmp, registry) == Some(reported));
}

/// The bulk delete removes exactly the ephemeral entries: a name survives
/// it if and only if a persistent entry carried that name.
pub proof fn lemma_delete_all_membership(s: Seq<AbsEntry>, n: Seq<char>)
    ensures
        has_name(persistent_entries(s), n) <==> exists|i: int|
            0 <= i < s.len() && (#[trigger] s[i]).name == n && s[i].kind is Persistent,
    decreases s.len(),
{
    if has_name(persistent_entries(s), n) {
        let j = choose|j: int|
            0 <= j < persistent_entries(s).len() && (#[trigger] persistent_entries(s)[j]).name
                == n;
        lemma_persistent_entries_from(s, j);
        let k = choose|k: int| 0 <= k < s.len() && #[trigger] s[k] == persistent_entries(s)[j];
        assert(s[k].name == n && s[k].kind is Persistent);
    }
    if exists|i: int| 0 <= i < s.len() && (#[trigger] s[i]).name == n && s[i].kind is Persistent {
        let i = choose|i: int|
            0 <= i < s.len() && (#[trigger] s[i]).name == n && s[i].kind is Persistent;
        if i == s.len() - 1 {
            let out = persistent_entries(s);
            assert(out[out.len() - 1] == s[i]);
            assert(has_name(out, n));
        } else {
            assert(s.drop_last()[i] == s[i]);
            lemma_delete_all_membership(s.drop_last(), n);
            let j = choose|j: int|
                0 <= j < persistent_entries(s.drop_last()).len() && (#[trigger] persistent_entries(
                    s.drop_last(),
                )[j]).name == n;
            assert(persistent_entries(s)[j].name == n);
            assert(has_name(persistent_entries(s), n));
        }
    }
}

/// The stale-link sweep removes exactly the symlinks whose target is
/// gone: a name survives it if and only if an entry of that name was
/// persistent or still had its backing directory.
pub proof fn lemma_sweep_membership(s: Seq<AbsEntry>, n: Seq<char>)
    ensures
        has_name(live_entries(s), n) <==> exists|i: int|
            0 <= i < s.len() && (#[trigger] s[i]).name == n && !is_stale(s[i]),
    decreases s.len(),
{
    if has_name(live_entries(s), n) {
        let j = choose|j: int|
            0 <= j < live_entries(s).len() && (#[trigger] live_entries(s)[j]).name == n;
        lemma_live_entries_from(s, j);
        let k = choose|k: int| 0 <= k < s.len() && #[trigger] s[k] == live_entries(s)[j];
        assert(s[k].name == n && !is_stale(s[k]));
    }
    if exists|i: int| 0 <= i < s.len() && (#[trigger] s[i]).name == n && !is_stale(s[i]) {
        let i = choose|i: int| 0 <= i < s.len() && (#[trigger] s[i]).name == n && !is_stale(s[i]);
        if i == s.len() - 1 {
            let out = live_entries(s);
            assert(out[out.len() - 1] == s[i]);
            assert(has_name(out, n));
        } else {
            assert(s.drop_last()[i] == s[i]);
            lemma_sweep_membership(s.drop_last(), n);
            let j = choose|j: int|
                0 <= j < live_entries(s.drop_last()).len() && (#[trigger] live_entries(
                    s.drop_last(),
                )[j]).name == n;
            assert(live_entries(s)[j].name == n);
            assert(has_name(live_entries(s), n));
        }
    }
}

} // verus!
