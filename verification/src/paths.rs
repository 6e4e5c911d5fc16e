//! Paths as segment vectors, and the classifier that decides whether a
//! working directory lies inside a tracked scratch directory.
//!
//! A path is modelled as the vector of its components below the filesystem
//! root; the unverified shell converts between `PathBuf` and this form.
//! The classifier recognises a scratch directory in two ways: by a path
//! segment carrying the backing-directory name prefix (the view after
//! following the registry symlink), or by the path lying under the
//! registry root (a persistent entry, which has no prefixed segment).

use vstd::prelude::*;

verus! {

/// Name prefix of the backing directories created under the OS temp root.
/// It marks this tool's directories apart from unrelated temp files and is
/// what the classifier scans path segments for.
pub open spec fn tempdir_prefix() -> Seq<char> {
    "T-RS-TEMPDIR"@
}

pub fn tempdir_prefix_str() -> (r: &'static str)
    ensures
        r@ == tempdir_prefix(),
{
    "T-RS-TEMPDIR"
}

/// Some segment of `p` starts with the backing-directory prefix.
pub open spec fn has_prefixed_segment(p: Seq<Seq<char>>) -> bool {
    exists|i: int| 0 <= i < p.len() && tempdir_prefix().is_prefix_of(#[trigger] p[i])
}

/// Walks upward from `p` until the parent is the temp root or the registry
/// root, returning the child of that boundary; `None` when no ancestor's
/// parent is a boundary.  The nearest boundary wins.
pub open spec fn find_parent_spec(
    p: Seq<Seq<char>>,
    tmp: Seq<Seq<char>>,
    registry: Seq<Seq<char>>,
) -> Option<Seq<Seq<char>>>
    decreases p.len(),
{
    if p.len() == 0 {
        None
    } else if p.drop_last() == tmp || p.drop_last() == registry {
        Some(p)
    } else {
        find_parent_spec(p.drop_last(), tmp, registry)
    }
}

fn seg_has_prefix(s: &String) -> (r: bool)
    ensures
        r == tempdir_prefix().is_prefix_of(s@),
{
    let p = tempdir_prefix_str();
    let plen = p.unicode_len();
    let slen = s.as_str().unicode_len();
    if slen < plen {
        return false;
    }
    let mut i: usize = 0;
    while i < plen
        invariant
            0 <= i <= plen,
            p@ == tempdir_prefix(),
            plen == tempdir_prefix().len(),
            slen == s@.len(),
            plen <= slen,
            forall|j: int| 0 <= j < i ==> s@[j] == tempdir_prefix()[j],
        decreases plen - i,
    {
        if s.as_str().get_char(i) != p.get_char(i) {
            assert(!tempdir_prefix().is_prefix_of(s@));
            return false;
        }
        i += 1;
    }
    proof {
        assert(tempdir_prefix() =~= s@.subrange(0, plen as int));
    }
    true
}

fn any_prefixed_segment(p: &Vec<String>) -> (r: bool)
    ensures
        r == has_prefixed_segment(p.deep_view()),
{
    let mut i: usize = 0;
    while i < p.len()
        invariant
            0 <= i <= p.len(),
            forall|j: int|
                0 <= j < i ==> !tempdir_prefix().is_prefix_of(#[trigger] p.deep_view()[j]),
        decreases p.len() - i,
    {
        if seg_has_prefix(&p[i]) {
            assert(tempdir_prefix().is_prefix_of(p.deep_view()[i as int]));
            return true;
        }
        i += 1;
    }
    false
}

/// Elementwise equality of two segment paths.
pub fn segs_eq(a: &Vec<String>, b: &Vec<String>) -> (r: bool)
    ensures
        r == (a.deep_view() == b.deep_view()),
{
    if a.len() != b.len() {
        proof {
            assert(a.deep_view().len() == a@.len());
            assert(b.deep_view().len() == b@.len());
        }
        return false;
    }
    let mut i: usize = 0;
    while i < a.len()
        invariant
            0 <= i <= a.len(),
            a@.len() == b@.len(),
            forall|j: int| 0 <= j < i ==> a.deep_view()[j] == b.deep_view()[j],
        decreases a.len() - i,
    {
        if !(a[i] == b[i]) {
            assert(a.deep_view()[i as int] != b.deep_view()[i as int]);
            return false;
        }
        i += 1;
    }
    proof {
        assert(a.deep_view() =~= b.deep_view());
    }
    true
}

/// Does `p` lie at or below `root`?
pub fn segs_starts_with(p: &Vec<String>, root: &Vec<String>) -> (r: bool)
    ensures
        r == root.deep_view().is_prefix_of(p.deep_view()),
{
    if p.len() < root.len() {
        return false;
    }
    let mut i: usize = 0;
    while i < root.len()
        invariant
            0 <= i <= root.len(),
            root@.len() <= p@.len(),
            forall|j: int| 0 <= j < i ==> root.deep_view()[j] == p.deep_view()[j],
        decreases root.len() - i,
    {
        if !(root[i] == p[i]) {
            assert(root.deep_view()[i as int] != p.deep_view()[i as int]);
            assert(!root.deep_view().is_prefix_of(p.deep_view()));
            return false;
        }
        i += 1;
    }
    proof {
        assert(root.deep_view() =~= p.deep_view().subrange(0, root@.len() as int));
    }
    true
}

/// The first `k` segments of `p`, as a fresh vector.
pub(crate) fn vec_prefix(p: &Vec<String>, k: usize) -> (r: Vec<String>)
    requires
        k <= p@.len(),
    ensures
        r.deep_view() == p.deep_view().take(k as int),
{
    let mut r: Vec<String> = Vec::new();
    proof {
        assert(r.deep_view() =~= p.deep_view().take(0));
    }
    let mut i: usize = 0;
    while i < k
        invariant
            0 <= i <= k <= p@.len(),
            r@.len() == i,
            r.deep_view() == p.deep_view().take(i as int),
        decreases k - i,
    {
        let ghost prev = r@;
        let ghost prevdv = r.deep_view();
        r.push(p[i].clone());
        proof {
            assert(r@ == prev.push(r@[i as int]));
            assert forall|j: int| 0 <= j < r@.len() implies r.deep_view()[j] == p.deep_view().take(
                i + 1,
            )[j] by {
                assert(r.deep_view()[j] == r@[j].deep_view());
                if j < i {
                    assert(r@[j] == prev[j]);
                    assert(prevdv[j] == prev[j].deep_view());
                } else {
                    assert(r@[j]@ == p@[i as int]@);
                    assert(p.deep_view()[i as int] == p@[i as int].deep_view());
                }
            }
            assert(r.deep_view() =~= p.deep_view().take(i + 1));
        }
        i += 1;
    }
    r
}

fn find_parent(path: &Vec<String>, tmp: &Vec<String>, registry: &Vec<String>) -> (r: Option<
    Vec<String>,
>)
    ensures
        ({
            let s = find_parent_spec(path.deep_view(), tmp.deep_view(), registry.deep_view());
            match r {
                Some(p) => s == Some(p.deep_view()),
                None => s is None,
            }
        }),
{
    let ghost full = path.deep_view();
    let ghost tmpv = tmp.deep_view();
    let ghost regv = registry.deep_view();
    proof {
        assert(full.take(path@.len() as int) =~= full);
    }
    let mut k: usize = path.len();
    while k >= 1
        invariant
            k <= path@.len(),
            full == path.deep_view(),
            tmpv == tmp.deep_view(),
            regv == registry.deep_view(),
            find_parent_spec(full, tmpv, regv) == find_parent_spec(
                full.take(k as int),
                tmpv,
                regv,
            ),
        decreases k,
    {
        let parent = vec_prefix(path, k - 1);
        proof {
            assert(full.take(k as int).drop_last() =~= full.take(k - 1));
        }
        if segs_eq(&parent, tmp) || segs_eq(&parent, registry) {
            let r = vec_prefix(path, k);
            return Some(r);
        }
        k -= 1;
    }
    proof {
        assert(full.take(0).len() == 0);
    }
    None
}

/// The shell-reported working directory: as reported, and with symlinks
/// resolved.
pub struct ShellCwd {
    pub reported: Vec<String>,
    pub resolved: Vec<String>,
}

pub open spec fn shell_cwd_view(pwd: Option<&ShellCwd>) -> Option<(Seq<Seq<char>>, Seq<Seq<char>>)> {
    match pwd {
        Some(s) => Some((s.reported.deep_view(), s.resolved.deep_view())),
        None => None,
    }
}

/// Where the classifier finds a tracked entry.  First the shell-reported
/// directory: a prefixed segment in its resolved form places it under a
/// backing directory, and the walk upward from the *reported* form names
/// the entry; failing that, lying strictly under the registry root places
/// it in a persistent entry.  Last, the same prefixed-segment scan on the
/// process working directory.
pub open spec fn classify_spec(
    registry: Seq<Seq<char>>,
    tmp: Seq<Seq<char>>,
    cwd: Seq<Seq<char>>,
    pwd: Option<(Seq<Seq<char>>, Seq<Seq<char>>)>,
) -> Option<Seq<Seq<char>>> {
    let from_cwd = if has_prefixed_segment(cwd) {
        find_parent_spec(cwd, tmp, registry)
    } else {
        Option::<Seq<Seq<char>>>::None
    };
    match pwd {
        Some((reported, resolved)) => {
            if has_prefixed_segment(resolved) {
                find_parent_spec(reported, tmp, registry)
            } else if registry.is_prefix_of(reported) && reported.len() > registry.len() {
                Some(registry.push(reported[registry.len() as int]))
            } else {
                from_cwd
            }
        },
        None => from_cwd,
    }
}

/// Classifies the current location: `Some(registry/<name>)` when the
/// shell-reported or process working directory lies inside a tracked
/// scratch directory, `None` otherwise.
pub fn in_tempdir(
    registry: &Vec<String>,
    tmp: &Vec<String>,
    cwd: &Vec<String>,
    pwd: Option<&ShellCwd>,
) -> (r: Option<Vec<String>>)
    ensures
        ({
            let s = classify_spec(
                registry.deep_view(),
                tmp.deep_view(),
                cwd.deep_view(),
                shell_cwd_view(pwd),
            );
            match r {
                Some(p) => s == Some(p.deep_view()),
                None => s is None,
            }
        }),
{
    match pwd {
        Some(shell) => {
            if any_prefixed_segment(&shell.resolved) {
                find_parent(&shell.reported, tmp, registry)
            } else if segs_starts_with(&shell.reported, registry) && shell.reported.len()
                > registry.len() {
                let mut r = vec_prefix(registry, registry.len());
                proof {
                    assert(registry.deep_view().take(registry@.len() as int) =~= registry.deep_view());
                }
                r.push(shell.reported[registry.len()].clone());
                proof {
                    assert(r.deep_view() =~= registry.deep_view().push(
                        shell.reported.deep_view()[registry@.len() as int],
                    ));
                }
                Some(r)
            } else if any_prefixed_segment(cwd) {
                find_parent(cwd, tmp, registry)
            } else {
                None
            }
        },
        None => {
            if any_prefixed_segment(cwd) {
                find_parent(cwd, tmp, registry)
            } else {
                None
            }
        },
    }
}

} // verus!
