//! Selection logic behind the download-import command: picking the most
//! recently created file of the download directory, and deriving the new
//! entry's default name from that file's name.

use vstd::prelude::*;

verus! {

/// The download directory, resolved once at startup: an explicit
/// override wins; otherwise the conventional directory under home when it
/// exists, and the short-named one as last resort.
pub fn download_dir(
    override_dir: Option<&Vec<String>>,
    home: &Vec<String>,
    downloads_exists: bool,
) -> (r: Vec<String>)
    ensures
        override_dir matches Some(d) ==> r.deep_view() == d.deep_view(),
        override_dir is None && downloads_exists ==> r.deep_view() == home.deep_view().push(
            "Downloads"@,
        ),
        override_dir is None && !downloads_exists ==> r.deep_view() == home.deep_view().push(
            "dl"@,
        ),
{
    match override_dir {
        Some(d) => {
            let r = crate::paths::vec_prefix(d, d.len());
            proof {
                assert(r.deep_view() =~= d.deep_view());
            }
            r
        },
        None => {
            let mut r = crate::paths::vec_prefix(home, home.len());
            proof {
                assert(r.deep_view() =~= home.deep_view());
            }
            if downloads_exists {
                r.push(String::from_str("Downloads"));
                proof {
                    assert(r.deep_view() =~= home.deep_view().push("Downloads"@));
                }
            } else {
                r.push(String::from_str("dl"));
                proof {
                    assert(r.deep_view() =~= home.deep_view().push("dl"@));
                }
            }
            r
        },
    }
}

/// Index of the most recently created file, given the files' creation
/// times: the first index carrying the maximum, so that among equally
/// recent files the one seen first wins.
pub fn most_recent(times: &Vec<u64>) -> (r: Option<usize>)
    ensures
        times@.len() == 0 ==> r is None,
        times@.len() > 0 ==> (r matches Some(i) && 0 <= i < times@.len() && (forall|j: int|
            0 <= j < times@.len() ==> times@[j] <= times@[i as int]) && (forall|j: int|
            0 <= j < i ==> times@[j] < times@[i as int])),
{
    if times.len() == 0 {
        return None;
    }
    let mut best: usize = 0;
    let mut i: usize = 1;
    while i < times.len()
        invariant
            0 <= best < i <= times@.len(),
            forall|j: int| 0 <= j < i ==> times@[j] <= times@[best as int],
            forall|j: int| 0 <= j < best ==> times@[j] < times@[best as int],
        decreases times@.len() - i,
    {
        if times[i] > times[best] {
            best = i;
        }
        i += 1;
    }
    Some(best)
}

/// Index of the last `.` in `s`; negative when there is none.
pub open spec fn last_dot(s: Seq<char>) -> int
    decreases s.len(),
{
    if s.len() == 0 {
        -1
    } else if s.last() == '.' {
        s.len() - 1
    } else {
        last_dot(s.drop_last())
    }
}

/// The file name without its final extension: everything before the last
/// `.`, except that a name whose only `.` leads it (a hidden file) and a
/// name without any `.` are kept whole.
pub open spec fn stem_of(s: Seq<char>) -> Seq<char> {
    if last_dot(s) >= 1 {
        s.take(last_dot(s))
    } else {
        s
    }
}

/// Derives the default entry name for an imported file from the file's
/// name.
pub fn file_stem(name: &String) -> (r: String)
    ensures
        r@ == stem_of(name@),
{
    let len = name.as_str().unicode_len();
    let mut k: usize = len;
    proof {
        assert(name@.take(len as int) =~= name@);
    }
    while k > 0
        invariant
            0 <= k <= len,
            len == name@.len(),
            last_dot(name@) == last_dot(name@.take(k as int)),
        decreases k,
    {
        proof {
            assert(name@.take(k as int).drop_last() =~= name@.take(k - 1));
            assert(name@.take(k as int).last() == name@[k - 1]);
        }
        let c = name.as_str().get_char(k - 1);
        if c == '.' {
            if k - 1 >= 1 {
                let s = name.as_str().substring_char(0, k - 1);
                return String::from_str(s);
            } else {
                return name.clone();
            }
        }
        k -= 1;
    }
    proof {
        assert(name@.take(0).len() == 0);
    }
    name.clone()
}

} // verus!
