//! Name allocation for registry entries.
//!
//! When the user supplies no name, an entry is named `unnamed_<integer>`.
//! The allocator scans the existing children for names of that pattern,
//! takes the largest integer found, and returns the name built from the
//! next integer.  Gaps are not reused: children `unnamed_1` and `unnamed_3`
//! yield `unnamed_4`.

use vstd::prelude::*;

verus! {

/// A decimal digit, as a character.
pub open spec fn is_digit_char(c: char) -> bool {
    48 <= c as u32 <= 57
}

/// Numeric value of a decimal digit character.
pub open spec fn digit_val(c: char) -> nat {
    (c as u32 - 48) as nat
}

pub open spec fn all_digits(s: Seq<char>) -> bool {
    forall|i: int| 0 <= i < s.len() ==> is_digit_char(#[trigger] s[i])
}

/// Value of a digit string read most-significant first.
pub open spec fn digits_value(s: Seq<char>) -> nat
    decreases s.len(),
{
    if s.len() == 0 {
        0
    } else {
        digits_value(s.drop_last()) * 10 + digit_val(s.last())
    }
}

pub open spec fn unnamed_prefix() -> Seq<char> {
    "unnamed_"@
}

/// The integer named by `unnamed_<digits>`, if `name` has that shape and
/// the digits denote a value that fits in `usize`; `None` otherwise.
pub open spec fn parse_unnamed(name: Seq<char>) -> Option<nat> {
    let digits = name.skip(unnamed_prefix().len() as int);
    if unnamed_prefix().is_prefix_of(name) && name.len() > unnamed_prefix().len()
        && all_digits(digits) && digits_value(digits) <= usize::MAX {
        Some(digits_value(digits))
    } else {
        None
    }
}

fn unnamed_prefix_str() -> (r: &'static str)
    ensures
        r@ == unnamed_prefix(),
{
    "unnamed_"
}

/// Parses `unnamed_<integer>` names; everything else is `None`.
pub fn parse_unnamed_name(name: &String) -> (r: Option<usize>)
    ensures
        r matches Some(v) ==> parse_unnamed(name@) == Some(v as nat),
        r is None ==> parse_unnamed(name@) is None,
{
    let pre = unnamed_prefix_str();
    let plen = pre.unicode_len();
    let nlen = name.as_str().unicode_len();
    if nlen <= plen {
        assert(parse_unnamed(name@) is None) by {
            if unnamed_prefix().is_prefix_of(name@) {
                assert(name@.len() >= unnamed_prefix().len());
            }
        }
        return None;
    }
    let mut i: usize = 0;
    while i < plen
        invariant
            0 <= i <= plen,
            pre@ == unnamed_prefix(),
            plen == unnamed_prefix().len(),
            nlen == name@.len(),
            plen < nlen,
            forall|j: int| 0 <= j < i ==> name@[j] == unnamed_prefix()[j],
        decreases plen - i,
    {
        if name.as_str().get_char(i) != pre.get_char(i) {
            assert(!unnamed_prefix().is_prefix_of(name@));
            return None;
        }
        i += 1;
    }
    assert(unnamed_prefix().is_prefix_of(name@)) by {
        assert(forall|j: int| 0 <= j < plen ==> name@[j] == unnamed_prefix()[j]);
        assert(unnamed_prefix() =~= name@.take(plen as int));
    }
    let ghost digits = name@.skip(plen as int);
    let mut acc: usize = 0;
    let ghost mut gval: nat = 0;
    let mut overflow: bool = false;
    let mut k: usize = plen;
    while k < nlen
        invariant
            plen <= k <= nlen,
            plen == unnamed_prefix().len(),
            nlen == name@.len(),
            digits == name@.skip(plen as int),
            all_digits(name@.subrange(plen as int, k as int)),
            gval == digits_value(name@.subrange(plen as int, k as int)),
            !overflow ==> acc == gval && gval <= usize::MAX,
            overflow ==> gval > usize::MAX,
        decreases nlen - k,
    {
        let c = name.as_str().get_char(k);
        let v: u32 = c as u32;
        if !(48 <= v && v <= 57) {
            assert(!all_digits(digits)) by {
                assert(digits[k - plen] == name@[k as int]);
            }
            return None;
        }
        let d: usize = (v - 48) as usize;
        proof {
            assert(name@.subrange(plen as int, k + 1).drop_last() =~= name@.subrange(
                plen as int,
                k as int,
            ));
            gval = gval * 10 + digit_val(name@[k as int]);
        }
        if !overflow {
            match acc.checked_mul(10) {
                Some(m) => match m.checked_add(d) {
                    Some(s) => {
                        acc = s;
                    },
                    None => {
                        overflow = true;
                    },
                },
                None => {
                    overflow = true;
                },
            }
        }
        k += 1;
    }
    proof {
        assert(name@.subrange(plen as int, nlen as int) =~= digits);
    }
    if overflow {
        None
    } else {
        Some(acc)
    }
}

/// Decimal digit characters of `n`, most significant first, no leading zero
/// (a single `'0'` for zero).
pub open spec fn dec_digits(n: nat) -> Seq<char>
    decreases n,
{
    if n < 10 {
        seq![((48 + n) as u8) as char]
    } else {
        dec_digits(n / 10) + seq![((48 + n % 10) as u8) as char]
    }
}

/// The name `unnamed_<n>`.
pub open spec fn unnamed_name(n: nat) -> Seq<char> {
    unnamed_prefix() + dec_digits(n)
}

/// Relies on `String::push`: appends exactly the given character.
#[verifier::external_body]
fn push_char(s: &mut String, c: char)
    ensures
        final(s)@ == old(s)@ + seq![c],
{
    s.push(c)
}

fn push_dec_digits(s: &mut String, n: usize)
    ensures
        final(s)@ == old(s)@ + dec_digits(n as nat),
    decreases n,
{
    if n < 10 {
        push_char(s, (48 + n as u8) as char);
    } else {
        push_dec_digits(s, n / 10);
        push_char(s, (48 + (n % 10) as u8) as char);
    }
}

/// Builds the name `unnamed_<n>`.
pub fn render_unnamed(n: usize) -> (r: String)
    ensures
        r@ == unnamed_name(n as nat),
{
    let mut s = String::from_str(unnamed_prefix_str());
    push_dec_digits(&mut s, n);
    s
}

proof fn lemma_dec_digits_wf(n: nat)
    ensures
        dec_digits(n).len() >= 1,
        all_digits(dec_digits(n)),
        digits_value(dec_digits(n)) == n,
    decreases n,
{
    if n < 10 {
        let s = dec_digits(n);
        let c = ((48 + n) as u8) as char;
        assert(s =~= seq![c]);
        assert(s.drop_last() =~= Seq::<char>::empty());
        assert(digits_value(s) == digits_value(s.drop_last()) * 10 + digit_val(c));
        assert(digit_val(c) == n);
    } else {
        lemma_dec_digits_wf(n / 10);
        let s = dec_digits(n);
        let c = ((48 + n % 10) as u8) as char;
        assert(s.drop_last() =~= dec_digits(n / 10));
        assert(s.last() == c);
        assert(digits_value(s) == digits_value(dec_digits(n / 10)) * 10 + digit_val(c));
        assert(digit_val(c) == n % 10);
        assert(forall|i: int|
            0 <= i < s.len() - 1 ==> s[i] == #[trigger] dec_digits(n / 10)[i]);
        assert(n == (n / 10) * 10 + n % 10) by (nonlinear_arith);
        assert(digits_value(s) == n);
        assert(all_digits(s)) by {
            assert(forall|i: int| 0 <= i < s.len() - 1 ==> is_digit_char(#[trigger] s[i]));
            assert(is_digit_char(s.last()));
        }
    }
}

/// A rendered `unnamed_<n>` name parses back to `n`.
pub proof fn lemma_parse_unnamed_roundtrip(n: nat)
    requires
        n <= usize::MAX,
    ensures
        parse_unnamed(unnamed_name(n)) == Some(n),
{
    lemma_dec_digits_wf(n);
    let name = unnamed_name(n);
    let p = unnamed_prefix();
    assert(p =~= name.take(p.len() as int));
    assert(name.skip(p.len() as int) =~= dec_digits(n));
}

/// The largest integer named by an `unnamed_<integer>` child; zero when
/// there is none.
pub open spec fn max_unnamed(names: Seq<Seq<char>>) -> nat
    decreases names.len(),
{
    if names.len() == 0 {
        0
    } else {
        let rest = max_unnamed(names.drop_last());
        match parse_unnamed(names.last()) {
            Some(v) => if v > rest {
                v
            } else {
                rest
            },
            None => rest,
        }
    }
}

/// Every `unnamed_<integer>` child is bounded by the scan's maximum.
pub proof fn lemma_max_unnamed_bound(names: Seq<Seq<char>>, i: int)
    requires
        0 <= i < names.len(),
        parse_unnamed(names[i]) is Some,
    ensures
        parse_unnamed(names[i]).unwrap() <= max_unnamed(names),
    decreases names.len(),
{
    if i == names.len() - 1 {
        assert(names.last() == names[i]);
    } else {
        lemma_max_unnamed_bound(names.drop_last(), i);
        assert(names.drop_last()[i] == names[i]);
    }
}

/// Allocates a fresh name: `unnamed_<m + 1>` where `m` is the largest
/// integer any existing `unnamed_<integer>` child names (zero if none).
/// The result never collides with an existing child, so no re-probing is
/// needed: the candidate would otherwise have parsed to a value above the
/// maximum.
pub fn new_name(children: &Vec<String>) -> (r: String)
    requires
        max_unnamed(children.deep_view()) < usize::MAX,
    ensures
        r@ == unnamed_name(max_unnamed(children.deep_view()) + 1),
        forall|i: int| 0 <= i < children.len() ==> children.deep_view()[i] != r@,
{
    let ghost views = children.deep_view();
    let mut m: usize = 0;
    let mut i: usize = 0;
    while i < children.len()
        invariant
            0 <= i <= children.len(),
            views == children.deep_view(),
            m == max_unnamed(views.take(i as int)),
            max_unnamed(views) < usize::MAX,
        decreases children.len() - i,
    {
        proof {
            assert(views[i as int] == children@[i as int]@);
            assert(views.take(i + 1).drop_last() =~= views.take(i as int));
            assert(views.take(i + 1).last() == views[i as int]);
        }
        match parse_unnamed_name(&children[i]) {
            Some(v) => {
                if v > m {
                    m = v;
                }
            },
            None => {},
        }
        i += 1;
    }
    proof {
        assert(views.take(children@.len() as int) =~= views);
        lemma_parse_unnamed_roundtrip((m + 1) as nat);
    }
    let r = render_unnamed(m + 1);
    proof {
        assert forall|j: int| 0 <= j < children.len() implies views[j] != r@ by {
            if views[j] == r@ {
                lemma_max_unnamed_bound(views, j);
            }
        }
    }
    r
}

} // verus!
