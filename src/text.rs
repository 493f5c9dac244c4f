//! Searching and replacing in text.

use vstd::prelude::*;
use vstd::string::*;

verus! {

/// `pat` occurs in `s` at `k`.
pub open spec fn occurs_at(s: Seq<char>, pat: Seq<char>, k: int) -> bool {
    0 <= k && k + pat.len() <= s.len() && s.subrange(k, k + pat.len()) == pat
}

/// The first occurrence of `pat` in `s` at or after `k`.
pub open spec fn find_from(s: Seq<char>, pat: Seq<char>, k: int) -> Option<int>
    decreases s.len() + 1 - k,
{
    if k < 0 || k + pat.len() > s.len() {
        None
    } else if occurs_at(s, pat, k) {
        Some(k)
    } else {
        find_from(s, pat, k + 1)
    }
}

/// `s` from `k` on, with every occurrence of `pat` (left to right, not
/// overlapping) replaced by `rep`.
pub open spec fn replace_from(s: Seq<char>, pat: Seq<char>, rep: Seq<char>, k: int) -> Seq<char>
    recommends
        pat.len() > 0,
    decreases s.len() - k,
{
    if pat.len() == 0 || k < 0 || k > s.len() {
        Seq::empty()
    } else {
        match find_from(s, pat, k) {
            None => s.subrange(k, s.len() as int),
            Some(j) => if k <= j && j + pat.len() <= s.len() {
                s.subrange(k, j) + rep + replace_from(s, pat, rep, j + pat.len())
            } else {
                Seq::empty()
            },
        }
    }
}

/// `s` with every occurrence of `pat` replaced by `rep`.
pub open spec fn replace_all(s: Seq<char>, pat: Seq<char>, rep: Seq<char>) -> Seq<char> {
    replace_from(s, pat, rep, 0)
}

/// `s` ends with `suffix`.
pub open spec fn ends_with(s: Seq<char>, suffix: Seq<char>) -> bool {
    suffix.len() <= s.len() && s.subrange(s.len() - suffix.len(), s.len() as int) == suffix
}

pub proof fn lemma_find_from_bounds(s: Seq<char>, pat: Seq<char>, k: int)
    requires
        0 <= k,
    ensures
        find_from(s, pat, k) matches Some(j) ==> k <= j && occurs_at(s, pat, j),
        forall|j: int|
            k <= j < (match find_from(s, pat, k) {
                Some(f) => f,
                None => s.len() as int + 1,
            }) ==> !#[trigger] occurs_at(s, pat, j),
    decreases s.len() + 1 - k,
{
    if !(k < 0 || k + pat.len() > s.len()) && !occurs_at(s, pat, k) {
        lemma_find_from_bounds(s, pat, k + 1);
    }
}

/// Whether `pat` occurs in `s` at `k`.
pub fn occurs_at_exec(s: &str, pat: &str, k: usize) -> (r: bool)
    ensures
        r == occurs_at(s@, pat@, k as int),
{
    let sl = s.unicode_len();
    let pl = pat.unicode_len();
    if pl > sl || k > sl - pl {
        return false;
    }
    let mut i: usize = 0;
    while i < pl
        invariant
            i <= pl,
            pl == pat@.len(),
            sl == s@.len(),
            k + pl <= sl,
            forall|j: int| 0 <= j < i ==> s@[k + j] == pat@[j],
        decreases pl - i,
    {
        if s.get_char(k + i) != pat.get_char(i) {
            assert(s@.subrange(k as int, k + pl)[i as int] != pat@[i as int]);
            return false;
        }
        i = i + 1;
    }
    assert(s@.subrange(k as int, k + pl) =~= pat@);
    true
}

/// The first occurrence of `pat` in `s` at or after `k`.
pub fn find_from_exec(s: &str, pat: &str, k: usize) -> (r: Option<usize>)
    ensures
        match r {
            Some(j) => find_from(s@, pat@, k as int) == Some(j as int),
            None => find_from(s@, pat@, k as int) is None,
        },
{
    let sl = s.unicode_len();
    let pl = pat.unicode_len();
    if pl == 0 {
        if k <= sl {
            assert(occurs_at(s@, pat@, k as int)) by {
                assert(s@.subrange(k as int, k as int) =~= pat@);
            }
            return Some(k);
        }
        return None;
    }
    let mut j: usize = k;
    while pl <= sl && j <= sl - pl
        invariant
            k <= j,
            sl == s@.len(),
            pl == pat@.len(),
            pl > 0,
            find_from(s@, pat@, k as int) == find_from(s@, pat@, j as int),
        decreases sl + 1 - j,
    {
        if occurs_at_exec(s, pat, j) {
            return Some(j);
        }
        j = j + 1;
    }
    None
}

/// Whether `s` ends with `suffix`.
pub fn ends_with_exec(s: &str, suffix: &str) -> (r: bool)
    ensures
        r == ends_with(s@, suffix@),
{
    let sl = s.unicode_len();
    let pl = suffix.unicode_len();
    if pl > sl {
        return false;
    }
    occurs_at_exec(s, suffix, sl - pl)
}

/// `s` with every occurrence of the non-empty `pat` replaced by `rep`.
pub fn replace_all_exec(s: &str, pat: &str, rep: &str) -> (r: String)
    requires
        pat@.len() > 0,
    ensures
        r@ == replace_all(s@, pat@, rep@),
{
    let sl = s.unicode_len();
    let pl = pat.unicode_len();
    let mut out = String::new();
    let mut k: usize = 0;
    loop
        invariant
            k <= sl,
            sl == s@.len(),
            pl == pat@.len(),
            pl > 0,
            out@ + replace_from(s@, pat@, rep@, k as int) == replace_all(s@, pat@, rep@),
        decreases sl - k,
    {
        proof {
            lemma_find_from_bounds(s@, pat@, k as int);
        }
        match find_from_exec(s, pat, k) {
            None => {
                let ghost prev = out@;
                out.append(s.substring_char(k, sl));
                assert(out@ == prev + replace_from(s@, pat@, rep@, k as int));
                return out;
            },
            Some(j) => {
                let ghost prev = out@;
                out.append(s.substring_char(k, j));
                out.append(rep);
                proof {
                    assert(out@ + replace_from(s@, pat@, rep@, j + pl) =~= prev + replace_from(
                        s@,
                        pat@,
                        rep@,
                        k as int,
                    ));
                }
                k = j + pl;
            },
        }
    }
}

} // verus!
