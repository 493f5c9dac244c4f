//! Rules on relative paths written with `/` separators.
//!
//! A path is read as a sequence of segments between separators; empty
//! segments are ignored, and a lone `.` segment counts as a component only
//! at the very start of the path (as the current directory).

use vstd::prelude::*;
use vstd::string::*;

verus! {

/// A segment begins at `i`.
pub open spec fn seg_start(p: Seq<char>, i: int) -> bool {
    0 <= i < p.len() && p[i] != '/' && (i == 0 || p[i - 1] == '/')
}

/// End (exclusive) of the segment that contains position `i`.
pub open spec fn seg_end(p: Seq<char>, i: int) -> int
    decreases p.len() - i,
{
    if i < 0 || i >= p.len() || p[i] == '/' {
        i
    } else {
        seg_end(p, i + 1)
    }
}

/// The segment starting at `i` is exactly `.`.
pub open spec fn is_dot_seg(p: Seq<char>, i: int) -> bool {
    0 <= i < p.len() && p[i] == '.' && (i + 1 == p.len() || p[i + 1] == '/')
}

/// The segment starting at `i` is exactly `..`.
pub open spec fn is_dotdot_seg(p: Seq<char>, i: int) -> bool {
    0 <= i && i + 1 < p.len() && p[i] == '.' && p[i + 1] == '.' && (i + 2 == p.len() || p[i
        + 2] == '/')
}

/// Some component of the path begins with a dot.
pub open spec fn hidden_path(p: Seq<char>) -> bool {
    exists|i: int|
        #![trigger p[i]]
        seg_start(p, i) && p[i] == '.' && (i == 0 || (i + 1 < p.len() && p[i + 1] != '/'))
}

/// A segment at `i` that is a component of the path (a `.` counts only first).
pub open spec fn is_component(p: Seq<char>, i: int) -> bool {
    seg_start(p, i) && !(i > 0 && is_dot_seg(p, i))
}

/// Start of the last component that begins before `k`.
pub open spec fn last_component_before(p: Seq<char>, k: int) -> Option<int>
    decreases k,
{
    if k <= 0 {
        None
    } else if is_component(p, k - 1) {
        Some(k - 1)
    } else {
        last_component_before(p, k - 1)
    }
}

/// The last component is missing, or is `.`/`..`, or is a name starting with a dot.
pub open spec fn file_hidden(p: Seq<char>) -> bool {
    match last_component_before(p, p.len() as int) {
        None => true,
        Some(i) => p[i] == '.',
    }
}

/// A segment that is a plain name (neither `.` nor `..`).
pub open spec fn is_normal(p: Seq<char>, i: int) -> bool {
    seg_start(p, i) && !is_dot_seg(p, i) && !is_dotdot_seg(p, i)
}

/// Start of the first plain name at or after `k`.
pub open spec fn first_normal_from(p: Seq<char>, k: int) -> Option<int>
    decreases p.len() - k,
{
    if k < 0 || k >= p.len() {
        None
    } else if is_normal(p, k) {
        Some(k)
    } else {
        first_normal_from(p, k + 1)
    }
}

/// The first plain name of the path.
pub open spec fn root_folder_of(p: Seq<char>) -> Option<Seq<char>> {
    match first_normal_from(p, 0) {
        Some(i) => Some(p.subrange(i, seg_end(p, i))),
        None => None,
    }
}

proof fn lemma_seg_end_bounds(p: Seq<char>, i: int)
    requires
        0 <= i <= p.len(),
    ensures
        i <= seg_end(p, i) <= p.len(),
        seg_end(p, i) == p.len() || p[seg_end(p, i)] == '/',
        forall|j: int| i <= j < seg_end(p, i) ==> p[j] != '/',
    decreases p.len() - i,
{
    if i < p.len() && p[i] != '/' {
        lemma_seg_end_bounds(p, i + 1);
    }
}

/// Index just past the segment that contains position `i`.
fn segment_end(p: &str, i: usize, len: usize) -> (r: usize)
    requires
        len == p@.len(),
        i <= len,
    ensures
        r == seg_end(p@, i as int),
        i <= r <= len,
{
    let mut j = i;
    while j < len && p.get_char(j) != '/'
        invariant
            i <= j <= len,
            len == p@.len(),
            seg_end(p@, j as int) == seg_end(p@, i as int),
        decreases len - j,
    {
        j = j + 1;
    }
    proof {
        lemma_seg_end_bounds(p@, i as int);
    }
    j
}

/// Whether any component of `path` begins with a dot.
pub fn is_hidden(path: &str) -> (r: bool)
    ensures
        r == hidden_path(path@),
{
    let len = path.unicode_len();
    let mut i: usize = 0;
    while i < len
        invariant
            i <= len,
            len == path@.len(),
            forall|k: int|
                #![trigger path@[k]]
                0 <= k < i ==> !(seg_start(path@, k) && path@[k] == '.' && (k == 0 || (k + 1
                    < path@.len() && path@[k + 1] != '/'))),
        decreases len - i,
    {
        let c = path.get_char(i);
        if c == '.' && (i == 0 || path.get_char(i - 1) == '/') {
            if i == 0 || (i + 1 < len && path.get_char(i + 1) != '/') {
                assert(seg_start(path@, i as int));
                return true;
            }
        }
        i = i + 1;
    }
    false
}

/// Whether the last component of `path` is missing or begins with a dot.
pub fn is_file_hidden(path: &str) -> (r: bool)
    ensures
        r == file_hidden(path@),
{
    let len = path.unicode_len();
    let mut k: usize = len;
    while k > 0
        invariant
            k <= len,
            len == path@.len(),
            last_component_before(path@, len as int) == last_component_before(path@, k as int),
        decreases k,
    {
        let i = k - 1;
        let c = path.get_char(i);
        let starts = c != '/' && (i == 0 || path.get_char(i - 1) == '/');
        let dot = c == '.' && (i + 1 == len || path.get_char(i + 1) == '/');
        if starts && !(i > 0 && dot) {
            assert(is_component(path@, i as int));
            return c == '.';
        }
        assert(!is_component(path@, i as int));
        k = i;
    }
    true
}

/// The first plain-name component of `path`.
pub fn root_folder(path: &str) -> (r: Option<String>)
    ensures
        match r {
            Some(s) => root_folder_of(path@) == Some(s@),
            None => root_folder_of(path@) is None,
        },
{
    let len = path.unicode_len();
    let mut k: usize = 0;
    while k < len
        invariant
            k <= len,
            len == path@.len(),
            first_normal_from(path@, 0) == first_normal_from(path@, k as int),
        decreases len - k,
    {
        let c = path.get_char(k);
        let starts = c != '/' && (k == 0 || path.get_char(k - 1) == '/');
        let dot = c == '.' && (k + 1 == len || path.get_char(k + 1) == '/');
        let dotdot = c == '.' && k + 1 < len && path.get_char(k + 1) == '.' && (k + 2 == len
            || path.get_char(k + 2) == '/');
        if starts && !dot && !dotdot {
            assert(is_normal(path@, k as int));
            let e = segment_end(path, k, len);
            return Some(path.substring_char(k, e).to_string());
        }
        assert(!is_normal(path@, k as int));
        k = k + 1;
    }
    None
}

/// Index of the last separator before `k`, or -1.
pub open spec fn last_slash_before(p: Seq<char>, k: int) -> int
    decreases k,
{
    if k <= 0 {
        -1
    } else if p[k - 1] == '/' {
        k - 1
    } else {
        last_slash_before(p, k - 1)
    }
}

/// The folder part of a relative path: everything before its last separator.
pub open spec fn parent_of(p: Seq<char>) -> Seq<char> {
    let k = last_slash_before(p, p.len() as int);
    if k < 0 {
        Seq::empty()
    } else {
        p.subrange(0, k)
    }
}

/// `p` lies strictly inside folder `f`.
pub open spec fn under(f: Seq<char>, p: Seq<char>) -> bool {
    p.len() > f.len() && p.subrange(0, f.len() as int) == f && p[f.len() as int] == '/'
}

proof fn lemma_last_slash_bounds(p: Seq<char>, k: int)
    requires
        0 <= k <= p.len(),
    ensures
        -1 <= last_slash_before(p, k) < k,
    decreases k,
{
    if k > 0 && p[k - 1] != '/' {
        lemma_last_slash_bounds(p, k - 1);
    }
}

/// The folder part of `path` (empty for a path without a separator).
pub fn parent_folder(path: &str) -> (r: String)
    ensures
        r@ == parent_of(path@),
{
    let len = path.unicode_len();
    let mut k: usize = len;
    while k > 0 && path.get_char(k - 1) != '/'
        invariant
            k <= len,
            len == path@.len(),
            last_slash_before(path@, len as int) == last_slash_before(path@, k as int),
        decreases k,
    {
        k = k - 1;
    }
    if k == 0 {
        String::new()
    } else {
        path.substring_char(0, k - 1).to_string()
    }
}

/// Whether `path` lies strictly inside `folder`.
pub fn is_under(folder: &str, path: &str) -> (r: bool)
    ensures
        r == under(folder@, path@),
{
    let fl = folder.unicode_len();
    let pl = path.unicode_len();
    if pl <= fl {
        return false;
    }
    let mut i: usize = 0;
    while i < fl
        invariant
            i <= fl < pl,
            fl == folder@.len(),
            pl == path@.len(),
            forall|j: int| 0 <= j < i ==> path@[j] == folder@[j],
        decreases fl - i,
    {
        if path.get_char(i) != folder.get_char(i) {
            assert(path@.subrange(0, fl as int)[i as int] != folder@[i as int]);
            return false;
        }
        i = i + 1;
    }
    assert(path@.subrange(0, fl as int) =~= folder@);
    path.get_char(fl) == '/'
}

/// Index of the last dot in `p[lo..k]`, or -1.
pub open spec fn last_dot_between(p: Seq<char>, lo: int, k: int) -> int
    decreases k - lo,
{
    if k <= lo {
        -1
    } else if p[k - 1] == '.' {
        k - 1
    } else {
        last_dot_between(p, lo, k - 1)
    }
}

/// Start of the file name: just after the last separator.
pub open spec fn name_start(p: Seq<char>) -> int {
    last_slash_before(p, p.len() as int) + 1
}

/// The file name: everything after the last separator.
pub open spec fn file_name_of(p: Seq<char>) -> Seq<char> {
    p.subrange(name_start(p), p.len() as int)
}

/// The path with its extension set to `html`: a dot inside the file name
/// (not its first character) starts the extension that is replaced; without
/// one, `.html` is added.
pub open spec fn with_html_ext(p: Seq<char>) -> Seq<char> {
    let st = name_start(p);
    let d = last_dot_between(p, st, p.len() as int);
    if d > st {
        p.subrange(0, d) + ".html"@
    } else {
        p + ".html"@
    }
}

/// The text without its trailing separators.
pub open spec fn trim_end_slashes(p: Seq<char>) -> Seq<char>
    decreases p.len(),
{
    if p.len() > 0 && p.last() == '/' {
        trim_end_slashes(p.drop_last())
    } else {
        p
    }
}

proof fn lemma_last_dot_bounds(p: Seq<char>, lo: int, k: int)
    requires
        0 <= lo <= k <= p.len(),
    ensures
        last_dot_between(p, lo, k) == -1 || lo <= last_dot_between(p, lo, k) < k,
    decreases k - lo,
{
    if k > lo && p[k - 1] != '.' {
        lemma_last_dot_bounds(p, lo, k - 1);
    }
}

/// Start of the file name of `path`.
fn name_start_exec(path: &str, len: usize) -> (r: usize)
    requires
        len == path@.len(),
    ensures
        r as int == name_start(path@),
        r <= len,
{
    let mut k: usize = len;
    while k > 0 && path.get_char(k - 1) != '/'
        invariant
            k <= len,
            len == path@.len(),
            last_slash_before(path@, len as int) == last_slash_before(path@, k as int),
        decreases k,
    {
        k = k - 1;
    }
    proof {
        lemma_last_slash_bounds(path@, len as int);
    }
    k
}

/// The file name of `path`.
pub fn file_name(path: &str) -> (r: String)
    ensures
        r@ == file_name_of(path@),
{
    let len = path.unicode_len();
    let st = name_start_exec(path, len);
    path.substring_char(st, len).to_string()
}

/// `path` with its extension set to `html`.
pub fn with_html_extension(path: &str) -> (r: String)
    ensures
        r@ == with_html_ext(path@),
{
    let len = path.unicode_len();
    let st = name_start_exec(path, len);
    let mut k: usize = len;
    while k > st && path.get_char(k - 1) != '.'
        invariant
            st <= k <= len,
            len == path@.len(),
            st as int == name_start(path@),
            last_dot_between(path@, st as int, len as int) == last_dot_between(path@, st as int, k as int),
        decreases k,
    {
        k = k - 1;
    }
    let mut r: String;
    if k > st && k - 1 > st {
        r = path.substring_char(0, k - 1).to_string();
    } else {
        r = path.to_string();
    }
    r.append(".html");
    r
}

/// `path` without trailing separators.
pub fn trim_trailing_slashes(path: &str) -> (r: String)
    ensures
        r@ == trim_end_slashes(path@),
{
    let len = path.unicode_len();
    let mut k: usize = len;
    assert(path@.subrange(0, len as int) =~= path@);
    while k > 0 && path.get_char(k - 1) == '/'
        invariant
            k <= len,
            len == path@.len(),
            trim_end_slashes(path@) == trim_end_slashes(path@.subrange(0, k as int)),
        decreases k,
    {
        assert(path@.subrange(0, k as int).drop_last() =~= path@.subrange(0, k - 1));
        k = k - 1;
    }
    path.substring_char(0, k).to_string()
}

} // verus!
