//! Glob filters over relative paths.

use vstd::prelude::*;
use globset::{Glob, GlobSet, GlobSetBuilder};
use crate::error::Error;

verus! {

/// Patterns at most this long (in characters) are handed to globset: below
/// it, the literal automaton that `GlobSetBuilder::build` makes (and unwraps)
/// stays far under aho-corasick's limit of 2^31 states, one per byte.
pub const MAX_GLOB_LEN: usize = 0x1000_0000;

/// Whether a glob set of this one pattern builds.
pub uninterp spec fn glob_compiles(pattern: Seq<char>) -> bool;

/// Whether the built one-pattern glob set matches the text.
pub uninterp spec fn glob_matches(pattern: Seq<char>, text: Seq<char>) -> bool;

#[verifier::external_type_specification]
#[verifier::external_body]
pub struct ExGlobSet(GlobSet);

/// The patterns a glob set was built from, in order.
pub uninterp spec fn glob_set_patterns(s: GlobSet) -> Seq<Seq<char>>;

/// Relies on `globset::Glob::new` and `globset::GlobSetBuilder::build`: the
/// set of this one pattern; both return an error, instead of panicking, on a
/// pattern that does not parse or whose matcher does not build (the regex
/// size limit).
#[verifier::external_body]
fn glob_set_of(pattern: &str) -> (r: Option<GlobSet>)
    requires
        pattern@.len() <= MAX_GLOB_LEN,
    ensures
        r is Some == glob_compiles(pattern@),
        r matches Some(set) ==> glob_set_patterns(set) == seq![pattern@],
{
    match Glob::new(pattern) {
        Ok(glob) => GlobSetBuilder::new().add(glob).build().ok(),
        Err(_) => None,
    }
}

/// Relies on `globset::GlobSet::is_match`: whether some pattern of the set
/// matches the text.
#[verifier::external_body]
fn glob_set_is_match(set: &GlobSet, text: &str) -> (r: bool)
    ensures
        r == (exists|i: int|
            0 <= i < glob_set_patterns(*set).len() && #[trigger] glob_matches(
                glob_set_patterns(*set)[i],
                text@,
            )),
{
    set.is_match(text)
}

/// A pattern the filter accepts: not too long, and its glob set builds.
pub open spec fn usable_glob(pattern: Seq<char>) -> bool {
    pattern.len() <= MAX_GLOB_LEN && glob_compiles(pattern)
}

/// Some pattern of `patterns` matches `text`.
pub open spec fn any_matches(patterns: Seq<Seq<char>>, text: Seq<char>) -> bool {
    exists|i: int| 0 <= i < patterns.len() && #[trigger] glob_matches(patterns[i], text)
}

/// A set of glob patterns; a text passes when any of them matches.
pub struct Filter {
    globs: Vec<String>,
    sets: Vec<GlobSet>,
}

impl Filter {
    #[verifier::type_invariant]
    spec fn inv(&self) -> bool {
        &&& self.sets@.len() == self.globs@.len()
    &&& forall|i: int| 0 <= i < self.globs@.len() ==> #[trigger] usable_glob(self.globs@[i]@)
    &&& forall|i: int|
        0 <= i < self.globs@.len() ==> #[trigger] glob_set_patterns(self.sets@[i])
            == seq![self.globs@[i]@]
    }

    /// The patterns of the filter.
    pub closed spec fn patterns(&self) -> Seq<Seq<char>> {
        self.globs@.map_values(|g: String| g@)
    }

    /// A filter of the given patterns; the first pattern that is longer than
    /// `MAX_GLOB_LEN` or does not compile is returned as an error.
    pub fn new(globs: &[&str]) -> (r: Result<Filter, Error>)
        ensures
            match r {
                Ok(f) => f.patterns() == globs@.map_values(|g: &str| g@) && forall|i: int|
                    0 <= i < globs@.len() ==> #[trigger] usable_glob(globs@[i]@),
                Err(Error::Glob(p)) => exists|i: int|
                    0 <= i < globs@.len() && !#[trigger] usable_glob(globs@[i]@) && p@
                        == globs@[i]@ && forall|j: int| 0 <= j < i ==> usable_glob(globs@[j]@),
                Err(_) => false,
            },
    {
        let mut list: Vec<String> = Vec::new();
        let mut sets: Vec<GlobSet> = Vec::new();
        let mut i: usize = 0;
        while i < globs.len()
            invariant
                i <= globs@.len(),
                list@.len() == i,
                sets@.len() == i,
                forall|k: int| 0 <= k < i ==> #[trigger] list@[k]@ == globs@[k]@,
                forall|k: int| 0 <= k < i ==> #[trigger] glob_set_patterns(sets@[k]) == seq![globs@[k]@],
                forall|k: int| 0 <= k < i ==> #[trigger] usable_glob(globs@[k]@),
            decreases globs@.len() - i,
        {
            let g: &str = globs[i];
            if g.unicode_len() > MAX_GLOB_LEN {
                assert(!usable_glob(globs@[i as int]@));
                return Err(Error::Glob(g.to_string()));
            }
            match glob_set_of(g) {
                Some(set) => sets.push(set),
                None => {
                    assert(!usable_glob(globs@[i as int]@));
                    return Err(Error::Glob(g.to_string()));
                },
            }
            list.push(g.to_string());
            i = i + 1;
        }
        let f = Filter { globs: list, sets };
        assert(f.patterns() =~= globs@.map_values(|g: &str| g@));
        Ok(f)
    }

    /// A filter without patterns, which matches nothing.
    pub fn empty() -> (r: Filter)
        ensures
            r.patterns().len() == 0,
    {
        let f = Filter { globs: Vec::new(), sets: Vec::new() };
        assert(f.patterns().len() == 0);
        f
    }

    /// Whether any pattern matches `text`.
    pub fn is_match(&self, text: &str) -> (r: bool)
        ensures
            r == any_matches(self.patterns(), text@),
    {
        proof {
            use_type_invariant(self);
        }
        let mut i: usize = 0;
        while i < self.globs.len()
            invariant
                i <= self.globs@.len(),
                self.sets@.len() == self.globs@.len(),
                forall|k: int|
                    0 <= k < self.globs@.len() ==> #[trigger] glob_set_patterns(self.sets@[k])
                        == seq![self.globs@[k]@],
                forall|k: int| 0 <= k < i ==> !#[trigger] glob_matches(self.patterns()[k], text@),
            decreases self.globs@.len() - i,
        {
            let m = glob_set_is_match(&self.sets[i], text);
            let ghost one = seq![self.globs@[i as int]@];
            assert(glob_set_patterns(self.sets@[i as int]) == one);
            assert(self.patterns()[i as int] == one[0]);
            if m {
                proof {
                    let j = choose|j: int|
                        0 <= j < one.len() && #[trigger] glob_matches(one[j], text@);
                    assert(glob_matches(self.patterns()[i as int], text@));
                }
                return true;
            }
            proof {
                assert(!glob_matches(one[0], text@));
            }
            i = i + 1;
        }
        false
    }
}

} // verus!
