//! The glob filter: which paths a run takes.
//!
//! A path is taken when it matches some pattern of the list of wanted
//! paths, where that list is given, and none of the list of unwanted ones.
//! The patterns are compiled and matched by the `globset` crate.

use vstd::prelude::*;
use crate::error::Error;
use crate::text::concat;

verus! {

/// `globset::GlobSet`: a set of compiled glob patterns. What it holds is
/// known only through `glob_set_patterns`.
#[verifier::external_type_specification]
#[verifier::external_body]
pub struct ExGlobSet(globset::GlobSet);

/// The glob patterns that a set was built from, in order.
pub uninterp spec fn glob_set_patterns(set: globset::GlobSet) -> Seq<Seq<char>>;

/// With what message `globset::Glob::new` refuses the pattern, if it does.
pub uninterp spec fn glob_error(pattern: Seq<char>) -> Option<Seq<char>>;

/// With what message `globset::GlobSetBuilder::build` fails to build a set
/// of these patterns, each of which is accepted as a glob, if it does.
pub uninterp spec fn glob_set_error(patterns: Seq<Seq<char>>) -> Option<Seq<char>>;

/// Whether the glob pattern matches the path: what
/// `globset::GlobSet::is_match` finds of each pattern of its set.
pub uninterp spec fn glob_matches(pattern: Seq<char>, path: Seq<char>) -> bool;

/// The texts as sequences of characters.
pub open spec fn texts(patterns: Seq<String>) -> Seq<Seq<char>> {
    Seq::new(patterns.len(), |i: int| patterns[i]@)
}

/// Some pattern of the set matches the path.
pub open spec fn any_glob_matches(patterns: Seq<Seq<char>>, path: Seq<char>) -> bool {
    exists|i: int| 0 <= i < patterns.len() && glob_matches(#[trigger] patterns[i], path)
}

/// `globset::Glob::new`, asked only for its error: the displayed text of
/// the error with which the pattern is refused, if it is.
#[verifier::external_body]
pub(crate) fn glob_check(pattern: &str) -> (r: Option<String>)
    ensures
        r is Some == glob_error(pattern@) is Some,
        r matches Some(message) ==> Some(message@) == glob_error(pattern@),
{
    globset::Glob::new(pattern).err().map(|e| e.to_string())
}

/// `globset::GlobSetBuilder::build` on the given patterns, added in order.
/// The set that is built holds these patterns; where none is built, the
/// result is the displayed text of the error.
#[verifier::external_body]
pub(crate) fn build_glob_set(patterns: &Vec<String>) -> (r: Result<globset::GlobSet, String>)
    requires
        forall|i: int| 0 <= i < patterns@.len() ==> glob_error(#[trigger] patterns@[i]@) is None,
    ensures
        r is Err == glob_set_error(texts(patterns@)) is Some,
        r matches Err(message) ==> Some(message@) == glob_set_error(texts(patterns@)),
        r matches Ok(set) ==> glob_set_patterns(set) == texts(patterns@),
{
    let mut builder = globset::GlobSetBuilder::new();
    for pattern in patterns {
        builder.add(globset::Glob::new(pattern).unwrap());
    }
    builder.build().map_err(|e| e.to_string())
}

/// `globset::GlobSet::is_match`: whether any glob of the set matches the path.
#[verifier::external_body]
pub(crate) fn glob_set_is_match(set: &globset::GlobSet, path: &str) -> (r: bool)
    ensures
        r == (exists|i: int|
            0 <= i < glob_set_patterns(*set).len() && glob_matches(
                #[trigger] glob_set_patterns(*set)[i],
                path@,
            )),
{
    set.is_match(path)
}

/// The index of the first pattern that is refused; the number of patterns
/// where none is.
pub open spec fn first_refused(patterns: Seq<Seq<char>>) -> int
    decreases patterns.len(),
{
    if patterns.len() == 0 {
        0
    } else {
        let before = first_refused(patterns.drop_last());
        if before < patterns.len() - 1 {
            before
        } else if glob_error(patterns.last()) is Some {
            patterns.len() - 1
        } else {
            patterns.len() as int
        }
    }
}

pub proof fn lemma_first_refused(patterns: Seq<Seq<char>>)
    ensures
        0 <= first_refused(patterns) <= patterns.len(),
        forall|i: int| 0 <= i < first_refused(patterns) ==> glob_error(#[trigger] patterns[i]) is None,
        first_refused(patterns) < patterns.len() ==> glob_error(
            patterns[first_refused(patterns)],
        ) is Some,
    decreases patterns.len(),
{
    if patterns.len() > 0 {
        lemma_first_refused(patterns.drop_last());
        assert forall|i: int| 0 <= i < first_refused(patterns) implies glob_error(
            #[trigger] patterns[i],
        ) is None by {
            if i < patterns.len() - 1 {
                assert(patterns.drop_last()[i] == patterns[i]);
            }
        }
    }
}

/// The set of the given glob patterns.
pub fn compile_globs(patterns: &Vec<String>) -> (r: Result<globset::GlobSet, Error>)
    ensures
        match glob_set_failure_of(texts(patterns@)) {
            Some(message) => r matches Err(Error::Validation(m)) && m@ == message,
            None => r matches Ok(set) && glob_set_patterns(set) == texts(patterns@),
        },
{
    let ghost all = texts(patterns@);
    let mut i: usize = 0;
    while i < patterns.len()
        invariant
            i <= patterns@.len(),
            all == texts(patterns@),
            forall|k: int| 0 <= k < i ==> glob_error(#[trigger] patterns@[k]@) is None,
        decreases patterns.len() - i,
    {
        match glob_check(patterns[i].as_str()) {
            Some(message) => {
                let mut text = concat("Invalid glob '", patterns[i].as_str());
                text.append("': ");
                text.append(message.as_str());
                proof {
                    lemma_first_refused(all);
                    let f = first_refused(all);
                    assert(all[i as int] == patterns@[i as int]@);
                    if f < i {
                        assert(all[f] == patterns@[f]@);
                    }
                    if f > i {
                        assert(glob_error(all[i as int]) is None);
                    }
                    assert(f == i);
                }
                return Err(Error::Validation(text));
            },
            None => {},
        }
        i = i + 1;
    }
    proof {
        lemma_first_refused(all);
        let f = first_refused(all);
        if f < all.len() {
            assert(all[f] == patterns@[f]@);
        }
    }
    match build_glob_set(patterns) {
        Ok(set) => Ok(set),
        Err(message) => Err(Error::Validation(concat("Failed to build glob set: ", message.as_str()))),
    }
}

/// With what message no set of the patterns is built, if none is: that of
/// the first pattern that is refused, else that of the failure to build.
pub open spec fn glob_set_failure_of(patterns: Seq<Seq<char>>) -> Option<Seq<char>> {
    if first_refused(patterns) < patterns.len() {
        let p = patterns[first_refused(patterns)];
        Some("Invalid glob '"@ + p + "': "@ + glob_error(p)->0)
    } else {
        match glob_set_error(patterns) {
            Some(message) => Some("Failed to build glob set: "@ + message),
            None => None,
        }
    }
}

/// The sets of wanted and of unwanted paths of a run; an absent list sets
/// no filter.
pub struct GlobFilter {
    pub includes: Option<globset::GlobSet>,
    pub excludes: Option<globset::GlobSet>,
}

impl GlobFilter {
    /// Whether the filter was built from these pattern lists.
    pub open spec fn built_from(
        self,
        includes: Option<Vec<String>>,
        excludes: Option<Vec<String>>,
    ) -> bool {
        &&& match includes {
            Some(p) => self.includes matches Some(set) && glob_set_patterns(set) == texts(p@),
            None => self.includes is None,
        }
        &&& match excludes {
            Some(p) => self.excludes matches Some(set) && glob_set_patterns(set) == texts(p@),
            None => self.excludes is None,
        }
    }

    /// Whether a path in its normalized form is taken: it matches some
    /// wanted pattern, where there is such a set, and no unwanted one.
    pub open spec fn selects(self, path: Seq<char>) -> bool {
        &&& self.includes matches Some(set) ==> any_glob_matches(glob_set_patterns(set), path)
        &&& self.excludes matches Some(set) ==> !any_glob_matches(glob_set_patterns(set), path)
    }

    /// Whether the path, given in its normalized form, is taken.
    pub fn is_selected(&self, path: &str) -> (r: bool)
        ensures
            r == self.selects(path@),
    {
        if let Some(set) = &self.includes {
            if !glob_set_is_match(set, path) {
                return false;
            }
        }
        if let Some(set) = &self.excludes {
            if glob_set_is_match(set, path) {
                return false;
            }
        }
        true
    }
}

/// With what message no filter is built from the lists, if none is: that of
/// the list of wanted paths first.
pub open spec fn filter_failure(
    includes: Option<Vec<String>>,
    excludes: Option<Vec<String>>,
) -> Option<Seq<char>> {
    let first = match includes {
        Some(p) => glob_set_failure_of(texts(p@)),
        None => None,
    };
    if first is Some {
        first
    } else {
        match excludes {
            Some(p) => glob_set_failure_of(texts(p@)),
            None => None,
        }
    }
}

/// The sets of wanted and of unwanted paths for the given pattern lists.
pub fn build_glob_sets(includes: &Option<Vec<String>>, excludes: &Option<Vec<String>>) -> (r: Result<
    GlobFilter,
    Error,
>)
    ensures
        match filter_failure(*includes, *excludes) {
            Some(message) => r matches Err(Error::Validation(m)) && m@ == message,
            None => r matches Ok(filter) && filter.built_from(*includes, *excludes),
        },
{
    let wanted_set = match includes {
        Some(patterns) => match compile_globs(patterns) {
            Ok(set) => Some(set),
            Err(e) => {
                return Err(e);
            },
        },
        None => None,
    };
    let unwanted_set = match excludes {
        Some(patterns) => match compile_globs(patterns) {
            Ok(set) => Some(set),
            Err(e) => {
                return Err(e);
            },
        },
        None => None,
    };
    Ok(GlobFilter { includes: wanted_set, excludes: unwanted_set })
}

} // verus!
