//! References to other Kubernetes objects, and the group/version
//! resolution rules applied before such a reference can be looked up.

use vstd::prelude::*;
use vstd::string::{StrSliceExecFns, StringExecFns};
use crate::condition::opt_string_view;

verus! {

/// Why a reference cannot be resolved.
#[derive(Clone, Copy, Debug, PartialEq, Eq, Structural)]
pub enum KRefErr {
    /// The apiVersion is incomplete or the group does not exist.
    MalformedGVK,
    /// The reference must be namespaced.
    MustBeNamespaced,
}

/// KReference contains enough information to refer to another object: a
/// trimmed down version of a core object reference.
#[derive(Clone, Debug)]
pub struct KReference {
    /// Kind of the referent.
    pub kind: String,
    /// Namespace of the referent; defaulted to the object holding it if
    /// left out.
    pub namespace: Option<String>,
    /// Name of the referent.
    pub name: String,
    /// API version of the referent, either `version` or `group/version`.
    pub api_version: Option<String>,
    /// Group of the API without its version, as an alternative to putting
    /// the group inside `api_version`.
    pub group: Option<String>,
}

/// Whether `s` contains the character `c`.
pub open spec fn contains_char(s: Seq<char>, c: char) -> bool {
    exists|i: int| 0 <= i < s.len() && s[i] == c
}

/// The first position of `c` in `s` (meaningful when `contains_char`
/// holds).
pub open spec fn first_index(s: Seq<char>, c: char) -> int {
    choose|i: int|
        0 <= i < s.len() && s[i] == c && (forall|k: int| 0 <= k < i ==> s[k] != c)
}

/// How a group and version are read off a reference: an explicit group
/// accompanies the api version unchanged; with no explicit group, an api
/// version of the shape `group/version` is split at its slashes into its
/// first two segments; anything else is malformed.
pub open spec fn spec_group_version(
    group: Option<Seq<char>>,
    api_version: Option<Seq<char>>,
) -> Option<(Seq<char>, Seq<char>)> {
    match (group, api_version) {
        (Option::Some(g), Option::Some(v)) => Option::Some((g, v)),
        (Option::None, Option::Some(av)) => if contains_char(av, '/') {
            let i = first_index(av, '/');
            let rest = av.subrange(i + 1, av.len() as int);
            let second = if contains_char(rest, '/') {
                rest.subrange(0, first_index(rest, '/'))
            } else {
                rest
            };
            Option::Some((av.subrange(0, i), second))
        } else {
            Option::None
        },
        _ => Option::None,
    }
}

/// The api version under which a reference is addressed: an api version
/// already carrying its group (a slash) is kept; otherwise an explicit
/// group is joined in front of it; a reference without api version has
/// none.
pub open spec fn spec_qualified_api_version(
    api_version: Option<Seq<char>>,
    group: Option<Seq<char>>,
) -> Option<Seq<char>> {
    match api_version {
        Option::Some(v) => if contains_char(v, '/') {
            Option::Some(v)
        } else {
            match group {
                Option::Some(g) => Option::Some(g + "/"@ + v),
                Option::None => Option::Some(v),
            }
        },
        Option::None => Option::None,
    }
}

/// The first position of `c` in `s` at or after `from`.
fn find_char_from(s: &str, c: char, from: usize) -> (r: Option<usize>)
    requires
        from <= s@.len(),
    ensures
        match r {
            Option::Some(i) => {
                &&& from <= i < s@.len()
                &&& s@[i as int] == c
                &&& forall|k: int| from <= k < i ==> s@[k] != c
            },
            Option::None => forall|k: int| from <= k < s@.len() ==> s@[k] != c,
        },
{
    let len = s.unicode_len();
    let mut i: usize = from;
    while i < len
        invariant
            from <= i <= len,
            len == s@.len(),
            forall|k: int| from <= k < i ==> s@[k] != c,
        decreases len - i,
    {
        if s.get_char(i) == c {
            return Some(i);
        }
        i = i + 1;
    }
    None
}

impl KReference {
    /// The group and version under which the referent is found.  A
    /// reference without namespace cannot be resolved at all; one whose
    /// group and api version do not determine a group/version pair is
    /// malformed.
    pub fn group_version(&self) -> (r: Result<(String, String), KRefErr>)
        ensures
            match r {
                Result::Ok(gv) => self.namespace is Some && spec_group_version(
                    opt_string_view(self.group),
                    opt_string_view(self.api_version),
                ) == Option::Some((gv.0@, gv.1@)),
                Result::Err(e) => match e {
                    KRefErr::MustBeNamespaced => self.namespace is None,
                    KRefErr::MalformedGVK => self.namespace is Some && spec_group_version(
                        opt_string_view(self.group),
                        opt_string_view(self.api_version),
                    ) is None,
                },
            },
    {
        if self.namespace.is_none() {
            return Err(KRefErr::MustBeNamespaced);
        }
        match (&self.group, &self.api_version) {
            (Some(group), Some(api_version)) => Ok((group.clone(), api_version.clone())),
            (None, Some(api_version)) => {
                let av = api_version.as_str();
                let len = av.unicode_len();
                match find_char_from(av, '/', 0) {
                    Some(i) => {
                        proof {
                            assert(contains_char(av@, '/'));
                            assert(first_index(av@, '/') == i as int);
                        }
                        let first = av.substring_char(0, i);
                        let rest_start = i + 1;
                        let ghost rest = av@.subrange(i + 1, av@.len() as int);
                        let second_end: usize = match find_char_from(av, '/', rest_start) {
                            Some(j) => {
                                proof {
                                    assert(rest[j - (i + 1)] == '/');
                                    assert(contains_char(rest, '/'));
                                    assert(forall|k: int|
                                        0 <= k < j - (i + 1) ==> rest[k] == av@[k + i + 1]);
                                    assert(first_index(rest, '/') == j - (i + 1));
                                }
                                j
                            }
                            None => {
                                proof {
                                    assert(forall|k: int|
                                        0 <= k < rest.len() ==> rest[k] == av@[k + i + 1]);
                                    assert(!contains_char(rest, '/'));
                                }
                                len
                            }
                        };
                        let second = av.substring_char(rest_start, second_end);
                        proof {
                            assert(second@ =~= rest.subrange(
                                0,
                                second_end - (i + 1),
                            ));
                            if contains_char(rest, '/') {
                            } else {
                                assert(second@ =~= rest);
                            }
                        }
                        Ok((String::from_str(first), String::from_str(second)))
                    }
                    None => Err(KRefErr::MalformedGVK),
                }
            }
            _ => Err(KRefErr::MalformedGVK),
        }
    }

    /// The reference's api version with its group folded in, as used when
    /// the reference becomes a destination.
    pub fn qualified_api_version(&self) -> (r: Option<String>)
        ensures
            opt_string_view(r) == spec_qualified_api_version(
                opt_string_view(self.api_version),
                opt_string_view(self.group),
            ),
    {
        match &self.api_version {
            Some(api_version) => {
                let has_slash = find_char_from(api_version.as_str(), '/', 0).is_some();
                proof {
                    assert(has_slash == contains_char(api_version@, '/'));
                }
                if has_slash {
                    Some(api_version.clone())
                } else {
                    match &self.group {
                        Some(group) => {
                            let mut joined = group.clone();
                            joined.append("/");
                            joined.append(api_version.as_str());
                            Some(joined)
                        }
                        None => Some(api_version.clone()),
                    }
                }
            }
            None => None,
        }
    }
}

} // verus!
