//! First-match routing of request paths by prefix.

use vstd::prelude::*;
use crate::text::has_prefix;

verus! {

/// One routing rule: requests whose path starts with `path` go to
/// `target_url`, to be served by `target_model`.
#[derive(Debug, Clone)]
pub struct RouteRule {
    pub path: String,
    pub target_model: String,
    pub target_url: String,
}

impl RouteRule {
    /// Whether this rule applies to `path`.
    pub open spec fn applies_to(&self, path: Seq<char>) -> bool {
        self.path@.is_prefix_of(path)
    }
}

/// The index of the first rule, at or after `from`, that applies to `path`.
pub open spec fn first_match(rules: Seq<RouteRule>, path: Seq<char>, from: int) -> Option<int>
    decreases rules.len() - from,
{
    if from < 0 || from >= rules.len() {
        None
    } else if rules[from].applies_to(path) {
        Some(from)
    } else {
        first_match(rules, path, from + 1)
    }
}

/// An ordered rule table. Earlier rules shadow later ones.
pub struct Router {
    pub rules: Vec<RouteRule>,
}

impl Router {
    /// The rule that `path` resolves to, if any.
    pub open spec fn route_of(&self, path: Seq<char>) -> Option<RouteRule> {
        match first_match(self.rules@, path, 0) {
            Some(i) => Some(self.rules@[i]),
            None => None,
        }
    }

    /// A router over `rules`, in the order given.
    pub fn new(rules: Vec<RouteRule>) -> (r: Self)
        ensures
            r.rules == rules,
    {
        Router { rules }
    }

    /// Returns the first rule, in declaration order, whose prefix starts
    /// `path`; `None` when no rule applies.
    pub fn resolve(&self, path: &str) -> (r: Option<&RouteRule>)
        ensures
            match r {
                Some(rule) => self.route_of(path@) == Some(*rule),
                None => self.route_of(path@).is_none(),
            },
    {
        let mut i: usize = 0;
        while i < self.rules.len()
            invariant
                i <= self.rules.len(),
                first_match(self.rules@, path@, 0) == first_match(self.rules@, path@, i as int),
            decreases self.rules.len() - i,
        {
            if has_prefix(path, self.rules[i].path.as_str()) {
                return Some(&self.rules[i]);
            }
            i += 1;
        }
        None
    }
}

/// First-match law: `i` is the index that `first_match` finds from 0 exactly
/// when rule `i` applies and no earlier rule does.
pub proof fn first_match_is_earliest(rules: Seq<RouteRule>, path: Seq<char>, i: int)
    ensures
        first_match(rules, path, 0) == Some(i) <==> (0 <= i < rules.len() && rules[i].applies_to(
            path,
        ) && forall|j: int| 0 <= j < i ==> !(#[trigger] rules[j]).applies_to(path)),
{
    first_match_from(rules, path, 0, i);
}

proof fn first_match_from(rules: Seq<RouteRule>, path: Seq<char>, from: int, i: int)
    requires
        0 <= from,
    ensures
        first_match(rules, path, from) == Some(i) <==> (from <= i < rules.len() && rules[i].applies_to(
            path,
        ) && forall|j: int| from <= j < i ==> !(#[trigger] rules[j]).applies_to(path)),
        first_match(rules, path, from).is_none() <==> forall|j: int|
            from <= j < rules.len() ==> !(#[trigger] rules[j]).applies_to(path),
    decreases rules.len() - from,
{
    if from < rules.len() && !rules[from].applies_to(path) {
        first_match_from(rules, path, from + 1, i);
    }
}

/// No rule applies exactly when resolution finds nothing.
pub proof fn no_match_means_none(rules: Seq<RouteRule>, path: Seq<char>)
    ensures
        first_match(rules, path, 0).is_none() <==> forall|j: int|
            0 <= j < rules.len() ==> !(#[trigger] rules[j]).applies_to(path),
{
    first_match_from(rules, path, 0, 0);
}

/// Shadowing: where an earlier rule's prefix starts a later rule's prefix,
/// every path that the later rule applies to is taken by the earlier rule
/// or by one before it, never by the later one.
pub proof fn earlier_prefix_shadows(rules: Seq<RouteRule>, path: Seq<char>, i: int, j: int)
    requires
        0 <= i < j < rules.len(),
        rules[i].path@.is_prefix_of(rules[j].path@),
        rules[j].applies_to(path),
    ensures
        first_match(rules, path, 0) matches Some(k) && k <= i,
{
    let short = rules[i].path@;
    let long = rules[j].path@;
    assert(short =~= path.subrange(0, short.len() as int)) by {
        assert forall|n: int| 0 <= n < short.len() implies short[n] == path[n] by {
            assert(short[n] == long.subrange(0, short.len() as int)[n]);
            assert(long[n] == path.subrange(0, long.len() as int)[n]);
        }
    }
    assert(rules[i].applies_to(path));
    first_match_from(rules, path, 0, i);
    match first_match(rules, path, 0) {
        Some(k) => {
            first_match_from(rules, path, 0, k);
        },
        None => {},
    }
}

} // verus!
