//! The mathematical content of a set of statistics: a count for every
//! (hour, category, version) triple, and the merge of two such sets.

use vstd::prelude::*;

verus! {

/// The three version axes that a user agent reports.
#[derive(Clone, Copy, PartialEq, Eq, Debug, Structural)]
pub enum Category {
    /// The package-manager client itself.
    Client,
    /// The dependency-bundling tool.
    Bundler,
    /// The language runtime.
    Runtime,
}

impl Category {
    /// The name under which the category is reported.
    pub open spec fn name(self) -> Seq<char> {
        match self {
            Category::Client => "client"@,
            Category::Bundler => "bundler"@,
            Category::Runtime => "runtime"@,
        }
    }

    /// The name under which the category is reported.
    pub fn as_str(self) -> (s: &'static str)
        ensures
            s@ == self.name(),
    {
        match self {
            Category::Client => "client",
            Category::Bundler => "bundler",
            Category::Runtime => "runtime",
        }
    }
}

/// What one counter counts: a version of one category, seen in one hour.
pub struct Key {
    pub hour: Seq<char>,
    pub category: Category,
    pub version: Seq<char>,
}

/// The counters that are present, each with its count.
pub type Counts = Map<Key, nat>;

/// The count of `key`; a counter that is absent stands at zero.
pub open spec fn count_in(counts: Counts, key: Key) -> nat {
    if counts.contains_key(key) {
        counts[key]
    } else {
        0
    }
}

/// The deep merge of two sets of counters: every counter present in either,
/// with the sum of its two counts.
pub open spec fn merged(a: Counts, b: Counts) -> Counts {
    Map::new(
        |k: Key| a.contains_key(k) || b.contains_key(k),
        |k: Key| count_in(a, k) + count_in(b, k),
    )
}

/// No sum of the merge of `a` and `b` leaves the range of a 64-bit counter.
pub open spec fn mergeable(a: Counts, b: Counts) -> bool {
    forall|k: Key| #[trigger] count_in(a, k) + count_in(b, k) <= u64::MAX
}

/// Merging is commutative: the order of the two operands does not matter,
/// neither for the result nor for whether it fits.
pub proof fn lemma_merge_commutative(a: Counts, b: Counts)
    ensures
        merged(a, b) == merged(b, a),
        mergeable(a, b) == mergeable(b, a),
{
    assert(merged(a, b) =~= merged(b, a));
    if mergeable(a, b) {
        assert forall|k: Key| #[trigger] count_in(b, k) + count_in(a, k) <= u64::MAX by {
            assert(count_in(a, k) + count_in(b, k) <= u64::MAX);
        }
    }
    if mergeable(b, a) {
        assert forall|k: Key| #[trigger] count_in(a, k) + count_in(b, k) <= u64::MAX by {
            assert(count_in(b, k) + count_in(a, k) <= u64::MAX);
        }
    }
}

/// Merging is associative: any grouping of a fold over several sets of
/// counters gives the same result, and fits in one grouping exactly when it
/// fits in the other.
pub proof fn lemma_merge_associative(a: Counts, b: Counts, c: Counts)
    ensures
        merged(merged(a, b), c) == merged(a, merged(b, c)),
        (mergeable(a, b) && mergeable(merged(a, b), c)) == (mergeable(b, c) && mergeable(
            a,
            merged(b, c),
        )),
{
    assert(merged(merged(a, b), c) =~= merged(a, merged(b, c)));
    if mergeable(a, b) && mergeable(merged(a, b), c) {
        assert forall|k: Key| #[trigger] count_in(b, k) + count_in(c, k) <= u64::MAX by {
            assert(count_in(merged(a, b), k) + count_in(c, k) <= u64::MAX);
        }
        assert forall|k: Key| #[trigger]
            count_in(a, k) + count_in(merged(b, c), k) <= u64::MAX by {
            assert(count_in(merged(a, b), k) + count_in(c, k) <= u64::MAX);
        }
    }
    if mergeable(b, c) && mergeable(a, merged(b, c)) {
        assert forall|k: Key| #[trigger] count_in(a, k) + count_in(b, k) <= u64::MAX by {
            assert(count_in(a, k) + count_in(merged(b, c), k) <= u64::MAX);
        }
        assert forall|k: Key| #[trigger]
            count_in(merged(a, b), k) + count_in(c, k) <= u64::MAX by {
            assert(count_in(a, k) + count_in(merged(b, c), k) <= u64::MAX);
        }
    }
}

/// The empty set of counters is the identity of the merge, on either side.
pub proof fn lemma_merge_identity(a: Counts)
    ensures
        merged(a, Map::empty()) == a,
        merged(Map::empty(), a) == a,
{
    assert(merged(a, Map::empty()) =~= a);
    assert(merged(Map::empty(), a) =~= a);
}

} // verus!
