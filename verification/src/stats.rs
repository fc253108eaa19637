//! Hourly statistics: how often each version of each category was seen in
//! each hour, built request by request and merged across sources.

use crate::counts::{count_in, mergeable, merged, Category, Counts, Key};
use crate::ledger::Ledger;
use crate::user_agent::{ParsedUserAgent, ParsedView};
use vstd::prelude::*;

verus! {

/// Why a set of statistics could not take what it was given.
#[derive(Clone, Copy, PartialEq, Eq, Debug, Structural)]
pub enum StatsError {
    /// A timestamp is too short to name its hour.
    TimestampFormat,
    /// A counter would leave the range of 64 bits.
    CounterOverflow,
}

/// One counter with its count.
#[derive(Clone, Debug, PartialEq, Eq)]
pub struct Entry {
    pub hour: String,
    pub category: Category,
    pub version: String,
    pub count: u64,
}

impl Entry {
    /// What the counter counts.
    pub open spec fn key(&self) -> Key {
        Key { hour: self.hour@, category: self.category, version: self.version@ }
    }
}

/// Whether `entries` lists the counters of `counts`: each entry is a counter
/// with its count, every counter has an entry, and no counter has two.
pub open spec fn lists(entries: Seq<Entry>, counts: Counts) -> bool {
    &&& forall|i: int|
        0 <= i < entries.len() ==> counts.contains_key(#[trigger] entries[i].key())
            && counts[entries[i].key()] == entries[i].count
    &&& forall|k: Key|
        counts.contains_key(k) ==> exists|i: int|
            0 <= i < entries.len() && #[trigger] entries[i].key() == k
    &&& forall|i: int, j: int|
        0 <= i < j < entries.len() ==> #[trigger] entries[i].key() != #[trigger] entries[j].key()
}

/// The counters that one user agent raises in one hour: one for each
/// version it reports.
pub open spec fn agent_counts(hour: Seq<char>, agent: ParsedView) -> Counts {
    Map::new(
        |k: Key| k.hour == hour && agent.version(k.category) == Some(k.version),
        |k: Key| 1nat,
    )
}

/// Hourly statistics: a count for every version of every category in every
/// hour in which it was seen.
pub struct StatsMap {
    ledger: Ledger,
}

impl StatsMap {
    #[verifier::type_invariant]
    spec fn sound(self) -> bool {
        self.ledger.wf()
    }

    /// The counters that are present, each with its count.
    pub closed spec fn view(&self) -> Counts {
        self.ledger@
    }

    /// Every count fits in 64 bits.
    pub proof fn lemma_counts_fit(&self)
        ensures
            forall|k: Key| #[trigger] count_in(self@, k) <= u64::MAX,
    {
        self.ledger.lemma_counts_fit();
    }

    /// Statistics without any counter merge with any others and leave them as
    /// they are: merging with the empty statistics always fits.
    pub proof fn lemma_merges_with_empty(&self)
        ensures
            mergeable(self@, Map::<Key, nat>::empty()),
            mergeable(Map::<Key, nat>::empty(), self@),
            merged(self@, Map::<Key, nat>::empty()) == self@,
            merged(Map::<Key, nat>::empty(), self@) == self@,
    {
        self.lemma_counts_fit();
        crate::counts::lemma_merge_identity(self@);
        assert forall|k: Key| #[trigger]
            count_in(self@, k) + count_in(Map::<Key, nat>::empty(), k) <= u64::MAX by {
            assert(count_in(self@, k) <= u64::MAX);
        }
        assert forall|k: Key| #[trigger]
            count_in(Map::<Key, nat>::empty(), k) + count_in(self@, k) <= u64::MAX by {
            assert(count_in(self@, k) <= u64::MAX);
        }
    }

    /// Statistics without any counter.
    pub fn new() -> (m: Self)
        ensures
            m@ == Map::<Key, nat>::empty(),
    {
        StatsMap { ledger: Ledger::new() }
    }

    /// The count of one version of one category in one hour; zero where no
    /// such counter exists.
    pub fn count(&self, hour: &str, category: Category, version: &str) -> (n: u64)
        ensures
            n == count_in(self@, Key { hour: hour@, category, version: version@ }),
    {
        proof {
            use_type_invariant(self);
        }
        self.ledger.count(hour, category, version)
    }

    /// Every counter with its count, each once.
    pub fn entries(&self) -> (out: Vec<Entry>)
        ensures
            lists(out@, self@),
    {
        proof {
            use_type_invariant(self);
        }
        self.ledger.entries()
    }

    /// Adds `n` to one counter, creating the counter if it is absent. Where
    /// the sum does not fit in 64 bits, nothing changes.
    pub fn add(&mut self, hour: &str, category: Category, version: &str, n: u64) -> (r: Result<
        (),
        StatsError,
    >)
        ensures
            ({
                let key = Key { hour: hour@, category, version: version@ };
                let sum = count_in(old(self)@, key) + n;
                match r {
                    Ok(_) => sum <= u64::MAX && final(self)@ == old(self)@.insert(key, sum as nat),
                    Err(e) => e == StatsError::CounterOverflow && sum > u64::MAX && final(self)@
                        == old(self)@,
                }
            }),
    {
        proof {
            use_type_invariant(&*self);
        }
        let mut ledger = Ledger::new();
        std::mem::swap(&mut ledger, &mut self.ledger);
        let r = ledger.add(hour, category, version, n);
        self.ledger = ledger;
        r
    }

    /// Counts one request of a recognised user agent in the given hour: the
    /// client version always, the bundler and runtime versions where the
    /// agent reports them. Where a counter is full, nothing changes.
    pub fn tally(&mut self, hour: &str, agent: &ParsedUserAgent) -> (r: Result<(), StatsError>)
        ensures
            match r {
                Ok(_) => mergeable(old(self)@, agent_counts(hour@, agent@)) && final(self)@
                    == merged(old(self)@, agent_counts(hour@, agent@)),
                Err(e) => e == StatsError::CounterOverflow && !mergeable(
                    old(self)@,
                    agent_counts(hour@, agent@),
                ) && final(self)@ == old(self)@,
            },
    {
        let ghost raised = agent_counts(hour@, agent@);
        let ghost client = Key {
            hour: hour@,
            category: Category::Client,
            version: agent.client_version@,
        };
        proof {
            self.lemma_counts_fit();
        }
        if self.count(hour, Category::Client, agent.client_version.as_str()) == u64::MAX {
            assert(count_in(self@, client) + count_in(raised, client) > u64::MAX);
            return Err(StatsError::CounterOverflow);
        }
        if let Some(version) = &agent.bundler_version {
            if self.count(hour, Category::Bundler, version.as_str()) == u64::MAX {
                let ghost key = Key { hour: hour@, category: Category::Bundler, version: version@ };
                assert(count_in(self@, key) + count_in(raised, key) > u64::MAX);
                return Err(StatsError::CounterOverflow);
            }
        }
        if let Some(version) = &agent.runtime_version {
            if self.count(hour, Category::Runtime, version.as_str()) == u64::MAX {
                let ghost key = Key { hour: hour@, category: Category::Runtime, version: version@ };
                assert(count_in(self@, key) + count_in(raised, key) > u64::MAX);
                return Err(StatsError::CounterOverflow);
            }
        }
        let done = self.add(hour, Category::Client, agent.client_version.as_str(), 1);
        assert(done is Ok);
        if let Some(version) = &agent.bundler_version {
            let done = self.add(hour, Category::Bundler, version.as_str(), 1);
            assert(done is Ok);
        }
        if let Some(version) = &agent.runtime_version {
            let done = self.add(hour, Category::Runtime, version.as_str(), 1);
            assert(done is Ok);
        }
        proof {
            assert(self@ =~= merged(old(self)@, raised));
            assert forall|k: Key| #[trigger]
                count_in(old(self)@, k) + count_in(raised, k) <= u64::MAX by {
                self.lemma_counts_fit();
                assert(count_in(self@, k) == count_in(old(self)@, k) + count_in(raised, k));
            }
        }
        Ok(())
    }
}

/// Merges two sets of statistics into a new one: every counter of either,
/// with the sum of its two counts. Fails where a sum does not fit in 64 bits.
pub fn combine_stats(left: &StatsMap, right: &StatsMap) -> (r: Result<StatsMap, StatsError>)
    ensures
        match r {
            Ok(m) => mergeable(left@, right@) && m@ == merged(left@, right@),
            Err(e) => e == StatsError::CounterOverflow && !mergeable(left@, right@),
        },
{
    proof {
        use_type_invariant(left);
        use_type_invariant(right);
        left.lemma_counts_fit();
    }
    let mut sum = Ledger::new();
    let copied = sum.absorb(&left.ledger);
    assert(copied is Ok) by {
        assert forall|k: Key| #[trigger]
            count_in(Map::<Key, nat>::empty(), k) + count_in(left@, k) <= u64::MAX by {}
    }
    assert(sum@ =~= left@);
    match sum.absorb(&right.ledger) {
        Ok(_) => Ok(StatsMap { ledger: sum }),
        Err(e) => Err(e),
    }
}

/// The merge of any number of sets of counters, folded from the left.
pub open spec fn merged_all(parts: Seq<Counts>) -> Counts
    decreases parts.len(),
{
    if parts.len() == 0 {
        Map::empty()
    } else {
        merged(merged_all(parts.drop_last()), parts.last())
    }
}

/// No step of the fold leaves the range of a 64-bit counter.
pub open spec fn all_mergeable(parts: Seq<Counts>) -> bool
    decreases parts.len(),
{
    parts.len() == 0 || (all_mergeable(parts.drop_last()) && mergeable(
        merged_all(parts.drop_last()),
        parts.last(),
    ))
}

/// The counters of each of a list of statistics.
pub open spec fn maps(parts: Seq<StatsMap>) -> Seq<Counts> {
    Seq::new(parts.len(), |i: int| parts[i]@)
}

/// If a fold fits, so does the fold of any of its beginnings.
pub proof fn lemma_all_mergeable_prefix(parts: Seq<Counts>, n: int)
    requires
        all_mergeable(parts),
        0 <= n <= parts.len(),
    ensures
        all_mergeable(parts.take(n)),
    decreases parts.len(),
{
    if n == parts.len() {
        assert(parts.take(n) =~= parts);
    } else {
        lemma_all_mergeable_prefix(parts.drop_last(), n);
        assert(parts.drop_last().take(n) =~= parts.take(n));
    }
}

/// A fold may be cut anywhere: the merge of two runs of parts, one after the
/// other, is the merge of the fold of each.
pub proof fn lemma_merge_all_concat(first: Seq<Counts>, second: Seq<Counts>)
    ensures
        merged_all(first + second) == merged(merged_all(first), merged_all(second)),
    decreases second.len(),
{
    if second.len() == 0 {
        assert(first + second =~= first);
        crate::counts::lemma_merge_identity(merged_all(first));
    } else {
        let shorter = second.drop_last();
        assert((first + second).drop_last() =~= first + shorter);
        assert((first + second).last() == second.last());
        lemma_merge_all_concat(first, shorter);
        crate::counts::lemma_merge_associative(
            merged_all(first),
            merged_all(shorter),
            second.last(),
        );
    }
}

/// Any part of a fold may be taken out and merged in last.
pub proof fn lemma_merge_all_remove(parts: Seq<Counts>, at: int)
    requires
        0 <= at < parts.len(),
    ensures
        merged_all(parts) == merged(merged_all(parts.remove(at)), parts[at]),
{
    let before = parts.take(at);
    let after = parts.skip(at + 1);
    assert(parts =~= before.push(parts[at]) + after);
    assert(parts.remove(at) =~= before + after);
    assert(before.push(parts[at]).drop_last() =~= before);
    lemma_merge_all_concat(before.push(parts[at]), after);
    lemma_merge_all_concat(before, after);
    assert(merged(merged(merged_all(before), parts[at]), merged_all(after)) =~= merged(
        merged(merged_all(before), merged_all(after)),
        parts[at],
    ));
}

/// The order of the parts does not matter: two folds over the same parts,
/// each as often in one as in the other, give the same result.
pub proof fn lemma_merge_all_any_order(one: Seq<Counts>, other: Seq<Counts>)
    requires
        one.to_multiset() == other.to_multiset(),
    ensures
        merged_all(one) == merged_all(other),
    decreases one.len(),
{
    one.to_multiset_ensures();
    other.to_multiset_ensures();
    if one.len() > 0 {
        let last = one.last();
        assert(one[one.len() - 1] == last);
        assert(one.contains(last));
        assert(one.to_multiset().count(last) > 0);
        assert(other.to_multiset().count(last) > 0);
        assert(other.contains(last));
        let at = choose|at: int| 0 <= at < other.len() && other[at] == last;
        assert(one.remove(one.len() - 1) =~= one.drop_last());
        lemma_merge_all_any_order(one.drop_last(), other.remove(at));
        lemma_merge_all_remove(other, at);
    } else {
        assert(other.len() == 0);
    }
}

/// Merges the statistics of any number of sources into one, from first to
/// last. Fails where a sum does not fit in 64 bits.
pub fn combine_all(parts: &Vec<StatsMap>) -> (r: Result<StatsMap, StatsError>)
    ensures
        match r {
            Ok(m) => all_mergeable(maps(parts@)) && m@ == merged_all(maps(parts@)),
            Err(e) => e == StatsError::CounterOverflow && !all_mergeable(maps(parts@)),
        },
{
    let mut sum = Ledger::new();
    let n = parts.len();
    let mut i: usize = 0;
    assert(maps(parts@).take(0) =~= Seq::<Counts>::empty());
    while i < n
        invariant
            n == parts@.len(),
            i <= n,
            sum.wf(),
            all_mergeable(maps(parts@).take(i as int)),
            sum@ == merged_all(maps(parts@).take(i as int)),
        decreases n - i,
    {
        let part = &parts[i];
        proof {
            use_type_invariant(part);
            assert(maps(parts@).take(i + 1).drop_last() =~= maps(parts@).take(i as int));
            assert(maps(parts@).take(i + 1).last() == parts@[i as int]@);
        }
        match sum.absorb(&part.ledger) {
            Ok(_) => {},
            Err(e) => {
                proof {
                    if all_mergeable(maps(parts@)) {
                        lemma_all_mergeable_prefix(maps(parts@), i + 1);
                    }
                }
                return Err(e);
            },
        }
        i += 1;
    }
    assert(maps(parts@).take(n as int) =~= maps(parts@));
    Ok(StatsMap { ledger: sum })
}

} // verus!
