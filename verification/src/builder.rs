//! Folding the requests of one source into statistics, and finding the user
//! agents that no dialect recognises.

use crate::counts::{count_in, mergeable, merged, Counts, Key};
use crate::request::{
    hour_bucket, hour_of, is_install_path, names_hour, targets_install_endpoint, DecodedRequest,
    RequestView,
};
use crate::stats::{agent_counts, StatsError, StatsMap};
use crate::user_agent::{recognized, UserAgentParser};
use vstd::prelude::*;

verus! {

/// Whether a request cannot be counted for want of an hour: it targets an
/// install endpoint, but its timestamp is too short.
pub open spec fn rejected(request: RequestView) -> bool {
    is_install_path(request.request_path) && !names_hour(request.timestamp)
}

/// Whether a request raises the counter `key`: it targets an install
/// endpoint, falls in the hour of the counter, and its user agent is
/// recognised and reports the counter's version in the counter's category.
pub open spec fn contributes(request: RequestView, key: Key) -> bool {
    &&& is_install_path(request.request_path)
    &&& names_hour(request.timestamp)
    &&& key.hour == hour_of(request.timestamp)
    &&& recognized(request.user_agent) matches Some(agent) && agent.version(key.category) == Some(
        key.version,
    )
}

/// The counters that one request raises, each by one.
pub open spec fn single(request: RequestView) -> Counts {
    Map::new(|k: Key| contributes(request, k), |k: Key| 1nat)
}

/// The number of requests that raise the counter `key`.
pub open spec fn occurrences(requests: Seq<RequestView>, key: Key) -> nat
    decreases requests.len(),
{
    if requests.len() == 0 {
        0
    } else {
        occurrences(requests.drop_last(), key) + if contributes(requests.last(), key) {
            1nat
        } else {
            0nat
        }
    }
}

/// The statistics of a sequence of requests: every counter that some request
/// raises, with the number of requests that raise it.
pub open spec fn built(requests: Seq<RequestView>) -> Counts {
    Map::new(|k: Key| occurrences(requests, k) > 0, |k: Key| occurrences(requests, k))
}

/// The requests of a source as sequences of characters.
pub open spec fn views(requests: Seq<DecodedRequest>) -> Seq<RequestView> {
    Seq::new(requests.len(), |i: int| requests[i]@)
}

/// No counter stands higher than the number of requests.
pub proof fn lemma_occurrences_bounded(requests: Seq<RequestView>, key: Key)
    ensures
        occurrences(requests, key) <= requests.len(),
    decreases requests.len(),
{
    if requests.len() > 0 {
        lemma_occurrences_bounded(requests.drop_last(), key);
    }
}

/// One more request adds what that request raises, and nothing else.
pub proof fn lemma_built_push(requests: Seq<RequestView>, request: RequestView)
    ensures
        built(requests.push(request)) == merged(built(requests), single(request)),
{
    let longer = requests.push(request);
    assert(longer.drop_last() =~= requests);
    assert(longer.last() == request);
    assert(built(longer) =~= merged(built(requests), single(request)));
}

/// The statistics of two runs of requests, one after the other, are the merge
/// of the statistics of each: a source may be split anywhere, its parts
/// built apart and the results merged.
pub proof fn lemma_built_concat(first: Seq<RequestView>, second: Seq<RequestView>)
    ensures
        built(first + second) == merged(built(first), built(second)),
    decreases second.len(),
{
    if second.len() == 0 {
        assert(first + second =~= first);
        assert(built(first) =~= merged(built(first), built(second)));
    } else {
        let shorter = second.drop_last();
        let last = second.last();
        assert(first + second =~= (first + shorter).push(last));
        assert(second =~= shorter.push(last));
        lemma_built_concat(first, shorter);
        lemma_built_push(first + shorter, last);
        lemma_built_push(shorter, last);
        crate::counts::lemma_merge_associative(built(first), built(shorter), single(last));
    }
}

/// A request for any other path than an install endpoint raises no counter,
/// whatever its user agent and timestamp.
pub proof fn lemma_other_paths_count_nothing(requests: Seq<RequestView>, request: RequestView)
    requires
        !is_install_path(request.request_path),
    ensures
        single(request) == Map::<Key, nat>::empty(),
        built(requests.push(request)) == built(requests),
{
    assert(single(request) =~= Map::<Key, nat>::empty());
    lemma_built_push(requests, request);
    crate::counts::lemma_merge_identity(built(requests));
}

/// Requests whose timestamps agree in their first 14 characters fall in the
/// same hour.
pub proof fn lemma_same_hour(earlier: Seq<char>, later: Seq<char>)
    requires
        names_hour(earlier),
        names_hour(later),
        earlier.subrange(0, 14) == later.subrange(0, 14),
    ensures
        hour_of(earlier) == hour_of(later),
{
}

impl StatsMap {
    /// Counts one request. A request for a path that is no install endpoint
    /// is passed over; so is one whose user agent no dialect recognises. One
    /// whose timestamp is too short to name an hour is an error, and so is
    /// one that would overflow a counter; neither changes anything.
    pub fn record(&mut self, request: &DecodedRequest, parser: &UserAgentParser) -> (r: Result<
        (),
        StatsError,
    >)
        ensures
            match r {
                Ok(_) => !rejected(request@) && mergeable(old(self)@, single(request@))
                    && final(self)@ == merged(old(self)@, single(request@)),
                Err(StatsError::TimestampFormat) => rejected(request@) && final(self)@ == old(
                    self,
                )@,
                Err(StatsError::CounterOverflow) => !rejected(request@) && !mergeable(
                    old(self)@,
                    single(request@),
                ) && final(self)@ == old(self)@,
            },
            !is_install_path(request@.request_path) ==> r is Ok && final(self)@ == old(self)@,
    {
        proof {
            self.lemma_counts_fit();
            crate::counts::lemma_merge_identity(self@);
        }
        if !targets_install_endpoint(request.request_path.as_str()) {
            assert(single(request@) =~= Map::<Key, nat>::empty());
            assert forall|k: Key| #[trigger]
                count_in(self@, k) + count_in(single(request@), k) <= u64::MAX by {}
            return Ok(());
        }
        let hour = match hour_bucket(request.timestamp.as_str()) {
            Some(hour) => hour,
            None => {
                return Err(StatsError::TimestampFormat);
            },
        };
        match parser.parse(request.user_agent.as_str()) {
            None => {
                assert(single(request@) =~= Map::<Key, nat>::empty());
                assert forall|k: Key| #[trigger]
                    count_in(self@, k) + count_in(single(request@), k) <= u64::MAX by {}
                Ok(())
            },
            Some(agent) => {
                assert(single(request@) =~= agent_counts(hour@, agent@));
                self.tally(hour.as_str(), &agent)
            },
        }
    }
}

/// The statistics of one source: its requests, counted one after the other.
/// Fails at the first request that targets an install endpoint with a
/// timestamp too short to name its hour.
pub fn build(requests: &Vec<DecodedRequest>, parser: &UserAgentParser) -> (r: Result<
    StatsMap,
    StatsError,
>)
    ensures
        match r {
            Ok(stats) => stats@ == built(views(requests@)) && forall|i: int|
                0 <= i < requests@.len() ==> !rejected(#[trigger] requests@[i]@),
            Err(e) => e == StatsError::TimestampFormat && exists|i: int|
                0 <= i < requests@.len() && rejected(#[trigger] requests@[i]@),
        },
{
    let mut stats = StatsMap::new();
    let n = requests.len();
    let mut i: usize = 0;
    assert(views(requests@).take(0) =~= Seq::<RequestView>::empty());
    assert(stats@ =~= built(views(requests@).take(0)));
    while i < n
        invariant
            n == requests@.len(),
            i <= n,
            stats@ == built(views(requests@).take(i as int)),
            forall|j: int| 0 <= j < i ==> !rejected(#[trigger] requests@[j]@),
        decreases n - i,
    {
        let ghost seen = views(requests@).take(i as int);
        proof {
            assert(views(requests@).take(i + 1) =~= seen.push(requests@[i as int]@));
            lemma_built_push(seen, requests@[i as int]@);
            assert forall|k: Key| #[trigger]
                count_in(stats@, k) + count_in(single(requests@[i as int]@), k) <= u64::MAX by {
                lemma_occurrences_bounded(seen, k);
            }
        }
        match stats.record(&requests[i], parser) {
            Ok(_) => {},
            Err(e) => {
                return Err(e);
            },
        }
        i += 1;
    }
    assert(views(requests@).take(n as int) =~= views(requests@));
    Ok(stats)
}

/// The user agents, in order, of the requests whose user agent no dialect
/// recognises, whatever their path.
pub open spec fn unknown_agents(requests: Seq<RequestView>) -> Seq<Seq<char>>
    decreases requests.len(),
{
    if requests.len() == 0 {
        Seq::empty()
    } else if recognized(requests.last().user_agent) is None {
        unknown_agents(requests.drop_last()).push(requests.last().user_agent)
    } else {
        unknown_agents(requests.drop_last())
    }
}

/// A list of strings as sequences of characters.
pub open spec fn texts(strings: Seq<String>) -> Seq<Seq<char>> {
    Seq::new(strings.len(), |i: int| strings[i]@)
}

/// The user agents of one source that no dialect recognises, one for each
/// request that carries one, in the order of the requests. The path of a
/// request plays no part.
pub fn unknown_user_agents(requests: &Vec<DecodedRequest>, parser: &UserAgentParser) -> (out: Vec<
    String,
>)
    ensures
        texts(out@) == unknown_agents(views(requests@)),
{
    let mut out: Vec<String> = Vec::new();
    let n = requests.len();
    let mut i: usize = 0;
    assert(views(requests@).take(0) =~= Seq::<RequestView>::empty());
    assert(texts(out@) =~= unknown_agents(views(requests@).take(0)));
    while i < n
        invariant
            n == requests@.len(),
            i <= n,
            texts(out@) == unknown_agents(views(requests@).take(i as int)),
        decreases n - i,
    {
        let ghost seen = views(requests@).take(i as int);
        let ghost longer = views(requests@).take(i + 1);
        let ghost listed = texts(out@);
        proof {
            assert(longer.drop_last() =~= seen);
            assert(longer.last() == requests@[i as int]@);
        }
        if parser.parse(requests[i].user_agent.as_str()).is_none() {
            out.push(requests[i].user_agent.clone());
            assert(texts(out@) =~= listed.push(requests@[i as int]@.user_agent));
        }
        i += 1;
    }
    assert(views(requests@).take(n as int) =~= views(requests@));
    out
}

} // verus!
