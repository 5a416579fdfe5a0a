//! The fetch-and-match dispatcher: one fetch per URL, each outcome kept in the
//! slot of its URL's index, so the report follows the input order whatever the
//! order in which fetches complete.

use vstd::prelude::*;
use crate::matcher::has_substring;
use crate::options::Options;

verus! {

broadcast use vstd::seq_lib::group_to_multiset_ensures;

#[verifier::external_type_specification]
#[verifier::external_body]
pub struct ExUrl(reqwest::Url);

/// Whether the URL parser accepts the text as an absolute URL.
pub uninterp spec fn url_parses(s: Seq<char>) -> bool;

/// Relies on `reqwest::Url::parse` (the `url` crate's parser): `Some` exactly
/// when the parser accepts the text.
#[verifier::external_body]
fn parse_url(s: &str) -> (r: Option<reqwest::Url>)
    ensures
        r is Some == url_parses(s@),
{
    reqwest::Url::parse(s).ok()
}

/// Why one URL could not be fetched.
#[derive(Clone, Copy, Debug, PartialEq, Eq, Structural)]
pub enum TransportError {
    InvalidUrl,
    ConnectFailed,
    DecodeFailed,
    HttpStatus(u16),
}

/// A URL whose body holds the query.
#[derive(Debug, PartialEq, Eq)]
pub struct Match {
    pub url: String,
}

/// The terminal outcome of one URL.
#[derive(Debug, PartialEq, Eq)]
pub enum MatchResult {
    Matched(Match),
    NotMatched(String),
    Failed(String, TransportError),
}

/// What a `MatchResult` says, over character sequences.
pub enum Outcome {
    Matched(Seq<char>),
    NotMatched(Seq<char>),
    Failed(Seq<char>, TransportError),
}

impl View for MatchResult {
    type V = Outcome;

    open spec fn view(&self) -> Outcome {
        match self {
            MatchResult::Matched(m) => Outcome::Matched(m.url@),
            MatchResult::NotMatched(u) => Outcome::NotMatched(u@),
            MatchResult::Failed(u, e) => Outcome::Failed(u@, *e),
        }
    }
}

/// A fetch result over character sequences.
pub open spec fn fetched_view(f: Result<String, TransportError>) -> Result<Seq<char>, TransportError> {
    match f {
        Ok(body) => Ok(body@),
        Err(e) => Err(e),
    }
}

/// The outcome for `url`: a failed fetch is reported as such; a body is
/// matched against the query.
pub open spec fn outcome_of(
    url: Seq<char>,
    query: Seq<char>,
    fetched: Result<Seq<char>, TransportError>,
) -> Outcome {
    match fetched {
        Ok(body) => if has_substring(body, query) {
            Outcome::Matched(url)
        } else {
            Outcome::NotMatched(url)
        },
        Err(e) => Outcome::Failed(url, e),
    }
}

/// Turns what fetching `url` gave into that URL's outcome.
pub fn search_url(query: &String, url: String, fetched: Result<String, TransportError>) -> (r:
    MatchResult)
    ensures
        r@ == outcome_of(url@, query@, fetched_view(fetched)),
{
    match fetched {
        Ok(body) => {
            if crate::matcher::matches(body.as_str(), query.as_str()) {
                MatchResult::Matched(Match { url })
            } else {
                MatchResult::NotMatched(url)
            }
        },
        Err(e) => MatchResult::Failed(url, e),
    }
}

/// What a slot starts with: nothing yet for a URL that parses, and an
/// `InvalidUrl` failure, decided before any network call, for one that does not.
pub open spec fn initial_slot(url: Seq<char>) -> Option<Outcome> {
    if url_parses(url) {
        None
    } else {
        Some(Outcome::Failed(url, TransportError::InvalidUrl))
    }
}

/// The slots after the fetch of URL `index` gave `fetched`.
pub open spec fn record(
    slots: Seq<Option<Outcome>>,
    urls: Seq<Seq<char>>,
    query: Seq<char>,
    index: int,
    fetched: Result<Seq<char>, TransportError>,
) -> Seq<Option<Outcome>> {
    slots.update(index, Some(outcome_of(urls[index], query, fetched)))
}

/// The slots after a run of completions, each an index and what its fetch gave,
/// in the order in which they arrived.
pub open spec fn record_all(
    slots: Seq<Option<Outcome>>,
    urls: Seq<Seq<char>>,
    query: Seq<char>,
    events: Seq<(int, Result<Seq<char>, TransportError>)>,
) -> Seq<Option<Outcome>>
    decreases events.len(),
{
    if events.len() == 0 {
        slots
    } else {
        record(
            record_all(slots, urls, query, events.drop_last()),
            urls,
            query,
            events.last().0,
            events.last().1,
        )
    }
}

/// Each completion names a slot, and no slot is named twice.
pub open spec fn completes_each_once(
    events: Seq<(int, Result<Seq<char>, TransportError>)>,
    n: int,
) -> bool {
    &&& forall|k: int| 0 <= k < events.len() ==> 0 <= #[trigger] events[k].0 < n
    &&& forall|k1: int, k2: int|
        0 <= k1 < k2 < events.len() ==> #[trigger] events[k1].0 != #[trigger] events[k2].0
}

/// After a run of completions, each named once, a named slot holds the outcome
/// of its own completion and every other slot is as it was.
pub proof fn lemma_record_all(
    slots: Seq<Option<Outcome>>,
    urls: Seq<Seq<char>>,
    query: Seq<char>,
    events: Seq<(int, Result<Seq<char>, TransportError>)>,
)
    requires
        slots.len() == urls.len(),
        completes_each_once(events, slots.len() as int),
    ensures
        record_all(slots, urls, query, events).len() == slots.len(),
        forall|k: int|
            0 <= k < events.len() ==> record_all(slots, urls, query, events)[#[trigger] events[k].0]
                == Some(outcome_of(urls[events[k].0], query, events[k].1)),
        forall|i: int|
            0 <= i < slots.len() && (forall|k: int| 0 <= k < events.len() ==> #[trigger] events[k].0 != i)
                ==> record_all(slots, urls, query, events)[i] == slots[i],
    decreases events.len(),
{
    if events.len() > 0 {
        let init = events.drop_last();
        assert(completes_each_once(init, slots.len() as int)) by {
            assert(forall|k: int| 0 <= k < init.len() ==> init[k] == events[k]);
        }
        lemma_record_all(slots, urls, query, init);
        assert forall|i: int|
            0 <= i < slots.len() && (forall|k: int| 0 <= k < events.len() ==> #[trigger] events[k].0 != i)
            implies record_all(slots, urls, query, events)[i] == slots[i] by {
            assert forall|k: int| 0 <= k < init.len() implies #[trigger] init[k].0 != i by {
                assert(init[k] == events[k]);
            }
            assert(events[events.len() - 1].0 != i);
        }
        assert forall|k: int| 0 <= k < events.len() implies record_all(slots, urls, query, events)[
            #[trigger] events[k].0] == Some(outcome_of(urls[events[k].0], query, events[k].1)) by {
            if k < events.len() - 1 {
                assert(init[k] == events[k]);
                assert(events[k].0 != events[events.len() - 1].0);
            }
        }
    }
}

/// The report does not depend on the order in which fetches complete: two
/// arrival orders of the same completions, each naming every slot at most
/// once, leave every slot alike.
pub proof fn lemma_arrival_order_irrelevant(
    slots: Seq<Option<Outcome>>,
    urls: Seq<Seq<char>>,
    query: Seq<char>,
    a: Seq<(int, Result<Seq<char>, TransportError>)>,
    b: Seq<(int, Result<Seq<char>, TransportError>)>,
)
    requires
        slots.len() == urls.len(),
        completes_each_once(a, slots.len() as int),
        completes_each_once(b, slots.len() as int),
        a.to_multiset() == b.to_multiset(),
    ensures
        record_all(slots, urls, query, a) == record_all(slots, urls, query, b),
{
    lemma_record_all(slots, urls, query, a);
    lemma_record_all(slots, urls, query, b);
    let ra = record_all(slots, urls, query, a);
    let rb = record_all(slots, urls, query, b);
    assert forall|i: int| 0 <= i < slots.len() implies ra[i] == rb[i] by {
        if exists|k: int| 0 <= k < a.len() && #[trigger] a[k].0 == i {
            let k = choose|k: int| 0 <= k < a.len() && #[trigger] a[k].0 == i;
            assert(a.contains(a[k]));
            assert(a.to_multiset().count(a[k]) > 0);
            assert(b.to_multiset().count(a[k]) > 0);
            assert(b.contains(a[k]));
            let k2 = choose|k2: int| 0 <= k2 < b.len() && b[k2] == a[k];
            assert(b[k2].0 == i);
            assert(ra[a[k].0] == Some(outcome_of(urls[a[k].0], query, a[k].1)));
            assert(rb[b[k2].0] == Some(outcome_of(urls[b[k2].0], query, b[k2].1)));
            assert(ra[i] == rb[i]);
        } else if exists|k: int| 0 <= k < b.len() && #[trigger] b[k].0 == i {
            let k = choose|k: int| 0 <= k < b.len() && #[trigger] b[k].0 == i;
            assert(b.contains(b[k]));
            assert(b.to_multiset().count(b[k]) > 0);
            assert(a.to_multiset().count(b[k]) > 0);
            assert(a.contains(b[k]));
            let k2 = choose|k2: int| 0 <= k2 < a.len() && a[k2] == b[k];
            assert(a[k2].0 == i);
            assert(false);
        } else {
            assert(forall|k: int| 0 <= k < a.len() ==> #[trigger] a[k].0 != i);
            assert(forall|k: int| 0 <= k < b.len() ==> #[trigger] b[k].0 != i);
            assert(ra[i] == slots[i]);
            assert(rb[i] == slots[i]);
        }
    }
    assert(ra =~= rb);
}

/// A full run leaves no URL without an outcome: from the slots that `start`
/// sets up, completing every open slot once, in any order, fills them all; a
/// URL that does not parse keeps its `InvalidUrl` failure and every other one
/// holds the outcome of its own fetch.
pub proof fn lemma_full_run(
    urls: Seq<Seq<char>>,
    query: Seq<char>,
    events: Seq<(int, Result<Seq<char>, TransportError>)>,
)
    requires
        completes_each_once(events, urls.len() as int),
        forall|k: int| 0 <= k < events.len() ==> url_parses(urls[#[trigger] events[k].0]),
        forall|i: int|
            0 <= i < urls.len() && url_parses(urls[i]) ==> exists|k: int|
                0 <= k < events.len() && #[trigger] events[k].0 == i,
    ensures
        ({
            let r = record_all(urls.map_values(|u: Seq<char>| initial_slot(u)), urls, query, events);
            &&& r.len() == urls.len()
            &&& forall|i: int|
                0 <= i < urls.len() && !url_parses(urls[i]) ==> #[trigger] r[i] == Some(
                    Outcome::Failed(urls[i], TransportError::InvalidUrl),
                )
            &&& forall|k: int|
                0 <= k < events.len() ==> r[#[trigger] events[k].0] == Some(
                    outcome_of(urls[events[k].0], query, events[k].1),
                )
            &&& forall|i: int| 0 <= i < urls.len() ==> (#[trigger] r[i]) is Some
        }),
{
    let slots = urls.map_values(|u: Seq<char>| initial_slot(u));
    lemma_record_all(slots, urls, query, events);
    let r = record_all(slots, urls, query, events);
    assert forall|i: int| 0 <= i < urls.len() && !url_parses(urls[i]) implies #[trigger] r[i]
        == Some(Outcome::Failed(urls[i], TransportError::InvalidUrl)) by {
        assert forall|k: int| 0 <= k < events.len() implies #[trigger] events[k].0 != i by {
            assert(url_parses(urls[events[k].0]));
        }
        assert(slots[i] == initial_slot(urls[i]));
        assert(r[i] == slots[i]);
    }
    assert forall|i: int| 0 <= i < urls.len() implies (#[trigger] r[i]) is Some by {
        if url_parses(urls[i]) {
            let k = choose|k: int| 0 <= k < events.len() && #[trigger] events[k].0 == i;
            assert(r[events[k].0] is Some);
        }
    }
}

/// One fetch to make: the URL at `index` of the configuration, parsed.
pub struct FetchRequest {
    pub index: usize,
    pub url: reqwest::Url,
}

/// One run over a configuration: a slot per URL, filled once, in any order,
/// as the fetches complete.
pub struct Dispatch {
    urls: Vec<String>,
    query: String,
    slots: Vec<Option<MatchResult>>,
}

impl Dispatch {
    pub closed spec fn urls_view(&self) -> Seq<Seq<char>> {
        self.urls@.map_values(|u: String| u@)
    }

    pub closed spec fn query_view(&self) -> Seq<char> {
        self.query@
    }

    /// Each slot's outcome, where there is one yet.
    pub closed spec fn slots_view(&self) -> Seq<Option<Outcome>> {
        self.slots@.map_values(|s: Option<MatchResult>| slot_view(s))
    }

    pub closed spec fn wf(&self) -> bool {
        self.slots@.len() == self.urls@.len()
    }

    /// Whether every URL has its outcome.
    pub open spec fn all_done(&self) -> bool {
        forall|i: int| 0 <= i < self.slots_view().len() ==> #[trigger] self.slots_view()[i] is Some
    }

    /// Sets up the run for `config`: URLs that do not parse fail at once with
    /// `InvalidUrl`; every other URL gets one fetch request, in input order.
    pub fn start(config: &Options) -> (r: (Dispatch, Vec<FetchRequest>))
        ensures
            r.0.wf(),
            r.0.urls_view() == config.urls_view(),
            r.0.query_view() == config.query@,
            r.0.slots_view().len() == config.urls@.len(),
            forall|i: int|
                0 <= i < config.urls@.len() ==> #[trigger] r.0.slots_view()[i] == initial_slot(
                    config.urls@[i]@,
                ),
            forall|k: int|
                0 <= k < r.1@.len() ==> #[trigger] r.1@[k].index < config.urls@.len()
                    && r.0.slots_view()[r.1@[k].index as int] is None,
            forall|k1: int, k2: int|
                0 <= k1 < k2 < r.1@.len() ==> #[trigger] r.1@[k1].index < #[trigger] r.1@[k2].index,
            forall|i: int|
                0 <= i < config.urls@.len() && r.0.slots_view()[i] is None ==> exists|k: int|
                    0 <= k < r.1@.len() && #[trigger] r.1@[k].index == i,
    {
        let n = config.urls.len();
        let mut urls: Vec<String> = Vec::new();
        let mut slots: Vec<Option<MatchResult>> = Vec::new();
        let mut requests: Vec<FetchRequest> = Vec::new();
        let mut i: usize = 0;
        while i < n
            invariant
                n == config.urls@.len(),
                0 <= i <= n,
                urls@.len() == i,
                slots@.len() == i,
                forall|j: int| 0 <= j < i ==> #[trigger] urls@[j]@ == config.urls@[j]@,
                forall|j: int| 0 <= j < i ==> #[trigger] slot_view(slots@[j]) == initial_slot(config.urls@[j]@),
                forall|k: int|
                    0 <= k < requests@.len() ==> #[trigger] requests@[k].index < i
                        && slot_view(slots@[requests@[k].index as int]) is None,
                forall|k1: int, k2: int|
                    0 <= k1 < k2 < requests@.len() ==> #[trigger] requests@[k1].index
                        < #[trigger] requests@[k2].index,
                forall|j: int|
                    0 <= j < i && slot_view(slots@[j]) is None ==> exists|k: int|
                        0 <= k < requests@.len() && #[trigger] requests@[k].index == j,
            decreases n - i,
        {
            let url = config.urls[i].clone();
            match parse_url(url.as_str()) {
                Some(parsed) => {
                    let ghost before = requests@;
                    slots.push(None);
                    requests.push(FetchRequest { index: i, url: parsed });
                    assert(requests@[requests@.len() - 1].index == i);
                    assert forall|j: int|
                        0 <= j < i && slot_view(slots@[j]) is None implies exists|k: int|
                            0 <= k < requests@.len() && #[trigger] requests@[k].index == j by {
                        let k = choose|k: int| 0 <= k < before.len() && #[trigger] before[k].index == j;
                        assert(requests@[k] == before[k]);
                    }
                },
                None => {
                    let failed = url.clone();
                    slots.push(Some(MatchResult::Failed(failed, TransportError::InvalidUrl)));
                },
            }
            urls.push(url);
            i = i + 1;
        }
        let d = Dispatch { urls, query: config.query.clone(), slots };
        assert(d.urls_view() =~= config.urls_view());
        (d, requests)
    }

    /// Records what the fetch of URL `index` gave.
    pub fn complete(&mut self, index: usize, fetched: Result<String, TransportError>)
        requires
            old(self).wf(),
            index < old(self).slots_view().len(),
            old(self).slots_view()[index as int] is None,
        ensures
            final(self).wf(),
            final(self).urls_view() == old(self).urls_view(),
            final(self).query_view() == old(self).query_view(),
            final(self).slots_view() == record(
                old(self).slots_view(),
                old(self).urls_view(),
                old(self).query_view(),
                index as int,
                fetched_view(fetched),
            ),
    {
        let url = self.urls[index].clone();
        let r = search_url(&self.query, url, fetched);
        self.slots.set(index, Some(r));
        assert(self.slots_view() =~= record(
            old(self).slots_view(),
            old(self).urls_view(),
            old(self).query_view(),
            index as int,
            fetched_view(fetched),
        ));
    }

    /// Whether every URL has its outcome.
    pub fn is_done(&self) -> (r: bool)
        requires
            self.wf(),
        ensures
            r == self.all_done(),
    {
        let mut i: usize = 0;
        while i < self.slots.len()
            invariant
                0 <= i <= self.slots@.len(),
                forall|j: int| 0 <= j < i ==> #[trigger] self.slots_view()[j] is Some,
            decreases self.slots@.len() - i,
        {
            if self.slots[i].is_none() {
                assert(self.slots_view()[i as int] is None);
                return false;
            }
            i = i + 1;
        }
        true
    }

    /// The report: one outcome per URL, in input order.
    pub fn finish(self) -> (r: Vec<MatchResult>)
        requires
            self.wf(),
            self.all_done(),
        ensures
            r@.len() == self.urls_view().len(),
            forall|i: int| 0 <= i < r@.len() ==> Some(#[trigger] r@[i]@) == self.slots_view()[i],
    {
        let ghost slots0 = self.slots_view();
        let mut slots = self.slots;
        let mut reversed: Vec<MatchResult> = Vec::new();
        while slots.len() > 0
            invariant
                slots@.len() + reversed@.len() == slots0.len(),
                forall|j: int| 0 <= j < slots@.len() ==> slot_view(#[trigger] slots@[j]) == slots0[j],
                forall|j: int|
                    0 <= j < reversed@.len() ==> Some(#[trigger] reversed@[j]@) == slots0[slots0.len()
                        - 1 - j],
                forall|j: int| 0 <= j < slots0.len() ==> #[trigger] slots0[j] is Some,
            decreases slots@.len(),
        {
            let s = slots.pop().unwrap();
            match s {
                Some(m) => reversed.push(m),
                None => {
                    assert(slots0[slots@.len() as int] is Some);
                },
            }
        }
        let mut out: Vec<MatchResult> = Vec::new();
        while reversed.len() > 0
            invariant
                out@.len() + reversed@.len() == slots0.len(),
                forall|j: int|
                    0 <= j < reversed@.len() ==> Some(#[trigger] reversed@[j]@) == slots0[slots0.len()
                        - 1 - j],
                forall|j: int| 0 <= j < out@.len() ==> Some(#[trigger] out@[j]@) == slots0[j],
            decreases reversed@.len(),
        {
            let m = reversed.pop().unwrap();
            out.push(m);
        }
        out
    }
}

/// A slot's outcome, where there is one.
pub open spec fn slot_view(s: Option<MatchResult>) -> Option<Outcome> {
    match s {
        Some(m) => Some(m@),
        None => None,
    }
}

} // verus!
