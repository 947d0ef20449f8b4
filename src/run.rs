//! A whole run: every wordlist entry made into a request before dispatch,
//! and every request accounted for by one verdict.
use vstd::prelude::*;
use crate::request::{CandidateRequest, CandidateView, MaterializeError, materialize, materialized};
use crate::template::RequestTemplate;
use crate::verdict::{DispatchOutcome, SuccessCriteria, verdict_of};

verus! {

broadcast use vstd::seq_lib::group_to_multiset_ensures;

/// Makes a request of every entry, in wordlist order. The first entry that
/// gives none stops the run before anything is sent: its index and the
/// reason are returned.
pub fn materialize_all(template: &RequestTemplate, entries: &Vec<String>, base: &str) -> (r: Result<
    Vec<CandidateRequest>,
    (usize, MaterializeError),
>)
    ensures
        match r {
            Ok(v) => v@.len() == entries@.len() && forall|i: int|
                0 <= i < entries@.len() ==> materialized(template@, entries@[i]@, base@) == Ok::<
                    CandidateView,
                    MaterializeError,
                >(#[trigger] v@[i]@),
            Err((k, e)) => k < entries@.len() && materialized(template@, entries@[k as int]@, base@)
                == Err::<CandidateView, MaterializeError>(e) && forall|i: int|
                0 <= i < k ==> (#[trigger] materialized(template@, entries@[i]@, base@)) is Ok,
        },
{
    let mut out: Vec<CandidateRequest> = Vec::new();
    let mut i: usize = 0;
    while i < entries.len()
        invariant
            i <= entries@.len(),
            out@.len() == i,
            forall|j: int|
                0 <= j < i ==> materialized(template@, entries@[j]@, base@) == Ok::<
                    CandidateView,
                    MaterializeError,
                >(#[trigger] out@[j]@),
        decreases entries@.len() - i,
    {
        match materialize(template, entries[i].as_str(), base) {
            Ok(c) => out.push(c),
            Err(e) => {
                assert forall|j: int| 0 <= j < i implies (#[trigger] materialized(
                    template@,
                    entries@[j]@,
                    base@,
                )) is Ok by {
                    assert(materialized(template@, entries@[j]@, base@) == Ok::<
                        CandidateView,
                        MaterializeError,
                    >(out@[j]@));
                }
                return Err((i, e));
            },
        }
        i = i + 1;
    }
    Ok(out)
}

/// Every wordlist entry yields exactly one verdict, tagged with its text:
/// when each request made from `entries` comes back exactly once as an
/// outcome, in whatever order, the verdicts' tags are the entries, each as
/// often as the wordlist lists it.
pub proof fn lemma_one_verdict_per_entry(
    c: SuccessCriteria,
    entries: Seq<Seq<char>>,
    requests: Seq<CandidateView>,
    outcomes: Seq<DispatchOutcome>,
)
    requires
        requests.len() == entries.len(),
        forall|i: int| 0 <= i < requests.len() ==> #[trigger] requests[i].tag == entries[i],
        outcomes.map_values(|o: DispatchOutcome| o.tag@).to_multiset() == requests.map_values(
            |q: CandidateView| q.tag,
        ).to_multiset(),
    ensures
        outcomes.len() == entries.len(),
        outcomes.map_values(|o: DispatchOutcome| verdict_of(c, o).0).to_multiset()
            == entries.to_multiset(),
{
    assert(requests.map_values(|q: CandidateView| q.tag) =~= entries);
    assert(outcomes.map_values(|o: DispatchOutcome| verdict_of(c, o).0) =~= outcomes.map_values(
        |o: DispatchOutcome| o.tag@,
    ));
    let tags = outcomes.map_values(|o: DispatchOutcome| o.tag@);
    assert(tags.len() == outcomes.len());
    assert(tags.to_multiset().len() == tags.len());
    assert(entries.to_multiset().len() == entries.len());
}

} // verus!
