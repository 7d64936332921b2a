//! The traversal controller: which page to fetch next, and what to make of each outcome.
//!
//! A traversal is a list of pending lookups. The caller fetches the page of the first one
//! and delivers the outcome; the lookup then leaves the list. A subnet page yields its
//! hostnames as records. An ASN page yields no records itself: its subnets join the front
//! of the list, in page order, and are looked up before anything that was pending. A failed
//! fetch yields one diagnostic that names the lookup, and the traversal goes on.

use vstd::prelude::*;
use vstd::string::*;
use crate::extract::{extract, extracted, RecordKind};
use crate::fetch::FetchError;
use crate::page::{page_key, page_key_text, Operation, Target};
use crate::report::{Diagnostic, Emission, Output};

verus! {

/// The model of the outcome of one fetch: the document, or why there is none.
pub type Outcome = Result<Seq<char>, FetchError>;

/// The model of an outcome as it is delivered.
pub open spec fn outcome_view(outcome: Result<String, FetchError>) -> Outcome {
    match outcome {
        Ok(document) => Ok(document@),
        Err(error) => Err(error),
    }
}

/// The models of a list of outputs.
pub open spec fn emissions(outputs: Seq<Output>) -> Seq<Emission> {
    Seq::new(outputs.len(), |i: int| outputs[i]@)
}

/// One lookup as `operation` for each identifier, in order.
pub open spec fn targets(operation: Operation, identifiers: Seq<Seq<char>>) -> Seq<Target> {
    Seq::new(identifiers.len(), |i: int| Target { operation, identifier: identifiers[i] })
}

/// One record for each text, in order.
pub open spec fn records(texts: Seq<Seq<char>>) -> Seq<Emission> {
    Seq::new(texts.len(), |i: int| Emission::Record(texts[i]))
}

/// What the lookup of one subnet hands out: a record for each hostname on its page, or one
/// diagnostic that names the subnet.
pub open spec fn subnet_emitted(identifier: Seq<char>, outcome: Outcome) -> Seq<Emission> {
    match outcome {
        Ok(document) => records(extracted(document, RecordKind::HostnameList)),
        Err(error) => seq![
            Emission::Failure(Target { operation: Operation::Subnet, identifier }, error),
        ],
    }
}

/// What a traversal is left with after one outcome, and what it hands out for it.
pub struct Step {
    /// The lookups still pending.
    pub pending: Seq<Target>,
    /// What is handed out, in order.
    pub emitted: Seq<Emission>,
}

/// The step of a traversal whose pending lookups are `pending` on the outcome of fetching
/// the page of the first of them. A traversal with nothing pending ignores the outcome.
pub open spec fn step(pending: Seq<Target>, outcome: Outcome) -> Step {
    if pending.len() == 0 {
        Step { pending, emitted: Seq::empty() }
    } else {
        let head = pending[0];
        let rest = pending.drop_first();
        match (head.operation, outcome) {
            (Operation::Subnet, _) => Step {
                pending: rest,
                emitted: subnet_emitted(head.identifier, outcome),
            },
            (Operation::Asn, Ok(page)) => Step {
                pending: targets(Operation::Subnet, extracted(page, RecordKind::SubnetList)) + rest,
                emitted: Seq::empty(),
            },
            (Operation::Asn, Err(error)) => Step {
                pending: rest,
                emitted: seq![Emission::Failure(head, error)],
            },
        }
    }
}

/// What a traversal has done after a run of outcomes.
pub struct Trace {
    /// The lookups still pending.
    pub pending: Seq<Target>,
    /// The lookups whose pages were asked for, in order.
    pub visited: Seq<Target>,
    /// Everything handed out, in order.
    pub emitted: Seq<Emission>,
}

/// The run of a traversal on the outcomes of its fetches, delivered in order. Outcomes that
/// come after the last pending lookup has left are ignored.
pub open spec fn run(pending: Seq<Target>, outcomes: Seq<Outcome>) -> Trace
    decreases outcomes.len(),
{
    if outcomes.len() == 0 || pending.len() == 0 {
        Trace { pending, visited: Seq::empty(), emitted: Seq::empty() }
    } else {
        let first = step(pending, outcomes[0]);
        let later = run(first.pending, outcomes.drop_first());
        Trace {
            pending: later.pending,
            visited: seq![pending[0]] + later.visited,
            emitted: first.emitted + later.emitted,
        }
    }
}

/// `outcomes` are the outcomes of exactly the fetches that a traversal of `pending` makes:
/// one for each page it asks for, until nothing is pending.
pub open spec fn answers(pending: Seq<Target>, outcomes: Seq<Outcome>) -> bool
    decreases outcomes.len(),
{
    if outcomes.len() == 0 {
        pending.len() == 0
    } else {
        pending.len() > 0 && answers(step(pending, outcomes[0]).pending, outcomes.drop_first())
    }
}

/// The models of a list of outcomes as they are delivered.
pub open spec fn outcome_views(outcomes: Seq<Result<String, FetchError>>) -> Seq<Outcome> {
    Seq::new(outcomes.len(), |i: int| outcome_view(outcomes[i]))
}

/// The addresses of the pages of `lookups`, in order.
pub open spec fn page_keys(lookups: Seq<Target>) -> Seq<Seq<char>> {
    Seq::new(lookups.len(), |i: int| page_key_text(lookups[i].operation, lookups[i].identifier))
}

/// What a traversal did when outcomes were replayed to it.
pub struct Replay {
    /// The addresses of the pages it asked for, in order.
    pub requests: Vec<String>,
    /// What it handed out, in order.
    pub outputs: Vec<Output>,
}

/// A traversal in progress.
pub struct Traversal {
    operation: Operation,
    identifiers: Vec<String>,
    next: usize,
    subnets: Vec<String>,
    next_subnet: usize,
}

impl Traversal {
    #[verifier::type_invariant]
    spec fn well_formed(self) -> bool {
        &&& self.next <= self.identifiers@.len()
        &&& self.next_subnet <= self.subnets@.len()
    }

    /// The lookups still to be made, the next one first: the subnets of the ASN in progress
    /// that are left, then the identifiers of the batch that are left.
    pub closed spec fn pending(self) -> Seq<Target> {
        targets(Operation::Subnet, self.subnets.deep_view().skip(self.next_subnet as int)) + targets(
            self.operation,
            self.identifiers.deep_view().skip(self.next as int),
        )
    }

    /// A traversal that looks up each of `identifiers` as `operation`, in order.
    pub fn batch(operation: Operation, identifiers: Vec<String>) -> (r: Traversal)
        ensures
            r.pending() == targets(operation, identifiers.deep_view()),
    {
        Traversal { operation, identifiers, next: 0, subnets: Vec::new(), next_subnet: 0 }
    }

    /// A traversal that looks up one identifier.
    pub fn single(operation: Operation, identifier: String) -> (r: Traversal)
        ensures
            r.pending() == seq![(Target { operation, identifier: identifier@ })],
    {
        let mut identifiers: Vec<String> = Vec::new();
        identifiers.push(identifier);
        Traversal::batch(operation, identifiers)
    }

    /// Whether nothing is left to look up.
    pub fn is_done(&self) -> (r: bool)
        ensures
            r == (self.pending().len() == 0),
    {
        proof {
            use_type_invariant(self);
        }
        self.next_subnet >= self.subnets.len() && self.next >= self.identifiers.len()
    }

    /// The address of the page to fetch next, or `None` when the traversal is done.
    pub fn next_request(&self) -> (r: Option<String>)
        ensures
            match r {
                Some(key) => self.pending().len() > 0 && key@ == page_key_text(
                    self.pending()[0].operation,
                    self.pending()[0].identifier,
                ),
                None => self.pending().len() == 0,
            },
    {
        proof {
            use_type_invariant(self);
        }
        if self.next_subnet < self.subnets.len() {
            Some(page_key(Operation::Subnet, self.subnets[self.next_subnet].as_str()))
        } else if self.next < self.identifiers.len() {
            Some(page_key(self.operation, self.identifiers[self.next].as_str()))
        } else {
            None
        }
    }

    /// Takes the outcome of fetching the page that [`Self::next_request`] named and returns
    /// what is to be printed for it, in order. The lookup that the page was fetched for
    /// leaves the traversal.
    ///
    /// A subnet page yields a record for each hostname on it. An ASN page yields nothing to
    /// print; its subnets are looked up next, in page order. An error yields one diagnostic
    /// that names the lookup. An outcome delivered when nothing is pending is ignored.
    pub fn deliver(&mut self, outcome: Result<String, FetchError>) -> (outputs: Vec<Output>)
        ensures
            final(self).pending() == step(old(self).pending(), outcome_view(outcome)).pending,
            emissions(outputs@) == step(old(self).pending(), outcome_view(outcome)).emitted,
    {
        proof {
            use_type_invariant(&*self);
        }
        if self.next_subnet < self.subnets.len() {
            let at = self.next_subnet;
            self.next_subnet = at + 1;
            subnet_outputs(self.subnets[at].as_str(), outcome)
        } else if self.next < self.identifiers.len() {
            let at = self.next;
            self.next = at + 1;
            match self.operation {
                Operation::Subnet => subnet_outputs(self.identifiers[at].as_str(), outcome),
                Operation::Asn => match outcome {
                    Ok(page) => {
                        let subnets = extract(page.as_str(), RecordKind::SubnetList);
                        self.next_subnet = 0;
                        self.subnets = subnets;
                        nothing()
                    },
                    Err(error) => failure(Operation::Asn, self.identifiers[at].as_str(), error),
                },
            }
        } else {
            nothing()
        }
    }

    /// Runs the traversal on outcomes that are at hand already: for each page it asks for,
    /// the next of `outcomes` is delivered, until the traversal is done or the outcomes are
    /// used up.
    pub fn replay(&mut self, outcomes: &Vec<Result<String, FetchError>>) -> (r: Replay)
        ensures
            final(self).pending() == run(old(self).pending(), outcome_views(outcomes@)).pending,
            r.requests.deep_view() == page_keys(
                run(old(self).pending(), outcome_views(outcomes@)).visited,
            ),
            emissions(r.outputs@) == run(old(self).pending(), outcome_views(outcomes@)).emitted,
    {
        let ghost start = self.pending();
        let ghost all = outcome_views(outcomes@);
        let ghost mut visited: Seq<Target> = Seq::empty();
        let mut requests: Vec<String> = Vec::new();
        let mut outputs: Vec<Output> = Vec::new();
        let mut i: usize = 0;
        assert(all.skip(0) =~= all);
        while i < outcomes.len()
            invariant
                i <= outcomes.len(),
                all == outcome_views(outcomes@),
                requests.deep_view() == page_keys(visited),
                run(start, all).pending == run(self.pending(), all.skip(i as int)).pending,
                run(start, all).visited == visited + run(self.pending(), all.skip(i as int)).visited,
                run(start, all).emitted == emissions(outputs@) + run(
                    self.pending(),
                    all.skip(i as int),
                ).emitted,
            decreases outcomes.len() - i,
        {
            let ghost pending = self.pending();
            let ghost asked = requests.deep_view();
            assert(all.skip(i as int).drop_first() =~= all.skip(i + 1));
            match self.next_request() {
                Some(key) => {
                    requests.push(key);
                    let outcome = match &outcomes[i] {
                        Ok(document) => Ok(document.clone()),
                        Err(error) => Err(*error),
                    };
                    let mut handed = self.deliver(outcome);
                    outputs.append(&mut handed);
                    proof {
                        assert(page_keys(visited.push(pending[0])) =~= asked.push(key@));
                        visited = visited.push(pending[0]);
                    }
                },
                None => {},
            }
            i = i + 1;
        }
        Replay { requests, outputs }
    }
}

/// No output.
fn nothing() -> (outputs: Vec<Output>)
    ensures
        emissions(outputs@) == Seq::<Emission>::empty(),
{
    Vec::new()
}

/// The one diagnostic of a failed lookup.
fn failure(operation: Operation, identifier: &str, error: FetchError) -> (outputs: Vec<Output>)
    ensures
        emissions(outputs@) == seq![
            Emission::Failure(Target { operation, identifier: identifier@ }, error),
        ],
{
    let mut outputs: Vec<Output> = Vec::new();
    outputs.push(Output::Failure(Diagnostic { operation, identifier: identifier.to_owned(), error }));
    outputs
}

/// What the lookup of a subnet hands out: its hostnames, or the diagnostic of its failure.
fn subnet_outputs(identifier: &str, outcome: Result<String, FetchError>) -> (outputs: Vec<Output>)
    ensures
        emissions(outputs@) == subnet_emitted(identifier@, outcome_view(outcome)),
{
    match outcome {
        Ok(page) => {
            let hostnames = extract(page.as_str(), RecordKind::HostnameList);
            let mut outputs: Vec<Output> = Vec::new();
            let mut i: usize = 0;
            while i < hostnames.len()
                invariant
                    i <= hostnames.len(),
                    outputs@.len() == i,
                    forall|k: int|
                        0 <= k < i ==> (#[trigger] outputs@[k])@ == Emission::Record(hostnames@[k]@),
                decreases hostnames.len() - i,
            {
                outputs.push(Output::Record(hostnames[i].clone()));
                i = i + 1;
            }
            outputs
        },
        Err(error) => failure(Operation::Subnet, identifier, error),
    }
}

/// A run on two lists of outcomes, one after the other, is the run on the first followed by
/// the run of what it left pending on the second.
pub proof fn lemma_run_continues(pending: Seq<Target>, earlier: Seq<Outcome>, later: Seq<Outcome>)
    ensures
        run(pending, earlier + later).pending == run(run(pending, earlier).pending, later).pending,
        run(pending, earlier + later).visited == run(pending, earlier).visited + run(
            run(pending, earlier).pending,
            later,
        ).visited,
        run(pending, earlier + later).emitted == run(pending, earlier).emitted + run(
            run(pending, earlier).pending,
            later,
        ).emitted,
    decreases earlier.len(),
{
    if earlier.len() > 0 && pending.len() > 0 {
        assert((earlier + later).drop_first() =~= earlier.drop_first() + later);
        lemma_run_continues(step(pending, earlier[0]).pending, earlier.drop_first(), later);
    }
}

/// Lookups that wait behind others do not touch their run: where `outcomes` answer the
/// lookups `pending`, a traversal of `pending` followed by `behind` visits and hands out
/// what a traversal of `pending` alone does, and is left with `behind`.
pub proof fn lemma_run_leaves_rest(pending: Seq<Target>, behind: Seq<Target>, outcomes: Seq<Outcome>)
    requires
        answers(pending, outcomes),
    ensures
        run(pending, outcomes).pending.len() == 0,
        run(pending + behind, outcomes).pending == behind,
        run(pending + behind, outcomes).visited == run(pending, outcomes).visited,
        run(pending + behind, outcomes).emitted == run(pending, outcomes).emitted,
    decreases outcomes.len(),
{
    if outcomes.len() > 0 {
        let alone = step(pending, outcomes[0]);
        assert(step(pending + behind, outcomes[0]).pending =~= alone.pending + behind);
        lemma_run_leaves_rest(alone.pending, behind, outcomes.drop_first());
    }
}

/// Batch isolation. Let `outcomes_each[i]` answer the lookup `lookups[i]` made alone. Then a
/// traversal of the whole batch, given all the outcomes in order, visits and hands out what
/// each lookup does alone, one lookup after the other, and ends with nothing pending. So a
/// failure in one lookup changes nothing in what the others yield.
pub proof fn lemma_batch_isolated(lookups: Seq<Target>, outcomes_each: Seq<Seq<Outcome>>)
    requires
        outcomes_each.len() == lookups.len(),
        forall|i: int| 0 <= i < lookups.len() ==> answers(seq![lookups[i]], #[trigger] outcomes_each[i]),
    ensures
        run(lookups, outcomes_each.flatten()).pending.len() == 0,
        run(lookups, outcomes_each.flatten()).visited == Seq::new(
            lookups.len(),
            |i: int| run(seq![lookups[i]], outcomes_each[i]).visited,
        ).flatten(),
        run(lookups, outcomes_each.flatten()).emitted == Seq::new(
            lookups.len(),
            |i: int| run(seq![lookups[i]], outcomes_each[i]).emitted,
        ).flatten(),
    decreases lookups.len(),
{
    let visited_each = Seq::new(lookups.len(), |i: int| run(seq![lookups[i]], outcomes_each[i]).visited);
    let emitted_each = Seq::new(lookups.len(), |i: int| run(seq![lookups[i]], outcomes_each[i]).emitted);
    if lookups.len() > 0 {
        let head = seq![lookups[0]];
        let behind = lookups.drop_first();
        let behind_outcomes = outcomes_each.drop_first();
        assert(lookups =~= head + behind);
        lemma_run_leaves_rest(head, behind, outcomes_each[0]);
        lemma_run_continues(lookups, outcomes_each[0], behind_outcomes.flatten());
        lemma_batch_isolated(behind, behind_outcomes);
        assert(visited_each.drop_first() =~= Seq::new(
            behind.len(),
            |i: int| run(seq![behind[i]], behind_outcomes[i]).visited,
        ));
        assert(emitted_each.drop_first() =~= Seq::new(
            behind.len(),
            |i: int| run(seq![behind[i]], behind_outcomes[i]).emitted,
        ));
    }
}

/// A traversal of subnets visits every one of them in order, whatever the outcomes, and
/// hands out for each what [`subnet_emitted`] says, one subnet after the other. What waits
/// behind them is left as it was; where nothing does, one outcome for each subnet answers
/// the traversal.
pub proof fn lemma_subnets_each_looked_up(
    subnets: Seq<Seq<char>>,
    behind: Seq<Target>,
    outcomes: Seq<Outcome>,
)
    requires
        outcomes.len() == subnets.len(),
    ensures
        run(targets(Operation::Subnet, subnets) + behind, outcomes).pending == behind,
        run(targets(Operation::Subnet, subnets) + behind, outcomes).visited == targets(
            Operation::Subnet,
            subnets,
        ),
        run(targets(Operation::Subnet, subnets) + behind, outcomes).emitted == Seq::new(
            subnets.len(),
            |i: int| subnet_emitted(subnets[i], outcomes[i]),
        ).flatten(),
        behind.len() == 0 ==> answers(targets(Operation::Subnet, subnets) + behind, outcomes),
    decreases subnets.len(),
{
    let pending = targets(Operation::Subnet, subnets) + behind;
    let emitted_each = Seq::new(subnets.len(), |i: int| subnet_emitted(subnets[i], outcomes[i]));
    if subnets.len() > 0 {
        let later = subnets.drop_first();
        let later_outcomes = outcomes.drop_first();
        assert(pending.drop_first() =~= targets(Operation::Subnet, later) + behind);
        lemma_subnets_each_looked_up(later, behind, later_outcomes);
        assert(emitted_each.drop_first() =~= Seq::new(
            later.len(),
            |i: int| subnet_emitted(later[i], later_outcomes[i]),
        ));
    }
}

/// Fan-out completeness under failure. Where the page of an ASN holds the subnets
/// `extracted(page, SubnetList)`, the lookup of the ASN asks for the page of every one of
/// them, in page order, whatever the outcomes of those fetches. It hands out the hostnames
/// of each subnet whose page was had and exactly one diagnostic, which names the subnet,
/// for each one whose page was not, in the order of the subnets. The page and one outcome
/// for each subnet are the outcomes of exactly the fetches it makes.
pub proof fn lemma_fan_out_complete(asn: Seq<char>, page: Seq<char>, outcomes: Seq<Outcome>)
    requires
        outcomes.len() == extracted(page, RecordKind::SubnetList).len(),
    ensures
        run(
            seq![(Target { operation: Operation::Asn, identifier: asn })],
            seq![Ok::<Seq<char>, FetchError>(page)] + outcomes,
        ) == (Trace {
            pending: Seq::empty(),
            visited: seq![(Target { operation: Operation::Asn, identifier: asn })] + targets(
                Operation::Subnet,
                extracted(page, RecordKind::SubnetList),
            ),
            emitted: Seq::new(
                outcomes.len(),
                |i: int| subnet_emitted(extracted(page, RecordKind::SubnetList)[i], outcomes[i]),
            ).flatten(),
        }),
        answers(
            seq![(Target { operation: Operation::Asn, identifier: asn })],
            seq![Ok::<Seq<char>, FetchError>(page)] + outcomes,
        ),
{
    let subnets = extracted(page, RecordKind::SubnetList);
    let all = seq![Ok::<Seq<char>, FetchError>(page)] + outcomes;
    assert(all.drop_first() =~= outcomes);
    lemma_subnets_each_looked_up(subnets, Seq::empty(), outcomes);
}

} // verus!
