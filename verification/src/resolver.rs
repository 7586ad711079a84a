//! Resolving the caller's public address, family by family, through an
//! ordered chain of echo oracles.
//!
//! An oracle is asked over the network, so the resolution is a state machine:
//! [`Resolution::pending`] names the oracle to ask next,
//! [`Resolution::record`] takes its answer. The first answer of a chain
//! settles its family; a family whose chain is exhausted has failed, and the
//! families after it are resolved all the same.

use vstd::prelude::*;
use crate::model::{AddressSpec, IpType, ResolutionFailed, ResolvedAddress};

verus! {

/// An independent service that echoes the caller's public address.
#[derive(Clone, Copy, Debug, PartialEq, Eq, Structural)]
pub enum Oracle {
    OpenDns,
    GoogleDnsTxt,
}

/// Number of oracles in each family's chain.
pub const CHAIN_LEN: usize = 2;

/// The oracles of a chain in the order in which they are asked.
pub open spec fn chain() -> Seq<Oracle> {
    seq![Oracle::OpenDns, Oracle::GoogleDnsTxt]
}

/// The oracle that is asked after `attempt` others have failed.
pub fn oracle_at(attempt: usize) -> (oracle: Oracle)
    requires
        attempt < CHAIN_LEN,
    ensures
        oracle == chain()[attempt as int],
{
    if attempt == 0 {
        Oracle::OpenDns
    } else {
        Oracle::GoogleDnsTxt
    }
}

/// One question to one oracle.
#[derive(Clone, Copy, Debug, PartialEq, Eq, Structural)]
pub struct Query {
    pub family: IpType,
    pub oracle: Oracle,
}

/// An oracle's answer as the contracts see it: the address, or `None` where
/// the oracle timed out, could not be reached or answered nonsense.
pub open spec fn answer_view(answer: Option<String>) -> Option<Seq<char>> {
    match answer {
        Some(value) => Some(value@),
        None => None,
    }
}

/// What became of one family: its address, or the failure of its whole chain.
pub open spec fn family_result(family: IpType, settled: Option<Seq<char>>) -> Result<
    AddressSpec,
    ResolutionFailed,
> {
    match settled {
        Some(value) => Ok(AddressSpec { family, value }),
        None => Err(ResolutionFailed { family }),
    }
}

/// View of a [`Resolution`].
pub ghost struct ResolutionSpec {
    /// The requested families, in the order in which they are resolved.
    pub families: Seq<IpType>,
    /// For each family that is settled, its address or `None` for a failure.
    pub settled: Seq<Option<Seq<char>>>,
    /// How many oracles of the current family's chain have failed.
    pub attempt: int,
}

impl ResolutionSpec {
    /// No more settled families than requested ones, and a count of failed
    /// oracles that leaves one of the chain to ask.
    pub open spec fn well_formed(self) -> bool {
        &&& self.settled.len() <= self.families.len()
        &&& 0 <= self.attempt < CHAIN_LEN
        &&& self.settled.len() == self.families.len() ==> self.attempt == 0
    }

    /// The state before any oracle was asked.
    pub open spec fn start(families: Seq<IpType>) -> ResolutionSpec {
        ResolutionSpec { families, settled: Seq::empty(), attempt: 0 }
    }

    /// Every family is settled.
    pub open spec fn complete(self) -> bool {
        self.settled.len() >= self.families.len()
    }

    /// The question that is due, if any.
    pub open spec fn pending(self) -> Option<Query> {
        if self.complete() {
            None
        } else {
            Some(
                Query {
                    family: self.families[self.settled.len() as int],
                    oracle: chain()[self.attempt],
                },
            )
        }
    }

    /// The state after the pending question was answered. An address settles
    /// the family; a failure moves on to the next oracle, or settles the
    /// family as failed where the chain has no other.
    pub open spec fn answered(self, answer: Option<Seq<char>>) -> ResolutionSpec {
        if self.complete() {
            self
        } else if answer.is_some() || self.attempt + 1 >= CHAIN_LEN {
            ResolutionSpec { settled: self.settled.push(answer), attempt: 0, ..self }
        } else {
            ResolutionSpec { attempt: self.attempt + 1, ..self }
        }
    }
}

/// A resolution in progress.
#[derive(Debug)]
pub struct Resolution {
    families: Vec<IpType>,
    settled: Vec<Option<String>>,
    attempt: usize,
}

impl View for Resolution {
    type V = ResolutionSpec;

    closed spec fn view(&self) -> ResolutionSpec {
        ResolutionSpec {
            families: self.families@,
            settled: Seq::new(self.settled@.len(), |i: int| answer_view(self.settled@[i])),
            attempt: self.attempt as int,
        }
    }
}

/// Starts the resolution of the given families, in their order.
pub fn resolve(families: Vec<IpType>) -> (resolution: Resolution)
    ensures
        resolution@ == ResolutionSpec::start(families@),
{
    let resolution = Resolution { families, settled: Vec::new(), attempt: 0 };
    proof {
        assert(resolution@.settled =~= Seq::empty());
    }
    resolution
}

impl Resolution {
    #[verifier::type_invariant]
    spec fn inv(self) -> bool {
        self@.well_formed()
    }

    /// The oracle to ask next and the family to ask it for; `None` once every
    /// family is settled.
    pub fn pending(&self) -> (query: Option<Query>)
        ensures
            self@.well_formed(),
            query == self@.pending(),
    {
        proof {
            use_type_invariant(self);
        }
        if self.settled.len() < self.families.len() {
            Some(Query { family: self.families[self.settled.len()], oracle: oracle_at(self.attempt) })
        } else {
            None
        }
    }

    /// Takes the answer to the pending question. Once every family is
    /// settled there is no question, and the state stays as it is.
    pub fn record(self, answer: Option<String>) -> (next: Resolution)
        ensures
            next@ == self@.answered(answer_view(answer)),
    {
        proof {
            use_type_invariant(&self);
        }
        let ghost before = self@;
        let Resolution { families, mut settled, attempt } = self;
        if settled.len() >= families.len() {
            let next = Resolution { families, settled, attempt };
            proof {
                assert(next@.settled =~= before.settled);
            }
            next
        } else if answer.is_some() || attempt + 1 >= CHAIN_LEN {
            settled.push(answer);
            let next = Resolution { families, settled, attempt: 0 };
            proof {
                assert(next@.settled =~= before.settled.push(answer_view(answer)));
            }
            next
        } else {
            let next = Resolution { families, settled, attempt: attempt + 1 };
            proof {
                assert(next@.settled =~= before.settled);
            }
            next
        }
    }

    /// The result of each settled family, in the order of the request: the
    /// address, or `ResolutionFailed` with the family whose chain was
    /// exhausted.
    pub fn results(&self) -> (results: Vec<Result<ResolvedAddress, ResolutionFailed>>)
        ensures
            results@.len() == self@.settled.len(),
            forall|f: int|
                0 <= f < results@.len() ==> result_view(#[trigger] results@[f]) == family_result(
                    self@.families[f],
                    self@.settled[f],
                ),
    {
        proof {
            use_type_invariant(self);
        }
        let mut results: Vec<Result<ResolvedAddress, ResolutionFailed>> = Vec::new();
        let mut f: usize = 0;
        while f < self.settled.len()
            invariant
                f <= self.settled.len(),
                self.settled.len() <= self.families.len(),
                results@.len() == f,
                forall|g: int|
                    0 <= g < f ==> result_view(#[trigger] results@[g]) == family_result(
                        self@.families[g],
                        self@.settled[g],
                    ),
            decreases self.settled.len() - f,
        {
            let family = self.families[f];
            let result = match &self.settled[f] {
                Some(value) => Ok(ResolvedAddress { family, value: value.clone() }),
                None => Err(ResolutionFailed { family }),
            };
            results.push(result);
            f += 1;
        }
        results
    }
}

/// A family's result as the contracts see it.
pub open spec fn result_view(result: Result<ResolvedAddress, ResolutionFailed>) -> Result<
    AddressSpec,
    ResolutionFailed,
> {
    match result {
        Ok(address) => Ok(address@),
        Err(failure) => Err(failure),
    }
}

/// The first address in `answers` at or after position `from`, if there is
/// one.
pub open spec fn first_from(answers: Seq<Option<Seq<char>>>, from: int) -> Option<Seq<char>>
    decreases answers.len() - from,
{
    if from < 0 || from >= answers.len() {
        None
    } else if answers[from].is_some() {
        answers[from]
    } else {
        first_from(answers, from + 1)
    }
}

/// The state in which a resolution ends when it is driven from `state` and
/// the oracles answer by the table: `answers[f][o]` is what the oracle at
/// position `o` of the chain says when it is asked for the family at position
/// `f` of the request.
pub open spec fn drive(state: ResolutionSpec, answers: Seq<Seq<Option<Seq<char>>>>) -> ResolutionSpec
    decreases state.families.len() - state.settled.len(), CHAIN_LEN - state.attempt,
{
    if !state.well_formed() || state.complete() {
        state
    } else {
        drive(state.answered(answers[state.settled.len() as int][state.attempt]), answers)
    }
}

/// The table has a row for each family and in each row an answer for each
/// oracle of the chain.
pub open spec fn covers(answers: Seq<Seq<Option<Seq<char>>>>, families: Seq<IpType>) -> bool {
    &&& answers.len() == families.len()
    &&& forall|f: int| 0 <= f < answers.len() ==> (#[trigger] answers[f]).len() == CHAIN_LEN
}

/// Driving a resolution to its end settles every family: those already
/// settled keep their result, the current one gets the first address among
/// the oracles not yet asked, each later one the first address of its chain.
pub proof fn lemma_drive(state: ResolutionSpec, answers: Seq<Seq<Option<Seq<char>>>>)
    requires
        state.well_formed(),
        covers(answers, state.families),
    ensures
        ({
            let end = drive(state, answers);
            &&& end.well_formed()
            &&& end.families == state.families
            &&& end.settled.len() == state.families.len()
            &&& forall|f: int|
                0 <= f < state.families.len() ==> #[trigger] end.settled[f] == if f
                    < state.settled.len() {
                    state.settled[f]
                } else if f == state.settled.len() {
                    first_from(answers[f], state.attempt)
                } else {
                    first_from(answers[f], 0)
                }
        }),
    decreases state.families.len() - state.settled.len(), CHAIN_LEN - state.attempt,
{
    if !state.complete() {
        let current = state.settled.len() as int;
        let row = answers[current];
        let next = state.answered(row[state.attempt]);
        lemma_drive(next, answers);
        assert(row.len() == CHAIN_LEN);
        if row[state.attempt].is_none() && state.attempt + 1 >= CHAIN_LEN {
            assert(first_from(row, state.attempt + 1).is_none());
        }
    }
}

/// A complete resolution gives each requested family the first address that
/// an oracle of its chain returned, and a failure where none returned one.
pub proof fn lemma_resolution_settles(families: Seq<IpType>, answers: Seq<Seq<Option<Seq<char>>>>)
    requires
        covers(answers, families),
    ensures
        ({
            let end = drive(ResolutionSpec::start(families), answers);
            &&& end.complete()
            &&& end.pending().is_none()
            &&& end.families == families
            &&& end.settled.len() == families.len()
            &&& forall|f: int|
                0 <= f < families.len() ==> #[trigger] end.settled[f] == first_from(answers[f], 0)
        }),
{
    lemma_drive(ResolutionSpec::start(families), answers);
}

/// Fallback: where any oracle of a family's chain returns an address, the
/// resolution has an address for that family, whatever the other oracles and
/// the other families did.
pub proof fn lemma_fallback_succeeds(
    families: Seq<IpType>,
    answers: Seq<Seq<Option<Seq<char>>>>,
    f: int,
    o: int,
)
    requires
        covers(answers, families),
        0 <= f < families.len(),
        0 <= o < CHAIN_LEN,
        answers[f][o].is_some(),
    ensures
        drive(ResolutionSpec::start(families), answers).settled[f].is_some(),
        family_result(
            families[f],
            drive(ResolutionSpec::start(families), answers).settled[f],
        ).is_ok(),
{
    lemma_resolution_settles(families, answers);
    lemma_first_from_found(answers[f], 0, o);
}

/// An address at position `at` is found from every position up to it.
pub proof fn lemma_first_from_found(answers: Seq<Option<Seq<char>>>, from: int, at: int)
    requires
        0 <= from <= at < answers.len(),
        answers[at].is_some(),
    ensures
        first_from(answers, from).is_some(),
    decreases at - from,
{
    if from < at && answers[from].is_none() {
        lemma_first_from_found(answers, from + 1, at);
    }
}

/// Where no oracle at or after `from` returned an address, none is found.
pub proof fn lemma_first_from_none(answers: Seq<Option<Seq<char>>>, from: int)
    requires
        forall|o: int| from <= o < answers.len() ==> answers[o].is_none(),
    ensures
        first_from(answers, from).is_none(),
    decreases answers.len() - from,
{
    if 0 <= from < answers.len() {
        lemma_first_from_none(answers, from + 1);
    }
}

/// Exhaustion: where every oracle of a family's chain fails, the resolution
/// reports `ResolutionFailed` for that family.
pub proof fn lemma_exhausted_chain_fails(
    families: Seq<IpType>,
    answers: Seq<Seq<Option<Seq<char>>>>,
    f: int,
)
    requires
        covers(answers, families),
        0 <= f < families.len(),
        forall|o: int| 0 <= o < CHAIN_LEN ==> answers[f][o].is_none(),
    ensures
        family_result(families[f], drive(ResolutionSpec::start(families), answers).settled[f])
            == Err::<AddressSpec, ResolutionFailed>(ResolutionFailed { family: families[f] }),
{
    lemma_resolution_settles(families, answers);
    lemma_first_from_none(answers[f], 0);
}

/// Independence: a family's result depends on the answers of its own chain
/// alone. Two runs whose oracles answer alike for one family settle it alike,
/// however the chains of the other families fare.
pub proof fn lemma_families_independent(
    families: Seq<IpType>,
    answers: Seq<Seq<Option<Seq<char>>>>,
    others: Seq<Seq<Option<Seq<char>>>>,
    f: int,
)
    requires
        covers(answers, families),
        covers(others, families),
        0 <= f < families.len(),
        answers[f] == others[f],
    ensures
        drive(ResolutionSpec::start(families), answers).settled[f] == drive(
            ResolutionSpec::start(families),
            others,
        ).settled[f],
{
    lemma_resolution_settles(families, answers);
    lemma_resolution_settles(families, others);
}

} // verus!
