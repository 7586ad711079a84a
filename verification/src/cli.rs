//! One reconciliation pass: from the configuration and the resolved
//! addresses to the records to converge, and through them until the first
//! failure.

use vstd::prelude::*;
use crate::model::{
    request_for, AddressSpec, IpType, Outcome, ReconcileError, ReconcileErrorSpec, RecordRequest,
    RequestSpec, ResolutionFailed, ResolvedAddress,
};
use crate::resolver::result_view;

verus! {

/// The configuration of a pass.
#[derive(Debug)]
pub struct Args {
    /// The zone whose records are managed.
    pub domain: String,
    /// The labels to converge, one record per label and resolved address.
    pub subdomain: Vec<String>,
    /// The address families to resolve.
    pub ip_type: Vec<IpType>,
    /// The ttl, in seconds, that each record is to have.
    pub ttl: i64,
    /// The provider's bearer credential.
    pub token: String,
}

/// The labels by their views.
pub open spec fn labels(subdomain: Seq<String>) -> Seq<Seq<char>> {
    Seq::new(subdomain.len(), |s: int| subdomain[s]@)
}

/// The family results by their views.
pub open spec fn result_views(resolved: Seq<Result<ResolvedAddress, ResolutionFailed>>) -> Seq<
    Result<AddressSpec, ResolutionFailed>,
> {
    Seq::new(resolved.len(), |f: int| result_view(resolved[f]))
}

/// Position `f` holds the first failed family.
pub open spec fn first_failure(resolved: Seq<Result<AddressSpec, ResolutionFailed>>, f: int) -> bool {
    &&& 0 <= f < resolved.len()
    &&& resolved[f].is_err()
    &&& forall|g: int| 0 <= g < f ==> resolved[g].is_ok()
}

/// Every family has an address.
pub open spec fn all_resolved(resolved: Seq<Result<AddressSpec, ResolutionFailed>>) -> bool {
    forall|f: int| 0 <= f < resolved.len() ==> resolved[f].is_ok()
}

/// `requests` holds one request per label and address: label by label, and
/// for each label the addresses in their order.
pub open spec fn is_plan(
    requests: Seq<RequestSpec>,
    subdomains: Seq<Seq<char>>,
    resolved: Seq<Result<AddressSpec, ResolutionFailed>>,
    ttl: int,
) -> bool {
    &&& requests.len() == subdomains.len() * resolved.len()
    &&& forall|s: int, a: int|
        #![trigger subdomains[s], resolved[a]]
        0 <= s < subdomains.len() && 0 <= a < resolved.len() ==> (resolved[a] matches Ok(address)
            && requests[s * resolved.len() + a] == request_for(subdomains[s], address, ttl))
}

/// With a ttl of zero or more seconds every request of a plan is well
/// formed: its type is the one that carries its address.
pub proof fn lemma_plan_well_formed(
    requests: Seq<RequestSpec>,
    subdomains: Seq<Seq<char>>,
    resolved: Seq<Result<AddressSpec, ResolutionFailed>>,
    ttl: int,
    s: int,
    a: int,
)
    requires
        is_plan(requests, subdomains, resolved, ttl),
        0 <= s < subdomains.len(),
        0 <= a < resolved.len(),
        ttl >= 0,
    ensures
        0 <= s * resolved.len() + a < requests.len(),
        requests[s * resolved.len() + a].well_formed(),
        requests[s * resolved.len() + a].name == subdomains[s],
        requests[s * resolved.len() + a].ttl == ttl,
{
    lemma_cell(s, subdomains.len() as int, resolved.len() as int, a);
    let label = subdomains[s];
    let address = resolved[a];
    assert(address.is_ok());
    assert(requests[s * resolved.len() + a].name == label);
}

/// View of a [`Pass`].
pub ghost struct PassSpec {
    /// The requests of the pass, in the order in which they are reconciled.
    pub requests: Seq<RequestSpec>,
    /// The outcome of each request that was reconciled.
    pub outcomes: Seq<Outcome>,
    /// The error that stopped the pass, if one did.
    pub failure: Option<ReconcileErrorSpec>,
}

impl PassSpec {
    /// No more outcomes than requests, and an error only where a request
    /// was still due.
    pub open spec fn well_formed(self) -> bool {
        &&& self.outcomes.len() <= self.requests.len()
        &&& self.failure.is_some() ==> self.outcomes.len() < self.requests.len()
    }

    /// The request to reconcile next: the one after the last outcome, unless
    /// an error has stopped the pass or no request is left.
    pub open spec fn pending(self) -> Option<RequestSpec> {
        if self.failure.is_none() && self.outcomes.len() < self.requests.len() {
            Some(self.requests[self.outcomes.len() as int])
        } else {
            None
        }
    }

    /// The pass after the pending request ended with `result`: an outcome is
    /// noted and the next request falls due, an error stops the pass.
    pub open spec fn recorded(self, result: Result<Outcome, ReconcileErrorSpec>) -> PassSpec {
        if self.pending().is_none() {
            self
        } else {
            match result {
                Ok(outcome) => PassSpec { outcomes: self.outcomes.push(outcome), ..self },
                Err(error) => PassSpec { failure: Some(error), ..self },
            }
        }
    }
}

/// The records of a pass and how far it has come.
#[derive(Debug)]
pub struct Pass {
    requests: Vec<RecordRequest>,
    outcomes: Vec<Outcome>,
    failure: Option<ReconcileError>,
}

impl View for Pass {
    type V = PassSpec;

    closed spec fn view(&self) -> PassSpec {
        PassSpec {
            requests: Seq::new(self.requests@.len(), |k: int| self.requests@[k]@),
            outcomes: self.outcomes@,
            failure: match self.failure {
                Some(error) => Some(error@),
                None => None,
            },
        }
    }
}

impl Pass {
    #[verifier::type_invariant]
    spec fn inv(self) -> bool {
        self@.well_formed()
    }

    /// The request to reconcile next; `None` when all are done or one has
    /// failed.
    pub fn pending(&self) -> (request: Option<&RecordRequest>)
        ensures
            self@.well_formed(),
            match request {
                Some(request) => self@.pending() == Some(request@),
                None => self@.pending().is_none(),
            },
    {
        proof {
            use_type_invariant(self);
        }
        if self.failure.is_none() && self.outcomes.len() < self.requests.len() {
            Some(&self.requests[self.outcomes.len()])
        } else {
            None
        }
    }

    /// Takes the result of reconciling the pending request. Where no request
    /// is pending the pass stays as it is.
    pub fn record(self, result: Result<Outcome, ReconcileError>) -> (next: Pass)
        ensures
            next@ == self@.recorded(
                match result {
                    Ok(outcome) => Ok(outcome),
                    Err(error) => Err(error@),
                },
            ),
    {
        proof {
            use_type_invariant(&self);
        }
        let ghost before = self@;
        let Pass { requests, mut outcomes, failure } = self;
        if failure.is_some() || outcomes.len() >= requests.len() {
            let next = Pass { requests, outcomes, failure };
            proof {
                assert(next@.requests =~= before.requests);
            }
            next
        } else {
            match result {
                Ok(outcome) => {
                    outcomes.push(outcome);
                    let next = Pass { requests, outcomes, failure };
                    proof {
                        assert(next@.requests =~= before.requests);
                    }
                    next
                },
                Err(error) => {
                    let next = Pass { requests, outcomes, failure: Some(error) };
                    proof {
                        assert(next@.requests =~= before.requests);
                    }
                    next
                },
            }
        }
    }

    /// The outcomes so far, in the order of the requests.
    pub fn outcomes(&self) -> (outcomes: &Vec<Outcome>)
        ensures
            outcomes@ == self@.outcomes,
    {
        &self.outcomes
    }

    /// The error that stopped the pass, if one did.
    pub fn failure(&self) -> (failure: &Option<ReconcileError>)
        ensures
            match failure {
                Some(error) => self@.failure == Some(error@),
                None => self@.failure.is_none(),
            },
    {
        &self.failure
    }
}

/// Fail-fast: an error on the pending request stops the pass. No request is
/// pending after it, and whatever is recorded later changes nothing.
pub proof fn lemma_error_stops_pass(
    pass: PassSpec,
    error: ReconcileErrorSpec,
    later: Result<Outcome, ReconcileErrorSpec>,
)
    requires
        pass.pending().is_some(),
    ensures
        pass.recorded(Err(error)).failure == Some(error),
        pass.recorded(Err(error)).outcomes == pass.outcomes,
        pass.recorded(Err(error)).pending().is_none(),
        pass.recorded(Err(error)).recorded(later) == pass.recorded(Err(error)),
{
}

/// Cell `(row, col)` of a table of the given width lies before the end of
/// row `row`, and each row ends where the next begins.
proof fn lemma_cell(row: int, rows: int, width: int, col: int)
    requires
        0 <= row < rows,
        0 <= col < width,
    ensures
        0 <= row * width + col < (row + 1) * width <= rows * width,
        (row + 1) * width == row * width + width,
{
    assert((row + 1) * width == row * width + width) by (nonlinear_arith);
    assert(row * width >= 0) by (nonlinear_arith)
        requires
            row >= 0,
            width >= 0,
    ;
    assert((row + 1) * width <= rows * width) by (nonlinear_arith)
        requires
            row + 1 <= rows,
            width >= 0,
    ;
}

/// Plans the pass once the families are resolved. A failed family aborts it:
/// the first failure, in the order of `resolved`, is returned and no record
/// is touched. Otherwise the pass holds one request per label and address,
/// label by label, each with the configured ttl, and nothing is reconciled
/// yet.
pub fn run(args: &Args, resolved: &Vec<Result<ResolvedAddress, ResolutionFailed>>) -> (plan: Result<
    Pass,
    ResolutionFailed,
>)
    ensures
        match plan {
            Ok(pass) => {
                &&& all_resolved(result_views(resolved@))
                &&& pass@.well_formed()
                &&& pass@.outcomes.len() == 0
                &&& pass@.failure.is_none()
                &&& is_plan(
                    pass@.requests,
                    labels(args.subdomain@),
                    result_views(resolved@),
                    args.ttl as int,
                )
            },
            Err(failure) => exists|f: int|
                #[trigger] first_failure(result_views(resolved@), f) && result_views(resolved@)[f]
                    == Err::<AddressSpec, ResolutionFailed>(failure),
        },
{
    let ghost results = result_views(resolved@);
    let ghost names = labels(args.subdomain@);
    let width = resolved.len();
    let mut addresses: Vec<&ResolvedAddress> = Vec::new();
    let mut f: usize = 0;
    while f < width
        invariant
            f <= width == resolved.len(),
            results == result_views(resolved@),
            addresses@.len() == f,
            forall|g: int|
                0 <= g < f ==> (#[trigger] results[g]) == Ok::<AddressSpec, ResolutionFailed>(
                    addresses@[g]@,
                ),
        decreases width - f,
    {
        match &resolved[f] {
            Ok(address) => addresses.push(address),
            Err(failure) => {
                proof {
                    assert(first_failure(results, f as int));
                }
                return Err(*failure);
            },
        }
        f += 1;
    }
    let mut requests: Vec<RecordRequest> = Vec::new();
    let mut s: usize = 0;
    while s < args.subdomain.len()
        invariant
            s <= args.subdomain.len(),
            width == resolved.len() == addresses@.len(),
            results == result_views(resolved@),
            names == labels(args.subdomain@),
            forall|g: int|
                0 <= g < width ==> (#[trigger] results[g]) == Ok::<AddressSpec, ResolutionFailed>(
                    addresses@[g]@,
                ),
            requests@.len() == s * width,
            forall|r: int, a: int|
                #![trigger names[r], addresses@[a]]
                0 <= r < s && 0 <= a < width ==> requests@[r * width + a]@ == request_for(
                    names[r],
                    addresses@[a]@,
                    args.ttl as int,
                ),
        decreases args.subdomain.len() - s,
    {
        let mut a: usize = 0;
        while a < width
            invariant
                s < args.subdomain.len(),
                a <= width == resolved.len() == addresses@.len(),
                results == result_views(resolved@),
                names == labels(args.subdomain@),
                forall|g: int|
                    0 <= g < width ==> (#[trigger] results[g]) == Ok::<AddressSpec, ResolutionFailed>(
                        addresses@[g]@,
                    ),
                requests@.len() == s * width + a,
                forall|r: int, c: int|
                    #![trigger names[r], addresses@[c]]
                    0 <= r < s && 0 <= c < width ==> requests@[r * width + c]@ == request_for(
                        names[r],
                        addresses@[c]@,
                        args.ttl as int,
                    ),
                forall|c: int|
                    #![trigger addresses@[c]]
                    0 <= c < a ==> requests@[s * width + c]@ == request_for(
                        names[s as int],
                        addresses@[c]@,
                        args.ttl as int,
                    ),
            decreases width - a,
        {
            let request = RecordRequest::new(&args.subdomain[s], addresses[a], args.ttl);
            proof {
                assert forall|r: int, c: int|
                    #![trigger names[r], addresses@[c]]
                    0 <= r < s && 0 <= c < width implies r * width + c < s * width by {
                    lemma_cell(r, s as int, width as int, c);
                }
            }
            requests.push(request);
            a += 1;
        }
        proof {
            assert((s + 1) * width == s * width + width) by (nonlinear_arith);
        }
        s += 1;
    }
    let pass = Pass { requests, outcomes: Vec::new(), failure: None };
    proof {
        assert forall|r: int, a: int|
            #![trigger names[r], results[a]]
            0 <= r < names.len() && 0 <= a < results.len() implies (results[a] matches Ok(address)
            && pass@.requests[r * results.len() + a] == request_for(
            names[r],
            address,
            args.ttl as int,
        )) by {
            lemma_cell(r, names.len() as int, width as int, a);
            assert(results[a] == Ok::<AddressSpec, ResolutionFailed>(addresses@[a]@));
            assert(pass@.requests[r * width + a] == requests@[r * width + a]@);
        }
    }
    Ok(pass)
}

} // verus!
