//! Converging one provider record on a request: create it where it is absent,
//! update it where it is stale, leave it where it is already correct.
//!
//! The provider is reached over the network, so a reconciliation is two
//! decisions around the caller's calls: [`upsert`] reads a listing and says
//! which write, if any, is due; [`conclude`] turns the write's result into the
//! outcome.

use vstd::prelude::*;
use crate::model::{
    listing, Outcome, ProviderRecord, ProviderRecordSpec, ReconcileError, ReconcileErrorSpec,
    RecordRequest, RequestSpec,
};

verus! {

/// View of a [`Write`].
pub ghost enum WriteSpec {
    Create { name: Seq<char>, record_type: Seq<char>, value: Seq<char>, ttl: int },
    Update { id: Seq<char>, value: Seq<char>, ttl: int },
}

/// The single provider call that converges a record.
#[derive(Clone, Debug, PartialEq, Eq)]
pub enum Write {
    /// Create a record with these fields.
    Create { name: String, record_type: String, value: String, ttl: i64 },
    /// Give the record with this identifier a new value and ttl.
    Update { id: String, value: String, ttl: i64 },
}

impl View for Write {
    type V = WriteSpec;

    open spec fn view(&self) -> WriteSpec {
        match self {
            Write::Create { name, record_type, value, ttl } => WriteSpec::Create {
                name: name@,
                record_type: record_type@,
                value: value@,
                ttl: *ttl as int,
            },
            Write::Update { id, value, ttl } => WriteSpec::Update {
                id: id@,
                value: value@,
                ttl: *ttl as int,
            },
        }
    }
}

impl WriteSpec {
    /// The outcome that a successful write of this kind stands for.
    pub open spec fn outcome(self) -> Outcome {
        match self {
            WriteSpec::Create { .. } => Outcome::Created,
            WriteSpec::Update { .. } => Outcome::Updated,
        }
    }
}

/// View of a [`Step`].
pub ghost enum StepSpec {
    Issue(WriteSpec),
    Done(Result<Outcome, ReconcileErrorSpec>),
}

/// What a reconciliation asks of its caller after the listing was read.
#[derive(Debug, PartialEq, Eq)]
pub enum Step {
    /// Make this call, then hand its result to [`conclude`].
    Issue(Write),
    /// Nothing is to be written: the reconciliation has ended with this result.
    Done(Result<Outcome, ReconcileError>),
}

impl View for Step {
    type V = StepSpec;

    open spec fn view(&self) -> StepSpec {
        match self {
            Step::Issue(write) => StepSpec::Issue(write@),
            Step::Done(Ok(outcome)) => StepSpec::Done(Ok(*outcome)),
            Step::Done(Err(error)) => StepSpec::Done(Err(error@)),
        }
    }
}

/// The record has the request's name and type.
pub open spec fn targets(record: ProviderRecordSpec, request: RequestSpec) -> bool {
    record.name == request.name && record.record_type == request.record_type
}

/// The record already holds the request's value and ttl.
pub open spec fn in_sync(record: ProviderRecordSpec, request: RequestSpec) -> bool {
    record.value == request.value && record.ttl == request.ttl
}

/// Position `i` of the listing holds a record that the request targets.
pub open spec fn is_match(records: Seq<ProviderRecordSpec>, request: RequestSpec, i: int) -> bool {
    0 <= i < records.len() && targets(records[i], request)
}

/// The listing holds no record that the request targets.
pub open spec fn no_match(records: Seq<ProviderRecordSpec>, request: RequestSpec) -> bool {
    forall|i: int| !is_match(records, request, i)
}

/// Position `i` holds the only record that the request targets.
pub open spec fn sole_match(records: Seq<ProviderRecordSpec>, request: RequestSpec, i: int) -> bool {
    is_match(records, request, i) && forall|j: int| is_match(records, request, j) ==> j == i
}

/// The step that a listing calls for: create on no match; on a single match
/// nothing if it is in sync and an update of that record otherwise; on
/// several matches an error, since no rule says which of them to keep.
pub open spec fn plan(records: Seq<ProviderRecordSpec>, request: RequestSpec) -> StepSpec {
    if no_match(records, request) {
        StepSpec::Issue(
            WriteSpec::Create {
                name: request.name,
                record_type: request.record_type,
                value: request.value,
                ttl: request.ttl,
            },
        )
    } else {
        let i = choose|i: int| is_match(records, request, i);
        if !sole_match(records, request, i) {
            StepSpec::Done(Err(ReconcileErrorSpec::AmbiguousRecord))
        } else if in_sync(records[i], request) {
            StepSpec::Done(Ok(Outcome::Unchanged))
        } else {
            StepSpec::Issue(
                WriteSpec::Update { id: records[i].id, value: request.value, ttl: request.ttl },
            )
        }
    }
}

/// The step that the result of the list call calls for: a failed call ends
/// the reconciliation, a listing is planned on.
pub open spec fn upsert_spec(
    listed: Result<Seq<ProviderRecordSpec>, Seq<char>>,
    request: RequestSpec,
) -> StepSpec {
    match listed {
        Ok(records) => plan(records, request),
        Err(cause) => StepSpec::Done(Err(ReconcileErrorSpec::ProviderUnavailable { cause })),
    }
}

/// The provider's records after a successful write, where `id` is the
/// identifier that the provider gives a created record.
pub open spec fn after_write(
    records: Seq<ProviderRecordSpec>,
    write: WriteSpec,
    id: Seq<char>,
) -> Seq<ProviderRecordSpec> {
    match write {
        WriteSpec::Create { name, record_type, value, ttl } => records.push(
            ProviderRecordSpec { id, name, record_type, value, ttl },
        ),
        WriteSpec::Update { id: target, value, ttl } => Seq::new(
            records.len(),
            |i: int|
                if records[i].id == target {
                    ProviderRecordSpec { value, ttl, ..records[i] }
                } else {
                    records[i]
                },
        ),
    }
}

/// Decides on a listing of the domain's records. The listing need not be
/// filtered: records of other names and types are passed over.
pub fn decide(records: &Vec<ProviderRecord>, request: &RecordRequest) -> (step: Step)
    ensures
        step@ == plan(listing(records@), request@),
{
    let ghost recs = listing(records@);
    let mut found: Option<usize> = None;
    let mut i: usize = 0;
    while i < records.len()
        invariant
            i <= records.len(),
            recs == listing(records@),
            match found {
                None => forall|j: int| 0 <= j < i ==> !is_match(recs, request@, j),
                Some(k) => k < i && is_match(recs, request@, k as int) && forall|j: int|
                    0 <= j < i && is_match(recs, request@, j) ==> j == k,
            },
        decreases records.len() - i,
    {
        let record = &records[i];
        if record.name == request.name && record.record_type == request.record_type {
            if let Some(k) = found {
                proof {
                    assert(is_match(recs, request@, k as int));
                    assert(is_match(recs, request@, i as int));
                }
                return Step::Done(Err(ReconcileError::AmbiguousRecord));
            }
            found = Some(i);
        }
        i += 1;
    }
    match found {
        None => Step::Issue(
            Write::Create {
                name: request.name.clone(),
                record_type: request.record_type.clone(),
                value: request.value.clone(),
                ttl: request.ttl,
            },
        ),
        Some(k) => {
            let record = &records[k];
            if record.value == request.value && record.ttl == request.ttl {
                Step::Done(Ok(Outcome::Unchanged))
            } else {
                Step::Issue(
                    Write::Update {
                        id: record.id.clone(),
                        value: request.value.clone(),
                        ttl: request.ttl,
                    },
                )
            }
        },
    }
}

/// First half of a reconciliation: takes the result of the list call, the
/// listing or the cause of its failure, and says what is due.
pub fn upsert(listed: Result<Vec<ProviderRecord>, String>, request: &RecordRequest) -> (step: Step)
    ensures
        step@ == upsert_spec(
            match listed {
                Ok(records) => Ok(listing(records@)),
                Err(cause) => Err(cause@),
            },
            request@,
        ),
{
    match listed {
        Ok(records) => decide(&records, request),
        Err(cause) => Step::Done(Err(ReconcileError::ProviderUnavailable { cause })),
    }
}

/// Second half of a reconciliation: takes the result of the write that
/// [`upsert`] asked for and gives the outcome. A failed write is not retried.
pub fn conclude(write: &Write, result: Result<(), String>) -> (outcome: Result<
    Outcome,
    ReconcileError,
>)
    ensures
        match result {
            Ok(_) => outcome == Ok::<Outcome, ReconcileError>(write@.outcome()),
            Err(cause) => outcome matches Err(error) && error@
                == (ReconcileErrorSpec::ProviderUnavailable { cause: cause@ }),
        },
{
    match result {
        Ok(_) => match write {
            Write::Create { .. } => Ok(Outcome::Created),
            Write::Update { .. } => Ok(Outcome::Updated),
        },
        Err(cause) => Err(ReconcileError::ProviderUnavailable { cause }),
    }
}

/// Whatever write a listing calls for, the records that the write leaves
/// hold exactly one record of the request's name and type and call for no
/// further write: the same request then ends as `Unchanged`. Here `id` is the
/// identifier that the provider gives a created record; an update has no use
/// for it.
pub proof fn lemma_write_settles(
    records: Seq<ProviderRecordSpec>,
    request: RequestSpec,
    id: Seq<char>,
)
    ensures
        plan(records, request) matches StepSpec::Issue(write) ==> {
            &&& exists|i: int| sole_match(after_write(records, write, id), request, i)
            &&& plan(after_write(records, write, id), request) == StepSpec::Done(
                Ok(Outcome::Unchanged),
            )
        },
{
    if no_match(records, request) {
        lemma_create_then_unchanged(records, request, id);
    } else {
        let i = choose|i: int| is_match(records, request, i);
        if sole_match(records, request, i) && !in_sync(records[i], request) {
            lemma_stale_record_updated(records, request, i, id);
        }
    }
}

/// No duplicates: a create is called for only where the listing holds no
/// record of the request's name and type, and an update only where it holds
/// exactly one.
pub proof fn lemma_write_fits_listing(records: Seq<ProviderRecordSpec>, request: RequestSpec)
    ensures
        plan(records, request) matches StepSpec::Issue(WriteSpec::Create { .. }) ==> no_match(
            records,
            request,
        ),
        plan(records, request) matches StepSpec::Issue(WriteSpec::Update { id, .. })
            ==> exists|i: int| sole_match(records, request, i) && records[i].id == id,
{
    if !no_match(records, request) {
        let i = choose|i: int| is_match(records, request, i);
        if sole_match(records, request, i) && !in_sync(records[i], request) {
            assert(sole_match(records, request, i));
        }
    }
}

/// A single record of the request's name and type that already holds the
/// request's value and ttl ends the reconciliation as `Unchanged`; the step
/// holds no write.
pub proof fn lemma_correct_record_kept(
    records: Seq<ProviderRecordSpec>,
    request: RequestSpec,
    i: int,
)
    requires
        sole_match(records, request, i),
        in_sync(records[i], request),
    ensures
        plan(records, request) == StepSpec::Done(Ok(Outcome::Unchanged)),
{
}

/// Idempotence: on a listing without a record of the request's name and
/// type the reconciliation creates one; on the records that the create
/// leaves, the created record is the only one that the request targets, and
/// the same request ends as `Unchanged` without a write.
pub proof fn lemma_create_then_unchanged(
    records: Seq<ProviderRecordSpec>,
    request: RequestSpec,
    id: Seq<char>,
)
    requires
        no_match(records, request),
    ensures
        plan(records, request) matches StepSpec::Issue(write) && write.outcome()
            == Outcome::Created && sole_match(
            after_write(records, write, id),
            request,
            records.len() as int,
        ) && plan(after_write(records, write, id), request) == StepSpec::Done(
            Ok(Outcome::Unchanged),
        ),
{
    let write = WriteSpec::Create {
        name: request.name,
        record_type: request.record_type,
        value: request.value,
        ttl: request.ttl,
    };
    let after = after_write(records, write, id);
    let last = records.len() as int;
    assert(is_match(after, request, last));
    assert forall|j: int| is_match(after, request, j) implies j == last by {
        if j != last {
            assert(is_match(records, request, j));
        }
    }
    assert(sole_match(after, request, last));
    assert(in_sync(after[last], request));
}

/// Convergence: where exactly one record has the request's name and type and
/// it differs from the request in value or ttl, the reconciliation issues one
/// update, addressed to that record's identifier and carrying the request's
/// value and ttl; after it the record holds both, and the same request ends
/// as `Unchanged`.
pub proof fn lemma_stale_record_updated(
    records: Seq<ProviderRecordSpec>,
    request: RequestSpec,
    i: int,
    id: Seq<char>,
)
    requires
        sole_match(records, request, i),
        !in_sync(records[i], request),
    ensures
        plan(records, request) == StepSpec::Issue(
            WriteSpec::Update { id: records[i].id, value: request.value, ttl: request.ttl },
        ),
        ({
            let write = WriteSpec::Update {
                id: records[i].id,
                value: request.value,
                ttl: request.ttl,
            };
            let after = after_write(records, write, id);
            &&& write.outcome() == Outcome::Updated
            &&& after.len() == records.len()
            &&& after[i].id == records[i].id
            &&& after[i].value == request.value
            &&& after[i].ttl == request.ttl
            &&& sole_match(after, request, i)
            &&& plan(after, request) == StepSpec::Done(Ok(Outcome::Unchanged))
        }),
{
    let write = WriteSpec::Update { id: records[i].id, value: request.value, ttl: request.ttl };
    let after = after_write(records, write, id);
    assert(is_match(after, request, i));
    assert forall|j: int| is_match(after, request, j) implies j == i by {
        assert(is_match(records, request, j));
    }
    assert(in_sync(after[i], request));
}

/// Ambiguity: two records of the request's name and type end the
/// reconciliation with `AmbiguousRecord`; the step holds no write.
pub proof fn lemma_duplicates_rejected(
    records: Seq<ProviderRecordSpec>,
    request: RequestSpec,
    i: int,
    j: int,
)
    requires
        i != j,
        is_match(records, request, i),
        is_match(records, request, j),
    ensures
        plan(records, request) == StepSpec::Done(Err(ReconcileErrorSpec::AmbiguousRecord)),
{
}

} // verus!
