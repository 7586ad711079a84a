//! The values that the resolver and the reconciler exchange, each with the
//! mathematical view that the contracts speak of.

use vstd::prelude::*;

verus! {

/// Address family of a public IP address.
#[derive(Clone, Copy, Debug, PartialEq, Eq, Structural)]
pub enum IpType {
    IPV4,
    IPV6,
}

impl IpType {
    /// The DNS record type that carries an address of this family.
    pub open spec fn record_type(self) -> Seq<char> {
        match self {
            IpType::IPV4 => "A"@,
            IpType::IPV6 => "AAAA"@,
        }
    }

    /// `"A"` for IPv4, `"AAAA"` for IPv6.
    pub fn record_type_name(self) -> (name: String)
        ensures
            name@ == self.record_type(),
    {
        match self {
            IpType::IPV4 => "A".to_string(),
            IpType::IPV6 => "AAAA".to_string(),
        }
    }
}

/// View of a [`ResolvedAddress`].
pub ghost struct AddressSpec {
    pub family: IpType,
    pub value: Seq<char>,
}

/// A public address together with the family it was resolved for.
#[derive(Clone, Debug, PartialEq, Eq)]
pub struct ResolvedAddress {
    pub family: IpType,
    pub value: String,
}

impl View for ResolvedAddress {
    type V = AddressSpec;

    open spec fn view(&self) -> AddressSpec {
        AddressSpec { family: self.family, value: self.value@ }
    }
}

/// View of a [`RecordRequest`].
pub ghost struct RequestSpec {
    pub name: Seq<char>,
    pub value: Seq<char>,
    pub record_type: Seq<char>,
    pub ttl: int,
}

/// The record that one subdomain should hold for one resolved address.
#[derive(Clone, Debug, PartialEq, Eq)]
pub struct RecordRequest {
    pub name: String,
    pub value: String,
    pub record_type: String,
    pub ttl: i64,
}

impl View for RecordRequest {
    type V = RequestSpec;

    open spec fn view(&self) -> RequestSpec {
        RequestSpec {
            name: self.name@,
            value: self.value@,
            record_type: self.record_type@,
            ttl: self.ttl as int,
        }
    }
}

impl RequestSpec {
    /// The record type is one of the two that carry an address, and the ttl
    /// is a number of seconds.
    pub open spec fn well_formed(self) -> bool {
        &&& self.record_type == IpType::IPV4.record_type() || self.record_type
            == IpType::IPV6.record_type()
        &&& self.ttl >= 0
    }
}

/// The request that puts `address` under the label `name`.
pub open spec fn request_for(name: Seq<char>, address: AddressSpec, ttl: int) -> RequestSpec {
    RequestSpec {
        name,
        value: address.value,
        record_type: address.family.record_type(),
        ttl,
    }
}

impl RecordRequest {
    /// Builds the request for one (subdomain, resolved address) pair.
    pub fn new(name: &String, address: &ResolvedAddress, ttl: i64) -> (request: RecordRequest)
        ensures
            request@ == request_for(name@, address@, ttl as int),
            ttl >= 0 ==> request@.well_formed(),
    {
        RecordRequest {
            name: name.clone(),
            value: address.value.clone(),
            record_type: address.family.record_type_name(),
            ttl,
        }
    }
}

/// View of a [`ProviderRecord`].
pub ghost struct ProviderRecordSpec {
    pub id: Seq<char>,
    pub name: Seq<char>,
    pub record_type: Seq<char>,
    pub value: Seq<char>,
    pub ttl: int,
}

/// A record as the provider reports it.
#[derive(Clone, Debug, PartialEq, Eq)]
pub struct ProviderRecord {
    pub id: String,
    pub name: String,
    pub record_type: String,
    pub value: String,
    pub ttl: i64,
}

impl View for ProviderRecord {
    type V = ProviderRecordSpec;

    open spec fn view(&self) -> ProviderRecordSpec {
        ProviderRecordSpec {
            id: self.id@,
            name: self.name@,
            record_type: self.record_type@,
            value: self.value@,
            ttl: self.ttl as int,
        }
    }
}

/// The records of a listing, each by its view, in the listing's order.
pub open spec fn listing(records: Seq<ProviderRecord>) -> Seq<ProviderRecordSpec> {
    Seq::new(records.len(), |i: int| records[i]@)
}

/// What one reconciliation did to the provider's state.
#[derive(Clone, Copy, Debug, PartialEq, Eq, Structural)]
pub enum Outcome {
    Created,
    Updated,
    Unchanged,
}

/// View of a [`ReconcileError`].
pub ghost enum ReconcileErrorSpec {
    AmbiguousRecord,
    ProviderUnavailable { cause: Seq<char> },
}

/// Why one record could not be reconciled.
#[derive(Clone, Debug, PartialEq, Eq)]
pub enum ReconcileError {
    /// More than one provider record has the request's name and type.
    AmbiguousRecord,
    /// A list, create or update call failed at the provider.
    ProviderUnavailable { cause: String },
}

impl View for ReconcileError {
    type V = ReconcileErrorSpec;

    open spec fn view(&self) -> ReconcileErrorSpec {
        match self {
            ReconcileError::AmbiguousRecord => ReconcileErrorSpec::AmbiguousRecord,
            ReconcileError::ProviderUnavailable { cause } => ReconcileErrorSpec::ProviderUnavailable {
                cause: cause@,
            },
        }
    }
}

/// Every oracle of one family's chain failed.
#[derive(Clone, Copy, Debug, PartialEq, Eq, Structural)]
pub struct ResolutionFailed {
    pub family: IpType,
}

} // verus!
