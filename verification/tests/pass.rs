use vddns::{
    conclude, resolve, run, upsert, Args, IpType, Outcome, ProviderRecord, ReconcileError,
    RecordRequest, ResolutionFailed, ResolvedAddress, Step, Write,
};

fn args(subdomains: &[&str], families: Vec<IpType>, ttl: i64) -> Args {
    Args {
        domain: "example.com".to_string(),
        subdomain: subdomains.iter().map(|label| label.to_string()).collect(),
        ip_type: families,
        ttl,
        token: "t0ken".to_string(),
    }
}

fn resolved(family: IpType, value: &str) -> Result<ResolvedAddress, ResolutionFailed> {
    Ok(ResolvedAddress { family, value: value.to_string() })
}

fn request(name: &str, record_type: &str, value: &str, ttl: i64) -> RecordRequest {
    RecordRequest {
        name: name.to_string(),
        value: value.to_string(),
        record_type: record_type.to_string(),
        ttl,
    }
}

fn apply(zone: &mut Vec<ProviderRecord>, write: &Write) {
    match write {
        Write::Create { name, record_type, value, ttl } => zone.push(ProviderRecord {
            id: format!("rec_{}", zone.len()),
            name: name.clone(),
            record_type: record_type.clone(),
            value: value.clone(),
            ttl: *ttl,
        }),
        Write::Update { id, value, ttl } => {
            for existing in zone.iter_mut() {
                if existing.id == *id {
                    existing.value = value.clone();
                    existing.ttl = *ttl;
                }
            }
        }
    }
}

/// A whole pass against an in-memory zone whose IPv4 oracle answers `ipv4`.
/// Gives the requests in the order in which they were reconciled, the
/// outcomes and the error that stopped the pass.
fn whole_pass(
    args: &Args,
    ipv4: &str,
    zone: &mut Vec<ProviderRecord>,
) -> (Vec<RecordRequest>, Vec<Outcome>, Option<ReconcileError>) {
    let mut resolution = resolve(args.ip_type.clone());
    while resolution.pending().is_some() {
        resolution = resolution.record(Some(ipv4.to_string()));
    }
    let mut pass = match run(args, &resolution.results()) {
        Ok(pass) => pass,
        Err(failed) => panic!("resolution failed for {:?}", failed.family),
    };
    let mut seen = Vec::new();
    loop {
        let request = match pass.pending() {
            Some(request) => request.clone(),
            None => break,
        };
        let result = match upsert(Ok(zone.clone()), &request) {
            Step::Done(result) => result,
            Step::Issue(write) => {
                apply(zone, &write);
                conclude(&write, Ok(()))
            }
        };
        seen.push(request);
        pass = pass.record(result);
    }
    (seen, pass.outcomes().clone(), pass.failure().clone())
}

#[test]
fn fresh_zone_gets_one_record_per_subdomain() {
    let args = args(&["home", "office"], vec![IpType::IPV4], 3600);
    let mut zone = Vec::new();
    let (seen, outcomes, failure) = whole_pass(&args, "203.0.113.7", &mut zone);
    assert_eq!(
        seen,
        vec![
            request("home", "A", "203.0.113.7", 3600),
            request("office", "A", "203.0.113.7", 3600),
        ]
    );
    assert_eq!(outcomes, vec![Outcome::Created, Outcome::Created]);
    assert_eq!(failure, None);
    assert_eq!(zone.len(), 2);
    for (existing, label) in zone.iter().zip(["home", "office"]) {
        assert_eq!(existing.name, label);
        assert_eq!(existing.record_type, "A");
        assert_eq!(existing.value, "203.0.113.7");
        assert_eq!(existing.ttl, 3600);
    }
}

#[test]
fn correct_record_is_unchanged_and_the_other_created() {
    let args = args(&["home", "office"], vec![IpType::IPV4], 3600);
    let mut zone = vec![ProviderRecord {
        id: "rec_home".to_string(),
        name: "home".to_string(),
        record_type: "A".to_string(),
        value: "203.0.113.7".to_string(),
        ttl: 3600,
    }];
    let (_, outcomes, failure) = whole_pass(&args, "203.0.113.7", &mut zone);
    assert_eq!(outcomes, vec![Outcome::Unchanged, Outcome::Created]);
    assert_eq!(failure, None);
    assert_eq!(zone.len(), 2);
    assert_eq!(zone[0].id, "rec_home");
    assert_eq!(zone[1].name, "office");
    assert_eq!(zone[1].record_type, "A");
    assert_eq!(zone[1].value, "203.0.113.7");
    assert_eq!(zone[1].ttl, 3600);
}

#[test]
fn failed_family_aborts_the_pass() {
    let args = args(&["home"], vec![IpType::IPV4, IpType::IPV6], 3600);
    let results = vec![
        resolved(IpType::IPV4, "203.0.113.7"),
        Err(ResolutionFailed { family: IpType::IPV6 }),
    ];
    match run(&args, &results) {
        Err(failed) => assert_eq!(failed, ResolutionFailed { family: IpType::IPV6 }),
        Ok(_) => panic!("the pass was planned in spite of a failed family"),
    }
}

#[test]
fn first_failed_family_is_reported() {
    let args = args(&["home"], vec![IpType::IPV6, IpType::IPV4], 3600);
    let results = vec![
        Err(ResolutionFailed { family: IpType::IPV6 }),
        Err(ResolutionFailed { family: IpType::IPV4 }),
    ];
    match run(&args, &results) {
        Err(failed) => assert_eq!(failed.family, IpType::IPV6),
        Ok(_) => panic!("the pass was planned in spite of a failed family"),
    }
}

#[test]
fn requests_go_label_by_label() {
    let args = args(&["home", "office"], vec![IpType::IPV4, IpType::IPV6], 120);
    let results = vec![resolved(IpType::IPV4, "203.0.113.7"), resolved(IpType::IPV6, "2001:db8::7")];
    let mut pass = match run(&args, &results) {
        Ok(pass) => pass,
        Err(_) => panic!("no family failed"),
    };
    let mut seen = Vec::new();
    while let Some(request) = pass.pending() {
        seen.push(request.clone());
        pass = pass.record(Ok(Outcome::Unchanged));
    }
    assert_eq!(
        seen,
        vec![
            request("home", "A", "203.0.113.7", 120),
            request("home", "AAAA", "2001:db8::7", 120),
            request("office", "A", "203.0.113.7", 120),
            request("office", "AAAA", "2001:db8::7", 120),
        ]
    );
    assert_eq!(pass.outcomes().len(), 4);
}

#[test]
fn pass_without_subdomains_or_families_is_empty() {
    let none = args(&[], vec![IpType::IPV4], 3600);
    let pass = match run(&none, &vec![resolved(IpType::IPV4, "203.0.113.7")]) {
        Ok(pass) => pass,
        Err(_) => panic!("no family failed"),
    };
    assert!(pass.pending().is_none());
    let none = args(&["home"], vec![], 3600);
    let pass = match run(&none, &vec![]) {
        Ok(pass) => pass,
        Err(_) => panic!("no family failed"),
    };
    assert!(pass.pending().is_none());
    assert!(pass.outcomes().is_empty());
    assert_eq!(*pass.failure(), None);
}

#[test]
fn first_error_stops_the_pass() {
    let args = args(&["home", "office", "lab"], vec![IpType::IPV4], 3600);
    let mut pass = match run(&args, &vec![resolved(IpType::IPV4, "203.0.113.7")]) {
        Ok(pass) => pass,
        Err(_) => panic!("no family failed"),
    };
    pass = pass.record(Ok(Outcome::Created));
    assert_eq!(pass.pending().map(|request| request.name.clone()), Some("office".to_string()));
    pass = pass.record(Err(ReconcileError::AmbiguousRecord));
    assert!(pass.pending().is_none());
    pass = pass.record(Ok(Outcome::Updated));
    assert_eq!(*pass.outcomes(), vec![Outcome::Created]);
    assert_eq!(*pass.failure(), Some(ReconcileError::AmbiguousRecord));
}

#[test]
fn duplicate_in_the_zone_stops_the_pass_at_its_label() {
    let args = args(&["home", "office"], vec![IpType::IPV4], 3600);
    let twin = |id: &str| ProviderRecord {
        id: id.to_string(),
        name: "home".to_string(),
        record_type: "A".to_string(),
        value: "1.1.1.1".to_string(),
        ttl: 3600,
    };
    let mut zone = vec![twin("r1"), twin("r2")];
    let (seen, outcomes, failure) = whole_pass(&args, "203.0.113.7", &mut zone);
    assert_eq!(seen.len(), 1);
    assert!(outcomes.is_empty());
    assert_eq!(failure, Some(ReconcileError::AmbiguousRecord));
    assert_eq!(zone, vec![twin("r1"), twin("r2")]);
}
