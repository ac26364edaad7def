use contractors::contractor::{Contractor, WatchedPayer};
use contractors::registry::{
    contractor_from_response, contractor_from_subject, lookup_outcome, lookup_result, lookup_url,
    registry_url, CalendarDate, FetchContractorResponse, LookupError, LookupOutcome, ResultData, Subject,
};
use contractors::save::{SaveAction, SaveError, SaveEvent, SavePhase, SaveSession, SaveStage};
use contractors::search::{group_rows, page_limit, page_offset, ContractorRow};

fn row(id: i64, name: &str, account: Option<&str>) -> ContractorRow {
    ContractorRow {
        id,
        name: name.to_string(),
        nip: format!("{}", id),
        vat_status: "Czynny".to_string(),
        regon: "1".to_string(),
        krs: None,
        residence_address: Some("Street 1".to_string()),
        working_address: None,
        account_number: account.map(|a| a.to_string()),
    }
}

fn subject() -> Subject {
    Subject {
        regon: Some("123456789".to_string()),
        status_vat: "Czynny".to_string(),
        krs: None,
        account_numbers: Some(vec!["11".to_string(), "22".to_string()]),
        nip: "5260250274".to_string(),
        name: "Firma".to_string(),
        residence_address: None,
        working_address: Some("Warszawa".to_string()),
        registration_legal_date: Some(CalendarDate { year: 2001, month: 5, day: 17 }),
    }
}

fn response(subject: Option<Subject>) -> FetchContractorResponse {
    FetchContractorResponse {
        result: ResultData {
            subject,
            request_date_time: "18-10-2026 12:00:00".to_string(),
            request_id: "abc".to_string(),
        },
    }
}

#[test]
fn rows_group_by_identifier_not_adjacency() {
    let rows = vec![
        row(1, "A", Some("a1")),
        row(2, "B", Some("b1")),
        row(1, "A", Some("a2")),
        row(3, "C", None),
        row(2, "B", Some("b2")),
    ];
    let out = group_rows(rows);
    assert_eq!(out.len(), 3);
    assert_eq!(out[0].name, "A");
    assert_eq!(out[0].accounts_numbers, vec!["a1".to_string(), "a2".to_string()]);
    assert_eq!(out[1].accounts_numbers, vec!["b1".to_string(), "b2".to_string()]);
    assert_eq!(out[2].name, "C");
    assert!(out[2].accounts_numbers.is_empty());
    assert_eq!(out[0].residence_address, Some("Street 1".to_string()));
}

#[test]
fn same_tax_id_under_two_identifiers_stays_two_contractors() {
    let mut a = row(1, "A", Some("x"));
    let mut b = row(2, "A", Some("y"));
    a.nip = "777".to_string();
    b.nip = "777".to_string();
    let out = group_rows(vec![a, b]);
    assert_eq!(out.len(), 2);
}

#[test]
fn no_rows_no_contractors() {
    assert!(group_rows(vec![]).is_empty());
}

#[test]
fn offset_is_saturating() {
    assert_eq!(page_offset(0, 10), 0);
    assert_eq!(page_offset(1, 10), 0);
    assert_eq!(page_offset(3, 2), 4);
    assert_eq!(page_offset(usize::MAX, usize::MAX), i64::MAX);
    assert_eq!(page_limit(25), 25);
    assert_eq!(page_limit(usize::MAX), i64::MAX);
}

#[test]
fn subject_maps_every_field() {
    let c = contractor_from_subject(subject());
    assert_eq!(
        c,
        Contractor {
            name: "Firma".to_string(),
            nip: "5260250274".to_string(),
            vat_status: "Czynny".to_string(),
            regon: "123456789".to_string(),
            krs: None,
            residence_address: None,
            working_address: Some("Warszawa".to_string()),
            accounts_numbers: vec!["11".to_string(), "22".to_string()],
        }
    );
}

#[test]
fn absent_registration_number_and_accounts_default_to_empty() {
    let s = Subject { regon: None, account_numbers: None, ..subject() };
    let c = contractor_from_subject(s);
    assert_eq!(c.regon, "");
    assert!(c.accounts_numbers.is_empty());
}

#[test]
fn response_without_subject_is_not_found() {
    assert!(contractor_from_response(response(None)).is_none());
    assert!(matches!(lookup_result(Ok(response(None))), Ok(None)));
    let found = lookup_result(Ok(response(Some(subject())))).unwrap().unwrap();
    assert_eq!(found.nip, "5260250274");
}

#[test]
fn lookup_failures_stay_distinct() {
    match lookup_result(Err(LookupError::Transport("connection refused".to_string()))) {
        Err(LookupError::Transport(d)) => assert_eq!(d, "connection refused"),
        _ => panic!("expected a transport error"),
    }
    match lookup_result(Err(LookupError::Decode("missing field".to_string()))) {
        Err(LookupError::Decode(d)) => assert_eq!(d, "missing field"),
        _ => panic!("expected a decode error"),
    }
}

#[test]
fn user_messages_tell_outcomes_apart() {
    assert_eq!(lookup_outcome(Ok(None)), LookupOutcome::NotFound);
    assert_eq!(
        lookup_outcome(Err(LookupError::Transport("timeout".to_string()))),
        LookupOutcome::Failed("Registry request failed: timeout".to_string())
    );
    assert_eq!(
        lookup_outcome(Err(LookupError::Decode("bad json".to_string()))),
        LookupOutcome::Failed("Registry answer could not be read: bad json".to_string())
    );
    let c = contractor_from_subject(subject());
    assert_eq!(lookup_outcome(Ok(Some(c.clone()))), LookupOutcome::Found(c));
}

#[test]
fn url_carries_tax_id_and_date() {
    assert_eq!(
        registry_url("5260250274", "2026-10-18"),
        "https://wl-api.mf.gov.pl/api/search/nip/5260250274?date=2026-10-18"
    );
    let today = lookup_url("123");
    assert!(today.starts_with("https://wl-api.mf.gov.pl/api/search/nip/123?date="));
    let date = &today["https://wl-api.mf.gov.pl/api/search/nip/123?date=".len()..];
    assert_eq!(date.len(), 10);
    assert_eq!(&date[4..5], "-");
    assert_eq!(&date[7..8], "-");
}

#[test]
fn save_issues_inserts_in_order_then_commits() {
    let c = Contractor {
        name: "A".to_string(),
        nip: "1".to_string(),
        vat_status: "Czynny".to_string(),
        regon: "".to_string(),
        krs: None,
        residence_address: None,
        working_address: None,
        accounts_numbers: vec!["x".to_string(), "y".to_string()],
    };
    let (mut s, first) = SaveSession::start(c);
    assert_eq!(first, SaveAction::AcquireConnection);
    assert_eq!(s.step(SaveEvent::Completed), SaveAction::BeginTransaction);
    assert_eq!(s.step(SaveEvent::Completed), SaveAction::InsertContractor);
    assert!(!s.accepts(&SaveEvent::Completed));
    assert_eq!(s.step(SaveEvent::Inserted(42)), SaveAction::InsertAccount { contractor_id: 42, index: 0 });
    assert_eq!(s.step(SaveEvent::Completed), SaveAction::InsertAccount { contractor_id: 42, index: 1 });
    assert_eq!(s.step(SaveEvent::Completed), SaveAction::Commit);
    assert_eq!(s.step(SaveEvent::Completed), SaveAction::Finish(Ok(())));
    assert_eq!(s.phase, SavePhase::Finished);
    assert!(!s.accepts(&SaveEvent::Completed));
}

#[test]
fn save_without_accounts_commits_after_contractor_row() {
    let c = Contractor {
        name: "A".to_string(),
        nip: "1".to_string(),
        vat_status: "".to_string(),
        regon: "".to_string(),
        krs: None,
        residence_address: None,
        working_address: None,
        accounts_numbers: vec![],
    };
    let (mut s, _) = SaveSession::start(c);
    s.step(SaveEvent::Completed);
    s.step(SaveEvent::Completed);
    assert_eq!(s.step(SaveEvent::Inserted(7)), SaveAction::Commit);
}

#[test]
fn each_failed_stage_is_named() {
    let c = Contractor {
        name: "A".to_string(),
        nip: "1".to_string(),
        vat_status: "".to_string(),
        regon: "".to_string(),
        krs: None,
        residence_address: None,
        working_address: None,
        accounts_numbers: vec!["x".to_string()],
    };
    let answers: Vec<Vec<SaveEvent>> = vec![
        vec![],
        vec![SaveEvent::Completed],
        vec![SaveEvent::Completed, SaveEvent::Completed],
        vec![SaveEvent::Completed, SaveEvent::Completed, SaveEvent::Inserted(1)],
        vec![SaveEvent::Completed, SaveEvent::Completed, SaveEvent::Inserted(1), SaveEvent::Completed],
    ];
    let stages = [
        (SaveStage::Connection, "Database connection error: boom"),
        (SaveStage::Begin, "Error starting transaction: boom"),
        (SaveStage::ContractorInsert, "Error saving contractor: boom"),
        (SaveStage::AccountInsert, "Error saving account number: boom"),
        (SaveStage::Commit, "Error committing transaction: boom"),
    ];
    for (before, (stage, text)) in answers.into_iter().zip(stages) {
        let (mut s, _) = SaveSession::start(c.clone());
        for e in before {
            s.step(e);
        }
        let action = s.step(SaveEvent::Failed("boom".to_string()));
        let expected = SaveError { stage, detail: "boom".to_string() };
        assert_eq!(expected.message(), text);
        assert_eq!(action, SaveAction::Finish(Err(expected)));
    }
}

#[test]
fn calendar_dates_must_exist() {
    assert_eq!(
        CalendarDate::from_ymd(2024, 2, 29),
        Some(CalendarDate { year: 2024, month: 2, day: 29 })
    );
    assert_eq!(CalendarDate::from_ymd(2023, 2, 29), None);
    assert_eq!(CalendarDate::from_ymd(1900, 2, 29), None);
    assert!(CalendarDate::from_ymd(2000, 2, 29).is_some());
    assert_eq!(CalendarDate::from_ymd(2026, 4, 31), None);
    assert_eq!(CalendarDate::from_ymd(2026, 13, 1), None);
    assert_eq!(CalendarDate::from_ymd(2026, 1, 0), None);
    assert!(CalendarDate::from_ymd(-4, 2, 29).is_some());
}

#[test]
fn watched_payer_holds_vat_id() {
    let p = WatchedPayer { vat_id: "PL123".to_string() };
    assert_eq!(p.vat_id, "PL123");
}
