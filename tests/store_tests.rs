use contractors::contractor::Contractor;
use contractors::save::{SaveAction, SaveError, SaveEvent, SaveSession, SaveStage};
use contractors::search::{group_rows, page_limit, page_offset, ContractorRow};

/// Two tables in memory, answering the actions of a save the way a database
/// would, and the page query the way the SQL statement selects it.
struct TestDb {
    contractors: Vec<(i64, Contractor)>,
    accounts: Vec<(i64, String)>,
    next_id: i64,
    fail_at_account: Option<usize>,
}

impl TestDb {
    fn new() -> TestDb {
        TestDb { contractors: vec![], accounts: vec![], next_id: 1, fail_at_account: None }
    }

    fn save_contractor(&mut self, contractor: Contractor) -> Result<(), String> {
        let (mut session, mut action) = SaveSession::start(contractor);
        let mut staged_contractors = self.contractors.clone();
        let mut staged_accounts = self.accounts.clone();
        loop {
            let event = match action {
                SaveAction::AcquireConnection | SaveAction::BeginTransaction => SaveEvent::Completed,
                SaveAction::InsertContractor => {
                    let id = self.next_id;
                    self.next_id += 1;
                    let mut row = session.contractor.clone();
                    row.accounts_numbers = vec![];
                    staged_contractors.push((id, row));
                    SaveEvent::Inserted(id)
                }
                SaveAction::InsertAccount { contractor_id, index } => {
                    if self.fail_at_account == Some(index) {
                        SaveEvent::Failed("disk full".to_string())
                    } else {
                        staged_accounts
                            .push((contractor_id, session.contractor.accounts_numbers[index].clone()));
                        SaveEvent::Completed
                    }
                }
                SaveAction::Commit => {
                    self.contractors = staged_contractors.clone();
                    self.accounts = staged_accounts.clone();
                    SaveEvent::Completed
                }
                SaveAction::Finish(outcome) => return outcome.map_err(|e| e.message()),
            };
            assert!(session.accepts(&event));
            action = session.step(event);
        }
    }

    fn query_rows(&self, page: usize, page_size: usize, search: Option<String>) -> Vec<ContractorRow> {
        let offset = page_offset(page, page_size) as usize;
        let limit = page_limit(page_size) as usize;
        let ids: Vec<&(i64, Contractor)> = self
            .contractors
            .iter()
            .filter(|(_, c)| match &search {
                Some(s) => c.name.contains(s.as_str()) || c.nip.contains(s.as_str()),
                None => true,
            })
            .skip(offset)
            .take(limit)
            .collect();
        let mut rows = vec![];
        for (id, c) in ids {
            let row = |account_number: Option<String>| ContractorRow {
                id: *id,
                name: c.name.clone(),
                nip: c.nip.clone(),
                vat_status: c.vat_status.clone(),
                regon: c.regon.clone(),
                krs: c.krs.clone(),
                residence_address: c.residence_address.clone(),
                working_address: c.working_address.clone(),
                account_number,
            };
            let own: Vec<&(i64, String)> = self.accounts.iter().filter(|(cid, _)| cid == id).collect();
            if own.is_empty() {
                rows.push(row(None));
            } else {
                for (_, n) in own {
                    rows.push(row(Some(n.clone())));
                }
            }
        }
        rows
    }

    fn fetch_contractors(&self, page: usize, page_size: usize, search: Option<String>) -> Result<Vec<Contractor>, String> {
        Ok(group_rows(self.query_rows(page, page_size, search)))
    }
}

fn fixture() -> Contractor {
    Contractor {
        name: "Test Company".to_string(),
        nip: "1234567890".to_string(),
        vat_status: "Active".to_string(),
        regon: "123456789".to_string(),
        krs: Some("0000123456".to_string()),
        residence_address: Some("Test Address 1".to_string()),
        working_address: Some("Test Address 2".to_string()),
        accounts_numbers: vec![
            "12345678901234567890123456".to_string(),
            "98765432109876543210987654".to_string(),
        ],
    }
}

#[test]
fn test_save_contractor_success() {
    let mut repo = TestDb::new();
    let result = repo.save_contractor(fixture());
    assert!(result.is_ok());
}

#[test]
fn test_save_contractor_with_optional_fields_none() {
    let mut repo = TestDb::new();
    let contractor = Contractor {
        krs: None,
        residence_address: None,
        working_address: None,
        accounts_numbers: vec![],
        ..fixture()
    };
    let result = repo.save_contractor(contractor);
    assert!(result.is_ok());
}

#[test]
fn test_fetch_contractors_empty_database() {
    let repo = TestDb::new();
    let result = repo.fetch_contractors(1, 10, None);
    assert!(result.is_ok());
    let contractors = result.unwrap();
    assert_eq!(contractors.len(), 0);
}

#[test]
fn test_fetch_contractors_with_data() {
    let mut repo = TestDb::new();
    let contractor = fixture();
    repo.save_contractor(contractor.clone()).unwrap();
    let result = repo.fetch_contractors(1, 10, None);
    let contractors = result.unwrap();
    assert_eq!(contractors.len(), 1);
    let fetched = &contractors[0];
    assert_eq!(fetched, &contractor);
}

#[test]
fn test_fetch_contractors_pagination() {
    let mut repo = TestDb::new();
    for i in 1..=5 {
        let contractor = Contractor {
            name: format!("Company {}", i),
            nip: format!("123456789{}", i),
            ..fixture()
        };
        repo.save_contractor(contractor).unwrap();
    }
    let result = repo.fetch_contractors(1, 2, None);
    assert!(result.is_ok_and(|v| v.len() == 2));
    let result = repo.fetch_contractors(2, 2, None);
    assert!(result.is_ok_and(|v| v.len() == 2));
    let result = repo.fetch_contractors(3, 2, None);
    assert!(result.is_ok_and(|v| v.len() == 1));
}

#[test]
fn test_fetch_contractors_search_by_name() {
    let mut repo = TestDb::new();
    let contractor1 = Contractor {
        name: "ABC Company".to_string(),
        nip: "1111111111".to_string(),
        ..fixture()
    };
    let contractor2 = Contractor {
        name: "XYZ Corporation".to_string(),
        nip: "2222222222".to_string(),
        ..fixture()
    };
    repo.save_contractor(contractor1).unwrap();
    repo.save_contractor(contractor2).unwrap();
    let result = repo.fetch_contractors(1, 10, Some("ABC".to_string()));
    assert!(result.is_ok());
    let contractors = result.unwrap();
    assert_eq!(contractors.len(), 1);
    assert_eq!(contractors[0].name, "ABC Company");
}

#[test]
fn test_fetch_contractors_search_by_nip() {
    let mut repo = TestDb::new();
    let contractor = Contractor { nip: "5555555555".to_string(), ..fixture() };
    repo.save_contractor(contractor).unwrap();
    let result = repo.fetch_contractors(1, 10, Some("5555".to_string()));
    assert!(result.is_ok());
    let contractors = result.unwrap();
    assert_eq!(contractors.len(), 1);
    assert_eq!(contractors[0].nip, "5555555555");
}

#[test]
fn test_fetch_contractors_no_search_results() {
    let mut repo = TestDb::new();
    repo.save_contractor(fixture()).unwrap();
    let result = repo.fetch_contractors(1, 10, Some("NonExistent".to_string()));
    assert!(result.is_ok());
    let contractors = result.unwrap();
    assert_eq!(contractors.len(), 0);
}

#[test]
fn failed_account_insert_leaves_no_rows() {
    let mut repo = TestDb::new();
    repo.fail_at_account = Some(1);
    let result = repo.save_contractor(fixture());
    assert_eq!(result, Err("Error saving account number: disk full".to_string()));
    assert!(repo.contractors.is_empty());
    assert!(repo.accounts.is_empty());
    assert_eq!(repo.fetch_contractors(1, 10, None).unwrap().len(), 0);
}

#[test]
fn round_trip_keeps_every_field_and_account_order() {
    let mut repo = TestDb::new();
    for i in 0..3 {
        repo.save_contractor(Contractor { nip: format!("{}", i), ..fixture() }).unwrap();
    }
    let c = Contractor {
        name: "Newest".to_string(),
        krs: None,
        accounts_numbers: vec!["b".to_string(), "a".to_string(), "b".to_string()],
        ..fixture()
    };
    repo.save_contractor(c.clone()).unwrap();
    // Four rows, page size 3: the newest is at index 3 % 3 of page 3 / 3 + 1.
    let page = repo.fetch_contractors(2, 3, None).unwrap();
    assert_eq!(page.len(), 1);
    assert_eq!(page[0], c);
}

#[test]
fn pages_cover_every_contractor_once() {
    let mut repo = TestDb::new();
    for i in 0..7 {
        repo.save_contractor(Contractor { nip: format!("N{}", i), ..fixture() }).unwrap();
    }
    let mut seen: Vec<String> = vec![];
    for page in 1..=3 {
        for c in repo.fetch_contractors(page, 3, None).unwrap() {
            seen.push(c.nip);
        }
    }
    let expected: Vec<String> = (0..7).map(|i| format!("N{}", i)).collect();
    assert_eq!(seen, expected);
    assert_eq!(repo.fetch_contractors(4, 3, None).unwrap().len(), 0);
}

#[test]
fn zero_accounts_come_back_as_empty_list() {
    let mut repo = TestDb::new();
    repo.save_contractor(Contractor { accounts_numbers: vec![], ..fixture() }).unwrap();
    let page = repo.fetch_contractors(1, 10, None).unwrap();
    assert_eq!(page.len(), 1);
    assert!(page[0].accounts_numbers.is_empty());
}

#[test]
fn filter_matches_name_or_tax_id_only() {
    let mut repo = TestDb::new();
    repo.save_contractor(Contractor { name: "Alpha".to_string(), nip: "111".to_string(), ..fixture() }).unwrap();
    repo.save_contractor(Contractor { name: "Beta".to_string(), nip: "222".to_string(), ..fixture() }).unwrap();
    repo.save_contractor(Contractor { name: "Gamma 22".to_string(), nip: "333".to_string(), ..fixture() }).unwrap();
    let names: Vec<String> = repo
        .fetch_contractors(1, 10, Some("22".to_string()))
        .unwrap()
        .into_iter()
        .map(|c| c.name)
        .collect();
    assert_eq!(names, vec!["Beta".to_string(), "Gamma 22".to_string()]);
    // The match is case-sensitive.
    assert_eq!(repo.fetch_contractors(1, 10, Some("alpha".to_string())).unwrap().len(), 0);
}
