use vstd::prelude::*;
use crate::contractor::{Contractor, ContractorView, opt_text, texts};

verus! {

/// A calendar date as the registry writes it.
#[derive(Debug, PartialEq, Eq)]
pub struct CalendarDate {
    pub year: i32,
    pub month: u32,
    pub day: u32,
}

pub open spec fn is_leap_year(year: int) -> bool {
    (year % 4 == 0 && year % 100 != 0) || year % 400 == 0
}

/// The number of days in a month of the proleptic Gregorian calendar.
pub open spec fn days_in_month(year: int, month: int) -> int {
    if month == 2 {
        if is_leap_year(year) { 29 } else { 28 }
    } else if month == 4 || month == 6 || month == 9 || month == 11 {
        30
    } else {
        31
    }
}

impl CalendarDate {
    /// A real date: a month from 1 to 12 and a day that the month has.
    pub open spec fn wf(&self) -> bool {
        &&& 1 <= self.month <= 12
        &&& 1 <= self.day <= days_in_month(self.year as int, self.month as int)
    }

    /// The date with these parts, if it exists.
    pub fn from_ymd(year: i32, month: u32, day: u32) -> (r: Option<CalendarDate>)
        ensures
            r is Some <==> (CalendarDate { year, month, day }).wf(),
            r matches Some(d) ==> d == (CalendarDate { year, month, day }),
    {
        let y: i64 = year as i64;
        let leap: bool = (y % 4 == 0 && y % 100 != 0) || y % 400 == 0;
        let days: u32 = if month == 2 {
            if leap { 29 } else { 28 }
        } else if month == 4 || month == 6 || month == 9 || month == 11 {
            30
        } else {
            31
        };
        if 1 <= month && month <= 12 && 1 <= day && day <= days {
            Some(CalendarDate { year, month, day })
        } else {
            None
        }
    }
}

/// The registry's description of a business entity. Fields that the registry
/// has been seen to leave out are optional here.
#[derive(Debug, PartialEq, Eq)]
pub struct Subject {
    pub regon: Option<String>,
    pub status_vat: String,
    pub krs: Option<String>,
    pub account_numbers: Option<Vec<String>>,
    pub nip: String,
    pub name: String,
    pub residence_address: Option<String>,
    pub working_address: Option<String>,
    pub registration_legal_date: Option<CalendarDate>,
}

/// The `result` object of a registry answer; `subject` is absent when the
/// registry knows no entity under the tax id asked for.
#[derive(Debug, PartialEq, Eq)]
pub struct ResultData {
    pub subject: Option<Subject>,
    pub request_date_time: String,
    pub request_id: String,
}

/// A registry answer.
#[derive(Debug, PartialEq, Eq)]
pub struct FetchContractorResponse {
    pub result: ResultData,
}

/// Why a lookup failed: the request did not go through, or the answer did not
/// have the expected shape.
#[derive(Debug, PartialEq, Eq)]
pub enum LookupError {
    Transport(String),
    Decode(String),
}

pub open spec fn lookup_error_text(e: LookupError) -> Seq<char> {
    match e {
        LookupError::Transport(d) => "Registry request failed: "@ + d@,
        LookupError::Decode(d) => "Registry answer could not be read: "@ + d@,
    }
}

impl LookupError {
    /// A readable cause, which tells a failed request from an unreadable answer.
    pub fn message(&self) -> (r: String)
        ensures
            r@ == lookup_error_text(*self),
    {
        let (label, detail) = match self {
            LookupError::Transport(d) => ("Registry request failed: ", d),
            LookupError::Decode(d) => ("Registry answer could not be read: ", d),
        };
        let mut text = String::from_str(label);
        text.append(detail.as_str());
        text
    }
}

/// A lookup as the caller sees it: a contractor, the registry knowing no
/// such tax id, or a failure with a readable cause. "Not found" is an outcome
/// of its own, never a failure.
#[derive(Debug, PartialEq, Eq)]
pub enum LookupOutcome {
    Found(Contractor),
    NotFound,
    Failed(String),
}

/// Sorts a lookup result into its three outcomes, with a readable cause for
/// a failure.
pub fn lookup_outcome(outcome: Result<Option<Contractor>, LookupError>) -> (r: LookupOutcome)
    ensures
        outcome matches Ok(Some(c)) ==> r == LookupOutcome::Found(c),
        outcome matches Ok(None) ==> r == LookupOutcome::NotFound,
        outcome matches Err(e) ==> r is Failed && r->Failed_0@ == lookup_error_text(e),
{
    match outcome {
        Ok(Some(c)) => LookupOutcome::Found(c),
        Ok(None) => LookupOutcome::NotFound,
        Err(e) => LookupOutcome::Failed(e.message()),
    }
}

/// The contractor that a registry subject describes. An absent registration
/// number becomes the empty text and an absent account list the empty list;
/// every other optional field stays absent.
pub open spec fn subject_contractor(s: Subject) -> ContractorView {
    ContractorView {
        name: s.name@,
        nip: s.nip@,
        vat_status: s.status_vat@,
        regon: match s.regon {
            Some(r) => r@,
            None => Seq::empty(),
        },
        krs: opt_text(s.krs),
        residence_address: opt_text(s.residence_address),
        working_address: opt_text(s.working_address),
        accounts: match s.account_numbers {
            Some(v) => texts(v@),
            None => Seq::empty(),
        },
    }
}

/// Maps a registry subject into a contractor.
pub fn contractor_from_subject(s: Subject) -> (r: Contractor)
    ensures
        r@ == subject_contractor(s),
{
    let accounts_numbers = match s.account_numbers {
        Some(v) => v,
        None => Vec::new(),
    };
    assert(texts(accounts_numbers@) =~= subject_contractor(s).accounts);
    Contractor {
        name: s.name,
        nip: s.nip,
        vat_status: s.status_vat,
        regon: match s.regon {
            Some(r) => r,
            None => String::new(),
        },
        krs: s.krs,
        residence_address: s.residence_address,
        working_address: s.working_address,
        accounts_numbers,
    }
}

/// The contractor of a registry answer: none when the answer holds no subject.
pub fn contractor_from_response(value: FetchContractorResponse) -> (r: Option<Contractor>)
    ensures
        r is Some <==> value.result.subject is Some,
        value.result.subject is Some ==> r->Some_0@ == subject_contractor(value.result.subject->Some_0),
{
    match value.result.subject {
        Some(s) => Some(contractor_from_subject(s)),
        None => None,
    }
}

/// The outcome of a lookup, given what the registry request produced: a
/// failure is handed on as it is, an answer without a subject is "not found"
/// (`Ok(None)`), and an answer with one is that contractor.
pub fn lookup_result(fetched: Result<FetchContractorResponse, LookupError>) -> (r: Result<Option<Contractor>, LookupError>)
    ensures
        fetched is Err <==> r is Err,
        fetched is Err ==> r->Err_0 == fetched->Err_0,
        fetched is Ok && fetched->Ok_0.result.subject is None ==> r == Ok::<Option<Contractor>, LookupError>(None),
        fetched is Ok && fetched->Ok_0.result.subject is Some ==> r is Ok && r->Ok_0 is Some
            && r->Ok_0->Some_0@ == subject_contractor(fetched->Ok_0.result.subject->Some_0),
{
    match fetched {
        Ok(value) => Ok(contractor_from_response(value)),
        Err(e) => Err(e),
    }
}

pub open spec fn registry_url_text(nip: Seq<char>, date: Seq<char>) -> Seq<char> {
    "https://wl-api.mf.gov.pl/api/search/nip/"@ + nip + "?date="@ + date
}

/// The registry's address for a tax id, as of the given date (`YYYY-MM-DD`).
/// The tax id is passed through as it is.
pub fn registry_url(nip: &str, date: &str) -> (r: String)
    ensures
        r@ == registry_url_text(nip@, date@),
{
    let mut url = String::from_str("https://wl-api.mf.gov.pl/api/search/nip/");
    url.append(nip);
    url.append("?date=");
    url.append(date);
    url
}

/// Relies on chrono's `Local::now` and `format("%Y-%m-%d")`: today's local
/// date in the form the registry asks for. It depends on the clock, so
/// nothing is stated of it.
#[verifier::external_body]
fn today_iso() -> (r: String) {
    chrono::Local::now().format("%Y-%m-%d").to_string()
}

/// The registry's address for a tax id, as of today.
pub fn lookup_url(nip: &str) -> (r: String)
    ensures
        exists|date: Seq<char>| r@ == registry_url_text(nip@, date),
{
    let today = today_iso();
    registry_url(nip, today.as_str())
}

} // verus!
