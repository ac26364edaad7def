use vstd::prelude::*;

verus! {

/// A business entity tracked by the registry, identified by its tax id (`nip`).
#[derive(Clone, Debug, PartialEq, Eq)]
pub struct Contractor {
    pub name: String,
    pub nip: String,
    pub vat_status: String,
    pub regon: String,
    pub krs: Option<String>,
    pub residence_address: Option<String>,
    pub working_address: Option<String>,
    pub accounts_numbers: Vec<String>,
}

/// The mathematical value of a contractor: every text as a sequence of characters.
pub struct ContractorView {
    pub name: Seq<char>,
    pub nip: Seq<char>,
    pub vat_status: Seq<char>,
    pub regon: Seq<char>,
    pub krs: Option<Seq<char>>,
    pub residence_address: Option<Seq<char>>,
    pub working_address: Option<Seq<char>>,
    pub accounts: Seq<Seq<char>>,
}

pub open spec fn opt_text(o: Option<String>) -> Option<Seq<char>> {
    match o {
        Some(s) => Some(s@),
        None => None,
    }
}

pub open spec fn texts(v: Seq<String>) -> Seq<Seq<char>> {
    v.map_values(|s: String| s@)
}

impl View for Contractor {
    type V = ContractorView;

    open spec fn view(&self) -> ContractorView {
        ContractorView {
            name: self.name@,
            nip: self.nip@,
            vat_status: self.vat_status@,
            regon: self.regon@,
            krs: opt_text(self.krs),
            residence_address: opt_text(self.residence_address),
            working_address: opt_text(self.working_address),
            accounts: texts(self.accounts_numbers@),
        }
    }
}

/// Copies an optional text.
pub fn copy_opt_text(o: &Option<String>) -> (r: Option<String>)
    ensures
        opt_text(r) == opt_text(*o),
{
    match o {
        Some(s) => Some(s.clone()),
        None => None,
    }
}

/// A payer whose VAT status is to be watched, identified by its VAT id.
#[derive(Debug, PartialEq, Eq)]
pub struct WatchedPayer {
    pub vat_id: String,
}

} // verus!
