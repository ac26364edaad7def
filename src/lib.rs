//! Contractor registry core: normalising answers of the national business
//! registry, the transactional save of a contractor with its account numbers,
//! and the paginated, filtered reconstruction of contractors from joined rows.

pub mod contractor;
pub mod search;
pub mod registry;
pub mod save;
pub mod store;
