//! Indexing and querying of browsing-history records: the records of one
//! snapshot are normalised, given favicons, indexed by their search keys and
//! answered to fuzzy and regular-expression queries with a ranked list of
//! display items.

pub mod cache;
pub mod errors;
pub mod history;
pub mod index;
pub mod item;
pub mod rank;
pub mod server;
pub mod snapshot;
pub mod text;
pub mod util;
