//! Verified core of an inventory pricing pipeline: filtering an inventory
//! down to tradeable items, normalizing each item's categorical attributes
//! into a canonical price-lookup URL, parsing a fetched price range, and
//! partitioning, sorting and aggregating the results.

pub mod inventory;
pub mod pipeline;
pub mod price;
pub mod query;
pub mod text;
