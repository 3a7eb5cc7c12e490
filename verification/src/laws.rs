//! What holds of the store over several requests, and of each request whatever it says.
pub mod accounts;
pub mod claims;
pub mod datasets;
pub mod entries;
pub mod lists;
pub mod queries;
pub mod records;
pub mod reports;
pub mod requests;
pub mod tasks;
pub mod values;
pub mod work;
pub mod writes;
