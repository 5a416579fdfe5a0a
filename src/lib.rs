//! Fetches a list of URLs and reports, for each one, whether a query string
//! occurs in the body that came back.

pub mod dispatch;
pub mod history;
pub mod matcher;
pub mod options;
