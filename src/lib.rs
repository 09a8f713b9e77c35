//! Retrieval of a fire/EMS agency's most recent dispatch alarms from the
//! Active911 page that embeds them as a JSON assignment inside a script.
//!
//! The library holds the verified parts of that pipeline: the request URL
//! built from an agency key, the location of the embedded JSON inside the
//! fetched document, and the tagged error that each failing step yields.

pub mod document;
pub mod request;
