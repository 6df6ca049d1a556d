//! Package metadata records and the classification of their download links
//! into regular links and zsync links.

pub mod links;
pub mod marker;
pub mod package;
