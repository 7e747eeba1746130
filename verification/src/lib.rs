//! A verified core for producing a Markdown page that lists a project's
//! third-party dependencies grouped by SPDX license expression, followed by
//! the full text of every referenced license and exception.

pub mod group;
pub mod model;
pub mod opt;
pub mod page;
pub mod parts;
pub mod resolve;
pub mod store;
pub mod strutil;
