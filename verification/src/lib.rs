//! Verified core of a volcano-activity bulletin reader.
//!
//! The library turns the semi-structured Spanish HTML bulletins published by
//! a monitoring agency into a typed `VolcanoReport` record.  All text scanning,
//! normalisation and assembly logic is verified; the HTML document queries and
//! the retrieval timestamp are obtained through a small set of trusted
//! wrappers around outside libraries.

pub mod text;
pub mod dates;
pub mod error;
pub mod models;
pub mod dom;
pub mod extract;
pub mod report;
pub mod wrap_text;

pub use dates::Date;
pub use error::PopoError;
pub use models::AlertLevel;
pub use models::Decimal;
pub use models::VolcanoReport;
pub use models::WindDirection;
pub use report::Scraper;
pub use wrap_text::textwrap_wrap;
pub use wrap_text::wrap;
