//! A crawler library for a paginated liquor-catalog website.
//!
//! The crate is organised around three verified pieces:
//! - parsers for the "Detailed Info" fields of a product page
//!   ([`detailed_info`]),
//! - an idempotent relational store for products, lookup dimensions and
//!   their associations ([`store`]),
//! - the decision logic of the crawl pipeline and the persistence
//!   orchestrator ([`crawler`]).
//!
//! Network fetching, HTML extraction and the async runtime live outside the
//! library and hand it plain values.

use vstd::prelude::*;

pub mod crawler;
pub mod detailed_info;
pub mod glue;
pub mod linked_data;
pub mod saq;
pub mod store;
pub mod text;

pub use detailed_info::Size;
pub use glue::DbSerialize;
