//! Tag codec for publishing executable filter scripts ("noscripts") as
//! decentralized-network events.
//!
//! The library turns structured, optional metadata into a flat, ordered list
//! of string tag records and back: a metadata payload codec, a query-filter
//! codec, an identifier codec, a base64 content packager, and the generic
//! prefix-based tag lookups a consumer uses on a received event.

pub mod content;
pub mod filter;
pub mod ident;
pub mod numfmt;
pub mod payload;
pub mod tags;

pub use content::build_content;
pub use content::package_raw;
pub use content::package_with_binding;
pub use content::unpackage_with_binding;
pub use content::NoscriptContent;
pub use filter::encode_filter;
pub use filter::FilterOptMode;
pub use filter::QueryFilter;
pub use ident::create_d_tag;
pub use payload::create_noscript_payload_tag;
pub use payload::NoscriptPayload;
pub use tags::find_first_by_prefix;
pub use tags::find_first_tag_fields;
pub use tags::find_second_by_prefix;
pub use tags::Event;

use vstd::prelude::*;

verus! {

/// The application-defined event kind that marks an event as carrying a
/// noscript filter script.
pub const NOSCRIPT_KIND: i32 = 32043;

} // verus!
