//! Span records and the arena that owns them.

pub mod record;
pub mod store;
pub mod tags;

pub use record::{Span, SpanView};
pub use store::{SpanError, SpanReference, SpanStore, StoreView};
pub use tags::Tags;
