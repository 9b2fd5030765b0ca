//! A head's store: its column families, the framing of its journals, and what it belongs to.

pub mod cf;
pub mod error;
pub mod head_store;
pub mod journal;
pub mod laws;
pub mod meta;
pub mod record_laws;
pub mod request_record;
pub mod table;
pub mod wire;
