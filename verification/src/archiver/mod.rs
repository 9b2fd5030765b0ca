//! Copy a hydrozoa head's store out from under a running node, so the node can trim it.
//!
//! The archive keeps the node's own layout, so restoring is copying it back rather than converting
//! it, and values are written exactly as the node stored them, arrival-stamp prefix and all.
//!
//! Once a pass is durable, the archiver tells the node how far it reached. That report is the only
//! thing it ever says to hydrozoa, and the only reason the node may delete anything. With no node
//! configured it archives and reports nothing, which leaves the node retaining everything: the
//! safe direction.

pub mod archive;
pub mod config;
pub mod counts;
pub mod course;
pub mod journal_laws;
pub mod laws;
pub mod pass;
pub mod recovery;
pub mod report_laws;
pub mod steps;
pub mod watermark;
