//! Operator tools for a Hydrozoa head.
#![allow(unused_imports)]

pub mod archiver;
pub mod bytes;
pub mod store;
pub mod text;
pub mod text_laws;
pub mod top;
