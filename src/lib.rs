pub mod error;
pub mod record;
pub mod sniff;
pub mod store;
pub mod tree;
pub mod walker;
