//! Storage pools: what a pool looks like, how one is read from its configuration, and the
//! rows in which pools and their vdevs are listed.
pub mod laws;
pub mod layout;
pub mod libzfs;
pub mod row_laws;
pub mod rows;
pub mod types;
