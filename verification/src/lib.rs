//! The logic of a terminal dashboard for ZFS: readers of the ARC's counters, of memory and of
//! pools, the state of the screen, and what keys and refreshes make of it.
pub mod app;
pub mod arcstats;
pub mod cli;
pub mod cli_laws;
pub mod dataset_laws;
pub mod datasets;
pub mod format;
pub mod format_laws;
pub mod meminfo;
pub mod name_laws;
pub mod names;
pub mod pools;
pub mod text;
pub mod text_laws;
