//! An interactive, line-by-line authorship history ("blame") view of one
//! file tracked in a git repository.
//!
//! This crate holds the verified core: the blame-line parser, the commit
//! metadata cache, the snapshot builder stages, and the navigation
//! controller. All git queries are synchronous external-process calls; the
//! surrounding program performs them and feeds their plain results into the
//! functions here, carrying out the actions they decide on.

pub mod app;
pub mod file_blame;
pub mod parse;
