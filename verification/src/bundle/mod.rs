//! Setups as portable bundles: a zip of scripts, samples and a rewritten config.

pub mod names;
pub mod document;
pub mod rewrite;
pub mod tree;
pub mod pack;
pub mod unpack;
pub mod walk;
pub mod install;
