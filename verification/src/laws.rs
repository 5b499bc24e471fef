//! What holds of the library as a whole.
//!
//! Each public proof function states a property that relates several functions,
//! or that holds of every volume, over the models that their contracts use. The
//! laws of [`layout`] and those that build on it say what is read in terms of the
//! bytes themselves.

pub mod attributes;
pub mod auditing;
pub mod compression;
pub mod content;
pub mod decoding;
pub mod entries;
pub mod evidence;
pub mod layout;
pub mod listing;
pub mod streams;
pub mod tree;
pub mod views;
pub mod wording;
