//! Launch options of Steam applications, read from and written to the
//! key-value documents in which Steam keeps them.
//!
//! A document is decoded into a tree ([`node`], [`codec`]). The user's local
//! configuration holds, down a chain of sections, one entry for each
//! application ([`localconfig_vdf`]); [`launch_options`] reads the launch
//! options out of those entries and merges edited ones back, leaving every
//! other part of the document as it is. The library folders and the
//! application manifests tell which applications are installed and what they
//! are called ([`libraryfolders_vdf`], [`appmanifest_acf`], [`api`]). From
//! these the table for editing is built, filtered and ordered ([`catalog`],
//! [`editing`]).
//!
//! The rules of all this are stated as contracts and proved; what is taken
//! on trust is the text format itself, which the parser of `keyvalues_serde`
//! reads and writes, the lower case of a text and the handling of paths.

pub mod api;
pub mod app_id;
pub mod appmanifest_acf;
pub mod catalog;
pub mod codec;
pub mod editing;
pub mod error;
pub mod id_map;
pub mod launch_options;
pub mod libraryfolders_vdf;
pub mod localconfig_vdf;
pub mod node;
pub mod path;
pub mod text;
