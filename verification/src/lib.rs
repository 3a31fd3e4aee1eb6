//! The core of a package manager for Debian packages: the order of
//! versions, the reading of control files, the index of all packages with
//! one record for each name, and the search for the dependencies that an
//! installation has to bring.

pub mod cache;
pub mod cmdline;
pub mod configuration;
pub mod control;
pub mod depends;
pub mod dpkg;
pub mod error;
pub mod extended;
pub mod helper;
pub mod install;
pub mod list;
pub mod lock;
pub mod merge;
pub mod opts;
pub mod priority_order;
pub mod resolver;
pub mod slist;
pub mod source;
pub mod text;
pub mod update;
pub mod version;
pub mod version_order;
pub mod wai;
