//! Transactional core of the `mix` package manager: the package store, the
//! selection resolver, the archive reader, the install planner, and the
//! transaction bookkeeping around them.

pub mod archive;
pub mod action;
pub mod codec;
pub mod database;
pub mod error;
pub mod install;
pub mod operation;
pub mod package;
pub mod selection;
pub mod text;
pub mod version;

pub use action::Action;
pub use action::Actionable;
pub use database::Database;
pub use error::MixError;
pub use package::InstallState;
pub use package::Package;
pub use operation::Operation;
pub use selection::Selections;
pub use version::Version;
