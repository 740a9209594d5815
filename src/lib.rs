//! A minimal package manager's core: the repository index, dependency
//! resolution, and the install orchestration that stages each package.
pub mod index;
pub mod install;
pub mod package;
pub mod resolve;

pub use index::tux_find_package;
pub use install::{
    answer_declines, descriptor_path, install_set, join, locator_address, Action, Event,
    InstallError, Installer, Stage,
};
pub use package::{same_text, Descriptor, Entry, JSONPackage, Repository};
pub use resolve::{tux_resolve_dependencies, Failure, ResolveError};
