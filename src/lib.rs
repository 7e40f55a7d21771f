//! Build driver for C++ projects: macro definitions derived from the package
//! identity, a dependency graph of build targets, and the compiler command
//! planned for each target.

pub mod names;
pub mod defs;
pub mod error;
pub mod target;
pub mod plan;
pub mod reach;
pub mod paths;
pub mod driver;

pub use defs::{Bin, Config, Package, append_defs, get_definitions};
pub use driver::{Action, Outcome, bin_commands, build_graph, first_action, next_action};
pub use error::{Error, report_err};
pub use names::{normalize, quote, to_macro_name};
pub use paths::{ManifestFile, Probe, ProjectRoot, find_project_root_from, relative_path};
pub use plan::plan;
pub use target::{Exe, Graph, Kind, Library, Node, Opt};
