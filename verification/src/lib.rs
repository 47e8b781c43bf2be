//! Discovery of JetBrains IDE installations and of the projects they trust,
//! with fuzzy search over the project names and a launch decision for a
//! selected result.
//!
//! The pipeline runs from directory names to installations
//! ([`IdeConfigPath`]), keeps the newest installation of each IDE
//! ([`select_installations`]), turns each trusted path of an installation
//! into a [`ProjectEntry`], and serves queries through [`JetBrainsProjects`].

pub mod ide;
pub mod installation;
pub mod matcher;
pub mod order;
pub mod project;
pub mod ranking;
pub mod search;
pub mod text;
pub mod trusted_project;
pub mod version;

pub use ide::{Ide, IDE_COUNT};
pub use installation::{locate_configs, newest_of, select_installations, IdeConfigPath};
pub use order::order_versions;
pub use project::{
    collect_projects, entries_of_keys, resolve_home, ProjectEntry, TrustList, TrustListError,
};
pub use ranking::{rank_scored, ranks_above};
pub use search::{query_terms, Activation, JetBrainsProjects, SearchResult, PAGE_SIZE};
pub use text::{chars_of, file_name, last_char, parse_u32, replace_token, starts_with};
pub use trusted_project::{Application, Component, ComponentOption, List, PathMap, Project};
pub use version::{detect_kind, parse_dir_name};
