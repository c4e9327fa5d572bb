//! Resolution of modpack templates into package-manager requests.
//!
//! A template names a pack's metadata and its optional modules. This crate
//! reconciles command-line overrides with the template, merges module imports,
//! decides which modules are enabled and expands their mod entries into
//! provider-qualified installation requests.

pub mod config;
pub mod document;
pub mod enable;
pub mod error;
pub mod link;
pub mod loader;
pub mod merge;
pub mod packwiz_wrapper;
pub mod path_completion;
pub mod seqs;
pub mod template;

pub use config::modloader::{ArgSpec, ArgValue, LoaderMatches, ModloaderConfig};
pub use config::PackConfig;
pub use document::Node;
pub use error::{Key, LoadError, ParseError, RequiredField, ValidationError};
pub use packwiz_wrapper::{
    AddRequest, InstallRun, Invocation, PackwizWrapper, ProcessError, ProjectMetadata, RunOutcome,
};
pub use path_completion::PathCompletion;
pub use template::{
    EnableModules, FileFault, ModEntry, ModEntryType, ModLoader, ModProvider, Module, ModuleImport,
    Template, TemplateInfo, TEMPLATE_EXTENSION,
};
