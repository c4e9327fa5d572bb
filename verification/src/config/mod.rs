//! Overrides given on the command line.

pub mod modloader;

use vstd::prelude::*;
use crate::template::copy_opt_string;
use crate::template::opt_text;
use crate::template::Text;
use modloader::ModloaderConfig;
use modloader::ModloaderConfigView;

verus! {

/// What the command line gives: where to build the pack, which template to
/// use, and the metadata that overrides the template's.
#[derive(Debug, PartialEq, Eq)]
pub struct PackConfig {
    pub path: String,
    pub template: Option<String>,
    pub name: Option<String>,
    pub author: Option<String>,
    pub mc_version: Option<String>,
    pub version: Option<String>,
    pub modloader: ModloaderConfig,
    /// Passed on to the package manager to suppress its confirmations.
    pub yes: bool,
}

pub struct PackConfigView {
    pub path: Text,
    pub template: Option<Text>,
    pub name: Option<Text>,
    pub author: Option<Text>,
    pub mc_version: Option<Text>,
    pub version: Option<Text>,
    pub modloader: ModloaderConfigView,
    pub yes: bool,
}

impl View for PackConfig {
    type V = PackConfigView;

    open spec fn view(&self) -> PackConfigView {
        PackConfigView {
            path: self.path@,
            template: opt_text(self.template),
            name: opt_text(self.name),
            author: opt_text(self.author),
            mc_version: opt_text(self.mc_version),
            version: opt_text(self.version),
            modloader: self.modloader@,
            yes: self.yes,
        }
    }
}

impl Clone for PackConfig {
    fn clone(&self) -> (r: Self)
        ensures
            r@ == self@,
    {
        PackConfig {
            path: self.path.clone(),
            template: copy_opt_string(&self.template),
            name: copy_opt_string(&self.name),
            author: copy_opt_string(&self.author),
            mc_version: copy_opt_string(&self.mc_version),
            version: copy_opt_string(&self.version),
            modloader: self.modloader.clone(),
            yes: self.yes,
        }
    }
}

} // verus!
