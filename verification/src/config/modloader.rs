//! The loader selection of the command line: a loader type and the version
//! option that belongs to it.

use vstd::prelude::*;
use crate::error::ValidationError;
use crate::error::ValidationErrorView;
use crate::template::copy_opt_string;
use crate::template::opt_text;
use crate::template::ModLoader;
use crate::template::Text;

verus! {

/// The loader type given on the command line, with its version.
#[derive(Debug, PartialEq, Eq)]
pub struct ModloaderConfig {
    pub ty: Option<ModLoader>,
    pub version: Option<String>,
}

pub struct ModloaderConfigView {
    pub ty: Option<ModLoader>,
    pub version: Option<Text>,
}

impl View for ModloaderConfig {
    type V = ModloaderConfigView;

    open spec fn view(&self) -> ModloaderConfigView {
        ModloaderConfigView { ty: self.ty, version: opt_text(self.version) }
    }
}

impl Clone for ModloaderConfig {
    fn clone(&self) -> (r: Self)
        ensures
            r@ == self@,
    {
        ModloaderConfig { ty: self.ty, version: copy_opt_string(&self.version) }
    }
}

/// The loader options as parsed from a command line: the selected loader type
/// and the value of each loader's version option.
#[derive(Debug, PartialEq, Eq)]
pub struct LoaderMatches {
    pub modloader: Option<ModLoader>,
    pub forge: Option<String>,
    pub fabric: Option<String>,
    pub neoforge: Option<String>,
    pub quilt: Option<String>,
}

pub struct LoaderMatchesView {
    pub modloader: Option<ModLoader>,
    pub forge: Option<Text>,
    pub fabric: Option<Text>,
    pub neoforge: Option<Text>,
    pub quilt: Option<Text>,
}

impl LoaderMatchesView {
    /// The value of the version option that belongs to `loader`.
    pub open spec fn version_of(self, loader: ModLoader) -> Option<Text> {
        match loader {
            ModLoader::Forge => self.forge,
            ModLoader::Fabric => self.fabric,
            ModLoader::Neoforge => self.neoforge,
            ModLoader::Quilt => self.quilt,
        }
    }

    /// The selection these options make: the loader type with the value of its
    /// own version option, whatever the other version options hold.
    pub open spec fn selection(self) -> ModloaderConfigView {
        match self.modloader {
            None => ModloaderConfigView { ty: None, version: None },
            Some(loader) => ModloaderConfigView { ty: Some(loader), version: self.version_of(loader) },
        }
    }
}

impl View for LoaderMatches {
    type V = LoaderMatchesView;

    open spec fn view(&self) -> LoaderMatchesView {
        LoaderMatchesView {
            modloader: self.modloader,
            forge: opt_text(self.forge),
            fabric: opt_text(self.fabric),
            neoforge: opt_text(self.neoforge),
            quilt: opt_text(self.quilt),
        }
    }
}

impl Clone for LoaderMatches {
    fn clone(&self) -> (r: Self)
        ensures
            r@ == self@,
    {
        LoaderMatches {
            modloader: self.modloader,
            forge: copy_opt_string(&self.forge),
            fabric: copy_opt_string(&self.fabric),
            neoforge: copy_opt_string(&self.neoforge),
            quilt: copy_opt_string(&self.quilt),
        }
    }
}

impl LoaderMatches {
    /// The value of the version option that belongs to `loader`.
    pub fn version_of(&self, loader: ModLoader) -> (v: &Option<String>)
        ensures
            opt_text(*v) == self@.version_of(loader),
    {
        match loader {
            ModLoader::Forge => &self.forge,
            ModLoader::Fabric => &self.fabric,
            ModLoader::Neoforge => &self.neoforge,
            ModLoader::Quilt => &self.quilt,
        }
    }
}

/// What an option takes as its value.
#[derive(Clone, Copy, Debug, PartialEq, Eq, Structural)]
pub enum ArgValue {
    /// The name of a loader type.
    Loader,
    /// Any text.
    Text,
}

/// The definition of one command-line option.
#[derive(Debug, PartialEq, Eq)]
pub struct ArgSpec {
    pub id: String,
    pub value_name: String,
    pub long: String,
    pub value: ArgValue,
    pub required: bool,
}

pub struct ArgSpecView {
    pub id: Text,
    pub value_name: Text,
    pub long: Text,
    pub value: ArgValue,
    pub required: bool,
}

impl View for ArgSpec {
    type V = ArgSpecView;

    open spec fn view(&self) -> ArgSpecView {
        ArgSpecView {
            id: self.id@,
            value_name: self.value_name@,
            long: self.long@,
            value: self.value,
            required: self.required,
        }
    }
}

impl Clone for ArgSpec {
    fn clone(&self) -> (r: Self)
        ensures
            r@ == self@,
    {
        ArgSpec {
            id: self.id.clone(),
            value_name: self.value_name.clone(),
            long: self.long.clone(),
            value: self.value,
            required: self.required,
        }
    }
}

impl DeepView for ArgSpec {
    type V = ArgSpecView;

    open spec fn deep_view(&self) -> ArgSpecView {
        self@
    }
}

/// The option that selects the loader type.
pub open spec fn loader_arg() -> ArgSpecView {
    ArgSpecView {
        id: "modloader"@,
        value_name: "MODLOADER"@,
        long: "modloader"@,
        value: ArgValue::Loader,
        required: false,
    }
}

/// The option that carries the version of `loader`.
pub open spec fn version_arg(loader: ModLoader) -> ArgSpecView {
    ArgSpecView {
        id: loader.name(),
        value_name: loader.value_name(),
        long: loader.long_arg(),
        value: ArgValue::Text,
        required: false,
    }
}

/// The loader options: the selector, then one version option per loader type.
pub open spec fn loader_args() -> Seq<ArgSpecView> {
    seq![
        loader_arg(),
        version_arg(ModLoader::Forge),
        version_arg(ModLoader::Fabric),
        version_arg(ModLoader::Neoforge),
        version_arg(ModLoader::Quilt),
    ]
}

impl ModloaderConfig {
    /// Reads the selection out of parsed options.
    pub fn from_arg_matches(matches: &LoaderMatches) -> (r: ModloaderConfig)
        ensures
            r@ == matches@.selection(),
    {
        match matches.modloader {
            None => ModloaderConfig { ty: None, version: None },
            Some(loader) => ModloaderConfig {
                ty: Some(loader),
                version: copy_opt_string(matches.version_of(loader)),
            },
        }
    }

    /// Takes over the selection of newly parsed options. Options that select
    /// no loader change nothing. A loader type, once fixed, stays: options
    /// that select another one are refused and change nothing.
    pub fn update_from_arg_matches(&mut self, matches: &LoaderMatches) -> (r: Result<(), ValidationError>)
        ensures
            match (matches@.modloader, old(self)@.ty) {
                (None, _) => r is Ok && final(self)@ == old(self)@,
                (Some(given), Some(fixed)) if given != fixed => r matches Err(e) && e@
                    == (ValidationErrorView::ModloaderMismatch { fixed, given }) && final(self)@ == old(
                    self,
                )@,
                (Some(_), _) => r is Ok && final(self)@ == matches@.selection(),
            },
    {
        match matches.modloader {
            None => Ok(()),
            Some(given) => {
                match self.ty {
                    Some(fixed) => {
                        if fixed != given {
                            return Err(ValidationError::ModloaderMismatch { fixed, given });
                        }
                    },
                    None => {},
                }
                self.ty = Some(given);
                self.version = copy_opt_string(matches.version_of(given));
                Ok(())
            },
        }
    }

    /// Adds the loader options to the options of a command.
    pub fn augment_args(cmd: Vec<ArgSpec>) -> (r: Vec<ArgSpec>)
        ensures
            r.deep_view() == cmd.deep_view() + loader_args(),
    {
        let mut cmd = cmd;
        let ghost before = cmd.deep_view();
        cmd.push(
            ArgSpec {
                id: "modloader".to_owned(),
                value_name: "MODLOADER".to_owned(),
                long: "modloader".to_owned(),
                value: ArgValue::Loader,
                required: false,
            },
        );
        assert(cmd.deep_view() =~= before + seq![loader_arg()]);
        let loaders = ModLoader::iter();
        let mut i: usize = 0;
        while i < loaders.len()
            invariant
                i <= loaders.len(),
                loaders@ == ModLoader::all(),
                cmd.deep_view() == before + loader_args().take(i as int + 1),
            decreases loaders.len() - i,
        {
            let ty = loaders[i];
            let ghost prev = cmd.deep_view();
            cmd.push(
                ArgSpec {
                    id: ty.as_str().to_owned(),
                    value_name: ty.as_value_name().to_owned(),
                    long: ty.as_long_arg().to_owned(),
                    value: ArgValue::Text,
                    required: false,
                },
            );
            assert(cmd.deep_view() =~= prev.push(version_arg(ty)));
            assert(loader_args()[i as int + 1] == version_arg(ty));
            assert(cmd.deep_view() =~= before + loader_args().take(i as int + 2));
            i += 1;
        }
        assert(loader_args().take(5) =~= loader_args());
        cmd
    }

    /// Adds the loader options to the options of a command that updates a
    /// selection.
    pub fn augment_args_for_update(cmd: Vec<ArgSpec>) -> (r: Vec<ArgSpec>)
        ensures
            r.deep_view() == cmd.deep_view() + loader_args(),
    {
        ModloaderConfig::augment_args(cmd)
    }
}

} // verus!
