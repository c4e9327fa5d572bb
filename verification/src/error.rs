//! What can be wrong with a template, an override or a run of the package manager.

use vstd::prelude::*;
use crate::template::ModLoader;
use crate::template::Text;

verus! {

/// A metadata field that every project needs.
#[derive(Clone, Copy, Debug, PartialEq, Eq, Structural)]
pub enum RequiredField {
    Name,
    McVersion,
    Modloader,
    Provider,
}

/// A template or an override that breaks a rule.
#[derive(Debug, PartialEq, Eq)]
pub enum ValidationError {
    /// A module id that the template does not declare.
    UnknownModule(String),
    /// The import relation leads from a module back to itself.
    ImportCycle,
    /// A pick names a mod id that its source module does not hold.
    PickNotFound { module: String, mod_id: String },
    /// Neither the overrides nor the template give a required field.
    MissingRequiredField(RequiredField),
    /// A loader type was given that disagrees with the one already fixed.
    ModloaderMismatch { fixed: ModLoader, given: ModLoader },
}

pub enum ValidationErrorView {
    UnknownModule(Text),
    ImportCycle,
    PickNotFound { module: Text, mod_id: Text },
    MissingRequiredField(RequiredField),
    ModloaderMismatch { fixed: ModLoader, given: ModLoader },
}

impl View for ValidationError {
    type V = ValidationErrorView;

    open spec fn view(&self) -> ValidationErrorView {
        match self {
            ValidationError::UnknownModule(id) => ValidationErrorView::UnknownModule(id@),
            ValidationError::ImportCycle => ValidationErrorView::ImportCycle,
            ValidationError::PickNotFound { module, mod_id } => ValidationErrorView::PickNotFound {
                module: module@,
                mod_id: mod_id@,
            },
            ValidationError::MissingRequiredField(field) => ValidationErrorView::MissingRequiredField(
                *field,
            ),
            ValidationError::ModloaderMismatch { fixed, given } => ValidationErrorView::ModloaderMismatch {
                fixed: *fixed,
                given: *given,
            },
        }
    }
}

impl Clone for ValidationError {
    fn clone(&self) -> (r: Self)
        ensures
            r@ == self@,
    {
        match self {
            ValidationError::UnknownModule(id) => ValidationError::UnknownModule(id.clone()),
            ValidationError::ImportCycle => ValidationError::ImportCycle,
            ValidationError::PickNotFound { module, mod_id } => ValidationError::PickNotFound {
                module: module.clone(),
                mod_id: mod_id.clone(),
            },
            ValidationError::MissingRequiredField(field) => ValidationError::MissingRequiredField(
                *field,
            ),
            ValidationError::ModloaderMismatch { fixed, given } => ValidationError::ModloaderMismatch {
                fixed: *fixed,
                given: *given,
            },
        }
    }
}

/// A place in a template document.
#[derive(Clone, Copy, Debug, PartialEq, Eq, Structural)]
pub enum Key {
    Root,
    Name,
    Desc,
    Author,
    Version,
    Provider,
    Loader,
    McVersion,
    Imports,
    EnableModules,
    Modules,
    Module,
    From,
    Picks,
    AppendMods,
    ModuleName,
    ModuleDesc,
    Mods,
    Entry,
    EntryType,
    EntryId,
    EntryProvider,
    EntryDesc,
    EntryMods,
}

/// Why a text is no template.
#[derive(Debug, PartialEq, Eq)]
pub enum ParseError {
    /// The text is no document; the parser's message says why.
    Syntax(String),
    /// The document lacks something that a template must have.
    Missing(Key),
    /// The document holds something of the wrong kind.
    Malformed(Key),
}

pub enum ParseErrorView {
    Syntax(Text),
    Missing(Key),
    Malformed(Key),
}

impl View for ParseError {
    type V = ParseErrorView;

    open spec fn view(&self) -> ParseErrorView {
        match self {
            ParseError::Syntax(message) => ParseErrorView::Syntax(message@),
            ParseError::Missing(key) => ParseErrorView::Missing(*key),
            ParseError::Malformed(key) => ParseErrorView::Malformed(*key),
        }
    }
}

impl Clone for ParseError {
    fn clone(&self) -> (r: Self)
        ensures
            r@ == self@,
    {
        match self {
            ParseError::Syntax(message) => ParseError::Syntax(message.clone()),
            ParseError::Missing(key) => ParseError::Missing(*key),
            ParseError::Malformed(key) => ParseError::Malformed(*key),
        }
    }
}

/// Why no template could be loaded.
#[derive(Debug, PartialEq, Eq)]
pub enum LoadError {
    /// There is no readable file at the template's path.
    NotFound,
    /// The file holds no template.
    ParseError(ParseError),
}

pub enum LoadErrorView {
    NotFound,
    ParseError(ParseErrorView),
}

impl View for LoadError {
    type V = LoadErrorView;

    open spec fn view(&self) -> LoadErrorView {
        match self {
            LoadError::NotFound => LoadErrorView::NotFound,
            LoadError::ParseError(e) => LoadErrorView::ParseError(e@),
        }
    }
}

} // verus!
