//! Finding and reading the modules that a program imports.
use vstd::prelude::*;
use std::path::PathBuf;
use crate::entries::find_key;
use crate::errors::{ErrorKind, LanguageError, LanguageResult, LoaderError};

verus! {

#[verifier::external_type_specification]
#[verifier::external_body]
pub struct ExPathBuf(PathBuf);

/// Where a module comes from.
#[derive(Debug, Clone, Copy, PartialEq, Eq, Structural)]
pub enum ModuleKind {
    Standard,
    Core,
    Library,
}

/// A module found for an import: its path and where it comes from.
#[derive(Debug)]
pub struct ModuleSource {
    pub path: String,
    pub kind: ModuleKind,
}

/// Finds and reads the modules that a program imports.
pub trait ModuleResolver {
    /// The path that an import path stands for, seen from `current_path`.
    fn resolve_path(&self, path: PathBuf, current_path: &PathBuf) -> LanguageResult<PathBuf>;

    /// The module that an import of `source` stands for.
    fn resolve_source(&self, source: &str, current_folder: Option<PathBuf>) -> LanguageResult<ModuleSource>;

    /// The text of a module.
    fn read(&self, source: &ModuleSource) -> LanguageResult<String>;
}

/// A resolver that takes its modules from a list of names and texts.
#[derive(Debug)]
pub struct StaticModuleResolver {
    pub modules: Vec<(String, String)>,
}

impl ModuleResolver for StaticModuleResolver {
    /// Every path stands for itself.
    fn resolve_path(&self, path: PathBuf, _current_path: &PathBuf) -> (r: LanguageResult<PathBuf>)
        ensures
            r == Ok::<PathBuf, LanguageError>(path),
    {
        Ok(path)
    }

    /// Every import names a standard module by its path.
    fn resolve_source(&self, source: &str, _current_folder: Option<PathBuf>) -> (r: LanguageResult<ModuleSource>)
        ensures
            r matches Ok(m) && m.path@ == source@ && m.kind == ModuleKind::Standard,
    {
        Ok(ModuleSource { kind: ModuleKind::Standard, path: source.to_owned() })
    }

    /// The text of the first module listed under the source's path; an error
    /// without a location when none is.
    fn read(&self, source: &ModuleSource) -> (r: LanguageResult<String>)
        ensures
            match r {
                Ok(text) => exists|i: int|
                    0 <= i < self.modules@.len() && self.modules@[i].0@ == source.path@ && text@ == self.modules@[i].1@
                        && forall|j: int| 0 <= j < i ==> self.modules@[j].0@ != source.path@,
                Err(e) => (forall|i: int| 0 <= i < self.modules@.len() ==> self.modules@[i].0@ != source.path@)
                    && e.kind == ErrorKind::Loader(LoaderError::TODO) && e.source is None,
            },
    {
        match find_key(&self.modules, &source.path) {
            Some(i) => Ok(self.modules[i].1.clone()),
            None => Err(LanguageError::from(ErrorKind::Loader(LoaderError::TODO))),
        }
    }
}

} // verus!
