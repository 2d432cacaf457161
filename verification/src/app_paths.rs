//! Application-owned directories and path joining.

use directories::ProjectDirs;
use vstd::prelude::*;

use crate::text::{concat, has_prefix, has_suffix, push_text, starts_with, ends_with};

verus! {

/// `part` appended to `base` as `PathBuf::push` does on Unix: an absolute
/// `part` replaces `base`; otherwise a separator is added unless `base` is
/// empty or already ends with one.
pub open spec fn path_joined(base: Seq<char>, part: Seq<char>) -> Seq<char> {
    if has_prefix(part, "/"@) {
        part
    } else if base.len() == 0 || has_suffix(base, "/"@) {
        base + part
    } else {
        base + "/"@ + part
    }
}

/// Joins `part` onto `base`.
pub fn join_path(base: &str, part: &str) -> (r: String)
    ensures
        r@ == path_joined(base@, part@),
{
    if starts_with(part, "/") {
        part.to_owned()
    } else if base.unicode_len() == 0 || ends_with(base, "/") {
        concat(base, part)
    } else {
        let mut r = concat(base, "/");
        push_text(&mut r, part);
        r
    }
}

/// The directories the application owns.
#[derive(Clone, Debug, PartialEq, Eq)]
pub struct AppPaths {
    config_dir: String,
    cache_dir: String,
    data_dir: String,
}

/// Why the application's directories are unusable.
#[derive(Debug)]
pub enum AppPathError {
    HomeDirectoryUnavailable,
    Create { path: String, message: String },
}

impl AppPathError {
    /// The readable description of the error.
    pub fn describe(&self) -> (r: String)
        ensures
            r@ == (match self {
                AppPathError::HomeDirectoryUnavailable =>
                    "the operating system did not provide an application data directory"@,
                AppPathError::Create { path, message } =>
                    "could not create app-owned directory "@ + path@ + ": "@ + message@,
            }),
    {
        match self {
            AppPathError::HomeDirectoryUnavailable => {
                "the operating system did not provide an application data directory".to_owned()
            },
            AppPathError::Create { path, message } => {
                let mut r = concat("could not create app-owned directory ", path.as_str());
                push_text(&mut r, ": ");
                push_text(&mut r, message.as_str());
                r
            },
        }
    }
}

/// Calls `directories::ProjectDirs::from` and hands back its configuration,
/// cache and data directories as text. The answer depends on the user's
/// environment, so nothing is claimed of it.
#[verifier::external_body]
fn project_dirs(qualifier: &str, organization: &str, application: &str) -> Option<(String, String, String)> {
    match ProjectDirs::from(qualifier, organization, application) {
        Some(dirs) => Some((
            dirs.config_dir().to_string_lossy().into_owned(),
            dirs.cache_dir().to_string_lossy().into_owned(),
            dirs.data_dir().to_string_lossy().into_owned(),
        )),
        None => None,
    }
}

/// The qualifier, organization and application name under which the
/// operating system files the application's directories.
pub fn app_identity() -> (r: (&'static str, &'static str, &'static str))
    ensures
        r.0@ == "works"@,
        r.1@ == "Earendil"@,
        r.2@ == "Backstage"@,
{
    ("works", "Earendil", "Backstage")
}

impl AppPaths {
    /// Directories given by the operating system's conventions.
    pub fn from_dirs(config_dir: String, cache_dir: String, data_dir: String) -> (p: Self)
        ensures
            p.config_dir_spec() == config_dir@,
            p.cache_dir_spec() == cache_dir@,
            p.data_dir_spec() == data_dir@,
    {
        AppPaths { config_dir, cache_dir, data_dir }
    }

    /// The application's directories built from what the operating system
    /// answered: its configuration, cache and data directories, or nothing
    /// where the environment has no home directory.
    pub fn from_project_dirs(answer: Option<(String, String, String)>) -> (r: Result<Self, AppPathError>)
        ensures
            match answer {
                Some((config_dir, cache_dir, data_dir)) => r matches Ok(p) && p.config_dir_spec()
                    == config_dir@ && p.cache_dir_spec() == cache_dir@ && p.data_dir_spec()
                    == data_dir@,
                None => r matches Err(e) && e is HomeDirectoryUnavailable,
            },
    {
        match answer {
            Some((config_dir, cache_dir, data_dir)) => Ok(AppPaths::from_dirs(config_dir, cache_dir, data_dir)),
            None => Err(AppPathError::HomeDirectoryUnavailable),
        }
    }

    /// The directories the operating system assigns to the application
    /// named by `app_identity`; an environment without a home directory is
    /// reported as such.
    pub fn system() -> (r: Result<Self, AppPathError>)
        ensures
            r matches Err(e) ==> e is HomeDirectoryUnavailable,
    {
        let (qualifier, organization, application) = app_identity();
        AppPaths::from_project_dirs(project_dirs(qualifier, organization, application))
    }

    /// The `config`, `cache` and `data` directories under `base`.
    pub fn under(base: &str) -> (p: Self)
        ensures
            p.config_dir_spec() == path_joined(base@, "config"@),
            p.cache_dir_spec() == path_joined(base@, "cache"@),
            p.data_dir_spec() == path_joined(base@, "data"@),
    {
        AppPaths {
            config_dir: join_path(base, "config"),
            cache_dir: join_path(base, "cache"),
            data_dir: join_path(base, "data"),
        }
    }

    pub closed spec fn config_dir_spec(&self) -> Seq<char> {
        self.config_dir@
    }

    pub closed spec fn cache_dir_spec(&self) -> Seq<char> {
        self.cache_dir@
    }

    pub closed spec fn data_dir_spec(&self) -> Seq<char> {
        self.data_dir@
    }

    pub fn config_dir(&self) -> (r: &str)
        ensures
            r@ == self.config_dir_spec(),
    {
        self.config_dir.as_str()
    }

    pub fn cache_dir(&self) -> (r: &str)
        ensures
            r@ == self.cache_dir_spec(),
    {
        self.cache_dir.as_str()
    }

    pub fn data_dir(&self) -> (r: &str)
        ensures
            r@ == self.data_dir_spec(),
    {
        self.data_dir.as_str()
    }

    /// The index database inside the data directory.
    pub fn database_path(&self) -> (r: String)
        ensures
            r@ == path_joined(self.data_dir_spec(), "backstage.sqlite3"@),
    {
        join_path(self.data_dir.as_str(), "backstage.sqlite3")
    }
}

} // verus!
