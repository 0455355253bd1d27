//! Paths of files, and the directories in which the client keeps its own.

use vstd::prelude::*;

verus! {

/// A path, as the bytes that the file system has for it.
#[derive(Clone, Debug, PartialEq, Eq)]
pub struct FilePath {
    pub bytes: Vec<u8>,
}

pub open spec fn separator() -> u8 {
    47
}

/// `part` taken from inside the directory `base`. A `part` that starts at the root stands for
/// itself.
pub open spec fn inside(base: Seq<u8>, part: Seq<u8>) -> Seq<u8> {
    if part.len() > 0 && part[0] == separator() {
        part
    } else if base.len() > 0 && base.last() != separator() {
        base.push(separator()) + part
    } else {
        base + part
    }
}

impl View for FilePath {
    type V = Seq<u8>;

    open spec fn view(&self) -> Seq<u8> {
        self.bytes@
    }
}

fn copy_of(bytes: &[u8]) -> (copy: Vec<u8>)
    ensures
        copy@ == bytes@,
{
    let mut copy: Vec<u8> = Vec::new();
    copy.extend_from_slice(bytes);
    assert(copy@ =~= bytes@);
    copy
}

impl FilePath {
    pub fn new(bytes: &[u8]) -> (path: FilePath)
        ensures
            path@ == bytes@,
    {
        FilePath { bytes: copy_of(bytes) }
    }

    /// `part` taken from inside this directory.
    pub fn join(&self, part: &[u8]) -> (path: FilePath)
        ensures
            path@ == inside(self@, part@),
    {
        if part.len() > 0 && part[0] == 47 {
            return FilePath::new(part);
        }
        let mut bytes = copy_of(self.bytes.as_slice());
        if bytes.len() > 0 && bytes[bytes.len() - 1] != 47 {
            bytes.push(47);
        }
        bytes.extend_from_slice(part);
        assert(bytes@ =~= inside(self@, part@));
        FilePath { bytes }
    }
}

/// The directories of the client: the one with its configuration and the one with its cache.
#[derive(Clone, Debug, PartialEq, Eq)]
pub struct ProjectDirs {
    pub config_dir: FilePath,
    pub cache_dir: FilePath,
}

/// The environment that tells where a user's directories are.
#[derive(Clone, Debug, PartialEq, Eq)]
pub struct Environment {
    /// A directory that stands in for all others.
    pub base_path: Option<FilePath>,
    pub xdg_config_home: Option<FilePath>,
    pub xdg_cache_home: Option<FilePath>,
    pub home: Option<FilePath>,
}

pub open spec fn maybe_path(path: Option<FilePath>) -> Option<Seq<u8>> {
    match path {
        Some(path) => Some(path@),
        None => None,
    }
}

/// `ncspot`, the name of the client's directory.
pub open spec fn directory_name() -> Seq<u8> {
    seq![110u8, 99, 115, 112, 111, 116]
}

/// `.config`
pub open spec fn config_name() -> Seq<u8> {
    seq![46u8, 99, 111, 110, 102, 105, 103]
}

/// `.cache`
pub open spec fn cache_name() -> Seq<u8> {
    seq![46u8, 99, 97, 99, 104, 101]
}

/// The client's directory inside `dir`, or inside `fallback` in the home directory where `dir` is
/// not set or empty.
pub open spec fn xdg_path(
    dir: Option<Seq<u8>>,
    home: Option<Seq<u8>>,
    fallback: Seq<u8>,
) -> Option<Seq<u8>> {
    if dir is Some && dir->0.len() > 0 {
        Some(inside(dir->0, directory_name()))
    } else if home is Some {
        Some(inside(inside(home->0, fallback), directory_name()))
    } else {
        None
    }
}

pub fn xdg_dir(dir: &Option<FilePath>, home: &Option<FilePath>, fallback: &[u8]) -> (path: Option<
    FilePath,
>)
    ensures
        maybe_path(path) == xdg_path(maybe_path(*dir), maybe_path(*home), fallback@),
{
    let name: [u8; 6] = [110, 99, 115, 112, 111, 116];
    assert(name@ =~= directory_name());
    if let Some(dir) = dir {
        if dir.bytes.len() > 0 {
            return Some(dir.join(&name));
        }
    }
    match home {
        Some(home) => Some(home.join(fallback).join(&name)),
        None => None,
    }
}

pub open spec fn config_dir_of(env: Environment) -> Option<Seq<u8>> {
    match env.base_path {
        Some(base) => Some(inside(base@, config_name())),
        None => xdg_path(maybe_path(env.xdg_config_home), maybe_path(env.home), config_name()),
    }
}

pub open spec fn cache_dir_of(env: Environment) -> Option<Seq<u8>> {
    match env.base_path {
        Some(base) => Some(inside(base@, cache_name())),
        None => xdg_path(maybe_path(env.xdg_cache_home), maybe_path(env.home), cache_name()),
    }
}

/// The client's directories: under the base path where there is one, or else where the user's
/// environment says. Fails where one of them cannot be told.
pub fn try_proj_dirs(env: &Environment) -> (dirs: Result<ProjectDirs, String>)
    ensures
        config_dir_of(*env) is None ==> dirs is Err && dirs->Err_0@
            == "Couldn't determine config directory"@,
        config_dir_of(*env) is Some && cache_dir_of(*env) is None ==> dirs is Err && dirs->Err_0@
            == "Couldn't determine cache directory"@,
        config_dir_of(*env) is Some && cache_dir_of(*env) is Some ==> dirs is Ok
            && dirs->Ok_0.config_dir@ == config_dir_of(*env)->0 && dirs->Ok_0.cache_dir@
            == cache_dir_of(*env)->0,
{
    let config_dir = match user_configuration_directory(env) {
        Some(dir) => dir,
        None => return Err("Couldn't determine config directory".to_owned()),
    };
    let cache_dir = match user_cache_directory(env) {
        Some(dir) => dir,
        None => return Err("Couldn't determine cache directory".to_owned()),
    };
    Ok(ProjectDirs { config_dir, cache_dir })
}

/// The directory with the user's configuration, or None if it can't be told.
pub fn user_configuration_directory(env: &Environment) -> (dir: Option<FilePath>)
    ensures
        maybe_path(dir) == config_dir_of(*env),
{
    let config: [u8; 7] = [46, 99, 111, 110, 102, 105, 103];
    assert(config@ =~= config_name());
    match &env.base_path {
        Some(base) => Some(base.join(&config)),
        None => xdg_dir(&env.xdg_config_home, &env.home, &config),
    }
}

/// The directory with the user's cache, or None if it can't be told.
pub fn user_cache_directory(env: &Environment) -> (dir: Option<FilePath>)
    ensures
        maybe_path(dir) == cache_dir_of(*env),
{
    let cache: [u8; 6] = [46, 99, 97, 99, 104, 101];
    assert(cache@ =~= cache_name());
    match &env.base_path {
        Some(base) => Some(base.join(&cache)),
        None => xdg_dir(&env.xdg_cache_home, &env.home, &cache),
    }
}

/// The path of a configuration file, or None if its directory can't be told.
pub fn config_path(env: &Environment, file: &[u8]) -> (path: Option<FilePath>)
    ensures
        maybe_path(path) == match config_dir_of(*env) {
            Some(dir) => Some(inside(dir, file@)),
            None => None,
        },
{
    match user_configuration_directory(env) {
        Some(dir) => Some(dir.join(file)),
        None => None,
    }
}

/// The path of a cached file, or None if its directory can't be told.
pub fn cache_path(env: &Environment, file: &[u8]) -> (path: Option<FilePath>)
    ensures
        maybe_path(path) == match cache_dir_of(*env) {
            Some(dir) => Some(inside(dir, file@)),
            None => None,
        },
{
    match user_cache_directory(env) {
        Some(dir) => Some(dir.join(file)),
        None => None,
    }
}

/// With a base path both directories are inside it, whatever else the environment says.
pub proof fn lemma_base_path_wins(env: Environment)
    requires
        env.base_path is Some,
    ensures
        config_dir_of(env) == Some(inside(env.base_path->0@, config_name())),
        cache_dir_of(env) == Some(inside(env.base_path->0@, cache_name())),
{
}

/// A directory that is set but empty counts as one that is not set.
pub proof fn lemma_empty_is_unset(home: Option<Seq<u8>>, fallback: Seq<u8>)
    ensures
        xdg_path(Some(Seq::empty()), home, fallback) == xdg_path(None, home, fallback),
{
}

/// Sets the base path, if one is given. All files of the client are read and written relative to
/// it.
pub fn set_configuration_base_path(env: &mut Environment, base_path: Option<FilePath>)
    ensures
        *final(env) == (Environment {
            base_path: match base_path {
                Some(path) => Some(path),
                None => old(env).base_path,
            },
            ..*old(env)
        }),
{
    if let Some(path) = base_path {
        env.base_path = Some(path);
    }
}

/// A file inside a directory starts with the directory and ends with its own name, with just one
/// separator between them; a path from the root stands for itself.
pub proof fn lemma_files_are_inside_their_directory(base: Seq<u8>, part: Seq<u8>)
    ensures
        part.len() > 0 && part[0] == 47 ==> inside(base, part) == part,
        (part.len() == 0 || part[0] != 47) && base.len() > 0 ==> ({
            let path = inside(base, part);
            &&& base.is_prefix_of(path)
            &&& path.skip(path.len() - part.len()) == part
            &&& path[path.len() - part.len() - 1] == 47
            &&& path.len() == base.len() + part.len() + if base.last() == 47 {
                0int
            } else {
                1
            }
        }),
        (part.len() == 0 || part[0] != 47) && base.len() == 0 ==> inside(base, part) == part,
{
    let path = inside(base, part);
    if part.len() == 0 || part[0] != 47 {
        if base.len() > 0 {
            assert(path.skip(path.len() - part.len()) =~= part);
            assert(base =~= path.take(base.len() as int));
        } else {
            assert(base + part =~= part);
        }
    }
}

/// A directory that is set is used whatever the home directory; without it the one in the home
/// directory is used, and without either none can be told.
pub proof fn lemma_set_directories_go_first(
    dir: Seq<u8>,
    home: Seq<u8>,
    any: Option<Seq<u8>>,
    fallback: Seq<u8>,
)
    requires
        dir.len() > 0,
    ensures
        xdg_path(Some(dir), any, fallback) == Some(inside(dir, directory_name())),
        xdg_path(None, Some(home), fallback) == Some(
            inside(inside(home, fallback), directory_name()),
        ),
        xdg_path(None, None, fallback) is None,
{
}

/// The configuration goes by the variable for the configuration, and the cache by the one for the
/// cache: neither depends on the other's.
pub proof fn lemma_directories_do_not_mix(
    env: Environment,
    config: Option<FilePath>,
    cache: Option<FilePath>,
)
    ensures
        config_dir_of(Environment { xdg_cache_home: cache, ..env }) == config_dir_of(env),
        cache_dir_of(Environment { xdg_config_home: config, ..env }) == cache_dir_of(env),
        env.base_path is None && config is Some && config->0@.len() > 0 ==> config_dir_of(
            Environment { xdg_config_home: config, ..env },
        ) == Some(inside(config->0@, directory_name())),
        env.base_path is None && cache is Some && cache->0@.len() > 0 ==> cache_dir_of(
            Environment { xdg_cache_home: cache, ..env },
        ) == Some(inside(cache->0@, directory_name())),
{
}

} // verus!
