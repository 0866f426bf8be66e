//! The well-known file locations of the metadata beside a project and of the
//! global index, built as plain `/`-joined strings.

use vstd::prelude::*;

use crate::strutil::push_str;

verus! {

/// The path of a project's metadata directory.
pub fn axes_dir_path(project_root: &str) -> (r: String)
    ensures
        r@ == project_root@ + "/.axes"@,
{
    let mut r = project_root.to_owned();
    push_str(&mut r, "/.axes");
    r
}

/// The path of a project's raw configuration file.
pub fn project_config_path(project_root: &str) -> (r: String)
    ensures
        r@ == project_root@ + "/.axes/axes.toml"@,
{
    let mut r = project_root.to_owned();
    push_str(&mut r, "/.axes/axes.toml");
    r
}

/// The path of a project's resolved-configuration cache file.
pub fn config_cache_path(project_root: &str) -> (r: String)
    ensures
        r@ == project_root@ + "/.axes/config.cache.bin"@,
{
    let mut r = project_root.to_owned();
    push_str(&mut r, "/.axes/config.cache.bin");
    r
}

/// The path of a parent's last-used-child cache file.
pub fn last_used_cache_path(project_root: &str) -> (r: String)
    ensures
        r@ == project_root@ + "/.axes/last_used.cache.bin"@,
{
    let mut r = project_root.to_owned();
    push_str(&mut r, "/.axes/last_used.cache.bin");
    r
}

/// The path of a project's local identity mirror.
pub fn project_ref_path(project_root: &str) -> (r: String)
    ensures
        r@ == project_root@ + "/.axes/project_ref.bin"@,
{
    let mut r = project_root.to_owned();
    push_str(&mut r, "/.axes/project_ref.bin");
    r
}

/// The path of the global index file inside the configuration directory.
pub fn get_index_path(config_dir: &str) -> (r: String)
    ensures
        r@ == config_dir@ + "/index.toml"@,
{
    let mut r = config_dir.to_owned();
    push_str(&mut r, "/index.toml");
    r
}

} // verus!
