//! Where scwx keeps its files: XDG directories with a fallback under the
//! home directory, joined as `Path::join` does.

use vstd::prelude::*;

use crate::text::{chars_of, concat, has_prefix, opt_view, starts_with, strip_prefix, strip_prefix_of};

verus! {

/// `Path::join` of a relative file name: an absolute name replaces the
/// directory; otherwise a `/` separates them unless the directory is empty
/// or already ends with one.
pub open spec fn joined_path(dir: Seq<char>, file: Seq<char>) -> Seq<char> {
    if has_prefix(file, "/"@) || dir.len() == 0 {
        file
    } else if dir.last() == '/' {
        dir + file
    } else {
        dir + "/"@ + file
    }
}

pub fn join_path(dir: &str, file: &str) -> (r: String)
    ensures
        r@ == joined_path(dir@, file@),
{
    let d = chars_of(dir);
    if starts_with(file, "/") || d.len() == 0 {
        String::from_str(file)
    } else if d[d.len() - 1] == '/' {
        concat(dir, file)
    } else {
        let a = concat(dir, "/");
        concat(a.as_str(), file)
    }
}

/// `HOME` is needed and not set.
#[derive(Debug)]
pub struct NoHome;

impl NoHome {
    pub fn message(&self) -> (r: &'static str)
        ensures
            r@ == "HOME is not set"@,
    {
        "HOME is not set"
    }
}

/// The directory an XDG variable names when it is set and not empty,
/// else `fallback` under the home directory (none without a home).
pub open spec fn xdg_dir_spec(value: Option<Seq<char>>, home: Option<Seq<char>>, fallback: Seq<char>) -> Option<
    Seq<char>,
> {
    match value {
        Some(v) => if v.len() > 0 {
            Some(v)
        } else {
            match home {
                Some(h) => Some(joined_path(h, fallback)),
                None => None,
            }
        },
        None => match home {
            Some(h) => Some(joined_path(h, fallback)),
            None => None,
        },
    }
}

/// `xdg_dir_spec`, then `file` inside it.
pub open spec fn xdg_file_spec(
    value: Option<Seq<char>>,
    home: Option<Seq<char>>,
    fallback: Seq<char>,
    file: Seq<char>,
) -> Option<Seq<char>> {
    match xdg_dir_spec(value, home, fallback) {
        Some(d) => Some(joined_path(d, file)),
        None => None,
    }
}

/// The XDG directory from the variable's value and the home directory.
pub fn xdg_dir(value: Option<&str>, home: Option<&str>, fallback: &str) -> (r: Result<String, NoHome>)
    ensures
        match xdg_dir_spec(opt_view(value), opt_view(home), fallback@) {
            Some(d) => r matches Ok(x) && x@ == d,
            None => r is Err,
        },
{
    if let Some(v) = value {
        if v.unicode_len() > 0 {
            return Ok(String::from_str(v));
        }
    }
    match home {
        Some(h) => Ok(join_path(h, fallback)),
        None => Err(NoHome),
    }
}

fn xdg_file(value: Option<&str>, home: Option<&str>, fallback: &str, file: &str) -> (r: Result<
    String,
    NoHome,
>)
    ensures
        match xdg_file_spec(opt_view(value), opt_view(home), fallback@, file@) {
            Some(p) => r matches Ok(x) && x@ == p,
            None => r is Err,
        },
{
    let dir = xdg_dir(value, home, fallback)?;
    Ok(join_path(dir.as_str(), file))
}

/// scwx's configuration: `$XDG_CONFIG_HOME/scwx/config.toml`.
pub fn config_file(xdg_config_home: Option<&str>, home: Option<&str>) -> (r: Result<String, NoHome>)
    ensures
        match xdg_file_spec(opt_view(xdg_config_home), opt_view(home), ".config"@, "scwx/config.toml"@) {
            Some(p) => r matches Ok(x) && x@ == p,
            None => r is Err,
        },
{
    xdg_file(xdg_config_home, home, ".config", "scwx/config.toml")
}

/// The Scaleway CLI's configuration: `$XDG_CONFIG_HOME/scw/config.yaml`.
pub fn scw_config_file(xdg_config_home: Option<&str>, home: Option<&str>) -> (r: Result<String, NoHome>)
    ensures
        match xdg_file_spec(opt_view(xdg_config_home), opt_view(home), ".config"@, "scw/config.yaml"@) {
            Some(p) => r matches Ok(x) && x@ == p,
            None => r is Err,
        },
{
    xdg_file(xdg_config_home, home, ".config", "scw/config.yaml")
}

/// The inventory cache: `$XDG_CACHE_HOME/scwx/inventory.json`.
pub fn cache_file(xdg_cache_home: Option<&str>, home: Option<&str>) -> (r: Result<String, NoHome>)
    ensures
        match xdg_file_spec(opt_view(xdg_cache_home), opt_view(home), ".cache"@, "scwx/inventory.json"@) {
            Some(p) => r matches Ok(x) && x@ == p,
            None => r is Err,
        },
{
    xdg_file(xdg_cache_home, home, ".cache", "scwx/inventory.json")
}

/// The tunnels' sockets and records: `$XDG_STATE_HOME/scwx/sockets`.
pub fn sockets_dir(xdg_state_home: Option<&str>, home: Option<&str>) -> (r: Result<String, NoHome>)
    ensures
        match xdg_file_spec(opt_view(xdg_state_home), opt_view(home), ".local/state"@, "scwx/sockets"@) {
            Some(p) => r matches Ok(x) && x@ == p,
            None => r is Err,
        },
{
    xdg_file(xdg_state_home, home, ".local/state", "scwx/sockets")
}

/// A path with a leading `~/` taken under the home directory; any other
/// path as it is.
pub open spec fn expanded(path: Seq<char>, home: Option<Seq<char>>) -> Option<Seq<char>> {
    match strip_prefix_of(path, "~/"@) {
        Some(rest) => match home {
            Some(h) => Some(joined_path(h, rest)),
            None => None,
        },
        None => Some(path),
    }
}

pub fn expand_tilde(path: &str, home: Option<&str>) -> (r: Result<String, NoHome>)
    ensures
        match expanded(path@, opt_view(home)) {
            Some(p) => r matches Ok(x) && x@ == p,
            None => r is Err,
        },
{
    match strip_prefix(path, "~/") {
        Some(rest) => match home {
            Some(h) => Ok(join_path(h, rest.as_str())),
            None => Err(NoHome),
        },
        None => Ok(String::from_str(path)),
    }
}

} // verus!
