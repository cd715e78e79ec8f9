//! Where the launcher keeps and looks for its files. Paths are held as text,
//! with `/` between their parts.

use crate::config::Config;
use crate::text::{chars_of, copy_strings, opt_view, strings_view};
use vstd::prelude::*;

verus! {

/// The path that `part` names when it is written below `base`: `part` itself
/// where it starts at the root, else `base` and `part` with one `/` between
/// them, which is not written where `base` is empty or ends in one.
pub open spec fn joined(base: Seq<char>, part: Seq<char>) -> Seq<char> {
    if part.len() > 0 && part[0] == '/' {
        part
    } else if base.len() == 0 || base.last() == '/' {
        base + part
    } else {
        base + seq!['/'] + part
    }
}

/// Writes the path of `part` below `base`.
pub fn join_path(base: &str, part: &str) -> (path: String)
    ensures
        path@ == joined(base@, part@),
{
    let b = chars_of(base);
    let p = chars_of(part);
    if p.len() > 0 && p[0] == '/' {
        return part.to_owned();
    }
    let mut path = base.to_owned();
    if b.len() > 0 && b[b.len() - 1] != '/' {
        path.append("/");
        proof {
            reveal_strlit("/");
            assert("/"@ =~= seq!['/']);
        }
    }
    path.append(part);
    path
}

/// The directory that holds the launcher's data: `yeet` below the user's
/// data directory; where that is not known, below `.local/share` in the
/// user's home; where that is not known either, below the directory for
/// temporary files.
pub open spec fn data_directory(
    data_local_dir: Option<Seq<char>>,
    home_dir: Option<Seq<char>>,
    temp_dir: Seq<char>,
) -> Seq<char> {
    let base = match data_local_dir {
        Some(dir) => dir,
        None => match home_dir {
            Some(home) => joined(joined(home, ".local"@), "share"@),
            None => temp_dir,
        },
    };
    joined(base, "yeet"@)
}

/// The directory that holds the history ledger.
pub fn history_directory(
    data_local_dir: &Option<String>,
    home_dir: &Option<String>,
    temp_dir: &str,
) -> (path: String)
    ensures
        path@ == data_directory(opt_view(*data_local_dir), opt_view(*home_dir), temp_dir@),
{
    match data_local_dir {
        Some(dir) => join_path(dir.as_str(), "yeet"),
        None => match home_dir {
            Some(home) => {
                let local = join_path(home.as_str(), ".local");
                let share = join_path(local.as_str(), "share");
                join_path(share.as_str(), "yeet")
            },
            None => join_path(temp_dir, "yeet"),
        },
    }
}

/// The path of the history ledger.
pub fn history_path(
    data_local_dir: &Option<String>,
    home_dir: &Option<String>,
    temp_dir: &str,
) -> (path: String)
    ensures
        path@ == joined(
            data_directory(opt_view(*data_local_dir), opt_view(*home_dir), temp_dir@),
            "history.txt"@,
        ),
{
    let directory = history_directory(data_local_dir, home_dir, temp_dir);
    join_path(directory.as_str(), "history.txt")
}

/// The directories that hold descriptors, in the order in which they are
/// searched: the user's own, the system's two, then those of flatpak, the
/// user's before the system's. The user's are left out where the user's
/// data directory is not known.
pub open spec fn application_dirs(data_local_dir: Option<Seq<char>>) -> Seq<Seq<char>> {
    match data_local_dir {
        Some(dir) => seq![
            joined(dir, "applications"@),
            "/usr/share/applications"@,
            "/usr/local/share/applications"@,
            joined(dir, "flatpak/exports/share/applications"@),
            "/var/lib/flatpak/exports/share/applications"@,
        ],
        None => seq![
            "/usr/share/applications"@,
            "/usr/local/share/applications"@,
            "/var/lib/flatpak/exports/share/applications"@,
        ],
    }
}

/// Lists the directories that hold descriptors.
pub fn xdg_application_dirs(data_local_dir: &Option<String>) -> (dirs: Vec<String>)
    ensures
        strings_view(dirs@) == application_dirs(opt_view(*data_local_dir)),
{
    let mut dirs: Vec<String> = Vec::new();
    match data_local_dir {
        Some(dir) => {
            dirs.push(join_path(dir.as_str(), "applications"));
        },
        None => {},
    }
    dirs.push("/usr/share/applications".to_owned());
    dirs.push("/usr/local/share/applications".to_owned());
    match data_local_dir {
        Some(dir) => {
            dirs.push(join_path(dir.as_str(), "flatpak/exports/share/applications"));
        },
        None => {},
    }
    dirs.push("/var/lib/flatpak/exports/share/applications".to_owned());
    assert(strings_view(dirs@) =~= application_dirs(opt_view(*data_local_dir)));
    dirs
}

/// Lists every directory to search for descriptors: the standard ones, then
/// the configured ones in the order in which they are configured.
pub fn search_dirs(data_local_dir: &Option<String>, config: &Config) -> (dirs: Vec<String>)
    ensures
        strings_view(dirs@) == application_dirs(opt_view(*data_local_dir))
            + config@.apps.extra_dirs,
{
    let mut dirs = xdg_application_dirs(data_local_dir);
    let mut extra = copy_strings(&config.apps.extra_dirs);
    let ghost standard = strings_view(dirs@);
    let ghost added = strings_view(extra@);
    dirs.append(&mut extra);
    assert(strings_view(dirs@) =~= standard + added);
    dirs
}

impl Config {
    /// The directory of the launcher's configuration: `yeet` below the
    /// user's configuration directory, where that is known.
    pub fn config_dir(config_base: &Option<String>) -> (dir: Option<String>)
        ensures
            opt_view(dir) == (match opt_view(*config_base) {
                Some(base) => Some(joined(base, "yeet"@)),
                None => None,
            }),
    {
        match config_base {
            Some(base) => Some(join_path(base.as_str(), "yeet")),
            None => None,
        }
    }

    /// The path of the user's configuration file.
    pub fn user_config_path(config_base: &Option<String>) -> (path: Option<String>)
        ensures
            opt_view(path) == (match opt_view(*config_base) {
                Some(base) => Some(joined(joined(base, "yeet"@), "config.toml"@)),
                None => None,
            }),
    {
        match Config::config_dir(config_base) {
            Some(dir) => Some(join_path(dir.as_str(), "config.toml")),
            None => None,
        }
    }

    /// The path of the user's style sheet.
    pub fn user_style_path(config_base: &Option<String>) -> (path: Option<String>)
        ensures
            opt_view(path) == (match opt_view(*config_base) {
                Some(base) => Some(joined(joined(base, "yeet"@), "style.css"@)),
                None => None,
            }),
    {
        match Config::config_dir(config_base) {
            Some(dir) => Some(join_path(dir.as_str(), "style.css")),
            None => None,
        }
    }
}

} // verus!
