//! Where the tool looks for Steam and for the files it reads inside a Steam
//! installation or library, in the order it tries them. Paths are lists of components,
//! joined onto a base directory by the caller.

use vstd::prelude::*;
use vstd::string::StringExecFns;
use crate::steam::{SteamLibraryFolderEntry, library_entry_view};
use crate::text::concat_str;

verus! {

/// The model of a relative path: its components.
pub open spec fn path_view(p: Vec<String>) -> Seq<Seq<char>> {
    p@.map_values(|c: String| c@)
}

/// The model of a list of relative paths.
pub open spec fn paths_view(ps: Seq<Vec<String>>) -> Seq<Seq<Seq<char>>> {
    ps.map_values(|p: Vec<String>| path_view(p))
}

/// A path built from its components.
fn path_of(parts: &[&str]) -> (res: Vec<String>)
    ensures
        path_view(res) == parts@.map_values(|c: &str| c@),
{
    let mut out: Vec<String> = Vec::new();
    let mut i: usize = 0;
    while i < parts.len()
        invariant
            0 <= i <= parts@.len(),
            out@.len() == i,
            path_view(out) == parts@.subrange(0, i as int).map_values(|c: &str| c@),
        decreases parts@.len() - i,
    {
        let ghost before = out@;
        let part = String::from_str(parts[i]);
        assert(part@ == parts@[i as int]@);
        out.push(part);
        proof {
            let want = parts@.subrange(0, i + 1).map_values(|c: &str| c@);
            assert(out@ == before.push(part));
            assert forall|k: int| 0 <= k < i + 1 implies #[trigger] path_view(out)[k] == want[k] by {
                if k < i {
                    assert(out@[k] == before[k]);
                    assert(path_view(out)[k] == before[k]@);
                    assert(parts@.subrange(0, i as int).map_values(|c: &str| c@)[k] == before.map_values(|c: String| c@)[k]);
                }
            }
            assert(path_view(out) =~= want);
        }
        i = i + 1;
    }
    assert(parts@.subrange(0, parts@.len() as int) =~= parts@);
    out
}

/// The Steam installations looked for under the home directory on Linux, in order:
/// the Snap installs, the Flatpak installs, then `~/.steam/steam`.
pub open spec fn spec_linux_home_steam_paths() -> Seq<Seq<Seq<char>>> {
    seq![
        seq!["snap"@, "steam"@, "common"@, ".local"@, "share"@, "Steam"@],
        seq!["snap"@, "steam"@, "common"@, ".steam"@, "steam"@],
        seq![".var"@, "app"@, "com.valvesoftware.Steam"@, ".local"@, "share"@, "Steam"@],
        seq![".var"@, "app"@, "com.valvesoftware.Steam"@, ".steam"@, "steam"@],
        seq![".steam"@, "steam"@],
    ]
}

/// The Steam installations looked for under the home directory on Linux (see
/// `spec_linux_home_steam_paths`); `$XDG_DATA_HOME/Steam` is tried after them.
pub fn linux_home_steam_paths() -> (res: Vec<Vec<String>>)
    ensures
        paths_view(res@) == spec_linux_home_steam_paths(),
{
    let a = path_of(&["snap", "steam", "common", ".local", "share", "Steam"]);
    let b = path_of(&["snap", "steam", "common", ".steam", "steam"]);
    let c = path_of(&[".var", "app", "com.valvesoftware.Steam", ".local", "share", "Steam"]);
    let d = path_of(&[".var", "app", "com.valvesoftware.Steam", ".steam", "steam"]);
    let e = path_of(&[".steam", "steam"]);
    let out = vec![a, b, c, d, e];
    assert(paths_view(out@) =~~= spec_linux_home_steam_paths());
    out
}

/// Where `libraryfolders.vdf` is looked for in a Steam installation, in order.
pub open spec fn spec_libraryfolders_locations() -> Seq<Seq<Seq<char>>> {
    seq![
        seq!["config"@, "libraryfolders.vdf"@],
        seq!["steamapps"@, "libraryfolders.vdf"@],
        seq!["SteamApps"@, "libraryfolders.vdf"@],
    ]
}

/// Where `libraryfolders.vdf` is looked for (see `spec_libraryfolders_locations`); the
/// first that can be read is used.
pub fn libraryfolders_locations() -> (res: Vec<Vec<String>>)
    ensures
        paths_view(res@) == spec_libraryfolders_locations(),
{
    let a = path_of(&["config", "libraryfolders.vdf"]);
    let b = path_of(&["steamapps", "libraryfolders.vdf"]);
    let c = path_of(&["SteamApps", "libraryfolders.vdf"]);
    let out = vec![a, b, c];
    assert(paths_view(out@) =~~= spec_libraryfolders_locations());
    out
}

/// Where an app's manifest `appmanifest_<appid>.acf` is looked for in a library, in
/// order: under `steamapps`, then under `SteamApps`.
pub open spec fn spec_app_manifest_locations(appid: Seq<char>) -> Seq<Seq<Seq<char>>> {
    let name = "appmanifest_"@ + appid + ".acf"@;
    seq![seq!["steamapps"@, name], seq!["SteamApps"@, name]]
}

/// Where an app's manifest is looked for in a library (see `spec_app_manifest_locations`).
pub fn app_manifest_locations(appid: &str) -> (res: Vec<Vec<String>>)
    ensures
        paths_view(res@) == spec_app_manifest_locations(appid@),
{
    let name = concat_str("appmanifest_", appid);
    let name = concat_str(name.as_str(), ".acf");
    let a = path_of(&["steamapps", name.as_str()]);
    let b = path_of(&["SteamApps", name.as_str()]);
    let out = vec![a, b];
    assert(paths_view(out@) =~~= spec_app_manifest_locations(appid@));
    out
}

/// Where an app's install directory is looked for in a library, in order.
pub open spec fn spec_install_dir_locations(install_dir: Seq<char>) -> Seq<Seq<Seq<char>>> {
    seq![seq!["steamapps"@, "common"@, install_dir], seq!["SteamApps"@, "common"@, install_dir]]
}

/// Where an app's install directory is looked for (see `spec_install_dir_locations`).
pub fn install_dir_locations(install_dir: &str) -> (res: Vec<Vec<String>>)
    ensures
        paths_view(res@) == spec_install_dir_locations(install_dir@),
{
    let a = path_of(&["steamapps", "common", install_dir]);
    let b = path_of(&["SteamApps", "common", install_dir]);
    let out = vec![a, b];
    assert(paths_view(out@) =~~= spec_install_dir_locations(install_dir@));
    out
}

/// The paths of the library folders among `libraryfolders.vdf`'s entries, in file order
/// (other entries are skipped).
pub open spec fn folder_paths(es: Seq<Option<Seq<char>>>) -> Seq<Seq<char>>
    decreases es.len(),
{
    if es.len() == 0 {
        Seq::empty()
    } else {
        let rest = folder_paths(es.drop_last());
        match es.last() {
            Some(p) => rest.push(p),
            None => rest,
        }
    }
}

/// The model of the entries, without their names.
pub open spec fn entry_paths_view(es: Seq<(String, SteamLibraryFolderEntry)>) -> Seq<Option<Seq<char>>> {
    es.map_values(|e: (String, SteamLibraryFolderEntry)| library_entry_view(e.1))
}

/// The model of a list of strings.
pub open spec fn strings_view(v: Seq<String>) -> Seq<Seq<char>> {
    v.map_values(|s: String| s@)
}

/// The library folders to search, in file order (see `folder_paths`); the game's
/// library is the first of them that holds its app manifest.
pub fn library_folder_paths(entries: &[(String, SteamLibraryFolderEntry)]) -> (res: Vec<String>)
    ensures
        strings_view(res@) == folder_paths(entry_paths_view(entries@)),
{
    let ghost ev = entry_paths_view(entries@);
    let mut out: Vec<String> = Vec::new();
    let mut i: usize = 0;
    while i < entries.len()
        invariant
            0 <= i <= entries@.len(),
            ev == entry_paths_view(entries@),
            strings_view(out@) == folder_paths(ev.subrange(0, i as int)),
        decreases entries@.len() - i,
    {
        let ghost pre = ev.subrange(0, i + 1);
        assert(pre.drop_last() =~= ev.subrange(0, i as int));
        assert(pre.last() == library_entry_view(entries@[i as int].1));
        let ghost before = out@;
        match &entries[i].1 {
            SteamLibraryFolderEntry::Folder(f) => {
                out.push(f.path.clone());
                assert(strings_view(out@) =~= strings_view(before).push(f.path@));
            },
            SteamLibraryFolderEntry::Other => {},
        }
        i = i + 1;
    }
    assert(ev.subrange(0, entries@.len() as int) =~= ev);
    out
}

} // verus!
