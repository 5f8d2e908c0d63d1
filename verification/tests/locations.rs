use gmodpatchtool::locations::{
    app_manifest_locations, install_dir_locations, library_folder_paths, libraryfolders_locations, linux_home_steam_paths,
};
use gmodpatchtool::patching::{all_fixed, download_task_done, IntegrityStatus};
use gmodpatchtool::steam::parse_library_folders;

fn joined(paths: Vec<Vec<String>>) -> Vec<String> {
    paths.into_iter().map(|p| p.join("/")).collect()
}

#[test]
fn steam_is_looked_for_in_snap_flatpak_then_home() {
    assert_eq!(
        joined(linux_home_steam_paths()),
        vec![
            "snap/steam/common/.local/share/Steam",
            "snap/steam/common/.steam/steam",
            ".var/app/com.valvesoftware.Steam/.local/share/Steam",
            ".var/app/com.valvesoftware.Steam/.steam/steam",
            ".steam/steam",
        ]
    );
}

#[test]
fn steam_file_locations_in_order() {
    assert_eq!(
        joined(libraryfolders_locations()),
        vec!["config/libraryfolders.vdf", "steamapps/libraryfolders.vdf", "SteamApps/libraryfolders.vdf"]
    );
    assert_eq!(
        joined(app_manifest_locations("4000")),
        vec!["steamapps/appmanifest_4000.acf", "SteamApps/appmanifest_4000.acf"]
    );
    assert_eq!(
        joined(install_dir_locations("GarrysMod")),
        vec!["steamapps/common/GarrysMod", "SteamApps/common/GarrysMod"]
    );
}

#[test]
fn library_folders_are_searched_in_file_order() {
    let vdf = "\"libraryfolders\"\n{\n\t\"0\"\n\t{\n\t\t\"path\"\t\"/a\"\n\t}\n\t\"contentstatsid\"\t\"1\"\n\t\"1\"\n\t{\n\t\t\"path\"\t\"/b\"\n\t}\n}\n";
    let entries = parse_library_folders(vdf).unwrap();
    assert_eq!(library_folder_paths(&entries), vec!["/a".to_string(), "/b".to_string()]);
    assert!(library_folder_paths(&[]).is_empty());
}

#[test]
fn run_fails_unless_every_file_is_fixed() {
    assert!(all_fixed(&[]));
    assert!(all_fixed(&[IntegrityStatus::Fixed, IntegrityStatus::Fixed]));
    assert!(!all_fixed(&[IntegrityStatus::Fixed, IntegrityStatus::NeedFix]));
    assert!(!all_fixed(&[IntegrityStatus::NeedDelete]));
}

#[test]
fn download_tasks_must_finish_and_store_the_file() {
    assert!(download_task_done(true, true));
    assert!(!download_task_done(true, false));
    assert!(!download_task_done(false, false));
}
