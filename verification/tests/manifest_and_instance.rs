use gmodpatchtool::instance::{is_tool_process_name, lockfile_is_ours, parse_lockfile_pid, prewarm_order};
use gmodpatchtool::manifest::{
    lookup_files, skipped_by_sourcescheme, Manifest, ManifestBranch, ManifestFile, ManifestLookupError, ManifestPlatform,
};
use gmodpatchtool::patching::FileHashes;

fn file(name: &str, executable: Option<&str>) -> ManifestFile {
    ManifestFile {
        name: name.to_string(),
        hashes: FileHashes {
            fixed: "f".to_string(),
            original: "o".to_string(),
            patch: "p".to_string(),
            executable: executable.map(|e| e.to_string()),
        },
    }
}

fn branch(name: &str, files: Vec<ManifestFile>) -> ManifestBranch {
    ManifestBranch { name: name.to_string(), files }
}

fn sample_manifest() -> Manifest {
    Manifest {
        platforms: vec![
            ManifestPlatform {
                name: "linux".to_string(),
                branches: vec![branch("x86-64", vec![file("bin/linux64/chromium.so", Some("true"))])],
            },
            ManifestPlatform {
                name: "windows".to_string(),
                branches: vec![
                    branch("public", vec![file("bin/a.dll", None)]),
                    branch("x86-64", vec![file("bin/win64/b.dll", None), file("bin/win64/c.exe", Some("true"))]),
                ],
            },
            // A later platform of the same name is never consulted
            ManifestPlatform { name: "windows".to_string(), branches: vec![branch("dev", vec![])] },
        ],
    }
}

#[test]
fn lookup_finds_platform_and_branch() {
    let m = sample_manifest();
    let files = lookup_files(&m, "windows", "x86-64").unwrap();
    let names: Vec<&str> = files.iter().map(|f| f.name.as_str()).collect();
    assert_eq!(names, vec!["bin/win64/b.dll", "bin/win64/c.exe"]);
    assert_eq!(lookup_files(&m, "linux", "x86-64").unwrap().len(), 1);
}

#[test]
fn lookup_reports_unsupported_platform_and_branch() {
    let m = sample_manifest();
    assert_eq!(lookup_files(&m, "macos", "public").unwrap_err(), ManifestLookupError::UnsupportedPlatform);
    assert_eq!(lookup_files(&m, "linux", "public").unwrap_err(), ManifestLookupError::UnsupportedBranch);
    // The first "windows" entry has no "dev" branch; the second is not looked at
    assert_eq!(lookup_files(&m, "windows", "dev").unwrap_err(), ManifestLookupError::UnsupportedBranch);
}

#[test]
fn sourcescheme_files_are_skipped_only_on_request() {
    assert!(skipped_by_sourcescheme("garrysmod/resource/SourceScheme.res", true));
    assert!(!skipped_by_sourcescheme("garrysmod/resource/SourceScheme.res", false));
    assert!(!skipped_by_sourcescheme("bin/win64/chromium.dll", true));
    assert!(!skipped_by_sourcescheme("res", true));
    assert!(skipped_by_sourcescheme(".res", true));
}

#[test]
fn lockfile_pid_is_trimmed_and_parsed() {
    assert_eq!(parse_lockfile_pid("1234\n"), Some(1234));
    assert_eq!(parse_lockfile_pid("  42  "), Some(42));
    assert_eq!(parse_lockfile_pid("+7"), Some(7));
    assert_eq!(parse_lockfile_pid(""), None);
    assert_eq!(parse_lockfile_pid("12a"), None);
    assert_eq!(parse_lockfile_pid("-1"), None);
}

#[test]
fn lockfile_belongs_to_the_writing_process_only() {
    assert!(lockfile_is_ours("1234", 1234));
    assert!(!lockfile_is_ours("1235", 1234));
    // Deleting compares the untrimmed text, as the lock was written without a newline
    assert!(!lockfile_is_ours("1234\n", 1234));
    assert!(!lockfile_is_ours("4294967296", 0));
    assert!(!lockfile_is_ours("garbage", 1));
}

#[test]
fn tool_process_names() {
    assert!(is_tool_process_name("gmodpatchtool"));
    assert!(is_tool_process_name("gmodpatchtool.exe"));
    assert!(!is_tool_process_name("gmod"));
    assert!(!is_tool_process_name("GModPatchTool"));
}

#[test]
fn prewarm_puts_the_framework_first() {
    let files = vec![
        file("GarrysMod_Signed.app/Contents/MacOS/libsteam_api.dylib", Some("true")),
        file("GarrysMod_Signed.app/Contents/Frameworks/Chromium Embedded Framework.framework/Chromium Embedded Framework", Some("true")),
        file("GarrysMod_Signed.app/Contents/MacOS/gmod", Some("true")),
        file("GarrysMod_Signed.app/Contents/MacOS/libnot_executable.dylib", None),
        file("GarrysMod_Signed.app/Contents/MacOS/libtier0.dylib", Some("true")),
    ];
    assert_eq!(prewarm_order(&files), vec![1, 0, 4]);
    assert_eq!(prewarm_order(&[]), Vec::<usize>::new());
}
