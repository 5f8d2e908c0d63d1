use gmodpatchtool::gmod::{gmod_branch, gmod_is_ready, is_latest_version, launch_options_disable_chromium, parse_remote_version};
use gmodpatchtool::manifest::{is_executable, manifest_path_is_safe, target_platform};
use gmodpatchtool::patching::FileHashes;
use gmodpatchtool::retry::{retry_after, retry_start, AttemptFailure, RetryState};
use gmodpatchtool::steam::parse_app_manifest;
use gmodpatchtool::terminal::{color_code, progress_draw_target, progress_target_kind, terminal_write, DrawTargetKind};

#[test]
fn embedded_terminal_forces_visible_progress_target() {
    assert!(!progress_draw_target(false, true).is_hidden());
    assert!(progress_draw_target(false, false).is_hidden());
}

#[test]
fn progress_target_kinds() {
    assert_eq!(progress_target_kind(true, false), DrawTargetKind::Stdout);
    assert_eq!(progress_target_kind(true, true), DrawTargetKind::ForcedStdout);
    assert_eq!(progress_target_kind(false, false), DrawTargetKind::Hidden);
}

#[test]
fn terminal_text_with_and_without_color() {
    assert_eq!(terminal_write("hi", true, None), "hi\n");
    assert_eq!(terminal_write("hi", false, Some("red")), "\x1B[1;31mhi\x1B[0m");
    assert_eq!(terminal_write("hi", true, Some("purple")), "hi\n\x1B[0m");
    assert_eq!(color_code("cyan"), Some("\x1B[1;36m"));
    assert_eq!(color_code("blue"), None);
}

#[test]
fn game_readiness_and_branch() {
    let ready = parse_app_manifest("\"AppState\" { \"StateFlags\" \"4\" \"installdir\" \"G\" \"ScheduledAutoUpdate\" \"0\" \"MountedConfig\" { } }").unwrap();
    assert!(gmod_is_ready(&ready));
    assert_eq!(gmod_branch(&ready), "public");
    let updating = parse_app_manifest("\"AppState\" { \"StateFlags\" \"1026\" \"installdir\" \"G\" \"ScheduledAutoUpdate\" \"0\" \"MountedConfig\" { \"BetaKey\" \"dev\" } }").unwrap();
    assert!(!gmod_is_ready(&updating));
    assert_eq!(gmod_branch(&updating), "dev");
    let validating = parse_app_manifest("\"AppState\" { \"StateFlags\" \"4\" \"installdir\" \"G\" \"ScheduledAutoUpdate\" \"0\" \"FullValidateBeforeNextUpdate\" \"1\" \"MountedConfig\" { } }").unwrap();
    assert!(!gmod_is_ready(&validating));
}

#[test]
fn nochromium_is_detected() {
    assert!(launch_options_disable_chromium("-console -nochromium"));
    assert!(!launch_options_disable_chromium("-console -chromium_fps_max 60"));
}

#[test]
fn remote_version_parsing() {
    assert_eq!(parse_remote_version(" 42\n"), Some(42));
    assert_eq!(parse_remote_version("\u{3000}+7\t"), Some(7));
    assert_eq!(parse_remote_version("4 2"), None);
    assert_eq!(parse_remote_version(""), None);
    assert_eq!(parse_remote_version("4294967296"), None);
    assert!(is_latest_version(5, 5));
    assert!(!is_latest_version(4, 5));
}

#[test]
fn manifest_path_safety() {
    assert!(manifest_path_is_safe("garrysmod/bin/client.dll", false));
    assert!(manifest_path_is_safe("a/./b", false));
    assert!(!manifest_path_is_safe("../evil", false));
    assert!(!manifest_path_is_safe("a/../b", false));
    assert!(!manifest_path_is_safe("/etc/passwd", false));
    assert!(!manifest_path_is_safe("./a", false));
    assert!(!manifest_path_is_safe("a\u{1b}[2J", false));
    assert!(manifest_path_is_safe("a\\..\\b", false));
    assert!(!manifest_path_is_safe("a\\..\\b", true));
    assert!(!manifest_path_is_safe("C:evil", true));
    assert!(manifest_path_is_safe("C:evil", false));
}

#[test]
fn executable_flag() {
    let mut h = FileHashes { fixed: "f".into(), original: "o".into(), patch: "p".into(), executable: Some("true".into()) };
    assert!(is_executable(&h));
    h.executable = Some("false".into());
    assert!(!is_executable(&h));
    h.executable = None;
    assert!(!is_executable(&h));
}

#[test]
fn proton_masks_the_platform() {
    assert_eq!(target_platform("linux", Some("Proton_9")), ("windows".to_string(), "proton_9".to_string()));
    assert_eq!(target_platform("linux", Some("steamlinuxruntime_sniper")), ("linux".to_string(), "steamlinuxruntime_sniper".to_string()));
    assert_eq!(target_platform("linux", None), ("linux".to_string(), "none".to_string()));
}

#[test]
fn retries_move_through_servers() {
    let s = retry_start();
    let s = retry_after(s, AttemptFailure::Transport, 2);
    assert_eq!(s, RetryState { server_id: 0, try_count: 1 });
    let s = retry_after(s, AttemptFailure::Transport, 2);
    let s = retry_after(s, AttemptFailure::Transport, 2);
    assert_eq!(s, RetryState { server_id: 1, try_count: 0 });
    let s = retry_after(s, AttemptFailure::BadStatus, 2);
    assert_eq!(s, RetryState { server_id: 2, try_count: 0 });
}

#[test]
fn interior_current_dir_components_are_plain() {
    // `Path::components` drops a `.` that is not at the start, so such names are kept
    assert!(manifest_path_is_safe("a/./b", false));
    assert!(manifest_path_is_safe("a/.", false));
    assert!(manifest_path_is_safe("a//b", true));
    assert!(!manifest_path_is_safe("./a", false));
    assert!(!manifest_path_is_safe(".", true));
    assert!(!manifest_path_is_safe("a/../b", false));
}
