use gmodpatchtool::digest::file_checksum;
use gmodpatchtool::proton_appcontainer::{
    all_sites_match, apply_to_file, contains_bytes, matches_hotfixed_file, normalized_hotfix_hash, replace_sites,
    sites_for, x86_64_sites, x86_sites, ApplyResult, PatchSite,
};

fn fixture_for(sites: &[PatchSite]) -> Vec<u8> {
    let mut bytes = vec![0_u8; sites.iter().map(|site| site.offset + site.original.len()).max().unwrap()];
    for site in sites {
        bytes[site.offset..site.offset + site.original.len()].copy_from_slice(&site.original);
    }
    bytes
}

fn with_import(mut bytes: Vec<u8>) -> Vec<u8> {
    bytes.extend_from_slice(b"DeriveAppContainerSidFromAppContainerName\0");
    bytes
}

#[test]
fn x86_64_patch_round_trips_for_manifest_hashing() {
    let sites = x86_64_sites();
    let original = fixture_for(&sites);
    let expected_hash = file_checksum(&original);
    let mut patched = original.clone();
    replace_sites(&mut patched, &sites, true);

    assert_ne!(patched, original);
    assert_eq!(
        normalized_hotfix_hash(&patched, "bin/win64/gmod.exe").unwrap().as_deref(),
        Some(expected_hash.as_str())
    );
}

#[test]
fn x86_patch_skips_argument_pushes_and_round_trips() {
    let sites = x86_sites();
    let original = fixture_for(&sites);
    let expected_hash = file_checksum(&original);
    let mut patched = original.clone();
    replace_sites(&mut patched, &sites, true);

    assert!(sites
        .iter()
        .all(|site| patched[site.offset] == 0xb8 && patched[site.offset + 5..site.offset + 7] == [0xeb, 0x01]));
    assert_eq!(
        normalized_hotfix_hash(&patched, "bin/gmod.exe").unwrap().as_deref(),
        Some(expected_hash.as_str())
    );
}

#[test]
fn partial_patch_is_rejected() {
    let sites = x86_64_sites();
    let mut bytes = fixture_for(&sites);
    bytes[sites[0].offset..sites[0].offset + sites[0].replacement.len()].copy_from_slice(&sites[0].replacement);

    assert!(normalized_hotfix_hash(&bytes, "bin/win64/gmod.exe")
        .unwrap_err()
        .contains("partial or unknown"));
}

#[test]
fn partial_patch_error_names_the_file() {
    let sites = x86_sites();
    let mut bytes = fixture_for(&sites);
    bytes[sites[2].offset..sites[2].offset + sites[2].replacement.len()].copy_from_slice(&sites[2].replacement);
    assert_eq!(
        normalized_hotfix_hash(&bytes, "bin/gmod.exe").unwrap_err(),
        "bin/gmod.exe has a partial or unknown Proton AppContainer compatibility patch"
    );
}

#[test]
fn sites_are_only_defined_for_the_two_executables() {
    assert_eq!(sites_for("bin/win64/gmod.exe").unwrap().len(), 4);
    assert_eq!(sites_for("bin/gmod.exe").unwrap().len(), 4);
    assert!(sites_for("bin/win64/gmod").is_none());
    assert!(sites_for("garrysmod/bin/gmod.exe").is_none());
}

#[test]
fn x86_64_replacement_returns_proc_not_found() {
    let sites = x86_64_sites();
    assert_eq!(sites[0].offset, 0x37c34);
    assert_eq!(sites[3].offset, 0x387ab);
    for site in &sites {
        assert_eq!(site.replacement, vec![0xb8, 0x7f, 0x00, 0x07, 0x80, 0x90]);
        assert_eq!(site.original.len(), site.replacement.len());
    }
}

#[test]
fn x86_markers_are_distinct() {
    let markers: Vec<u8> = x86_sites().iter().map(|site| site.replacement[7]).collect();
    assert_eq!(markers, vec![0xa1, 0xa2, 0xa3, 0xa4]);
}

#[test]
fn contains_bytes_finds_runs() {
    assert!(contains_bytes(b"hello world", b"o w"));
    assert!(contains_bytes(b"abc", b"abc"));
    assert!(!contains_bytes(b"abc", b"abcd"));
    assert!(!contains_bytes(b"abcabd", b"abe"));
    assert!(contains_bytes(b"xxabd", b"abd"));
}

#[test]
fn all_sites_match_checks_every_site() {
    let sites = x86_64_sites();
    let bytes = fixture_for(&sites);
    assert!(all_sites_match(&bytes, &sites, false));
    assert!(!all_sites_match(&bytes, &sites, true));
    let short = &bytes[..bytes.len() - 1];
    assert!(!all_sites_match(short, &sites, false));
}

#[test]
fn unpatched_executable_normalizes_to_none() {
    let sites = x86_sites();
    let bytes = fixture_for(&sites);
    assert_eq!(normalized_hotfix_hash(&bytes, "bin/gmod.exe").unwrap(), None);
    assert_eq!(normalized_hotfix_hash(&bytes, "other.exe").unwrap(), None);
}

#[test]
fn apply_patches_then_reports_already_applied() {
    let sites = x86_64_sites();
    let original = with_import(fixture_for(&sites));
    let hash = file_checksum(&original);
    let (result, patched) = apply_to_file(Ok(original.clone()), "bin/win64/gmod.exe", &hash).unwrap();
    assert_eq!(result, ApplyResult::Applied);
    let patched = patched.unwrap();
    assert!(all_sites_match(&patched, &sites, true));
    assert_ne!(patched, original);

    let (again, nothing) = apply_to_file(Ok(patched.clone()), "bin/win64/gmod.exe", &hash).unwrap();
    assert_eq!(again, ApplyResult::AlreadyApplied);
    assert!(nothing.is_none());
    assert_eq!(matches_hotfixed_file(Ok(patched), "bin/win64/gmod.exe", &hash), Ok(true));
}

#[test]
fn apply_rejects_unknown_file() {
    assert_eq!(
        apply_to_file(Ok(vec![]), "bin/linux/gmod", "x").unwrap_err(),
        "No Proton AppContainer compatibility patch is defined for bin/linux/gmod"
    );
}

#[test]
fn apply_passes_on_read_errors() {
    assert_eq!(
        apply_to_file(Err("No such file".to_string()), "bin/gmod.exe", "x").unwrap_err(),
        "No such file"
    );
}

#[test]
fn apply_requires_the_appcontainer_import() {
    let sites = x86_sites();
    let bytes = fixture_for(&sites);
    let hash = file_checksum(&bytes);
    assert_eq!(
        apply_to_file(Ok(bytes), "bin/gmod.exe", &hash).unwrap_err(),
        "bin/gmod.exe does not import DeriveAppContainerSidFromAppContainerName"
    );
}

#[test]
fn apply_refuses_checksum_mismatch() {
    let sites = x86_sites();
    let bytes = with_import(fixture_for(&sites));
    assert_eq!(
        apply_to_file(Ok(bytes), "bin/gmod.exe", "0000").unwrap_err(),
        "Refusing to modify bin/gmod.exe: its checksum does not match the manifest"
    );
}

#[test]
fn apply_refuses_unknown_layout() {
    let sites = x86_sites();
    let mut bytes = with_import(fixture_for(&sites));
    bytes[sites[1].offset] ^= 0xff;
    let hash = file_checksum(&bytes);
    assert_eq!(
        apply_to_file(Ok(bytes), "bin/gmod.exe", &hash).unwrap_err(),
        "Refusing to modify bin/gmod.exe: this GMod/Chromium executable layout is not supported"
    );
}

#[test]
fn apply_rejects_patched_file_with_other_checksum() {
    let sites = x86_64_sites();
    let mut bytes = with_import(fixture_for(&sites));
    replace_sites(&mut bytes, &sites, true);
    assert_eq!(
        apply_to_file(Ok(bytes), "bin/win64/gmod.exe", "ffff").unwrap_err(),
        "bin/win64/gmod.exe does not match the manifest after normalizing its Proton AppContainer compatibility patch"
    );
}

#[test]
fn matches_hotfixed_file_cases() {
    assert_eq!(matches_hotfixed_file(Err("unread".to_string()), "bin/other.dll", "x"), Ok(false));
    assert_eq!(matches_hotfixed_file(Err("unread".to_string()), "bin/gmod.exe", "x"), Err("unread".to_string()));
    let sites = x86_sites();
    let bytes = fixture_for(&sites);
    let hash = file_checksum(&bytes);
    assert_eq!(matches_hotfixed_file(Ok(bytes.clone()), "bin/gmod.exe", &hash), Ok(false));
    let mut patched = bytes;
    replace_sites(&mut patched, &sites, true);
    assert_eq!(matches_hotfixed_file(Ok(patched.clone()), "bin/gmod.exe", &hash), Ok(true));
    assert_eq!(matches_hotfixed_file(Ok(patched), "bin/gmod.exe", "abc"), Ok(false));
}
