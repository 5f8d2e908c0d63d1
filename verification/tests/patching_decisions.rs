use gmodpatchtool::digest::{contents_match_checksum, file_checksum};
use gmodpatchtool::patching::{
    cache_file_name, check_bsdiff_header_sums, collect_pending, decode_download, determine_file_integrity_status,
    downloads_for, next_patch_step, patch_bytes, status_after_step, FileHashes, IntegrityStatus, PatchFailure,
    PatchStep,
};

fn hashes(fixed: &str, original: &str) -> FileHashes {
    FileHashes { fixed: fixed.to_string(), original: original.to_string(), patch: "p".to_string(), executable: None }
}

#[test]
fn integrity_status_cases() {
    let h = hashes("f", "o");
    assert_eq!(determine_file_integrity_status(&Ok(Some("f".to_string())), &h), Ok(IntegrityStatus::Fixed));
    assert_eq!(determine_file_integrity_status(&Ok(Some("o".to_string())), &h), Ok(IntegrityStatus::NeedFix));
    assert_eq!(determine_file_integrity_status(&Ok(Some("z".to_string())), &h), Ok(IntegrityStatus::NeedOriginal));
    assert_eq!(determine_file_integrity_status(&Ok(None), &h), Ok(IntegrityStatus::NeedOriginal));
    assert_eq!(determine_file_integrity_status(&Ok(Some("f".to_string())), &hashes("null", "o")), Ok(IntegrityStatus::NeedDelete));
    assert_eq!(determine_file_integrity_status(&Ok(None), &hashes("null", "o")), Ok(IntegrityStatus::Fixed));
    assert_eq!(determine_file_integrity_status(&Ok(Some("x".to_string())), &hashes("f", "null")), Ok(IntegrityStatus::NeedWipeFix));
    assert_eq!(determine_file_integrity_status(&Err("io".to_string()), &h), Err("io".to_string()));
}

#[test]
fn pending_skips_fixed_and_stops_on_errors() {
    let statuses = vec![Ok(IntegrityStatus::Fixed), Ok(IntegrityStatus::NeedFix), Ok(IntegrityStatus::NeedDelete)];
    assert_eq!(collect_pending(&statuses), Some(vec![(1, IntegrityStatus::NeedFix), (2, IntegrityStatus::NeedDelete)]));
    let statuses = vec![Ok(IntegrityStatus::NeedFix), Err("bad".to_string())];
    assert_eq!(collect_pending(&statuses), None);
}

#[test]
fn downloads_for_each_status() {
    let h = FileHashes { fixed: "f".into(), original: "o".into(), patch: "p".into(), executable: None };
    let names = |s| {
        downloads_for("windows", "x86-64", "bin/a.dll", s, &h)
            .into_iter()
            .map(|d| (d.remote_name, d.expected_hash))
            .collect::<Vec<_>>()
    };
    assert_eq!(
        names(IntegrityStatus::NeedOriginal),
        vec![
            ("originals/windows/x86-64/bin/a.dll.zst".to_string(), "o".to_string()),
            ("patches/windows/x86-64/bin/a.dll.bsdiff".to_string(), "p".to_string())
        ]
    );
    assert_eq!(names(IntegrityStatus::NeedFix), vec![("patches/windows/x86-64/bin/a.dll.bsdiff".to_string(), "p".to_string())]);
    assert_eq!(names(IntegrityStatus::NeedWipeFix).len(), 1);
    assert!(names(IntegrityStatus::NeedDelete).is_empty());
}

#[test]
fn cache_names_drop_the_zstd_suffix() {
    assert_eq!(cache_file_name("originals/linux/public/bin/a.so.zst"), "originals/linux/public/bin/a.so");
    assert_eq!(cache_file_name("patches/x.bsdiff"), "patches/x.bsdiff");
    assert_eq!(cache_file_name(".zs"), ".zs");
}

#[test]
fn plain_downloads_are_kept_and_zstd_is_decoded() {
    assert_eq!(decode_download("a.bsdiff", vec![1, 2, 3]), Ok(vec![1, 2, 3]));
    let compressed = zstd::encode_all(&b"hello zstd"[..], 3).unwrap();
    assert_eq!(decode_download("a.zst", compressed), Ok(b"hello zstd".to_vec()));
    assert!(decode_download("a.zst", vec![1, 2, 3]).is_err());
}

#[test]
fn patch_steps_walk_to_fixed() {
    assert_eq!(next_patch_step(IntegrityStatus::NeedOriginal), Some(PatchStep::CopyOriginal));
    assert_eq!(status_after_step(IntegrityStatus::NeedOriginal, true), IntegrityStatus::NeedFix);
    assert_eq!(next_patch_step(IntegrityStatus::NeedFix), Some(PatchStep::ApplyPatch));
    assert_eq!(status_after_step(IntegrityStatus::NeedFix, true), IntegrityStatus::Fixed);
    assert_eq!(next_patch_step(IntegrityStatus::Fixed), None);
    assert_eq!(status_after_step(IntegrityStatus::NeedWipeFix, false), IntegrityStatus::NeedWipeFix);
    assert_eq!(next_patch_step(IntegrityStatus::NeedWipeFix), Some(PatchStep::CreateEmpty));
    assert_eq!(status_after_step(IntegrityStatus::NeedDelete, true), IntegrityStatus::Fixed);
}

#[test]
fn bsdiff_patches_are_applied_and_checked() {
    let source = b"the quick brown fox jumps over the lazy dog".to_vec();
    let target = b"the quick brown cat jumps over the lazy dog!".to_vec();
    let mut patch = Vec::new();
    qbsdiff::Bsdiff::new(&source, &target).compare(std::io::Cursor::new(&mut patch)).unwrap();
    assert!(check_bsdiff_header_sums(&patch));
    let expected = file_checksum(&target);
    assert_eq!(patch_bytes(&source, &patch, &expected).unwrap(), target);
    assert!(matches!(patch_bytes(&source, &patch, "wrong"), Err(PatchFailure::ChecksumMismatch)));
    assert!(matches!(patch_bytes(&source, b"not a patch", &expected), Err(PatchFailure::InvalidPatch(_))));
}

#[test]
fn bsdiff_header_overflow_is_detected() {
    let mut patch = b"BSDIFF40".to_vec();
    patch.extend_from_slice(&[0xff; 8]);
    patch.extend_from_slice(&[0xff; 8]);
    patch.extend_from_slice(&[0; 8]);
    assert!(!check_bsdiff_header_sums(&patch));
    let mut patch = b"BSDIFF40".to_vec();
    patch.extend_from_slice(&[5, 0, 0, 0, 0, 0, 0, 0]);
    patch.extend_from_slice(&[7, 0, 0, 0, 0, 0, 0, 0]);
    patch.extend_from_slice(&[0; 8]);
    assert!(check_bsdiff_header_sums(&patch));
    assert!(matches!(patch_bytes(b"", &patch, "x"), Err(PatchFailure::InvalidPatch(_))));
    let mut patch = b"BSDIFF40".to_vec();
    patch.extend_from_slice(&[0, 0, 0, 0, 0, 0, 0, 0xc0]);
    patch.extend_from_slice(&[0, 0, 0, 0, 0, 0, 0, 0xc0]);
    patch.extend_from_slice(&[0; 8]);
    assert!(!check_bsdiff_header_sums(&patch));
    assert!(check_bsdiff_header_sums(b"short"));
}

#[test]
fn checksum_is_lowercase_blake3_hex() {
    assert_eq!(file_checksum(b""), "af1349b9f5f9a1a6a0404dea36dcc9499bcb25c9adc112b7cc9a93cae41f3262");
    assert_eq!(file_checksum(b"abc").len(), 64);
    assert_ne!(file_checksum(b"abc"), file_checksum(b"abd"));
}

#[test]
fn contents_are_checked_against_the_manifest_checksum() {
    let expected = "af1349b9f5f9a1a6a0404dea36dcc9499bcb25c9adc112b7cc9a93cae41f3262";
    assert!(contents_match_checksum(b"", expected));
    assert!(!contents_match_checksum(b"x", expected));
    assert!(!contents_match_checksum(b"", "AF1349B9F5F9A1A6A0404DEA36DCC9499BCB25C9ADC112B7CC9A93CAE41F3262"));
}
