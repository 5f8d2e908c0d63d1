//! Deciding what each game file needs, and producing the patched bytes.
//!
//! Every manifest file carries the checksum of its fixed form (`fixed`), of the vendor
//! file it is made from (`original`) and of its bsdiff patch (`patch`); the text `null`
//! stands for a file that does not exist. Patch files and vendor originals are
//! downloaded into a cache (originals Zstandard-compressed), then applied.

use vstd::prelude::*;
use vstd::string::{StringExecFns, StringSliceAdditionalSpecFns};
use crate::digest::{blake3_hex, checksum_of};
use crate::text::str_eq;

verus! {

/// The checksum text that stands for a file that does not exist.
pub open spec fn blank_hash() -> Seq<char> {
    "null"@
}

/// What a game file needs before it is in its fixed form.
#[derive(Clone, Copy, Debug, PartialEq, Eq, Hash, Structural)]
pub enum IntegrityStatus {
    NeedDelete,
    NeedOriginal,
    NeedWipeFix,
    NeedFix,
    Fixed,
}

/// The manifest's checksums for one file.
#[derive(Clone, Debug)]
pub struct FileHashes {
    pub fixed: String,
    pub original: String,
    pub patch: String,
    pub executable: Option<String>,
}

/// The status of a file whose current checksum is `current` (`"null"` if it does not
/// exist): fixed when it has the fixed checksum; else it must be deleted when the fixed
/// form is absent, created and patched when the original is absent, patched when it is
/// the original, and replaced by the original and patched otherwise.
pub open spec fn spec_integrity_status(current: Seq<char>, fixed: Seq<char>, original: Seq<char>) -> IntegrityStatus {
    if current == fixed {
        IntegrityStatus::Fixed
    } else if fixed == blank_hash() {
        IntegrityStatus::NeedDelete
    } else if original == blank_hash() {
        IntegrityStatus::NeedWipeFix
    } else if current == original {
        IntegrityStatus::NeedFix
    } else {
        IntegrityStatus::NeedOriginal
    }
}

/// The status of a file, given how computing its checksum went: `Ok(None)` when the
/// file does not exist, `Ok(Some(hash))` when it does, `Err` when hashing failed.
pub open spec fn spec_file_integrity(file_hash: Result<Option<Seq<char>>, Seq<char>>, fixed: Seq<char>, original: Seq<char>) -> Result<IntegrityStatus, Seq<char>> {
    match file_hash {
        Err(e) => Err(e),
        Ok(None) => Ok(spec_integrity_status(blank_hash(), fixed, original)),
        Ok(Some(h)) => Ok(spec_integrity_status(h, fixed, original)),
    }
}

/// The model of a checksum outcome.
pub open spec fn file_hash_view(r: &Result<Option<String>, String>) -> Result<Option<Seq<char>>, Seq<char>> {
    match r {
        Ok(Some(h)) => Ok(Some(h@)),
        Ok(None) => Ok(None),
        Err(e) => Err(e@),
    }
}

/// Decides what a file needs (see `spec_file_integrity`).
pub fn determine_file_integrity_status(file_hash: &Result<Option<String>, String>, hashes: &FileHashes) -> (res: Result<IntegrityStatus, String>)
    ensures
        match res {
            Ok(s) => spec_file_integrity(file_hash_view(file_hash), hashes.fixed@, hashes.original@) == Ok::<IntegrityStatus, Seq<char>>(s),
            Err(e) => spec_file_integrity(file_hash_view(file_hash), hashes.fixed@, hashes.original@) == Err::<IntegrityStatus, Seq<char>>(e@),
        },
{
    let current: &str = match file_hash {
        Err(e) => return Err(e.clone()),
        Ok(None) => "null",
        Ok(Some(h)) => h.as_str(),
    };
    if str_eq(current, hashes.fixed.as_str()) {
        Ok(IntegrityStatus::Fixed)
    } else if str_eq(hashes.fixed.as_str(), "null") {
        Ok(IntegrityStatus::NeedDelete)
    } else if str_eq(hashes.original.as_str(), "null") {
        Ok(IntegrityStatus::NeedWipeFix)
    } else if str_eq(current, hashes.original.as_str()) {
        Ok(IntegrityStatus::NeedFix)
    } else {
        Ok(IntegrityStatus::NeedOriginal)
    }
}

/// The files that still need work: the indices (in order) of the statuses other than
/// `Fixed`, or `None` when any status could not be determined.
pub open spec fn spec_pending(statuses: Seq<Result<IntegrityStatus, Seq<char>>>) -> Option<Seq<(int, IntegrityStatus)>>
    decreases statuses.len(),
{
    if statuses.len() == 0 {
        Some(Seq::empty())
    } else {
        let n = statuses.len() - 1;
        match spec_pending(statuses.drop_last()) {
            None => None,
            Some(ps) => match statuses[n] {
                Err(_) => None,
                Ok(IntegrityStatus::Fixed) => Some(ps),
                Ok(s) => Some(ps.push((n, s))),
            },
        }
    }
}

/// The model of a list of status outcomes.
pub open spec fn statuses_view(rs: Seq<Result<IntegrityStatus, String>>) -> Seq<Result<IntegrityStatus, Seq<char>>> {
    rs.map_values(|r: Result<IntegrityStatus, String>| match r {
        Ok(s) => Ok(s),
        Err(e) => Err(e@),
    })
}

proof fn lemma_pending_prefix_none(statuses: Seq<Result<IntegrityStatus, Seq<char>>>, i: int)
    requires
        0 <= i <= statuses.len(),
        spec_pending(statuses.subrange(0, i)) is None,
    ensures
        spec_pending(statuses) is None,
    decreases statuses.len() - i,
{
    if i < statuses.len() {
        assert(statuses.subrange(0, i + 1).drop_last() =~= statuses.subrange(0, i));
        lemma_pending_prefix_none(statuses, i + 1);
    } else {
        assert(statuses.subrange(0, i) =~= statuses);
    }
}

/// The model of a pending list.
pub open spec fn pending_view(ps: Seq<(usize, IntegrityStatus)>) -> Seq<(int, IntegrityStatus)> {
    ps.map_values(|p: (usize, IntegrityStatus)| (p.0 as int, p.1))
}

/// Collects the files that still need work (see `spec_pending`).
pub fn collect_pending(statuses: &[Result<IntegrityStatus, String>]) -> (res: Option<Vec<(usize, IntegrityStatus)>>)
    ensures
        match res {
            Some(ps) => spec_pending(statuses_view(statuses@)) == Some(pending_view(ps@)),
            None => spec_pending(statuses_view(statuses@)) is None,
        },
{
    let ghost sv = statuses_view(statuses@);
    let mut out: Vec<(usize, IntegrityStatus)> = Vec::new();
    let mut i: usize = 0;
    assert(pending_view(out@) =~= Seq::<(int, IntegrityStatus)>::empty());
    while i < statuses.len()
        invariant
            sv == statuses_view(statuses@),
            sv.len() == statuses@.len(),
            0 <= i <= statuses@.len(),
            spec_pending(sv.subrange(0, i as int)) == Some(pending_view(out@)),
        decreases statuses@.len() - i,
    {
        let ghost pre = sv.subrange(0, i as int + 1);
        assert(pre.drop_last() =~= sv.subrange(0, i as int));
        assert(pre[i as int] == sv[i as int]);
        match &statuses[i] {
            Err(_) => {
                assert(spec_pending(pre) is None);
                proof { lemma_pending_prefix_none(sv, i + 1); }
                return None;
            },
            Ok(s) => {
                if *s != IntegrityStatus::Fixed {
                    let ghost before = pending_view(out@);
                    out.push((i, *s));
                    assert(pending_view(out@) =~= before.push((i as int, *s)));
                }
            },
        }
        i = i + 1;
    }
    assert(sv.subrange(0, sv.len() as int) =~= sv);
    Some(out)
}

/// Law: the pending list holds exactly the files that are not fixed, each once, in
/// manifest order, with their statuses.
pub proof fn lemma_pending_is_not_fixed(statuses: Seq<Result<IntegrityStatus, Seq<char>>>)
    requires
        spec_pending(statuses) is Some,
    ensures
        forall|k: int| 0 <= k < statuses.len() ==> (#[trigger] statuses[k]) is Ok,
        forall|k: int| #![trigger spec_pending(statuses).unwrap()[k]]
            0 <= k < spec_pending(statuses).unwrap().len() ==> {
                let (i, s) = spec_pending(statuses).unwrap()[k];
                &&& 0 <= i < statuses.len()
                &&& statuses[i] == Ok::<IntegrityStatus, Seq<char>>(s)
                &&& s != IntegrityStatus::Fixed
            },
        forall|k1: int, k2: int| #![trigger spec_pending(statuses).unwrap()[k1], spec_pending(statuses).unwrap()[k2]]
            0 <= k1 < k2 < spec_pending(statuses).unwrap().len() ==>
                spec_pending(statuses).unwrap()[k1].0 < spec_pending(statuses).unwrap()[k2].0,
        forall|i: int| 0 <= i < statuses.len() && statuses[i] != Ok::<IntegrityStatus, Seq<char>>(IntegrityStatus::Fixed) ==>
            exists|k: int| 0 <= k < spec_pending(statuses).unwrap().len() && (#[trigger] spec_pending(statuses).unwrap()[k]).0 == i,
    decreases statuses.len(),
{
    if statuses.len() > 0 {
        let n = statuses.len() - 1;
        let prev = statuses.drop_last();
        lemma_pending_is_not_fixed(prev);
        let pp = spec_pending(prev).unwrap();
        let ps = spec_pending(statuses).unwrap();
        assert forall|k: int| 0 <= k < statuses.len() implies (#[trigger] statuses[k]) is Ok by {
            if k < n {
                assert(prev[k] == statuses[k]);
            }
        }
        assert forall|k: int| #![trigger ps[k]] 0 <= k < pp.len() implies ps[k] == pp[k] by {}
        assert forall|k: int| 0 <= k < pp.len() implies pp[k].0 < n by {
            let (i, s) = pp[k];
            assert(0 <= i < prev.len());
        }
        assert forall|k: int| #![trigger ps[k]] 0 <= k < ps.len() implies {
            let (i, s) = ps[k];
            &&& 0 <= i < statuses.len()
            &&& statuses[i] == Ok::<IntegrityStatus, Seq<char>>(s)
            &&& s != IntegrityStatus::Fixed
        } by {
            if k < pp.len() {
                let (i, s) = pp[k];
                assert(prev[i] == statuses[i]);
            }
        }
        assert forall|i: int| 0 <= i < statuses.len() && statuses[i] != Ok::<IntegrityStatus, Seq<char>>(IntegrityStatus::Fixed) implies
            exists|k: int| 0 <= k < ps.len() && (#[trigger] ps[k]).0 == i by {
            if i < n {
                assert(prev[i] == statuses[i]);
                let k = choose|k: int| 0 <= k < pp.len() && (#[trigger] pp[k]).0 == i;
                assert(ps[k] == pp[k]);
            } else {
                assert(ps[ps.len() - 1].0 == n);
            }
        }
    }
}

/// The bytes `.zst` in UTF-8.
pub open spec fn zst_suffix() -> Seq<u8> {
    seq![0x2eu8, 0x7a, 0x73, 0x74]
}

/// Whether a byte string ends with `.zst`.
pub open spec fn ends_with_zst(b: Seq<u8>) -> bool {
    b.len() >= 4 && b.subrange(b.len() - 4, b.len() as int) == zst_suffix()
}

/// Whether `name` ends with `.zst`.
pub fn is_zstd_name(name: &str) -> (res: bool)
    ensures
        res == ends_with_zst(name.spec_bytes()),
{
    let b = name.as_bytes();
    let n = b.len();
    if n < 4 {
        return false;
    }
    let r = b[n - 4] == 0x2e && b[n - 3] == 0x7a && b[n - 2] == 0x73 && b[n - 1] == 0x74;
    if r {
        assert(b@.subrange(n - 4, n as int) =~= zst_suffix());
    } else {
        assert(b@.subrange(n - 4, n as int) != zst_suffix()) by {
            let t = b@.subrange(n - 4, n as int);
            assert(t[0] == b@[n - 4] && t[1] == b@[n - 3] && t[2] == b@[n - 2] && t[3] == b@[n - 1]);
        }
    }
    r
}

/// The cache file name for a downloaded file: its remote name without `.zst`, since
/// compressed downloads are stored decompressed.
pub open spec fn spec_cache_file_name(remote_name: Seq<u8>) -> Seq<u8> {
    if ends_with_zst(remote_name) {
        remote_name.subrange(0, remote_name.len() - 4)
    } else {
        remote_name
    }
}

/// The cache file name for a downloaded file (see `spec_cache_file_name`).
pub fn cache_file_name(remote_name: &str) -> (res: String)
    ensures
        vstd::utf8::encode_utf8(res@) == spec_cache_file_name(remote_name.spec_bytes()),
{
    if is_zstd_name(remote_name) {
        let b = remote_name.as_bytes();
        let n = b.len();
        proof {
            let bs = remote_name.spec_bytes();
            assert(bs.subrange(n - 4, n as int)[0] == bs[n - 4]);
            assert(bs[n - 4] == 0x2e);
            vstd::utf8::encode_utf8_valid_utf8(remote_name@);
            vstd::utf8::is_char_boundary_iff_is_leading_byte(bs, n - 4);
        }
        let (head, _) = remote_name.split_at(n - 4);
        String::from_str(head)
    } else {
        String::from_str(remote_name)
    }
}

/// What Zstandard decompression of `data` yields, as `zstd::stream::copy_decode`
/// computes it: `None` when the decoder rejects the data.
pub uninterp spec fn zstd_decoded(data: Seq<u8>) -> Option<Seq<u8>>;

/// Calls `zstd::stream::copy_decode` into an empty buffer. Claimed: the call succeeds
/// exactly when the named decompression exists (the outcome depends on the input
/// bytes alone, and writing to a `Vec` never fails), and the buffer then holds it.
#[verifier::external_body]
fn zstd_decode(data: &[u8]) -> (res: Result<Vec<u8>, String>)
    ensures
        res is Ok <==> zstd_decoded(data@) is Some,
        res matches Ok(out) ==> zstd_decoded(data@) == Some(out@),
{
    let mut out: Vec<u8> = Vec::new();
    match zstd::stream::copy_decode(data, &mut out) {
        Ok(()) => Ok(out),
        Err(e) => Err(e.to_string()),
    }
}

/// The contents to cache for a download named `remote_name`: `.zst` downloads are
/// decompressed (their failure reported with the decoder's message), others are kept.
pub fn decode_download(remote_name: &str, data: Vec<u8>) -> (res: Result<Vec<u8>, String>)
    ensures
        !ends_with_zst(remote_name.spec_bytes()) ==> (res matches Ok(out) && out@ == data@),
        ends_with_zst(remote_name.spec_bytes()) ==> (res is Ok <==> zstd_decoded(data@) is Some),
        ends_with_zst(remote_name.spec_bytes()) ==> (res matches Ok(out) ==> zstd_decoded(data@) == Some(out@)),
{
    if is_zstd_name(remote_name) {
        zstd_decode(data.as_slice())
    } else {
        Ok(data)
    }
}

/// A file to fetch into the cache: its remote name and the checksum it must have once
/// stored (decompressed).
#[derive(Clone, Debug)]
pub struct DownloadRequest {
    pub remote_name: String,
    pub expected_hash: String,
}

/// `"{kind}/{platform}/{branch}/{filename}{suffix}"`.
pub open spec fn remote_path(kind: Seq<char>, platform: Seq<char>, branch: Seq<char>, filename: Seq<char>, suffix: Seq<char>) -> Seq<char> {
    kind + "/"@ + platform + "/"@ + branch + "/"@ + filename + suffix
}

/// The downloads a pending file needs: the compressed vendor original when the file must
/// be replaced by it, and the patch unless the file is only to be deleted.
pub open spec fn spec_downloads_for(platform: Seq<char>, branch: Seq<char>, filename: Seq<char>, status: IntegrityStatus, original: Seq<char>, patch: Seq<char>) -> Seq<(Seq<char>, Seq<char>)> {
    (if status == IntegrityStatus::NeedOriginal {
        seq![(remote_path("originals"@, platform, branch, filename, ".zst"@), original)]
    } else {
        Seq::empty()
    }) + (if status != IntegrityStatus::NeedDelete {
        seq![(remote_path("patches"@, platform, branch, filename, ".bsdiff"@), patch)]
    } else {
        Seq::empty()
    })
}

/// The model of a list of downloads.
pub open spec fn downloads_view(ds: Seq<DownloadRequest>) -> Seq<(Seq<char>, Seq<char>)> {
    ds.map_values(|d: DownloadRequest| (d.remote_name@, d.expected_hash@))
}

fn build_remote_path(kind: &str, platform: &str, branch: &str, filename: &str, suffix: &str) -> (res: String)
    ensures
        res@ == remote_path(kind@, platform@, branch@, filename@, suffix@),
{
    let mut s = String::from_str(kind);
    s.append("/");
    s.append(platform);
    s.append("/");
    s.append(branch);
    s.append("/");
    s.append(filename);
    s.append(suffix);
    s
}

/// The downloads a pending file needs (see `spec_downloads_for`).
pub fn downloads_for(platform: &str, branch: &str, filename: &str, status: IntegrityStatus, hashes: &FileHashes) -> (res: Vec<DownloadRequest>)
    ensures
        downloads_view(res@) == spec_downloads_for(platform@, branch@, filename@, status, hashes.original@, hashes.patch@),
{
    let mut out: Vec<DownloadRequest> = Vec::new();
    if status == IntegrityStatus::NeedOriginal {
        out.push(DownloadRequest {
            remote_name: build_remote_path("originals", platform, branch, filename, ".zst"),
            expected_hash: hashes.original.clone(),
        });
    }
    if status != IntegrityStatus::NeedDelete {
        out.push(DownloadRequest {
            remote_name: build_remote_path("patches", platform, branch, filename, ".bsdiff"),
            expected_hash: hashes.patch.clone(),
        });
    }
    assert(downloads_view(out@) =~= spec_downloads_for(platform@, branch@, filename@, status, hashes.original@, hashes.patch@));
    out
}

/// One step of bringing a file to its fixed form.
#[derive(Clone, Copy, Debug, PartialEq, Eq, Structural)]
pub enum PatchStep {
    /// Delete the file (or, failing that, truncate it).
    Delete,
    /// Copy the cached vendor original over the file.
    CopyOriginal,
    /// Create the file empty (with its directory).
    CreateEmpty,
    /// Apply the cached bsdiff patch to the file.
    ApplyPatch,
}

/// The step a file in a given state needs next; `None` once it is fixed.
pub open spec fn spec_next_patch_step(status: IntegrityStatus) -> Option<PatchStep> {
    match status {
        IntegrityStatus::NeedDelete => Some(PatchStep::Delete),
        IntegrityStatus::NeedOriginal => Some(PatchStep::CopyOriginal),
        IntegrityStatus::NeedWipeFix => Some(PatchStep::CreateEmpty),
        IntegrityStatus::NeedFix => Some(PatchStep::ApplyPatch),
        IntegrityStatus::Fixed => None,
    }
}

/// The state after the next step: unchanged when it failed; deleting or patching
/// leaves the file fixed; copying the original or creating it leaves it to be patched.
pub open spec fn spec_status_after_step(status: IntegrityStatus, succeeded: bool) -> IntegrityStatus {
    if !succeeded {
        status
    } else {
        match status {
            IntegrityStatus::NeedDelete => IntegrityStatus::Fixed,
            IntegrityStatus::NeedOriginal => IntegrityStatus::NeedFix,
            IntegrityStatus::NeedWipeFix => IntegrityStatus::NeedFix,
            IntegrityStatus::NeedFix => IntegrityStatus::Fixed,
            IntegrityStatus::Fixed => IntegrityStatus::Fixed,
        }
    }
}

/// The step a file needs next (see `spec_next_patch_step`).
pub fn next_patch_step(status: IntegrityStatus) -> (res: Option<PatchStep>)
    ensures
        res == spec_next_patch_step(status),
{
    match status {
        IntegrityStatus::NeedDelete => Some(PatchStep::Delete),
        IntegrityStatus::NeedOriginal => Some(PatchStep::CopyOriginal),
        IntegrityStatus::NeedWipeFix => Some(PatchStep::CreateEmpty),
        IntegrityStatus::NeedFix => Some(PatchStep::ApplyPatch),
        IntegrityStatus::Fixed => None,
    }
}

/// The state after a step (see `spec_status_after_step`).
pub fn status_after_step(status: IntegrityStatus, succeeded: bool) -> (res: IntegrityStatus)
    ensures
        res == spec_status_after_step(status, succeeded),
{
    if !succeeded {
        return status;
    }
    match status {
        IntegrityStatus::NeedDelete => IntegrityStatus::Fixed,
        IntegrityStatus::NeedOriginal => IntegrityStatus::NeedFix,
        IntegrityStatus::NeedWipeFix => IntegrityStatus::NeedFix,
        IntegrityStatus::NeedFix => IntegrityStatus::Fixed,
        IntegrityStatus::Fixed => IntegrityStatus::Fixed,
    }
}

/// How many successful steps separate a state from `Fixed`.
pub open spec fn steps_to_fixed(status: IntegrityStatus) -> nat {
    match status {
        IntegrityStatus::Fixed => 0,
        IntegrityStatus::NeedDelete => 1,
        IntegrityStatus::NeedFix => 1,
        IntegrityStatus::NeedOriginal => 2,
        IntegrityStatus::NeedWipeFix => 2,
    }
}

/// Law: patching always makes progress and never goes back. A state needs a step
/// exactly when it is not fixed; a successful step brings the file one step closer to
/// `Fixed` (so at most two successful steps fix any file); a failed step changes nothing.
pub proof fn lemma_patch_steps_progress(status: IntegrityStatus, succeeded: bool)
    ensures
        spec_next_patch_step(status) is None <==> status == IntegrityStatus::Fixed,
        steps_to_fixed(status) <= 2,
        status != IntegrityStatus::Fixed && succeeded ==>
            steps_to_fixed(spec_status_after_step(status, succeeded)) + 1 == steps_to_fixed(status),
        !succeeded ==> spec_status_after_step(status, succeeded) == status,
        steps_to_fixed(status) == 0 <==> status == IntegrityStatus::Fixed,
{
}

/// The run succeeded: every file it patched reached `Fixed`.
pub open spec fn spec_all_fixed(statuses: Seq<IntegrityStatus>) -> bool {
    forall|i: int| 0 <= i < statuses.len() ==> #[trigger] statuses[i] == IntegrityStatus::Fixed
}

/// Whether every file reached `Fixed` (see `spec_all_fixed`); otherwise the run fails.
pub fn all_fixed(statuses: &[IntegrityStatus]) -> (res: bool)
    ensures
        res == spec_all_fixed(statuses@),
{
    let mut i: usize = 0;
    while i < statuses.len()
        invariant
            0 <= i <= statuses@.len(),
            forall|k: int| 0 <= k < i ==> #[trigger] statuses@[k] == IntegrityStatus::Fixed,
        decreases statuses@.len() - i,
    {
        if statuses[i] != IntegrityStatus::Fixed {
            return false;
        }
        i = i + 1;
    }
    true
}

/// A download task counts as done only when the task ran to its end (it did not panic
/// or get cancelled) and it stored the file with the expected checksum; any other
/// outcome fails the run.
pub fn download_task_done(task_completed: bool, file_stored: bool) -> (res: bool)
    ensures
        res == (task_completed && file_stored),
{
    task_completed && file_stored
}

/// Law: how a file's status follows from its checksum `current` (`"null"` when it does
/// not exist) and the manifest's fixed and original checksums. A file is fixed exactly
/// when it has the fixed checksum. Otherwise: with no fixed form it is deleted; with no
/// original it is created empty and then patched (whatever is on disk); it is patched in
/// place only when it has the original checksum, which is not `"null"`; and any other
/// content is first replaced by the original.
pub proof fn lemma_integrity_status_rules(current: Seq<char>, fixed: Seq<char>, original: Seq<char>)
    ensures
        (spec_integrity_status(current, fixed, original) == IntegrityStatus::Fixed) <==> current == fixed,
        current != fixed && fixed == "null"@ ==>
            spec_integrity_status(current, fixed, original) == IntegrityStatus::NeedDelete,
        current != fixed && fixed != "null"@ && original == "null"@ ==>
            spec_integrity_status(current, fixed, original) == IntegrityStatus::NeedWipeFix,
        spec_integrity_status(current, fixed, original) == IntegrityStatus::NeedFix ==>
            current == original && original != "null"@ && fixed != "null"@ && current != fixed,
        current != fixed && fixed != "null"@ && original != "null"@ && current == original ==>
            spec_integrity_status(current, fixed, original) == IntegrityStatus::NeedFix,
        spec_integrity_status(current, fixed, original) == IntegrityStatus::NeedOriginal ==>
            current != original && current != fixed && original != "null"@ && fixed != "null"@,
        spec_integrity_status(current, fixed, original) == IntegrityStatus::NeedDelete ==>
            fixed == "null"@ && current != fixed,
{
}

/// Law: a file that is missing from disk is judged as the checksum `"null"`. So a file
/// the fix adds (original `"null"`, fixed not `"null"`) that is not there yet must be
/// created and then patched, and a missing file is never patched in place.
pub proof fn lemma_missing_file_status(fixed: Seq<char>, original: Seq<char>)
    ensures
        fixed != "null"@ && original == "null"@ ==>
            spec_file_integrity(Ok(None), fixed, original) == Ok::<IntegrityStatus, Seq<char>>(IntegrityStatus::NeedWipeFix),
        fixed == "null"@ ==>
            spec_file_integrity(Ok(None), fixed, original) == Ok::<IntegrityStatus, Seq<char>>(IntegrityStatus::Fixed),
        spec_file_integrity(Ok(None), fixed, original) != Ok::<IntegrityStatus, Seq<char>>(IntegrityStatus::NeedFix),
{
}

/// Law: what a step leaves behind. Copying the original or creating the file leaves it
/// needing the patch; deleting or patching leaves it fixed. No step ever leads to a
/// deletion that was not planned from the start, nor back to needing the original or
/// the creation: a file that needed creating is created and then patched, never deleted.
pub proof fn lemma_step_outcomes(status: IntegrityStatus, succeeded: bool)
    ensures
        succeeded && (status == IntegrityStatus::NeedOriginal || status == IntegrityStatus::NeedWipeFix) ==>
            spec_status_after_step(status, succeeded) == IntegrityStatus::NeedFix,
        succeeded && (status == IntegrityStatus::NeedDelete || status == IntegrityStatus::NeedFix) ==>
            spec_status_after_step(status, succeeded) == IntegrityStatus::Fixed,
        spec_status_after_step(status, succeeded) == IntegrityStatus::NeedDelete ==> status == IntegrityStatus::NeedDelete,
        spec_status_after_step(status, succeeded) == IntegrityStatus::NeedOriginal ==> status == IntegrityStatus::NeedOriginal,
        spec_status_after_step(status, succeeded) == IntegrityStatus::NeedWipeFix ==> status == IntegrityStatus::NeedWipeFix,
        spec_next_patch_step(IntegrityStatus::NeedWipeFix) == Some(PatchStep::CreateEmpty),
        spec_next_patch_step(spec_status_after_step(IntegrityStatus::NeedWipeFix, true)) == Some(PatchStep::ApplyPatch),
        spec_next_patch_step(IntegrityStatus::NeedOriginal) == Some(PatchStep::CopyOriginal),
        spec_next_patch_step(spec_status_after_step(IntegrityStatus::NeedOriginal, true)) == Some(PatchStep::ApplyPatch),
{
}

/// Law: the downloads each status needs, spelled out. A file to delete needs nothing. A
/// file that must be replaced by the original needs the compressed original
/// `originals/{platform}/{branch}/{file}.zst` (with the original checksum) and then the
/// patch `patches/{platform}/{branch}/{file}.bsdiff` (with the patch checksum). Every
/// other status needs exactly that patch and nothing from `originals/`.
pub proof fn lemma_download_plan(platform: Seq<char>, branch: Seq<char>, filename: Seq<char>, status: IntegrityStatus, original: Seq<char>, patch: Seq<char>)
    ensures
        status == IntegrityStatus::NeedDelete ==>
            spec_downloads_for(platform, branch, filename, status, original, patch).len() == 0,
        status == IntegrityStatus::NeedOriginal ==>
            spec_downloads_for(platform, branch, filename, status, original, patch) == seq![
                ("originals/"@ + platform + "/"@ + branch + "/"@ + filename + ".zst"@, original),
                ("patches/"@ + platform + "/"@ + branch + "/"@ + filename + ".bsdiff"@, patch),
            ],
        status != IntegrityStatus::NeedDelete && status != IntegrityStatus::NeedOriginal ==>
            spec_downloads_for(platform, branch, filename, status, original, patch) == seq![
                ("patches/"@ + platform + "/"@ + branch + "/"@ + filename + ".bsdiff"@, patch),
            ],
{
    let o = "originals"@ + "/"@ + platform + "/"@ + branch + "/"@ + filename + ".zst"@;
    let p = "patches"@ + "/"@ + platform + "/"@ + branch + "/"@ + filename + ".bsdiff"@;
    reveal_strlit("originals");
    reveal_strlit("originals/");
    reveal_strlit("patches");
    reveal_strlit("patches/");
    reveal_strlit("/");
    assert("originals"@ + "/"@ =~= "originals/"@);
    assert("patches"@ + "/"@ =~= "patches/"@);
    assert(o =~= "originals/"@ + platform + "/"@ + branch + "/"@ + filename + ".zst"@);
    assert(p =~= "patches/"@ + platform + "/"@ + branch + "/"@ + filename + ".bsdiff"@);
    let d = spec_downloads_for(platform, branch, filename, status, original, patch);
    if status == IntegrityStatus::NeedOriginal {
        assert(d =~= seq![(o, original), (p, patch)]);
    } else if status != IntegrityStatus::NeedDelete {
        assert(d =~= seq![(p, patch)]);
    } else {
        assert(d =~= Seq::<(Seq<char>, Seq<char>)>::empty());
    }
}

/// The number a little-endian byte string denotes.
pub open spec fn le_value(s: Seq<u8>) -> int
    decreases s.len(),
{
    if s.len() == 0 {
        0
    } else {
        s[0] + 256 * le_value(s.drop_first())
    }
}

/// `256^n`.
pub open spec fn pow256(n: nat) -> int
    decreases n,
{
    if n == 0 {
        1
    } else {
        256 * pow256((n - 1) as nat)
    }
}

proof fn lemma_le_value_bound(s: Seq<u8>)
    ensures
        0 <= le_value(s) < pow256(s.len()),
    decreases s.len(),
{
    if s.len() > 0 {
        lemma_le_value_bound(s.drop_first());
        let x = le_value(s.drop_first());
        let p = pow256((s.len() - 1) as nat);
        let b = s[0];
        assert(b + 256 * x < 256 * p) by (nonlinear_arith)
            requires
                0 <= x < p,
                0 <= b < 256,
        {
        }
    }
}

/// The 8-byte `BSDIFF40` magic.
pub open spec fn bsdiff_magic() -> Seq<u8> {
    seq![0x42u8, 0x53, 0x44, 0x49, 0x46, 0x46, 0x34, 0x30]
}

/// A bsdiff header size field at `at`, read the way qbsdiff reads it (a sign-magnitude
/// 64-bit integer, `decode_int`) and taken as an unsigned 64-bit value.
pub open spec fn bsdiff_size(b: Seq<u8>, at: int) -> int {
    let x = le_value(b.subrange(at, at + 8));
    if x <= 0x8000_0000_0000_0000 {
        x
    } else {
        0x1_0000_0000_0000_0000 - (x - 0x8000_0000_0000_0000)
    }
}

/// The patch starts with a 32-byte header carrying the bsdiff magic.
pub open spec fn bsdiff_has_magic(b: Seq<u8>) -> bool {
    b.len() >= 32 && b.subrange(0, 8) == bsdiff_magic()
}

/// `qbsdiff::Bspatch::new` accepts the patch: the magic is present and the control and
/// diff blocks the header announces fit in the patch.
pub open spec fn bsdiff_header_ok(b: Seq<u8>) -> bool {
    bsdiff_has_magic(b) && 32 + bsdiff_size(b, 8) + bsdiff_size(b, 16) <= b.len()
}

/// The header's block sizes can be added up in 64 bits (qbsdiff adds them with `+` on
/// `u64`, which overflows, and panics in a debug build, for some headers).
pub open spec fn bsdiff_header_sums_fit(b: Seq<u8>) -> bool {
    !bsdiff_has_magic(b) || 32 + bsdiff_size(b, 8) + bsdiff_size(b, 16) <= u64::MAX
}

proof fn lemma_pow256_small()
    ensures
        pow256(0) == 1,
        pow256(1) == 256,
        pow256(2) == 65536,
        pow256(3) == 16777216,
        pow256(4) == 4294967296,
        pow256(5) == 1099511627776,
        pow256(6) == 281474976710656,
        pow256(7) == 72057594037927936,
        pow256(8) == 0x1_0000_0000_0000_0000,
{
    reveal_with_fuel(pow256, 9);
}

fn read_size_field(b: &[u8], at: usize) -> (res: u128)
    requires
        at + 8 <= b@.len(),
    ensures
        res as int == bsdiff_size(b@, at as int),
        res <= 0x1_0000_0000_0000_0000,
{
    let ghost f = b@.subrange(at as int, at + 8);
    let bl = b.len();
    let mut x: u128 = 0;
    let mut k: usize = 8;
    assert(f.subrange(8, 8) =~= Seq::<u8>::empty());
    while k > 0
        invariant
            at + 8 <= b@.len(),
            bl == b@.len(),
            f == b@.subrange(at as int, at + 8),
            0 <= k <= 8,
            x as int == le_value(f.subrange(k as int, 8)),
            x < pow256((8 - k) as nat),
        decreases k,
    {
        k = k - 1;
        let ghost t = f.subrange(k as int, 8);
        assert(t.drop_first() =~= f.subrange(k + 1, 8));
        assert(t[0] == b@[at + k]);
        proof {
            lemma_le_value_bound(t);
        }
        assert(pow256((8 - k) as nat) == 256 * pow256((8 - k - 1) as nat));
        proof {
            lemma_pow256_small();
        }
        x = x * 256 + b[at + k] as u128;
    }
    assert(f.subrange(0, 8) =~= f);
    proof {
        lemma_le_value_bound(f);
        lemma_pow256_small();
    }
    if x <= 0x8000_0000_0000_0000 {
        x
    } else {
        0x1_0000_0000_0000_0000 - (x - 0x8000_0000_0000_0000)
    }
}

/// Whether the patch starts with the bsdiff magic in a 32-byte header.
fn has_bsdiff_magic(b: &[u8]) -> (res: bool)
    ensures
        res == bsdiff_has_magic(b@),
{
    if b.len() < 32 {
        return false;
    }
    let r = b[0] == 0x42 && b[1] == 0x53 && b[2] == 0x44 && b[3] == 0x49 && b[4] == 0x46 && b[5] == 0x46
        && b[6] == 0x34 && b[7] == 0x30;
    let ghost h = b@.subrange(0, 8);
    if r {
        assert(h =~= bsdiff_magic());
    } else {
        assert(h != bsdiff_magic()) by {
            assert(h[0] == b@[0] && h[1] == b@[1] && h[2] == b@[2] && h[3] == b@[3]);
            assert(h[4] == b@[4] && h[5] == b@[5] && h[6] == b@[6] && h[7] == b@[7]);
        }
    }
    r
}

/// Whether the patch header's block sizes add up in 64 bits (see `bsdiff_header_sums_fit`).
pub fn check_bsdiff_header_sums(patch: &[u8]) -> (res: bool)
    ensures
        res == bsdiff_header_sums_fit(patch@),
{
    if !has_bsdiff_magic(patch) {
        return true;
    }
    let c = read_size_field(patch, 8);
    let d = read_size_field(patch, 16);
    32 + c + d <= 0xffff_ffff_ffff_ffff
}

/// What applying the bsdiff `patch` to `source` yields, as `qbsdiff::Bspatch::apply`
/// computes it; `None` when applying it fails (a corrupt block, or a control that reads
/// past the source or the patch data).
pub uninterp spec fn bspatch_output(source: Seq<u8>, patch: Seq<u8>) -> Option<Seq<u8>>;

/// Why applying a patch failed.
#[derive(Debug)]
pub enum BspatchError {
    /// `Bspatch::new` rejected the patch header.
    Header(String),
    /// `Bspatch::apply` failed.
    Apply(String),
}

/// Calls `qbsdiff::Bspatch::new(patch)` and then `Bspatch::apply(source, ..)` into an
/// empty buffer, as qbsdiff's documentation does. Claimed: the header is rejected exactly
/// when `bsdiff_header_ok` fails (what `parse` in qbsdiff's `bspatch.rs` checks); after
/// an accepted header, applying succeeds exactly when the named output exists, and the
/// buffer then holds it. `requires` leaves out the headers whose size check overflows.
#[verifier::external_body]
fn bspatch(source: &[u8], patch: &[u8]) -> (res: Result<Vec<u8>, BspatchError>)
    requires
        bsdiff_header_sums_fit(patch@),
    ensures
        (res matches Err(BspatchError::Header(_))) <==> !bsdiff_header_ok(patch@),
        bsdiff_header_ok(patch@) ==> (res is Ok <==> bspatch_output(source@, patch@) is Some),
        res matches Ok(out) ==> bspatch_output(source@, patch@) == Some(out@),
{
    let patcher = match qbsdiff::Bspatch::new(patch) {
        Ok(p) => p,
        Err(e) => return Err(BspatchError::Header(e.to_string())),
    };
    let mut out: Vec<u8> = Vec::new();
    match patcher.apply(source, std::io::Cursor::new(&mut out)) {
        Ok(_) => Ok(out),
        Err(e) => Err(BspatchError::Apply(e.to_string())),
    }
}

/// Why a file could not be patched.
#[derive(Debug)]
pub enum PatchFailure {
    /// The patch file is not a bsdiff patch.
    InvalidPatch(String),
    /// Applying the patch failed.
    ApplyFailed(String),
    /// The patched bytes do not have the manifest's fixed checksum.
    ChecksumMismatch,
}

/// Applies the bsdiff `patch` to `current` and checks that the result has the
/// manifest's `expected_fixed_hash`, so a bad patch never reaches the disk.
pub fn patch_bytes(current: &[u8], patch: &[u8], expected_fixed_hash: &str) -> (res: Result<Vec<u8>, PatchFailure>)
    requires
        bsdiff_header_sums_fit(patch@),
    ensures
        (res matches Err(PatchFailure::InvalidPatch(_))) <==> !bsdiff_header_ok(patch@),
        res matches Err(PatchFailure::ApplyFailed(_)) ==> bspatch_output(current@, patch@) is None,
        res matches Err(PatchFailure::ChecksumMismatch) ==> (bspatch_output(current@, patch@) matches Some(o)
            && checksum_of(o) != expected_fixed_hash@),
        res matches Ok(out) ==> bspatch_output(current@, patch@) == Some(out@) && checksum_of(out@) == expected_fixed_hash@,
        bsdiff_header_ok(patch@) && (bspatch_output(current@, patch@) matches Some(o) && checksum_of(o) == expected_fixed_hash@)
            ==> res is Ok,
{
    let out = match bspatch(current, patch) {
        Ok(out) => out,
        Err(BspatchError::Header(e)) => return Err(PatchFailure::InvalidPatch(e)),
        Err(BspatchError::Apply(e)) => return Err(PatchFailure::ApplyFailed(e)),
    };
    let h = blake3_hex(out.as_slice());
    if str_eq(h.as_str(), expected_fixed_hash) {
        Ok(out)
    } else {
        Err(PatchFailure::ChecksumMismatch)
    }
}

/// Law: a file that patching brought to the manifest's fixed checksum is found fixed
/// when it is checked again, so a second run has nothing left to do for it.
pub proof fn lemma_patched_file_is_fixed(current: Seq<u8>, patch: Seq<u8>, fixed: Seq<char>, original: Seq<char>)
    requires
        bspatch_output(current, patch) is Some,
        checksum_of(bspatch_output(current, patch).unwrap()) == fixed,
    ensures
        spec_file_integrity(Ok(Some(checksum_of(bspatch_output(current, patch).unwrap()))), fixed, original)
            == Ok::<IntegrityStatus, Seq<char>>(IntegrityStatus::Fixed),
{
}

} // verus!
