//! The lock file that keeps two copies of the tool from patching at once, and the
//! order in which patched libraries are pre-translated by Rosetta on Apple Silicon.

use vstd::prelude::*;
use crate::gmod::{chars_of, parse_text_number, spec_parse_text_number};
use crate::manifest::{ManifestFile, spec_is_executable, is_executable};

verus! {

/// The process ID a lock file records: its text, trimmed, as a `usize`.
pub open spec fn spec_lockfile_pid(text: Seq<char>) -> Option<int> {
    spec_parse_text_number(text, true, usize::MAX as int)
}

/// Reads the process ID a lock file records (see `spec_lockfile_pid`).
pub fn parse_lockfile_pid(text: &str) -> (res: Option<usize>)
    ensures
        match res {
            Some(p) => spec_lockfile_pid(text@) == Some(p as int),
            None => spec_lockfile_pid(text@) is None,
        },
{
    match parse_text_number(text, true, usize::MAX as u64) {
        Some(p) => Some(p as usize),
        None => None,
    }
}

/// `s` starts with `prefix`.
pub open spec fn starts_with_chars(s: Seq<char>, prefix: Seq<char>) -> bool {
    s.len() >= prefix.len() && s.subrange(0, prefix.len() as int) == prefix
}

/// `s` ends with `suffix`.
pub open spec fn ends_with_chars(s: Seq<char>, suffix: Seq<char>) -> bool {
    s.len() >= suffix.len() && s.subrange(s.len() - suffix.len(), s.len() as int) == suffix
}

fn has_prefix(s: &Vec<char>, prefix: &Vec<char>) -> (res: bool)
    ensures
        res == starts_with_chars(s@, prefix@),
{
    if s.len() < prefix.len() {
        return false;
    }
    let mut i: usize = 0;
    while i < prefix.len()
        invariant
            s@.len() >= prefix@.len(),
            0 <= i <= prefix@.len(),
            forall|k: int| 0 <= k < i ==> s@[k] == prefix@[k],
        decreases prefix@.len() - i,
    {
        if s[i] != prefix[i] {
            assert(s@.subrange(0, prefix@.len() as int)[i as int] != prefix@[i as int]);
            return false;
        }
        i = i + 1;
    }
    assert(s@.subrange(0, prefix@.len() as int) =~= prefix@);
    true
}

pub(crate) fn has_suffix(s: &Vec<char>, suffix: &Vec<char>) -> (res: bool)
    ensures
        res == ends_with_chars(s@, suffix@),
{
    if s.len() < suffix.len() {
        return false;
    }
    let off = s.len() - suffix.len();
    let mut i: usize = 0;
    while i < suffix.len()
        invariant
            s@.len() >= suffix@.len(),
            off == s@.len() - suffix@.len(),
            off + suffix@.len() == s.len(),
            0 <= i <= suffix@.len(),
            forall|k: int| 0 <= k < i ==> s@[off + k] == suffix@[k],
        decreases suffix@.len() - i,
    {
        if s[off + i] != suffix[i] {
            assert(s@.subrange(off as int, s@.len() as int)[i as int] != suffix@[i as int]);
            return false;
        }
        i = i + 1;
    }
    assert(s@.subrange(off as int, s@.len() as int) =~= suffix@);
    true
}

/// A process whose name starts with `gmodpatchtool` is a copy of the tool.
pub open spec fn spec_is_tool_process_name(name: Seq<char>) -> bool {
    starts_with_chars(name, "gmodpatchtool"@)
}

/// Whether a process name is the tool's (see `spec_is_tool_process_name`).
pub fn is_tool_process_name(name: &str) -> (res: bool)
    ensures
        res == spec_is_tool_process_name(name@),
{
    has_prefix(&chars_of(name), &chars_of("gmodpatchtool"))
}

/// The lock file was written by the process `pid`: its whole text is that number.
pub open spec fn spec_lockfile_is_ours(text: Seq<char>, pid: u32) -> bool {
    spec_parse_text_number(text, false, u32::MAX as int) == Some(pid as int)
}

/// Whether the lock file belongs to this process (see `spec_lockfile_is_ours`).
pub fn lockfile_is_ours(text: &str, pid: u32) -> (res: bool)
    ensures
        res == spec_lockfile_is_ours(text@, pid),
{
    match parse_text_number(text, false, 0xffff_ffff) {
        Some(p) => p == pid as u64,
        None => false,
    }
}

/// A file Rosetta should translate ahead of the first launch: an executable library
/// (`.dylib`) or the Chromium Embedded Framework binary.
pub open spec fn is_prewarm_candidate(f: ManifestFile) -> bool {
    spec_is_executable(f.hashes)
        && (ends_with_chars(f.name@, ".dylib"@) || ends_with_chars(f.name@, "Chromium Embedded Framework"@))
}

/// The file is the framework binary itself: its last path component is
/// `Chromium Embedded Framework`.
pub open spec fn is_cef_binary(name: Seq<char>) -> bool {
    name == "Chromium Embedded Framework"@ || ends_with_chars(name, "/Chromium Embedded Framework"@)
}

/// The indices (in manifest order) of the files satisfying `keep`.
pub open spec fn indices_where(files: Seq<ManifestFile>, keep: spec_fn(ManifestFile) -> bool) -> Seq<int>
    decreases files.len(),
{
    if files.len() == 0 {
        Seq::empty()
    } else if keep(files.last()) {
        indices_where(files.drop_last(), keep).push(files.len() - 1)
    } else {
        indices_where(files.drop_last(), keep)
    }
}

/// The order in which to pre-translate files: the framework binary first (it is by far
/// the biggest), then the other candidates, each group in manifest order.
pub open spec fn spec_prewarm_order(files: Seq<ManifestFile>) -> Seq<int> {
    indices_where(files, |f: ManifestFile| is_prewarm_candidate(f) && is_cef_binary(f.name@))
        + indices_where(files, |f: ManifestFile| is_prewarm_candidate(f) && !is_cef_binary(f.name@))
}

fn cef_binary(name: &str) -> (res: bool)
    ensures
        res == is_cef_binary(name@),
{
    let cs = chars_of(name);
    if crate::text::str_eq(name, "Chromium Embedded Framework") {
        return true;
    }
    has_suffix(&cs, &chars_of("/Chromium Embedded Framework"))
}

fn prewarm_candidate(f: &ManifestFile) -> (res: bool)
    ensures
        res == is_prewarm_candidate(*f),
{
    if !is_executable(&f.hashes) {
        return false;
    }
    let cs = chars_of(f.name.as_str());
    has_suffix(&cs, &chars_of(".dylib")) || has_suffix(&cs, &chars_of("Chromium Embedded Framework"))
}

/// The model of a list of indices.
pub open spec fn index_view(v: Seq<usize>) -> Seq<int> {
    v.map_values(|i: usize| i as int)
}

/// The files to pre-translate, in order (see `spec_prewarm_order`).
pub fn prewarm_order(files: &[ManifestFile]) -> (res: Vec<usize>)
    ensures
        index_view(res@) == spec_prewarm_order(files@),
{
    let ghost kc = |f: ManifestFile| is_prewarm_candidate(f) && is_cef_binary(f.name@);
    let ghost ko = |f: ManifestFile| is_prewarm_candidate(f) && !is_cef_binary(f.name@);
    let mut first: Vec<usize> = Vec::new();
    let mut rest: Vec<usize> = Vec::new();
    let mut i: usize = 0;
    while i < files.len()
        invariant
            0 <= i <= files@.len(),
            kc == (|f: ManifestFile| is_prewarm_candidate(f) && is_cef_binary(f.name@)),
            ko == (|f: ManifestFile| is_prewarm_candidate(f) && !is_cef_binary(f.name@)),
            index_view(first@) == indices_where(files@.subrange(0, i as int), kc),
            index_view(rest@) == indices_where(files@.subrange(0, i as int), ko),
        decreases files@.len() - i,
    {
        let ghost pre = files@.subrange(0, i + 1);
        assert(pre.drop_last() =~= files@.subrange(0, i as int));
        assert(pre.last() == files@[i as int]);
        let f = &files[i];
        if prewarm_candidate(f) {
            if cef_binary(f.name.as_str()) {
                let ghost b = index_view(first@);
                first.push(i);
                assert(index_view(first@) =~= b.push(i as int));
            } else {
                let ghost b = index_view(rest@);
                rest.push(i);
                assert(index_view(rest@) =~= b.push(i as int));
            }
        }
        i = i + 1;
    }
    assert(files@.subrange(0, files@.len() as int) =~= files@);
    let ghost a = index_view(first@);
    let ghost r = index_view(rest@);
    first.append(&mut rest);
    assert(index_view(first@) =~= a + r);
    first
}

} // verus!
