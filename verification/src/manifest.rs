//! The patch manifest: for each target platform and beta branch, the game files the
//! tool manages and their checksums.

use vstd::prelude::*;
use vstd::string::StringExecFns;
use crate::patching::FileHashes;
use crate::gmod::chars_of;
use crate::text::str_eq;
use crate::instance::{ends_with_chars, has_suffix};

verus! {

/// One managed file: its path relative to the game directory and its checksums.
#[derive(Clone, Debug)]
pub struct ManifestFile {
    pub name: String,
    pub hashes: FileHashes,
}

/// The files of one beta branch.
#[derive(Clone, Debug)]
pub struct ManifestBranch {
    pub name: String,
    pub files: Vec<ManifestFile>,
}

/// The branches of one target platform.
#[derive(Clone, Debug)]
pub struct ManifestPlatform {
    pub name: String,
    pub branches: Vec<ManifestBranch>,
}

/// The whole manifest, in the order the server lists it.
#[derive(Clone, Debug)]
pub struct Manifest {
    pub platforms: Vec<ManifestPlatform>,
}

/// Why the manifest has no files for this installation.
#[derive(Clone, Copy, Debug, PartialEq, Eq, Structural)]
pub enum ManifestLookupError {
    UnsupportedPlatform,
    UnsupportedBranch,
}

/// The index of the first platform with the given name.
pub open spec fn platform_index(ps: Seq<ManifestPlatform>, name: Seq<char>) -> Option<int>
    decreases ps.len(),
{
    if ps.len() == 0 {
        None
    } else if ps.last().name@ == name && platform_index(ps.drop_last(), name) is None {
        Some(ps.len() - 1)
    } else {
        platform_index(ps.drop_last(), name)
    }
}

/// The index of the first branch with the given name.
pub open spec fn branch_index(bs: Seq<ManifestBranch>, name: Seq<char>) -> Option<int>
    decreases bs.len(),
{
    if bs.len() == 0 {
        None
    } else if bs.last().name@ == name && branch_index(bs.drop_last(), name) is None {
        Some(bs.len() - 1)
    } else {
        branch_index(bs.drop_last(), name)
    }
}

proof fn lemma_platform_index(ps: Seq<ManifestPlatform>, name: Seq<char>)
    ensures
        platform_index(ps, name) matches Some(i) ==> 0 <= i < ps.len() && ps[i].name@ == name
            && forall|k: int| 0 <= k < i ==> (#[trigger] ps[k]).name@ != name,
        platform_index(ps, name) is None ==> forall|k: int| 0 <= k < ps.len() ==> (#[trigger] ps[k]).name@ != name,
    decreases ps.len(),
{
    if ps.len() > 0 {
        let p = ps.drop_last();
        lemma_platform_index(p, name);
        assert forall|k: int| 0 <= k < p.len() implies p[k] == ps[k] by {}
    }
}

proof fn lemma_branch_index(bs: Seq<ManifestBranch>, name: Seq<char>)
    ensures
        branch_index(bs, name) matches Some(i) ==> 0 <= i < bs.len() && bs[i].name@ == name
            && forall|k: int| 0 <= k < i ==> (#[trigger] bs[k]).name@ != name,
        branch_index(bs, name) is None ==> forall|k: int| 0 <= k < bs.len() ==> (#[trigger] bs[k]).name@ != name,
    decreases bs.len(),
{
    if bs.len() > 0 {
        let p = bs.drop_last();
        lemma_branch_index(p, name);
        assert forall|k: int| 0 <= k < p.len() implies p[k] == bs[k] by {}
    }
}

/// Where the files for a platform and branch stand: the platform's index and the branch's
/// index within it, or why there are none.
pub open spec fn spec_lookup_files(m: Manifest, platform: Seq<char>, branch: Seq<char>) -> Result<(int, int), ManifestLookupError> {
    match platform_index(m.platforms@, platform) {
        None => Err(ManifestLookupError::UnsupportedPlatform),
        Some(p) => match branch_index(m.platforms@[p].branches@, branch) {
            None => Err(ManifestLookupError::UnsupportedBranch),
            Some(b) => Ok((p, b)),
        },
    }
}

/// The files listed for a platform and branch (see `spec_lookup_files`).
pub fn lookup_files<'a>(m: &'a Manifest, platform: &str, branch: &str) -> (res: Result<&'a Vec<ManifestFile>, ManifestLookupError>)
    ensures
        match res {
            Ok(files) => spec_lookup_files(*m, platform@, branch@) matches Ok((p, b))
                && *files == m.platforms@[p].branches@[b].files,
            Err(e) => spec_lookup_files(*m, platform@, branch@) == Err::<(int, int), ManifestLookupError>(e),
        },
{
    let mut i: usize = 0;
    proof { lemma_platform_index(m.platforms@, platform@); }
    while i < m.platforms.len()
        invariant
            0 <= i <= m.platforms@.len(),
            forall|k: int| 0 <= k < i ==> (#[trigger] m.platforms@[k]).name@ != platform@,
        decreases m.platforms@.len() - i,
    {
        if str_eq(m.platforms[i].name.as_str(), platform) {
            proof {
                lemma_platform_index(m.platforms@, platform@);
                let pi = platform_index(m.platforms@, platform@);
                if pi is None {
                    assert(m.platforms@[i as int].name@ != platform@);
                } else {
                    let q = pi.unwrap();
                    if q < i {
                        assert(m.platforms@[q].name@ != platform@);
                    } else if q > i {
                        assert(m.platforms@[i as int].name@ != platform@);
                    }
                }
            }
            assert(platform_index(m.platforms@, platform@) == Some(i as int));
            let bs = &m.platforms[i].branches;
            proof { lemma_branch_index(bs@, branch@); }
            let mut j: usize = 0;
            while j < bs.len()
                invariant
                    0 <= j <= bs@.len(),
                    *bs == m.platforms@[i as int].branches,
                    platform_index(m.platforms@, platform@) == Some(i as int),
                    forall|k: int| 0 <= k < j ==> (#[trigger] bs@[k]).name@ != branch@,
                decreases bs@.len() - j,
            {
                if str_eq(bs[j].name.as_str(), branch) {
                    proof {
                        lemma_branch_index(bs@, branch@);
                        let bi = branch_index(bs@, branch@);
                        if bi is None {
                            assert(bs@[j as int].name@ != branch@);
                        } else {
                            let q = bi.unwrap();
                            if q < j {
                                assert(bs@[q].name@ != branch@);
                            } else if q > j {
                                assert(bs@[j as int].name@ != branch@);
                            }
                        }
                    }
                    return Ok(&bs[j].files);
                }
                j = j + 1;
            }
            return Err(ManifestLookupError::UnsupportedBranch);
        }
        i = i + 1;
    }
    Err(ManifestLookupError::UnsupportedPlatform)
}

/// A control character (`char::is_control`: the C0 and C1 controls and DEL).
pub open spec fn is_control_char(c: char) -> bool {
    (c as u32) <= 0x1f || (0x7f <= (c as u32) <= 0x9f)
}

/// A path separator: `/`, and on Windows also `\`.
pub open spec fn is_separator(c: char, windows: bool) -> bool {
    c == '/' || (windows && c == '\\')
}

/// `cs[i..i + 2]` is a `..` path component.
pub open spec fn parent_component_at(cs: Seq<char>, i: int, windows: bool) -> bool {
    &&& 0 <= i && i + 1 < cs.len()
    &&& cs[i] == '.' && cs[i + 1] == '.'
    &&& (i == 0 || is_separator(cs[i - 1], windows))
    &&& (i + 2 == cs.len() || is_separator(cs[i + 2], windows))
}

/// Every component of the path is a plain name, as `std::path::Path::components` splits
/// it: the path does not start at a root (a separator), has no Windows drive prefix (a
/// letter and `:`), does not start with a `.` component, and has no `..` component.
pub open spec fn all_components_normal(cs: Seq<char>, windows: bool) -> bool {
    &&& !(cs.len() > 0 && is_separator(cs[0], windows))
    &&& !(windows && cs.len() >= 2 && cs[1] == ':' && (('a' <= cs[0] <= 'z') || ('A' <= cs[0] <= 'Z')))
    &&& !(cs.len() > 0 && cs[0] == '.' && (cs.len() == 1 || is_separator(cs[1], windows)))
    &&& forall|i: int| !#[trigger] parent_component_at(cs, i, windows)
}

/// A manifest path the tool accepts: only plain path components, and no control
/// characters (which could inject terminal escapes).
pub open spec fn spec_manifest_path_is_safe(name: Seq<char>, windows: bool) -> bool {
    all_components_normal(name, windows) && forall|i: int| 0 <= i < name.len() ==> !is_control_char(#[trigger] name[i])
}

fn separator(c: char, windows: bool) -> (res: bool)
    ensures
        res == is_separator(c, windows),
{
    c == '/' || (windows && c == '\\')
}

/// Whether a manifest path is safe to use under the game directory (see
/// `spec_manifest_path_is_safe`); `windows` selects Windows path syntax.
pub fn manifest_path_is_safe(name: &str, windows: bool) -> (res: bool)
    ensures
        res == spec_manifest_path_is_safe(name@, windows),
{
    let cs = chars_of(name);
    let n = cs.len();
    if n > 0 && separator(cs[0], windows) {
        return false;
    }
    if windows && n >= 2 && cs[1] == ':' && (('a' <= cs[0] && cs[0] <= 'z') || ('A' <= cs[0] && cs[0] <= 'Z')) {
        return false;
    }
    if n > 0 && cs[0] == '.' && (n == 1 || separator(cs[1], windows)) {
        return false;
    }
    let mut i: usize = 0;
    while i < n
        invariant
            n == cs@.len(),
            cs@ == name@,
            0 <= i <= n,
            forall|k: int| 0 <= k < i ==> !#[trigger] parent_component_at(cs@, k, windows),
            forall|k: int| 0 <= k < i ==> !is_control_char(#[trigger] cs@[k]),
        decreases n - i,
    {
        let c = cs[i];
        let u = c as u32;
        if u <= 0x1f || (0x7f <= u && u <= 0x9f) {
            return false;
        }
        if i + 1 < n && c == '.' && cs[i + 1] == '.' && (i == 0 || separator(cs[i - 1], windows))
            && (i + 2 == n || separator(cs[i + 2], windows)) {
            assert(parent_component_at(cs@, i as int, windows));
            return false;
        }
        i = i + 1;
    }
    assert forall|k: int| !#[trigger] parent_component_at(cs@, k, windows) by {
        if 0 <= k < n {
        }
    }
    true
}

/// Whether the manifest marks a file executable (its `executable` entry is `true`).
pub open spec fn spec_is_executable(h: FileHashes) -> bool {
    match h.executable {
        Some(e) => e@ == "true"@,
        None => false,
    }
}

/// Whether the manifest marks a file executable (see `spec_is_executable`).
pub fn is_executable(h: &FileHashes) -> (res: bool)
    ensures
        res == spec_is_executable(*h),
{
    match &h.executable {
        Some(e) => str_eq(e.as_str(), "true"),
        None => false,
    }
}

/// The lowercase form of a string, as `str::to_lowercase` computes it from Unicode's
/// case mappings.
pub uninterp spec fn unicode_lowercase(s: Seq<char>) -> Seq<char>;

/// Calls `str::to_lowercase`; its result is only named.
#[verifier::external_body]
fn to_lowercase(s: &str) -> (res: String)
    ensures
        res@ == unicode_lowercase(s@),
{
    s.to_lowercase()
}

/// `needle` occurs in `haystack`.
pub open spec fn contains_chars(haystack: Seq<char>, needle: Seq<char>) -> bool {
    exists|i: int| 0 <= i && i + needle.len() <= haystack.len() && #[trigger] haystack.subrange(i, i + needle.len()) == needle
}

/// The platform whose files the game needs, and the compatibility tool it runs under:
/// with a compatibility tool whose lowercased name contains `proton`, the game runs the
/// Windows build; the tool's name is reported lowercased, or `none` without one.
pub open spec fn spec_target_platform(host_platform: Seq<char>, compat_tool: Option<Seq<char>>) -> (Seq<char>, Seq<char>) {
    match compat_tool {
        None => (host_platform, "none"@),
        Some(t) => {
            let lower = unicode_lowercase(t);
            if contains_chars(lower, "proton"@) {
                ("windows"@, lower)
            } else {
                (host_platform, lower)
            }
        },
    }
}

/// The platform to patch for and the compatibility tool in use (see `spec_target_platform`).
pub fn target_platform(host_platform: &str, compat_tool: Option<&str>) -> (res: (String, String))
    ensures
        (res.0@, res.1@) == spec_target_platform(host_platform@, match compat_tool { Some(t) => Some(t@), None => None }),
{
    match compat_tool {
        None => (String::from_str(host_platform), String::from_str("none")),
        Some(t) => {
            let lower = to_lowercase(t);
            let cs = chars_of(lower.as_str());
            let needle = chars_of("proton");
            proof { reveal_strlit("proton"); }
            let found = contains_char_seq(&cs, &needle);
            if found {
                (String::from_str("windows"), lower)
            } else {
                (String::from_str(host_platform), lower)
            }
        },
    }
}

/// Whether `needle` occurs in `haystack`.
fn contains_char_seq(haystack: &Vec<char>, needle: &Vec<char>) -> (res: bool)
    requires
        needle@.len() > 0,
    ensures
        res == contains_chars(haystack@, needle@),
{
    let hn = haystack.len();
    let nn = needle.len();
    if nn > hn {
        return false;
    }
    let mut i: usize = 0;
    while i <= hn - nn
        invariant
            hn == haystack@.len(),
            nn == needle@.len(),
            nn <= hn,
            0 <= i <= hn - nn + 1,
            forall|k: int| 0 <= k < i ==> #[trigger] haystack@.subrange(k, k + nn) != needle@,
        decreases hn - nn + 1 - i,
    {
        let mut j: usize = 0;
        let mut same = true;
        while j < nn
            invariant
                hn == haystack@.len(),
                nn == needle@.len(),
                i + nn <= hn,
                0 <= j <= nn,
                same == (forall|k: int| 0 <= k < j ==> haystack@[i + k] == needle@[k]),
            decreases nn - j,
        {
            if haystack[i + j] != needle[j] {
                same = false;
            }
            j = j + 1;
        }
        if same {
            assert(haystack@.subrange(i as int, i + nn) =~= needle@);
            return true;
        } else {
            assert(haystack@.subrange(i as int, i + nn) != needle@) by {
                let k = choose|k: int| 0 <= k < nn && haystack@[i + k] != needle@[k];
                assert(haystack@.subrange(i as int, i + nn)[k] == haystack@[i + k]);
            }
        }
        i = i + 1;
    }
    false
}

/// A file that `--no-sourcescheme` leaves alone: a SourceScheme (VGUI theme) `.res`
/// file, when that option is given.
pub open spec fn spec_skipped_by_sourcescheme(name: Seq<char>, no_sourcescheme: bool) -> bool {
    no_sourcescheme && ends_with_chars(name, ".res"@)
}

/// Whether a run with `--no-sourcescheme` set as given leaves the file alone (see
/// `spec_skipped_by_sourcescheme`).
pub fn skipped_by_sourcescheme(name: &str, no_sourcescheme: bool) -> (res: bool)
    ensures
        res == spec_skipped_by_sourcescheme(name@, no_sourcescheme),
{
    if !no_sourcescheme {
        return false;
    }
    has_suffix(&chars_of(name), &chars_of(".res"))
}

} // verus!
