//! The Proton AppContainer compatibility hotfix for the Windows GMod executables.
//!
//! Chromium's AppContainer helper hard-imports
//! `DeriveAppContainerSidFromAppContainerName`. Under Wine/Proton the import is an
//! exception-raising stub, so the hotfix replaces the four call sites with code that
//! returns `HRESULT_FROM_WIN32(ERROR_PROC_NOT_FOUND)` (`0x8007007f`). On 32-bit x86 the
//! two argument pushes are replaced too, and a short jump skips a per-site marker byte,
//! so the vendor bytes can be restored exactly when normalising the manifest checksum.

use vstd::prelude::*;
use crate::digest::{blake3_hex, checksum_of};
use crate::text::{str_eq, concat_str, lemma_encode_utf8_nonempty};

verus! {

/// What `apply_to_file` did to a file.
#[derive(Clone, Copy, Debug, PartialEq, Eq, Structural)]
pub enum ApplyResult {
    Applied,
    AlreadyApplied,
}

/// A patched byte range: the vendor bytes at `offset` and the bytes that replace them.
#[derive(Clone, Debug)]
pub struct PatchSite {
    pub offset: usize,
    pub original: Vec<u8>,
    pub replacement: Vec<u8>,
}

/// The mathematical model of a patch site.
pub struct SpecSite {
    pub offset: int,
    pub original: Seq<u8>,
    pub replacement: Seq<u8>,
}

impl View for PatchSite {
    type V = SpecSite;

    open spec fn view(&self) -> SpecSite {
        SpecSite { offset: self.offset as int, original: self.original@, replacement: self.replacement@ }
    }
}

/// The model of a table of sites.
pub open spec fn sites_view(sites: Seq<PatchSite>) -> Seq<SpecSite> {
    sites.map_values(|s: PatchSite| s@)
}

/// The bytes expected at (or written to) a site: the replacement or the vendor bytes.
pub open spec fn site_bytes(site: SpecSite, replacement: bool) -> Seq<u8> {
    if replacement {
        site.replacement
    } else {
        site.original
    }
}

/// `bytes` holds the site's vendor (or replacement) bytes at the site's offset.
pub open spec fn site_matches(bytes: Seq<u8>, site: SpecSite, replacement: bool) -> bool {
    let e = site_bytes(site, replacement);
    &&& 0 <= site.offset
    &&& site.offset + e.len() <= bytes.len()
    &&& bytes.subrange(site.offset, site.offset + e.len()) == e
}

/// Every site of the table matches.
pub open spec fn all_sites_match_spec(bytes: Seq<u8>, sites: Seq<SpecSite>, replacement: bool) -> bool {
    forall|i: int| 0 <= i < sites.len() ==> #[trigger] site_matches(bytes, sites[i], replacement)
}

/// The end of a site's byte range.
pub open spec fn site_end(site: SpecSite) -> int {
    site.offset + site.original.len()
}

/// A well-formed table: equal lengths per site, ranges in ascending order and disjoint,
/// and every range end representable as a `usize`.
pub open spec fn sites_wf(sites: Seq<SpecSite>) -> bool {
    &&& forall|i: int| 0 <= i < sites.len() ==>
        (#[trigger] sites[i]).original.len() == sites[i].replacement.len()
    &&& forall|i: int| 0 <= i < sites.len() ==>
        0 <= (#[trigger] sites[i]).offset && site_end(sites[i]) <= usize::MAX
    &&& forall|i: int, j: int| 0 <= i < j < sites.len() ==>
        site_end(#[trigger] sites[i]) <= (#[trigger] sites[j]).offset
}

/// Every site's range lies inside `bytes`.
pub open spec fn sites_fit(len: int, sites: Seq<SpecSite>) -> bool {
    forall|i: int| 0 <= i < sites.len() ==> site_end(#[trigger] sites[i]) <= len
}

/// `bytes` with one site's vendor (or replacement) bytes written at its offset.
pub open spec fn write_site(bytes: Seq<u8>, site: SpecSite, apply: bool) -> Seq<u8> {
    let to = site_bytes(site, apply);
    bytes.subrange(0, site.offset) + to + bytes.subrange(site.offset + to.len(), bytes.len() as int)
}

/// `bytes` with every site written, in table order.
pub open spec fn replace_all(bytes: Seq<u8>, sites: Seq<SpecSite>, apply: bool) -> Seq<u8>
    decreases sites.len(),
{
    if sites.len() == 0 {
        bytes
    } else {
        write_site(replace_all(bytes, sites.drop_last(), apply), sites.last(), apply)
    }
}

/// `k` lies in the byte range of some site.
pub open spec fn in_some_site(sites: Seq<SpecSite>, k: int) -> bool {
    exists|i: int| 0 <= i < sites.len() && sites[i].offset <= k < #[trigger] site_end(sites[i])
}

/// Writing the sites of a well-formed table that fits keeps the length, puts each
/// site's bytes in its range and leaves every other byte as it was.
pub proof fn lemma_replace_all_pointwise(bytes: Seq<u8>, sites: Seq<SpecSite>, apply: bool)
    requires
        sites_wf(sites),
        sites_fit(bytes.len() as int, sites),
    ensures
        replace_all(bytes, sites, apply).len() == bytes.len(),
        forall|i: int, k: int|
            0 <= i < sites.len() && sites[i].offset <= k < site_end(sites[i]) ==>
                #[trigger] replace_all(bytes, sites, apply)[k] == site_bytes(sites[i], apply)[k - sites[i].offset]
                    && #[trigger] site_end(sites[i]) > 0,
        forall|k: int|
            0 <= k < bytes.len() && !in_some_site(sites, k) ==>
                #[trigger] replace_all(bytes, sites, apply)[k] == bytes[k],
    decreases sites.len(),
{
    if sites.len() > 0 {
        let prev = sites.drop_last();
        assert(sites_wf(prev)) by {
            assert forall|i: int| 0 <= i < prev.len() implies #[trigger] prev[i] == sites[i] by {}
        }
        assert(sites_fit(bytes.len() as int, prev)) by {
            assert forall|i: int| 0 <= i < prev.len() implies #[trigger] prev[i] == sites[i] by {}
        }
        lemma_replace_all_pointwise(bytes, prev, apply);
        let before = replace_all(bytes, prev, apply);
        let last = sites.last();
        let n = sites.len() - 1;
        assert(last == sites[n]);
        let result = replace_all(bytes, sites, apply);
        assert(result == write_site(before, last, apply));
        assert(result.len() == bytes.len());
        assert forall|i: int, k: int|
            0 <= i < sites.len() && sites[i].offset <= k < site_end(sites[i]) implies
                #[trigger] replace_all(bytes, sites, apply)[k] == site_bytes(sites[i], apply)[k - sites[i].offset]
                    && #[trigger] site_end(sites[i]) > 0 by {
            if i < n {
                assert(prev[i] == sites[i]);
                assert(site_end(sites[i]) <= sites[n].offset);
            }
        }
        assert forall|k: int| 0 <= k < bytes.len() && !in_some_site(sites, k) implies
            #[trigger] replace_all(bytes, sites, apply)[k] == bytes[k] by {
            assert(!(sites[n].offset <= k < site_end(sites[n])));
            if in_some_site(prev, k) {
                let i = choose|i: int| 0 <= i < prev.len() && prev[i].offset <= k < #[trigger] site_end(prev[i]);
                assert(prev[i] == sites[i]);
                assert(sites[i].offset <= k < site_end(sites[i]));
            }
        }
    }
}

/// Writing the sites leaves all of them matching what was written.
pub proof fn lemma_replace_all_matches(bytes: Seq<u8>, sites: Seq<SpecSite>, apply: bool)
    requires
        sites_wf(sites),
        sites_fit(bytes.len() as int, sites),
    ensures
        all_sites_match_spec(replace_all(bytes, sites, apply), sites, apply),
{
    lemma_replace_all_pointwise(bytes, sites, apply);
    let r = replace_all(bytes, sites, apply);
    assert forall|i: int| 0 <= i < sites.len() implies #[trigger] site_matches(r, sites[i], apply) by {
        let s = sites[i];
        let e = site_bytes(s, apply);
        assert forall|k: int| 0 <= k < e.len() implies r.subrange(s.offset, s.offset + e.len())[k] == e[k] by {
            assert(r[s.offset + k] == e[s.offset + k - s.offset]);
        }
        assert(r.subrange(s.offset, s.offset + e.len()) =~= e);
    }
}

/// Matching every site means that every site's range fits.
pub proof fn lemma_match_implies_fit(bytes: Seq<u8>, sites: Seq<SpecSite>, replacement: bool)
    requires
        sites_wf(sites),
        all_sites_match_spec(bytes, sites, replacement),
    ensures
        sites_fit(bytes.len() as int, sites),
{
    assert forall|i: int| 0 <= i < sites.len() implies site_end(#[trigger] sites[i]) <= bytes.len() by {
        assert(site_matches(bytes, sites[i], replacement));
    }
}

/// Restoring the vendor bytes after applying the replacement gives back the input,
/// whenever the input held the vendor bytes at every site.
pub proof fn lemma_apply_then_revert(bytes: Seq<u8>, sites: Seq<SpecSite>)
    requires
        sites_wf(sites),
        all_sites_match_spec(bytes, sites, false),
    ensures
        replace_all(replace_all(bytes, sites, true), sites, false) == bytes,
{
    lemma_match_implies_fit(bytes, sites, false);
    lemma_replace_all_pointwise(bytes, sites, true);
    let p = replace_all(bytes, sites, true);
    lemma_replace_all_pointwise(p, sites, false);
    let q = replace_all(p, sites, false);
    assert forall|k: int| 0 <= k < bytes.len() implies q[k] == bytes[k] by {
        if in_some_site(sites, k) {
            let i = choose|i: int| 0 <= i < sites.len() && sites[i].offset <= k < #[trigger] site_end(sites[i]);
            assert(site_matches(bytes, sites[i], false));
            let s = sites[i];
            assert(bytes.subrange(s.offset, s.offset + s.original.len())[k - s.offset] == bytes[k]);
        }
    }
    assert(q =~= bytes);
}

/// `HRESULT_FROM_WIN32(ERROR_PROC_NOT_FOUND)` (`0x8007007f`) in little-endian byte order.
pub open spec fn proc_not_found_hresult() -> Seq<u8> {
    seq![0x7fu8, 0x00u8, 0x07u8, 0x80u8]
}

/// The 64-bit replacement: `mov eax, 0x8007007f; nop` over a 6-byte indirect call.
pub open spec fn x86_64_replacement() -> Seq<u8> {
    seq![0xb8u8] + proc_not_found_hresult() + seq![0x90u8]
}

/// The 32-bit replacement: `mov eax, 0x8007007f; jmp +1; <marker>` over two pushes and the call.
pub open spec fn x86_replacement(marker: u8) -> Seq<u8> {
    seq![0xb8u8] + proc_not_found_hresult() + seq![0xebu8, 0x01u8, marker]
}

/// The site table of `bin/win64/gmod.exe`.
pub open spec fn spec_x86_64_sites() -> Seq<SpecSite> {
    seq![
        SpecSite { offset: 0x37c34, original: seq![0xffu8, 0x15, 0x9e, 0x98, 0x2b, 0x00], replacement: x86_64_replacement() },
        SpecSite { offset: 0x38207, original: seq![0xffu8, 0x15, 0xcb, 0x92, 0x2b, 0x00], replacement: x86_64_replacement() },
        SpecSite { offset: 0x384d6, original: seq![0xffu8, 0x15, 0xfc, 0x8f, 0x2b, 0x00], replacement: x86_64_replacement() },
        SpecSite { offset: 0x387ab, original: seq![0xffu8, 0x15, 0x27, 0x8d, 0x2b, 0x00], replacement: x86_64_replacement() },
    ]
}

/// The site table of `bin/gmod.exe`.
pub open spec fn spec_x86_sites() -> Seq<SpecSite> {
    seq![
        SpecSite { offset: 0x313c9, original: seq![0x51u8, 0x50, 0xff, 0x15, 0x70, 0x80, 0x69, 0x00], replacement: x86_replacement(0xa1) },
        SpecSite { offset: 0x3193d, original: seq![0x57u8, 0x50, 0xff, 0x15, 0x70, 0x80, 0x69, 0x00], replacement: x86_replacement(0xa2) },
        SpecSite { offset: 0x31b89, original: seq![0x51u8, 0x50, 0xff, 0x15, 0x70, 0x80, 0x69, 0x00], replacement: x86_replacement(0xa3) },
        SpecSite { offset: 0x31de9, original: seq![0x50u8, 0x57, 0xff, 0x15, 0x70, 0x80, 0x69, 0x00], replacement: x86_replacement(0xa4) },
    ]
}

/// The site table for a GMod-relative file name, if the hotfix covers that file.
pub open spec fn spec_sites_for(filename: Seq<char>) -> Option<Seq<SpecSite>> {
    if filename == "bin/win64/gmod.exe"@ {
        Some(spec_x86_64_sites())
    } else if filename == "bin/gmod.exe"@ {
        Some(spec_x86_sites())
    } else {
        None
    }
}

/// Both site tables are well formed, and every site's replacement differs from its vendor bytes.
pub proof fn lemma_site_tables_wf()
    ensures
        sites_wf(spec_x86_64_sites()),
        sites_wf(spec_x86_sites()),
        forall|i: int| 0 <= i < spec_x86_64_sites().len() ==>
            (#[trigger] spec_x86_64_sites()[i]).original[0] != spec_x86_64_sites()[i].replacement[0],
        forall|i: int| 0 <= i < spec_x86_sites().len() ==>
            (#[trigger] spec_x86_sites()[i]).original[0] != spec_x86_sites()[i].replacement[0],
        spec_x86_64_sites().len() == 4,
        spec_x86_sites().len() == 4,
{
    let a = spec_x86_64_sites();
    let b = spec_x86_sites();
    assert(a[0].replacement.len() == 6 && a[1].replacement.len() == 6);
    assert(a[2].replacement.len() == 6 && a[3].replacement.len() == 6);
    assert(b[0].replacement.len() == 8 && b[1].replacement.len() == 8);
    assert(b[2].replacement.len() == 8 && b[3].replacement.len() == 8);
    assert(a[0].replacement[0] == 0xb8 && a[1].replacement[0] == 0xb8);
    assert(a[2].replacement[0] == 0xb8 && a[3].replacement[0] == 0xb8);
    assert(b[0].replacement[0] == 0xb8 && b[1].replacement[0] == 0xb8);
    assert(b[2].replacement[0] == 0xb8 && b[3].replacement[0] == 0xb8);
}

fn hresult_mov(tail: &[u8]) -> (res: Vec<u8>)
    ensures
        res@ == seq![0xb8u8] + proc_not_found_hresult() + tail@,
{
    let mut v: Vec<u8> = vec![0xb8u8, 0x7f, 0x00, 0x07, 0x80];
    let mut i: usize = 0;
    while i < tail.len()
        invariant
            0 <= i <= tail@.len(),
            v@ == seq![0xb8u8] + proc_not_found_hresult() + tail@.subrange(0, i as int),
        decreases tail@.len() - i,
    {
        v.push(tail[i]);
        i = i + 1;
        assert(tail@.subrange(0, i as int) == tail@.subrange(0, i - 1) + seq![tail@[i - 1]]);
    }
    assert(tail@.subrange(0, tail@.len() as int) == tail@);
    v
}

/// The site table of `bin/win64/gmod.exe`.
pub fn x86_64_sites() -> (res: Vec<PatchSite>)
    ensures
        sites_view(res@) == spec_x86_64_sites(),
{
    let nop: [u8; 1] = [0x90u8];
    let v = vec![
        PatchSite { offset: 0x37c34, original: vec![0xffu8, 0x15, 0x9e, 0x98, 0x2b, 0x00], replacement: hresult_mov(&nop) },
        PatchSite { offset: 0x38207, original: vec![0xffu8, 0x15, 0xcb, 0x92, 0x2b, 0x00], replacement: hresult_mov(&nop) },
        PatchSite { offset: 0x384d6, original: vec![0xffu8, 0x15, 0xfc, 0x8f, 0x2b, 0x00], replacement: hresult_mov(&nop) },
        PatchSite { offset: 0x387ab, original: vec![0xffu8, 0x15, 0x27, 0x8d, 0x2b, 0x00], replacement: hresult_mov(&nop) },
    ];
    assert(nop@ =~= seq![0x90u8]);
    assert(v@[0]@.replacement == x86_64_replacement());
    assert(v@[1]@.replacement == x86_64_replacement());
    assert(v@[2]@.replacement == x86_64_replacement());
    assert(v@[3]@.replacement == x86_64_replacement());
    assert(sites_view(v@) =~= spec_x86_64_sites());
    v
}

/// The site table of `bin/gmod.exe`.
pub fn x86_sites() -> (res: Vec<PatchSite>)
    ensures
        sites_view(res@) == spec_x86_sites(),
{
    let m1: [u8; 3] = [0xebu8, 0x01, 0xa1];
    let m2: [u8; 3] = [0xebu8, 0x01, 0xa2];
    let m3: [u8; 3] = [0xebu8, 0x01, 0xa3];
    let m4: [u8; 3] = [0xebu8, 0x01, 0xa4];
    let v = vec![
        PatchSite { offset: 0x313c9, original: vec![0x51u8, 0x50, 0xff, 0x15, 0x70, 0x80, 0x69, 0x00], replacement: hresult_mov(&m1) },
        PatchSite { offset: 0x3193d, original: vec![0x57u8, 0x50, 0xff, 0x15, 0x70, 0x80, 0x69, 0x00], replacement: hresult_mov(&m2) },
        PatchSite { offset: 0x31b89, original: vec![0x51u8, 0x50, 0xff, 0x15, 0x70, 0x80, 0x69, 0x00], replacement: hresult_mov(&m3) },
        PatchSite { offset: 0x31de9, original: vec![0x50u8, 0x57, 0xff, 0x15, 0x70, 0x80, 0x69, 0x00], replacement: hresult_mov(&m4) },
    ];
    assert(sites_view(v@) =~= spec_x86_sites());
    v
}

/// The site table for a GMod-relative file name, `None` for files the hotfix does not cover.
pub fn sites_for(filename: &str) -> (res: Option<Vec<PatchSite>>)
    ensures
        res is Some <==> spec_sites_for(filename@) is Some,
        res matches Some(v) ==> sites_view(v@) == spec_sites_for(filename@).unwrap(),
{
    if str_eq(filename, "bin/win64/gmod.exe") {
        Some(x86_64_sites())
    } else if str_eq(filename, "bin/gmod.exe") {
        Some(x86_sites())
    } else {
        None
    }
}

/// `needle` occurs as a contiguous run inside `haystack`.
pub open spec fn contains_spec(haystack: Seq<u8>, needle: Seq<u8>) -> bool {
    exists|i: int| 0 <= i && i + needle.len() <= haystack.len()
        && #[trigger] haystack.subrange(i, i + needle.len()) == needle
}

/// `haystack[start..start + needle.len()]` equals `needle`.
fn matches_at(haystack: &[u8], needle: &[u8], start: usize) -> (res: bool)
    requires
        start + needle@.len() <= haystack@.len(),
    ensures
        res == (haystack@.subrange(start as int, start + needle@.len()) == needle@),
{
    let hl = haystack.len();
    let mut j: usize = 0;
    while j < needle.len()
        invariant
            hl == haystack@.len(),
            start + needle@.len() <= haystack@.len(),
            0 <= j <= needle@.len(),
            forall|k: int| 0 <= k < j ==> haystack@[start + k] == needle@[k],
        decreases needle@.len() - j,
    {
        if haystack[start + j] != needle[j] {
            assert(haystack@.subrange(start as int, start + needle@.len())[j as int] != needle@[j as int]);
            return false;
        }
        j = j + 1;
    }
    assert(haystack@.subrange(start as int, start + needle@.len()) =~= needle@);
    true
}

/// Whether `needle` occurs in `haystack`. The needle must be non-empty.
pub fn contains_bytes(haystack: &[u8], needle: &[u8]) -> (res: bool)
    requires
        needle@.len() > 0,
    ensures
        res == contains_spec(haystack@, needle@),
{
    if needle.len() > haystack.len() {
        return false;
    }
    let last = haystack.len() - needle.len();
    let mut i: usize = 0;
    while i <= last
        invariant
            last == haystack@.len() - needle@.len(),
            last < usize::MAX,
            needle@.len() > 0,
            0 <= i <= last + 1,
            forall|k: int| 0 <= k < i ==> #[trigger] haystack@.subrange(k, k + needle@.len()) != needle@,
        decreases last + 1 - i,
    {
        if matches_at(haystack, needle, i) {
            return true;
        }
        i = i + 1;
    }
    false
}

/// Whether every site holds its replacement (`replacement`) or its vendor bytes.
pub fn all_sites_match(bytes: &[u8], sites: &[PatchSite], replacement: bool) -> (res: bool)
    requires
        forall|i: int| 0 <= i < sites@.len() ==>
            (#[trigger] sites@[i]).offset + site_bytes(sites@[i]@, replacement).len() <= usize::MAX,
    ensures
        res == all_sites_match_spec(bytes@, sites_view(sites@), replacement),
{
    let ghost sv = sites_view(sites@);
    let mut i: usize = 0;
    while i < sites.len()
        invariant
            sv == sites_view(sites@),
            0 <= i <= sites@.len(),
            forall|k: int| 0 <= k < sites@.len() ==>
                (#[trigger] sites@[k]).offset + site_bytes(sites@[k]@, replacement).len() <= usize::MAX,
            forall|k: int| 0 <= k < i ==> #[trigger] site_matches(bytes@, sv[k], replacement),
        decreases sites@.len() - i,
    {
        let site = &sites[i];
        let expected: &Vec<u8> = if replacement { &site.replacement } else { &site.original };
        assert(expected@ == site_bytes(sv[i as int], replacement));
        let end = site.offset + expected.len();
        if end > bytes.len() || !matches_at(bytes, expected.as_slice(), site.offset) {
            assert(!site_matches(bytes@, sv[i as int], replacement));
            return false;
        }
        i = i + 1;
    }
    true
}

/// Writes every site's replacement (`apply`) or vendor bytes (`!apply`) into `bytes`.
/// Each site must hold the bytes being replaced.
pub fn replace_sites(bytes: &mut Vec<u8>, sites: &[PatchSite], apply: bool)
    requires
        sites_wf(sites_view(sites@)),
        all_sites_match_spec(old(bytes)@, sites_view(sites@), !apply),
    ensures
        final(bytes)@ == replace_all(old(bytes)@, sites_view(sites@), apply),
{
    let ghost sv = sites_view(sites@);
    let ghost start = bytes@;
    proof {
        lemma_match_implies_fit(start, sv, !apply);
    }
    let mut i: usize = 0;
    while i < sites.len()
        invariant
            sv == sites_view(sites@),
            sites_wf(sv),
            sites_fit(start.len() as int, sv),
            0 <= i <= sv.len(),
            bytes@ == replace_all(start, sv.subrange(0, i as int), apply),
            bytes@.len() == start.len(),
        decreases sv.len() - i,
    {
        let site = &sites[i];
        let to: &Vec<u8> = if apply { &site.replacement } else { &site.original };
        let ghost s = sv[i as int];
        assert(s == site@);
        assert(to@ == site_bytes(s, apply));
        assert(site_end(s) <= start.len());
        let ghost before = bytes@;
        let bl = bytes.len();
        let mut j: usize = 0;
        while j < to.len()
            invariant
                s == site@,
                to@ == site_bytes(s, apply),
                to@.len() == s.original.len(),
                site_end(s) <= before.len(),
                bl == before.len(),
                0 <= j <= to@.len(),
                bytes@.len() == before.len(),
                forall|k: int| 0 <= k < bytes@.len() && !(site.offset <= k < site.offset + j) ==>
                    #[trigger] bytes@[k] == before[k],
                forall|k: int| site.offset <= k < site.offset + j ==> #[trigger] bytes@[k] == to@[k - site.offset],
            decreases to@.len() - j,
        {
            bytes.set(site.offset + j, to[j]);
            j = j + 1;
        }
        assert(bytes@ =~= write_site(before, s, apply));
        assert(sv.subrange(0, i + 1).drop_last() =~= sv.subrange(0, i as int));
        i = i + 1;
    }
    assert(sv.subrange(0, sv.len() as int) =~= sv);
}

/// The import whose presence marks an executable the hotfix is meant for.
pub open spec fn required_import() -> Seq<u8> {
    vstd::utf8::encode_utf8("DeriveAppContainerSidFromAppContainerName\0"@)
}

/// The checksum of a hotfixed file with the vendor bytes put back, for comparison with the
/// manifest. `Ok(None)`: no hotfix applies (unknown file, or the vendor bytes are all present).
/// `Err`: some but not all sites hold the replacement.
pub open spec fn spec_normalized_hotfix_hash(bytes: Seq<u8>, filename: Seq<char>) -> Result<Option<Seq<char>>, Seq<char>> {
    match spec_sites_for(filename) {
        None => Ok(None),
        Some(sites) => if all_sites_match_spec(bytes, sites, false) {
            Ok(None)
        } else if !all_sites_match_spec(bytes, sites, true) {
            Err(filename + " has a partial or unknown Proton AppContainer compatibility patch"@)
        } else {
            Ok(Some(checksum_of(replace_all(bytes, sites, false))))
        },
    }
}

/// The model of a checksum result.
pub open spec fn hash_result_view(r: Result<Option<String>, String>) -> Result<Option<Seq<char>>, Seq<char>> {
    match r {
        Ok(Some(h)) => Ok(Some(h@)),
        Ok(None) => Ok(None),
        Err(e) => Err(e@),
    }
}

/// The manifest checksum of a possibly hotfixed executable (see `spec_normalized_hotfix_hash`).
pub fn normalized_hotfix_hash(bytes: &[u8], filename: &str) -> (res: Result<Option<String>, String>)
    ensures
        hash_result_view(res) == spec_normalized_hotfix_hash(bytes@, filename@),
{
    let sites = match sites_for(filename) {
        None => return Ok(None),
        Some(sites) => sites,
    };
    let ghost sv = sites_view(sites@);
    proof {
        lemma_site_tables_wf();
    }
    assert(sites_wf(sv));
    assert forall|i: int| 0 <= i < sites@.len() implies
        (#[trigger] sites@[i]).offset + site_bytes(sites@[i]@, false).len() <= usize::MAX by {
        assert(sv[i] == sites@[i]@);
    }
    assert forall|i: int| 0 <= i < sites@.len() implies
        (#[trigger] sites@[i]).offset + site_bytes(sites@[i]@, true).len() <= usize::MAX by {
        assert(sv[i] == sites@[i]@);
    }
    if all_sites_match(bytes, sites.as_slice(), false) {
        return Ok(None);
    }
    if !all_sites_match(bytes, sites.as_slice(), true) {
        return Err(concat_str(filename, " has a partial or unknown Proton AppContainer compatibility patch"));
    }
    let mut normalized = vstd::slice::slice_to_vec(bytes);
    replace_sites(&mut normalized, sites.as_slice(), false);
    Ok(Some(blake3_hex(normalized.as_slice())))
}

/// The outcome of checking a file against the manifest's checksum, given how reading
/// it went (`load`). `Ok(false)` without looking at `load` for files the hotfix does not cover.
pub open spec fn spec_matches_hotfixed_file(load: Result<Seq<u8>, Seq<char>>, filename: Seq<char>, expected_fixed_hash: Seq<char>) -> Result<bool, Seq<char>> {
    if spec_sites_for(filename) is None {
        Ok(false)
    } else {
        match load {
            Err(e) => Err(e),
            Ok(bytes) => match spec_normalized_hotfix_hash(bytes, filename) {
                Err(e) => Err(e),
                Ok(h) => Ok(h == Some(expected_fixed_hash)),
            },
        }
    }
}

/// The model of a read result.
pub open spec fn load_view(load: &Result<Vec<u8>, String>) -> Result<Seq<u8>, Seq<char>> {
    match load {
        Ok(b) => Ok(b@),
        Err(e) => Err(e@),
    }
}

/// Whether a hotfixed file, with its vendor bytes put back, has the manifest's checksum.
/// `file_contents` is the result of reading the file.
pub fn matches_hotfixed_file(file_contents: Result<Vec<u8>, String>, filename: &str, expected_fixed_hash: &str) -> (res: Result<bool, String>)
    ensures
        match res {
            Ok(b) => spec_matches_hotfixed_file(load_view(&file_contents), filename@, expected_fixed_hash@) == Ok::<bool, Seq<char>>(b),
            Err(e) => spec_matches_hotfixed_file(load_view(&file_contents), filename@, expected_fixed_hash@) == Err::<bool, Seq<char>>(e@),
        },
{
    if sites_for(filename).is_none() {
        return Ok(false);
    }
    let bytes = match file_contents {
        Err(e) => return Err(e),
        Ok(b) => b,
    };
    match normalized_hotfix_hash(bytes.as_slice(), filename) {
        Err(e) => Err(e),
        Ok(None) => Ok(false),
        Ok(Some(h)) => Ok(str_eq(h.as_str(), expected_fixed_hash)),
    }
}

/// What `apply_to_file` does with a file, given how reading it went (`load`):
/// `Ok((Applied, Some(bytes)))` gives the patched contents to write back;
/// `Ok((AlreadyApplied, None))` leaves the file as it is.
pub open spec fn spec_apply_to_file(load: Result<Seq<u8>, Seq<char>>, filename: Seq<char>, expected_fixed_hash: Seq<char>) -> Result<(ApplyResult, Option<Seq<u8>>), Seq<char>> {
    match spec_sites_for(filename) {
        None => Err("No Proton AppContainer compatibility patch is defined for "@ + filename),
        Some(sites) => match load {
            Err(e) => Err(e),
            Ok(bytes) => if !contains_spec(bytes, required_import()) {
                Err(filename + " does not import DeriveAppContainerSidFromAppContainerName"@)
            } else if all_sites_match_spec(bytes, sites, true) {
                match spec_normalized_hotfix_hash(bytes, filename) {
                    Err(e) => Err(e),
                    Ok(h) => if h == Some(expected_fixed_hash) {
                        Ok((ApplyResult::AlreadyApplied, None))
                    } else {
                        Err(filename + " does not match the manifest after normalizing its Proton AppContainer compatibility patch"@)
                    },
                }
            } else if checksum_of(bytes) != expected_fixed_hash {
                Err("Refusing to modify "@ + filename + ": its checksum does not match the manifest"@)
            } else if !all_sites_match_spec(bytes, sites, false) {
                Err("Refusing to modify "@ + filename + ": this GMod/Chromium executable layout is not supported"@)
            } else {
                Ok((ApplyResult::Applied, Some(replace_all(bytes, sites, true))))
            },
        },
    }
}

/// The model of an `apply_to_file` result.
pub open spec fn apply_result_view(r: Result<(ApplyResult, Option<Vec<u8>>), String>) -> Result<(ApplyResult, Option<Seq<u8>>), Seq<char>> {
    match r {
        Ok((a, Some(b))) => Ok((a, Some(b@))),
        Ok((a, None)) => Ok((a, None)),
        Err(e) => Err(e@),
    }
}

/// `"Refusing to modify {filename}{tail}"`.
fn refusal(filename: &str, tail: &str) -> (res: String)
    ensures
        res@ == "Refusing to modify "@ + filename@ + tail@,
{
    let mut s = String::from_str("Refusing to modify ");
    s.append(filename);
    s.append(tail);
    s
}

/// Decides whether to apply the hotfix to a file and computes the patched contents.
/// `file_contents` is the result of reading the file; the caller writes back
/// the returned bytes when the result is `Applied`.
pub fn apply_to_file(file_contents: Result<Vec<u8>, String>, filename: &str, expected_fixed_hash: &str) -> (res: Result<(ApplyResult, Option<Vec<u8>>), String>)
    ensures
        apply_result_view(res) == spec_apply_to_file(load_view(&file_contents), filename@, expected_fixed_hash@),
{
    let sites = match sites_for(filename) {
        None => return Err(concat_str("No Proton AppContainer compatibility patch is defined for ", filename)),
        Some(sites) => sites,
    };
    let mut bytes = match file_contents {
        Err(e) => return Err(e),
        Ok(b) => b,
    };
    let ghost sv = sites_view(sites@);
    proof {
        lemma_site_tables_wf();
    }
    assert forall|i: int| 0 <= i < sites@.len() implies
        (#[trigger] sites@[i]).offset + site_bytes(sites@[i]@, false).len() <= usize::MAX by {
        assert(sv[i] == sites@[i]@);
    }
    assert forall|i: int| 0 <= i < sites@.len() implies
        (#[trigger] sites@[i]).offset + site_bytes(sites@[i]@, true).len() <= usize::MAX by {
        assert(sv[i] == sites@[i]@);
    }
    let import = "DeriveAppContainerSidFromAppContainerName\0".as_bytes();
    proof {
        reveal_strlit("DeriveAppContainerSidFromAppContainerName\0");
        lemma_encode_utf8_nonempty("DeriveAppContainerSidFromAppContainerName\0"@);
    }
    if !contains_bytes(bytes.as_slice(), import) {
        return Err(concat_str(filename, " does not import DeriveAppContainerSidFromAppContainerName"));
    }
    if all_sites_match(bytes.as_slice(), sites.as_slice(), true) {
        let normalized = normalized_hotfix_hash(bytes.as_slice(), filename);
        return match normalized {
            Err(e) => Err(e),
            Ok(Some(h)) => {
                if str_eq(h.as_str(), expected_fixed_hash) {
                    Ok((ApplyResult::AlreadyApplied, None))
                } else {
                    Err(concat_str(filename, " does not match the manifest after normalizing its Proton AppContainer compatibility patch"))
                }
            },
            Ok(None) => Err(concat_str(filename, " does not match the manifest after normalizing its Proton AppContainer compatibility patch")),
        };
    }
    let actual_hash = blake3_hex(bytes.as_slice());
    if !str_eq(actual_hash.as_str(), expected_fixed_hash) {
        return Err(refusal(filename, ": its checksum does not match the manifest"));
    }
    if !all_sites_match(bytes.as_slice(), sites.as_slice(), false) {
        return Err(refusal(filename, ": this GMod/Chromium executable layout is not supported"));
    }
    replace_sites(&mut bytes, sites.as_slice(), true);
    Ok((ApplyResult::Applied, Some(bytes)))
}

/// The site table of a covered file is one of the two fixed tables.
proof fn lemma_sites_for_facts(filename: Seq<char>)
    requires
        spec_sites_for(filename) is Some,
    ensures
        sites_wf(spec_sites_for(filename).unwrap()),
        spec_sites_for(filename).unwrap().len() > 0,
        spec_sites_for(filename).unwrap()[0].original[0] != spec_sites_for(filename).unwrap()[0].replacement[0],
{
    lemma_site_tables_wf();
}

/// A byte that opens a site's vendor bytes: the `call` opcode of the 64-bit sites, or
/// the first `push` of the 32-bit ones.
pub open spec fn site_lead_byte(b: u8) -> bool {
    b == 0xff || b == 0x51 || b == 0x57 || b == 0x50
}

/// The import text holds no byte that opens a site, and starts with `D`.
proof fn lemma_import_bytes()
    ensures
        required_import().len() == 42,
        required_import()[0] == 0x44,
        forall|k: int| 0 <= k < required_import().len() ==> !site_lead_byte(#[trigger] required_import()[k]),
{
    reveal_strlit("DeriveAppContainerSidFromAppContainerName\0");
    let cs = "DeriveAppContainerSidFromAppContainerName\0"@;
    assert(cs.len() == 42);
    assert forall|k: int| 0 <= k < cs.len() implies
        #[trigger] cs[k] != 'P' && cs[k] != 'Q' && cs[k] != 'W' && '\0' <= cs[k] <= '\u{7f}' by {
    }
    assert(vstd::utf8::is_ascii_chars(cs));
    vstd::utf8::is_ascii_chars_encode_utf8(cs);
    assert forall|k: int| 0 <= k < required_import().len() implies !site_lead_byte(#[trigger] required_import()[k]) by {
        assert(cs[k] as u8 == required_import()[k]);
        assert(cs[k] != 'P' && cs[k] != 'Q' && cs[k] != 'W');
    }
}

/// Every site of a covered file opens with a site lead byte, and no vendor byte is `D`.
proof fn lemma_site_bytes(filename: Seq<char>)
    requires
        spec_sites_for(filename) is Some,
    ensures
        forall|i: int| 0 <= i < spec_sites_for(filename).unwrap().len() ==>
            site_lead_byte((#[trigger] spec_sites_for(filename).unwrap()[i]).original[0]),
        forall|i: int, m: int| 0 <= i < spec_sites_for(filename).unwrap().len()
            && 0 <= m < spec_sites_for(filename).unwrap()[i].original.len() ==>
            (#[trigger] spec_sites_for(filename).unwrap()[i].original[m]) != 0x44,
{
}

/// An occurrence of the import in bytes that hold the vendor bytes at every site never
/// overlaps a site, so writing the replacement keeps it.
proof fn lemma_import_survives(bytes: Seq<u8>, filename: Seq<char>)
    requires
        spec_sites_for(filename) is Some,
        all_sites_match_spec(bytes, spec_sites_for(filename).unwrap(), false),
        contains_spec(bytes, required_import()),
    ensures
        contains_spec(replace_all(bytes, spec_sites_for(filename).unwrap(), true), required_import()),
{
    let sites = spec_sites_for(filename).unwrap();
    let imp = required_import();
    lemma_sites_for_facts(filename);
    lemma_import_bytes();
    lemma_site_bytes(filename);
    lemma_match_implies_fit(bytes, sites, false);
    lemma_replace_all_pointwise(bytes, sites, true);
    let j = choose|j: int| 0 <= j && j + imp.len() <= bytes.len() && #[trigger] bytes.subrange(j, j + imp.len()) == imp;
    let p = replace_all(bytes, sites, true);
    assert forall|k: int| j <= k < j + imp.len() implies !in_some_site(sites, k) by {
        if in_some_site(sites, k) {
            let i = choose|i: int| 0 <= i < sites.len() && sites[i].offset <= k < #[trigger] site_end(sites[i]);
            let o = sites[i].offset;
            assert(site_matches(bytes, sites[i], false));
            if o <= j {
                assert(bytes.subrange(j, j + imp.len())[0] == bytes[j]);
                assert(bytes.subrange(o, o + sites[i].original.len())[j - o] == bytes[j]);
                assert(sites[i].original[j - o] != 0x44);
            } else {
                assert(bytes.subrange(j, j + imp.len())[o - j] == bytes[o]);
                assert(bytes.subrange(o, o + sites[i].original.len())[0] == bytes[o]);
                assert(site_lead_byte(sites[i].original[0]));
                assert(!site_lead_byte(imp[o - j]));
            }
        }
    }
    assert forall|m: int| 0 <= m < imp.len() implies p.subrange(j, j + imp.len())[m] == imp[m] by {
        assert(!in_some_site(sites, j + m));
        assert(bytes.subrange(j, j + imp.len())[m] == bytes[j + m]);
    }
    assert(p.subrange(j, j + imp.len()) =~= imp);
}

/// Law: a hotfixed file normalises back to the checksum of the vendor file it was made
/// from. For a covered file whose bytes hold the vendor bytes at every site, applying the
/// replacement and normalising yields the checksum of the unpatched bytes.
pub proof fn lemma_normalized_hash_of_patched(bytes: Seq<u8>, filename: Seq<char>)
    requires
        spec_sites_for(filename) is Some,
        all_sites_match_spec(bytes, spec_sites_for(filename).unwrap(), false),
    ensures
        spec_normalized_hotfix_hash(replace_all(bytes, spec_sites_for(filename).unwrap(), true), filename)
            == Ok::<Option<Seq<char>>, Seq<char>>(Some(checksum_of(bytes))),
{
    let sites = spec_sites_for(filename).unwrap();
    lemma_sites_for_facts(filename);
    lemma_match_implies_fit(bytes, sites, false);
    let p = replace_all(bytes, sites, true);
    lemma_replace_all_matches(bytes, sites, true);
    lemma_replace_all_pointwise(bytes, sites, true);
    assert(site_matches(p, sites[0], true));
    if site_matches(p, sites[0], false) {
        assert(p.subrange(sites[0].offset, site_end(sites[0]))[0] == sites[0].original[0]);
        assert(p.subrange(sites[0].offset, sites[0].offset + sites[0].replacement.len())[0] == sites[0].replacement[0]);
    }
    assert(!all_sites_match_spec(p, sites, false));
    lemma_apply_then_revert(bytes, sites);
}

/// Law: applying the hotfix twice is the same as applying it once. When `apply_to_file`
/// patched a file, running it on the patched bytes reports `AlreadyApplied` and changes
/// nothing (the patched bytes still carry the AppContainer import, which no site overlaps).
pub proof fn lemma_apply_is_idempotent(bytes: Seq<u8>, patched: Seq<u8>, filename: Seq<char>, expected_fixed_hash: Seq<char>)
    requires
        spec_apply_to_file(Ok(bytes), filename, expected_fixed_hash)
            == Ok::<(ApplyResult, Option<Seq<u8>>), Seq<char>>((ApplyResult::Applied, Some(patched))),
    ensures
        spec_apply_to_file(Ok(patched), filename, expected_fixed_hash)
            == Ok::<(ApplyResult, Option<Seq<u8>>), Seq<char>>((ApplyResult::AlreadyApplied, None)),
        spec_matches_hotfixed_file(Ok(patched), filename, expected_fixed_hash) == Ok::<bool, Seq<char>>(true),
{
    let sites = spec_sites_for(filename).unwrap();
    lemma_sites_for_facts(filename);
    lemma_normalized_hash_of_patched(bytes, filename);
    lemma_match_implies_fit(bytes, sites, false);
    lemma_replace_all_matches(bytes, sites, true);
    lemma_import_survives(bytes, filename);
}

/// Law: a file whose bytes already carry the replacement at every site is never written:
/// `apply_to_file` either reports `AlreadyApplied` or fails.
pub proof fn lemma_patched_file_is_not_rewritten(bytes: Seq<u8>, filename: Seq<char>, expected_fixed_hash: Seq<char>)
    requires
        spec_sites_for(filename) is Some,
        all_sites_match_spec(bytes, spec_sites_for(filename).unwrap(), true),
    ensures
        !(spec_apply_to_file(Ok(bytes), filename, expected_fixed_hash) matches Ok((ApplyResult::Applied, _))),
{
}

} // verus!
