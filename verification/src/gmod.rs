//! Decisions about the Garry's Mod installation: whether Steam has it ready, which
//! branch and platform its files come from, its launch options, and the tool's version.

use vstd::prelude::*;
use vstd::string::{StringExecFns, StrSliceExecFns};
use crate::steam::{SteamAppManifest, SpecAppManifest, spec_app_manifest, number_under_key, lemma_app_manifest_numbers, lemma_number_under_key_unique};
use crate::vdf::{SpecVdf, parse_document};
use crate::proton_appcontainer::{contains_bytes, contains_spec};
use crate::text::lemma_encode_utf8_nonempty;

verus! {

/// Steam reports the game fully installed and up to date: state flags exactly
/// "fully installed" (4), no scheduled update, no pending validation, and nothing left
/// to download or stage.
pub open spec fn spec_gmod_is_ready(m: SpecAppManifest) -> bool {
    &&& m.state_flags == 4
    &&& m.scheduled_auto_update == 0
    &&& m.full_validate_before_next_update != Some(true)
    &&& m.bytes_downloaded == m.bytes_to_download
    &&& m.bytes_staged == m.bytes_to_stage
}

/// Whether the game is ready to be patched (see `spec_gmod_is_ready`).
pub fn gmod_is_ready(m: &SteamAppManifest) -> (res: bool)
    ensures
        res == spec_gmod_is_ready(m@),
{
    let full_validate = match m.full_validate_before_next_update {
        Some(b) => b,
        None => false,
    };
    m.state_flags == 4 && m.scheduled_auto_update == 0 && !full_validate
        && m.bytes_downloaded == m.bytes_to_download && m.bytes_staged == m.bytes_to_stage
}

/// Law: each readiness condition is necessary, and together they suffice. A game
/// whose state flags are not exactly 4, that has an update scheduled, that Steam will
/// validate first, or that still has bytes to download or to stage is never ready,
/// whatever the other fields hold.
pub proof fn lemma_readiness_conditions(m: SpecAppManifest)
    ensures
        m.state_flags != 4 ==> !spec_gmod_is_ready(m),
        m.scheduled_auto_update != 0 ==> !spec_gmod_is_ready(m),
        m.full_validate_before_next_update == Some(true) ==> !spec_gmod_is_ready(m),
        m.bytes_downloaded != m.bytes_to_download ==> !spec_gmod_is_ready(m),
        m.bytes_staged != m.bytes_to_stage ==> !spec_gmod_is_ready(m),
        m.state_flags == 4 && m.scheduled_auto_update == 0 && m.full_validate_before_next_update != Some(true)
            && m.bytes_downloaded == m.bytes_to_download && m.bytes_staged == m.bytes_to_stage
            ==> spec_gmod_is_ready(m),
{
}

/// Law: read from the document itself, a game whose app manifest schedules an update
/// (a `ScheduledAutoUpdate` other than 0) or whose `BytesDownloaded` differs from its
/// `BytesToDownload` (a download in progress) is not ready to be patched.
pub proof fn lemma_manifest_document_not_ready(text: Seq<u8>, scheduled: int, to_download: int, downloaded: int)
    requires
        spec_app_manifest(text) is Some,
        parse_document(text) matches Some((_, SpecVdf::Obj(ps))) && {
            &&& number_under_key(ps, "ScheduledAutoUpdate"@, "scheduledautoupdate"@, u64::MAX as int, false, scheduled)
            &&& number_under_key(ps, "BytesToDownload"@, "bytestodownload"@, u64::MAX as int, true, to_download)
            &&& number_under_key(ps, "BytesDownloaded"@, "bytesdownloaded"@, u64::MAX as int, true, downloaded)
        },
        scheduled != 0 || to_download != downloaded,
    ensures
        !spec_gmod_is_ready(spec_app_manifest(text).unwrap()),
{
    let ps = parse_document(text).unwrap().1->Obj_0;
    let m = spec_app_manifest(text).unwrap();
    lemma_app_manifest_numbers(text);
    lemma_number_under_key_unique(ps, "ScheduledAutoUpdate"@, "scheduledautoupdate"@, u64::MAX as int, false, scheduled, m.scheduled_auto_update as int);
    lemma_number_under_key_unique(ps, "BytesToDownload"@, "bytestodownload"@, u64::MAX as int, true, to_download, m.bytes_to_download as int);
    lemma_number_under_key_unique(ps, "BytesDownloaded"@, "bytesdownloaded"@, u64::MAX as int, true, downloaded, m.bytes_downloaded as int);
    lemma_readiness_conditions(m);
}

/// The beta branch the game is on: its beta key, or `public` without one.
pub open spec fn spec_gmod_branch(m: SpecAppManifest) -> Seq<char> {
    match m.beta_key {
        Some(k) => k,
        None => "public"@,
    }
}

/// The beta branch (see `spec_gmod_branch`).
pub fn gmod_branch(m: &SteamAppManifest) -> (res: String)
    ensures
        res@ == spec_gmod_branch(m@),
{
    match &m.beta_key {
        Some(k) => k.clone(),
        None => String::from_str("public"),
    }
}

/// Launch options that disable the in-game browser (`-nochromium`).
pub open spec fn spec_disables_chromium(launch_options: Seq<char>) -> bool {
    contains_spec(vstd::utf8::encode_utf8(launch_options), vstd::utf8::encode_utf8("-nochromium"@))
}

/// Whether the launch options contain `-nochromium`.
pub fn launch_options_disable_chromium(launch_options: &str) -> (res: bool)
    ensures
        res == spec_disables_chromium(launch_options@),
{
    proof {
        reveal_strlit("-nochromium");
        lemma_encode_utf8_nonempty("-nochromium"@);
    }
    contains_bytes(launch_options.as_bytes(), "-nochromium".as_bytes())
}

/// The characters of a string.
pub fn chars_of(s: &str) -> (res: Vec<char>)
    ensures
        res@ == s@,
{
    let n = s.unicode_len();
    let mut out: Vec<char> = Vec::new();
    let mut i: usize = 0;
    while i < n
        invariant
            n == s@.len(),
            0 <= i <= n,
            out@ == s@.subrange(0, i as int),
        decreases n - i,
    {
        out.push(s.get_char(i));
        i = i + 1;
        assert(out@ =~= s@.subrange(0, i as int));
    }
    assert(s@.subrange(0, n as int) =~= s@);
    out
}

/// Unicode `White_Space`, which `str::trim` removes.
pub open spec fn is_unicode_whitespace(c: char) -> bool {
    let u = c as u32;
    (0x09 <= u <= 0x0d) || u == 0x20 || u == 0x85 || u == 0xa0 || u == 0x1680
        || (0x2000 <= u <= 0x200a) || u == 0x2028 || u == 0x2029 || u == 0x202f
        || u == 0x205f || u == 0x3000
}

fn char_is_whitespace(c: char) -> (res: bool)
    ensures
        res == is_unicode_whitespace(c),
{
    let u = c as u32;
    (0x09 <= u && u <= 0x0d) || u == 0x20 || u == 0x85 || u == 0xa0 || u == 0x1680
        || (0x2000 <= u && u <= 0x200a) || u == 0x2028 || u == 0x2029 || u == 0x202f
        || u == 0x205f || u == 0x3000
}

/// The index of the first character that is not whitespace (or the length).
pub open spec fn first_non_ws(cs: Seq<char>, i: int) -> int
    decreases cs.len() - i,
{
    if i < 0 || i >= cs.len() || !is_unicode_whitespace(cs[i]) {
        i
    } else {
        first_non_ws(cs, i + 1)
    }
}

/// One past the index of the last character that is not whitespace, looking below `j`.
pub open spec fn last_non_ws_end(cs: Seq<char>, lo: int, j: int) -> int
    decreases j,
{
    if j <= lo || j <= 0 || j > cs.len() || !is_unicode_whitespace(cs[j - 1]) {
        j
    } else {
        last_non_ws_end(cs, lo, j - 1)
    }
}

/// The characters without leading and trailing whitespace.
pub open spec fn trim_ws(cs: Seq<char>) -> Seq<char> {
    let a = first_non_ws(cs, 0);
    cs.subrange(a, last_non_ws_end(cs, a, cs.len() as int))
}

proof fn lemma_first_non_ws_range(cs: Seq<char>, i: int)
    requires
        0 <= i <= cs.len(),
    ensures
        i <= first_non_ws(cs, i) <= cs.len(),
    decreases cs.len() - i,
{
    if i < cs.len() && is_unicode_whitespace(cs[i]) {
        lemma_first_non_ws_range(cs, i + 1);
    }
}

proof fn lemma_last_non_ws_range(cs: Seq<char>, lo: int, j: int)
    requires
        0 <= lo <= j <= cs.len(),
    ensures
        lo <= last_non_ws_end(cs, lo, j) <= j,
    decreases j,
{
    if j > lo && j > 0 && is_unicode_whitespace(cs[j - 1]) {
        lemma_last_non_ws_range(cs, lo, j - 1);
    }
}

/// An unsigned decimal number no larger than `max` written in characters: an optional
/// `+`, then ASCII digits (what `str::parse` accepts for unsigned integers).
pub open spec fn parse_unsigned_chars(cs: Seq<char>, max: int) -> Option<int> {
    let d = without_plus(cs);
    if d.len() > 0 && all_char_digits(d) && char_digits_value(d) <= max {
        Some(char_digits_value(d))
    } else {
        None
    }
}

/// The characters without one leading `+`.
pub open spec fn without_plus(cs: Seq<char>) -> Seq<char> {
    if cs.len() > 0 && cs[0] == '+' {
        cs.drop_first()
    } else {
        cs
    }
}

/// Every character is an ASCII digit.
pub open spec fn all_char_digits(d: Seq<char>) -> bool {
    forall|i: int| 0 <= i < d.len() ==> '0' <= #[trigger] d[i] <= '9'
}

/// The number a run of ASCII digits denotes.
pub open spec fn char_digits_value(d: Seq<char>) -> int
    decreases d.len(),
{
    if d.len() == 0 {
        0
    } else {
        char_digits_value(d.drop_last()) * 10 + (d.last() as int - 48)
    }
}

/// A number no larger than `max` written as text, optionally with surrounding
/// whitespace removed first (`str::trim` then `str::parse`, or `str::parse` alone).
pub open spec fn spec_parse_text_number(text: Seq<char>, trim: bool, max: int) -> Option<int> {
    parse_unsigned_chars(if trim { trim_ws(text) } else { text }, max)
}

/// Reads a number written as text (see `spec_parse_text_number`).
pub fn parse_text_number(text: &str, trim: bool, max: u64) -> (res: Option<u64>)
    ensures
        match res {
            Some(v) => spec_parse_text_number(text@, trim, max as int) == Some(v as int),
            None => spec_parse_text_number(text@, trim, max as int) is None,
        },
{
    let cs = chars_of(text);
    let n = cs.len();
    let mut a: usize = 0;
    let mut b: usize = n;
    if trim {
        proof { lemma_first_non_ws_range(cs@, 0); }
        while a < n && char_is_whitespace(cs[a])
            invariant
                n == cs@.len(),
                0 <= a <= n,
                first_non_ws(cs@, 0) == first_non_ws(cs@, a as int),
            decreases n - a,
        {
            a = a + 1;
        }
        proof { lemma_last_non_ws_range(cs@, a as int, n as int); }
        while b > a && char_is_whitespace(cs[b - 1])
            invariant
                n == cs@.len(),
                a <= b <= n,
                a == first_non_ws(cs@, 0),
                last_non_ws_end(cs@, a as int, n as int) == last_non_ws_end(cs@, a as int, b as int),
            decreases b,
        {
            b = b - 1;
        }
    }
    let ghost t = cs@.subrange(a as int, b as int);
    assert(t == (if trim { trim_ws(text@) } else { text@ }));
    let mut start = a;
    if start < b && cs[start] == '+' {
        start = start + 1;
    }
    let ghost d = without_plus(t);
    assert(d =~= cs@.subrange(start as int, b as int));
    if start >= b {
        return None;
    }
    let mut value: u128 = 0;
    let mut i = start;
    while i < b
        invariant
            n == cs@.len(),
            start <= i <= b <= n,
            d =~= cs@.subrange(start as int, b as int),
            d == without_plus(t),
            t == (if trim { trim_ws(text@) } else { text@ }),
            forall|k: int| 0 <= k < i - start ==> '0' <= #[trigger] d[k] <= '9',
            value as int == char_digits_value(d.subrange(0, i - start)),
            value <= max,
        decreases b - i,
    {
        let c = cs[i];
        if !('0' <= c && c <= '9') {
            assert(d[i - start] == c);
            assert(!('0' <= d[i - start] <= '9'));
            assert(!all_char_digits(d));
            return None;
        }
        let digit = (c as u32 - 48) as u128;
        let ghost prefix = d.subrange(0, i + 1 - start);
        assert(prefix.drop_last() =~= d.subrange(0, i - start));
        assert(prefix.last() == c);
        value = value * 10 + digit;
        assert(value as int == char_digits_value(prefix));
        if value > max as u128 {
            proof {
                lemma_char_digits_monotone(d, i + 1 - start);
            }
            return None;
        }
        i = i + 1;
    }
    assert(d.subrange(0, b - start) =~= d);
    Some(value as u64)
}

/// The tool version published on the server: the text trimmed and read as a `u32`.
pub open spec fn spec_remote_version(text: Seq<char>) -> Option<int> {
    spec_parse_text_number(text, true, u32::MAX as int)
}

/// Reads the published tool version (see `spec_remote_version`).
pub fn parse_remote_version(text: &str) -> (res: Option<u32>)
    ensures
        match res {
            Some(v) => spec_remote_version(text@) == Some(v as int),
            None => spec_remote_version(text@) is None,
        },
{
    match parse_text_number(text, true, 0xffff_ffff) {
        Some(v) => Some(v as u32),
        None => None,
    }
}

proof fn lemma_char_digits_monotone(d: Seq<char>, i: int)
    requires
        0 <= i <= d.len(),
    ensures
        (forall|k: int| 0 <= k < d.len() ==> '0' <= #[trigger] d[k] <= '9')
            ==> char_digits_value(d.subrange(0, i)) <= char_digits_value(d),
    decreases d.len() - i,
{
    if forall|k: int| 0 <= k < d.len() ==> '0' <= #[trigger] d[k] <= '9' {
        if i < d.len() {
            lemma_char_digits_monotone(d, i + 1);
            assert(d.subrange(0, i + 1).drop_last() =~= d.subrange(0, i));
            assert(d.subrange(0, i + 1).last() == d[i]);
            lemma_char_digits_nonneg(d.subrange(0, i));
        } else {
            assert(d.subrange(0, i) =~= d);
        }
    }
}

proof fn lemma_char_digits_nonneg(d: Seq<char>)
    requires
        forall|k: int| 0 <= k < d.len() ==> '0' <= #[trigger] d[k] <= '9',
    ensures
        0 <= char_digits_value(d),
    decreases d.len(),
{
    if d.len() > 0 {
        let p = d.drop_last();
        assert forall|k: int| 0 <= k < p.len() implies '0' <= #[trigger] p[k] <= '9' by {
            assert(p[k] == d[k]);
        }
        lemma_char_digits_nonneg(p);
        assert('0' <= d[d.len() - 1]);
    }
}

/// Whether the running tool is at least as new as the published one.
pub fn is_latest_version(local_version: u32, remote_version: u32) -> (res: bool)
    ensures
        res == (local_version >= remote_version),
{
    local_version >= remote_version
}

} // verus!
