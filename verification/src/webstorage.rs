//! Removing the `WebStorage` section from a Steam user's `localconfig.vdf`.
//!
//! The section can be huge and deeply nested, so it is cut out before the file is
//! parsed. Quoted values may hold unbalanced brackets (Overlay page titles, Lua code),
//! so brackets are only counted outside strings, and a backslash escapes the next byte.

use vstd::prelude::*;
use vstd::utf8::*;
use vstd::string::{StringExecFns, StringSliceAdditionalSpecFns};
use crate::text::lemma_encode_utf8_concat;

verus! {

broadcast use vstd::utf8::group_utf8_lib;

/// The byte offsets `(start, end)` of the first match of the regular expression
/// `pattern` in `haystack`, as the `regex` crate finds it, or `None` when there is
/// no match or the pattern does not compile.
pub uninterp spec fn regex_first_match(pattern: Seq<char>, haystack: Seq<char>) -> Option<(usize, usize)>;

/// Compiles `pattern` with `regex::Regex::new` and calls `Regex::find` on `haystack`.
/// Claimed: the result is the named first match; a compile error gives `None`; and,
/// as the `Match::start`/`Match::end` documentation guarantees, `start <= end`, both
/// offsets lie within the haystack's UTF-8 bytes and on character boundaries.
#[verifier::external_body]
fn regex_find(pattern: &str, haystack: &str) -> (res: Option<(usize, usize)>)
    ensures
        res == regex_first_match(pattern@, haystack@),
        res matches Some((s, e)) ==> s <= e <= haystack.spec_bytes().len()
            && is_char_boundary(haystack.spec_bytes(), s as int)
            && is_char_boundary(haystack.spec_bytes(), e as int),
{
    match regex::Regex::new(pattern) {
        Ok(re) => match re.find(haystack) {
            Some(m) => Some((m.start(), m.end())),
            None => None,
        },
        Err(_) => None,
    }
}

/// The pattern that finds the `WebStorage` key and the bracket that opens its section.
pub open spec fn webstorage_pattern() -> Seq<char> {
    "WebStorage.+\\s+\\{"@
}

/// Scanning `bytes` from index `i` with one section bracket open (`count` of them open
/// in total), the index of the `}` that closes the section, if any. A byte after an
/// unconsumed backslash is skipped; `"` toggles being inside a string; brackets only
/// count outside strings.
pub open spec fn scan_close(bytes: Seq<u8>, i: int, escaped: bool, in_string: bool, count: int) -> Option<int>
    decreases bytes.len() - i,
{
    if i < 0 || i >= bytes.len() {
        None
    } else if escaped {
        scan_close(bytes, i + 1, false, in_string, count)
    } else if bytes[i] == 0x5c {
        scan_close(bytes, i + 1, true, in_string, count)
    } else if bytes[i] == 0x22 {
        scan_close(bytes, i + 1, false, !in_string, count)
    } else if in_string {
        scan_close(bytes, i + 1, false, true, count)
    } else {
        let c = if bytes[i] == 0x7b {
            count + 1
        } else if bytes[i] == 0x7d {
            count - 1
        } else {
            count
        };
        if c == 0 {
            Some(i)
        } else {
            scan_close(bytes, i + 1, false, false, c)
        }
    }
}

/// A closing index found by the scan lies in range and holds `}`.
proof fn lemma_scan_close_result(bytes: Seq<u8>, i: int, escaped: bool, in_string: bool, count: int)
    requires
        count >= 1,
    ensures
        scan_close(bytes, i, escaped, in_string, count) matches Some(c) ==> i <= c < bytes.len() && bytes[c] == 0x7d,
    decreases bytes.len() - i,
{
    if 0 <= i < bytes.len() {
        if escaped || bytes[i] == 0x5c || bytes[i] == 0x22 || in_string {
            lemma_scan_close_result(bytes, i + 1, false, if escaped { in_string } else if bytes[i] == 0x22 { !in_string } else { in_string }, count);
            lemma_scan_close_result(bytes, i + 1, true, in_string, count);
        } else {
            let c = if bytes[i] == 0x7b { count + 1 } else if bytes[i] == 0x7d { count - 1 } else { count };
            if c != 0 {
                lemma_scan_close_result(bytes, i + 1, false, false, c);
            }
        }
    }
}

/// The index of the `}` closing the section whose `{` ends just before `open`.
pub fn find_section_close(bytes: &[u8], open: usize) -> (res: Option<usize>)
    ensures
        match res {
            Some(c) => scan_close(bytes@, open as int, false, false, 1) == Some(c as int),
            None => scan_close(bytes@, open as int, false, false, 1) is None,
        },
{
    let len = bytes.len();
    let mut i: usize = open;
    let mut escaped = false;
    let mut in_string = false;
    let mut count: u128 = 1;
    if i > len {
        return None;
    }
    while i < len
        invariant
            len == bytes@.len(),
            open <= i <= len,
            1 <= count <= i - open + 1,
            scan_close(bytes@, open as int, false, false, 1) == scan_close(bytes@, i as int, escaped, in_string, count as int),
        decreases len - i,
    {
        let b = bytes[i];
        if escaped {
            escaped = false;
        } else if b == 0x5c {
            escaped = true;
        } else if b == 0x22 {
            in_string = !in_string;
        } else if !in_string {
            if b == 0x7b {
                count = count + 1;
            } else if b == 0x7d {
                count = count - 1;
            }
            if count == 0 {
                return Some(i);
            }
        }
        i = i + 1;
    }
    None
}

/// The UTF-8 bytes of `localconfig` with the `WebStorage` section's contents removed:
/// everything after its opening `{` up to (not including) its closing `}`. Unchanged
/// when the pattern does not match or the section never closes.
pub open spec fn spec_strip_localconfig_webstorage(localconfig: Seq<char>) -> Seq<u8> {
    let b = encode_utf8(localconfig);
    match regex_first_match(webstorage_pattern(), localconfig) {
        None => b,
        Some((_, open)) => match scan_close(b, open as int, false, false, 1) {
            None => b,
            Some(close) => b.subrange(0, open as int) + b.subrange(close, b.len() as int),
        },
    }
}

/// Removes the contents of the `WebStorage` section of a `localconfig.vdf`
/// (see `spec_strip_localconfig_webstorage`).
pub fn strip_localconfig_webstorage(localconfig: String) -> (res: String)
    ensures
        encode_utf8(res@) == spec_strip_localconfig_webstorage(localconfig@),
{
    let found = regex_find("WebStorage.+\\s+\\{", localconfig.as_str());
    let open = match found {
        None => return localconfig,
        Some((_, open)) => open,
    };
    let text = localconfig.as_str();
    let bytes = text.as_bytes();
    let ghost b = bytes@;
    let close = match find_section_close(bytes, open) {
        None => return localconfig,
        Some(c) => c,
    };
    proof {
        lemma_scan_close_result(b, open as int, false, false, 1);
        assert(b[close as int] == 0x7d);
        assert(is_leading_byte_width_1(b[close as int]));
        assert(is_char_boundary(b, close as int));
    }
    let (head, _) = text.split_at(open);
    let (_, tail) = text.split_at(close);
    let mut out = String::from_str(head);
    out.append(tail);
    proof {
        lemma_encode_utf8_concat(head@, tail@);
    }
    out
}

} // verus!
