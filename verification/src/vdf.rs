//! A parser for Valve's text KeyValues format (`.vdf` / `.acf` files).
//!
//! A document is one key followed by its value. A value is either a string or an
//! object: `{`, any number of key/value pairs, `}`. Strings are quoted (`"..."`, where
//! `\n`, `\t`, `\\` and `\"` are escapes and any other backslash pair is kept as it is)
//! or bare (a run of bytes other than whitespace, `"`, `{` and `}`). Whitespace and
//! `//` comments may stand between tokens. Strings are kept as raw bytes.

use vstd::prelude::*;

verus! {

/// The model of a parsed value.
pub enum SpecVdf {
    Str(Seq<u8>),
    Obj(Seq<(Seq<u8>, SpecVdf)>),
}

/// A parsed value: a string or an object of key/value pairs in file order.
#[derive(Debug)]
pub enum VdfValue {
    Str(Vec<u8>),
    Obj(Vec<VdfPair>),
}

/// One key/value pair of an object.
#[derive(Debug)]
pub struct VdfPair {
    pub key: Vec<u8>,
    pub value: VdfValue,
}

impl VdfValue {
    /// The model of the value.
    pub open spec fn spec_view(&self) -> SpecVdf
        decreases self,
    {
        match self {
            VdfValue::Str(s) => SpecVdf::Str(s@),
            VdfValue::Obj(v) => SpecVdf::Obj(
                Seq::new(
                    v@.len(),
                    |i: int|
                        if 0 <= i < v@.len() {
                            (v@[i].key@, v@[i].value.spec_view())
                        } else {
                            (Seq::empty(), SpecVdf::Str(Seq::empty()))
                        },
                ),
            ),
        }
    }
}

impl View for VdfValue {
    type V = SpecVdf;

    open spec fn view(&self) -> SpecVdf {
        self.spec_view()
    }
}

/// The model of a sequence of pairs.
pub open spec fn pairs_view(ps: Seq<VdfPair>) -> Seq<(Seq<u8>, SpecVdf)> {
    Seq::new(ps.len(), |i: int| (ps[i].key@, ps[i].value@))
}

/// An object's model is the model of its pairs.
pub proof fn lemma_obj_view(v: Vec<VdfPair>)
    ensures
        VdfValue::Obj(v)@ == SpecVdf::Obj(pairs_view(v@)),
{
    let a = VdfValue::Obj(v)@;
    assert(a->Obj_0 =~= pairs_view(v@));
}

/// Whitespace between tokens.
pub open spec fn is_vdf_space(b: u8) -> bool {
    b == 0x20 || b == 0x09 || b == 0x0a || b == 0x0d || b == 0x0b || b == 0x0c
}

/// A byte that may stand in a bare (unquoted) string.
pub open spec fn is_bare(b: u8) -> bool {
    !is_vdf_space(b) && b != 0x22 && b != 0x7b && b != 0x7d
}

/// The first index at or after `i` that is neither whitespace nor part of a `//`
/// comment (which runs to the end of its line). `in_comment`: `i` is inside a comment.
pub open spec fn skip_space(s: Seq<u8>, i: int, in_comment: bool) -> int
    decreases s.len() - i,
{
    if i < 0 || i >= s.len() {
        i
    } else if in_comment {
        skip_space(s, i + 1, s[i] != 0x0a)
    } else if is_vdf_space(s[i]) {
        skip_space(s, i + 1, false)
    } else if i + 1 < s.len() && s[i] == 0x2f && s[i + 1] == 0x2f {
        skip_space(s, i + 2, true)
    } else {
        i
    }
}

/// The bytes a backslash escape stands for.
pub open spec fn unescape(c: u8) -> Seq<u8> {
    if c == 0x6e {
        seq![0x0au8]
    } else if c == 0x74 {
        seq![0x09u8]
    } else if c == 0x5c {
        seq![0x5cu8]
    } else if c == 0x22 {
        seq![0x22u8]
    } else {
        seq![0x5cu8, c]
    }
}

/// The rest of a quoted string from `j` (just after the opening quote or an earlier
/// part), given the contents `acc` so far: the contents and the index after the
/// closing quote, or `None` if the string never closes.
pub open spec fn quoted_body(s: Seq<u8>, j: int, acc: Seq<u8>) -> Option<(Seq<u8>, int)>
    decreases s.len() - j,
{
    if j < 0 || j >= s.len() {
        None
    } else if s[j] == 0x22 {
        Some((acc, j + 1))
    } else if s[j] == 0x5c {
        if j + 1 >= s.len() {
            None
        } else {
            quoted_body(s, j + 2, acc + unescape(s[j + 1]))
        }
    } else {
        quoted_body(s, j + 1, acc.push(s[j]))
    }
}

/// The end of the bare string that starts at `i`.
pub open spec fn bare_end(s: Seq<u8>, i: int) -> int
    decreases s.len() - i,
{
    if i < 0 || i >= s.len() || !is_bare(s[i]) {
        i
    } else {
        bare_end(s, i + 1)
    }
}

/// The string token at `i` and the index after it.
pub open spec fn parse_string(s: Seq<u8>, i: int) -> Option<(Seq<u8>, int)> {
    if 0 <= i < s.len() && s[i] == 0x22 {
        quoted_body(s, i + 1, Seq::empty())
    } else if 0 <= i < s.len() && is_bare(s[i]) {
        Some((s.subrange(i, bare_end(s, i)), bare_end(s, i)))
    } else {
        None
    }
}

/// The value that starts at `i` (a string, or an object when `s[i]` is `{`) and the
/// index after it.
pub open spec fn parse_value(s: Seq<u8>, i: int) -> Option<(SpecVdf, int)>
    decreases s.len() - i, 1int,
{
    if 0 <= i < s.len() && s[i] == 0x7b {
        match parse_pairs(s, i + 1, Seq::empty()) {
            Some((ps, e)) => Some((SpecVdf::Obj(ps), e)),
            None => None,
        }
    } else {
        match parse_string(s, i) {
            Some((t, e)) => Some((SpecVdf::Str(t), e)),
            None => None,
        }
    }
}

/// The pairs of an object from `i` up to its closing `}`, after the pairs `acc` read
/// so far, and the index after the `}`.
pub open spec fn parse_pairs(s: Seq<u8>, i: int, acc: Seq<(Seq<u8>, SpecVdf)>) -> Option<(Seq<(Seq<u8>, SpecVdf)>, int)>
    decreases s.len() - i, 0int,
{
    let j = skip_space(s, i, false);
    if i < 0 || j < i || j >= s.len() {
        None
    } else if s[j] == 0x7d {
        Some((acc, j + 1))
    } else {
        match parse_string(s, j) {
            None => None,
            Some((k, e)) => {
                let v0 = skip_space(s, e, false);
                if i < v0 <= s.len() {
                    match parse_value(s, v0) {
                        None => None,
                        Some((v, m)) => if i < m <= s.len() {
                            parse_pairs(s, m, acc.push((k, v)))
                        } else {
                            None
                        },
                    }
                } else {
                    None
                }
            },
        }
    }
}

/// A whole document: its top-level key and value, with nothing but whitespace and
/// comments after them.
pub open spec fn parse_document(s: Seq<u8>) -> Option<(Seq<u8>, SpecVdf)> {
    let i = skip_space(s, 0, false);
    match parse_string(s, i) {
        None => None,
        Some((k, e)) => match parse_value(s, skip_space(s, e, false)) {
            None => None,
            Some((v, m)) => if skip_space(s, m, false) == s.len() {
                Some((k, v))
            } else {
                None
            },
        },
    }
}

proof fn lemma_skip_space_range(s: Seq<u8>, i: int, in_comment: bool)
    requires
        0 <= i <= s.len(),
    ensures
        i <= skip_space(s, i, in_comment) <= s.len(),
    decreases s.len() - i,
{
    if i < s.len() {
        if in_comment {
            lemma_skip_space_range(s, i + 1, s[i] != 0x0a);
        } else if is_vdf_space(s[i]) {
            lemma_skip_space_range(s, i + 1, false);
        } else if i + 1 < s.len() && s[i] == 0x2f && s[i + 1] == 0x2f {
            lemma_skip_space_range(s, i + 2, true);
        }
    }
}

/// The first index at or after `i` that is not whitespace or comment.
pub fn skip_ws(s: &[u8], i: usize) -> (res: usize)
    requires
        i <= s@.len(),
    ensures
        res as int == skip_space(s@, i as int, false),
        i <= res <= s@.len(),
{
    let len = s.len();
    let mut j = i;
    let mut in_comment = false;
    while j < len
        invariant
            len == s@.len(),
            i <= j <= len,
            skip_space(s@, i as int, false) == skip_space(s@, j as int, in_comment),
        decreases len - j,
    {
        if in_comment {
            in_comment = s[j] != 0x0a;
            j = j + 1;
        } else if s[j] == 0x20 || s[j] == 0x09 || s[j] == 0x0a || s[j] == 0x0d || s[j] == 0x0b || s[j] == 0x0c {
            j = j + 1;
        } else if j + 1 < len && s[j] == 0x2f && s[j + 1] == 0x2f {
            in_comment = true;
            j = j + 2;
        } else {
            return j;
        }
    }
    j
}

proof fn lemma_quoted_body_range(s: Seq<u8>, j: int, acc: Seq<u8>)
    requires
        0 <= j,
    ensures
        quoted_body(s, j, acc) matches Some((_, e)) ==> j < e <= s.len(),
    decreases s.len() - j,
{
    if 0 <= j < s.len() && s[j] != 0x22 {
        if s[j] == 0x5c {
            if j + 1 < s.len() {
                lemma_quoted_body_range(s, j + 2, acc + unescape(s[j + 1]));
            }
        } else {
            lemma_quoted_body_range(s, j + 1, acc.push(s[j]));
        }
    }
}

proof fn lemma_bare_end_range(s: Seq<u8>, i: int)
    requires
        0 <= i <= s.len(),
    ensures
        i <= bare_end(s, i) <= s.len(),
        forall|k: int| i <= k < bare_end(s, i) ==> is_bare(#[trigger] s[k]),
    decreases s.len() - i,
{
    if i < s.len() && is_bare(s[i]) {
        lemma_bare_end_range(s, i + 1);
    }
}

/// The string token at `i`.
pub fn parse_string_token(s: &[u8], i: usize) -> (res: Option<(Vec<u8>, usize)>)
    requires
        i <= s@.len(),
    ensures
        match res {
            Some((t, e)) => parse_string(s@, i as int) == Some((t@, e as int)) && i < e <= s@.len(),
            None => parse_string(s@, i as int) is None,
        },
{
    let len = s.len();
    if i >= len {
        return None;
    }
    if s[i] == 0x22 {
        let mut out: Vec<u8> = Vec::new();
        let mut j = i + 1;
        proof {
            lemma_quoted_body_range(s@, j as int, out@);
        }
        while j < len
            invariant
                len == s@.len(),
                i < j <= len,
                parse_string(s@, i as int) == quoted_body(s@, j as int, out@),
            decreases len - j,
        {
            let b = s[j];
            if b == 0x22 {
                return Some((out, j + 1));
            } else if b == 0x5c {
                if j + 1 >= len {
                    return None;
                }
                let c = s[j + 1];
                let ghost before = out@;
                if c == 0x6e {
                    out.push(0x0a);
                } else if c == 0x74 {
                    out.push(0x09);
                } else if c == 0x5c {
                    out.push(0x5c);
                } else if c == 0x22 {
                    out.push(0x22);
                } else {
                    out.push(0x5c);
                    out.push(c);
                }
                assert(out@ =~= before + unescape(c));
                j = j + 2;
            } else {
                out.push(b);
                j = j + 1;
            }
        }
        None
    } else if s[i] != 0x20 && s[i] != 0x09 && s[i] != 0x0a && s[i] != 0x0d && s[i] != 0x0b && s[i] != 0x0c
        && s[i] != 0x7b && s[i] != 0x7d {
        let mut j = i;
        while j < len && s[j] != 0x20 && s[j] != 0x09 && s[j] != 0x0a && s[j] != 0x0d && s[j] != 0x0b
            && s[j] != 0x0c && s[j] != 0x22 && s[j] != 0x7b && s[j] != 0x7d
            invariant
                len == s@.len(),
                i <= j <= len,
                bare_end(s@, i as int) == bare_end(s@, j as int),
            decreases len - j,
        {
            j = j + 1;
        }
        let t = vstd::slice::slice_to_vec(vstd::slice::slice_subrange(s, i, j));
        Some((t, j))
    } else {
        None
    }
}

/// The value that starts at `i` (see `parse_value`).
pub fn parse_value_at(s: &[u8], i: usize) -> (res: Option<(VdfValue, usize)>)
    requires
        i <= s@.len(),
    ensures
        match res {
            Some((v, e)) => parse_value(s@, i as int) == Some((v@, e as int)) && i < e <= s@.len(),
            None => parse_value(s@, i as int) is None,
        },
    decreases s@.len() - i, 1int,
{
    if i < s.len() && s[i] == 0x7b {
        match parse_object_body(s, i + 1) {
            Some((ps, e)) => {
                proof {
                    lemma_obj_view(ps);
                }
                Some((VdfValue::Obj(ps), e))
            },
            None => None,
        }
    } else {
        match parse_string_token(s, i) {
            Some((t, e)) => Some((VdfValue::Str(t), e)),
            None => None,
        }
    }
}

/// The pairs of an object from `i` (just after its `{`) up to its closing `}`.
pub fn parse_object_body(s: &[u8], i: usize) -> (res: Option<(Vec<VdfPair>, usize)>)
    requires
        i <= s@.len(),
    ensures
        match res {
            Some((ps, e)) => parse_pairs(s@, i as int, Seq::empty()) == Some((pairs_view(ps@), e as int))
                && i < e <= s@.len(),
            None => parse_pairs(s@, i as int, Seq::empty()) is None,
        },
    decreases s@.len() - i, 0int,
{
    let len = s.len();
    let mut pos = i;
    let mut acc: Vec<VdfPair> = Vec::new();
    assert(pairs_view(acc@) =~= Seq::<(Seq<u8>, SpecVdf)>::empty());
    loop
        invariant
            len == s@.len(),
            i <= pos <= len,
            parse_pairs(s@, i as int, Seq::empty()) == parse_pairs(s@, pos as int, pairs_view(acc@)),
        decreases len - pos,
    {
        let j = skip_ws(s, pos);
        if j >= len {
            return None;
        }
        if s[j] == 0x7d {
            return Some((acc, j + 1));
        }
        let (k, e) = match parse_string_token(s, j) {
            None => return None,
            Some(t) => t,
        };
        let v0 = skip_ws(s, e);
        let (v, m) = match parse_value_at(s, v0) {
            None => return None,
            Some(r) => r,
        };
        let ghost before = pairs_view(acc@);
        let ghost kv = k@;
        let ghost vv = v@;
        acc.push(VdfPair { key: k, value: v });
        assert(pairs_view(acc@) =~= before.push((kv, vv)));
        pos = m;
    }
}

/// Parses a whole document into its top-level key and value (see `parse_document`).
pub fn parse_vdf(s: &[u8]) -> (res: Option<(Vec<u8>, VdfValue)>)
    ensures
        match res {
            Some((k, v)) => parse_document(s@) == Some((k@, v@)),
            None => parse_document(s@) is None,
        },
{
    let i = skip_ws(s, 0);
    let (k, e) = match parse_string_token(s, i) {
        None => return None,
        Some(t) => t,
    };
    let v0 = skip_ws(s, e);
    let (v, m) = match parse_value_at(s, v0) {
        None => return None,
        Some(r) => r,
    };
    if skip_ws(s, m) == s.len() {
        Some((k, v))
    } else {
        None
    }
}

/// The bytes that stand for one content byte inside a quoted string: `"` and `\` are
/// written with a backslash before them, every other byte stands for itself.
pub open spec fn escape_byte(b: u8) -> Seq<u8> {
    if b == 0x22 || b == 0x5c {
        seq![0x5cu8, b]
    } else {
        seq![b]
    }
}

/// The escaped form of a string's contents.
pub open spec fn escape(t: Seq<u8>) -> Seq<u8>
    decreases t.len(),
{
    if t.len() == 0 {
        Seq::empty()
    } else {
        escape_byte(t[0]) + escape(t.drop_first())
    }
}

/// A string written as a quoted token.
pub open spec fn quote(t: Seq<u8>) -> Seq<u8> {
    seq![0x22u8] + escape(t) + seq![0x22u8]
}

/// The canonical text of a value: strings quoted, objects as `{`, each pair as a space,
/// the quoted key, a space and the value, then ` }`.
pub open spec fn render_value(v: SpecVdf) -> Seq<u8>
    decreases v, 1int,
{
    match v {
        SpecVdf::Str(t) => quote(t),
        SpecVdf::Obj(ps) => seq![0x7bu8] + render_pairs(ps) + seq![0x20u8, 0x7du8],
    }
}

/// The canonical text of an object's pairs.
pub open spec fn render_pairs(ps: Seq<(Seq<u8>, SpecVdf)>) -> Seq<u8>
    decreases ps, 0int,
{
    if ps.len() == 0 {
        Seq::empty()
    } else {
        seq![0x20u8] + quote(ps[0].0) + seq![0x20u8] + render_value(ps[0].1) + render_pairs(ps.drop_first())
    }
}

/// The canonical text of a document: the quoted key, a space and the value.
pub open spec fn render_document(k: Seq<u8>, v: SpecVdf) -> Seq<u8> {
    quote(k) + seq![0x20u8] + render_value(v)
}

/// `s` holds `r` from index `j` on.
pub open spec fn placed(s: Seq<u8>, j: int, r: Seq<u8>) -> bool {
    &&& 0 <= j
    &&& j + r.len() <= s.len()
    &&& forall|k: int| 0 <= k < r.len() ==> s[j + k] == #[trigger] r[k]
}

proof fn lemma_placed_split(s: Seq<u8>, j: int, a: Seq<u8>, b: Seq<u8>)
    requires
        placed(s, j, a + b),
    ensures
        placed(s, j, a),
        placed(s, j + a.len(), b),
{
    assert forall|k: int| 0 <= k < a.len() implies s[j + k] == #[trigger] a[k] by {
        assert((a + b)[k] == a[k]);
    }
    assert forall|k: int| 0 <= k < b.len() implies s[j + a.len() + k] == #[trigger] b[k] by {
        assert((a + b)[a.len() + k] == b[k]);
        assert(s[j + (a.len() + k)] == (a + b)[a.len() + k]);
    }
}

proof fn lemma_placed_join(s: Seq<u8>, j: int, a: Seq<u8>, b: Seq<u8>)
    requires
        placed(s, j, a),
        placed(s, j + a.len(), b),
    ensures
        placed(s, j, a + b),
{
    assert forall|k: int| 0 <= k < (a + b).len() implies s[j + k] == #[trigger] (a + b)[k] by {
        if k < a.len() {
            assert(s[j + k] == a[k]);
        } else {
            assert(s[j + a.len() + (k - a.len())] == b[k - a.len()]);
        }
    }
}

/// A quoted body written with `escape` and closed by `"` reads back as its contents.
proof fn lemma_quoted_body_escape(s: Seq<u8>, j: int, acc: Seq<u8>, t: Seq<u8>)
    requires
        placed(s, j, escape(t)),
        j + escape(t).len() < s.len(),
        s[j + escape(t).len()] == 0x22,
    ensures
        quoted_body(s, j, acc) == Some((acc + t, j + escape(t).len() + 1)),
    decreases t.len(),
{
    if t.len() == 0 {
        assert(acc + t =~= acc);
    } else {
        let b = t[0];
        let rest = t.drop_first();
        assert(escape(t) == escape_byte(b) + escape(rest));
        lemma_placed_split(s, j, escape_byte(b), escape(rest));
        let w = escape_byte(b).len();
        assert(s[j + 0] == escape_byte(b)[0]);
        if b == 0x22 || b == 0x5c {
            assert(s[j + 1] == escape_byte(b)[1]);
            assert(unescape(b) == seq![b]);
            lemma_quoted_body_escape(s, j + 2, acc + seq![b], rest);
        } else {
            lemma_quoted_body_escape(s, j + 1, acc.push(b), rest);
            assert(acc.push(b) == acc + seq![b]);
        }
        assert(acc + seq![b] + rest =~= acc + t);
    }
}

/// A quoted token reads back as its contents.
proof fn lemma_parse_quote(s: Seq<u8>, i: int, t: Seq<u8>)
    requires
        placed(s, i, quote(t)),
    ensures
        parse_string(s, i) == Some((t, i + quote(t).len())),
{
    lemma_placed_split(s, i, seq![0x22u8] + escape(t), seq![0x22u8]);
    lemma_placed_split(s, i, seq![0x22u8], escape(t));
    assert(s[i + 0] == seq![0x22u8][0]);
    assert(s[i + 1 + escape(t).len() + 0] == seq![0x22u8][0]);
    lemma_quoted_body_escape(s, i + 1, Seq::empty(), t);
    assert(Seq::<u8>::empty() + t =~= t);
}

/// Every canonical value starts with `"` or `{`.
proof fn lemma_render_value_start(v: SpecVdf)
    ensures
        render_value(v).len() > 0,
        render_value(v)[0] == 0x22 || render_value(v)[0] == 0x7b,
{
}

/// At a space followed by `"`, `{` or `}`, whitespace skipping stops just after the space.
proof fn lemma_skip_one_space(s: Seq<u8>, j: int)
    requires
        0 <= j,
        j + 1 < s.len(),
        s[j] == 0x20,
        s[j + 1] == 0x22 || s[j + 1] == 0x7b || s[j + 1] == 0x7d,
    ensures
        skip_space(s, j, false) == j + 1,
{
    assert(skip_space(s, j + 1, false) == j + 1);
}

/// A canonical value reads back as itself.
proof fn lemma_parse_rendered_value(s: Seq<u8>, i: int, v: SpecVdf)
    requires
        placed(s, i, render_value(v)),
    ensures
        parse_value(s, i) == Some((v, i + render_value(v).len())),
    decreases v, 1int,
{
    match v {
        SpecVdf::Str(t) => {
            assert(s[i + 0] == quote(t)[0]);
            lemma_parse_quote(s, i, t);
        },
        SpecVdf::Obj(ps) => {
            let rp = render_pairs(ps);
            let close = seq![0x20u8, 0x7du8];
            lemma_placed_split(s, i, seq![0x7bu8] + rp, close);
            lemma_placed_split(s, i, seq![0x7bu8], rp);
            assert(s[i + 0] == seq![0x7bu8][0]);
            lemma_placed_join(s, i + 1, rp, close);
            lemma_parse_rendered_pairs(s, i + 1, Seq::empty(), ps);
            assert(Seq::<(Seq<u8>, SpecVdf)>::empty() + ps =~= ps);
        },
    }
}

/// Canonical pairs followed by ` }` read back as those pairs, after the ones read so far.
proof fn lemma_parse_rendered_pairs(s: Seq<u8>, j: int, acc: Seq<(Seq<u8>, SpecVdf)>, ps: Seq<(Seq<u8>, SpecVdf)>)
    requires
        placed(s, j, render_pairs(ps) + seq![0x20u8, 0x7du8]),
    ensures
        parse_pairs(s, j, acc) == Some((acc + ps, j + render_pairs(ps).len() + 2)),
    decreases ps, 0int,
{
    let close = seq![0x20u8, 0x7du8];
    let rp = render_pairs(ps);
    lemma_placed_split(s, j, rp, close);
    if ps.len() == 0 {
        assert(s[j + 0 + 0] == close[0]);
        assert(s[j + 0 + 1] == close[1]);
        lemma_skip_one_space(s, j);
        assert(acc + ps =~= acc);
    } else {
        let k = ps[0].0;
        let v = ps[0].1;
        let rest = ps.drop_first();
        let sp = seq![0x20u8];
        let rv = render_value(v);
        let rr = render_pairs(rest);
        assert(rp == sp + quote(k) + sp + rv + rr);
        lemma_placed_split(s, j, sp + quote(k) + sp + rv, rr);
        lemma_placed_split(s, j, sp + quote(k) + sp, rv);
        lemma_placed_split(s, j, sp + quote(k), sp);
        lemma_placed_split(s, j, sp, quote(k));
        let e = j + 1 + quote(k).len();
        let m = e + 1 + rv.len();
        assert(s[j + 0] == sp[0]);
        assert(s[j + 1 + 0] == quote(k)[0]);
        lemma_skip_one_space(s, j);
        lemma_parse_quote(s, j + 1, k);
        assert(s[e + 0] == sp[0]);
        lemma_render_value_start(v);
        assert(s[e + 1 + 0] == rv[0]);
        lemma_skip_one_space(s, e);
        lemma_parse_rendered_value(s, e + 1, v);
        lemma_placed_join(s, m, rr, close);
        lemma_parse_rendered_pairs(s, m, acc.push((k, v)), rest);
        assert(acc.push((k, v)) + rest =~= acc + ps);
    }
}

/// Law: the parser reads back exactly what the canonical writer wrote. The document
/// `render_document(k, v)` (every string quoted, with `"` and `\` escaped) parses to the
/// key `k` and the value `v`, for every key and value.
pub proof fn lemma_parse_rendered_document(k: Seq<u8>, v: SpecVdf)
    ensures
        parse_document(render_document(k, v)) == Some((k, v)),
{
    let s = render_document(k, v);
    let sp = seq![0x20u8];
    let rv = render_value(v);
    assert(placed(s, 0, s)) by {
        assert forall|x: int| 0 <= x < s.len() implies s[0 + x] == #[trigger] s[x] by {}
    }
    lemma_placed_split(s, 0, quote(k) + sp, rv);
    lemma_placed_split(s, 0, quote(k), sp);
    let e = quote(k).len() as int;
    assert(s[0int] == quote(k)[0]);
    assert(skip_space(s, 0, false) == 0);
    lemma_parse_quote(s, 0, k);
    assert(s[e + 0] == sp[0]);
    lemma_render_value_start(v);
    assert(s[e + 1 + 0] == rv[0]);
    lemma_skip_one_space(s, e);
    lemma_parse_rendered_value(s, e + 1, v);
    assert(skip_space(s, s.len() as int, false) == s.len());
}

} // verus!
