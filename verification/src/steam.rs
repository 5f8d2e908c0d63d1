//! Reading Steam's configuration files: the typed view of `loginusers.vdf`,
//! `libraryfolders.vdf`, `appmanifest_4000.acf`, `config.vdf` and `localconfig.vdf`.
//!
//! Field names follow the files' PascalCase keys and also accept their all-lowercase
//! spelling. The first pair with a matching key wins. Numbers are decimal (an optional
//! leading `+`), booleans are `0` or `1`.

use vstd::prelude::*;
use vstd::utf8::*;
use vstd::string::StringSliceAdditionalSpecFns;
use crate::vdf::{SpecVdf, VdfValue, VdfPair, pairs_view, parse_vdf, parse_document, lemma_obj_view};

verus! {

/// The key bytes for a field name.
pub open spec fn key(name: Seq<char>) -> Seq<u8> {
    encode_utf8(name)
}

/// The value of the first pair whose key is `name` or `alias`.
pub open spec fn field(pairs: Seq<(Seq<u8>, SpecVdf)>, name: Seq<u8>, alias: Seq<u8>) -> Option<SpecVdf>
    decreases pairs.len(),
{
    if pairs.len() == 0 {
        None
    } else if pairs[0].0 == name || pairs[0].0 == alias {
        Some(pairs[0].1)
    } else {
        field(pairs.drop_first(), name, alias)
    }
}

/// The text of a string value that is valid UTF-8.
pub open spec fn as_text(v: SpecVdf) -> Option<Seq<char>> {
    match v {
        SpecVdf::Str(b) => if valid_utf8(b) { Some(decode_utf8(b)) } else { None },
        SpecVdf::Obj(_) => None,
    }
}

/// Whether every byte is an ASCII digit.
pub open spec fn all_digits(b: Seq<u8>) -> bool {
    forall|i: int| 0 <= i < b.len() ==> 0x30 <= #[trigger] b[i] <= 0x39
}

/// The number that a run of ASCII digits denotes.
pub open spec fn digits_value(b: Seq<u8>) -> int
    decreases b.len(),
{
    if b.len() == 0 {
        0
    } else {
        digits_value(b.drop_last()) * 10 + (b.last() - 0x30)
    }
}

/// An unsigned decimal number no larger than `max`: an optional `+`, then digits.
pub open spec fn parse_unsigned(b: Seq<u8>, max: int) -> Option<int> {
    let d = if b.len() > 0 && b[0] == 0x2b { b.drop_first() } else { b };
    if d.len() > 0 && all_digits(d) && digits_value(d) <= max {
        Some(digits_value(d))
    } else {
        None
    }
}

/// The number held by a string value.
pub open spec fn as_number(v: SpecVdf, max: int) -> Option<int> {
    match v {
        SpecVdf::Str(b) => parse_unsigned(b, max),
        SpecVdf::Obj(_) => None,
    }
}

/// The boolean held by a string value: `1` or `0`.
pub open spec fn as_bool(v: SpecVdf) -> Option<bool> {
    match v {
        SpecVdf::Str(b) => if b == seq![0x31u8] { Some(true) } else if b == seq![0x30u8] { Some(false) } else { None },
        SpecVdf::Obj(_) => None,
    }
}

/// A required text field.
pub open spec fn req_text(ps: Seq<(Seq<u8>, SpecVdf)>, name: Seq<char>, alias: Seq<char>) -> Option<Seq<char>> {
    match field(ps, key(name), key(alias)) {
        Some(v) => as_text(v),
        None => None,
    }
}

/// An optional text field: `Some(None)` when absent, `None` when present but not text.
pub open spec fn opt_text(ps: Seq<(Seq<u8>, SpecVdf)>, name: Seq<char>, alias: Seq<char>) -> Option<Option<Seq<char>>> {
    match field(ps, key(name), key(alias)) {
        Some(v) => match as_text(v) {
            Some(t) => Some(Some(t)),
            None => None,
        },
        None => Some(None),
    }
}

/// A required number field no larger than `max`.
pub open spec fn req_number(ps: Seq<(Seq<u8>, SpecVdf)>, name: Seq<char>, alias: Seq<char>, max: int) -> Option<int> {
    match field(ps, key(name), key(alias)) {
        Some(v) => as_number(v, max),
        None => None,
    }
}

/// A number field that is 0 when absent.
pub open spec fn default_number(ps: Seq<(Seq<u8>, SpecVdf)>, name: Seq<char>, alias: Seq<char>, max: int) -> Option<int> {
    match field(ps, key(name), key(alias)) {
        Some(v) => as_number(v, max),
        None => Some(0),
    }
}

/// A boolean field that is false when absent.
pub open spec fn default_bool(ps: Seq<(Seq<u8>, SpecVdf)>, name: Seq<char>, alias: Seq<char>) -> Option<bool> {
    match field(ps, key(name), key(alias)) {
        Some(v) => as_bool(v),
        None => Some(false),
    }
}

/// An optional boolean field: `Some(None)` when absent, `None` when present but not a boolean.
pub open spec fn opt_bool(ps: Seq<(Seq<u8>, SpecVdf)>, name: Seq<char>, alias: Seq<char>) -> Option<Option<bool>> {
    match field(ps, key(name), key(alias)) {
        Some(v) => match as_bool(v) {
            Some(b) => Some(Some(b)),
            None => None,
        },
        None => Some(None),
    }
}

/// The pairs of a required object field.
pub open spec fn req_object(ps: Seq<(Seq<u8>, SpecVdf)>, name: Seq<char>, alias: Seq<char>) -> Option<Seq<(Seq<u8>, SpecVdf)>> {
    match field(ps, key(name), key(alias)) {
        Some(SpecVdf::Obj(inner)) => Some(inner),
        _ => None,
    }
}

/// The pairs of an optional object field: `Some(None)` when absent, `None` when present but not an object.
pub open spec fn opt_object(ps: Seq<(Seq<u8>, SpecVdf)>, name: Seq<char>, alias: Seq<char>) -> Option<Option<Seq<(Seq<u8>, SpecVdf)>>> {
    match field(ps, key(name), key(alias)) {
        Some(SpecVdf::Obj(inner)) => Some(Some(inner)),
        Some(SpecVdf::Str(_)) => None,
        None => Some(None),
    }
}

/// Calls `String::from_utf8`. Claimed, as its documentation states: it succeeds exactly
/// when the bytes are valid UTF-8, and the string then holds those bytes.
#[verifier::external_body]
fn string_from_utf8(bytes: Vec<u8>) -> (res: Option<String>)
    ensures
        res is Some <==> valid_utf8(bytes@),
        res matches Some(s) ==> encode_utf8(s@) == bytes@,
{
    match String::from_utf8(bytes) {
        Ok(s) => Some(s),
        Err(_) => None,
    }
}

/// The text of UTF-8 bytes.
pub fn text_of(bytes: &[u8]) -> (res: Option<String>)
    ensures
        res is Some <==> valid_utf8(bytes@),
        res matches Some(s) ==> s@ == decode_utf8(bytes@),
{
    let r = string_from_utf8(vstd::slice::slice_to_vec(bytes));
    proof {
        if r is Some {
            vstd::utf8::encode_utf8_decode_utf8(r->0@);
        }
    }
    r
}

/// The value of the first pair whose key is `name` or `alias`.
pub fn find_field<'a>(pairs: &'a [VdfPair], name: &str, alias: &str) -> (res: Option<&'a VdfValue>)
    ensures
        match res {
            Some(v) => field(pairs_view(pairs@), key(name@), key(alias@)) == Some(v@),
            None => field(pairs_view(pairs@), key(name@), key(alias@)) is None,
        },
{
    let n = name.as_bytes();
    let a = alias.as_bytes();
    let ghost pv = pairs_view(pairs@);
    let mut i: usize = 0;
    assert(pv.subrange(0, pv.len() as int) =~= pv);
    while i < pairs.len()
        invariant
            pv == pairs_view(pairs@),
            0 <= i <= pairs@.len(),
            n@ == key(name@),
            a@ == key(alias@),
            field(pv, n@, a@) == field(pv.subrange(i as int, pv.len() as int), n@, a@),
        decreases pairs@.len() - i,
    {
        let ghost rest = pv.subrange(i as int, pv.len() as int);
        assert(rest[0] == pv[i as int]);
        assert(rest.drop_first() =~= pv.subrange(i + 1, pv.len() as int));
        if crate::text::bytes_eq(pairs[i].key.as_slice(), n) || crate::text::bytes_eq(pairs[i].key.as_slice(), a) {
            return Some(&pairs[i].value);
        }
        i = i + 1;
    }
    None
}

proof fn lemma_digits_value_monotone(b: Seq<u8>, i: int)
    requires
        0 <= i <= b.len(),
        all_digits(b),
    ensures
        digits_value(b.subrange(0, i)) <= digits_value(b),
        0 <= digits_value(b.subrange(0, i)),
    decreases b.len() - i,
{
    if i < b.len() {
        lemma_digits_value_monotone(b, i + 1);
        assert(b.subrange(0, i + 1).drop_last() =~= b.subrange(0, i));
        assert(b.subrange(0, i + 1).last() == b[i]);
    } else {
        assert(b.subrange(0, i) =~= b);
    }
    lemma_digits_value_nonneg(b.subrange(0, i));
}

proof fn lemma_digits_value_nonneg(b: Seq<u8>)
    requires
        all_digits(b),
    ensures
        0 <= digits_value(b),
    decreases b.len(),
{
    if b.len() > 0 {
        assert(all_digits(b.drop_last()));
        lemma_digits_value_nonneg(b.drop_last());
        assert(0x30 <= b[b.len() - 1]);
    }
}

/// An unsigned decimal number no larger than `max` (see `parse_unsigned`).
pub fn parse_number(b: &[u8], max: u64) -> (res: Option<u64>)
    ensures
        match res {
            Some(n) => parse_unsigned(b@, max as int) == Some(n as int),
            None => parse_unsigned(b@, max as int) is None,
        },
{
    let len = b.len();
    let start: usize = if len > 0 && b[0] == 0x2b { 1 } else { 0 };
    let ghost d = if b@.len() > 0 && b@[0] == 0x2b { b@.drop_first() } else { b@ };
    assert(d =~= b@.subrange(start as int, len as int));
    if start >= len {
        return None;
    }
    let mut value: u64 = 0;
    let mut i: usize = start;
    while i < len
        invariant
            len == b@.len(),
            start <= i <= len,
            d =~= b@.subrange(start as int, len as int),
            d == (if b@.len() > 0 && b@[0] == 0x2b { b@.drop_first() } else { b@ }),
            all_digits(d.subrange(0, i - start)),
            value as int == digits_value(d.subrange(0, i - start)),
            value <= max,
        decreases len - i,
    {
        let c = b[i];
        if c < 0x30 || c > 0x39 {
            assert(d[i - start] == c);
            assert(!all_digits(d));
            return None;
        }
        let digit = (c - 0x30) as u64;
        let ghost prefix = d.subrange(0, i + 1 - start);
        assert(prefix.drop_last() =~= d.subrange(0, i - start));
        assert(prefix.last() == c);
        assert(all_digits(prefix));
        if digit > max || value > (max - digit) / 10 {
            assert(digits_value(prefix) > max) by (nonlinear_arith)
                requires
                    digits_value(prefix) == value * 10 + digit,
                    value >= 0,
                    digit > max || value > (max - digit) / 10,
            {
            }
            proof {
                if all_digits(d) {
                    lemma_digits_value_monotone(d, i + 1 - start);
                }
            }
            return None;
        }
        assert(value * 10 + digit <= max) by (nonlinear_arith)
            requires
                value <= (max - digit) / 10,
                digit <= max,
        {
        }
        value = value * 10 + digit;
        i = i + 1;
    }
    assert(d.subrange(0, len - start) =~= d);
    Some(value)
}

/// The text of a string value (see `as_text`).
pub fn value_text(v: &VdfValue) -> (res: Option<String>)
    ensures
        match res {
            Some(t) => as_text(v@) == Some(t@),
            None => as_text(v@) is None,
        },
{
    match v {
        VdfValue::Str(b) => text_of(b.as_slice()),
        VdfValue::Obj(_) => None,
    }
}

/// The number held by a string value (see `as_number`).
pub fn value_number(v: &VdfValue, max: u64) -> (res: Option<u64>)
    ensures
        match res {
            Some(n) => as_number(v@, max as int) == Some(n as int),
            None => as_number(v@, max as int) is None,
        },
{
    match v {
        VdfValue::Str(b) => parse_number(b.as_slice(), max),
        VdfValue::Obj(_) => None,
    }
}

/// The boolean held by a string value (see `as_bool`).
pub fn value_bool(v: &VdfValue) -> (res: Option<bool>)
    ensures
        res == as_bool(v@),
{
    match v {
        VdfValue::Str(b) => {
            if b.len() == 1 && b[0] == 0x31 {
                assert(b@ =~= seq![0x31u8]);
                Some(true)
            } else if b.len() == 1 && b[0] == 0x30 {
                assert(b@ =~= seq![0x30u8]);
                Some(false)
            } else {
                assert(b@ != seq![0x31u8]);
                assert(b@ != seq![0x30u8]);
                None
            }
        },
        VdfValue::Obj(_) => None,
    }
}

/// A Steam account listed in `loginusers.vdf`.
#[derive(Debug)]
pub struct SteamUser {
    pub account_name: String,
    pub persona_name: String,
    pub most_recent: bool,
    pub timestamp: u64,
}

/// The model of a `SteamUser`.
pub struct SpecSteamUser {
    pub account_name: Seq<char>,
    pub persona_name: Seq<char>,
    pub most_recent: bool,
    pub timestamp: u64,
}

impl View for SteamUser {
    type V = SpecSteamUser;

    open spec fn view(&self) -> SpecSteamUser {
        SpecSteamUser {
            account_name: self.account_name@,
            persona_name: self.persona_name@,
            most_recent: self.most_recent,
            timestamp: self.timestamp,
        }
    }
}

/// A user entry: `AccountName` and `PersonaName` are required, `MostRecent` defaults
/// to false and `Timestamp` to 0.
pub open spec fn spec_steam_user(v: SpecVdf) -> Option<SpecSteamUser> {
    match v {
        SpecVdf::Obj(ps) => match (
            req_text(ps, "AccountName"@, "accountname"@),
            req_text(ps, "PersonaName"@, "personaname"@),
            default_bool(ps, "MostRecent"@, "mostrecent"@),
            default_number(ps, "Timestamp"@, "timestamp"@, u64::MAX as int),
        ) {
            (Some(a), Some(p), Some(m), Some(t)) => Some(SpecSteamUser {
                account_name: a,
                persona_name: p,
                most_recent: m,
                timestamp: t as u64,
            }),
            _ => None,
        },
        SpecVdf::Str(_) => None,
    }
}

/// Reads one user entry (see `spec_steam_user`).
pub fn steam_user_from(v: &VdfValue) -> (res: Option<SteamUser>)
    ensures
        match res {
            Some(u) => spec_steam_user(v@) == Some(u@),
            None => spec_steam_user(v@) is None,
        },
{
    let ps = match v {
        VdfValue::Obj(ps) => ps,
        VdfValue::Str(_) => return None,
    };
    proof {
        lemma_obj_view(*ps);
    }
    let account_name = match find_field(ps.as_slice(), "AccountName", "accountname") {
        Some(f) => match value_text(f) {
            Some(t) => t,
            None => return None,
        },
        None => return None,
    };
    let persona_name = match find_field(ps.as_slice(), "PersonaName", "personaname") {
        Some(f) => match value_text(f) {
            Some(t) => t,
            None => return None,
        },
        None => return None,
    };
    let most_recent = match find_field(ps.as_slice(), "MostRecent", "mostrecent") {
        Some(f) => match value_bool(f) {
            Some(b) => b,
            None => return None,
        },
        None => false,
    };
    let timestamp = match find_field(ps.as_slice(), "Timestamp", "timestamp") {
        Some(f) => match value_number(f, u64::MAX) {
            Some(n) => n,
            None => return None,
        },
        None => 0,
    };
    Some(SteamUser { account_name, persona_name, most_recent, timestamp })
}

/// Every pair of an object read with `f`, keys as text, in file order; `None` if any
/// key is not UTF-8 or any value is rejected by `f`.
pub open spec fn entries_of<T>(ps: Seq<(Seq<u8>, SpecVdf)>, f: spec_fn(SpecVdf) -> Option<T>) -> Option<Seq<(Seq<char>, T)>>
    decreases ps.len(),
{
    if ps.len() == 0 {
        Some(Seq::empty())
    } else {
        match entries_of(ps.drop_last(), f) {
            None => None,
            Some(es) => match (as_text(SpecVdf::Str(ps.last().0)), f(ps.last().1)) {
                (Some(k), Some(t)) => Some(es.push((k, t))),
                _ => None,
            },
        }
    }
}

proof fn lemma_entries_of_prefix_none<T>(ps: Seq<(Seq<u8>, SpecVdf)>, i: int, f: spec_fn(SpecVdf) -> Option<T>)
    requires
        0 <= i <= ps.len(),
        entries_of(ps.subrange(0, i), f) is None,
    ensures
        entries_of(ps, f) is None,
    decreases ps.len() - i,
{
    if i < ps.len() {
        assert(ps.subrange(0, i + 1).drop_last() =~= ps.subrange(0, i));
        lemma_entries_of_prefix_none(ps, i + 1, f);
    } else {
        assert(ps.subrange(0, i) =~= ps);
    }
}

/// The model of a list of named users.
pub open spec fn users_view(us: Seq<(String, SteamUser)>) -> Seq<(Seq<char>, SpecSteamUser)> {
    us.map_values(|e: (String, SteamUser)| (e.0@, e.1@))
}

/// The users of a `loginusers.vdf` document, keyed by SteamID64, in file order.
pub open spec fn spec_login_users(text: Seq<u8>) -> Option<Seq<(Seq<char>, SpecSteamUser)>> {
    match parse_document(text) {
        Some((_, SpecVdf::Obj(ps))) => entries_of(ps, |v: SpecVdf| spec_steam_user(v)),
        _ => None,
    }
}

/// Parses `loginusers.vdf` (see `spec_login_users`).
pub fn parse_login_users(text: &str) -> (res: Option<Vec<(String, SteamUser)>>)
    ensures
        match res {
            Some(us) => spec_login_users(text.spec_bytes()) == Some(users_view(us@)),
            None => spec_login_users(text.spec_bytes()) is None,
        },
{
    let bytes = text.as_bytes();
    let ps = match parse_vdf(bytes) {
        Some((_, VdfValue::Obj(ps))) => ps,
        _ => return None,
    };
    proof {
        lemma_obj_view(ps);
    }
    let ghost f = |v: SpecVdf| spec_steam_user(v);
    let ghost pv = pairs_view(ps@);
    let mut out: Vec<(String, SteamUser)> = Vec::new();
    let mut i: usize = 0;
    while i < ps.len()
        invariant
            pv == pairs_view(ps@),
            f == (|v: SpecVdf| spec_steam_user(v)),
            spec_login_users(text.spec_bytes()) == entries_of(pv, f),
            0 <= i <= ps@.len(),
            entries_of(pv.subrange(0, i as int), f) == Some(users_view(out@)),
        decreases ps@.len() - i,
    {
        let ghost pre = pv.subrange(0, i as int);
        assert(pv.subrange(0, i + 1).drop_last() =~= pre);
        assert(pv.subrange(0, i + 1).last() == pv[i as int]);
        assert(pv[i as int].0 == ps@[i as int].key@);
        assert(pv[i as int].1 == ps@[i as int].value@);
        let k = match text_of(ps[i].key.as_slice()) {
            Some(k) => k,
            None => {
                assert(as_text(SpecVdf::Str(pv[i as int].0)) is None);
                assert(entries_of(pv.subrange(0, i + 1), f) is None);
                proof { lemma_entries_of_prefix_none(pv, i + 1, f); }
                return None;
            },
        };
        let u = match steam_user_from(&ps[i].value) {
            Some(u) => u,
            None => {
                assert(f(pv[i as int].1) is None);
                assert(entries_of(pv.subrange(0, i + 1), f) is None);
                proof { lemma_entries_of_prefix_none(pv, i + 1, f); }
                return None;
            },
        };
        let ghost before = users_view(out@);
        let ghost entry = (k@, u@);
        out.push((k, u));
        assert(users_view(out@) =~= before.push(entry));
        i = i + 1;
    }
    assert(pv.subrange(0, pv.len() as int) =~= pv);
    Some(out)
}

/// The index of the user the tool works with: a `MostRecent` user replaces any earlier
/// pick; otherwise a strictly newer `Timestamp` replaces an earlier pick that was not
/// `MostRecent`. Users are taken in file order.
pub open spec fn chosen_user(us: Seq<SpecSteamUser>) -> Option<int>
    decreases us.len(),
{
    if us.len() == 0 {
        None
    } else {
        let n = us.len() - 1;
        let u = us[n];
        match chosen_user(us.drop_last()) {
            None => Some(n),
            Some(p) => if u.most_recent || (!us[p].most_recent && u.timestamp > us[p].timestamp) {
                Some(n)
            } else {
                Some(p)
            },
        }
    }
}

/// The users of a list of named users.
pub open spec fn user_models(us: Seq<(Seq<char>, SpecSteamUser)>) -> Seq<SpecSteamUser> {
    us.map_values(|e: (Seq<char>, SpecSteamUser)| e.1)
}

/// Picks the Steam user to patch for (see `chosen_user`).
pub fn select_steam_user(users: &[(String, SteamUser)]) -> (res: Option<usize>)
    ensures
        match res {
            Some(i) => chosen_user(user_models(users_view(users@))) == Some(i as int),
            None => chosen_user(user_models(users_view(users@))) is None,
        },
{
    let ghost all = user_models(users_view(users@));
    let mut pick: Option<usize> = None;
    let mut i: usize = 0;
    while i < users.len()
        invariant
            all == user_models(users_view(users@)),
            all.len() == users@.len(),
            0 <= i <= users@.len(),
            match pick {
                Some(p) => chosen_user(all.subrange(0, i as int)) == Some(p as int) && p < i,
                None => chosen_user(all.subrange(0, i as int)) is None && i == 0,
            },
        decreases users@.len() - i,
    {
        let ghost pre = all.subrange(0, i as int + 1);
        assert(pre.drop_last() =~= all.subrange(0, i as int));
        assert(pre[i as int] == all[i as int]);
        assert(all[i as int] == users@[i as int].1@);
        let u = &users[i].1;
        match pick {
            None => {
                pick = Some(i);
            },
            Some(p) => {
                assert(pre[p as int] == all[p as int]);
                assert(all[p as int] == users@[p as int].1@);
                let cur = &users[p].1;
                if u.most_recent || (!cur.most_recent && u.timestamp > cur.timestamp) {
                    pick = Some(i);
                }
            },
        }
        i = i + 1;
    }
    assert(all.subrange(0, all.len() as int) =~= all);
    pick
}

/// The choice lies in range, and exists for every non-empty list.
pub proof fn lemma_chosen_user_in_range(us: Seq<SpecSteamUser>)
    ensures
        chosen_user(us) is Some <==> us.len() > 0,
        chosen_user(us) matches Some(p) ==> 0 <= p < us.len(),
    decreases us.len(),
{
    if us.len() > 0 {
        lemma_chosen_user_in_range(us.drop_last());
    }
}

/// Law: a user marked `MostRecent` always wins: when any user is marked, the chosen
/// user is marked, and no later user is.
pub proof fn lemma_most_recent_user_wins(us: Seq<SpecSteamUser>, j: int)
    requires
        0 <= j < us.len(),
        us[j].most_recent,
    ensures
        chosen_user(us) matches Some(p) && us[p].most_recent
            && forall|k: int| p < k < us.len() ==> !(#[trigger] us[k]).most_recent,
    decreases us.len(),
{
    let n = us.len() - 1;
    let prev = us.drop_last();
    lemma_chosen_user_in_range(prev);
    if j == n {
    } else {
        lemma_most_recent_user_wins(prev, j);
        let p = chosen_user(prev).unwrap();
        assert(prev[p] == us[p]);
        assert forall|k: int| p < k < n implies !(#[trigger] us[k]).most_recent by {
            assert(prev[k] == us[k]);
        }
    }
}

/// Law: without any `MostRecent` user, the chosen user has the newest timestamp, and
/// is the first of the users sharing it.
pub proof fn lemma_newest_user_wins(us: Seq<SpecSteamUser>)
    requires
        us.len() > 0,
        forall|k: int| 0 <= k < us.len() ==> !(#[trigger] us[k]).most_recent,
    ensures
        chosen_user(us) matches Some(p)
            && (forall|k: int| 0 <= k < us.len() ==> (#[trigger] us[k]).timestamp <= us[p].timestamp)
            && (forall|k: int| 0 <= k < p ==> (#[trigger] us[k]).timestamp < us[p].timestamp),
    decreases us.len(),
{
    let n = us.len() - 1;
    let prev = us.drop_last();
    if n > 0 {
        assert forall|k: int| 0 <= k < prev.len() implies !(#[trigger] prev[k]).most_recent by {
            assert(prev[k] == us[k]);
        }
        lemma_newest_user_wins(prev);
        lemma_chosen_user_in_range(prev);
        let p = chosen_user(prev).unwrap();
        assert(prev[p] == us[p]);
        assert forall|k: int| 0 <= k < n implies (#[trigger] us[k]).timestamp <= us[p].timestamp by {
            assert(prev[k] == us[k]);
        }
        assert forall|k: int| 0 <= k < p implies (#[trigger] us[k]).timestamp < us[p].timestamp by {
            assert(prev[k] == us[k]);
        }
    }
}

/// The account ID of a SteamID64: its low 32 bits, as `steamid` computes it.
/// Calls `steamid::SteamId::from_u64` and `SteamId::get_account_id`; claimed, as the
/// source shows (`(self.0 & 0xFFFFFFFF) as u32`), that the result is `id` modulo 2^32.
#[verifier::external_body]
fn account_id_of(id: u64) -> (res: u32)
    ensures
        res as int == id as int % 0x1_0000_0000,
{
    steamid::SteamId::from_u64(id).get_account_id()
}

/// The account ID (the `userdata` directory name) of a SteamID64 written in decimal.
pub open spec fn spec_steam_account_id(steam_id64: Seq<char>) -> Option<int> {
    match parse_unsigned(encode_utf8(steam_id64), u64::MAX as int) {
        Some(n) => Some(n % 0x1_0000_0000),
        None => None,
    }
}

/// The account ID of a decimal SteamID64 (see `spec_steam_account_id`).
pub fn steam_account_id(steam_id64: &str) -> (res: Option<u32>)
    ensures
        match res {
            Some(a) => spec_steam_account_id(steam_id64@) == Some(a as int),
            None => spec_steam_account_id(steam_id64@) is None,
        },
{
    match parse_number(steam_id64.as_bytes(), u64::MAX) {
        Some(n) => Some(account_id_of(n)),
        None => None,
    }
}

/// An entry of `libraryfolders.vdf`: a library folder (an object with a `path`) or
/// anything else the file carries at that level (such as `contentstatsid`).
#[derive(Debug)]
pub enum SteamLibraryFolderEntry {
    Folder(SteamLibraryFolder),
    Other,
}

/// A Steam library folder.
#[derive(Debug)]
pub struct SteamLibraryFolder {
    pub path: String,
}

/// The model of a library entry: the folder's path, or `None` for other entries.
pub open spec fn library_entry_view(e: SteamLibraryFolderEntry) -> Option<Seq<char>> {
    match e {
        SteamLibraryFolderEntry::Folder(f) => Some(f.path@),
        SteamLibraryFolderEntry::Other => None,
    }
}

/// A value read as a library entry: an object with a text `Path` is a folder.
pub open spec fn spec_library_entry(v: SpecVdf) -> Option<Seq<char>> {
    match v {
        SpecVdf::Obj(ps) => req_text(ps, "Path"@, "path"@),
        SpecVdf::Str(_) => None,
    }
}

/// Reads one library entry (see `spec_library_entry`).
pub fn library_entry_from(v: &VdfValue) -> (res: SteamLibraryFolderEntry)
    ensures
        library_entry_view(res) == spec_library_entry(v@),
{
    let ps = match v {
        VdfValue::Obj(ps) => ps,
        VdfValue::Str(_) => return SteamLibraryFolderEntry::Other,
    };
    proof {
        lemma_obj_view(*ps);
    }
    match find_field(ps.as_slice(), "Path", "path") {
        Some(f) => match value_text(f) {
            Some(path) => SteamLibraryFolderEntry::Folder(SteamLibraryFolder { path }),
            None => SteamLibraryFolderEntry::Other,
        },
        None => SteamLibraryFolderEntry::Other,
    }
}

/// The model of a list of named library entries.
pub open spec fn library_view(es: Seq<(String, SteamLibraryFolderEntry)>) -> Seq<(Seq<char>, Option<Seq<char>>)> {
    es.map_values(|e: (String, SteamLibraryFolderEntry)| (e.0@, library_entry_view(e.1)))
}

/// The entries of a `libraryfolders.vdf` document, in file order.
pub open spec fn spec_library_folders(text: Seq<u8>) -> Option<Seq<(Seq<char>, Option<Seq<char>>)>> {
    match parse_document(text) {
        Some((_, SpecVdf::Obj(ps))) => entries_of(ps, |v: SpecVdf| Some(spec_library_entry(v))),
        _ => None,
    }
}

/// Parses `libraryfolders.vdf` (see `spec_library_folders`).
pub fn parse_library_folders(text: &str) -> (res: Option<Vec<(String, SteamLibraryFolderEntry)>>)
    ensures
        match res {
            Some(es) => spec_library_folders(text.spec_bytes()) == Some(library_view(es@)),
            None => spec_library_folders(text.spec_bytes()) is None,
        },
{
    let bytes = text.as_bytes();
    let ps = match parse_vdf(bytes) {
        Some((_, VdfValue::Obj(ps))) => ps,
        _ => return None,
    };
    proof {
        lemma_obj_view(ps);
    }
    let ghost f = |v: SpecVdf| Some(spec_library_entry(v));
    let ghost pv = pairs_view(ps@);
    let mut out: Vec<(String, SteamLibraryFolderEntry)> = Vec::new();
    let mut i: usize = 0;
    while i < ps.len()
        invariant
            pv == pairs_view(ps@),
            f == (|v: SpecVdf| Some(spec_library_entry(v))),
            spec_library_folders(text.spec_bytes()) == entries_of(pv, f),
            0 <= i <= ps@.len(),
            entries_of(pv.subrange(0, i as int), f) == Some(library_view(out@)),
        decreases ps@.len() - i,
    {
        let ghost pre = pv.subrange(0, i as int);
        assert(pv.subrange(0, i + 1).drop_last() =~= pre);
        assert(pv.subrange(0, i + 1).last() == pv[i as int]);
        assert(pv[i as int].0 == ps@[i as int].key@);
        assert(pv[i as int].1 == ps@[i as int].value@);
        let k = match text_of(ps[i].key.as_slice()) {
            Some(k) => k,
            None => {
                assert(as_text(SpecVdf::Str(pv[i as int].0)) is None);
                assert(entries_of(pv.subrange(0, i + 1), f) is None);
                proof { lemma_entries_of_prefix_none(pv, i + 1, f); }
                return None;
            },
        };
        let e = library_entry_from(&ps[i].value);
        let ghost before = library_view(out@);
        let ghost entry = (k@, library_entry_view(e));
        out.push((k, e));
        assert(library_view(out@) =~= before.push(entry));
        i = i + 1;
    }
    assert(pv.subrange(0, pv.len() as int) =~= pv);
    Some(out)
}

/// The installation state of an app, from its `appmanifest_<appid>.acf`.
#[derive(Debug)]
pub struct SteamAppManifest {
    pub state_flags: u32,
    pub install_dir: String,
    pub bytes_to_download: u64,
    pub bytes_downloaded: u64,
    pub bytes_to_stage: u64,
    pub bytes_staged: u64,
    pub scheduled_auto_update: u64,
    pub full_validate_before_next_update: Option<bool>,
    pub beta_key: Option<String>,
}

/// The model of an app manifest.
pub struct SpecAppManifest {
    pub state_flags: u32,
    pub install_dir: Seq<char>,
    pub bytes_to_download: u64,
    pub bytes_downloaded: u64,
    pub bytes_to_stage: u64,
    pub bytes_staged: u64,
    pub scheduled_auto_update: u64,
    pub full_validate_before_next_update: Option<bool>,
    pub beta_key: Option<Seq<char>>,
}

/// The model of an optional text.
pub open spec fn opt_text_view(t: Option<String>) -> Option<Seq<char>> {
    match t {
        Some(s) => Some(s@),
        None => None,
    }
}

impl View for SteamAppManifest {
    type V = SpecAppManifest;

    open spec fn view(&self) -> SpecAppManifest {
        SpecAppManifest {
            state_flags: self.state_flags,
            install_dir: self.install_dir@,
            bytes_to_download: self.bytes_to_download,
            bytes_downloaded: self.bytes_downloaded,
            bytes_to_stage: self.bytes_to_stage,
            bytes_staged: self.bytes_staged,
            scheduled_auto_update: self.scheduled_auto_update,
            full_validate_before_next_update: self.full_validate_before_next_update,
            beta_key: opt_text_view(self.beta_key),
        }
    }
}

/// An app manifest document: `StateFlags`, `InstallDir`, `ScheduledAutoUpdate` and the
/// `MountedConfig` object are required; the byte counters default to 0;
/// `FullValidateBeforeNextUpdate` and `MountedConfig.BetaKey` are optional.
pub open spec fn spec_app_manifest(text: Seq<u8>) -> Option<SpecAppManifest> {
    match parse_document(text) {
        Some((_, SpecVdf::Obj(ps))) => match (
            req_number(ps, "StateFlags"@, "stateflags"@, u32::MAX as int),
            req_text(ps, "InstallDir"@, "installdir"@),
            default_number(ps, "BytesToDownload"@, "bytestodownload"@, u64::MAX as int),
            default_number(ps, "BytesDownloaded"@, "bytesdownloaded"@, u64::MAX as int),
            default_number(ps, "BytesToStage"@, "bytestostage"@, u64::MAX as int),
            default_number(ps, "BytesStaged"@, "bytesstaged"@, u64::MAX as int),
            req_number(ps, "ScheduledAutoUpdate"@, "scheduledautoupdate"@, u64::MAX as int),
            opt_bool(ps, "FullValidateBeforeNextUpdate"@, "fullvalidatebeforenextupdate"@),
        ) {
            (Some(sf), Some(dir), Some(td), Some(d), Some(ts), Some(st), Some(sau), Some(fv)) =>
                match req_object(ps, "MountedConfig"@, "mountedconfig"@) {
                    Some(mc) => match opt_text(mc, "BetaKey"@, "betakey"@) {
                        Some(bk) => Some(SpecAppManifest {
                            state_flags: sf as u32,
                            install_dir: dir,
                            bytes_to_download: td as u64,
                            bytes_downloaded: d as u64,
                            bytes_to_stage: ts as u64,
                            bytes_staged: st as u64,
                            scheduled_auto_update: sau as u64,
                            full_validate_before_next_update: fv,
                            beta_key: bk,
                        }),
                        None => None,
                    },
                    None => None,
                },
            _ => None,
        },
        _ => None,
    }
}

/// `i` is the first pair whose key is `name` or `alias`.
pub open spec fn first_key_at(ps: Seq<(Seq<u8>, SpecVdf)>, i: int, name: Seq<u8>, alias: Seq<u8>) -> bool {
    &&& 0 <= i < ps.len()
    &&& (ps[i].0 == name || ps[i].0 == alias)
    &&& forall|j: int| 0 <= j < i ==> ps[j].0 != name && ps[j].0 != alias
}

/// `n` is the number written (in decimal, at most `max`) as the value of the first pair
/// keyed `name` or `alias`; or, when `optional`, no pair has either key and `n` is 0.
pub open spec fn number_under_key(ps: Seq<(Seq<u8>, SpecVdf)>, name: Seq<char>, alias: Seq<char>, max: int, optional: bool, n: int) -> bool {
    let kn = encode_utf8(name);
    let ka = encode_utf8(alias);
    ||| exists|i: int| #[trigger] first_key_at(ps, i, kn, ka)
            && (ps[i].1 matches SpecVdf::Str(b) && parse_unsigned(b, max) == Some(n))
    ||| optional && n == 0 && forall|i: int| 0 <= i < ps.len() ==> (#[trigger] ps[i]).0 != kn && ps[i].0 != ka
}

/// The first pair with either key is the one `field` finds.
proof fn lemma_field_first(ps: Seq<(Seq<u8>, SpecVdf)>, name: Seq<u8>, alias: Seq<u8>)
    ensures
        field(ps, name, alias) matches Some(v) ==> exists|i: int| #[trigger] first_key_at(ps, i, name, alias) && ps[i].1 == v,
        field(ps, name, alias) is None ==> forall|i: int| 0 <= i < ps.len() ==> (#[trigger] ps[i]).0 != name && ps[i].0 != alias,
    decreases ps.len(),
{
    if ps.len() > 0 {
        if ps[0].0 == name || ps[0].0 == alias {
            assert(first_key_at(ps, 0, name, alias));
        } else {
            let rest = ps.drop_first();
            lemma_field_first(rest, name, alias);
            match field(rest, name, alias) {
                Some(v) => {
                    let i = choose|i: int| #[trigger] first_key_at(rest, i, name, alias) && rest[i].1 == v;
                    assert forall|j: int| 0 <= j < i + 1 implies ps[j].0 != name && ps[j].0 != alias by {
                        if j > 0 {
                            assert(ps[j] == rest[j - 1]);
                        }
                    }
                    assert(ps[i + 1] == rest[i]);
                    assert(first_key_at(ps, i + 1, name, alias));
                },
                None => {
                    assert forall|i: int| 0 <= i < ps.len() implies (#[trigger] ps[i]).0 != name && ps[i].0 != alias by {
                        if i > 0 {
                            assert(ps[i] == rest[i - 1]);
                        }
                    }
                },
            }
        }
    }
}

/// A number field read through `req_number` or `default_number` is the number under its
/// own key.
proof fn lemma_number_field(ps: Seq<(Seq<u8>, SpecVdf)>, name: Seq<char>, alias: Seq<char>, max: int, optional: bool, n: int)
    requires
        (!optional && req_number(ps, name, alias, max) == Some(n))
            || (optional && default_number(ps, name, alias, max) == Some(n)),
    ensures
        number_under_key(ps, name, alias, max, optional, n),
{
    lemma_field_first(ps, key(name), key(alias));
}

/// Law: every number of a parsed app manifest is the number written under its own key
/// (`StateFlags`, `BytesToDownload`, `BytesDownloaded`, `BytesToStage`, `BytesStaged`,
/// `ScheduledAutoUpdate`, or their lowercase forms), taken from the first pair with that
/// key; the byte counters are 0 when their key is absent, the others must be present.
pub proof fn lemma_app_manifest_numbers(text: Seq<u8>)
    requires
        spec_app_manifest(text) is Some,
    ensures
        parse_document(text) matches Some((_, SpecVdf::Obj(ps))) && {
            let m = spec_app_manifest(text).unwrap();
            &&& number_under_key(ps, "StateFlags"@, "stateflags"@, u32::MAX as int, false, m.state_flags as int)
            &&& number_under_key(ps, "BytesToDownload"@, "bytestodownload"@, u64::MAX as int, true, m.bytes_to_download as int)
            &&& number_under_key(ps, "BytesDownloaded"@, "bytesdownloaded"@, u64::MAX as int, true, m.bytes_downloaded as int)
            &&& number_under_key(ps, "BytesToStage"@, "bytestostage"@, u64::MAX as int, true, m.bytes_to_stage as int)
            &&& number_under_key(ps, "BytesStaged"@, "bytesstaged"@, u64::MAX as int, true, m.bytes_staged as int)
            &&& number_under_key(ps, "ScheduledAutoUpdate"@, "scheduledautoupdate"@, u64::MAX as int, false, m.scheduled_auto_update as int)
        },
{
    let ps = parse_document(text).unwrap().1->Obj_0;
    let m = spec_app_manifest(text).unwrap();
    let sf = req_number(ps, "StateFlags"@, "stateflags"@, u32::MAX as int).unwrap();
    let td = default_number(ps, "BytesToDownload"@, "bytestodownload"@, u64::MAX as int).unwrap();
    let d = default_number(ps, "BytesDownloaded"@, "bytesdownloaded"@, u64::MAX as int).unwrap();
    let ts = default_number(ps, "BytesToStage"@, "bytestostage"@, u64::MAX as int).unwrap();
    let st = default_number(ps, "BytesStaged"@, "bytesstaged"@, u64::MAX as int).unwrap();
    let sau = req_number(ps, "ScheduledAutoUpdate"@, "scheduledautoupdate"@, u64::MAX as int).unwrap();
    lemma_number_bound(ps, "StateFlags"@, "stateflags"@, u32::MAX as int, false);
    lemma_number_bound(ps, "BytesToDownload"@, "bytestodownload"@, u64::MAX as int, true);
    lemma_number_bound(ps, "BytesDownloaded"@, "bytesdownloaded"@, u64::MAX as int, true);
    lemma_number_bound(ps, "BytesToStage"@, "bytestostage"@, u64::MAX as int, true);
    lemma_number_bound(ps, "BytesStaged"@, "bytesstaged"@, u64::MAX as int, true);
    lemma_number_bound(ps, "ScheduledAutoUpdate"@, "scheduledautoupdate"@, u64::MAX as int, false);
    assert(m.state_flags as int == sf);
    assert(m.bytes_to_download as int == td);
    assert(m.bytes_downloaded as int == d);
    assert(m.bytes_to_stage as int == ts);
    assert(m.bytes_staged as int == st);
    assert(m.scheduled_auto_update as int == sau);
    lemma_number_field(ps, "StateFlags"@, "stateflags"@, u32::MAX as int, false, sf);
    lemma_number_field(ps, "BytesToDownload"@, "bytestodownload"@, u64::MAX as int, true, td);
    lemma_number_field(ps, "BytesDownloaded"@, "bytesdownloaded"@, u64::MAX as int, true, d);
    lemma_number_field(ps, "BytesToStage"@, "bytestostage"@, u64::MAX as int, true, ts);
    lemma_number_field(ps, "BytesStaged"@, "bytesstaged"@, u64::MAX as int, true, st);
    lemma_number_field(ps, "ScheduledAutoUpdate"@, "scheduledautoupdate"@, u64::MAX as int, false, sau);
}

/// The number under a key is determined by the document: two readings agree.
pub proof fn lemma_number_under_key_unique(ps: Seq<(Seq<u8>, SpecVdf)>, name: Seq<char>, alias: Seq<char>, max: int, optional: bool, n1: int, n2: int)
    requires
        number_under_key(ps, name, alias, max, optional, n1),
        number_under_key(ps, name, alias, max, optional, n2),
    ensures
        n1 == n2,
{
    let kn = encode_utf8(name);
    let ka = encode_utf8(alias);
    let has1 = exists|i: int| #[trigger] first_key_at(ps, i, kn, ka)
            && (ps[i].1 matches SpecVdf::Str(b) && parse_unsigned(b, max) == Some(n1));
    let has2 = exists|i: int| #[trigger] first_key_at(ps, i, kn, ka)
            && (ps[i].1 matches SpecVdf::Str(b) && parse_unsigned(b, max) == Some(n2));
    if has1 && has2 {
        let i1 = choose|i: int| #[trigger] first_key_at(ps, i, kn, ka)
            && (ps[i].1 matches SpecVdf::Str(b) && parse_unsigned(b, max) == Some(n1));
        let i2 = choose|i: int| #[trigger] first_key_at(ps, i, kn, ka)
            && (ps[i].1 matches SpecVdf::Str(b) && parse_unsigned(b, max) == Some(n2));
        if i1 < i2 {
            assert(ps[i1].0 != kn && ps[i1].0 != ka);
        } else if i2 < i1 {
            assert(ps[i2].0 != kn && ps[i2].0 != ka);
        }
    } else if has1 {
        let i1 = choose|i: int| #[trigger] first_key_at(ps, i, kn, ka)
            && (ps[i].1 matches SpecVdf::Str(b) && parse_unsigned(b, max) == Some(n1));
        assert(ps[i1].0 != kn && ps[i1].0 != ka);
    } else if has2 {
        let i2 = choose|i: int| #[trigger] first_key_at(ps, i, kn, ka)
            && (ps[i].1 matches SpecVdf::Str(b) && parse_unsigned(b, max) == Some(n2));
        assert(ps[i2].0 != kn && ps[i2].0 != ka);
    }
}

/// A number read through `req_number` or `default_number` lies in `0..=max`.
proof fn lemma_number_bound(ps: Seq<(Seq<u8>, SpecVdf)>, name: Seq<char>, alias: Seq<char>, max: int, optional: bool)
    ensures
        !optional && req_number(ps, name, alias, max) is Some ==>
            0 <= req_number(ps, name, alias, max).unwrap() <= max,
        optional && default_number(ps, name, alias, max) is Some && max >= 0 ==>
            0 <= default_number(ps, name, alias, max).unwrap() <= max,
{
    match field(ps, key(name), key(alias)) {
        Some(SpecVdf::Str(b)) => {
            let dd = if b.len() > 0 && b[0] == 0x2b { b.drop_first() } else { b };
            if parse_unsigned(b, max) is Some {
                lemma_digits_value_nonneg(dd);
            }
        },
        _ => {},
    }
}

/// A required number field (see `req_number`).
fn get_req_number(ps: &[VdfPair], name: &str, alias: &str, max: u64) -> (res: Option<u64>)
    ensures
        match res {
            Some(n) => req_number(pairs_view(ps@), name@, alias@, max as int) == Some(n as int),
            None => req_number(pairs_view(ps@), name@, alias@, max as int) is None,
        },
{
    match find_field(ps, name, alias) {
        Some(f) => value_number(f, max),
        None => None,
    }
}

/// A number field defaulting to 0 (see `default_number`).
fn get_default_number(ps: &[VdfPair], name: &str, alias: &str, max: u64) -> (res: Option<u64>)
    ensures
        match res {
            Some(n) => default_number(pairs_view(ps@), name@, alias@, max as int) == Some(n as int),
            None => default_number(pairs_view(ps@), name@, alias@, max as int) is None,
        },
{
    match find_field(ps, name, alias) {
        Some(f) => value_number(f, max),
        None => Some(0),
    }
}

/// A required text field (see `req_text`).
fn get_req_text(ps: &[VdfPair], name: &str, alias: &str) -> (res: Option<String>)
    ensures
        match res {
            Some(t) => req_text(pairs_view(ps@), name@, alias@) == Some(t@),
            None => req_text(pairs_view(ps@), name@, alias@) is None,
        },
{
    match find_field(ps, name, alias) {
        Some(f) => value_text(f),
        None => None,
    }
}

/// An optional text field (see `opt_text`).
fn get_opt_text(ps: &[VdfPair], name: &str, alias: &str) -> (res: Option<Option<String>>)
    ensures
        match res {
            Some(t) => opt_text(pairs_view(ps@), name@, alias@) == Some(opt_text_view(t)),
            None => opt_text(pairs_view(ps@), name@, alias@) is None,
        },
{
    match find_field(ps, name, alias) {
        Some(f) => match value_text(f) {
            Some(t) => Some(Some(t)),
            None => None,
        },
        None => Some(None),
    }
}

/// An optional object field (see `opt_object`).
fn get_opt_object<'a>(ps: &'a [VdfPair], name: &str, alias: &str) -> (res: Option<Option<&'a Vec<VdfPair>>>)
    ensures
        match res {
            Some(Some(inner)) => opt_object(pairs_view(ps@), name@, alias@) == Some(Some(pairs_view(inner@))),
            Some(None) => opt_object(pairs_view(ps@), name@, alias@) == Some(None::<Seq<(Seq<u8>, SpecVdf)>>),
            None => opt_object(pairs_view(ps@), name@, alias@) is None,
        },
{
    match find_field(ps, name, alias) {
        Some(f) => match f {
            VdfValue::Obj(inner) => {
                proof {
                    lemma_obj_view(*inner);
                }
                Some(Some(inner))
            },
            VdfValue::Str(_) => None,
        },
        None => Some(None),
    }
}

/// Parses an app manifest (see `spec_app_manifest`).
pub fn parse_app_manifest(text: &str) -> (res: Option<SteamAppManifest>)
    ensures
        match res {
            Some(m) => spec_app_manifest(text.spec_bytes()) == Some(m@),
            None => spec_app_manifest(text.spec_bytes()) is None,
        },
{
    let ps = match parse_vdf(text.as_bytes()) {
        Some((_, VdfValue::Obj(ps))) => ps,
        _ => return None,
    };
    proof {
        lemma_obj_view(ps);
    }
    let ps = ps.as_slice();
    let state_flags = match get_req_number(ps, "StateFlags", "stateflags", 0xffff_ffff) {
        Some(n) => n as u32,
        None => return None,
    };
    let install_dir = match get_req_text(ps, "InstallDir", "installdir") {
        Some(t) => t,
        None => return None,
    };
    let bytes_to_download = match get_default_number(ps, "BytesToDownload", "bytestodownload", u64::MAX) {
        Some(n) => n,
        None => return None,
    };
    let bytes_downloaded = match get_default_number(ps, "BytesDownloaded", "bytesdownloaded", u64::MAX) {
        Some(n) => n,
        None => return None,
    };
    let bytes_to_stage = match get_default_number(ps, "BytesToStage", "bytestostage", u64::MAX) {
        Some(n) => n,
        None => return None,
    };
    let bytes_staged = match get_default_number(ps, "BytesStaged", "bytesstaged", u64::MAX) {
        Some(n) => n,
        None => return None,
    };
    let scheduled_auto_update = match get_req_number(ps, "ScheduledAutoUpdate", "scheduledautoupdate", u64::MAX) {
        Some(n) => n,
        None => return None,
    };
    let full_validate_before_next_update = match find_field(ps, "FullValidateBeforeNextUpdate", "fullvalidatebeforenextupdate") {
        Some(f) => match value_bool(f) {
            Some(b) => Some(b),
            None => return None,
        },
        None => None,
    };
    let mounted = match get_opt_object(ps, "MountedConfig", "mountedconfig") {
        Some(Some(inner)) => inner,
        _ => return None,
    };
    let beta_key = match get_opt_text(mounted.as_slice(), "BetaKey", "betakey") {
        Some(t) => t,
        None => return None,
    };
    Some(SteamAppManifest {
        state_flags,
        install_dir,
        bytes_to_download,
        bytes_downloaded,
        bytes_to_stage,
        bytes_staged,
        scheduled_auto_update,
        full_validate_before_next_update,
        beta_key,
    })
}

/// The name of the compatibility tool (Proton, Steam Linux Runtime, ...) that
/// `config.vdf` maps an app to: `Software.Valve.Steam.CompatToolMapping.<appid>.Name`.
/// `Some(None)`: no mapping for the app.
pub open spec fn spec_compat_tool(text: Seq<u8>, appid: Seq<char>) -> Option<Option<Seq<char>>> {
    match parse_document(text) {
        Some((_, SpecVdf::Obj(ps))) => match req_object(ps, "Software"@, "software"@) {
            Some(sw) => match req_object(sw, "Valve"@, "valve"@) {
                Some(valve) => match req_object(valve, "Steam"@, "steam"@) {
                    Some(steam) => match opt_object(steam, "CompatToolMapping"@, "compattoolmapping"@) {
                        Some(Some(mapping)) => match opt_object(mapping, appid, appid) {
                            Some(Some(app)) => match req_text(app, "Name"@, "name"@) {
                                Some(n) => Some(Some(n)),
                                None => None,
                            },
                            Some(None) => Some(None),
                            None => None,
                        },
                        Some(None) => Some(None),
                        None => None,
                    },
                    None => None,
                },
                None => None,
            },
            None => None,
        },
        _ => None,
    }
}

/// Reads the compatibility tool mapped to `appid` from `config.vdf` (see `spec_compat_tool`).
pub fn parse_compat_tool(text: &str, appid: &str) -> (res: Option<Option<String>>)
    ensures
        match res {
            Some(t) => spec_compat_tool(text.spec_bytes(), appid@) == Some(opt_text_view(t)),
            None => spec_compat_tool(text.spec_bytes(), appid@) is None,
        },
{
    let ps = match parse_vdf(text.as_bytes()) {
        Some((_, VdfValue::Obj(ps))) => ps,
        _ => return None,
    };
    proof {
        lemma_obj_view(ps);
    }
    let sw = match get_opt_object(ps.as_slice(), "Software", "software") {
        Some(Some(o)) => o,
        _ => return None,
    };
    let valve = match get_opt_object(sw.as_slice(), "Valve", "valve") {
        Some(Some(o)) => o,
        _ => return None,
    };
    let steam = match get_opt_object(valve.as_slice(), "Steam", "steam") {
        Some(Some(o)) => o,
        _ => return None,
    };
    let mapping = match get_opt_object(steam.as_slice(), "CompatToolMapping", "compattoolmapping") {
        Some(Some(o)) => o,
        Some(None) => return Some(None),
        None => return None,
    };
    let app = match get_opt_object(mapping.as_slice(), appid, appid) {
        Some(Some(o)) => o,
        Some(None) => return Some(None),
        None => return None,
    };
    match get_req_text(app.as_slice(), "Name", "name") {
        Some(n) => Some(Some(n)),
        None => None,
    }
}

/// What a user's `localconfig.vdf` says of an app: `Software.Valve.Steam.Apps.<appid>`.
/// `Some(None)`: the app is not listed; `Some(Some(opts))`: it is, with its
/// `LaunchOptions` (if any).
pub open spec fn spec_local_app_config(text: Seq<u8>, appid: Seq<char>) -> Option<Option<Option<Seq<char>>>> {
    match parse_document(text) {
        Some((_, SpecVdf::Obj(ps))) => match req_object(ps, "Software"@, "software"@) {
            Some(sw) => match req_object(sw, "Valve"@, "valve"@) {
                Some(valve) => match req_object(valve, "Steam"@, "steam"@) {
                    Some(steam) => match req_object(steam, "Apps"@, "apps"@) {
                        Some(apps) => match opt_object(apps, appid, appid) {
                            Some(Some(app)) => match opt_text(app, "LaunchOptions"@, "launchoptions"@) {
                                Some(lo) => Some(Some(lo)),
                                None => None,
                            },
                            Some(None) => Some(None),
                            None => None,
                        },
                        None => None,
                    },
                    None => None,
                },
                None => None,
            },
            None => None,
        },
        _ => None,
    }
}

/// A user's configuration of an app, from `localconfig.vdf`.
#[derive(Debug)]
pub struct SteamUserLocalConfigApp {
    pub launch_options: Option<String>,
}

/// Reads the configuration of `appid` from `localconfig.vdf` (see `spec_local_app_config`).
pub fn parse_local_app_config(text: &str, appid: &str) -> (res: Option<Option<SteamUserLocalConfigApp>>)
    ensures
        match res {
            Some(Some(app)) => spec_local_app_config(text.spec_bytes(), appid@) == Some(Some(opt_text_view(app.launch_options))),
            Some(None) => spec_local_app_config(text.spec_bytes(), appid@) == Some(None::<Option<Seq<char>>>),
            None => spec_local_app_config(text.spec_bytes(), appid@) is None,
        },
{
    let ps = match parse_vdf(text.as_bytes()) {
        Some((_, VdfValue::Obj(ps))) => ps,
        _ => return None,
    };
    proof {
        lemma_obj_view(ps);
    }
    let sw = match get_opt_object(ps.as_slice(), "Software", "software") {
        Some(Some(o)) => o,
        _ => return None,
    };
    let valve = match get_opt_object(sw.as_slice(), "Valve", "valve") {
        Some(Some(o)) => o,
        _ => return None,
    };
    let steam = match get_opt_object(valve.as_slice(), "Steam", "steam") {
        Some(Some(o)) => o,
        _ => return None,
    };
    let apps = match get_opt_object(steam.as_slice(), "Apps", "apps") {
        Some(Some(o)) => o,
        _ => return None,
    };
    let app = match get_opt_object(apps.as_slice(), appid, appid) {
        Some(Some(o)) => o,
        Some(None) => return Some(None),
        None => return None,
    };
    match get_opt_text(app.as_slice(), "LaunchOptions", "launchoptions") {
        Some(lo) => Some(Some(SteamUserLocalConfigApp { launch_options: lo })),
        None => None,
    }
}

} // verus!
