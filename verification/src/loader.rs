//! The membership loader: parses a persisted membership artifact into
//! peer records, ready for the registry to ingest.
//!
//! An artifact is a bracketed, comma-separated list of objects, each a
//! braced, comma-separated list of `"key": "value"` members; whitespace
//! may stand between tokens, and a string body runs to its closing
//! quote without escapes. Every object must carry a `PubKeyHex` member
//! (the peer's identity) and a `NetAddr` member (its primary address);
//! secondary addresses are not part of the persisted format.

use vstd::prelude::*;
use vstd::string::{StrSliceExecFns, StringExecFns};

use crate::errors::Error;
use crate::peer::{Peer, PeerId, PeerModel};

verus! {

/// A whitespace character of the artifact format.
pub open spec fn is_ws(c: char) -> bool {
    c == ' ' || c == '\n' || c == '\t' || c == '\r'
}

/// The first position at or after `i` holding no whitespace.
pub open spec fn skip_ws(s: Seq<char>, i: int) -> int
    decreases s.len() - i,
{
    if 0 <= i < s.len() && is_ws(s[i]) {
        skip_ws(s, i + 1)
    } else {
        i
    }
}

pub proof fn lemma_skip_ws(s: Seq<char>, i: int)
    requires
        0 <= i <= s.len(),
    ensures
        i <= skip_ws(s, i) <= s.len(),
    decreases s.len() - i,
{
    if i < s.len() && is_ws(s[i]) {
        lemma_skip_ws(s, i + 1);
    }
}

/// The position of the closing quote of a string body starting at `i`:
/// the first quote at or after `i`, unless an escape character comes
/// first or the text ends unterminated.
pub open spec fn scan_string(s: Seq<char>, i: int) -> Option<int>
    decreases s.len() - i,
{
    if !(0 <= i < s.len()) {
        None
    } else if s[i] == '"' {
        Some(i)
    } else if s[i] == '\\' {
        None
    } else {
        scan_string(s, i + 1)
    }
}

proof fn lemma_scan_string(s: Seq<char>, i: int)
    requires
        0 <= i,
    ensures
        scan_string(s, i) matches Some(j) ==> i <= j < s.len(),
    decreases s.len() - i,
{
    if 0 <= i < s.len() && s[i] != '"' && s[i] != '\\' {
        lemma_scan_string(s, i + 1);
    }
}

/// One `"key": "value"` member starting at `i` (at the key's opening
/// quote): the key, the value, and the position after the value's
/// closing quote.
pub open spec fn parse_pair(s: Seq<char>, i: int) -> Option<((Seq<char>, Seq<char>), int)> {
    if 0 <= i < s.len() && s[i] == '"' {
        match scan_string(s, i + 1) {
            None => None,
            Some(kq) => {
                let key = s.subrange(i + 1, kq);
                let j = skip_ws(s, kq + 1);
                if 0 <= j < s.len() && s[j] == ':' {
                    let v = skip_ws(s, j + 1);
                    if 0 <= v < s.len() && s[v] == '"' {
                        match scan_string(s, v + 1) {
                            None => None,
                            Some(vq) => Some(((key, s.subrange(v + 1, vq)), vq + 1)),
                        }
                    } else {
                        None
                    }
                } else {
                    None
                }
            },
        }
    } else {
        None
    }
}

pub proof fn lemma_parse_pair(s: Seq<char>, i: int)
    ensures
        parse_pair(s, i) matches Some(pj) ==> i < pj.1 <= s.len(),
{
    if 0 <= i < s.len() && s[i] == '"' {
        lemma_scan_string(s, i + 1);
        match scan_string(s, i + 1) {
            None => {},
            Some(kq) => {
                lemma_skip_ws(s, kq + 1);
                let j = skip_ws(s, kq + 1);
                if 0 <= j < s.len() && s[j] == ':' {
                    lemma_skip_ws(s, j + 1);
                    let v = skip_ws(s, j + 1);
                    if 0 <= v < s.len() && s[v] == '"' {
                        lemma_scan_string(s, v + 1);
                    }
                }
            },
        }
    }
}

/// The members of an object from position `i` (at the first pair's
/// opening quote) through the closing brace: the pairs in text order
/// and the position after the brace.
pub open spec fn parse_members(s: Seq<char>, i: int) -> Option<(Seq<(Seq<char>, Seq<char>)>, int)>
    decreases s.len() - i,
{
    match parse_pair(s, i) {
        None => None,
        Some(pj) => {
            let j2 = skip_ws(s, pj.1);
            if 0 <= j2 < s.len() && s[j2] == '}' {
                Some((seq![pj.0], j2 + 1))
            } else if 0 <= j2 < s.len() && s[j2] == ',' {
                proof {
                    lemma_parse_pair(s, i);
                    lemma_skip_ws(s, pj.1);
                    lemma_skip_ws(s, j2 + 1);
                }
                match parse_members(s, skip_ws(s, j2 + 1)) {
                    None => None,
                    Some(rest) => Some((seq![pj.0] + rest.0, rest.1)),
                }
            } else {
                None
            }
        },
    }
}

proof fn lemma_parse_members(s: Seq<char>, i: int)
    ensures
        parse_members(s, i) matches Some(mj) ==> i < mj.1 <= s.len(),
    decreases s.len() - i,
{
    lemma_parse_pair(s, i);
    match parse_pair(s, i) {
        None => {},
        Some(pj) => {
            lemma_skip_ws(s, pj.1);
            let j2 = skip_ws(s, pj.1);
            if 0 <= j2 < s.len() && s[j2] == ',' {
                lemma_skip_ws(s, j2 + 1);
                lemma_parse_members(s, skip_ws(s, j2 + 1));
            }
        },
    }
}

/// An object from position `i` (at its opening brace): its member
/// pairs and the position after its closing brace.
pub open spec fn parse_object(s: Seq<char>, i: int) -> Option<(Seq<(Seq<char>, Seq<char>)>, int)> {
    if 0 <= i < s.len() && s[i] == '{' {
        let j = skip_ws(s, i + 1);
        if 0 <= j < s.len() && s[j] == '}' {
            Some((Seq::empty(), j + 1))
        } else {
            parse_members(s, j)
        }
    } else {
        None
    }
}

pub proof fn lemma_parse_object(s: Seq<char>, i: int)
    ensures
        parse_object(s, i) matches Some(oj) ==> i < oj.1 <= s.len(),
{
    if 0 <= i < s.len() && s[i] == '{' {
        lemma_skip_ws(s, i + 1);
        lemma_parse_members(s, skip_ws(s, i + 1));
    }
}

/// The objects of an artifact from position `i` (at the first object's
/// opening brace) through the closing bracket: the objects' member
/// pairs in file order and the position after the bracket.
pub open spec fn parse_objects(s: Seq<char>, i: int) -> Option<
    (Seq<Seq<(Seq<char>, Seq<char>)>>, int),
>
    decreases s.len() - i,
{
    match parse_object(s, i) {
        None => None,
        Some(oj) => {
            let j2 = skip_ws(s, oj.1);
            if 0 <= j2 < s.len() && s[j2] == ']' {
                Some((seq![oj.0], j2 + 1))
            } else if 0 <= j2 < s.len() && s[j2] == ',' {
                proof {
                    lemma_parse_object(s, i);
                    lemma_skip_ws(s, oj.1);
                    lemma_skip_ws(s, j2 + 1);
                }
                match parse_objects(s, skip_ws(s, j2 + 1)) {
                    None => None,
                    Some(rest) => Some((seq![oj.0] + rest.0, rest.1)),
                }
            } else {
                None
            }
        },
    }
}

/// A whole artifact: optional whitespace, a bracketed list of objects,
/// optional whitespace to the end of the text. Yields each object's
/// member pairs, in file order.
pub open spec fn parse_artifact(s: Seq<char>) -> Option<Seq<Seq<(Seq<char>, Seq<char>)>>> {
    let i = skip_ws(s, 0);
    if 0 <= i < s.len() && s[i] == '[' {
        let j = skip_ws(s, i + 1);
        if 0 <= j < s.len() && s[j] == ']' {
            if skip_ws(s, j + 1) == s.len() {
                Some(Seq::empty())
            } else {
                None
            }
        } else {
            match parse_objects(s, j) {
                None => None,
                Some(oj) => {
                    if skip_ws(s, oj.1) == s.len() {
                        Some(oj.0)
                    } else {
                        None
                    }
                },
            }
        }
    } else {
        None
    }
}

/// The value of the first member of `pairs` whose key is `key`.
pub open spec fn member_lookup(pairs: Seq<(Seq<char>, Seq<char>)>, key: Seq<char>) -> Option<
    Seq<char>,
>
    decreases pairs.len(),
{
    if pairs.len() == 0 {
        None
    } else if pairs[0].0 == key {
        Some(pairs[0].1)
    } else {
        member_lookup(pairs.drop_first(), key)
    }
}

/// The record an object's members describe: its identity and primary
/// address, or `None` when a required member is missing.
pub open spec fn record_of_object(pairs: Seq<(Seq<char>, Seq<char>)>) -> Option<
    (Seq<char>, Seq<char>),
> {
    match (member_lookup(pairs, "PubKeyHex"@), member_lookup(pairs, "NetAddr"@)) {
        (Some(id), Some(addr)) => Some((id, addr)),
        _ => None,
    }
}

/// The records a sequence of objects describes, in order, or `None`
/// when any object misses a required member.
pub open spec fn records_of_objects(objs: Seq<Seq<(Seq<char>, Seq<char>)>>) -> Option<
    Seq<(Seq<char>, Seq<char>)>,
>
    decreases objs.len(),
{
    if objs.len() == 0 {
        Some(Seq::empty())
    } else {
        match record_of_object(objs[0]) {
            None => None,
            Some(r) => {
                match records_of_objects(objs.drop_first()) {
                    None => None,
                    Some(rest) => Some(seq![r] + rest),
                }
            },
        }
    }
}

/// The records a membership artifact text describes, in file order, or
/// `None` when the text is not a well-formed artifact.
pub open spec fn artifact_records(s: Seq<char>) -> Option<Seq<(Seq<char>, Seq<char>)>> {
    match parse_artifact(s) {
        None => None,
        Some(objs) => records_of_objects(objs),
    }
}

/// The registry models that loading `recs` produces: each peer with
/// its identity, its primary address, and no secondary addresses.
pub open spec fn loaded_models(recs: Seq<(Seq<char>, Seq<char>)>) -> Seq<PeerModel> {
    recs.map_values(
        |r: (Seq<char>, Seq<char>)|
            PeerModel { id: r.0, base_addr: r.1, net_addrs: Seq::empty() },
    )
}

fn skip_ws_at(s: &str, i: usize, n: usize) -> (r: usize)
    requires
        n == s@.len(),
        i <= n,
    ensures
        r as int == skip_ws(s@, i as int),
        i <= r <= n,
{
    let mut k: usize = i;
    while k < n
        invariant
            i <= k <= n,
            n == s@.len(),
            skip_ws(s@, i as int) == skip_ws(s@, k as int),
        decreases n - k,
    {
        let c = s.get_char(k);
        if !(c == ' ' || c == '\n' || c == '\t' || c == '\r') {
            return k;
        }
        k = k + 1;
    }
    k
}

fn scan_string_at(s: &str, i: usize, n: usize) -> (r: Option<usize>)
    requires
        n == s@.len(),
        i <= n,
    ensures
        r matches Some(j) ==> scan_string(s@, i as int) == Some(j as int) && i <= j < n,
        r is None ==> scan_string(s@, i as int) is None,
{
    let mut k: usize = i;
    while k < n
        invariant
            i <= k <= n,
            n == s@.len(),
            scan_string(s@, i as int) == scan_string(s@, k as int),
        decreases n - k,
    {
        let c = s.get_char(k);
        if c == '"' {
            return Some(k);
        }
        if c == '\\' {
            return None;
        }
        k = k + 1;
    }
    None
}

fn parse_pair_at(s: &str, i: usize, n: usize) -> (r: Option<(String, String, usize)>)
    requires
        n == s@.len(),
        i <= n,
    ensures
        r matches Some(kvj) ==> parse_pair(s@, i as int) == Some(((kvj.0@, kvj.1@), kvj.2 as int))
            && i < kvj.2 <= n,
        r is None ==> parse_pair(s@, i as int) is None,
{
    if i >= n {
        return None;
    }
    if s.get_char(i) != '"' {
        return None;
    }
    let kq = match scan_string_at(s, i + 1, n) {
        None => {
            return None;
        },
        Some(q) => q,
    };
    let key = s.substring_char(i + 1, kq).to_owned();
    let j = skip_ws_at(s, kq + 1, n);
    if j >= n || s.get_char(j) != ':' {
        return None;
    }
    let v = skip_ws_at(s, j + 1, n);
    if v >= n || s.get_char(v) != '"' {
        return None;
    }
    let vq = match scan_string_at(s, v + 1, n) {
        None => {
            return None;
        },
        Some(q) => q,
    };
    let val = s.substring_char(v + 1, vq).to_owned();
    Some((key, val, vq + 1))
}

fn parse_members_at(s: &str, i: usize, n: usize) -> (r: Option<(Vec<(String, String)>, usize)>)
    requires
        n == s@.len(),
        i <= n,
    ensures
        r matches Some(pv) ==> parse_members(s@, i as int) == Some((pv.0.deep_view(), pv.1 as int))
            && i < pv.1 <= n,
        r is None ==> parse_members(s@, i as int) is None,
    decreases n - i,
{
    let (k, v, j) = match parse_pair_at(s, i, n) {
        None => {
            return None;
        },
        Some(kvj) => kvj,
    };
    let j2 = skip_ws_at(s, j, n);
    if j2 >= n {
        return None;
    }
    let c = s.get_char(j2);
    if c == '}' {
        let mut pv: Vec<(String, String)> = Vec::new();
        pv.push((k, v));
        proof {
            assert(pv.deep_view() =~~= seq![(k@, v@)]);
        }
        return Some((pv, j2 + 1));
    }
    if c == ',' {
        let i2 = skip_ws_at(s, j2 + 1, n);
        match parse_members_at(s, i2, n) {
            None => {
                return None;
            },
            Some((mut rest, end)) => {
                let ghost rest0 = rest.deep_view();
                rest.insert(0, (k, v));
                proof {
                    assert(rest.deep_view() =~~= seq![(k@, v@)] + rest0);
                }
                return Some((rest, end));
            },
        }
    }
    None
}

fn parse_object_at(s: &str, i: usize, n: usize) -> (r: Option<(Vec<(String, String)>, usize)>)
    requires
        n == s@.len(),
        i <= n,
    ensures
        r matches Some(pv) ==> parse_object(s@, i as int) == Some((pv.0.deep_view(), pv.1 as int))
            && i < pv.1 <= n,
        r is None ==> parse_object(s@, i as int) is None,
{
    if i >= n {
        return None;
    }
    if s.get_char(i) != '{' {
        return None;
    }
    let j = skip_ws_at(s, i + 1, n);
    if j < n && s.get_char(j) == '}' {
        let pv: Vec<(String, String)> = Vec::new();
        proof {
            assert(pv.deep_view() =~~= Seq::<(Seq<char>, Seq<char>)>::empty());
        }
        return Some((pv, j + 1));
    }
    parse_members_at(s, j, n)
}

fn parse_objects_at(s: &str, i: usize, n: usize) -> (r: Option<
    (Vec<Vec<(String, String)>>, usize),
>)
    requires
        n == s@.len(),
        i <= n,
    ensures
        r matches Some(ov) ==> parse_objects(s@, i as int) == Some((ov.0.deep_view(), ov.1 as int))
            && i < ov.1 <= n,
        r is None ==> parse_objects(s@, i as int) is None,
    decreases n - i,
{
    let (obj, j) = match parse_object_at(s, i, n) {
        None => {
            return None;
        },
        Some(oj) => oj,
    };
    let j2 = skip_ws_at(s, j, n);
    if j2 >= n {
        return None;
    }
    let c = s.get_char(j2);
    if c == ']' {
        let mut ov: Vec<Vec<(String, String)>> = Vec::new();
        let ghost objdv = obj.deep_view();
        ov.push(obj);
        proof {
            assert(ov.deep_view() =~~= seq![objdv]);
        }
        return Some((ov, j2 + 1));
    }
    if c == ',' {
        let i2 = skip_ws_at(s, j2 + 1, n);
        match parse_objects_at(s, i2, n) {
            None => {
                return None;
            },
            Some((mut rest, end)) => {
                let ghost rest0 = rest.deep_view();
                let ghost objdv = obj.deep_view();
                rest.insert(0, obj);
                proof {
                    assert(rest.deep_view() =~~= seq![objdv] + rest0);
                }
                return Some((rest, end));
            },
        }
    }
    None
}

fn member_lookup_at(pairs: &Vec<(String, String)>, key: &String) -> (r: Option<String>)
    ensures
        r matches Some(v) ==> member_lookup(pairs.deep_view(), key@) == Some(v@),
        r is None ==> member_lookup(pairs.deep_view(), key@) is None,
{
    let ghost dv = pairs.deep_view();
    proof {
        assert(dv.skip(0) =~= dv);
    }
    let mut l: usize = 0;
    while l < pairs.len()
        invariant
            l <= pairs@.len(),
            dv == pairs.deep_view(),
            dv.len() == pairs@.len(),
            member_lookup(dv, key@) == member_lookup(dv.skip(l as int), key@),
        decreases pairs@.len() - l,
    {
        proof {
            assert(dv[l as int] == (pairs@[l as int].0@, pairs@[l as int].1@));
            assert(dv.skip(l as int)[0] == dv[l as int]);
        }
        if pairs[l].0 == *key {
            return Some(pairs[l].1.clone());
        }
        proof {
            assert(dv.skip(l as int).drop_first() =~~= dv.skip(l as int + 1));
        }
        l = l + 1;
    }
    proof {
        assert(dv.skip(l as int).len() == 0);
    }
    None
}

fn record_of_object_at(pairs: &Vec<(String, String)>) -> (r: Option<(String, String)>)
    ensures
        r matches Some(rec) ==> record_of_object(pairs.deep_view()) == Some((rec.0@, rec.1@)),
        r is None ==> record_of_object(pairs.deep_view()) is None,
{
    let id_key = String::from_str("PubKeyHex");
    let addr_key = String::from_str("NetAddr");
    let id = match member_lookup_at(pairs, &id_key) {
        None => {
            return None;
        },
        Some(x) => x,
    };
    let addr = match member_lookup_at(pairs, &addr_key) {
        None => {
            return None;
        },
        Some(x) => x,
    };
    Some((id, addr))
}

/// A sequence of objects describes records exactly when every object
/// carries both required members, and then it describes one record per
/// object, in order.
proof fn lemma_records_of_objects(objs: Seq<Seq<(Seq<char>, Seq<char>)>>)
    ensures
        (records_of_objects(objs) is Some) <==> (forall|k: int|
            0 <= k < objs.len() ==> record_of_object(objs[k]) is Some),
        records_of_objects(objs) matches Some(recs) ==> recs.len() == objs.len() && (forall|k: int|
            0 <= k < objs.len() ==> record_of_object(objs[k]) == Some(recs[k])),
    decreases objs.len(),
{
    if objs.len() > 0 {
        let tail = objs.drop_first();
        lemma_records_of_objects(tail);
        assert forall|k: int| 0 <= k < tail.len() implies tail[k] == objs[k + 1] by {}
        match record_of_object(objs[0]) {
            None => {
                assert(record_of_object(objs[0]) is None);
            },
            Some(r) => {
                match records_of_objects(tail) {
                    None => {
                        if (forall|k: int| 0 <= k < objs.len() ==> record_of_object(objs[k])
                            is Some) {
                            assert forall|k: int|
                                0 <= k < tail.len() implies record_of_object(tail[k]) is Some by {
                                assert(record_of_object(objs[k + 1]) is Some);
                            }
                            assert(false);
                        }
                    },
                    Some(rest) => {
                        let recs = seq![r] + rest;
                        assert(records_of_objects(objs) == Some(recs));
                        assert forall|k: int|
                            0 <= k < objs.len() implies record_of_object(objs[k]) == Some(
                            recs[k],
                        ) by {
                            if k == 0 {
                                assert(recs[0] == r);
                            } else {
                                assert(record_of_object(tail[k - 1]) == Some(rest[k - 1]));
                                assert(recs[k] == rest[k - 1]);
                            }
                        }
                    },
                }
            },
        }
    }
}

/// Reads peer records out of a persisted membership artifact.
pub struct MembershipLoader;

impl MembershipLoader {
    /// Parses the text of a membership artifact into peer records, in
    /// file order, each with its identity, its primary address, and no
    /// secondary addresses. Fails with `Unsupported` exactly when the
    /// text is not a well-formed artifact.
    pub fn parse(text: &str) -> (r: Result<Vec<Peer>, Error>)
        ensures
            r matches Ok(v) ==> (artifact_records(text@) matches Some(recs)
                && crate::registry::models_of(v@) == loaded_models(recs)),
            r matches Err(e) ==> artifact_records(text@) is None && (e matches Error::Unsupported(
                _,
            )),
    {
        let n: usize = text.unicode_len();
        let i = skip_ws_at(text, 0, n);
        if i >= n || text.get_char(i) != '[' {
            return Err(
                Error::Unsupported(
                    String::from_str("the artifact must be a bracketed list of peer objects"),
                ),
            );
        }
        let j = skip_ws_at(text, i + 1, n);
        if j < n && text.get_char(j) == ']' {
            if skip_ws_at(text, j + 1, n) == n {
                let v: Vec<Peer> = Vec::new();
                proof {
                    assert(artifact_records(text@) == Some(Seq::<(Seq<char>, Seq<char>)>::empty()));
                    assert(crate::registry::models_of(v@) =~= loaded_models(
                        Seq::<(Seq<char>, Seq<char>)>::empty(),
                    ));
                }
                return Ok(v);
            }
            return Err(
                Error::Unsupported(
                    String::from_str("text follows the artifact's closing bracket"),
                ),
            );
        }
        let (objs, end) = match parse_objects_at(text, j, n) {
            None => {
                return Err(
                    Error::Unsupported(
                        String::from_str("the artifact's peer objects are malformed"),
                    ),
                );
            },
            Some(oe) => oe,
        };
        if skip_ws_at(text, end, n) != n {
            return Err(
                Error::Unsupported(
                    String::from_str("text follows the artifact's closing bracket"),
                ),
            );
        }
        let ghost odv = objs.deep_view();
        proof {
            assert(parse_artifact(text@) == Some(odv));
            lemma_records_of_objects(odv);
        }
        let mut peers: Vec<Peer> = Vec::new();
        let mut k: usize = 0;
        while k < objs.len()
            invariant
                k <= objs@.len(),
                odv == objs.deep_view(),
                odv.len() == objs@.len(),
                parse_artifact(text@) == Some(odv),
                peers@.len() == k,
                forall|m: int| 0 <= m < k ==> record_of_object(odv[m]) is Some,
                forall|m: int|
                    0 <= m < k ==> ((#[trigger] record_of_object(odv[m])) matches Some(rec)
                        && peers@[m]@ == (PeerModel {
                        id: rec.0,
                        base_addr: rec.1,
                        net_addrs: Seq::empty(),
                    })),
            decreases objs@.len() - k,
        {
            proof {
                assert(odv[k as int] == objs@[k as int].deep_view());
            }
            match record_of_object_at(&objs[k]) {
                None => {
                    proof {
                        lemma_records_of_objects(odv);
                    }
                    return Err(
                        Error::Unsupported(
                            String::from_str(
                                "a peer object misses its identity or address member",
                            ),
                        ),
                    );
                },
                Some((id, addr)) => {
                    let p = Peer::new(PeerId::new(id), addr);
                    peers.push(p);
                },
            }
            k = k + 1;
        }
        proof {
            lemma_records_of_objects(odv);
            let recs = records_of_objects(odv)->Some_0;
            assert(records_of_objects(odv) == Some(recs));
            assert forall|m: int|
                0 <= m < odv.len() implies crate::registry::models_of(peers@)[m] == loaded_models(
                recs,
            )[m] by {
                assert(record_of_object(odv[m]) == Some(recs[m]));
                assert(crate::registry::models_of(peers@)[m] == peers@[m]@);
            }
            assert(crate::registry::models_of(peers@) =~= loaded_models(recs));
        }
        Ok(peers)
    }
}

} // verus!
