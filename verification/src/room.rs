//! The conversation-channel MAC payload: carried inside an ongoing
//! conversation and scoped by a relation link to the event that started
//! the verification, in place of a transaction identifier.
//!
//! This channel is the experimental in-conversation verification
//! extension.  It lives in this module of its own; a deployment without
//! the extension leaves the module out (or does not re-export it) and can
//! then neither construct nor decode this payload.

use vstd::prelude::*;
use crate::errors::doc_err;
use crate::errors::document_error;
use crate::errors::DecodeError;
use crate::errors::DecodeFail;
use crate::errors::InvalidArgument;
use crate::errors::ValidationError;
use crate::format::check_key_id;
use crate::format::check_unpadded_base64;
use crate::format::valid_key_id;
use crate::format::valid_unpadded_base64;
use crate::lex::str_eq;
use crate::macmap::build_macmap;
use crate::macmap::insert_all;
use crate::macmap::Entries;
use crate::macmap::MacMap;
use crate::to_device::constructible;
use crate::wire::append_enc_mac;
use crate::wire::at_seg;
use crate::wire::lemma_at_seg_split;
use crate::wire::lemma_mac_inverse;
use crate::wire::lemma_string_inverse;
use crate::wire::lemma_ws_stop;
use crate::wire::append_enc_str;
use crate::wire::enc_mac;
use crate::wire::enc_str;
use crate::wire::opt_pairs_view;
use crate::wire::opt_str_view;
use crate::wire::p_skip_value;
use crate::wire::p_str_map;
use crate::wire::p_string;
use crate::wire::p_ws;
use crate::wire::push_char;
use crate::wire::sp_skip_value;
use crate::wire::sp_str_map;
use crate::wire::sp_string;
use crate::wire::sp_ws;

verus! {

/// Ghost image of the relation link.
#[verifier::ext_equal]
pub struct RelationView {
    pub rel_type: Seq<char>,
    pub event_id: Seq<char>,
}

/// A reference to the event that anchors the verification flow within the
/// conversation: a relation-kind tag and the identifier of the referenced
/// event.  This payload only validates the shape of the reference;
/// resolving it is the relation resolver's concern.
#[derive(Clone, Debug)]
pub struct Relation {
    /// The kind of the relation.
    pub rel_type: String,
    /// The identifier of the event this payload relates to.
    pub event_id: String,
}

impl View for Relation {
    type V = RelationView;

    open spec fn view(&self) -> RelationView {
        RelationView { rel_type: self.rel_type@, event_id: self.event_id@ }
    }
}

/// A relation link is well formed when both its parts are non-empty.
pub open spec fn valid_relation(r: RelationView) -> bool {
    r.rel_type.len() > 0 && r.event_id.len() > 0
}

/// Ghost image of the conversation-channel payload.
#[verifier::ext_equal]
pub struct MacView {
    pub mac: Entries,
    pub keys: Seq<char>,
    pub relates_to: RelationView,
}

/// The content of a conversation-channel MAC-confirmation message.
///
/// Sends the MACs of a device's keys to the partner device.
#[derive(Clone, Debug)]
pub struct MacEventContent {
    /// A map of the key ID to the MAC of the key, using the algorithm of
    /// the verification process.
    ///
    /// The MAC is encoded as unpadded Base64.
    pub mac: MacMap,
    /// The MAC of the comma-separated, sorted list of key IDs given in the
    /// `mac` property, encoded as unpadded Base64.
    pub keys: String,
    /// Information about the related event.
    pub relates_to: Relation,
}

impl View for MacEventContent {
    type V = MacView;

    open spec fn view(&self) -> MacView {
        MacView { mac: self.mac@, keys: self.keys@, relates_to: self.relates_to@ }
    }
}

/// What the explicit validation step finds, in the order in which it
/// looks: an empty mapping, a malformed key identifier, a `keys` field
/// that is not unpadded Base64, and last a malformed relation link.
pub open spec fn spec_validate_room(v: MacView) -> Result<(), ValidationError> {
    if v.mac.len() == 0 {
        Err(ValidationError::EmptyMac)
    } else if exists|i: int|
        0 <= i < v.mac.len() && !valid_key_id(#[trigger] v.mac[i].0) {
        Err(ValidationError::BadKeyIdFormat)
    } else if !valid_unpadded_base64(v.keys) {
        Err(ValidationError::BadBase64)
    } else if !valid_relation(v.relates_to) {
        Err(ValidationError::BadRelation)
    } else {
        Ok(())
    }
}


/// The wire form of the relation link: an object with the fields
/// `rel_type` and `event_id`, in that order.
pub open spec fn enc_rel(r: RelationView) -> Seq<char> {
    seq!['{'] + enc_str("rel_type"@) + seq![':'] + enc_str(r.rel_type) + seq![','] + enc_str(
        "event_id"@,
    ) + seq![':'] + enc_str(r.event_id) + seq!['}']
}

/// The wire form of the conversation-channel payload: a flat object with
/// exactly the fields `mac`, `keys` and `m.relates_to`, in that order.
pub open spec fn enc_room(v: MacView) -> Seq<char> {
    seq!['{'] + enc_str("mac"@) + seq![':'] + enc_mac(v.mac) + seq![','] + enc_str("keys"@)
        + seq![':'] + enc_str(v.keys) + seq![','] + enc_str("m.relates_to"@) + seq![':'] + enc_rel(
        v.relates_to,
    ) + seq!['}']
}

/// Parses the members of the relation object from the first key at `i` up
/// to the closing brace; any shape violation collapses to `None`, which the
/// caller reports as a mismatch of the whole relation field.
pub open spec fn sp_rel_members(
    s: Seq<char>,
    i: int,
    rt: Option<Seq<char>>,
    ev: Option<Seq<char>>,
) -> Option<(Option<Seq<char>>, Option<Seq<char>>, int)>
    decreases s.len() - i,
{
    match sp_string(s, i) {
        None => None,
        Some((k, j)) => {
            let j2 = sp_ws(s, j);
            if j2 >= s.len() || s[j2] != ':' {
                None
            } else {
                let j3 = sp_ws(s, j2 + 1);
                let step: Option<(Option<Seq<char>>, Option<Seq<char>>, int)> = if k
                    == "rel_type"@ {
                    match sp_string(s, j3) {
                        None => None,
                        Some((v, j4)) => Some((Some(v), ev, j4)),
                    }
                } else if k == "event_id"@ {
                    match sp_string(s, j3) {
                        None => None,
                        Some((v, j4)) => Some((rt, Some(v), j4)),
                    }
                } else {
                    match sp_skip_value(s, j3) {
                        None => None,
                        Some(j4) => Some((rt, ev, j4)),
                    }
                };
                match step {
                    None => None,
                    Some((r2, e2, j4)) => {
                        let j5 = sp_ws(s, j4);
                        if j5 >= s.len() {
                            None
                        } else if s[j5] == '}' {
                            Some((r2, e2, j5 + 1))
                        } else if s[j5] == ',' {
                            let j6 = sp_ws(s, j5 + 1);
                            if i < j6 <= s.len() {
                                sp_rel_members(s, j6, r2, e2)
                            } else {
                                None
                            }
                        } else {
                            None
                        }
                    },
                }
            }
        },
    }
}

/// Parses a relation object at `i`: both parts must be present as strings;
/// unknown members are skipped.
pub open spec fn sp_relation(s: Seq<char>, i: int) -> Option<(RelationView, int)> {
    if 0 <= i < s.len() && s[i] == '{' {
        let j = sp_ws(s, i + 1);
        let fin: Option<(Option<Seq<char>>, Option<Seq<char>>, int)> = if j < s.len() && s[j]
            == '}' {
            Some((None, None, j + 1))
        } else {
            sp_rel_members(s, j, None, None)
        };
        match fin {
            None => None,
            Some((rt, ev, end)) => match (rt, ev) {
                (Some(r), Some(e)) => Some(
                    (RelationView { rel_type: r, event_id: e }, end),
                ),
                _ => None,
            },
        }
    } else {
        None
    }
}

/// Parses the members of the conversation-channel object from the first
/// key at `i` up to the closing brace.
pub open spec fn sp_room_members(
    s: Seq<char>,
    i: int,
    mac: Option<Entries>,
    keys: Option<Seq<char>>,
    rel: Option<RelationView>,
) -> Result<(Option<Entries>, Option<Seq<char>>, Option<RelationView>, int), DecodeFail>
    decreases s.len() - i,
{
    match sp_string(s, i) {
        None => Err(doc_err()),
        Some((k, j)) => {
            let j2 = sp_ws(s, j);
            if j2 >= s.len() || s[j2] != ':' {
                Err(doc_err())
            } else {
                let j3 = sp_ws(s, j2 + 1);
                let step: Result<
                    (Option<Entries>, Option<Seq<char>>, Option<RelationView>, int),
                    DecodeFail,
                > = if k == "mac"@ {
                    match sp_str_map(s, j3) {
                        None => Err(DecodeFail::TypeMismatch(k)),
                        Some((m, j4)) => Ok((Some(m), keys, rel, j4)),
                    }
                } else if k == "keys"@ {
                    match sp_string(s, j3) {
                        None => Err(DecodeFail::TypeMismatch(k)),
                        Some((v, j4)) => Ok((mac, Some(v), rel, j4)),
                    }
                } else if k == "m.relates_to"@ {
                    match sp_relation(s, j3) {
                        None => Err(DecodeFail::TypeMismatch(k)),
                        Some((r, j4)) => Ok((mac, keys, Some(r), j4)),
                    }
                } else {
                    match sp_skip_value(s, j3) {
                        None => Err(DecodeFail::TypeMismatch(k)),
                        Some(j4) => Ok((mac, keys, rel, j4)),
                    }
                };
                match step {
                    Err(e) => Err(e),
                    Ok((m2, k2, r2, j4)) => {
                        let j5 = sp_ws(s, j4);
                        if j5 >= s.len() {
                            Err(doc_err())
                        } else if s[j5] == '}' {
                            Ok((m2, k2, r2, j5 + 1))
                        } else if s[j5] == ',' {
                            let j6 = sp_ws(s, j5 + 1);
                            if i < j6 <= s.len() {
                                sp_room_members(s, j6, m2, k2, r2)
                            } else {
                                Err(doc_err())
                            }
                        } else {
                            Err(doc_err())
                        }
                    },
                }
            }
        },
    }
}

/// What decoding a conversation-channel document yields: the payload, or
/// the first shape violation found.
pub open spec fn sp_decode_room(s: Seq<char>) -> Result<MacView, DecodeFail> {
    let i0 = sp_ws(s, 0);
    if i0 >= s.len() || s[i0] != '{' {
        Err(doc_err())
    } else {
        let j = sp_ws(s, i0 + 1);
        let fin: Result<
            (Option<Entries>, Option<Seq<char>>, Option<RelationView>, int),
            DecodeFail,
        > = if j < s.len() && s[j] == '}' {
            Ok((None, None, None, j + 1))
        } else {
            sp_room_members(s, j, None, None, None)
        };
        match fin {
            Err(e) => Err(e),
            Ok((mac, keys, rel, end)) => {
                if sp_ws(s, end) != s.len() {
                    Err(doc_err())
                } else {
                    match (mac, keys, rel) {
                        (None, _, _) => Err(DecodeFail::MissingField("mac"@)),
                        (_, None, _) => Err(DecodeFail::MissingField("keys"@)),
                        (_, _, None) => Err(DecodeFail::MissingField("m.relates_to"@)),
                        (Some(m), Some(k), Some(r)) => Ok(
                            MacView { mac: insert_all(m), keys: k, relates_to: r },
                        ),
                    }
                }
            },
        }
    }
}

/// The characters an optional decoded relation holds.
pub open spec fn opt_rel_view(o: Option<Relation>) -> Option<RelationView> {
    match o {
        Some(x) => Some(x@),
        None => None,
    }
}

/// Parses a relation object.
fn p_relation(s: &str, i: usize) -> (r: Option<(Relation, usize)>)
    requires
        i <= s@.len(),
    ensures
        match r {
            Some(p) => sp_relation(s@, i as int) == Some((p.0@, p.1 as int)) && p.1 <= s@.len(),
            None => sp_relation(s@, i as int) is None,
        },
{
    let n = s.unicode_len();
    if i >= n || s.get_char(i) != '{' {
        return None;
    }
    let first = p_ws(s, i + 1);
    if first < n && s.get_char(first) == '}' {
        return None;
    }
    let mut rt_c: Option<String> = None;
    let mut ev_c: Option<String> = None;
    let mut cur = first;
    loop
        invariant
            n == s@.len(),
            i < cur <= n,
            i < n && s@[i as int] == '{',
            first == sp_ws(s@, i as int + 1),
            !(first < n && s@[first as int] == '}'),
            sp_rel_members(s@, first as int, None, None) == sp_rel_members(
                s@,
                cur as int,
                opt_str_view(rt_c),
                opt_str_view(ev_c),
            ),
        decreases n - cur,
    {
        let k = match p_string(s, cur) {
            None => {
                return None;
            },
            Some(p) => p,
        };
        let j2 = p_ws(s, k.1);
        if j2 >= n || s.get_char(j2) != ':' {
            return None;
        }
        let j3 = p_ws(s, j2 + 1);
        let j4 = if str_eq(k.0.as_str(), "rel_type") {
            match p_string(s, j3) {
                None => {
                    return None;
                },
                Some(v) => {
                    rt_c = Some(v.0);
                    v.1
                },
            }
        } else if str_eq(k.0.as_str(), "event_id") {
            match p_string(s, j3) {
                None => {
                    return None;
                },
                Some(v) => {
                    ev_c = Some(v.0);
                    v.1
                },
            }
        } else {
            match p_skip_value(s, j3) {
                None => {
                    return None;
                },
                Some(j) => j,
            }
        };
        let j5 = p_ws(s, j4);
        if j5 >= n {
            return None;
        }
        let c = s.get_char(j5);
        if c == '}' {
            let rt = match rt_c {
                None => {
                    return None;
                },
                Some(r) => r,
            };
            let ev = match ev_c {
                None => {
                    return None;
                },
                Some(e) => e,
            };
            return Some((Relation { rel_type: rt, event_id: ev }, j5 + 1));
        }
        if c != ',' {
            return None;
        }
        let j6 = p_ws(s, j5 + 1);
        if j6 <= cur {
            return None;
        }
        cur = j6;
    }
}

/// Parses the members of the conversation-channel object, from the first
/// key.
fn p_room_members(s: &str, i: usize) -> (r: Result<
    (Option<Vec<(String, String)>>, Option<String>, Option<Relation>, usize),
    DecodeError,
>)
    requires
        i <= s@.len(),
    ensures
        match r {
            Ok(p) => sp_room_members(s@, i as int, None, None, None) == Ok::<_, DecodeFail>(
                (opt_pairs_view(p.0), opt_str_view(p.1), opt_rel_view(p.2), p.3 as int),
            ) && p.3 <= s@.len(),
            Err(e) => sp_room_members(s@, i as int, None, None, None) == Err::<
                (Option<Entries>, Option<Seq<char>>, Option<RelationView>, int),
                DecodeFail,
            >(e@),
        },
{
    let n = s.unicode_len();
    let mut mac_c: Option<Vec<(String, String)>> = None;
    let mut keys_c: Option<String> = None;
    let mut rel_c: Option<Relation> = None;
    let mut cur = i;
    loop
        invariant
            n == s@.len(),
            i <= cur <= n,
            sp_room_members(s@, i as int, None, None, None) == sp_room_members(
                s@,
                cur as int,
                opt_pairs_view(mac_c),
                opt_str_view(keys_c),
                opt_rel_view(rel_c),
            ),
        decreases n - cur,
    {
        let k = match p_string(s, cur) {
            None => {
                return Err(document_error());
            },
            Some(p) => p,
        };
        let j2 = p_ws(s, k.1);
        if j2 >= n || s.get_char(j2) != ':' {
            return Err(document_error());
        }
        let j3 = p_ws(s, j2 + 1);
        let j4 = if str_eq(k.0.as_str(), "mac") {
            match p_str_map(s, j3) {
                None => {
                    return Err(DecodeError::TypeMismatch(k.0));
                },
                Some(m) => {
                    mac_c = Some(m.0);
                    m.1
                },
            }
        } else if str_eq(k.0.as_str(), "keys") {
            match p_string(s, j3) {
                None => {
                    return Err(DecodeError::TypeMismatch(k.0));
                },
                Some(v) => {
                    keys_c = Some(v.0);
                    v.1
                },
            }
        } else if str_eq(k.0.as_str(), "m.relates_to") {
            match p_relation(s, j3) {
                None => {
                    return Err(DecodeError::TypeMismatch(k.0));
                },
                Some(v) => {
                    rel_c = Some(v.0);
                    v.1
                },
            }
        } else {
            match p_skip_value(s, j3) {
                None => {
                    return Err(DecodeError::TypeMismatch(k.0));
                },
                Some(j) => j,
            }
        };
        let j5 = p_ws(s, j4);
        if j5 >= n {
            return Err(document_error());
        }
        let c = s.get_char(j5);
        if c == '}' {
            return Ok((mac_c, keys_c, rel_c, j5 + 1));
        }
        if c != ',' {
            return Err(document_error());
        }
        let j6 = p_ws(s, j5 + 1);
        if j6 <= cur {
            return Err(document_error());
        }
        cur = j6;
    }
}


/// The field names of the relation object differ.
proof fn lemma_rel_names()
    ensures
        "rel_type"@ != "event_id"@,
{
    reveal_strlit("rel_type");
    reveal_strlit("event_id");
    assert("rel_type"@[0] == 'r');
    assert("event_id"@[0] == 'e');
}

/// Walking the two members of an encoded relation object binds both parts
/// and stops at the closing brace.
#[verifier::rlimit(100)]
proof fn lemma_rel_walk(
    s: Seq<char>,
    q1: int,
    q2: int,
    q3: int,
    q4: int,
    q5: int,
    q6: int,
    q7: int,
    q8: int,
    rt: Seq<char>,
    ev: Seq<char>,
)
    requires
        0 <= q1 < q5,
        q5 <= s.len(),
        q3 == q2 + 1,
        q5 == q4 + 1,
        q7 == q6 + 1,
        q2 < s.len() && s[q2] == ':',
        q4 < s.len() && s[q4] == ',',
        q6 < s.len() && s[q6] == ':',
        q8 < s.len() && s[q8] == '}',
        sp_string(s, q1) == Some(("rel_type"@, q2)),
        sp_string(s, q3) == Some((rt, q4)),
        sp_string(s, q5) == Some(("event_id"@, q6)),
        sp_string(s, q7) == Some((ev, q8)),
        sp_ws(s, q2) == q2,
        sp_ws(s, q3) == q3,
        sp_ws(s, q4) == q4,
        sp_ws(s, q5) == q5,
        sp_ws(s, q6) == q6,
        sp_ws(s, q7) == q7,
        sp_ws(s, q8) == q8,
    ensures
        sp_rel_members(s, q1, None, None) == Some((Some(rt), Some(ev), q8 + 1)),
{
    lemma_rel_names();
    assert(sp_rel_members(s, q5, Some(rt), None) == Some((Some(rt), Some(ev), q8 + 1)));
    assert(sp_rel_members(s, q1, None, None) == Some((Some(rt), Some(ev), q8 + 1)));
}

/// Parsing a relation object over the wire form of `r` yields `r` and
/// stops after the closing brace.
#[verifier::rlimit(100)]
pub proof fn lemma_rel_inverse(s: Seq<char>, i: int, r: RelationView)
    requires
        at_seg(s, i, enc_rel(r)),
    ensures
        sp_relation(s, i) == Some((r, i + enc_rel(r).len())),
{
    let an = enc_str("rel_type"@);
    let av = enc_str(r.rel_type);
    let bn = enc_str("event_id"@);
    let bv = enc_str(r.event_id);
    let q1 = i + 1;
    let q2 = q1 + an.len();
    let q3 = q2 + 1;
    let q4 = q3 + av.len();
    let q5 = q4 + 1;
    let q6 = q5 + bn.len();
    let q7 = q6 + 1;
    let q8 = q7 + bv.len();
    let g0 = seq!['{'];
    let g1 = g0 + an;
    let g2 = g1 + seq![':'];
    let g3 = g2 + av;
    let g4 = g3 + seq![','];
    let g5 = g4 + bn;
    let g6 = g5 + seq![':'];
    let g7 = g6 + bv;
    assert(enc_rel(r) == g7 + seq!['}']);
    lemma_at_seg_split(s, i, g7, seq!['}']);
    lemma_at_seg_split(s, i, g6, bv);
    lemma_at_seg_split(s, i, g5, seq![':']);
    lemma_at_seg_split(s, i, g4, bn);
    lemma_at_seg_split(s, i, g3, seq![',']);
    lemma_at_seg_split(s, i, g2, av);
    lemma_at_seg_split(s, i, g1, seq![':']);
    lemma_at_seg_split(s, i, g0, an);
    assert(g0.len() == 1 && g1.len() == q2 - i && g2.len() == q3 - i && g3.len() == q4 - i
        && g4.len() == q5 - i && g5.len() == q6 - i && g6.len() == q7 - i && g7.len() == q8 - i);
    assert(s[i] == '{') by {
        assert(s.subrange(i, i + 1)[0] == seq!['{'][0]);
    }
    assert(s[q2] == ':') by {
        assert(s.subrange(q2, q2 + 1)[0] == seq![':'][0]);
    }
    assert(s[q4] == ',') by {
        assert(s.subrange(q4, q4 + 1)[0] == seq![','][0]);
    }
    assert(s[q6] == ':') by {
        assert(s.subrange(q6, q6 + 1)[0] == seq![':'][0]);
    }
    assert(s[q8] == '}') by {
        assert(s.subrange(q8, q8 + 1)[0] == seq!['}'][0]);
    }
    assert(s[q1] == '"') by {
        assert(s.subrange(q1, q2)[0] == an[0]);
    }
    assert(s[q3] == '"') by {
        assert(s.subrange(q3, q4)[0] == av[0]);
    }
    assert(s[q5] == '"') by {
        assert(s.subrange(q5, q6)[0] == bn[0]);
    }
    assert(s[q7] == '"') by {
        assert(s.subrange(q7, q8)[0] == bv[0]);
    }
    lemma_string_inverse(s, q1, "rel_type"@);
    lemma_string_inverse(s, q3, r.rel_type);
    lemma_string_inverse(s, q5, "event_id"@);
    lemma_string_inverse(s, q7, r.event_id);
    lemma_ws_stop(s, q1);
    lemma_ws_stop(s, q2);
    lemma_ws_stop(s, q3);
    lemma_ws_stop(s, q4);
    lemma_ws_stop(s, q5);
    lemma_ws_stop(s, q6);
    lemma_ws_stop(s, q7);
    lemma_ws_stop(s, q8);
    lemma_rel_walk(s, q1, q2, q3, q4, q5, q6, q7, q8, r.rel_type, r.event_id);
    assert((RelationView { rel_type: r.rel_type, event_id: r.event_id }) =~= r);
    assert(i + enc_rel(r).len() == q8 + 1);
}

/// The three field names of the conversation-channel payload differ.
proof fn lemma_room_names()
    ensures
        "mac"@ != "keys"@,
        "mac"@ != "m.relates_to"@,
        "keys"@ != "m.relates_to"@,
{
    reveal_strlit("mac");
    reveal_strlit("keys");
    reveal_strlit("m.relates_to");
    assert("mac"@.len() == 3);
    assert("keys"@.len() == 4);
    assert("m.relates_to"@.len() == 12);
}

/// Walking the three members of an encoded conversation-channel object
/// binds each field once and stops at the closing brace.
#[verifier::rlimit(100)]
proof fn lemma_room_walk(
    s: Seq<char>,
    o1: int,
    o2: int,
    o3: int,
    o4: int,
    o5: int,
    o6: int,
    o7: int,
    o8: int,
    o9: int,
    o10: int,
    o11: int,
    o12: int,
    mac: Entries,
    keys: Seq<char>,
    rel: RelationView,
)
    requires
        0 <= o1 < o5 < o9,
        o9 <= s.len(),
        o3 == o2 + 1,
        o5 == o4 + 1,
        o7 == o6 + 1,
        o9 == o8 + 1,
        o11 == o10 + 1,
        o2 < s.len() && s[o2] == ':',
        o4 < s.len() && s[o4] == ',',
        o6 < s.len() && s[o6] == ':',
        o8 < s.len() && s[o8] == ',',
        o10 < s.len() && s[o10] == ':',
        o12 < s.len() && s[o12] == '}',
        sp_string(s, o1) == Some(("mac"@, o2)),
        sp_str_map(s, o3) == Some((mac, o4)),
        sp_string(s, o5) == Some(("keys"@, o6)),
        sp_string(s, o7) == Some((keys, o8)),
        sp_string(s, o9) == Some(("m.relates_to"@, o10)),
        sp_relation(s, o11) == Some((rel, o12)),
        sp_ws(s, o2) == o2,
        sp_ws(s, o3) == o3,
        sp_ws(s, o4) == o4,
        sp_ws(s, o5) == o5,
        sp_ws(s, o6) == o6,
        sp_ws(s, o7) == o7,
        sp_ws(s, o8) == o8,
        sp_ws(s, o9) == o9,
        sp_ws(s, o10) == o10,
        sp_ws(s, o11) == o11,
        sp_ws(s, o12) == o12,
    ensures
        sp_room_members(s, o1, None, None, None) == Ok::<_, DecodeFail>(
            (Some(mac), Some(keys), Some(rel), o12 + 1),
        ),
{
    lemma_room_names();
    assert(sp_room_members(s, o9, Some(mac), Some(keys), None) == Ok::<_, DecodeFail>(
        (Some(mac), Some(keys), Some(rel), o12 + 1),
    ));
    assert(sp_room_members(s, o5, Some(mac), None, None) == Ok::<_, DecodeFail>(
        (Some(mac), Some(keys), Some(rel), o12 + 1),
    ));
    assert(sp_room_members(s, o1, None, None, None) == Ok::<_, DecodeFail>(
        (Some(mac), Some(keys), Some(rel), o12 + 1),
    ));
}

/// Placement of the pieces of an encoded conversation-channel document.
#[verifier::rlimit(100)]
proof fn lemma_room_segs(
    v: MacView,
    o1: int,
    o2: int,
    o3: int,
    o4: int,
    o5: int,
    o6: int,
    o7: int,
    o8: int,
    o9: int,
    o10: int,
    o11: int,
    o12: int,
)
    requires
        o1 == 1,
        o2 == o1 + enc_str("mac"@).len(),
        o3 == o2 + 1,
        o4 == o3 + enc_mac(v.mac).len(),
        o5 == o4 + 1,
        o6 == o5 + enc_str("keys"@).len(),
        o7 == o6 + 1,
        o8 == o7 + enc_str(v.keys).len(),
        o9 == o8 + 1,
        o10 == o9 + enc_str("m.relates_to"@).len(),
        o11 == o10 + 1,
        o12 == o11 + enc_rel(v.relates_to).len(),
    ensures
        ({
            let s = enc_room(v);
            &&& s.len() == o12 + 1
            &&& s[0] == '{'
            &&& s[o2] == ':'
            &&& s[o4] == ','
            &&& s[o6] == ':'
            &&& s[o8] == ','
            &&& s[o10] == ':'
            &&& s[o12] == '}'
            &&& at_seg(s, o1, enc_str("mac"@))
            &&& at_seg(s, o3, enc_mac(v.mac))
            &&& at_seg(s, o5, enc_str("keys"@))
            &&& at_seg(s, o7, enc_str(v.keys))
            &&& at_seg(s, o9, enc_str("m.relates_to"@))
            &&& at_seg(s, o11, enc_rel(v.relates_to))
        }),
{
    let s = enc_room(v);
    let mn = enc_str("mac"@);
    let mv = enc_mac(v.mac);
    let kn = enc_str("keys"@);
    let kv = enc_str(v.keys);
    let rn = enc_str("m.relates_to"@);
    let rv = enc_rel(v.relates_to);
    let pre0 = seq!['{'];
    let pre1 = pre0 + mn;
    let pre2 = pre1 + seq![':'];
    let pre3 = pre2 + mv;
    let pre4 = pre3 + seq![','];
    let pre5 = pre4 + kn;
    let pre6 = pre5 + seq![':'];
    let pre7 = pre6 + kv;
    let pre8 = pre7 + seq![','];
    let pre9 = pre8 + rn;
    let pre10 = pre9 + seq![':'];
    let pre11 = pre10 + rv;
    assert(s == pre11 + seq!['}']);
    assert(at_seg(s, 0, pre11 + seq!['}'])) by {
        assert(s.subrange(0, s.len() as int) =~= s);
    }
    lemma_at_seg_split(s, 0, pre11, seq!['}']);
    lemma_at_seg_split(s, 0, pre10, rv);
    lemma_at_seg_split(s, 0, pre9, seq![':']);
    lemma_at_seg_split(s, 0, pre8, rn);
    lemma_at_seg_split(s, 0, pre7, seq![',']);
    lemma_at_seg_split(s, 0, pre6, kv);
    lemma_at_seg_split(s, 0, pre5, seq![':']);
    lemma_at_seg_split(s, 0, pre4, kn);
    lemma_at_seg_split(s, 0, pre3, seq![',']);
    lemma_at_seg_split(s, 0, pre2, mv);
    lemma_at_seg_split(s, 0, pre1, seq![':']);
    lemma_at_seg_split(s, 0, pre0, mn);
    assert(pre0.len() == o1 && pre1.len() == o2 && pre2.len() == o3 && pre3.len() == o4 && pre4.len() == o5
        && pre5.len() == o6 && pre6.len() == o7 && pre7.len() == o8 && pre8.len() == o9 && pre9.len() == o10
        && pre10.len() == o11 && pre11.len() == o12);
    assert(s[0] == '{') by {
        assert(s.subrange(0, 1)[0] == seq!['{'][0]);
    }
    assert(s[o2] == ':') by {
        assert(s.subrange(o2, o2 + 1)[0] == seq![':'][0]);
    }
    assert(s[o4] == ',') by {
        assert(s.subrange(o4, o4 + 1)[0] == seq![','][0]);
    }
    assert(s[o6] == ':') by {
        assert(s.subrange(o6, o6 + 1)[0] == seq![':'][0]);
    }
    assert(s[o8] == ',') by {
        assert(s.subrange(o8, o8 + 1)[0] == seq![','][0]);
    }
    assert(s[o10] == ':') by {
        assert(s.subrange(o10, o10 + 1)[0] == seq![':'][0]);
    }
    assert(s[o12] == '}') by {
        assert(s.subrange(o12, o12 + 1)[0] == seq!['}'][0]);
    }
}

/// Layout of an encoded conversation-channel document: what stands at
/// each offset, and where each token parse lands.
#[verifier::rlimit(100)]
proof fn lemma_room_layout(
    v: MacView,
    o1: int,
    o2: int,
    o3: int,
    o4: int,
    o5: int,
    o6: int,
    o7: int,
    o8: int,
    o9: int,
    o10: int,
    o11: int,
    o12: int,
)
    requires
        o1 == 1,
        o2 == o1 + enc_str("mac"@).len(),
        o3 == o2 + 1,
        o4 == o3 + enc_mac(v.mac).len(),
        o5 == o4 + 1,
        o6 == o5 + enc_str("keys"@).len(),
        o7 == o6 + 1,
        o8 == o7 + enc_str(v.keys).len(),
        o9 == o8 + 1,
        o10 == o9 + enc_str("m.relates_to"@).len(),
        o11 == o10 + 1,
        o12 == o11 + enc_rel(v.relates_to).len(),
    ensures
        ({
            let s = enc_room(v);
            &&& s.len() == o12 + 1
            &&& s[0] == '{'
            &&& s[o1] == '"'
            &&& s[o2] == ':'
            &&& s[o4] == ','
            &&& s[o6] == ':'
            &&& s[o8] == ','
            &&& s[o10] == ':'
            &&& s[o12] == '}'
            &&& sp_string(s, o1) == Some(("mac"@, o2))
            &&& sp_str_map(s, o3) == Some((v.mac, o4))
            &&& sp_string(s, o5) == Some(("keys"@, o6))
            &&& sp_string(s, o7) == Some((v.keys, o8))
            &&& sp_string(s, o9) == Some(("m.relates_to"@, o10))
            &&& at_seg(s, o11, enc_rel(v.relates_to))
            &&& sp_ws(s, 0) == 0
            &&& sp_ws(s, o1) == o1
            &&& sp_ws(s, o2) == o2
            &&& sp_ws(s, o3) == o3
            &&& sp_ws(s, o4) == o4
            &&& sp_ws(s, o5) == o5
            &&& sp_ws(s, o6) == o6
            &&& sp_ws(s, o7) == o7
            &&& sp_ws(s, o8) == o8
            &&& sp_ws(s, o9) == o9
            &&& sp_ws(s, o10) == o10
            &&& sp_ws(s, o11) == o11
            &&& sp_ws(s, o12) == o12
            &&& sp_ws(s, s.len() as int) == s.len()
        }),
{
    let s = enc_room(v);
    lemma_room_segs(v, o1, o2, o3, o4, o5, o6, o7, o8, o9, o10, o11, o12);
    assert(s[o1] == '"') by {
        let mn = enc_str("mac"@);
        assert(s.subrange(o1, o2)[0] == mn[0]);
    }
    assert(s[o3] == '{') by {
        let mv = enc_mac(v.mac);
        assert(s.subrange(o3, o4)[0] == mv[0]);
    }
    assert(s[o5] == '"') by {
        let kn = enc_str("keys"@);
        assert(s.subrange(o5, o6)[0] == kn[0]);
    }
    assert(s[o7] == '"') by {
        let kv = enc_str(v.keys);
        assert(s.subrange(o7, o8)[0] == kv[0]);
    }
    assert(s[o9] == '"') by {
        let rn = enc_str("m.relates_to"@);
        assert(s.subrange(o9, o10)[0] == rn[0]);
    }
    assert(s[o11] == '{') by {
        let rv = enc_rel(v.relates_to);
        assert(s.subrange(o11, o12)[0] == rv[0]);
    }
    lemma_string_inverse(s, o1, "mac"@);
    lemma_mac_inverse(s, o3, v.mac);
    lemma_string_inverse(s, o5, "keys"@);
    lemma_string_inverse(s, o7, v.keys);
    lemma_string_inverse(s, o9, "m.relates_to"@);
    lemma_ws_stop(s, 0);
    lemma_ws_stop(s, o1);
    lemma_ws_stop(s, o2);
    lemma_ws_stop(s, o3);
    lemma_ws_stop(s, o4);
    lemma_ws_stop(s, o5);
    lemma_ws_stop(s, o6);
    lemma_ws_stop(s, o7);
    lemma_ws_stop(s, o8);
    lemma_ws_stop(s, o9);
    lemma_ws_stop(s, o10);
    lemma_ws_stop(s, o11);
    lemma_ws_stop(s, o12);
    lemma_ws_stop(s, s.len() as int);
}

/// Round trip: decoding the wire form of any payload whose mapping is in
/// canonical order — every payload this crate builds is — yields the
/// payload back, field for field.
#[verifier::rlimit(100)]
pub proof fn lemma_room_round_trip(v: MacView)
    requires
        crate::macmap::sorted_keys(v.mac),
    ensures
        sp_decode_room(enc_room(v)) == Ok::<MacView, DecodeFail>(v),
{
    let s = enc_room(v);
    let o1: int = 1;
    let o2 = o1 + enc_str("mac"@).len();
    let o3 = o2 + 1;
    let o4 = o3 + enc_mac(v.mac).len();
    let o5 = o4 + 1;
    let o6 = o5 + enc_str("keys"@).len();
    let o7 = o6 + 1;
    let o8 = o7 + enc_str(v.keys).len();
    let o9 = o8 + 1;
    let o10 = o9 + enc_str("m.relates_to"@).len();
    let o11 = o10 + 1;
    let o12 = o11 + enc_rel(v.relates_to).len();
    lemma_room_layout(v, o1, o2, o3, o4, o5, o6, o7, o8, o9, o10, o11, o12);
    lemma_rel_inverse(s, o11, v.relates_to);
    lemma_room_walk(
        s,
        o1,
        o2,
        o3,
        o4,
        o5,
        o6,
        o7,
        o8,
        o9,
        o10,
        o11,
        o12,
        v.mac,
        v.keys,
        v.relates_to,
    );
    crate::macmap::lemma_insert_all_sorted(v.mac);
    assert((MacView { mac: insert_all(v.mac), keys: v.keys, relates_to: v.relates_to }) =~= v);
}

impl MacEventContent {
    /// Creates a new payload with the given key ID to MAC map, key MAC and
    /// relation.
    ///
    /// Fails when the mapping is empty or a key identifier is not
    /// `<algorithm>:<id>`; the Base64 shape of `keys` and the shape of the
    /// relation are checked at the decode and validate boundaries, not
    /// here.
    pub fn new(mac: MacMap, keys: String, relates_to: Relation) -> (r: Result<
        Self,
        InvalidArgument,
    >)
        ensures
            r is Ok <==> constructible(mac@),
            r matches Ok(p) ==> p@ == (MacView {
                mac: mac@,
                keys: keys@,
                relates_to: relates_to@,
            }),
    {
        if mac.len() == 0 {
            return Err(InvalidArgument);
        }
        let n = mac.len();
        let mut i: usize = 0;
        while i < n
            invariant
                n == mac@.len(),
                i <= n,
                forall|k: int| 0 <= k < i ==> valid_key_id(#[trigger] mac@[k].0),
            decreases n - i,
        {
            if !check_key_id(mac.key_at(i).as_str()) {
                return Err(InvalidArgument);
            }
            i += 1;
        }
        Ok(MacEventContent { mac, keys, relates_to })
    }


    /// The delivery channel whose schema this payload follows.
    pub fn channel() -> (r: crate::envelope::DeliveryChannel)
        ensures
            r == crate::envelope::DeliveryChannel::InRoom,
    {
        crate::envelope::DeliveryChannel::InRoom
    }

    /// Serializes the payload to its wire form: a flat object with exactly
    /// the fields `mac`, `keys` and `m.relates_to`.  Encoding cannot fail: every
    /// payload value, validated or not, has a wire form.
    pub fn encode(&self) -> (r: String)
        ensures
            r@ == enc_room(self@),
    {
        let mut out = String::new();
        push_char(&mut out, '{');
        append_enc_str(&mut out, "mac");
        push_char(&mut out, ':');
        append_enc_mac(&mut out, &self.mac);
        push_char(&mut out, ',');
        append_enc_str(&mut out, "keys");
        push_char(&mut out, ':');
        append_enc_str(&mut out, self.keys.as_str());
        push_char(&mut out, ',');
        append_enc_str(&mut out, "m.relates_to");
        push_char(&mut out, ':');
        push_char(&mut out, '{');
        append_enc_str(&mut out, "rel_type");
        push_char(&mut out, ':');
        append_enc_str(&mut out, self.relates_to.rel_type.as_str());
        push_char(&mut out, ',');
        append_enc_str(&mut out, "event_id");
        push_char(&mut out, ':');
        append_enc_str(&mut out, self.relates_to.event_id.as_str());
        push_char(&mut out, '}');
        push_char(&mut out, '}');
        proof {
            assert(out@ =~= enc_room(self@));
        }
        out
    }

    /// Decodes a wire document into a payload.
    ///
    /// Fails with a missing-field error when a mandatory field is absent
    /// (`mac` first, then `keys`, then `m.relates_to`), and with a
    /// mismatch error naming the field whose value has the wrong shape —
    /// a malformed relation object is reported as a mismatch of
    /// `m.relates_to` — or naming the document itself (by the empty name)
    /// where the input is not one object.  Unknown fields are skipped, not
    /// rejected; they are not preserved.  Semantic validation is left to
    /// the explicit validation step.
    pub fn decode(s: &str) -> (r: Result<Self, DecodeError>)
        ensures
            r matches Ok(p) ==> sp_decode_room(s@) == Ok::<MacView, DecodeFail>(p@) && p.mac.wf(),
            r matches Err(e) ==> sp_decode_room(s@) == Err::<MacView, DecodeFail>(e@),
            r is Ok <==> sp_decode_room(s@) is Ok,
    {
        let n = s.unicode_len();
        let i0 = p_ws(s, 0);
        if i0 >= n || s.get_char(i0) != '{' {
            return Err(document_error());
        }
        let j = p_ws(s, i0 + 1);
        let fin: (Option<Vec<(String, String)>>, Option<String>, Option<Relation>, usize) = if j
            < n && s.get_char(j) == '}' {
            (None, None, None, j + 1)
        } else {
            match p_room_members(s, j) {
                Err(e) => {
                    return Err(e);
                },
                Ok(p) => p,
            }
        };
        let end = p_ws(s, fin.3);
        if end != n {
            return Err(document_error());
        }
        let entries = match fin.0 {
            None => {
                return Err(DecodeError::MissingField("mac".to_owned()));
            },
            Some(m) => m,
        };
        let keys = match fin.1 {
            None => {
                return Err(DecodeError::MissingField("keys".to_owned()));
            },
            Some(k) => k,
        };
        let relates_to = match fin.2 {
            None => {
                return Err(DecodeError::MissingField("m.relates_to".to_owned()));
            },
            Some(r) => r,
        };
        let mac = build_macmap(&entries);
        Ok(MacEventContent { mac, keys, relates_to })
    }

    /// Checks the semantic invariants of the payload: a non-empty mapping,
    /// well-shaped key identifiers, an unpadded-Base64 `keys` field and a
    /// well-formed relation link.  Returns the first violation, in that
    /// order.
    pub fn validate(&self) -> (r: Result<(), ValidationError>)
        ensures
            r == spec_validate_room(self@),
    {
        if self.mac.len() == 0 {
            return Err(ValidationError::EmptyMac);
        }
        let n = self.mac.len();
        let mut i: usize = 0;
        while i < n
            invariant
                n == self@.mac.len(),
                i <= n,
                forall|k: int| 0 <= k < i ==> valid_key_id(#[trigger] self@.mac[k].0),
            decreases n - i,
        {
            if !check_key_id(self.mac.key_at(i).as_str()) {
                return Err(ValidationError::BadKeyIdFormat);
            }
            i += 1;
        }
        if !check_unpadded_base64(self.keys.as_str()) {
            return Err(ValidationError::BadBase64);
        }
        if self.relates_to.rel_type.as_str().unicode_len() == 0 || self.relates_to.event_id.as_str().unicode_len() == 0 {
            return Err(ValidationError::BadRelation);
        }
        Ok(())
    }
}

} // verus!
