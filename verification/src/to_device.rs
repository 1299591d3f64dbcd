//! The device-channel MAC payload: carried in a direct device-to-device
//! message and scoped by an explicit transaction identifier.

use vstd::prelude::*;
use crate::errors::doc_err;
use crate::errors::document_error;
use crate::errors::DecodeError;
use crate::errors::DecodeFail;
use crate::errors::InvalidArgument;
use crate::errors::ValidationError;
use crate::format::check_key_id;
use crate::format::check_unpadded_base64;
use crate::format::valid_key_id;
use crate::format::valid_unpadded_base64;
use crate::lex::str_eq;
use crate::macmap::build_macmap;
use crate::macmap::insert_all;
use crate::macmap::Entries;
use crate::macmap::MacMap;
use crate::wire::append_enc_mac;
use crate::wire::at_seg;
use crate::wire::lemma_at_seg_split;
use crate::wire::lemma_string_inverse;
use crate::wire::append_enc_str;
use crate::wire::enc_mac;
use crate::wire::enc_str;
use crate::wire::opt_pairs_view;
use crate::wire::opt_str_view;
use crate::wire::p_skip_value;
use crate::wire::p_str_map;
use crate::wire::p_string;
use crate::wire::p_ws;
use crate::wire::push_char;
use crate::wire::sp_skip_value;
use crate::wire::sp_str_map;
use crate::wire::sp_string;
use crate::wire::sp_ws;

verus! {

/// Ghost image of the device-channel payload.
#[verifier::ext_equal]
pub struct DeviceMacView {
    pub transaction_id: Seq<char>,
    pub mac: Entries,
    pub keys: Seq<char>,
}

/// The content of a device-channel MAC-confirmation message.
///
/// Sends the MACs of a device's keys to the partner device.
#[derive(Clone, Debug)]
pub struct ToDeviceMacEventContent {
    /// An opaque identifier for the verification process.
    ///
    /// Must be the same as the one used for the start message of the
    /// session.
    pub transaction_id: String,
    /// A map of the key ID to the MAC of the key, using the algorithm of
    /// the verification process.
    ///
    /// The MAC is encoded as unpadded Base64.
    pub mac: MacMap,
    /// The MAC of the comma-separated, sorted list of key IDs given in the
    /// `mac` property, encoded as unpadded Base64.
    pub keys: String,
}

impl View for ToDeviceMacEventContent {
    type V = DeviceMacView;

    open spec fn view(&self) -> DeviceMacView {
        DeviceMacView {
            transaction_id: self.transaction_id@,
            mac: self.mac@,
            keys: self.keys@,
        }
    }
}

/// The MAC mappings from which construction succeeds: at least one entry,
/// and every key identifier of the `<algorithm>:<id>` shape.
pub open spec fn constructible(mac: Entries) -> bool {
    &&& mac.len() > 0
    &&& forall|i: int| 0 <= i < mac.len() ==> valid_key_id(#[trigger] mac[i].0)
}

/// What the explicit validation step finds, in the order in which it
/// looks: an empty mapping, then a malformed key identifier, then a `keys`
/// field that is not unpadded Base64.
pub open spec fn spec_validate_device(v: DeviceMacView) -> Result<(), ValidationError> {
    if v.mac.len() == 0 {
        Err(ValidationError::EmptyMac)
    } else if exists|i: int|
        0 <= i < v.mac.len() && !valid_key_id(#[trigger] v.mac[i].0) {
        Err(ValidationError::BadKeyIdFormat)
    } else if !valid_unpadded_base64(v.keys) {
        Err(ValidationError::BadBase64)
    } else {
        Ok(())
    }
}

/// The wire form of the device-channel payload: a flat object with
/// exactly the fields `transaction_id`, `mac` and `keys`, in that order.
pub open spec fn enc_device(v: DeviceMacView) -> Seq<char> {
    seq!['{'] + enc_str("transaction_id"@) + seq![':'] + enc_str(v.transaction_id) + seq![',']
        + enc_str("mac"@) + seq![':'] + enc_mac(v.mac) + seq![','] + enc_str("keys"@) + seq![':']
        + enc_str(v.keys) + seq!['}']
}

/// Parses the members of the device-channel object from the first key at
/// `i` up to the closing brace; `tid`, `mac` and `keys` hold what earlier
/// members bound (a repeated field keeps the last value), and unknown
/// members are skipped.
pub open spec fn sp_dev_members(
    s: Seq<char>,
    i: int,
    tid: Option<Seq<char>>,
    mac: Option<Entries>,
    keys: Option<Seq<char>>,
) -> Result<(Option<Seq<char>>, Option<Entries>, Option<Seq<char>>, int), DecodeFail>
    decreases s.len() - i,
{
    match sp_string(s, i) {
        None => Err(doc_err()),
        Some((k, j)) => {
            let j2 = sp_ws(s, j);
            if j2 >= s.len() || s[j2] != ':' {
                Err(doc_err())
            } else {
                let j3 = sp_ws(s, j2 + 1);
                let step: Result<
                    (Option<Seq<char>>, Option<Entries>, Option<Seq<char>>, int),
                    DecodeFail,
                > = if k == "transaction_id"@ {
                    match sp_string(s, j3) {
                        None => Err(DecodeFail::TypeMismatch(k)),
                        Some((v, j4)) => Ok((Some(v), mac, keys, j4)),
                    }
                } else if k == "mac"@ {
                    match sp_str_map(s, j3) {
                        None => Err(DecodeFail::TypeMismatch(k)),
                        Some((m, j4)) => Ok((tid, Some(m), keys, j4)),
                    }
                } else if k == "keys"@ {
                    match sp_string(s, j3) {
                        None => Err(DecodeFail::TypeMismatch(k)),
                        Some((v, j4)) => Ok((tid, mac, Some(v), j4)),
                    }
                } else {
                    match sp_skip_value(s, j3) {
                        None => Err(DecodeFail::TypeMismatch(k)),
                        Some(j4) => Ok((tid, mac, keys, j4)),
                    }
                };
                match step {
                    Err(e) => Err(e),
                    Ok((t2, m2, k2, j4)) => {
                        let j5 = sp_ws(s, j4);
                        if j5 >= s.len() {
                            Err(doc_err())
                        } else if s[j5] == '}' {
                            Ok((t2, m2, k2, j5 + 1))
                        } else if s[j5] == ',' {
                            let j6 = sp_ws(s, j5 + 1);
                            if i < j6 <= s.len() {
                                sp_dev_members(s, j6, t2, m2, k2)
                            } else {
                                Err(doc_err())
                            }
                        } else {
                            Err(doc_err())
                        }
                    },
                }
            }
        },
    }
}

/// What decoding a device-channel document yields: the payload, or the
/// first shape violation found.  Semantic validation (invariants on the
/// decoded values) is the explicit validation step's task, not this one's.
pub open spec fn sp_decode_device(s: Seq<char>) -> Result<DeviceMacView, DecodeFail> {
    let i0 = sp_ws(s, 0);
    if i0 >= s.len() || s[i0] != '{' {
        Err(doc_err())
    } else {
        let j = sp_ws(s, i0 + 1);
        let fin: Result<
            (Option<Seq<char>>, Option<Entries>, Option<Seq<char>>, int),
            DecodeFail,
        > = if j < s.len() && s[j] == '}' {
            Ok((None, None, None, j + 1))
        } else {
            sp_dev_members(s, j, None, None, None)
        };
        match fin {
            Err(e) => Err(e),
            Ok((tid, mac, keys, end)) => {
                if sp_ws(s, end) != s.len() {
                    Err(doc_err())
                } else {
                    match (tid, mac, keys) {
                        (None, _, _) => Err(DecodeFail::MissingField("transaction_id"@)),
                        (_, None, _) => Err(DecodeFail::MissingField("mac"@)),
                        (_, _, None) => Err(DecodeFail::MissingField("keys"@)),
                        (Some(t), Some(m), Some(k)) => Ok(
                            DeviceMacView { transaction_id: t, mac: insert_all(m), keys: k },
                        ),
                    }
                }
            },
        }
    }
}

/// The three field names of the device-channel payload differ.
proof fn lemma_dev_names()
    ensures
        "transaction_id"@ != "mac"@,
        "transaction_id"@ != "keys"@,
        "mac"@ != "keys"@,
{
    reveal_strlit("transaction_id");
    reveal_strlit("mac");
    reveal_strlit("keys");
    assert("transaction_id"@.len() == 14);
    assert("mac"@.len() == 3);
    assert("keys"@.len() == 4);
}

/// Walking the three members of an encoded device-channel object binds
/// each field once and stops at the closing brace.
#[verifier::rlimit(100)]
proof fn lemma_dev_walk(
    s: Seq<char>,
    o1: int,
    o2: int,
    o3: int,
    o4: int,
    o5: int,
    o6: int,
    o7: int,
    o8: int,
    o9: int,
    o10: int,
    o11: int,
    o12: int,
    tid: Seq<char>,
    mac: Entries,
    keys: Seq<char>,
)
    requires
        0 <= o1 < o5 < o9,
        o9 <= s.len(),
        o3 == o2 + 1,
        o5 == o4 + 1,
        o7 == o6 + 1,
        o9 == o8 + 1,
        o11 == o10 + 1,
        o2 < s.len() && s[o2] == ':',
        o4 < s.len() && s[o4] == ',',
        o6 < s.len() && s[o6] == ':',
        o8 < s.len() && s[o8] == ',',
        o10 < s.len() && s[o10] == ':',
        o12 < s.len() && s[o12] == '}',
        sp_string(s, o1) == Some(("transaction_id"@, o2)),
        sp_string(s, o3) == Some((tid, o4)),
        sp_string(s, o5) == Some(("mac"@, o6)),
        sp_str_map(s, o7) == Some((mac, o8)),
        sp_string(s, o9) == Some(("keys"@, o10)),
        sp_string(s, o11) == Some((keys, o12)),
        sp_ws(s, o2) == o2,
        sp_ws(s, o3) == o3,
        sp_ws(s, o4) == o4,
        sp_ws(s, o5) == o5,
        sp_ws(s, o6) == o6,
        sp_ws(s, o7) == o7,
        sp_ws(s, o8) == o8,
        sp_ws(s, o9) == o9,
        sp_ws(s, o10) == o10,
        sp_ws(s, o11) == o11,
        sp_ws(s, o12) == o12,
    ensures
        sp_dev_members(s, o1, None, None, None) == Ok::<_, DecodeFail>(
            (Some(tid), Some(mac), Some(keys), o12 + 1),
        ),
{
    lemma_dev_names();
    assert(sp_dev_members(s, o9, Some(tid), Some(mac), None) == Ok::<_, DecodeFail>(
        (Some(tid), Some(mac), Some(keys), o12 + 1),
    ));
    assert(sp_dev_members(s, o5, Some(tid), None, None) == Ok::<_, DecodeFail>(
        (Some(tid), Some(mac), Some(keys), o12 + 1),
    ));
    assert(sp_dev_members(s, o1, None, None, None) == Ok::<_, DecodeFail>(
        (Some(tid), Some(mac), Some(keys), o12 + 1),
    ));
}

/// Placement of the pieces of an encoded device-channel document.
#[verifier::rlimit(100)]
proof fn lemma_device_segs(
    v: DeviceMacView,
    o1: int,
    o2: int,
    o3: int,
    o4: int,
    o5: int,
    o6: int,
    o7: int,
    o8: int,
    o9: int,
    o10: int,
    o11: int,
    o12: int,
)
    requires
        o1 == 1,
        o2 == o1 + enc_str("transaction_id"@).len(),
        o3 == o2 + 1,
        o4 == o3 + enc_str(v.transaction_id).len(),
        o5 == o4 + 1,
        o6 == o5 + enc_str("mac"@).len(),
        o7 == o6 + 1,
        o8 == o7 + enc_mac(v.mac).len(),
        o9 == o8 + 1,
        o10 == o9 + enc_str("keys"@).len(),
        o11 == o10 + 1,
        o12 == o11 + enc_str(v.keys).len(),
    ensures
        ({
            let s = enc_device(v);
            &&& s.len() == o12 + 1
            &&& s[0] == '{'
            &&& s[o2] == ':'
            &&& s[o4] == ','
            &&& s[o6] == ':'
            &&& s[o8] == ','
            &&& s[o10] == ':'
            &&& s[o12] == '}'
            &&& at_seg(s, o1, enc_str("transaction_id"@))
            &&& at_seg(s, o3, enc_str(v.transaction_id))
            &&& at_seg(s, o5, enc_str("mac"@))
            &&& at_seg(s, o7, enc_mac(v.mac))
            &&& at_seg(s, o9, enc_str("keys"@))
            &&& at_seg(s, o11, enc_str(v.keys))
        }),
{
    let s = enc_device(v);
    let tn = enc_str("transaction_id"@);
    let tv = enc_str(v.transaction_id);
    let mn = enc_str("mac"@);
    let mv = enc_mac(v.mac);
    let kn = enc_str("keys"@);
    let kv = enc_str(v.keys);
    let pre0 = seq!['{'];
    let pre1 = pre0 + tn;
    let pre2 = pre1 + seq![':'];
    let pre3 = pre2 + tv;
    let pre4 = pre3 + seq![','];
    let pre5 = pre4 + mn;
    let pre6 = pre5 + seq![':'];
    let pre7 = pre6 + mv;
    let pre8 = pre7 + seq![','];
    let pre9 = pre8 + kn;
    let pre10 = pre9 + seq![':'];
    let pre11 = pre10 + kv;
    assert(s == pre11 + seq!['}']);
    assert(at_seg(s, 0, pre11 + seq!['}'])) by {
        assert(s.subrange(0, s.len() as int) =~= s);
    }
    lemma_at_seg_split(s, 0, pre11, seq!['}']);
    lemma_at_seg_split(s, 0, pre10, kv);
    lemma_at_seg_split(s, 0, pre9, seq![':']);
    lemma_at_seg_split(s, 0, pre8, kn);
    lemma_at_seg_split(s, 0, pre7, seq![',']);
    lemma_at_seg_split(s, 0, pre6, mv);
    lemma_at_seg_split(s, 0, pre5, seq![':']);
    lemma_at_seg_split(s, 0, pre4, mn);
    lemma_at_seg_split(s, 0, pre3, seq![',']);
    lemma_at_seg_split(s, 0, pre2, tv);
    lemma_at_seg_split(s, 0, pre1, seq![':']);
    lemma_at_seg_split(s, 0, pre0, tn);
    assert(pre0.len() == o1 && pre1.len() == o2 && pre2.len() == o3 && pre3.len() == o4 && pre4.len() == o5
        && pre5.len() == o6 && pre6.len() == o7 && pre7.len() == o8 && pre8.len() == o9 && pre9.len() == o10
        && pre10.len() == o11 && pre11.len() == o12);
    assert(s[0] == '{') by {
        assert(s.subrange(0, 1)[0] == seq!['{'][0]);
    }
    assert(s[o2] == ':') by {
        assert(s.subrange(o2, o2 + 1)[0] == seq![':'][0]);
    }
    assert(s[o4] == ',') by {
        assert(s.subrange(o4, o4 + 1)[0] == seq![','][0]);
    }
    assert(s[o6] == ':') by {
        assert(s.subrange(o6, o6 + 1)[0] == seq![':'][0]);
    }
    assert(s[o8] == ',') by {
        assert(s.subrange(o8, o8 + 1)[0] == seq![','][0]);
    }
    assert(s[o10] == ':') by {
        assert(s.subrange(o10, o10 + 1)[0] == seq![':'][0]);
    }
    assert(s[o12] == '}') by {
        assert(s.subrange(o12, o12 + 1)[0] == seq!['}'][0]);
    }
}

/// Layout of an encoded device-channel document: what stands at each
/// offset, and where each token parse lands.
#[verifier::rlimit(100)]
proof fn lemma_device_layout(
    v: DeviceMacView,
    o1: int,
    o2: int,
    o3: int,
    o4: int,
    o5: int,
    o6: int,
    o7: int,
    o8: int,
    o9: int,
    o10: int,
    o11: int,
    o12: int,
)
    requires
        o1 == 1,
        o2 == o1 + enc_str("transaction_id"@).len(),
        o3 == o2 + 1,
        o4 == o3 + enc_str(v.transaction_id).len(),
        o5 == o4 + 1,
        o6 == o5 + enc_str("mac"@).len(),
        o7 == o6 + 1,
        o8 == o7 + enc_mac(v.mac).len(),
        o9 == o8 + 1,
        o10 == o9 + enc_str("keys"@).len(),
        o11 == o10 + 1,
        o12 == o11 + enc_str(v.keys).len(),
    ensures
        ({
            let s = enc_device(v);
            &&& s.len() == o12 + 1
            &&& s[0] == '{'
            &&& s[o1] == '"'
            &&& s[o2] == ':'
            &&& s[o4] == ','
            &&& s[o6] == ':'
            &&& s[o8] == ','
            &&& s[o10] == ':'
            &&& s[o12] == '}'
            &&& sp_string(s, o1) == Some(("transaction_id"@, o2))
            &&& sp_string(s, o3) == Some((v.transaction_id, o4))
            &&& sp_string(s, o5) == Some(("mac"@, o6))
            &&& sp_str_map(s, o7) == Some((v.mac, o8))
            &&& sp_string(s, o9) == Some(("keys"@, o10))
            &&& sp_string(s, o11) == Some((v.keys, o12))
            &&& sp_ws(s, 0) == 0
            &&& sp_ws(s, o1) == o1
            &&& sp_ws(s, o2) == o2
            &&& sp_ws(s, o3) == o3
            &&& sp_ws(s, o4) == o4
            &&& sp_ws(s, o5) == o5
            &&& sp_ws(s, o6) == o6
            &&& sp_ws(s, o7) == o7
            &&& sp_ws(s, o8) == o8
            &&& sp_ws(s, o9) == o9
            &&& sp_ws(s, o10) == o10
            &&& sp_ws(s, o11) == o11
            &&& sp_ws(s, o12) == o12
            &&& sp_ws(s, s.len() as int) == s.len()
        }),
{
    let s = enc_device(v);
    lemma_device_segs(v, o1, o2, o3, o4, o5, o6, o7, o8, o9, o10, o11, o12);
    assert(s[o1] == '"') by {
        let tn = enc_str("transaction_id"@);
        assert(s.subrange(o1, o2)[0] == tn[0]);
    }
    assert(s[o3] == '"') by {
        let tv = enc_str(v.transaction_id);
        assert(s.subrange(o3, o4)[0] == tv[0]);
    }
    assert(s[o5] == '"') by {
        let mn = enc_str("mac"@);
        assert(s.subrange(o5, o6)[0] == mn[0]);
    }
    assert(s[o7] == '{') by {
        let mv = enc_mac(v.mac);
        assert(s.subrange(o7, o8)[0] == mv[0]);
    }
    assert(s[o9] == '"') by {
        let kn = enc_str("keys"@);
        assert(s.subrange(o9, o10)[0] == kn[0]);
    }
    assert(s[o11] == '"') by {
        let kv = enc_str(v.keys);
        assert(s.subrange(o11, o12)[0] == kv[0]);
    }
    lemma_string_inverse(s, o1, "transaction_id"@);
    lemma_string_inverse(s, o3, v.transaction_id);
    lemma_string_inverse(s, o5, "mac"@);
    crate::wire::lemma_mac_inverse(s, o7, v.mac);
    lemma_string_inverse(s, o9, "keys"@);
    lemma_string_inverse(s, o11, v.keys);
    crate::wire::lemma_ws_stop(s, 0);
    crate::wire::lemma_ws_stop(s, o1);
    crate::wire::lemma_ws_stop(s, o2);
    crate::wire::lemma_ws_stop(s, o3);
    crate::wire::lemma_ws_stop(s, o4);
    crate::wire::lemma_ws_stop(s, o5);
    crate::wire::lemma_ws_stop(s, o6);
    crate::wire::lemma_ws_stop(s, o7);
    crate::wire::lemma_ws_stop(s, o8);
    crate::wire::lemma_ws_stop(s, o9);
    crate::wire::lemma_ws_stop(s, o10);
    crate::wire::lemma_ws_stop(s, o11);
    crate::wire::lemma_ws_stop(s, o12);
    crate::wire::lemma_ws_stop(s, s.len() as int);
}

/// Round trip: decoding the wire form of any payload whose mapping is in
/// canonical order — every payload this crate builds is — yields the
/// payload back, field for field.
pub proof fn lemma_device_round_trip(v: DeviceMacView)
    requires
        crate::macmap::sorted_keys(v.mac),
    ensures
        sp_decode_device(enc_device(v)) == Ok::<DeviceMacView, DecodeFail>(v),
{
    let s = enc_device(v);
    let o1: int = 1;
    let o2 = o1 + enc_str("transaction_id"@).len();
    let o3 = o2 + 1;
    let o4 = o3 + enc_str(v.transaction_id).len();
    let o5 = o4 + 1;
    let o6 = o5 + enc_str("mac"@).len();
    let o7 = o6 + 1;
    let o8 = o7 + enc_mac(v.mac).len();
    let o9 = o8 + 1;
    let o10 = o9 + enc_str("keys"@).len();
    let o11 = o10 + 1;
    let o12 = o11 + enc_str(v.keys).len();
    lemma_device_layout(v, o1, o2, o3, o4, o5, o6, o7, o8, o9, o10, o11, o12);
    lemma_dev_walk(
        s,
        o1,
        o2,
        o3,
        o4,
        o5,
        o6,
        o7,
        o8,
        o9,
        o10,
        o11,
        o12,
        v.transaction_id,
        v.mac,
        v.keys,
    );
    crate::macmap::lemma_insert_all_sorted(v.mac);
    assert((DeviceMacView {
        transaction_id: v.transaction_id,
        mac: insert_all(v.mac),
        keys: v.keys,
    }) =~= v);
}

/// Parses the members of the device-channel object, from the first key.
fn p_dev_members(s: &str, i: usize) -> (r: Result<
    (Option<String>, Option<Vec<(String, String)>>, Option<String>, usize),
    DecodeError,
>)
    requires
        i <= s@.len(),
    ensures
        match r {
            Ok(p) => sp_dev_members(s@, i as int, None, None, None) == Ok::<_, DecodeFail>(
                (opt_str_view(p.0), opt_pairs_view(p.1), opt_str_view(p.2), p.3 as int),
            ) && p.3 <= s@.len(),
            Err(e) => sp_dev_members(s@, i as int, None, None, None) == Err::<
                (Option<Seq<char>>, Option<Entries>, Option<Seq<char>>, int),
                DecodeFail,
            >(e@),
        },
{
    let n = s.unicode_len();
    let mut tid_c: Option<String> = None;
    let mut mac_c: Option<Vec<(String, String)>> = None;
    let mut keys_c: Option<String> = None;
    let mut cur = i;
    loop
        invariant
            n == s@.len(),
            i <= cur <= n,
            sp_dev_members(s@, i as int, None, None, None) == sp_dev_members(
                s@,
                cur as int,
                opt_str_view(tid_c),
                opt_pairs_view(mac_c),
                opt_str_view(keys_c),
            ),
        decreases n - cur,
    {
        let k = match p_string(s, cur) {
            None => {
                return Err(document_error());
            },
            Some(p) => p,
        };
        let j2 = p_ws(s, k.1);
        if j2 >= n || s.get_char(j2) != ':' {
            return Err(document_error());
        }
        let j3 = p_ws(s, j2 + 1);
        let j4 = if str_eq(k.0.as_str(), "transaction_id") {
            match p_string(s, j3) {
                None => {
                    return Err(DecodeError::TypeMismatch(k.0));
                },
                Some(v) => {
                    tid_c = Some(v.0);
                    v.1
                },
            }
        } else if str_eq(k.0.as_str(), "mac") {
            match p_str_map(s, j3) {
                None => {
                    return Err(DecodeError::TypeMismatch(k.0));
                },
                Some(m) => {
                    mac_c = Some(m.0);
                    m.1
                },
            }
        } else if str_eq(k.0.as_str(), "keys") {
            match p_string(s, j3) {
                None => {
                    return Err(DecodeError::TypeMismatch(k.0));
                },
                Some(v) => {
                    keys_c = Some(v.0);
                    v.1
                },
            }
        } else {
            match p_skip_value(s, j3) {
                None => {
                    return Err(DecodeError::TypeMismatch(k.0));
                },
                Some(j) => j,
            }
        };
        let j5 = p_ws(s, j4);
        if j5 >= n {
            return Err(document_error());
        }
        let c = s.get_char(j5);
        if c == '}' {
            return Ok((tid_c, mac_c, keys_c, j5 + 1));
        }
        if c != ',' {
            return Err(document_error());
        }
        let j6 = p_ws(s, j5 + 1);
        if j6 <= cur {
            return Err(document_error());
        }
        cur = j6;
    }
}

impl ToDeviceMacEventContent {
    /// Creates a new payload with the given transaction ID, key ID to MAC
    /// map and key MAC.
    ///
    /// Fails when the mapping is empty or a key identifier is not
    /// `<algorithm>:<id>`; the Base64 shape of `keys` is checked at the
    /// decode and validate boundaries, not here.
    pub fn new(transaction_id: String, mac: MacMap, keys: String) -> (r: Result<
        Self,
        InvalidArgument,
    >)
        ensures
            r is Ok <==> constructible(mac@),
            r matches Ok(p) ==> p@ == (DeviceMacView {
                transaction_id: transaction_id@,
                mac: mac@,
                keys: keys@,
            }),
    {
        if mac.len() == 0 {
            return Err(InvalidArgument);
        }
        let n = mac.len();
        let mut i: usize = 0;
        while i < n
            invariant
                n == mac@.len(),
                i <= n,
                forall|k: int| 0 <= k < i ==> valid_key_id(#[trigger] mac@[k].0),
            decreases n - i,
        {
            if !check_key_id(mac.key_at(i).as_str()) {
                return Err(InvalidArgument);
            }
            i += 1;
        }
        Ok(ToDeviceMacEventContent { transaction_id, mac, keys })
    }

    /// The delivery channel whose schema this payload follows.
    pub fn channel() -> (r: crate::envelope::DeliveryChannel)
        ensures
            r == crate::envelope::DeliveryChannel::ToDevice,
    {
        crate::envelope::DeliveryChannel::ToDevice
    }

    /// Serializes the payload to its wire form: a flat object with exactly
    /// the fields `transaction_id`, `mac` and `keys`.  Encoding cannot fail: every
    /// payload value, validated or not, has a wire form.
    pub fn encode(&self) -> (r: String)
        ensures
            r@ == enc_device(self@),
    {
        let mut out = String::new();
        push_char(&mut out, '{');
        append_enc_str(&mut out, "transaction_id");
        push_char(&mut out, ':');
        append_enc_str(&mut out, self.transaction_id.as_str());
        push_char(&mut out, ',');
        append_enc_str(&mut out, "mac");
        push_char(&mut out, ':');
        append_enc_mac(&mut out, &self.mac);
        push_char(&mut out, ',');
        append_enc_str(&mut out, "keys");
        push_char(&mut out, ':');
        append_enc_str(&mut out, self.keys.as_str());
        push_char(&mut out, '}');
        proof {
            assert(out@ =~= enc_device(self@));
        }
        out
    }

    /// Decodes a wire document into a payload.
    ///
    /// Fails with a missing-field error when a mandatory field is absent
    /// (`transaction_id` first, then `mac`, then `keys`), and with a
    /// mismatch error naming the field whose value has the wrong shape, or
    /// naming the document itself (by the empty name) where the input is
    /// not one object.  Unknown fields are skipped, not rejected; they are
    /// not preserved.  Semantic validation is left to the explicit
    /// validation step, so a malformed-but-parseable payload can still be
    /// inspected before rejection.
    pub fn decode(s: &str) -> (r: Result<Self, DecodeError>)
        ensures
            r matches Ok(p) ==> sp_decode_device(s@) == Ok::<DeviceMacView, DecodeFail>(p@)
                && p.mac.wf(),
            r matches Err(e) ==> sp_decode_device(s@) == Err::<DeviceMacView, DecodeFail>(e@),
            r is Ok <==> sp_decode_device(s@) is Ok,
    {
        let n = s.unicode_len();
        let i0 = p_ws(s, 0);
        if i0 >= n || s.get_char(i0) != '{' {
            return Err(document_error());
        }
        let j = p_ws(s, i0 + 1);
        let fin: (Option<String>, Option<Vec<(String, String)>>, Option<String>, usize) = if j < n
            && s.get_char(j) == '}' {
            (None, None, None, j + 1)
        } else {
            match p_dev_members(s, j) {
                Err(e) => {
                    return Err(e);
                },
                Ok(p) => p,
            }
        };
        let end = p_ws(s, fin.3);
        if end != n {
            return Err(document_error());
        }
        let tid = match fin.0 {
            None => {
                return Err(DecodeError::MissingField("transaction_id".to_owned()));
            },
            Some(t) => t,
        };
        let entries = match fin.1 {
            None => {
                return Err(DecodeError::MissingField("mac".to_owned()));
            },
            Some(m) => m,
        };
        let keys = match fin.2 {
            None => {
                return Err(DecodeError::MissingField("keys".to_owned()));
            },
            Some(k) => k,
        };
        let mac = build_macmap(&entries);
        Ok(ToDeviceMacEventContent { transaction_id: tid, mac, keys })
    }

    /// Checks the semantic invariants of the payload: a non-empty mapping,
    /// well-shaped key identifiers, and an unpadded-Base64 `keys` field.
    /// Returns the first violation, in that order.
    pub fn validate(&self) -> (r: Result<(), ValidationError>)
        ensures
            r == spec_validate_device(self@),
    {
        if self.mac.len() == 0 {
            return Err(ValidationError::EmptyMac);
        }
        let n = self.mac.len();
        let mut i: usize = 0;
        while i < n
            invariant
                n == self@.mac.len(),
                i <= n,
                forall|k: int| 0 <= k < i ==> valid_key_id(#[trigger] self@.mac[k].0),
            decreases n - i,
        {
            if !check_key_id(self.mac.key_at(i).as_str()) {
                return Err(ValidationError::BadKeyIdFormat);
            }
            i += 1;
        }
        if !check_unpadded_base64(self.keys.as_str()) {
            return Err(ValidationError::BadBase64);
        }
        Ok(())
    }
}

} // verus!
