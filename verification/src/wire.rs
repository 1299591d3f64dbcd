//! The wire form of the payloads: a flat JSON object of exact,
//! case-sensitive field names.
//!
//! Encoding is canonical: fields in declaration order, no whitespace, `"`
//! and `\` escaped (and nothing else, so every string of characters
//! round-trips unchanged).  The decoder is lenient where the encoder is
//! strict: it takes whitespace between tokens, fields in any order, the
//! short escapes of JSON, and it skips fields it does not know, so a
//! payload extended with future fields still decodes.  It does not take
//! `\u` escapes; a document using them is reported as a mismatch.

use vstd::prelude::*;
use crate::macmap::Entries;

verus! {

// ---------------------------------------------------------------------
// Encoding
// ---------------------------------------------------------------------

/// The wire form of one character inside a string: `"` and `\` get a
/// backslash, everything else stands for itself.
pub open spec fn esc_char(c: char) -> Seq<char> {
    if c == '"' {
        seq!['\\', '"']
    } else if c == '\\' {
        seq!['\\', '\\']
    } else {
        seq![c]
    }
}

/// The wire form of the characters of a string.
pub open spec fn escape(s: Seq<char>) -> Seq<char>
    decreases s.len(),
{
    if s.len() == 0 {
        Seq::empty()
    } else {
        esc_char(s[0]) + escape(s.drop_first())
    }
}

/// The wire form of a string: quoted and escaped.
pub open spec fn enc_str(s: Seq<char>) -> Seq<char> {
    seq!['"'] + escape(s) + seq!['"']
}

/// The wire form of one mapping entry.
pub open spec fn enc_entry(e: (Seq<char>, Seq<char>)) -> Seq<char> {
    enc_str(e.0) + seq![':'] + enc_str(e.1)
}

/// The wire form of the mapping entries from position `i` on,
/// comma-separated.
pub open spec fn enc_entries(entries: Entries, i: int) -> Seq<char>
    decreases entries.len() - i,
{
    if i < 0 || i >= entries.len() {
        Seq::empty()
    } else if i + 1 < entries.len() {
        enc_entry(entries[i]) + seq![','] + enc_entries(entries, i + 1)
    } else {
        enc_entry(entries[i])
    }
}

/// The wire form of the MAC mapping.
pub open spec fn enc_mac(entries: Entries) -> Seq<char> {
    seq!['{'] + enc_entries(entries, 0) + seq!['}']
}

/// Escaping one more character appends its wire form.
pub proof fn lemma_escape_push(s: Seq<char>, c: char)
    ensures
        escape(s.push(c)) == escape(s) + esc_char(c),
    decreases s.len(),
{
    if s.len() == 0 {
        assert(s.push(c).drop_first() =~= Seq::<char>::empty());
        assert(s.push(c)[0] == c);
        assert(escape(Seq::<char>::empty()) == Seq::<char>::empty());
        assert(escape(s.push(c)) == esc_char(c) + Seq::<char>::empty());
        assert(esc_char(c) + Seq::<char>::empty() =~= esc_char(c));
        assert(escape(s) + esc_char(c) =~= esc_char(c));
    } else {
        assert(s.push(c).drop_first() =~= s.drop_first().push(c));
        lemma_escape_push(s.drop_first(), c);
        assert(s.push(c)[0] == s[0]);
        assert(esc_char(s[0]) + (escape(s.drop_first()) + esc_char(c)) =~= (esc_char(s[0])
            + escape(s.drop_first())) + esc_char(c));
    }
}

/// A string without `"` or `\` is its own wire form.
pub open spec fn escape_free(s: Seq<char>) -> bool {
    forall|i: int| 0 <= i < s.len() ==> s[i] != '"' && s[i] != '\\'
}

pub proof fn lemma_escape_id(s: Seq<char>)
    requires
        escape_free(s),
    ensures
        escape(s) == s,
    decreases s.len(),
{
    if s.len() == 0 {
        assert(escape(s) =~= s);
    } else {
        lemma_escape_id(s.drop_first());
        assert(escape(s) =~= s);
    }
}

/// Relies on `String::push`: appends exactly the given character.
#[verifier::external_body]
pub(crate) fn push_char(out: &mut String, c: char)
    ensures
        final(out)@ == old(out)@.push(c),
{
    out.push(c);
}

/// Appends the wire form of a string.
pub(crate) fn append_enc_str(out: &mut String, s: &str)
    ensures
        final(out)@ == old(out)@ + enc_str(s@),
{
    push_char(out, '"');
    let n = s.unicode_len();
    let mut i: usize = 0;
    while i < n
        invariant
            n == s@.len(),
            i <= n,
            out@ == old(out)@ + seq!['"'] + escape(s@.subrange(0, i as int)),
        decreases n - i,
    {
        proof {
            assert(s@.subrange(0, i as int + 1) =~= s@.subrange(0, i as int).push(s@[i as int]));
            lemma_escape_push(s@.subrange(0, i as int), s@[i as int]);
        }
        let c = s.get_char(i);
        if c == '"' {
            push_char(out, '\\');
            push_char(out, '"');
        } else if c == '\\' {
            push_char(out, '\\');
            push_char(out, '\\');
        } else {
            push_char(out, c);
        }
        proof {
            assert(out@ =~= old(out)@ + seq!['"'] + escape(s@.subrange(0, i as int + 1)));
        }
        i += 1;
    }
    push_char(out, '"');
    proof {
        assert(s@.subrange(0, n as int) =~= s@);
        assert(out@ =~= old(out)@ + enc_str(s@));
    }
}

/// Appends the wire form of the MAC mapping held by `mac`.
pub(crate) fn append_enc_mac(out: &mut String, mac: &crate::macmap::MacMap)
    ensures
        final(out)@ == old(out)@ + enc_mac(mac@),
{
    push_char(out, '{');
    let n = mac.len();
    let mut i: usize = 0;
    while i < n
        invariant
            n == mac@.len(),
            i <= n,
            i == 0 ==> out@ == old(out)@ + seq!['{'],
            0 < i < n ==> out@ + seq![','] + enc_entries(mac@, i as int) == old(out)@ + seq!['{']
                + enc_entries(mac@, 0),
            0 < i && i == n ==> out@ == old(out)@ + seq!['{'] + enc_entries(mac@, 0),
        decreases n - i,
    {
        let ghost before = out@;
        if i > 0 {
            push_char(out, ',');
        }
        append_enc_str(out, mac.key_at(i).as_str());
        push_char(out, ':');
        append_enc_str(out, mac.value_at(i).as_str());
        proof {
            let e = mac@;
            if i == 0 {
                assert(out@ =~= old(out)@ + seq!['{'] + enc_entry(e[0]));
                if 1 < n {
                    assert(enc_entries(e, 0) == enc_entry(e[0]) + seq![','] + enc_entries(e, 1));
                    assert(out@ + seq![','] + enc_entries(e, 1) =~= old(out)@ + seq!['{']
                        + enc_entries(e, 0));
                } else {
                    assert(enc_entries(e, 0) == enc_entry(e[0]));
                }
            } else {
                assert(out@ =~= before + seq![','] + enc_entry(e[i as int]));
                if i + 1 < n {
                    assert(enc_entries(e, i as int) == enc_entry(e[i as int]) + seq![',']
                        + enc_entries(e, i as int + 1));
                    assert(out@ + seq![','] + enc_entries(e, i as int + 1) =~= before + seq![',']
                        + enc_entries(e, i as int));
                    assert(before + seq![','] + enc_entries(e, i as int) =~= old(out)@ + seq!['{']
                        + enc_entries(e, 0));
                } else {
                    assert(enc_entries(e, i as int) == enc_entry(e[i as int]));
                    assert(out@ =~= before + seq![','] + enc_entries(e, i as int));
                    assert(out@ =~= old(out)@ + seq!['{'] + enc_entries(e, 0));
                }
            }
        }
        i += 1;
    }
    push_char(out, '}');
    proof {
        if n == 0 {
            assert(enc_entries(mac@, 0) =~= Seq::<char>::empty());
            assert(out@ =~= old(out)@ + enc_mac(mac@));
        } else {
            assert(out@ =~= old(out)@ + enc_mac(mac@));
        }
    }
}

// ---------------------------------------------------------------------
// Decoding: the specification parser
// ---------------------------------------------------------------------

/// Whitespace the decoder skips between tokens.
pub open spec fn is_ws(c: char) -> bool {
    c == ' ' || c == '\t' || c == '\n' || c == '\r'
}

/// First position at or after `i` that does not hold whitespace.
pub open spec fn sp_ws(s: Seq<char>, i: int) -> int
    decreases s.len() - i,
{
    if 0 <= i < s.len() && is_ws(s[i]) {
        sp_ws(s, i + 1)
    } else {
        i
    }
}

/// The escape letters the decoder takes after a backslash.
pub open spec fn unesc_ok(c: char) -> bool {
    c == '"' || c == '\\' || c == '/' || c == 'n' || c == 't' || c == 'r' || c == 'b' || c == 'f'
}

/// The character an escape letter stands for.
pub open spec fn unesc(c: char) -> char {
    if c == 'n' {
        '\n'
    } else if c == 't' {
        '\t'
    } else if c == 'r' {
        '\r'
    } else if c == 'b' {
        '\u{0008}'
    } else if c == 'f' {
        '\u{000C}'
    } else {
        c
    }
}

/// Parses the inside of a string from `i` to its closing quote, the opening
/// quote already consumed and the characters so far in `acc`.
pub open spec fn sp_str_body(s: Seq<char>, i: int, acc: Seq<char>) -> Option<(Seq<char>, int)>
    decreases s.len() - i,
{
    if i < 0 || i >= s.len() {
        None
    } else if s[i] == '"' {
        Some((acc, i + 1))
    } else if s[i] == '\\' {
        if i + 1 < s.len() && unesc_ok(s[i + 1]) {
            sp_str_body(s, i + 2, acc.push(unesc(s[i + 1])))
        } else {
            None
        }
    } else {
        sp_str_body(s, i + 1, acc.push(s[i]))
    }
}

/// Parses a quoted string at `i`: its characters and the position after
/// the closing quote.
pub open spec fn sp_string(s: Seq<char>, i: int) -> Option<(Seq<char>, int)> {
    if 0 <= i < s.len() && s[i] == '"' {
        sp_str_body(s, i + 1, Seq::empty())
    } else {
        None
    }
}

/// Parses the members of a string-to-string object from the first key at
/// `i` up to the closing brace, entries so far in `acc`, in textual order.
pub open spec fn sp_map_members(s: Seq<char>, i: int, acc: Entries) -> Option<(Entries, int)>
    decreases s.len() - i,
{
    match sp_string(s, i) {
        None => None,
        Some((k, j)) => {
            let j2 = sp_ws(s, j);
            if j2 >= s.len() || s[j2] != ':' {
                None
            } else {
                let j3 = sp_ws(s, j2 + 1);
                match sp_string(s, j3) {
                    None => None,
                    Some((v, j4)) => {
                        let j5 = sp_ws(s, j4);
                        let acc2 = acc.push((k, v));
                        if j5 >= s.len() {
                            None
                        } else if s[j5] == '}' {
                            Some((acc2, j5 + 1))
                        } else if s[j5] == ',' {
                            let j6 = sp_ws(s, j5 + 1);
                            if i < j6 <= s.len() {
                                sp_map_members(s, j6, acc2)
                            } else {
                                None
                            }
                        } else {
                            None
                        }
                    },
                }
            }
        },
    }
}

/// Parses a string-to-string object at `i`: the entries in textual order
/// and the position after the closing brace.
pub open spec fn sp_str_map(s: Seq<char>, i: int) -> Option<(Entries, int)> {
    if 0 <= i < s.len() && s[i] == '{' {
        let j = sp_ws(s, i + 1);
        if j < s.len() && s[j] == '}' {
            Some((Seq::empty(), j + 1))
        } else {
            sp_map_members(s, j, Seq::empty())
        }
    } else {
        None
    }
}

/// A character that can continue a number token.
pub open spec fn is_num_char(c: char) -> bool {
    ('0' <= c <= '9') || c == '-' || c == '+' || c == '.' || c == 'e' || c == 'E'
}

/// First position at or after `i` that does not continue a number token.
pub open spec fn sp_num_end(s: Seq<char>, i: int) -> int
    decreases s.len() - i,
{
    if 0 <= i < s.len() && is_num_char(s[i]) {
        sp_num_end(s, i + 1)
    } else {
        i
    }
}

/// `lit` stands at position `i` of `s`.
pub open spec fn sp_lit_at(s: Seq<char>, i: int, lit: Seq<char>) -> bool {
    0 <= i && i + lit.len() <= s.len() && s.subrange(i, i + lit.len()) == lit
}

/// Skips one value of an unknown field: a string, an object, an array, a
/// number, or one of the three literal words.  Returns the position after
/// the value.
pub open spec fn sp_skip_value(s: Seq<char>, i: int) -> Option<int>
    decreases s.len() - i, 0int,
{
    if i < 0 || i >= s.len() {
        None
    } else if s[i] == '"' {
        match sp_string(s, i) {
            Some((v, j)) => Some(j),
            None => None,
        }
    } else if s[i] == '{' {
        let j = sp_ws(s, i + 1);
        if j < s.len() && s[j] == '}' {
            Some(j + 1)
        } else if i < j <= s.len() {
            sp_skip_members(s, j)
        } else {
            None
        }
    } else if s[i] == '[' {
        let j = sp_ws(s, i + 1);
        if j < s.len() && s[j] == ']' {
            Some(j + 1)
        } else if i < j <= s.len() {
            sp_skip_elems(s, j)
        } else {
            None
        }
    } else if s[i] == 't' {
        if sp_lit_at(s, i, seq!['t', 'r', 'u', 'e']) {
            Some(i + 4)
        } else {
            None
        }
    } else if s[i] == 'f' {
        if sp_lit_at(s, i, seq!['f', 'a', 'l', 's', 'e']) {
            Some(i + 5)
        } else {
            None
        }
    } else if s[i] == 'n' {
        if sp_lit_at(s, i, seq!['n', 'u', 'l', 'l']) {
            Some(i + 4)
        } else {
            None
        }
    } else if is_num_char(s[i]) {
        Some(sp_num_end(s, i + 1))
    } else {
        None
    }
}

/// Skips the members of an object of an unknown field, from the first key
/// at `i` up to the closing brace.
pub open spec fn sp_skip_members(s: Seq<char>, i: int) -> Option<int>
    decreases s.len() - i, 1int,
{
    match sp_string(s, i) {
        None => None,
        Some((k, j)) => {
            let j2 = sp_ws(s, j);
            if j2 >= s.len() || s[j2] != ':' {
                None
            } else {
                let j3 = sp_ws(s, j2 + 1);
                if !(i < j3 <= s.len()) {
                    None
                } else {
                    match sp_skip_value(s, j3) {
                        None => None,
                        Some(j4) => {
                            let j5 = sp_ws(s, j4);
                            if j5 >= s.len() {
                                None
                            } else if s[j5] == '}' {
                                Some(j5 + 1)
                            } else if s[j5] == ',' {
                                let j6 = sp_ws(s, j5 + 1);
                                if i < j6 <= s.len() {
                                    sp_skip_members(s, j6)
                                } else {
                                    None
                                }
                            } else {
                                None
                            }
                        },
                    }
                }
            }
        },
    }
}

/// Skips the elements of an array of an unknown field, from the first
/// element at `i` up to the closing bracket.
pub open spec fn sp_skip_elems(s: Seq<char>, i: int) -> Option<int>
    decreases s.len() - i, 2int,
{
    match sp_skip_value(s, i) {
        None => None,
        Some(j4) => {
            let j5 = sp_ws(s, j4);
            if j5 >= s.len() {
                None
            } else if s[j5] == ']' {
                Some(j5 + 1)
            } else if s[j5] == ',' {
                let j6 = sp_ws(s, j5 + 1);
                if i < j6 <= s.len() {
                    sp_skip_elems(s, j6)
                } else {
                    None
                }
            } else {
                None
            }
        },
    }
}

// ---------------------------------------------------------------------
// The decoder inverts the encoder
// ---------------------------------------------------------------------

/// The piece `p` stands at position `i` of `s`.
pub open spec fn at_seg(s: Seq<char>, i: int, p: Seq<char>) -> bool {
    0 <= i && i + p.len() <= s.len() && s.subrange(i, i + p.len()) == p
}

/// A segment made of two pieces splits into the pieces.
pub proof fn lemma_at_seg_split(s: Seq<char>, i: int, p: Seq<char>, q: Seq<char>)
    requires
        at_seg(s, i, p + q),
    ensures
        at_seg(s, i, p),
        at_seg(s, i + p.len(), q),
{
    let whole = s.subrange(i, i + p.len() + q.len());
    assert(s.subrange(i, i + p.len()) =~= p) by {
        assert forall|k: int| 0 <= k < p.len() implies s.subrange(i, i + p.len())[k] == p[k] by {
            assert(whole[k] == (p + q)[k]);
        }
    }
    assert(s.subrange(i + p.len(), i + p.len() + q.len()) =~= q) by {
        assert forall|k: int| 0 <= k < q.len() implies s.subrange(
            i + p.len(),
            i + p.len() + q.len(),
        )[k] == q[k] by {
            assert(whole[p.len() + k] == (p + q)[p.len() + k]);
        }
    }
}

/// Parsing a string body over the wire form of `v` yields `v` and stops
/// after the closing quote.
proof fn lemma_str_body_inverse(s: Seq<char>, i: int, v: Seq<char>, acc: Seq<char>)
    requires
        at_seg(s, i, escape(v) + seq!['"']),
    ensures
        sp_str_body(s, i, acc) == Some((acc + v, i + escape(v).len() + 1)),
    decreases v.len(),
{
    let seg = escape(v) + seq!['"'];
    if v.len() == 0 {
        assert(escape(v) == Seq::<char>::empty());
        assert(s[i] == seg[0]) by {
            assert(s.subrange(i, i + seg.len())[0] == seg[0]);
        }
        assert(s[i] == '"');
        assert(acc + v =~= acc);
    } else {
        let c = v[0];
        let v1 = v.drop_first();
        assert(escape(v) == esc_char(c) + escape(v1));
        let el = esc_char(c).len();
        assert((esc_char(c) + escape(v1)) + seq!['"'] =~= esc_char(c) + (escape(v1)
            + seq!['"']));
        lemma_at_seg_split(s, i, esc_char(c), escape(v1) + seq!['"']);
        assert(s[i] == esc_char(c)[0]) by {
            assert(s.subrange(i, i + el)[0] == esc_char(c)[0]);
        }
        if c == '"' || c == '\\' {
            assert(esc_char(c) =~= seq!['\\', c]);
            assert(s[i] == '\\');
            assert(s[i + 1] == c) by {
                assert(s.subrange(i, i + el)[1] == esc_char(c)[1]);
            }
            assert(unesc_ok(c) && unesc(c) == c);
            lemma_str_body_inverse(s, i + 2, v1, acc.push(c));
            assert(acc.push(c) + v1 =~= acc + v);
            assert(sp_str_body(s, i, acc) == sp_str_body(s, i + 2, acc.push(c)));
        } else {
            assert(esc_char(c) =~= seq![c]);
            assert(s[i] == c);
            lemma_str_body_inverse(s, i + 1, v1, acc.push(c));
            assert(acc.push(c) + v1 =~= acc + v);
            assert(sp_str_body(s, i, acc) == sp_str_body(s, i + 1, acc.push(c)));
        }
    }
}

/// Parsing a string over the wire form of `v` yields `v` and stops after
/// the closing quote.
pub proof fn lemma_string_inverse(s: Seq<char>, i: int, v: Seq<char>)
    requires
        at_seg(s, i, enc_str(v)),
    ensures
        sp_string(s, i) == Some((v, i + enc_str(v).len())),
{
    assert(enc_str(v) =~= seq!['"'] + (escape(v) + seq!['"']));
    lemma_at_seg_split(s, i, seq!['"'], escape(v) + seq!['"']);
    assert(s[i] == '"') by {
        assert(s.subrange(i, i + 1)[0] == seq!['"'][0]);
    }
    lemma_str_body_inverse(s, i + 1, v, Seq::empty());
    assert(Seq::empty() + v =~= v);
}

/// The position after a segment whose next character is not whitespace is
/// where whitespace skipping stops.
pub proof fn lemma_ws_stop(s: Seq<char>, i: int)
    requires
        0 <= i,
        i >= s.len() || !is_ws(s[i]),
    ensures
        sp_ws(s, i) == i,
{
}

/// Parsing the members of a string-to-string object over the wire form of
/// the entries from `ei` on yields all the entries.
proof fn lemma_map_members_inverse(s: Seq<char>, i: int, entries: Entries, ei: int)
    requires
        0 <= ei < entries.len(),
        at_seg(s, i, enc_entries(entries, ei) + seq!['}']),
    ensures
        sp_map_members(s, i, entries.subrange(0, ei)) == Some(
            (entries, i + enc_entries(entries, ei).len() + 1),
        ),
    decreases entries.len() - ei,
{
    let e = entries[ei];
    let acc = entries.subrange(0, ei);
    let ke = enc_str(e.0);
    let ve = enc_str(e.1);
    let tail: Seq<char> = if ei + 1 < entries.len() {
        seq![','] + enc_entries(entries, ei + 1)
    } else {
        Seq::empty()
    };
    assert(enc_entries(entries, ei) == enc_entry(e) + tail || enc_entries(entries, ei) == enc_entry(
        e,
    ));
    let p1 = i + ke.len();
    let p2 = p1 + 1 + ve.len();
    assert(enc_entries(entries, ei) + seq!['}'] =~= ke + (seq![':'] + (ve + (tail
        + seq!['}']))));
    lemma_at_seg_split(s, i, ke, seq![':'] + (ve + (tail + seq!['}'])));
    lemma_at_seg_split(s, p1, seq![':'], ve + (tail + seq!['}']));
    lemma_at_seg_split(s, p1 + 1, ve, tail + seq!['}']);
    assert(s[p1] == ':') by {
        assert(s.subrange(p1, p1 + 1)[0] == seq![':'][0]);
    }
    lemma_string_inverse(s, i, e.0);
    lemma_ws_stop(s, p1);
    assert(s[p1 + 1] == '"') by {
        assert(s.subrange(p1 + 1, p1 + 1 + ve.len())[0] == ve[0]);
        assert(ve[0] == '"');
    }
    lemma_ws_stop(s, p1 + 1);
    lemma_string_inverse(s, p1 + 1, e.1);
    if ei + 1 == entries.len() {
        assert(tail + seq!['}'] =~= seq!['}']);
        assert(s[p2] == '}') by {
            assert(s.subrange(p2, p2 + 1)[0] == seq!['}'][0]);
        }
        lemma_ws_stop(s, p2);
        assert(acc.push(e) =~= entries);
        assert(p2 == i + enc_entries(entries, ei).len());
    } else {
        assert(tail + seq!['}'] =~= seq![','] + (enc_entries(entries, ei + 1) + seq!['}']));
        lemma_at_seg_split(s, p2, seq![','], enc_entries(entries, ei + 1) + seq!['}']);
        assert(s[p2] == ',') by {
            assert(s.subrange(p2, p2 + 1)[0] == seq![','][0]);
        }
        lemma_ws_stop(s, p2);
        let e2 = entries[ei + 1];
        assert(enc_entries(entries, ei + 1)[0] == '"') by {
            assert(enc_entries(entries, ei + 1) == enc_entry(e2) + (seq![','] + enc_entries(
                entries,
                ei + 2,
            )) || enc_entries(entries, ei + 1) == enc_entry(e2));
            assert(enc_entry(e2)[0] == enc_str(e2.0)[0]);
            assert(enc_str(e2.0)[0] == '"');
        }
        assert(s[p2 + 1] == '"') by {
            let q = enc_entries(entries, ei + 1) + seq!['}'];
            assert(s.subrange(p2 + 1, p2 + 1 + q.len())[0] == q[0]);
            assert(q[0] == enc_entries(entries, ei + 1)[0]);
        }
        lemma_ws_stop(s, p2 + 1);
        assert(acc.push(e) =~= entries.subrange(0, ei + 1));
        lemma_map_members_inverse(s, p2 + 1, entries, ei + 1);
        assert(i + enc_entries(entries, ei).len() == p2 + 1 + enc_entries(entries, ei + 1).len());
    }
}

/// Parsing a string-to-string object over the wire form of the entries
/// yields exactly the entries.
pub proof fn lemma_mac_inverse(s: Seq<char>, i: int, entries: Entries)
    requires
        at_seg(s, i, enc_mac(entries)),
    ensures
        sp_str_map(s, i) == Some((entries, i + enc_mac(entries).len())),
{
    assert(enc_mac(entries) =~= seq!['{'] + (enc_entries(entries, 0) + seq!['}']));
    lemma_at_seg_split(s, i, seq!['{'], enc_entries(entries, 0) + seq!['}']);
    assert(s[i] == '{') by {
        assert(s.subrange(i, i + 1)[0] == seq!['{'][0]);
    }
    if entries.len() == 0 {
        assert(enc_entries(entries, 0) == Seq::<char>::empty());
        assert(s[i + 1] == '}') by {
            let q = enc_entries(entries, 0) + seq!['}'];
            assert(s.subrange(i + 1, i + 1 + q.len())[0] == q[0]);
        }
        lemma_ws_stop(s, i + 1);
        assert(entries =~= Seq::<(Seq<char>, Seq<char>)>::empty());
    } else {
        let e0 = entries[0];
        assert(enc_entries(entries, 0)[0] == '"') by {
            assert(enc_entries(entries, 0) == enc_entry(e0) + (seq![','] + enc_entries(entries, 1))
                || enc_entries(entries, 0) == enc_entry(e0));
            assert(enc_entry(e0)[0] == enc_str(e0.0)[0]);
            assert(enc_str(e0.0)[0] == '"');
        }
        assert(s[i + 1] == '"') by {
            let q = enc_entries(entries, 0) + seq!['}'];
            assert(s.subrange(i + 1, i + 1 + q.len())[0] == q[0]);
        }
        lemma_ws_stop(s, i + 1);
        assert(entries.subrange(0, 0) =~= Seq::<(Seq<char>, Seq<char>)>::empty());
        lemma_map_members_inverse(s, i + 1, entries, 0);
    }
}

// ---------------------------------------------------------------------
// Decoding: the executable parser, equal to the specification parser
// ---------------------------------------------------------------------

/// The entries a vector of string pairs holds, as character sequences.
pub open spec fn pairs_view(v: Seq<(String, String)>) -> Entries {
    Seq::new(v.len(), |i: int| (v[i].0@, v[i].1@))
}

/// The characters an optional decoded string holds.
pub open spec fn opt_str_view(o: Option<String>) -> Option<Seq<char>> {
    match o {
        Some(x) => Some(x@),
        None => None,
    }
}

/// The entries an optional decoded entry vector holds.
pub open spec fn opt_pairs_view(o: Option<Vec<(String, String)>>) -> Option<Entries> {
    match o {
        Some(x) => Some(pairs_view(x@)),
        None => None,
    }
}

/// Skips whitespace.
pub(crate) fn p_ws(s: &str, i: usize) -> (r: usize)
    requires
        i <= s@.len(),
    ensures
        r == sp_ws(s@, i as int),
        i <= r <= s@.len(),
{
    let n = s.unicode_len();
    let mut j = i;
    loop
        invariant
            n == s@.len(),
            i <= j <= n,
            sp_ws(s@, i as int) == sp_ws(s@, j as int),
        decreases n - j,
    {
        if j >= n {
            return j;
        }
        let c = s.get_char(j);
        if c == ' ' || c == '\t' || c == '\n' || c == '\r' {
            j += 1;
        } else {
            return j;
        }
    }
}

/// Parses a quoted string.
pub(crate) fn p_string(s: &str, i: usize) -> (r: Option<(String, usize)>)
    requires
        i <= s@.len(),
    ensures
        match r {
            Some(p) => sp_string(s@, i as int) == Some((p.0@, p.1 as int)) && i < p.1 <= s@.len(),
            None => sp_string(s@, i as int) is None,
        },
{
    let n = s.unicode_len();
    if i >= n || s.get_char(i) != '"' {
        return None;
    }
    let mut acc = String::new();
    let mut j = i + 1;
    loop
        invariant
            n == s@.len(),
            i + 1 <= j <= n,
            i < n && s@[i as int] == '"',
            sp_str_body(s@, i as int + 1, Seq::empty()) == sp_str_body(s@, j as int, acc@),
        decreases n - j,
    {
        if j >= n {
            return None;
        }
        let c = s.get_char(j);
        if c == '"' {
            return Some((acc, j + 1));
        }
        if c == '\\' {
            if j + 1 >= n {
                return None;
            }
            let e = s.get_char(j + 1);
            let u = if e == '"' || e == '\\' || e == '/' {
                e
            } else if e == 'n' {
                '\n'
            } else if e == 't' {
                '\t'
            } else if e == 'r' {
                '\r'
            } else if e == 'b' {
                '\u{0008}'
            } else if e == 'f' {
                '\u{000C}'
            } else {
                return None;
            };
            proof {
                assert(u == unesc(e) && unesc_ok(e));
            }
            push_char(&mut acc, u);
            j += 2;
        } else {
            push_char(&mut acc, c);
            j += 1;
        }
    }
}

/// Parses a string-to-string object, the entries in textual order.
pub(crate) fn p_str_map(s: &str, i: usize) -> (r: Option<(Vec<(String, String)>, usize)>)
    requires
        i <= s@.len(),
    ensures
        match r {
            Some(p) => sp_str_map(s@, i as int) == Some((pairs_view(p.0@), p.1 as int)) && i < p.1
                <= s@.len(),
            None => sp_str_map(s@, i as int) is None,
        },
{
    let n = s.unicode_len();
    if i >= n || s.get_char(i) != '{' {
        return None;
    }
    let first = p_ws(s, i + 1);
    if first < n && s.get_char(first) == '}' {
        let acc: Vec<(String, String)> = Vec::new();
        proof {
            assert(pairs_view(acc@) =~= Seq::<(Seq<char>, Seq<char>)>::empty());
        }
        return Some((acc, first + 1));
    }
    let mut acc: Vec<(String, String)> = Vec::new();
    let mut cur = first;
    proof {
        assert(pairs_view(acc@) =~= Seq::<(Seq<char>, Seq<char>)>::empty());
    }
    loop
        invariant
            n == s@.len(),
            i < cur <= n,
            sp_map_members(s@, first as int, Seq::empty()) == sp_map_members(
                s@,
                cur as int,
                pairs_view(acc@),
            ),
            sp_str_map(s@, i as int) == sp_map_members(s@, first as int, Seq::empty()),
            i < n,
        decreases n - cur,
    {
        let k = match p_string(s, cur) {
            None => {
                return None;
            },
            Some(p) => p,
        };
        let j2 = p_ws(s, k.1);
        if j2 >= n || s.get_char(j2) != ':' {
            return None;
        }
        let j3 = p_ws(s, j2 + 1);
        let v = match p_string(s, j3) {
            None => {
                return None;
            },
            Some(p) => p,
        };
        let j5 = p_ws(s, v.1);
        let ghost before = pairs_view(acc@);
        acc.push((k.0, v.0));
        proof {
            assert(pairs_view(acc@) =~= before.push((acc@.last().0@, acc@.last().1@)));
        }
        if j5 >= n {
            return None;
        }
        let c = s.get_char(j5);
        if c == '}' {
            return Some((acc, j5 + 1));
        }
        if c != ',' {
            return None;
        }
        let j6 = p_ws(s, j5 + 1);
        if j6 <= cur {
            return None;
        }
        cur = j6;
    }
}

/// First position at or after `i` that does not continue a number token.
pub(crate) fn p_num_end(s: &str, i: usize) -> (r: usize)
    requires
        i <= s@.len(),
    ensures
        r == sp_num_end(s@, i as int),
        i <= r <= s@.len(),
{
    let n = s.unicode_len();
    let mut j = i;
    loop
        invariant
            n == s@.len(),
            i <= j <= n,
            sp_num_end(s@, i as int) == sp_num_end(s@, j as int),
        decreases n - j,
    {
        if j >= n {
            return j;
        }
        let c = s.get_char(j);
        if ('0' <= c && c <= '9') || c == '-' || c == '+' || c == '.' || c == 'e' || c == 'E' {
            j += 1;
        } else {
            return j;
        }
    }
}

/// Checks that `lit` (ASCII, already at its first character) stands at `i`.
fn p_lit_at(s: &str, i: usize, lit: &str) -> (r: bool)
    requires
        i <= s@.len(),
    ensures
        r == sp_lit_at(s@, i as int, lit@),
{
    let n = s.unicode_len();
    let m = lit.unicode_len();
    if n - i < m || i > n - m {
        return false;
    }
    let mut k: usize = 0;
    while k < m
        invariant
            n == s@.len(),
            m == lit@.len(),
            i + m <= n,
            k <= m,
            forall|q: int| 0 <= q < k ==> s@[i + q] == lit@[q],
        decreases m - k,
    {
        if s.get_char(i + k) != lit.get_char(k) {
            proof {
                assert(s@.subrange(i as int, i as int + m) != lit@) by {
                    assert(s@.subrange(i as int, i as int + m)[k as int] == s@[i + k]);
                }
            }
            return false;
        }
        k += 1;
    }
    proof {
        assert(s@.subrange(i as int, i as int + m) =~= lit@);
    }
    true
}

/// Skips one value of an unknown field.
pub(crate) fn p_skip_value(s: &str, i: usize) -> (r: Option<usize>)
    requires
        i <= s@.len(),
    ensures
        match r {
            Some(j) => sp_skip_value(s@, i as int) == Some(j as int) && j <= s@.len(),
            None => sp_skip_value(s@, i as int) is None,
        },
    decreases s@.len() - i, 0int,
{
    let n = s.unicode_len();
    if i >= n {
        return None;
    }
    let c = s.get_char(i);
    if c == '"' {
        match p_string(s, i) {
            Some(p) => Some(p.1),
            None => None,
        }
    } else if c == '{' {
        let j = p_ws(s, i + 1);
        if j < n && s.get_char(j) == '}' {
            Some(j + 1)
        } else {
            p_skip_members(s, j)
        }
    } else if c == '[' {
        let j = p_ws(s, i + 1);
        if j < n && s.get_char(j) == ']' {
            Some(j + 1)
        } else {
            p_skip_elems(s, j)
        }
    } else if c == 't' {
        proof {
            reveal_strlit("true");
            assert("true"@ =~= seq!['t', 'r', 'u', 'e']);
        }
        if p_lit_at(s, i, "true") {
            Some(i + 4)
        } else {
            None
        }
    } else if c == 'f' {
        proof {
            reveal_strlit("false");
            assert("false"@ =~= seq!['f', 'a', 'l', 's', 'e']);
        }
        if p_lit_at(s, i, "false") {
            Some(i + 5)
        } else {
            None
        }
    } else if c == 'n' {
        proof {
            reveal_strlit("null");
            assert("null"@ =~= seq!['n', 'u', 'l', 'l']);
        }
        if p_lit_at(s, i, "null") {
            Some(i + 4)
        } else {
            None
        }
    } else if ('0' <= c && c <= '9') || c == '-' || c == '+' || c == '.' || c == 'e' || c == 'E' {
        Some(p_num_end(s, i + 1))
    } else {
        None
    }
}

/// Skips the members of an object of an unknown field.
pub(crate) fn p_skip_members(s: &str, i: usize) -> (r: Option<usize>)
    requires
        i <= s@.len(),
    ensures
        match r {
            Some(j) => sp_skip_members(s@, i as int) == Some(j as int) && j <= s@.len(),
            None => sp_skip_members(s@, i as int) is None,
        },
    decreases s@.len() - i, 1int,
{
    let n = s.unicode_len();
    let mut cur = i;
    loop
        invariant
            n == s@.len(),
            i <= cur <= n,
            sp_skip_members(s@, i as int) == sp_skip_members(s@, cur as int),
        decreases n - cur,
    {
        let k = match p_string(s, cur) {
            None => {
                return None;
            },
            Some(p) => p,
        };
        let j2 = p_ws(s, k.1);
        if j2 >= n || s.get_char(j2) != ':' {
            return None;
        }
        let j3 = p_ws(s, j2 + 1);
        let j4 = match p_skip_value(s, j3) {
            None => {
                return None;
            },
            Some(j) => j,
        };
        let j5 = p_ws(s, j4);
        if j5 >= n {
            return None;
        }
        let c = s.get_char(j5);
        if c == '}' {
            return Some(j5 + 1);
        }
        if c != ',' {
            return None;
        }
        let j6 = p_ws(s, j5 + 1);
        if j6 <= cur {
            return None;
        }
        cur = j6;
    }
}

/// Skips the elements of an array of an unknown field.
pub(crate) fn p_skip_elems(s: &str, i: usize) -> (r: Option<usize>)
    requires
        i <= s@.len(),
    ensures
        match r {
            Some(j) => sp_skip_elems(s@, i as int) == Some(j as int) && j <= s@.len(),
            None => sp_skip_elems(s@, i as int) is None,
        },
    decreases s@.len() - i, 2int,
{
    let n = s.unicode_len();
    let mut cur = i;
    loop
        invariant
            n == s@.len(),
            i <= cur <= n,
            sp_skip_elems(s@, i as int) == sp_skip_elems(s@, cur as int),
        decreases n - cur,
    {
        let j4 = match p_skip_value(s, cur) {
            None => {
                return None;
            },
            Some(j) => j,
        };
        let j5 = p_ws(s, j4);
        if j5 >= n {
            return None;
        }
        let c = s.get_char(j5);
        if c == ']' {
            return Some(j5 + 1);
        }
        if c != ',' {
            return None;
        }
        let j6 = p_ws(s, j5 + 1);
        if j6 <= cur {
            return None;
        }
        cur = j6;
    }
}

} // verus!
