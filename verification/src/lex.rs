//! Lexicographic order on character sequences, by code point.
//!
//! The canonical form of the MAC mapping keeps its entries strictly sorted
//! by key identifier in this order, which is what gives the aggregate-MAC
//! computation its deterministic, insertion-order-independent key list.

use vstd::prelude::*;

verus! {

/// Strict lexicographic comparison of `a` and `b` from position `i` on.
pub open spec fn lex_lt_from(a: Seq<char>, b: Seq<char>, i: int) -> bool
    decreases b.len() - i,
{
    if i < 0 || b.len() <= i {
        false
    } else if a.len() <= i {
        true
    } else if a[i] != b[i] {
        (a[i] as u32) < (b[i] as u32)
    } else {
        lex_lt_from(a, b, i + 1)
    }
}

/// Strict lexicographic order, by code point: `a` comes before `b`.
pub open spec fn lex_lt(a: Seq<char>, b: Seq<char>) -> bool {
    lex_lt_from(a, b, 0)
}

/// From equal positions on, at most one of `a < b` and `b < a` holds, and
/// where neither holds the two sequences agree from that position on.
proof fn lemma_lex_from_connex(a: Seq<char>, b: Seq<char>, i: int)
    requires
        0 <= i,
    ensures
        lex_lt_from(a, b, i) ==> !lex_lt_from(b, a, i),
        !lex_lt_from(a, b, i) && !lex_lt_from(b, a, i) ==> a.len() <= i && b.len() <= i
            || a.len() == b.len() && (forall|k: int| i <= k < a.len() ==> a[k] == b[k]),
    decreases b.len() + a.len() - 2 * i,
{
    if i < b.len() && i < a.len() {
        if a[i] == b[i] {
            lemma_lex_from_connex(a, b, i + 1);
        } else {
            vstd::utf8::char_u32_cast(a[i], a[i] as u32);
            vstd::utf8::char_u32_cast(b[i], b[i] as u32);
        }
    }
}

/// Exactly one of `a < b`, `a == b` and `b < a` holds.
pub proof fn lemma_lex_trichotomy(a: Seq<char>, b: Seq<char>)
    ensures
        lex_lt(a, b) ==> !lex_lt(b, a) && a != b,
        !lex_lt(a, b) && !lex_lt(b, a) ==> a == b,
{
    lemma_lex_from_connex(a, b, 0);
    if lex_lt(a, b) {
        if a == b {
            lemma_lex_from_connex(a, a, 0);
            assert(!lex_lt_from(a, a, 0));
        }
    } else if !lex_lt(b, a) {
        if a.len() <= 0 && b.len() <= 0 {
            assert(a =~= b);
        } else {
            assert(a =~= b);
        }
    }
}

/// The order is irreflexive.
pub proof fn lemma_lex_irrefl(a: Seq<char>)
    ensures
        !lex_lt(a, a),
{
    lemma_lex_from_connex(a, a, 0);
}

proof fn lemma_lex_from_trans(a: Seq<char>, b: Seq<char>, c: Seq<char>, i: int)
    requires
        0 <= i,
        lex_lt_from(a, b, i),
        lex_lt_from(b, c, i),
    ensures
        lex_lt_from(a, c, i),
    decreases b.len() - i,
{
    if i < a.len() && i < b.len() && i < c.len() && a[i] == b[i] && b[i] == c[i] {
        lemma_lex_from_trans(a, b, c, i + 1);
    }
}

/// The order is transitive.
pub proof fn lemma_lex_trans(a: Seq<char>, b: Seq<char>, c: Seq<char>)
    requires
        lex_lt(a, b),
        lex_lt(b, c),
    ensures
        lex_lt(a, c),
{
    lemma_lex_from_trans(a, b, c, 0);
}

/// Result of comparing two strings in the order above.
pub enum StrOrd {
    Less,
    Equal,
    Greater,
}

/// If `a` and `b` agree strictly below `i`, comparison from `0` and from
/// `i` agree.
proof fn lemma_lex_from_skip(a: Seq<char>, b: Seq<char>, i: int)
    requires
        0 <= i <= a.len(),
        i <= b.len(),
        forall|k: int| 0 <= k < i ==> a[k] == b[k],
    ensures
        lex_lt(a, b) == lex_lt_from(a, b, i),
    decreases i,
{
    if i > 0 {
        lemma_lex_from_skip_step(a, b, i - 1);
        lemma_lex_from_skip(a, b, i - 1);
    }
}

proof fn lemma_lex_from_skip_step(a: Seq<char>, b: Seq<char>, j: int)
    requires
        0 <= j < a.len(),
        j < b.len(),
        a[j] == b[j],
    ensures
        lex_lt_from(a, b, j) == lex_lt_from(a, b, j + 1),
{
}

/// Compares two strings lexicographically by code point.
pub fn str_cmp(a: &str, b: &str) -> (r: StrOrd)
    ensures
        r is Less <==> lex_lt(a@, b@),
        r is Equal <==> a@ == b@,
        r is Greater <==> lex_lt(b@, a@),
{
    let an: usize = a.unicode_len();
    let bn: usize = b.unicode_len();
    let mut i: usize = 0;
    loop
        invariant
            an == a@.len(),
            bn == b@.len(),
            i <= an,
            i <= bn,
            forall|k: int| 0 <= k < i ==> a@[k] == b@[k],
        decreases an - i,
    {
        proof {
            lemma_lex_from_skip(a@, b@, i as int);
            lemma_lex_from_skip(b@, a@, i as int);
        }
        if i >= an || i >= bn {
            if an == bn {
                proof {
                    assert(a@ =~= b@);
                }
                return StrOrd::Equal;
            } else if an < bn {
                proof {
                    assert(a@ != b@) by {
                        assert(a@.len() != b@.len());
                    }
                }
                return StrOrd::Less;
            } else {
                return StrOrd::Greater;
            }
        }
        let ca = a.get_char(i);
        let cb = b.get_char(i);
        if ca != cb {
            proof {
                vstd::utf8::char_u32_cast(ca, ca as u32);
                vstd::utf8::char_u32_cast(cb, cb as u32);
                assert(a@[i as int] != b@[i as int]);
                assert(a@ != b@);
            }
            if (ca as u32) < (cb as u32) {
                return StrOrd::Less;
            } else {
                return StrOrd::Greater;
            }
        }
        i += 1;
    }
}

/// Whether two strings hold the same characters.
pub fn str_eq(a: &str, b: &str) -> (r: bool)
    ensures
        r == (a@ == b@),
{
    match str_cmp(a, b) {
        StrOrd::Equal => true,
        _ => false,
    }
}

} // verus!
