//! Lexical field formats: the `<algorithm>:<id>` shape of key identifiers
//! and the unpadded-Base64 shape of the aggregate MAC.
//!
//! Both checks are purely lexical.  Whether an algorithm is acceptable, and
//! whether the Base64 text decodes to the right MAC, is the verifier state
//! machine's concern, not this payload's.

use vstd::prelude::*;

verus! {

/// `j` is the position of the first colon of `s`.
pub open spec fn is_first_colon(s: Seq<char>, j: int) -> bool {
    &&& 0 <= j < s.len()
    &&& s[j] == ':'
    &&& forall|k: int| 0 <= k < j ==> s[k] != ':'
}

/// A key identifier is well formed when it has the `<algorithm>:<id>`
/// shape: its first colon is neither its first nor its last character, so
/// both the algorithm part and the id part are non-empty.
pub open spec fn valid_key_id(s: Seq<char>) -> bool {
    exists|j: int| is_first_colon(s, j) && 0 < j && j + 1 < s.len()
}

/// Checks the `<algorithm>:<id>` shape of a key identifier.
pub fn check_key_id(s: &str) -> (r: bool)
    ensures
        r == valid_key_id(s@),
{
    let n: usize = s.unicode_len();
    let mut i: usize = 0;
    while i < n
        invariant
            n == s@.len(),
            i <= n,
            forall|k: int| 0 <= k < i ==> s@[k] != ':',
        decreases n - i,
    {
        if s.get_char(i) == ':' {
            proof {
                assert(is_first_colon(s@, i as int));
                assert forall|j: int| is_first_colon(s@, j) implies j == i as int by {
                    if j < i as int {
                        assert(s@[j] != ':');
                    } else if j > i as int {
                        assert(s@[i as int] != ':');
                    }
                }
            }
            return 0 < i && i + 1 < n;
        }
        i += 1;
    }
    proof {
        assert forall|j: int| !is_first_colon(s@, j) by {
            if 0 <= j < s@.len() {
                assert(s@[j] != ':');
            }
        }
    }
    false
}

/// A character of the Base64 alphabet.
pub open spec fn is_base64_char(c: char) -> bool {
    ||| 'A' <= c <= 'Z'
    ||| 'a' <= c <= 'z'
    ||| '0' <= c <= '9'
    ||| c == '+'
    ||| c == '/'
}

/// `s` is lexically valid unpadded Base64: every character belongs to the
/// Base64 alphabet, and the length is one that unpadded Base64 can take (a
/// remainder of 1 modulo 4 can never arise).
pub open spec fn valid_unpadded_base64(s: Seq<char>) -> bool {
    &&& forall|i: int| 0 <= i < s.len() ==> is_base64_char(#[trigger] s[i])
    &&& s.len() % 4 != 1
}

/// Checks the unpadded-Base64 shape of the aggregate MAC field.
pub fn check_unpadded_base64(s: &str) -> (r: bool)
    ensures
        r == valid_unpadded_base64(s@),
{
    let n: usize = s.unicode_len();
    if n % 4 == 1 {
        return false;
    }
    let mut i: usize = 0;
    while i < n
        invariant
            n == s@.len(),
            i <= n,
            forall|k: int| 0 <= k < i ==> is_base64_char(#[trigger] s@[k]),
        decreases n - i,
    {
        let c = s.get_char(i);
        let ok = ('A' <= c && c <= 'Z') || ('a' <= c && c <= 'z') || ('0' <= c && c <= '9')
            || c == '+' || c == '/';
        if !ok {
            return false;
        }
        i += 1;
    }
    true
}

} // verus!
