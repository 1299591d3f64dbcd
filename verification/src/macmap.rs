//! The MAC mapping: key identifier to MAC value.
//!
//! The mapping keeps its entries strictly sorted by key identifier, in the
//! code-point order of [`crate::lex`].  Storage order therefore *is* the
//! canonical sorted order that the aggregate-MAC computation needs, keys
//! are unique by construction, and iteration is deterministic however the
//! entries were inserted.

use vstd::prelude::*;
use crate::lex::lex_lt;
use crate::lex::lemma_lex_irrefl;
use crate::lex::lemma_lex_trans;
use crate::lex::lemma_lex_trichotomy;
use crate::lex::str_cmp;
use crate::lex::StrOrd;

verus! {

/// The entries of a mapping, as character sequences, in storage order.
pub type Entries = Seq<(Seq<char>, Seq<char>)>;

/// The keys of `s`, in storage order.
pub open spec fn keys_of(s: Entries) -> Seq<Seq<char>> {
    s.map_values(|p: (Seq<char>, Seq<char>)| p.0)
}

/// The keys of `s` are strictly sorted: storage order is the canonical
/// sorted order, and every key occurs once.
pub open spec fn sorted_keys(s: Entries) -> bool {
    forall|i: int, j: int| 0 <= i < j < s.len() ==> lex_lt(s[i].0, s[j].0)
}

/// Sorted insertion: replaces the value where the key is already present,
/// and otherwise places the new entry before the first greater key.
pub open spec fn spec_insert(s: Entries, k: Seq<char>, v: Seq<char>) -> Entries
    decreases s.len(),
{
    if s.len() == 0 {
        seq![(k, v)]
    } else if lex_lt(s[0].0, k) {
        seq![s[0]] + spec_insert(s.drop_first(), k, v)
    } else if s[0].0 == k {
        seq![(k, v)] + s.drop_first()
    } else {
        seq![(k, v)] + s
    }
}

/// The comma-separated join of a list of keys.
pub open spec fn joined_keys(ks: Seq<Seq<char>>) -> Seq<char>
    decreases ks.len(),
{
    if ks.len() == 0 {
        Seq::empty()
    } else if ks.len() == 1 {
        ks[0]
    } else {
        ks[0] + seq![','] + joined_keys(ks.drop_first())
    }
}

/// Where the scan of an insertion stops — all keys below `i` are smaller
/// than `k`, and the key at `i` (if any) is not — `spec_insert` updates in
/// place or inserts at `i`.
proof fn lemma_spec_insert_at(s: Entries, k: Seq<char>, v: Seq<char>, i: int)
    requires
        0 <= i <= s.len(),
        forall|j: int| 0 <= j < i ==> lex_lt(#[trigger] s[j].0, k),
        i < s.len() ==> !lex_lt(s[i].0, k),
    ensures
        i < s.len() && s[i].0 == k ==> spec_insert(s, k, v) =~= s.update(i, (k, v)),
        !(i < s.len() && s[i].0 == k) ==> spec_insert(s, k, v) =~= s.insert(i, (k, v)),
    decreases i,
{
    if i == 0 {
        if s.len() == 0 {
        } else if s[0].0 == k {
            lemma_lex_irrefl(k);
        } else {
        }
    } else {
        assert(lex_lt(s[0].0, k));
        lemma_spec_insert_at(s.drop_first(), k, v, i - 1);
        if i < s.len() && s[i].0 == k {
            assert(s.drop_first()[i - 1].0 == k);
            assert(spec_insert(s, k, v) =~= seq![s[0]] + s.drop_first().update(i - 1, (k, v)));
        } else {
            assert(spec_insert(s, k, v) =~= seq![s[0]] + s.drop_first().insert(i - 1, (k, v)));
        }
    }
}

/// The mapping that decoded entries build, inserted one after the other
/// in their textual order; a repeated key identifier keeps the last value.
pub open spec fn insert_all(entries: Entries) -> Entries
    decreases entries.len(),
{
    if entries.len() == 0 {
        Seq::empty()
    } else {
        spec_insert(insert_all(entries.drop_last()), entries.last().0, entries.last().1)
    }
}

/// Inserting a key greater than every present key appends the entry.
proof fn lemma_spec_insert_append(s: Entries, k: Seq<char>, v: Seq<char>)
    requires
        forall|j: int| 0 <= j < s.len() ==> lex_lt(#[trigger] s[j].0, k),
    ensures
        spec_insert(s, k, v) == s + seq![(k, v)],
    decreases s.len(),
{
    if s.len() == 0 {
        assert(spec_insert(s, k, v) =~= s + seq![(k, v)]);
    } else {
        lemma_spec_insert_append(s.drop_first(), k, v);
        assert(spec_insert(s, k, v) =~= s + seq![(k, v)]);
    }
}

/// Re-inserting the entries of a well-formed mapping, in storage order,
/// rebuilds exactly that mapping.
pub proof fn lemma_insert_all_sorted(e: Entries)
    requires
        sorted_keys(e),
    ensures
        insert_all(e) == e,
    decreases e.len(),
{
    if e.len() == 0 {
        assert(insert_all(e) =~= e);
    } else {
        let front = e.drop_last();
        assert(sorted_keys(front));
        lemma_insert_all_sorted(front);
        lemma_spec_insert_append(front, e.last().0, e.last().1);
        assert(front + seq![e.last()] =~= e);
    }
}

/// A mapping from key identifier to MAC value, both unpadded-Base64
/// strings on the wire, held in canonical sorted key order.
#[derive(Clone, Debug)]
pub struct MacMap {
    entries: Vec<(String, String)>,
}

impl View for MacMap {
    type V = Entries;

    closed spec fn view(&self) -> Entries {
        Seq::new(self.entries@.len(), |i: int| (self.entries@[i].0@, self.entries@[i].1@))
    }
}

impl MacMap {
    /// The storage invariant: entries strictly sorted by key.
    pub open spec fn wf(&self) -> bool {
        sorted_keys(self@)
    }

    /// Creates an empty mapping.
    pub fn new() -> (r: MacMap)
        ensures
            r@ =~= Seq::<(Seq<char>, Seq<char>)>::empty(),
            r.wf(),
    {
        MacMap { entries: Vec::new() }
    }

    /// Number of entries.
    pub fn len(&self) -> (r: usize)
        ensures
            r == self@.len(),
    {
        self.entries.len()
    }

    /// The key identifier of the entry at position `i` of the canonical
    /// sorted order.
    pub fn key_at(&self, i: usize) -> (r: &String)
        requires
            i < self@.len(),
        ensures
            r@ == self@[i as int].0,
    {
        &self.entries[i].0
    }

    /// The MAC value of the entry at position `i` of the canonical sorted
    /// order.
    pub fn value_at(&self, i: usize) -> (r: &String)
        requires
            i < self@.len(),
        ensures
            r@ == self@[i as int].1,
    {
        &self.entries[i].1
    }

    /// Looks a key identifier up.
    pub fn get(&self, key: &str) -> (r: Option<&String>)
        ensures
            match r {
                Some(v) => exists|i: int|
                    0 <= i < self@.len() && #[trigger] self@[i].0 == key@ && self@[i].1 == v@,
                None => forall|i: int| 0 <= i < self@.len() ==> #[trigger] self@[i].0 != key@,
            },
    {
        let n = self.entries.len();
        let mut i: usize = 0;
        while i < n
            invariant
                n == self@.len(),
                i <= n,
                forall|k: int| 0 <= k < i ==> #[trigger] self@[k].0 != key@,
            decreases n - i,
        {
            match str_cmp(self.entries[i].0.as_str(), key) {
                StrOrd::Equal => {
                    proof {
                        assert(self@[i as int].0 == key@ && self@[i as int].1
                            == self.entries@[i as int].1@);
                    }
                    return Some(&self.entries[i].1);
                },
                _ => {},
            }
            i += 1;
        }
        None
    }

    /// Position of `key` in the sorted order: the index of the first entry
    /// whose key is not smaller, and whether that entry's key is equal.
    fn find_pos(&self, key: &str) -> (r: (usize, bool))
        requires
            self.wf(),
        ensures
            r.0 <= self@.len(),
            forall|j: int| 0 <= j < r.0 ==> lex_lt(#[trigger] self@[j].0, key@),
            r.1 ==> r.0 < self@.len() && self@[r.0 as int].0 == key@,
            !r.1 && r.0 < self@.len() ==> lex_lt(key@, self@[r.0 as int].0),
    {
        let n = self.entries.len();
        let mut i: usize = 0;
        while i < n
            invariant
                n == self@.len(),
                i <= n,
                forall|j: int| 0 <= j < i ==> lex_lt(#[trigger] self@[j].0, key@),
            decreases n - i,
        {
            match str_cmp(self.entries[i].0.as_str(), key) {
                StrOrd::Less => {
                    i += 1;
                },
                StrOrd::Equal => {
                    return (i, true);
                },
                StrOrd::Greater => {
                    return (i, false);
                },
            }
        }
        (i, false)
    }

    /// Inserts an entry, keeping the canonical sorted order; an entry with
    /// the same key identifier is replaced.
    pub fn insert(&mut self, key: String, value: String)
        requires
            old(self).wf(),
        ensures
            final(self).wf(),
            final(self)@ == spec_insert(old(self)@, key@, value@),
    {
        let (i, eq) = self.find_pos(key.as_str());
        proof {
            if eq {
                lemma_lex_irrefl(key@);
            } else if i < self@.len() {
                lemma_lex_trichotomy(self@[i as int].0, key@);
            }
            lemma_spec_insert_at(self@, key@, value@, i as int);
        }
        let ghost prev = self@;
        if eq {
            self.entries.remove(i);
            self.entries.insert(i, (key, value));
            proof {
                assert(self@ =~= prev.update(i as int, (key@, value@)));
                assert forall|p: int, q: int| 0 <= p < q < self@.len() implies lex_lt(
                    self@[p].0,
                    self@[q].0,
                ) by {
                    assert(self@[p].0 == prev[p].0);
                    assert(self@[q].0 == prev[q].0);
                }
            }
        } else {
            self.entries.insert(i, (key, value));
            proof {
                assert(self@ =~= prev.insert(i as int, (key@, value@)));
                assert forall|p: int, q: int| 0 <= p < q < self@.len() implies lex_lt(
                    self@[p].0,
                    self@[q].0,
                ) by {
                    let ii = i as int;
                    if q < ii {
                        assert(self@[p] == prev[p] && self@[q] == prev[q]);
                    } else if p > ii {
                        assert(self@[p] == prev[p - 1] && self@[q] == prev[q - 1]);
                    } else if p < ii && q > ii {
                        assert(self@[p] == prev[p] && self@[q] == prev[q - 1]);
                    } else if p == ii {
                        // the new entry against a greater old one
                        assert(self@[q] == prev[q - 1]);
                        assert(!eq && ii < prev.len());
                        assert(lex_lt(key@, prev[ii].0));
                        if q - 1 > ii {
                            lemma_lex_trans(key@, prev[ii].0, prev[q - 1].0);
                        }
                    } else {
                        // q == i: a smaller old entry against the new one
                        assert(p < ii);
                        assert(self@[p] == prev[p]);
                        assert(lex_lt(prev[p].0, key@));
                    }
                }
            }
        }
    }

    /// The canonical, comma-joined list of the key identifiers, in sorted
    /// order: the exact text over which the aggregate `keys` MAC is
    /// computed.
    pub fn canonical_key_list(&self) -> (r: String)
        ensures
            r@ == joined_keys(keys_of(self@)),
    {
        let n = self.entries.len();
        let mut out = String::new();
        let mut i: usize = 0;
        while i < n
            invariant
                n == self@.len(),
                i <= n,
                out@ == joined_keys(keys_of(self@).subrange(0, i as int)),
            decreases n - i,
        {
            proof {
                let ks = keys_of(self@);
                assert(ks.subrange(0, i as int + 1) =~= ks.subrange(0, i as int).push(
                    ks[i as int],
                ));
                lemma_joined_push(ks.subrange(0, i as int), ks[i as int]);
            }
            if i > 0 {
                out.append(",");
                proof {
                    reveal_strlit(",");
                }
            }
            out.append(self.entries[i].0.as_str());
            i += 1;
        }
        proof {
            assert(keys_of(self@).subrange(0, n as int) =~= keys_of(self@));
        }
        out
    }
}

/// Builds a mapping from decoded entries, inserting in textual order.
pub(crate) fn build_macmap(entries: &Vec<(String, String)>) -> (r: MacMap)
    ensures
        r@ == insert_all(crate::wire::pairs_view(entries@)),
        r.wf(),
{
    let mut mm = MacMap::new();
    let n = entries.len();
    let mut i: usize = 0;
    while i < n
        invariant
            n == entries@.len(),
            i <= n,
            mm.wf(),
            mm@ == insert_all(crate::wire::pairs_view(entries@).subrange(0, i as int)),
        decreases n - i,
    {
        proof {
            let pv = crate::wire::pairs_view(entries@);
            assert(pv.subrange(0, i as int + 1).drop_last() =~= pv.subrange(0, i as int));
            assert(pv.subrange(0, i as int + 1).last() == pv[i as int]);
        }
        mm.insert(entries[i].0.clone(), entries[i].1.clone());
        i += 1;
    }
    proof {
        assert(crate::wire::pairs_view(entries@).subrange(0, n as int) =~= crate::wire::pairs_view(
            entries@,
        ));
    }
    mm
}

/// Appending one more key joins it after one more comma (or alone, when
/// the list was empty).
proof fn lemma_joined_push(ks: Seq<Seq<char>>, x: Seq<char>)
    ensures
        ks.len() == 0 ==> joined_keys(ks.push(x)) == x,
        ks.len() > 0 ==> joined_keys(ks.push(x)) == joined_keys(ks) + seq![','] + x,
    decreases ks.len(),
{
    if ks.len() == 0 {
        assert(joined_keys(ks.push(x)) == ks.push(x)[0]);
        assert(ks.push(x)[0] == x);
    } else if ks.len() == 1 {
        assert(ks.push(x).drop_first() =~= seq![x]);
        assert(joined_keys(seq![x]) == x);
        assert(joined_keys(ks.push(x)) == ks[0] + seq![','] + x);
        assert(joined_keys(ks) == ks[0]);
    } else {
        assert(ks.push(x).drop_first() =~= ks.drop_first().push(x));
        lemma_joined_push(ks.drop_first(), x);
        assert(joined_keys(ks.push(x)) == ks[0] + seq![','] + (joined_keys(ks.drop_first())
            + seq![','] + x));
        assert(ks[0] + seq![','] + (joined_keys(ks.drop_first()) + seq![','] + x) =~= (ks[0]
            + seq![','] + joined_keys(ks.drop_first())) + seq![','] + x);
    }
}

/// Two strictly sorted key lists over the same set of keys are the same
/// list.
proof fn lemma_sorted_same_set(x: Seq<Seq<char>>, y: Seq<Seq<char>>)
    requires
        forall|i: int, j: int| 0 <= i < j < x.len() ==> lex_lt(x[i], x[j]),
        forall|i: int, j: int| 0 <= i < j < y.len() ==> lex_lt(y[i], y[j]),
        x.to_set() == y.to_set(),
    ensures
        x == y,
    decreases x.len(),
{
    broadcast use vstd::seq_lib::group_seq_lib_default;

    if x.len() == 0 {
        if y.len() > 0 {
            assert(y.to_set().contains(y[0]));
            assert(x.to_set().contains(y[0]));
        }
        assert(x =~= y);
    } else {
        assert(x.to_set().contains(x[0]));
        assert(y.to_set().contains(x[0]));
        assert(y.contains(x[0]));
        let j = choose|j: int| 0 <= j < y.len() && y[j] == x[0];
        assert(x.to_set().contains(y[0]));
        assert(x.contains(y[0]));
        let i = choose|i: int| 0 <= i < x.len() && x[i] == y[0];
        if x[0] != y[0] {
            assert(j > 0 && i > 0);
            assert(lex_lt(y[0], y[j]));
            assert(lex_lt(x[0], x[i]));
            lemma_lex_trichotomy(x[0], y[0]);
            assert(false);
        }
        let xt = x.drop_first();
        let yt = y.drop_first();
        assert(xt.to_set() =~= yt.to_set()) by {
            assert forall|e: Seq<char>| xt.to_set().contains(e) implies yt.to_set().contains(
                e,
            ) by {
                lemma_tail_member(x, y, e);
            }
            assert forall|e: Seq<char>| yt.to_set().contains(e) implies xt.to_set().contains(
                e,
            ) by {
                lemma_tail_member(y, x, e);
            }
        }
        lemma_sorted_same_set(xt, yt);
        assert forall|k: int| 0 <= k < x.len() implies x[k] == y[k] by {
            if k > 0 {
                assert(x[k] == xt[k - 1]);
                assert(y[k] == yt[k - 1]);
            }
        }
        assert(x =~= y);
    }
}

/// A member of the tail of one sorted list is a member of the tail of the
/// other, when both lists hold the same set and the same head.
proof fn lemma_tail_member(x: Seq<Seq<char>>, y: Seq<Seq<char>>, e: Seq<char>)
    requires
        forall|i: int, j: int| 0 <= i < j < x.len() ==> lex_lt(x[i], x[j]),
        forall|i: int, j: int| 0 <= i < j < y.len() ==> lex_lt(y[i], y[j]),
        x.to_set() == y.to_set(),
        x.len() > 0,
        y.len() > 0,
        x[0] == y[0],
        x.drop_first().to_set().contains(e),
    ensures
        y.drop_first().to_set().contains(e),
{
    broadcast use vstd::seq_lib::group_seq_lib_default;

    assert(x.drop_first().contains(e));
    let i = choose|i: int| 0 <= i < x.drop_first().len() && x.drop_first()[i] == e;
    assert(x[i + 1] == e);
    assert(lex_lt(x[0], e));
    lemma_lex_irrefl(e);
    assert(e != x[0]);
    assert(x.to_set().contains(e));
    assert(y.contains(e));
    let j = choose|j: int| 0 <= j < y.len() && y[j] == e;
    assert(j != 0);
    assert(y.drop_first()[j - 1] == e);
    assert(y.drop_first().contains(e));
}

/// Canonical determinism of the aggregate key list: two well-formed
/// mappings that hold the same set of key identifiers list them
/// identically, so any two computations of the canonical comma-joined key
/// list agree, whatever order the entries were inserted in.
pub proof fn lemma_canonical_key_list_deterministic(a: Entries, b: Entries)
    requires
        sorted_keys(a),
        sorted_keys(b),
        keys_of(a).to_set() == keys_of(b).to_set(),
    ensures
        keys_of(a) == keys_of(b),
        joined_keys(keys_of(a)) == joined_keys(keys_of(b)),
{
    assert forall|i: int, j: int| 0 <= i < j < keys_of(a).len() implies lex_lt(
        keys_of(a)[i],
        keys_of(a)[j],
    ) by {
        assert(keys_of(a)[i] == a[i].0 && keys_of(a)[j] == a[j].0);
    }
    assert forall|i: int, j: int| 0 <= i < j < keys_of(b).len() implies lex_lt(
        keys_of(b)[i],
        keys_of(b)[j],
    ) by {
        assert(keys_of(b)[i] == b[i].0 && keys_of(b)[j] == b[j].0);
    }
    lemma_sorted_same_set(keys_of(a), keys_of(b));
}

} // verus!
