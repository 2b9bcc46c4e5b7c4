//! Authenticated storage layer: a snapshot/fork key-value abstraction,
//! typed indices over it, and Merkle proofs.
//!
//! Keys are byte strings ordered lexicographically; this file holds the
//! order, its laws, and the entry-sequence model that the whole layer is
//! specified against.

use vstd::prelude::*;

pub mod db;
pub mod key_set_index;
pub mod proof_list_index;
pub mod storage_key;

verus! {

/// Outcome of comparing two byte keys.
#[derive(Clone, Copy, Debug, PartialEq, Eq, Structural)]
pub enum KeyOrder {
    Less,
    Equal,
    Greater,
}

/// Strict lexicographic order on byte strings: a proper prefix comes
/// first, otherwise the first differing byte decides.
pub open spec fn lex_lt(a: Seq<u8>, b: Seq<u8>) -> bool
    decreases a.len(),
{
    if b.len() == 0 {
        false
    } else if a.len() == 0 {
        true
    } else if a[0] < b[0] {
        true
    } else if a[0] > b[0] {
        false
    } else {
        lex_lt(a.skip(1), b.skip(1))
    }
}

/// Reflexive lexicographic order.
pub open spec fn lex_le(a: Seq<u8>, b: Seq<u8>) -> bool {
    lex_lt(a, b) || a == b
}

/// No byte string is below itself.
pub proof fn lex_lt_irrefl(a: Seq<u8>)
    ensures
        !lex_lt(a, a),
    decreases a.len(),
{
    if a.len() > 0 {
        lex_lt_irrefl(a.skip(1));
    }
}

/// Two byte strings are equal or one is strictly below the other.
pub proof fn lex_lt_trichotomy(a: Seq<u8>, b: Seq<u8>)
    ensures
        lex_lt(a, b) || lex_lt(b, a) || a == b,
    decreases a.len(),
{
    if a.len() == 0 && b.len() == 0 {
        assert(a =~= b);
    } else if a.len() > 0 && b.len() > 0 && a[0] == b[0] {
        lex_lt_trichotomy(a.skip(1), b.skip(1));
        if !lex_lt(a, b) && !lex_lt(b, a) {
            assert(a.skip(1) =~= b.skip(1));
            assert(a =~= seq![a[0]] + a.skip(1));
            assert(b =~= seq![b[0]] + b.skip(1));
        }
    }
}

/// The strict order is transitive.
pub proof fn lex_lt_trans(a: Seq<u8>, b: Seq<u8>, c: Seq<u8>)
    requires
        lex_lt(a, b),
        lex_lt(b, c),
    ensures
        lex_lt(a, c),
    decreases a.len(),
{
    if a.len() > 0 && c.len() > 0 {
        if b.len() == 0 {
            // impossible: lex_lt(a, b) would fail
        } else {
            if a[0] == b[0] && b[0] == c[0] {
                lex_lt_trans(a.skip(1), b.skip(1), c.skip(1));
            }
        }
    }
}

/// At most one of `a < b` and `b < a` holds.
pub proof fn lex_lt_asym(a: Seq<u8>, b: Seq<u8>)
    ensures
        !(lex_lt(a, b) && lex_lt(b, a)),
{
    if lex_lt(a, b) && lex_lt(b, a) {
        lex_lt_trans(a, b, a);
        lex_lt_irrefl(a);
    }
}

/// Equal prefixes do not influence the order: comparison starts at the
/// first position where the strings may differ.
pub proof fn lex_lt_skip_prefix(a: Seq<u8>, b: Seq<u8>, i: int)
    requires
        0 <= i <= a.len(),
        i <= b.len(),
        forall|j: int| 0 <= j < i ==> a[j] == b[j],
    ensures
        lex_lt(a, b) == lex_lt(a.skip(i), b.skip(i)),
    decreases i,
{
    if i > 0 {
        assert(a[0] == b[0]);
        assert(forall|j: int| 0 <= j < i - 1 ==> a.skip(1)[j] == b.skip(1)[j]) by {
            assert(forall|j: int|
                0 <= j < i - 1 ==> (a.skip(1)[j] == a[j + 1] && b.skip(1)[j] == b[j + 1]));
        }
        lex_lt_skip_prefix(a.skip(1), b.skip(1), i - 1);
        assert(a.skip(1).skip(i - 1) =~= a.skip(i));
        assert(b.skip(1).skip(i - 1) =~= b.skip(i));
        assert(lex_lt(a, b) == lex_lt(a.skip(1), b.skip(1)));
    } else {
        assert(a.skip(0) =~= a);
        assert(b.skip(0) =~= b);
    }
}

/// Compares two byte keys lexicographically.
pub fn key_cmp(a: &Vec<u8>, b: &Vec<u8>) -> (o: KeyOrder)
    ensures
        (o == KeyOrder::Less) == lex_lt(a@, b@),
        (o == KeyOrder::Equal) == (a@ == b@),
        (o == KeyOrder::Greater) == lex_lt(b@, a@),
{
    let n: usize = if a.len() < b.len() {
        a.len()
    } else {
        b.len()
    };
    let mut i: usize = 0;
    while i < n
        invariant
            n <= a@.len(),
            n <= b@.len(),
            n == a@.len() || n == b@.len(),
            i <= n,
            forall|j: int| 0 <= j < i ==> a@[j] == b@[j],
        decreases n - i,
    {
        if a[i] < b[i] {
            proof {
                lex_lt_skip_prefix(a@, b@, i as int);
                lex_lt_skip_prefix(b@, a@, i as int);
                assert(a@[i as int] != b@[i as int]);
            }
            return KeyOrder::Less;
        }
        if a[i] > b[i] {
            proof {
                lex_lt_skip_prefix(a@, b@, i as int);
                lex_lt_skip_prefix(b@, a@, i as int);
                assert(a@[i as int] != b@[i as int]);
            }
            return KeyOrder::Greater;
        }
        i = i + 1;
    }
    proof {
        lex_lt_skip_prefix(a@, b@, n as int);
        lex_lt_skip_prefix(b@, a@, n as int);
    }
    if a.len() == b.len() {
        proof {
            assert(a@ =~= b@);
            lex_lt_irrefl(a@);
        }
        KeyOrder::Equal
    } else if a.len() < b.len() {
        proof {
            assert(a@.skip(n as int).len() == 0);
            assert(b@.skip(n as int).len() > 0);
            assert(a@.len() != b@.len());
        }
        KeyOrder::Less
    } else {
        proof {
            assert(b@.skip(n as int).len() == 0);
            assert(a@.skip(n as int).len() > 0);
            assert(a@.len() != b@.len());
        }
        KeyOrder::Greater
    }
}

/// The model of a stored entry: key bytes and value bytes.
pub open spec fn entries_view(s: Seq<(Vec<u8>, Vec<u8>)>) -> Seq<(Seq<u8>, Seq<u8>)> {
    s.map_values(|e: (Vec<u8>, Vec<u8>)| (e.0@, e.1@))
}

/// Keys of an association sequence are strictly ascending.
pub open spec fn keys_sorted<V>(s: Seq<(Seq<u8>, V)>) -> bool {
    forall|i: int, j: int| 0 <= i < j < s.len() ==> lex_lt(s[i].0, s[j].0)
}

/// The value stored under a key in an association sequence, front to
/// back.
pub open spec fn assoc_lookup<V>(s: Seq<(Seq<u8>, V)>, k: Seq<u8>) -> Option<V>
    decreases s.len(),
{
    if s.len() == 0 {
        None
    } else if s[0].0 == k {
        Some(s[0].1)
    } else {
        assoc_lookup(s.skip(1), k)
    }
}

/// A strictly ascending sequence remains so after dropping its head.
pub proof fn lemma_sorted_skip_one<V>(s: Seq<(Seq<u8>, V)>)
    requires
        keys_sorted(s),
        s.len() > 0,
    ensures
        keys_sorted(s.skip(1)),
{
    assert(forall|p: int, q: int|
        0 <= p < q < s.skip(1).len() ==> (s.skip(1)[p] == s[p + 1] && s.skip(1)[q] == s[q + 1]));
}

/// In a sorted association sequence, an entry is present exactly when
/// the lookup finds its value.
pub proof fn lemma_sorted_lookup<V>(s: Seq<(Seq<u8>, V)>, i: int)
    requires
        keys_sorted(s),
        0 <= i < s.len(),
    ensures
        assoc_lookup(s, s[i].0) == Some(s[i].1),
    decreases s.len(),
{
    if i == 0 {
    } else {
        assert(lex_lt(s[0].0, s[i].0));
        if s[0].0 == s[i].0 {
            lex_lt_irrefl(s[0].0);
        }
        lemma_sorted_skip_one(s);
        lemma_sorted_lookup(s.skip(1), i - 1);
        assert(s.skip(1)[i - 1] == s[i]);
    }
}

/// A key that no entry of the sequence carries looks up to nothing.
pub proof fn lemma_lookup_absent<V>(s: Seq<(Seq<u8>, V)>, k: Seq<u8>)
    requires
        forall|i: int| 0 <= i < s.len() ==> s[i].0 != k,
    ensures
        assoc_lookup(s, k) is None,
    decreases s.len(),
{
    if s.len() > 0 {
        assert(forall|i: int| 0 <= i < s.skip(1).len() ==> s.skip(1)[i] == s[i + 1]);
        lemma_lookup_absent(s.skip(1), k);
    }
}

/// A successful lookup names some entry of the sequence.
pub proof fn lemma_lookup_present<V>(s: Seq<(Seq<u8>, V)>, k: Seq<u8>)
    requires
        assoc_lookup(s, k) is Some,
    ensures
        exists|i: int| 0 <= i < s.len() && s[i].0 == k && s[i].1 == assoc_lookup(s, k)->Some_0,
    decreases s.len(),
{
    if s.len() > 0 {
        if s[0].0 == k {
            assert(s[0].0 == k && s[0].1 == assoc_lookup(s, k)->Some_0);
        } else {
            lemma_lookup_present(s.skip(1), k);
            let i = choose|i: int|
                0 <= i < s.skip(1).len() && s.skip(1)[i].0 == k && s.skip(1)[i].1 == assoc_lookup(
                    s.skip(1),
                    k,
                )->Some_0;
            assert(s[i + 1].0 == k && s[i + 1].1 == assoc_lookup(s, k)->Some_0);
        }
    }
}

/// Skipping entries whose key is not the one sought leaves the lookup
/// unchanged.
pub proof fn lemma_lookup_skip<V>(s: Seq<(Seq<u8>, V)>, k: Seq<u8>, i: int)
    requires
        0 <= i <= s.len(),
        forall|j: int| 0 <= j < i ==> s[j].0 != k,
    ensures
        assoc_lookup(s, k) == assoc_lookup(s.skip(i), k),
    decreases i,
{
    if i > 0 {
        assert(forall|j: int| 0 <= j < i - 1 ==> s.skip(1)[j] == s[j + 1]);
        lemma_lookup_skip(s.skip(1), k, i - 1);
        assert(s.skip(1).skip(i - 1) =~= s.skip(i));
    } else {
        assert(s.skip(0) =~= s);
    }
}

/// The bytes a stored optional value holds.
pub open spec fn opt_bytes(o: Option<Vec<u8>>) -> Option<Seq<u8>> {
    match o {
        Some(v) => Some(v@),
        None => None,
    }
}

} // verus!
