//! The snapshot/fork key-value layer.
//!
//! A `MemoryDb` holds committed entries sorted by key. A `Fork` wraps a
//! snapshot of it with an in-memory overlay of pending changes; merging
//! the fork's patch back into the database applies those changes
//! atomically. The model of a fork is `merged(snapshot, changes)`: the
//! entry sequence that iteration yields and that a later merge commits.

use vstd::prelude::*;

use crate::storage::{
    assoc_lookup, entries_view, key_cmp, keys_sorted, lemma_lookup_absent, lemma_sorted_lookup,
    lemma_sorted_skip_one, lex_le, lex_lt, lex_lt_asym, lex_lt_irrefl, lex_lt_trans,
    lex_lt_trichotomy, opt_bytes, KeyOrder,
};

verus! {

/// A pending change of one key: overwrite with a value, or remove.
#[derive(Clone, Debug)]
pub enum Change {
    Put(Vec<u8>),
    Delete,
}

/// The model of a change: the value it leaves under the key, if any.
pub open spec fn change_opt(c: Change) -> Option<Seq<u8>> {
    match c {
        Change::Put(v) => Some(v@),
        Change::Delete => None,
    }
}

/// An ordered set of pending changes, keyed by the affected key.
pub type Patch = Vec<(Vec<u8>, Change)>;

/// The model of a patch: key bytes and the optional value each change
/// leaves behind.
pub open spec fn changes_view(s: Seq<(Vec<u8>, Change)>) -> Seq<(Seq<u8>, Option<Seq<u8>>)> {
    s.map_values(|e: (Vec<u8>, Change)| (e.0@, change_opt(e.1)))
}

/// Whether some entry of the sequence carries the key.
pub open spec fn has_key<V>(s: Seq<(Seq<u8>, V)>, k: Seq<u8>) -> bool {
    exists|j: int| 0 <= j < s.len() && (#[trigger] s[j]).0 == k
}

/// The entries left after laying an ordered change sequence over an
/// ordered entry sequence: a `Put` replaces or inserts, a `Delete`
/// suppresses the underlying entry.
pub open spec fn merged(
    snap: Seq<(Seq<u8>, Seq<u8>)>,
    chg: Seq<(Seq<u8>, Option<Seq<u8>>)>,
) -> Seq<(Seq<u8>, Seq<u8>)>
    decreases snap.len() + chg.len(),
{
    if chg.len() == 0 {
        snap
    } else if snap.len() == 0 || lex_lt(chg[0].0, snap[0].0) {
        match chg[0].1 {
            Some(v) => seq![(chg[0].0, v)] + merged(snap, chg.skip(1)),
            None => merged(snap, chg.skip(1)),
        }
    } else if chg[0].0 == snap[0].0 {
        match chg[0].1 {
            Some(v) => seq![(chg[0].0, v)] + merged(snap.skip(1), chg.skip(1)),
            None => merged(snap.skip(1), chg.skip(1)),
        }
    } else {
        seq![snap[0]] + merged(snap.skip(1), chg)
    }
}

/// A key carried by a sequence's tail is carried by the sequence.
proof fn lemma_has_key_unskip<V>(s: Seq<(Seq<u8>, V)>, k: Seq<u8>)
    requires
        s.len() > 0,
        has_key(s.skip(1), k),
    ensures
        has_key(s, k),
{
    let j = choose|j: int| 0 <= j < s.skip(1).len() && (#[trigger] s.skip(1)[j]).0 == k;
    assert(s[j + 1].0 == k);
}

/// Every key of the merged sequence comes from the snapshot or from the
/// changes.
pub proof fn lemma_merged_keys(snap: Seq<(Seq<u8>, Seq<u8>)>, chg: Seq<(Seq<u8>, Option<Seq<u8>>)>)
    ensures
        forall|i: int|
            0 <= i < merged(snap, chg).len() ==> has_key(snap, (#[trigger] merged(snap, chg)[i]).0)
                || has_key(chg, merged(snap, chg)[i].0),
    decreases snap.len() + chg.len(),
{
    let m = merged(snap, chg);
    if chg.len() == 0 {
        assert forall|i: int| 0 <= i < m.len() implies has_key(snap, (#[trigger] m[i]).0) || has_key(
            chg,
            m[i].0,
        ) by {
            assert(snap[i].0 == m[i].0);
        }
    } else if snap.len() == 0 || lex_lt(chg[0].0, snap[0].0) {
        lemma_merged_keys(snap, chg.skip(1));
        let mt = merged(snap, chg.skip(1));
        assert forall|i: int| 0 <= i < m.len() implies has_key(snap, (#[trigger] m[i]).0) || has_key(
            chg,
            m[i].0,
        ) by {
            match chg[0].1 {
                Some(v) => {
                    if i == 0 {
                        assert(chg[0].0 == m[0].0);
                    } else {
                        assert(m[i] == mt[i - 1]);
                        if has_key(chg.skip(1), m[i].0) {
                            lemma_has_key_unskip(chg, m[i].0);
                        }
                    }
                },
                None => {
                    assert(m[i] == mt[i]);
                    if has_key(chg.skip(1), m[i].0) {
                        lemma_has_key_unskip(chg, m[i].0);
                    }
                },
            }
        }
    } else if chg[0].0 == snap[0].0 {
        lemma_merged_keys(snap.skip(1), chg.skip(1));
        let mt = merged(snap.skip(1), chg.skip(1));
        assert forall|i: int| 0 <= i < m.len() implies has_key(snap, (#[trigger] m[i]).0) || has_key(
            chg,
            m[i].0,
        ) by {
            match chg[0].1 {
                Some(v) => {
                    if i == 0 {
                        assert(chg[0].0 == m[0].0);
                    } else {
                        assert(m[i] == mt[i - 1]);
                        if has_key(snap.skip(1), m[i].0) {
                            lemma_has_key_unskip(snap, m[i].0);
                        }
                        if has_key(chg.skip(1), m[i].0) {
                            lemma_has_key_unskip(chg, m[i].0);
                        }
                    }
                },
                None => {
                    assert(m[i] == mt[i]);
                    if has_key(snap.skip(1), m[i].0) {
                        lemma_has_key_unskip(snap, m[i].0);
                    }
                    if has_key(chg.skip(1), m[i].0) {
                        lemma_has_key_unskip(chg, m[i].0);
                    }
                },
            }
        }
    } else {
        lemma_merged_keys(snap.skip(1), chg);
        let mt = merged(snap.skip(1), chg);
        assert forall|i: int| 0 <= i < m.len() implies has_key(snap, (#[trigger] m[i]).0) || has_key(
            chg,
            m[i].0,
        ) by {
            if i == 0 {
                assert(snap[0].0 == m[0].0);
            } else {
                assert(m[i] == mt[i - 1]);
                if has_key(snap.skip(1), m[i].0) {
                    lemma_has_key_unskip(snap, m[i].0);
                }
            }
        }
    }
}

/// A bound strictly below every key of both inputs is strictly below
/// every key of their merge.
proof fn lemma_bound_below_merged(
    snap: Seq<(Seq<u8>, Seq<u8>)>,
    chg: Seq<(Seq<u8>, Option<Seq<u8>>)>,
    bound: Seq<u8>,
)
    requires
        forall|j: int| 0 <= j < snap.len() ==> lex_lt(bound, (#[trigger] snap[j]).0),
        forall|j: int| 0 <= j < chg.len() ==> lex_lt(bound, (#[trigger] chg[j]).0),
    ensures
        forall|i: int| 0 <= i < merged(snap, chg).len() ==> lex_lt(
            bound,
            (#[trigger] merged(snap, chg)[i]).0,
        ),
{
    lemma_merged_keys(snap, chg);
    let m = merged(snap, chg);
    assert forall|i: int| 0 <= i < m.len() implies lex_lt(bound, (#[trigger] m[i]).0) by {
        let k = m[i].0;
        if has_key(snap, k) {
            let j = choose|j: int| 0 <= j < snap.len() && (#[trigger] snap[j]).0 == k;
            assert(lex_lt(bound, snap[j].0));
        } else {
            let j = choose|j: int| 0 <= j < chg.len() && (#[trigger] chg[j]).0 == k;
            assert(lex_lt(bound, chg[j].0));
        }
    }
}

/// All keys of the tail of a sorted sequence are strictly above its
/// head's key.
proof fn lemma_sorted_tail_above<V>(s: Seq<(Seq<u8>, V)>)
    requires
        keys_sorted(s),
        s.len() > 0,
    ensures
        forall|j: int| 0 <= j < s.skip(1).len() ==> lex_lt(s[0].0, (#[trigger] s.skip(1)[j]).0),
{
    assert forall|j: int| 0 <= j < s.skip(1).len() implies lex_lt(
        s[0].0,
        (#[trigger] s.skip(1)[j]).0,
    ) by {
        assert(s.skip(1)[j] == s[j + 1]);
    }
}

/// Laying sorted changes over sorted entries yields sorted entries.
pub proof fn lemma_merged_sorted(
    snap: Seq<(Seq<u8>, Seq<u8>)>,
    chg: Seq<(Seq<u8>, Option<Seq<u8>>)>,
)
    requires
        keys_sorted(snap),
        keys_sorted(chg),
    ensures
        keys_sorted(merged(snap, chg)),
    decreases snap.len() + chg.len(),
{
    let m = merged(snap, chg);
    if chg.len() == 0 {
    } else if snap.len() == 0 || lex_lt(chg[0].0, snap[0].0) {
        lemma_sorted_skip_one(chg);
        lemma_merged_sorted(snap, chg.skip(1));
        let mt = merged(snap, chg.skip(1));
        match chg[0].1 {
            Some(v) => {
                lemma_sorted_tail_above(chg);
                assert forall|j: int| 0 <= j < snap.len() implies lex_lt(
                    chg[0].0,
                    (#[trigger] snap[j]).0,
                ) by {
                    if snap.len() > 0 {
                        if j > 0 {
                            lex_lt_trans(chg[0].0, snap[0].0, snap[j].0);
                        }
                    }
                }
                lemma_bound_below_merged(snap, chg.skip(1), chg[0].0);
                assert forall|i: int, j: int| 0 <= i < j < m.len() implies lex_lt(
                    m[i].0,
                    m[j].0,
                ) by {
                    assert(m[j] == mt[j - 1]);
                    if i > 0 {
                        assert(m[i] == mt[i - 1]);
                    }
                }
            },
            None => {},
        }
    } else if chg[0].0 == snap[0].0 {
        lemma_sorted_skip_one(chg);
        lemma_sorted_skip_one(snap);
        lemma_merged_sorted(snap.skip(1), chg.skip(1));
        let mt = merged(snap.skip(1), chg.skip(1));
        match chg[0].1 {
            Some(v) => {
                lemma_sorted_tail_above(chg);
                lemma_sorted_tail_above(snap);
                lemma_bound_below_merged(snap.skip(1), chg.skip(1), chg[0].0);
                assert forall|i: int, j: int| 0 <= i < j < m.len() implies lex_lt(
                    m[i].0,
                    m[j].0,
                ) by {
                    assert(m[j] == mt[j - 1]);
                    if i > 0 {
                        assert(m[i] == mt[i - 1]);
                    }
                }
            },
            None => {},
        }
    } else {
        lemma_sorted_skip_one(snap);
        lemma_merged_sorted(snap.skip(1), chg);
        let mt = merged(snap.skip(1), chg);
        lemma_sorted_tail_above(snap);
        lex_lt_trichotomy(chg[0].0, snap[0].0);
        assert forall|j: int| 0 <= j < chg.len() implies lex_lt(
            snap[0].0,
            (#[trigger] chg[j]).0,
        ) by {
            if j > 0 {
                lex_lt_trans(snap[0].0, chg[0].0, chg[j].0);
            }
        }
        lemma_bound_below_merged(snap.skip(1), chg, snap[0].0);
        assert forall|i: int, j: int| 0 <= i < j < m.len() implies lex_lt(m[i].0, m[j].0) by {
            assert(m[j] == mt[j - 1]);
            if i > 0 {
                assert(m[i] == mt[i - 1]);
            }
        }
    }
}

/// A key strictly below every key of a sequence is absent from it.
proof fn lemma_below_all_absent<V>(s: Seq<(Seq<u8>, V)>, k: Seq<u8>)
    requires
        forall|j: int| 0 <= j < s.len() ==> lex_lt(k, (#[trigger] s[j]).0),
    ensures
        assoc_lookup(s, k) is None,
{
    assert forall|i: int| 0 <= i < s.len() implies s[i].0 != k by {
        if s[i].0 == k {
            assert(lex_lt(k, s[i].0));
            lex_lt_irrefl(k);
        }
    }
    lemma_lookup_absent(s, k);
}

/// A key absent from both inputs of a merge is absent from its result.
proof fn lemma_absent_in_merged(
    snap: Seq<(Seq<u8>, Seq<u8>)>,
    chg: Seq<(Seq<u8>, Option<Seq<u8>>)>,
    k: Seq<u8>,
)
    requires
        assoc_lookup(snap, k) is None,
        assoc_lookup(chg, k) is None,
    ensures
        assoc_lookup(merged(snap, chg), k) is None,
{
    lemma_merged_keys(snap, chg);
    let m = merged(snap, chg);
    assert forall|i: int| 0 <= i < m.len() implies m[i].0 != k by {
        if m[i].0 == k {
            if has_key(snap, k) {
                let j = choose|j: int| 0 <= j < snap.len() && (#[trigger] snap[j]).0 == k;
                lemma_present_lookup(snap, j, k);
            } else {
                let j = choose|j: int| 0 <= j < chg.len() && (#[trigger] chg[j]).0 == k;
                lemma_present_lookup(chg, j, k);
            }
        }
    }
    lemma_lookup_absent(m, k);
}

/// An entry with the sought key makes the lookup succeed.
proof fn lemma_present_lookup<V>(s: Seq<(Seq<u8>, V)>, i: int, k: Seq<u8>)
    requires
        0 <= i < s.len(),
        s[i].0 == k,
    ensures
        assoc_lookup(s, k) is Some,
    decreases s.len(),
{
    if s[0].0 == k {
    } else {
        assert(s.skip(1)[i - 1] == s[i]);
        lemma_present_lookup(s.skip(1), i - 1, k);
    }
}

/// Looking a key up in the merged entries agrees with consulting the
/// changes first and falling back to the snapshot.
pub proof fn lemma_merged_lookup(
    snap: Seq<(Seq<u8>, Seq<u8>)>,
    chg: Seq<(Seq<u8>, Option<Seq<u8>>)>,
    k: Seq<u8>,
)
    requires
        keys_sorted(snap),
        keys_sorted(chg),
    ensures
        assoc_lookup(merged(snap, chg), k) == (match assoc_lookup(chg, k) {
            Some(c) => c,
            None => assoc_lookup(snap, k),
        }),
    decreases snap.len() + chg.len(),
{
    let m = merged(snap, chg);
    lemma_merged_sorted(snap, chg);
    if chg.len() == 0 {
    } else if snap.len() == 0 || lex_lt(chg[0].0, snap[0].0) {
        lemma_sorted_skip_one(chg);
        lemma_merged_lookup(snap, chg.skip(1), k);
        if k == chg[0].0 {
            if snap.len() > 0 {
                assert forall|j: int| 0 <= j < snap.len() implies lex_lt(
                    k,
                    (#[trigger] snap[j]).0,
                ) by {
                    if j > 0 {
                        lex_lt_trans(k, snap[0].0, snap[j].0);
                    }
                }
                lemma_below_all_absent(snap, k);
            }
            lemma_sorted_tail_above(chg);
            lemma_below_all_absent(chg.skip(1), k);
            match chg[0].1 {
                Some(v) => {
                    assert(m[0] == (chg[0].0, v));
                },
                None => {
                    lemma_absent_in_merged(snap, chg.skip(1), k);
                },
            }
        } else {
            match chg[0].1 {
                Some(v) => {
                    assert(m.skip(1) =~= merged(snap, chg.skip(1)));
                    assert(m[0].0 == chg[0].0);
                },
                None => {},
            }
        }
    } else if chg[0].0 == snap[0].0 {
        lemma_sorted_skip_one(chg);
        lemma_sorted_skip_one(snap);
        lemma_merged_lookup(snap.skip(1), chg.skip(1), k);
        if k == chg[0].0 {
            lemma_sorted_tail_above(chg);
            lemma_below_all_absent(chg.skip(1), k);
            lemma_sorted_tail_above(snap);
            lemma_below_all_absent(snap.skip(1), k);
            match chg[0].1 {
                Some(v) => {
                    assert(m[0] == (chg[0].0, v));
                },
                None => {
                    lemma_absent_in_merged(snap.skip(1), chg.skip(1), k);
                },
            }
        } else {
            match chg[0].1 {
                Some(v) => {
                    assert(m.skip(1) =~= merged(snap.skip(1), chg.skip(1)));
                    assert(m[0].0 == chg[0].0);
                },
                None => {},
            }
        }
    } else {
        lemma_sorted_skip_one(snap);
        lemma_merged_lookup(snap.skip(1), chg, k);
        assert(m[0] == snap[0]);
        assert(m.skip(1) =~= merged(snap.skip(1), chg));
        if k == snap[0].0 {
            lex_lt_trichotomy(chg[0].0, snap[0].0);
            assert forall|j: int| 0 <= j < chg.len() implies lex_lt(k, (#[trigger] chg[j]).0) by {
                if j > 0 {
                    lex_lt_trans(k, chg[0].0, chg[j].0);
                }
            }
            lemma_below_all_absent(chg, k);
        }
    }
}


/// Copies a byte vector.
pub fn copy_bytes(v: &Vec<u8>) -> (r: Vec<u8>)
    ensures
        r@ == v@,
{
    let mut r: Vec<u8> = Vec::new();
    let mut i: usize = 0;
    while i < v.len()
        invariant
            i <= v@.len(),
            r@ =~= v@.subrange(0, i as int),
        decreases v@.len() - i,
    {
        r.push(v[i]);
        i = i + 1;
    }
    proof {
        assert(r@ =~= v@);
    }
    r
}

/// The entries of a sequence whose key is at or above `from`, in their
/// entry order.
pub open spec fn suffix_from(s: Seq<(Seq<u8>, Seq<u8>)>, from: Seq<u8>) -> Seq<(Seq<u8>, Seq<u8>)>
    decreases s.len(),
{
    if s.len() == 0 {
        Seq::empty()
    } else if lex_le(from, s[0].0) {
        seq![s[0]] + suffix_from(s.skip(1), from)
    } else {
        suffix_from(s.skip(1), from)
    }
}

/// A read-only, immutable view of the stored entries.
pub trait Snapshot: Sized {
    /// The committed entries this view exposes, ascending by key.
    spec fn snap(&self) -> Seq<(Seq<u8>, Seq<u8>)>;

    /// Internal well-formedness of the view.
    spec fn inv(&self) -> bool;

    /// A well-formed view's entries are sorted by key.
    proof fn inv_sorted(&self)
        requires
            self.inv(),
        ensures
            keys_sorted(self.snap()),
    ;

    /// The value stored under a key.
    fn get(&self, key: &Vec<u8>) -> (r: Option<Vec<u8>>)
        requires
            self.inv(),
        ensures
            opt_bytes(r) == assoc_lookup(self.snap(), key@),
    ;

    /// Whether a value is stored under the key.
    fn contains(&self, key: &Vec<u8>) -> (r: bool)
        requires
            self.inv(),
        ensures
            r == (assoc_lookup(self.snap(), key@) is Some),
    ;

    /// All entries whose key is at or above `from`, ascending by key.
    fn iter(&self, from: &Vec<u8>) -> (r: Vec<(Vec<u8>, Vec<u8>)>)
        requires
            self.inv(),
        ensures
            entries_view(r@) == suffix_from(self.snap(), from@),
    ;
}

/// An in-memory database: committed entries sorted by key.
pub struct MemoryDb {
    entries: Vec<(Vec<u8>, Vec<u8>)>,
}

impl MemoryDb {
    /// An empty database.
    pub fn new() -> (r: MemoryDb)
        ensures
            r.inv(),
            r.snap().len() == 0,
    {
        MemoryDb { entries: Vec::new() }
    }

    /// A database with the same entries.
    pub fn duplicate(&self) -> (r: MemoryDb)
        ensures
            r.snap() == self.snap(),
            r.inv() == self.inv(),
    {
        let mut entries: Vec<(Vec<u8>, Vec<u8>)> = Vec::new();
        let mut i: usize = 0;
        while i < self.entries.len()
            invariant
                i <= self.entries@.len(),
                entries_view(entries@) =~~= entries_view(self.entries@).subrange(0, i as int),
            decreases self.entries@.len() - i,
        {
            let k = copy_bytes(&self.entries[i].0);
            let v = copy_bytes(&self.entries[i].1);
            let ghost e0 = entries@;
            entries.push((k, v));
            proof {
                assert(entries_view(e0).len() == i);
                assert(e0.len() == i);
                assert(entries@ == e0.push((k, v)));
                assert(entries@.len() == i + 1);
                assert(entries_view(entries@).len() == i + 1);
                assert(entries@[i as int] == (k, v));
                assert(entries_view(entries@)[i as int] == (k@, v@));
                assert(forall|j: int| 0 <= j < i ==> entries@[j] == e0[j]);
                assert(forall|j: int|
                    0 <= j < i ==> #[trigger] entries_view(entries@)[j] == entries_view(e0)[j]);
                assert(entries_view(entries@) =~~= entries_view(self.entries@).subrange(
                    0,
                    i as int + 1,
                ));
            }
            i = i + 1;
        }
        proof {
            assert(entries_view(entries@) =~~= entries_view(self.entries@));
        }
        MemoryDb { entries }
    }
}

impl Snapshot for MemoryDb {
    closed spec fn snap(&self) -> Seq<(Seq<u8>, Seq<u8>)> {
        entries_view(self.entries@)
    }

    closed spec fn inv(&self) -> bool {
        keys_sorted(entries_view(self.entries@))
    }

    proof fn inv_sorted(&self) {
    }

    fn get(&self, key: &Vec<u8>) -> (r: Option<Vec<u8>>) {
        let s = Ghost(self.snap());
        let mut i: usize = 0;
        while i < self.entries.len()
            invariant
                self.inv(),
                s@ == self.snap(),
                i <= self.entries@.len(),
                forall|j: int| 0 <= j < i ==> (#[trigger] s@[j]).0 != key@,
            decreases self.entries@.len() - i,
        {
            if let KeyOrder::Equal = key_cmp(&self.entries[i].0, key) {
                proof {
                    lemma_sorted_lookup(s@, i as int);
                }
                return Some(copy_bytes(&self.entries[i].1));
            }
            i = i + 1;
        }
        proof {
            lemma_lookup_absent(s@, key@);
        }
        None
    }

    fn contains(&self, key: &Vec<u8>) -> (r: bool) {
        self.get(key).is_some()
    }

    fn iter(&self, from: &Vec<u8>) -> (r: Vec<(Vec<u8>, Vec<u8>)>) {
        entries_suffix(&self.entries, from)
    }
}


/// Copies a change.
fn copy_change(c: &Change) -> (r: Change)
    ensures
        change_opt(r) == change_opt(*c),
{
    match c {
        Change::Put(v) => Change::Put(copy_bytes(v)),
        Change::Delete => Change::Delete,
    }
}

/// Inserts a change into an ordered change list, replacing any change
/// already recorded for the same key.
fn change_insert(changes: &mut Vec<(Vec<u8>, Change)>, key: Vec<u8>, change: Change)
    requires
        keys_sorted(changes_view(old(changes)@)),
    ensures
        keys_sorted(changes_view(final(changes)@)),
        assoc_lookup(changes_view(final(changes)@), key@) == Some(change_opt(change)),
        forall|k: Seq<u8>| k != key@ ==> #[trigger] assoc_lookup(changes_view(final(changes)@), k)
            == assoc_lookup(changes_view(old(changes)@), k),
{
    let ghost c0 = changes_view(changes@);
    proof {
        assert(c0.len() == changes@.len());
    }
    let mut i: usize = 0;
    while i < changes.len() && key_cmp(&changes[i].0, &key) == KeyOrder::Less
        invariant
            changes@ == old(changes)@,
            c0 == changes_view(changes@),
            i <= changes@.len(),
            forall|j: int| 0 <= j < i ==> lex_lt((#[trigger] c0[j]).0, key@),
        decreases changes@.len() - i,
    {
        i = i + 1;
    }
    proof {
        if i < changes@.len() {
            lex_lt_trichotomy(c0[i as int].0, key@);
        }
    }
    if i < changes.len() && key_cmp(&changes[i].0, &key) == KeyOrder::Equal {
        changes.set(i, (key, change));
        proof {
            let c1 = changes_view(changes@);
            assert(c1.len() == c0.len());
            assert(c1[i as int] == (key@, change_opt(change)));
            assert(forall|j: int| 0 <= j < c0.len() && j != i ==> c1[j] == c0[j]);
            assert(keys_sorted(c1)) by {
                assert(forall|j: int| 0 <= j < c0.len() ==> (#[trigger] c1[j]).0 == c0[j].0);
            }
            lemma_sorted_lookup(c1, i as int);
            assert forall|k: Seq<u8>| k != key@ implies #[trigger] assoc_lookup(c1, k)
                == assoc_lookup(c0, k) by {
                if has_key(c0, k) {
                    let j = choose|j: int| 0 <= j < c0.len() && (#[trigger] c0[j]).0 == k;
                    assert(c1[j] == c0[j]);
                    lemma_sorted_lookup(c0, j);
                    lemma_sorted_lookup(c1, j);
                } else {
                    assert(forall|j: int| 0 <= j < c0.len() ==> (#[trigger] c0[j]).0 != k);
                    assert forall|j: int| 0 <= j < c1.len() implies (#[trigger] c1[j]).0 != k by {
                        if j != i {
                            assert(c1[j] == c0[j]);
                        }
                    }
                    lemma_lookup_absent(c0, k);
                    lemma_lookup_absent(c1, k);
                }
            }
        }
    } else {
        proof {
            if i < changes@.len() {
                assert(lex_lt(key@, c0[i as int].0));
            }
        }
        changes.insert(i, (key, change));
        proof {
            let c1 = changes_view(changes@);
            changes@.insert_ensures(i as int, (key, change));
            assert(c1.len() == c0.len() + 1);
            assert(forall|j: int| 0 <= j < i ==> #[trigger] c1[j] == c0[j]);
            assert forall|j: int| i < j < c1.len() implies #[trigger] c1[j] == c0[j - 1] by {
                assert(changes@[j] == old(changes)@[j - 1]);
            }
            assert(c1[i as int] == (key@, change_opt(change)));
            assert(keys_sorted(c1)) by {
                assert forall|p: int, q: int| 0 <= p < q < c1.len() implies lex_lt(
                    c1[p].0,
                    c1[q].0,
                ) by {
                    if p < i && q == i {
                        assert(lex_lt(c0[p].0, key@));
                    } else if p == i && q > i {
                        assert(c1[q] == c0[q - 1]);
                        if i < c0.len() {
                            if q - 1 > i {
                                lex_lt_trans(key@, c0[i as int].0, c0[q - 1].0);
                            }
                        }
                    } else if p < i && q > i {
                        assert(c1[q] == c0[q - 1]);
                    }
                }
            }
            lemma_sorted_lookup(c1, i as int);
            assert forall|k: Seq<u8>| k != key@ implies #[trigger] assoc_lookup(c1, k)
                == assoc_lookup(c0, k) by {
                if has_key(c0, k) {
                    let j = choose|j: int| 0 <= j < c0.len() && (#[trigger] c0[j]).0 == k;
                    lemma_sorted_lookup(c0, j);
                    if j < i {
                        assert(c1[j] == c0[j]);
                        lemma_sorted_lookup(c1, j);
                    } else {
                        assert(c1[j + 1] == c0[j]);
                        lemma_sorted_lookup(c1, j + 1);
                    }
                } else {
                    assert(forall|j: int| 0 <= j < c0.len() ==> (#[trigger] c0[j]).0 != k);
                    assert forall|j: int| 0 <= j < c1.len() implies (#[trigger] c1[j]).0 != k by {
                        if j < i {
                            assert(c1[j] == c0[j]);
                        } else if j > i {
                            assert(c1[j] == c0[j - 1]);
                        }
                    }
                    lemma_lookup_absent(c0, k);
                    lemma_lookup_absent(c1, k);
                }
            }
        }
    }
}


/// A mutable overlay over a database snapshot: reads consult the
/// overlay first, writes only touch the overlay, and `into_patch` hands
/// the overlay back for an atomic merge.
pub struct Fork {
    snapshot: MemoryDb,
    changes: Vec<(Vec<u8>, Change)>,
}

impl Fork {
    /// The entries of the underlying snapshot.
    pub closed spec fn snap_model(&self) -> Seq<(Seq<u8>, Seq<u8>)> {
        self.snapshot.snap()
    }

    /// The pending changes, ascending by key.
    pub closed spec fn chg_model(&self) -> Seq<(Seq<u8>, Option<Seq<u8>>)> {
        changes_view(self.changes@)
    }

    /// Well-formedness: the snapshot is sorted and so is the overlay.
    pub closed spec fn wf(&self) -> bool {
        self.snapshot.inv() && keys_sorted(changes_view(self.changes@))
    }

    /// What a read of `k` through the fork returns: the overlay's
    /// verdict if it has one, the snapshot's value otherwise.
    pub open spec fn lookup(&self, k: Seq<u8>) -> Option<Seq<u8>> {
        match assoc_lookup(self.chg_model(), k) {
            Some(c) => c,
            None => assoc_lookup(self.snap_model(), k),
        }
    }

    /// A well-formed fork has sorted parts.
    pub proof fn wf_facts(&self)
        requires
            self.wf(),
        ensures
            keys_sorted(self.snap_model()),
            keys_sorted(self.chg_model()),
    {
    }

    /// A fork over the given snapshot with no pending changes.
    pub fn new(snapshot: MemoryDb) -> (r: Fork)
        requires
            snapshot.inv(),
        ensures
            r.wf(),
            r.snap_model() == snapshot.snap(),
            r.chg_model() == Seq::<(Seq<u8>, Option<Seq<u8>>)>::empty(),
    {
        let r = Fork { snapshot, changes: Vec::new() };
        proof {
            assert(r.chg_model() =~= Seq::<(Seq<u8>, Option<Seq<u8>>)>::empty());
        }
        r
    }

    /// Records that `key` now holds `value`.
    pub fn put(&mut self, key: Vec<u8>, value: Vec<u8>)
        requires
            old(self).wf(),
        ensures
            final(self).wf(),
            final(self).snap_model() == old(self).snap_model(),
            final(self).lookup(key@) == Some(value@),
            forall|k: Seq<u8>| k != key@ ==> #[trigger] final(self).lookup(k) == old(self).lookup(
                k,
            ),
    {
        change_insert(&mut self.changes, key, Change::Put(value));
    }

    /// Records that `key` holds nothing.
    pub fn delete(&mut self, key: Vec<u8>)
        requires
            old(self).wf(),
        ensures
            final(self).wf(),
            final(self).snap_model() == old(self).snap_model(),
            final(self).lookup(key@) is None,
            forall|k: Seq<u8>| k != key@ ==> #[trigger] final(self).lookup(k) == old(self).lookup(
                k,
            ),
    {
        change_insert(&mut self.changes, key, Change::Delete);
    }

    /// The underlying snapshot, without the overlay.
    pub fn as_snapshot(&self) -> (r: &MemoryDb)
        requires
            self.wf(),
        ensures
            r.inv(),
            r.snap() == self.snap_model(),
    {
        &self.snapshot
    }

    /// Gives the pending changes up for merging.
    pub fn into_patch(self) -> (r: Patch)
        requires
            self.wf(),
        ensures
            changes_view(r@) == self.chg_model(),
            keys_sorted(changes_view(r@)),
    {
        self.changes
    }

    /// All entries the fork currently exposes, ascending by key.
    pub fn collect_entries(&self) -> (r: Vec<(Vec<u8>, Vec<u8>)>)
        requires
            self.wf(),
        ensures
            entries_view(r@) == merged(self.snap_model(), self.chg_model()),
    {
        let ghost total = merged(self.snap_model(), self.chg_model());
        let mut it = ForkIter::new(self);
        let mut out: Vec<(Vec<u8>, Vec<u8>)> = Vec::new();
        let mut done = false;
        proof {
            assert(entries_view(out@) =~= Seq::<(Seq<u8>, Seq<u8>)>::empty());
            assert(entries_view(out@) + it.remaining() =~= total);
        }
        while !done
            invariant
                it.wf(),
                entries_view(out@) + it.remaining() == total,
                done ==> it.remaining().len() == 0,
            decreases it.remaining().len() + (if done { 0int } else { 1 }),
        {
            let ghost rem0 = it.remaining();
            match it.next() {
                Some(e) => {
                    proof {
                        assert((e.0@, e.1@) == rem0[0]);
                    }
                    out.push(e);
                    proof {
                        assert(entries_view(out@) =~= entries_view(out@.drop_last()) + seq![
                            (out@.last().0@, out@.last().1@),
                        ]);
                        assert(entries_view(out@) + it.remaining() =~= total);
                    }
                },
                None => {
                    done = true;
                },
            }
        }
        proof {
            assert(entries_view(out@) =~= total);
        }
        out
    }
}

impl Snapshot for Fork {
    open spec fn snap(&self) -> Seq<(Seq<u8>, Seq<u8>)> {
        merged(self.snap_model(), self.chg_model())
    }

    open spec fn inv(&self) -> bool {
        self.wf()
    }

    proof fn inv_sorted(&self) {
        lemma_merged_sorted(self.snap_model(), self.chg_model());
    }

    fn get(&self, key: &Vec<u8>) -> (r: Option<Vec<u8>>) {
        proof {
            lemma_merged_lookup(self.snap_model(), self.chg_model(), key@);
        }
        let ghost c = self.chg_model();
        let mut i: usize = 0;
        while i < self.changes.len()
            invariant
                self.wf(),
                c == self.chg_model(),
                i <= self.changes@.len(),
                forall|j: int| 0 <= j < i ==> (#[trigger] c[j]).0 != key@,
            decreases self.changes@.len() - i,
        {
            if let KeyOrder::Equal = key_cmp(&self.changes[i].0, key) {
                proof {
                    lemma_sorted_lookup(c, i as int);
                    assert(c[i as int] == (
                        self.changes@[i as int].0@,
                        change_opt(self.changes@[i as int].1),
                    ));
                }
                match &self.changes[i].1 {
                    Change::Put(v) => {
                        proof {
                            assert(change_opt(self.changes@[i as int].1) == Some(v@));
                            assert(assoc_lookup(c, key@) == Some(Some(v@)));
                            lemma_merged_lookup(self.snap_model(), self.chg_model(), key@);
                            assert(assoc_lookup(
                                merged(self.snap_model(), self.chg_model()),
                                key@,
                            ) == Some(v@));
                        }
                        return Some(copy_bytes(v));
                    },
                    Change::Delete => {
                        proof {
                            assert(change_opt(self.changes@[i as int].1) is None);
                            lemma_merged_lookup(self.snap_model(), self.chg_model(), key@);
                        }
                        return None;
                    },
                }
            }
            i = i + 1;
        }
        proof {
            lemma_lookup_absent(c, key@);
        }
        self.snapshot.get(key)
    }

    fn contains(&self, key: &Vec<u8>) -> (r: bool) {
        self.get(key).is_some()
    }

    fn iter(&self, from: &Vec<u8>) -> (r: Vec<(Vec<u8>, Vec<u8>)>) {
        let all = self.collect_entries();
        entries_suffix(&all, from)
    }
}

/// The entries of a list whose key is at or above `from`, in order.
fn entries_suffix(entries: &Vec<(Vec<u8>, Vec<u8>)>, from: &Vec<u8>) -> (r: Vec<(Vec<u8>, Vec<u8>)>)
    ensures
        entries_view(r@) == suffix_from(entries_view(entries@), from@),
{
    let mut out: Vec<(Vec<u8>, Vec<u8>)> = Vec::new();
    let mut i: usize = 0;
    let ghost s = entries_view(entries@);
    proof {
        assert(s.skip(0) =~= s);
        assert(entries_view(out@) =~= Seq::<(Seq<u8>, Seq<u8>)>::empty());
        assert(suffix_from(s, from@) =~= entries_view(out@) + suffix_from(s.skip(0), from@));
    }
    while i < entries.len()
        invariant
            s == entries_view(entries@),
            i <= entries@.len(),
            suffix_from(s, from@) == entries_view(out@) + suffix_from(s.skip(i as int), from@),
        decreases entries@.len() - i,
    {
        let ghost tail = s.skip(i as int);
        proof {
            assert(s.len() == entries@.len());
            assert(tail[0] == s[i as int]);
            assert(tail.skip(1) =~= s.skip(i as int + 1));
            lex_lt_trichotomy(from@, s[i as int].0);
        }
        let o = key_cmp(from, &entries[i].0);
        if let KeyOrder::Greater = o {
            proof {
                assert(suffix_from(tail, from@) == suffix_from(tail.skip(1), from@));
            }
        } else {
            let k = copy_bytes(&entries[i].0);
            let v = copy_bytes(&entries[i].1);
            let ghost o0 = out@;
            out.push((k, v));
            proof {
                assert(entries_view(o0).len() == o0.len());
                assert(suffix_from(tail, from@) == seq![tail[0]] + suffix_from(
                    tail.skip(1),
                    from@,
                ));
                assert(entries_view(out@) =~= entries_view(o0) + seq![(k@, v@)]);
                assert(entries_view(out@) + suffix_from(s.skip(i as int + 1), from@)
                    =~= entries_view(o0) + suffix_from(tail, from@));
            }
        }
        i = i + 1;
    }
    proof {
        assert(s.skip(i as int).len() == 0);
        assert(suffix_from(s.skip(i as int), from@) =~= Seq::<(Seq<u8>, Seq<u8>)>::empty());
        assert(entries_view(out@) + suffix_from(s.skip(i as int), from@) =~= entries_view(out@));
    }
    out
}

/// The verdict a single merge step of the fork iterator reaches: what
/// it yields, and which of the two streams advance.
pub enum NextIterValue {
    Stored(Vec<u8>, Vec<u8>),
    Replaced(Vec<u8>, Vec<u8>),
    Inserted(Vec<u8>, Vec<u8>),
    Deleted,
    MissDeleted,
}

impl NextIterValue {
    /// Whether this step consumes the head of the change stream.
    pub fn skip_changes(&self) -> (r: bool)
        ensures
            r == !(self is Stored),
    {
        match *self {
            NextIterValue::Replaced(..) | NextIterValue::Inserted(..) | NextIterValue::Deleted
            | NextIterValue::MissDeleted => true,
            NextIterValue::Stored(..) => false,
        }
    }

    /// Whether this step consumes the head of the snapshot stream.
    pub fn skip_snapshot(&self) -> (r: bool)
        ensures
            r == (self is Stored || self is Replaced || self is Deleted),
    {
        match *self {
            NextIterValue::Stored(..) | NextIterValue::Replaced(..) | NextIterValue::Deleted =>
                true,
            NextIterValue::Inserted(..) | NextIterValue::MissDeleted => false,
        }
    }

    /// The entry this step yields, if it yields one.
    pub fn value(self) -> (r: Option<(Vec<u8>, Vec<u8>)>)
        ensures
            match self {
                NextIterValue::Stored(k, v) => r == Some((k, v)),
                NextIterValue::Replaced(k, v) => r == Some((k, v)),
                NextIterValue::Inserted(k, v) => r == Some((k, v)),
                NextIterValue::Deleted => r is None,
                NextIterValue::MissDeleted => r is None,
            },
    {
        match self {
            NextIterValue::Stored(k, v) => Some((k, v)),
            NextIterValue::Replaced(k, v) => Some((k, v)),
            NextIterValue::Inserted(k, v) => Some((k, v)),
            NextIterValue::Deleted => None,
            NextIterValue::MissDeleted => None,
        }
    }
}

/// Merges the snapshot stream with the change stream of a fork, lazily:
/// each `next` yields the next surviving entry.
pub struct ForkIter {
    snapshot: Vec<(Vec<u8>, Vec<u8>)>,
    changes: Vec<(Vec<u8>, Change)>,
    spos: usize,
    cpos: usize,
}

impl ForkIter {
    /// The part of the snapshot stream not yet consumed.
    pub closed spec fn snap_rest(&self) -> Seq<(Seq<u8>, Seq<u8>)> {
        entries_view(self.snapshot@).skip(self.spos as int)
    }

    /// The part of the change stream not yet consumed.
    pub closed spec fn chg_rest(&self) -> Seq<(Seq<u8>, Option<Seq<u8>>)> {
        changes_view(self.changes@).skip(self.cpos as int)
    }

    /// The entries that remain to be yielded.
    pub open spec fn remaining(&self) -> Seq<(Seq<u8>, Seq<u8>)> {
        merged(self.snap_rest(), self.chg_rest())
    }

    /// Positions are in range and both streams are sorted.
    pub closed spec fn wf(&self) -> bool {
        self.spos <= self.snapshot@.len() && self.cpos <= self.changes@.len() && keys_sorted(
            entries_view(self.snapshot@),
        ) && keys_sorted(changes_view(self.changes@))
    }

    /// An iterator over everything a fork exposes.
    pub fn new(fork: &Fork) -> (r: ForkIter)
        requires
            fork.wf(),
        ensures
            r.wf(),
            r.remaining() == merged(fork.snap_model(), fork.chg_model()),
    {
        let snapshot = fork.snapshot.duplicate();
        let mut changes: Vec<(Vec<u8>, Change)> = Vec::new();
        let mut i: usize = 0;
        while i < fork.changes.len()
            invariant
                i <= fork.changes@.len(),
                changes_view(changes@) =~~= changes_view(fork.changes@).subrange(0, i as int),
            decreases fork.changes@.len() - i,
        {
            let k = copy_bytes(&fork.changes[i].0);
            let c = copy_change(&fork.changes[i].1);
            let ghost c0 = changes@;
            changes.push((k, c));
            proof {
                assert(changes_view(c0).len() == c0.len());
                assert(changes_view(changes@) =~~= changes_view(fork.changes@).subrange(
                    0,
                    i as int + 1,
                ));
            }
            i = i + 1;
        }
        proof {
            assert(changes_view(changes@) =~~= changes_view(fork.changes@));
        }
        let it = ForkIter { snapshot: snapshot.entries, changes, spos: 0, cpos: 0 };
        proof {
            assert(it.snap_rest() =~= entries_view(it.snapshot@));
            assert(it.chg_rest() =~= changes_view(it.changes@));
        }
        it
    }

    /// The next surviving entry of the merge, if one remains. Entries
    /// come out ascending by key; an overlay `Put` replaces the stored
    /// entry, an overlay `Delete` suppresses it.
    pub fn next(&mut self) -> (r: Option<(Vec<u8>, Vec<u8>)>)
        requires
            old(self).wf(),
        ensures
            final(self).wf(),
            match r {
                Some(e) => old(self).remaining().len() > 0 && (e.0@, e.1@) == old(
                    self,
                ).remaining()[0] && final(self).remaining() == old(self).remaining().skip(1),
                None => old(self).remaining().len() == 0 && final(self).remaining().len() == 0,
            },
    {
        loop
            invariant
                self.wf(),
                self.snapshot@ == old(self).snapshot@,
                self.changes@ == old(self).changes@,
                self.remaining() == old(self).remaining(),
            decreases self.changes@.len() - self.cpos,
        {
            let ghost sr = self.snap_rest();
            let ghost cr = self.chg_rest();
            let ghost rem = self.remaining();
            proof {
                assert(sr.len() == self.snapshot@.len() - self.spos);
                assert(cr.len() == self.changes@.len() - self.cpos);
                if self.spos < self.snapshot@.len() {
                    assert(sr[0] == (
                        self.snapshot@[self.spos as int].0@,
                        self.snapshot@[self.spos as int].1@,
                    ));
                    assert(sr.skip(1) =~= entries_view(self.snapshot@).skip(self.spos as int + 1));
                }
                if self.cpos < self.changes@.len() {
                    assert(cr[0] == (
                        self.changes@[self.cpos as int].0@,
                        change_opt(self.changes@[self.cpos as int].1),
                    ));
                    assert(cr.skip(1) =~= changes_view(self.changes@).skip(self.cpos as int + 1));
                }
            }
            if self.cpos >= self.changes.len() && self.spos >= self.snapshot.len() {
                proof {
                    assert(rem.len() == 0);
                }
                return None;
            }
            let next: NextIterValue = if self.cpos < self.changes.len() {
                if self.spos < self.snapshot.len() {
                    let o = key_cmp(&self.changes[self.cpos].0, &self.snapshot[self.spos].0);
                    match &self.changes[self.cpos].1 {
                        Change::Put(v) => match o {
                            KeyOrder::Equal => NextIterValue::Replaced(
                                copy_bytes(&self.changes[self.cpos].0),
                                copy_bytes(v),
                            ),
                            KeyOrder::Less => NextIterValue::Inserted(
                                copy_bytes(&self.changes[self.cpos].0),
                                copy_bytes(v),
                            ),
                            KeyOrder::Greater => NextIterValue::Stored(
                                copy_bytes(&self.snapshot[self.spos].0),
                                copy_bytes(&self.snapshot[self.spos].1),
                            ),
                        },
                        Change::Delete => match o {
                            KeyOrder::Equal => NextIterValue::Deleted,
                            KeyOrder::Less => NextIterValue::MissDeleted,
                            KeyOrder::Greater => NextIterValue::Stored(
                                copy_bytes(&self.snapshot[self.spos].0),
                                copy_bytes(&self.snapshot[self.spos].1),
                            ),
                        },
                    }
                } else {
                    match &self.changes[self.cpos].1 {
                        Change::Put(v) => NextIterValue::Inserted(
                            copy_bytes(&self.changes[self.cpos].0),
                            copy_bytes(v),
                        ),
                        Change::Delete => NextIterValue::MissDeleted,
                    }
                }
            } else {
                NextIterValue::Stored(
                    copy_bytes(&self.snapshot[self.spos].0),
                    copy_bytes(&self.snapshot[self.spos].1),
                )
            };
            if next.skip_changes() {
                self.cpos = self.cpos + 1;
            }
            if next.skip_snapshot() {
                self.spos = self.spos + 1;
            }
            proof {
                assert(self.snap_rest() =~= if sr.len() > 0 && (next is Stored || next is Replaced
                    || next is Deleted) {
                    sr.skip(1)
                } else {
                    sr
                });
                assert(self.chg_rest() =~= if next is Stored {
                    cr
                } else {
                    cr.skip(1)
                });
            }
            match next.value() {
                Some(value) => {
                    proof {
                        assert(rem.len() > 0 && (value.0@, value.1@) == rem[0] && self.remaining()
                            == rem.skip(1)) by {
                            assert(rem == seq![rem[0]] + self.remaining());
                            assert((seq![rem[0]] + self.remaining()).skip(1) =~= self.remaining());
                        }
                    }
                    return Some(value);
                },
                None => {
                },
            }
        }
    }
}


/// A fatal storage-backend failure.
#[derive(Clone, Copy, Debug, PartialEq, Eq, Structural)]
pub enum StorageError {
    Backend,
}

/// A database: hands out snapshots and forks of its current state and
/// merges a fork's patch back in atomically.
pub trait Database: Sized {
    /// The committed entries, ascending by key.
    spec fn db_view(&self) -> Seq<(Seq<u8>, Seq<u8>)>;

    /// Internal well-formedness.
    spec fn db_inv(&self) -> bool;

    /// A read-only snapshot of the current state.
    fn snapshot(&self) -> (s: MemoryDb)
        requires
            self.db_inv(),
        ensures
            s.inv(),
            s.snap() == self.db_view(),
    ;

    /// A fresh fork of the current state with no pending changes.
    fn fork(&self) -> (f: Fork)
        requires
            self.db_inv(),
        ensures
            f.wf(),
            f.snap_model() == self.db_view(),
            f.chg_model() == Seq::<(Seq<u8>, Option<Seq<u8>>)>::empty(),
    ;

    /// Applies a patch atomically. Concurrent readers keep the
    /// snapshots they hold; only states obtained afterwards see the
    /// change.
    fn merge(&mut self, patch: Patch) -> (r: Result<(), StorageError>)
        requires
            old(self).db_inv(),
            keys_sorted(changes_view(patch@)),
        ensures
            r is Ok,
            final(self).db_inv(),
            final(self).db_view() == merged(old(self).db_view(), changes_view(patch@)),
    ;
}

impl Database for MemoryDb {
    open spec fn db_view(&self) -> Seq<(Seq<u8>, Seq<u8>)> {
        self.snap()
    }

    open spec fn db_inv(&self) -> bool {
        self.inv()
    }

    fn snapshot(&self) -> (s: MemoryDb) {
        self.duplicate()
    }

    fn fork(&self) -> (f: Fork) {
        Fork::new(self.duplicate())
    }

    fn merge(&mut self, patch: Patch) -> (r: Result<(), StorageError>) {
        let fork = Fork { snapshot: self.duplicate(), changes: patch };
        let entries = fork.collect_entries();
        proof {
            lemma_merged_sorted(fork.snap_model(), fork.chg_model());
        }
        self.entries = entries;
        Ok(())
    }
}

/// In a sorted entry sequence, the first entry at or above a key `k`
/// carries `k` exactly when a lookup of `k` succeeds, and then carries
/// its value.
pub proof fn lemma_suffix_first(s: Seq<(Seq<u8>, Seq<u8>)>, k: Seq<u8>)
    requires
        keys_sorted(s),
    ensures
        match assoc_lookup(s, k) {
            Some(v) => suffix_from(s, k).len() > 0 && suffix_from(s, k)[0] == (k, v),
            None => suffix_from(s, k).len() == 0 || suffix_from(s, k)[0].0 != k,
        },
    decreases s.len(),
{
    if s.len() == 0 {
    } else if s[0].0 == k {
        assert(lex_le(k, s[0].0));
        assert(suffix_from(s, k)[0] == s[0]);
    } else {
        lex_lt_trichotomy(k, s[0].0);
        lemma_sorted_skip_one(s);
        lemma_suffix_first(s.skip(1), k);
        if lex_lt(k, s[0].0) {
            // every key of s is above k, so the lookup fails and the
            // suffix starts at s[0], whose key is not k
            assert forall|j: int| 0 <= j < s.len() implies (#[trigger] s[j]).0 != k by {
                if j > 0 {
                    lex_lt_trans(k, s[0].0, s[j].0);
                }
                if s[j].0 == k {
                    lex_lt_irrefl(k);
                }
            }
            lemma_lookup_absent(s, k);
            assert(suffix_from(s, k)[0] == s[0]);
        } else {
            // s[0].0 is below k: the head neither matches the lookup
            // nor survives into the suffix
            lex_lt_asym(k, s[0].0);
            assert(!lex_le(k, s[0].0));
            assert(suffix_from(s, k) == suffix_from(s.skip(1), k));
            assert(assoc_lookup(s, k) == assoc_lookup(s.skip(1), k));
        }
    }
}

/// What a fork's `get` returns agrees with the first entry that
/// iteration from the same key yields: if that entry's key is the one
/// sought, `get` returns its value, and otherwise `get` returns
/// nothing.
pub proof fn lemma_fork_get_matches_iter(f: Fork, k: Seq<u8>)
    requires
        f.wf(),
    ensures
        ({
            let it = suffix_from(f.snap(), k);
            f.lookup(k) == (if it.len() > 0 && it[0].0 == k {
                Some(it[0].1)
            } else {
                None::<Seq<u8>>
            })
        }),
{
    f.wf_facts();
    lemma_merged_sorted(f.snap_model(), f.chg_model());
    lemma_merged_lookup(f.snap_model(), f.chg_model(), k);
    lemma_suffix_first(f.snap(), k);
}

/// Applying a change set a second time to entries that already carry it
/// changes nothing: committing the same patch twice equals committing
/// it once.
pub proof fn lemma_merge_idempotent(
    snap: Seq<(Seq<u8>, Seq<u8>)>,
    chg: Seq<(Seq<u8>, Option<Seq<u8>>)>,
)
    requires
        keys_sorted(snap),
        keys_sorted(chg),
    ensures
        merged(merged(snap, chg), chg) == merged(snap, chg),
    decreases snap.len() + chg.len(),
{
    let m = merged(snap, chg);
    lemma_merged_sorted(snap, chg);
    if chg.len() == 0 {
    } else if snap.len() == 0 || lex_lt(chg[0].0, snap[0].0) {
        lemma_sorted_skip_one(chg);
        lemma_merge_idempotent(snap, chg.skip(1));
        lemma_sorted_tail_above(chg);
        match chg[0].1 {
            Some(v) => {
                let mt = merged(snap, chg.skip(1));
                assert(m == seq![(chg[0].0, v)] + mt);
                assert(m.skip(1) =~= mt);
                assert(m[0] == (chg[0].0, v));
                lex_lt_irrefl(chg[0].0);
                assert(merged(m, chg) == seq![(chg[0].0, v)] + merged(m.skip(1), chg.skip(1)));
                assert(merged(m.skip(1), chg.skip(1)) == mt);
                assert(merged(m, chg) =~= m);
            },
            None => {
                assert(m == merged(snap, chg.skip(1)));
                if m.len() == 0 {
                    assert(merged(m, chg) == merged(m, chg.skip(1)));
                } else {
                    assert forall|j: int| 0 <= j < snap.len() implies lex_lt(
                        chg[0].0,
                        (#[trigger] snap[j]).0,
                    ) by {
                        if j > 0 {
                            lex_lt_trans(chg[0].0, snap[0].0, snap[j].0);
                        }
                    }
                    lemma_bound_below_merged(snap, chg.skip(1), chg[0].0);
                    assert(lex_lt(chg[0].0, m[0].0));
                    assert(merged(m, chg) == merged(m, chg.skip(1)));
                }
            },
        }
    } else if chg[0].0 == snap[0].0 {
        lemma_sorted_skip_one(chg);
        lemma_sorted_skip_one(snap);
        lemma_merge_idempotent(snap.skip(1), chg.skip(1));
        lemma_sorted_tail_above(chg);
        lemma_sorted_tail_above(snap);
        match chg[0].1 {
            Some(v) => {
                let mt = merged(snap.skip(1), chg.skip(1));
                assert(m == seq![(chg[0].0, v)] + mt);
                assert(m.skip(1) =~= mt);
                assert(m[0] == (chg[0].0, v));
                lex_lt_irrefl(chg[0].0);
                assert(merged(m, chg) == seq![(chg[0].0, v)] + merged(m.skip(1), chg.skip(1)));
                assert(merged(m, chg) =~= m);
            },
            None => {
                assert(m == merged(snap.skip(1), chg.skip(1)));
                if m.len() == 0 {
                    assert(merged(m, chg) == merged(m, chg.skip(1)));
                } else {
                    lemma_bound_below_merged(snap.skip(1), chg.skip(1), chg[0].0);
                    assert(lex_lt(chg[0].0, m[0].0));
                    assert(merged(m, chg) == merged(m, chg.skip(1)));
                }
            },
        }
    } else {
        lex_lt_trichotomy(chg[0].0, snap[0].0);
        lemma_sorted_skip_one(snap);
        lemma_merge_idempotent(snap.skip(1), chg);
        let mt = merged(snap.skip(1), chg);
        assert(m == seq![snap[0]] + mt);
        assert(m.skip(1) =~= mt);
        assert(m[0] == snap[0]);
        assert(merged(m, chg) == seq![m[0]] + merged(m.skip(1), chg));
        assert(merged(m, chg) =~= m);
    }
}

/// Two forks of the same snapshot that carry the same change set
/// expose the same entries: what a fork commits is a function of the
/// snapshot and the changes alone.
pub proof fn lemma_fork_deterministic(f1: Fork, f2: Fork)
    requires
        f1.snap_model() == f2.snap_model(),
        f1.chg_model() == f2.chg_model(),
    ensures
        f1.snap() == f2.snap(),
{
}

} // verus!
