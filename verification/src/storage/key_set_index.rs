//! A set of typed keys stored under a byte prefix of the key space.
//!
//! Each member is stored as the entry `prefix + key bytes` with an
//! empty value; membership is the presence of that entry.

use vstd::prelude::*;

use crate::storage::db::{Fork, Snapshot};
use crate::storage::storage_key::StorageKey;
use crate::storage::{assoc_lookup, entries_view, keys_sorted};

verus! {

/// Concatenates two byte strings.
pub fn concat_bytes(a: &Vec<u8>, b: &Vec<u8>) -> (r: Vec<u8>)
    ensures
        r@ == a@ + b@,
{
    let mut r = crate::storage::db::copy_bytes(a);
    let mut i: usize = 0;
    while i < b.len()
        invariant
            i <= b@.len(),
            r@ =~= a@ + b@.subrange(0, i as int),
        decreases b@.len() - i,
    {
        r.push(b[i]);
        i = i + 1;
    }
    proof {
        assert(r@ =~= a@ + b@);
    }
    r
}

/// Whether `key` starts with `prefix`.
pub fn has_prefix(key: &Vec<u8>, prefix: &Vec<u8>) -> (r: bool)
    ensures
        r == (key@.len() >= prefix@.len() && key@.take(prefix@.len() as int) == prefix@),
{
    if key.len() < prefix.len() {
        return false;
    }
    let mut i: usize = 0;
    while i < prefix.len()
        invariant
            prefix@.len() <= key@.len(),
            i <= prefix@.len(),
            forall|j: int| 0 <= j < i ==> key@[j] == prefix@[j],
        decreases prefix@.len() - i,
    {
        if key[i] != prefix[i] {
            proof {
                assert(key@.take(prefix@.len() as int)[i as int] == key@[i as int]);
            }
            return false;
        }
        i = i + 1;
    }
    proof {
        assert(key@.take(prefix@.len() as int) =~= prefix@);
    }
    true
}

/// The part of `key` after `prefix`.
pub fn strip_prefix(key: &Vec<u8>, prefix_len: usize) -> (r: Vec<u8>)
    requires
        prefix_len <= key@.len(),
    ensures
        r@ == key@.skip(prefix_len as int),
{
    let mut r: Vec<u8> = Vec::new();
    let mut i: usize = prefix_len;
    while i < key.len()
        invariant
            prefix_len <= i <= key@.len(),
            r@ =~= key@.subrange(prefix_len as int, i as int),
        decreases key@.len() - i,
    {
        r.push(key[i]);
        i = i + 1;
    }
    proof {
        assert(r@ =~= key@.skip(prefix_len as int));
    }
    r
}

/// The serialised keys of this type found under `prefix` in an entry
/// sequence, with the prefix stripped, in entry order.
pub open spec fn decoded_keys<K: StorageKey>(
    s: Seq<(Seq<u8>, Seq<u8>)>,
    prefix: Seq<u8>,
) -> Seq<Seq<u8>>
    decreases s.len(),
{
    if s.len() == 0 {
        Seq::empty()
    } else {
        let rest = decoded_keys::<K>(s.skip(1), prefix);
        if s[0].0.len() >= prefix.len() && s[0].0.take(prefix.len() as int) == prefix && K::parses(
            s[0].0.skip(prefix.len() as int),
        ) {
            seq![s[0].0.skip(prefix.len() as int)] + rest
        } else {
            rest
        }
    }
}

/// An iterator over the members of a key set, in serialisation order.
pub struct KeySetIndexIter<K> {
    rest: Vec<K>,
}

impl<K: StorageKey> KeySetIndexIter<K> {
    /// The members not yet yielded, in order.
    pub closed spec fn remaining(&self) -> Seq<K> {
        self.rest@.reverse()
    }

    /// The next member, if one remains.
    pub fn next(&mut self) -> (r: Option<K>)
        ensures
            match r {
                Some(k) => old(self).remaining().len() > 0 && k == old(self).remaining()[0]
                    && final(self).remaining() == old(self).remaining().skip(1),
                None => old(self).remaining().len() == 0 && final(self).remaining().len() == 0,
            },
    {
        let r = self.rest.pop();
        proof {
            if old(self).rest@.len() > 0 {
                assert(old(self).remaining()[0] == old(self).rest@.last());
                assert(final(self).remaining() =~= old(self).remaining().skip(1));
            }
        }
        r
    }
}

/// A set of typed keys stored under a byte prefix.
pub struct KeySetIndex<T, K> {
    prefix: Vec<u8>,
    base: T,
    _k: core::marker::PhantomData<K>,
}

impl<T, K> KeySetIndex<T, K> {
    /// The byte prefix this set lives under.
    pub closed spec fn prefix_model(&self) -> Seq<u8> {
        self.prefix@
    }

    /// The underlying storage view.
    pub closed spec fn base_model(&self) -> T {
        self.base
    }

    /// An index over the given storage view, rooted at `prefix`.
    pub fn new(prefix: Vec<u8>, base: T) -> (r: Self)
        ensures
            r.prefix_model() == prefix@,
            r.base_model() == base,
    {
        KeySetIndex { prefix, base, _k: core::marker::PhantomData }
    }
}

impl<T: Snapshot, K: StorageKey> KeySetIndex<T, K> {
    /// The storage view is well formed.
    pub open spec fn wf(&self) -> bool {
        self.base_model().inv()
    }

    /// Whether the serialised key `kb` is a member.
    pub open spec fn member_bytes(&self, kb: Seq<u8>) -> bool {
        assoc_lookup(self.base_model().snap(), self.prefix_model() + kb) is Some
    }

    /// Whether `item` is a member of the set.
    pub fn contains(&self, item: &K) -> (r: bool)
        requires
            self.wf(),
        ensures
            r == self.member_bytes(item.key_model()),
    {
        let key = concat_bytes(&self.prefix, &item.write_key());
        self.base.contains(&key)
    }

    /// All members, in serialisation order.
    pub fn iter(&self) -> (r: KeySetIndexIter<K>)
        requires
            self.wf(),
        ensures
            r.remaining().map_values(|k: K| k.key_model()) == decoded_keys::<K>(
                self.base_model().snap(),
                self.prefix_model(),
            ),
    {
        let empty: Vec<u8> = Vec::new();
        let entries = self.base.iter(&empty);
        proof {
            lemma_suffix_from_all(self.base_model().snap());
        }
        decode_entries::<K>(entries, &self.prefix)
    }

    /// The members at or above `from`, in serialisation order.
    pub fn iter_from(&self, from: &K) -> (r: KeySetIndexIter<K>)
        requires
            self.wf(),
        ensures
            r.remaining().map_values(|k: K| k.key_model()) == decoded_keys::<K>(
                crate::storage::db::suffix_from(
                    self.base_model().snap(),
                    self.prefix_model() + from.key_model(),
                ),
                self.prefix_model(),
            ),
    {
        let start = concat_bytes(&self.prefix, &from.write_key());
        let entries = self.base.iter(&start);
        decode_entries::<K>(entries, &self.prefix)
    }
}

/// Iteration from the empty key covers every entry.
proof fn lemma_suffix_from_all(s: Seq<(Seq<u8>, Seq<u8>)>)
    ensures
        crate::storage::db::suffix_from(s, Seq::<u8>::empty()) == s,
    decreases s.len(),
{
    if s.len() > 0 {
        lemma_suffix_from_all(s.skip(1));
        if s[0].0.len() == 0 {
            assert(s[0].0 =~= Seq::<u8>::empty());
        }
        assert(crate::storage::lex_le(Seq::<u8>::empty(), s[0].0));
        assert(crate::storage::db::suffix_from(s, Seq::<u8>::empty()) =~= s);
    } else {
        assert(crate::storage::db::suffix_from(s, Seq::<u8>::empty()) =~= s);
    }
}

/// Decodes the members found in an entry list: keeps the entries under
/// `prefix` whose remainder parses as a key of this type.
fn decode_entries<K: StorageKey>(entries: Vec<(Vec<u8>, Vec<u8>)>, prefix: &Vec<u8>) -> (r:
    KeySetIndexIter<K>)
    ensures
        r.remaining().map_values(|k: K| k.key_model()) == decoded_keys::<K>(
            entries_view(entries@),
            prefix@,
        ),
{
    let ghost s = entries_view(entries@);
    let mut out: Vec<K> = Vec::new();
    let mut i: usize = 0;
    proof {
        assert(s.skip(0) =~= s);
        assert(out@.map_values(|k: K| k.key_model()) =~= Seq::<Seq<u8>>::empty());
    }
    while i < entries.len()
        invariant
            s == entries_view(entries@),
            i <= entries@.len(),
            decoded_keys::<K>(s, prefix@) == out@.map_values(|k: K| k.key_model())
                + decoded_keys::<K>(s.skip(i as int), prefix@),
        decreases entries@.len() - i,
    {
        let ghost tail = s.skip(i as int);
        proof {
            assert(s.len() == entries@.len());
            assert(tail[0] == s[i as int]);
            assert(tail.skip(1) =~= s.skip(i as int + 1));
        }
        if has_prefix(&entries[i].0, prefix) {
            let kb = strip_prefix(&entries[i].0, prefix.len());
            match K::read_key(&kb) {
                Some(k) => {
                    let ghost o0 = out@;
                    out.push(k);
                    proof {
                        assert(o0.map_values(|k2: K| k2.key_model()).len() == o0.len());
                        assert(decoded_keys::<K>(tail, prefix@) == seq![tail[0].0.skip(
                            prefix@.len() as int,
                        )] + decoded_keys::<K>(tail.skip(1), prefix@));
                        assert(out@.map_values(|k2: K| k2.key_model()) =~= o0.map_values(
                            |k2: K| k2.key_model(),
                        ) + seq![k.key_model()]);
                        assert(out@.map_values(|k2: K| k2.key_model()) + decoded_keys::<K>(
                            s.skip(i as int + 1),
                            prefix@,
                        ) =~= o0.map_values(|k2: K| k2.key_model()) + decoded_keys::<K>(
                            tail,
                            prefix@,
                        ));
                    }
                },
                None => {
                    proof {
                        assert(decoded_keys::<K>(tail, prefix@) == decoded_keys::<K>(
                            tail.skip(1),
                            prefix@,
                        ));
                    }
                },
            }
        } else {
            proof {
                assert(decoded_keys::<K>(tail, prefix@) == decoded_keys::<K>(
                    tail.skip(1),
                    prefix@,
                ));
            }
        }
        i = i + 1;
    }
    proof {
        assert(s.skip(i as int).len() == 0);
        assert(decoded_keys::<K>(s.skip(i as int), prefix@) =~= Seq::<Seq<u8>>::empty());
        assert(decoded_keys::<K>(s, prefix@) =~= out@.map_values(|k: K| k.key_model()));
    }
    let mut rev: Vec<K> = Vec::new();
    let ghost orig = out@;
    while out.len() > 0
        invariant
            out@ + rev@.reverse() =~= orig,
        decreases out@.len(),
    {
        let k = out.pop().unwrap();
        rev.push(k);
        proof {
            assert(out@ + rev@.reverse() =~= orig);
        }
    }
    let it = KeySetIndexIter { rest: rev };
    proof {
        assert(out@.len() == 0);
        assert(it.remaining() =~= orig);
        assert(it.remaining().map_values(|k: K| k.key_model()) =~= decoded_keys::<K>(s, prefix@));
    }
    it
}

impl<K: StorageKey> KeySetIndex<Fork, K> {
    /// Adds `item` to the set.
    pub fn insert(&mut self, item: K)
        requires
            old(self).base_model().wf(),
        ensures
            final(self).prefix_model() == old(self).prefix_model(),
            final(self).base_model().wf(),
            final(self).base_model().snap_model() == old(self).base_model().snap_model(),
            final(self).base_model().lookup(old(self).prefix_model() + item.key_model()) == Some(
                Seq::<u8>::empty(),
            ),
            forall|k: Seq<u8>| k != old(self).prefix_model() + item.key_model()
                ==> #[trigger] final(self).base_model().lookup(k) == old(self).base_model().lookup(
                k,
            ),
    {
        let key = concat_bytes(&self.prefix, &item.write_key());
        let empty: Vec<u8> = Vec::new();
        self.base.put(key, empty);
    }

    /// Removes `item` from the set.
    pub fn delete(&mut self, item: &K)
        requires
            old(self).base_model().wf(),
        ensures
            final(self).prefix_model() == old(self).prefix_model(),
            final(self).base_model().wf(),
            final(self).base_model().snap_model() == old(self).base_model().snap_model(),
            final(self).base_model().lookup(old(self).prefix_model() + item.key_model()) is None,
            forall|k: Seq<u8>| k != old(self).prefix_model() + item.key_model()
                ==> #[trigger] final(self).base_model().lookup(k) == old(self).base_model().lookup(
                k,
            ),
    {
        let key = concat_bytes(&self.prefix, &item.write_key());
        self.base.delete(key);
    }

    /// Removes every member stored under the prefix.
    pub fn clear(&mut self)
        requires
            old(self).base_model().wf(),
        ensures
            final(self).prefix_model() == old(self).prefix_model(),
            final(self).base_model().wf(),
            final(self).base_model().snap_model() == old(self).base_model().snap_model(),
            forall|k: Seq<u8>|
                (#[trigger] final(self).base_model().lookup(k)) == (if k.len() >= old(
                    self,
                ).prefix_model().len() && k.take(old(self).prefix_model().len() as int) == old(
                    self,
                ).prefix_model() {
                    None
                } else {
                    old(self).base_model().lookup(k)
                }),
    {
        let ghost p = self.prefix@;
        let ghost base0 = self.base;
        let all = self.base.collect_entries();
        proof {
            self.base.wf_facts();
            crate::storage::db::lemma_merged_sorted(self.base.snap_model(), self.base.chg_model());
        }
        let ghost s = entries_view(all@);
        let mut i: usize = 0;
        while i < all.len()
            invariant
                i <= all@.len(),
                self.prefix@ == p,
                s == entries_view(all@),
                s == crate::storage::db::merged(base0.snap_model(), base0.chg_model()),
                base0.wf(),
                self.base.wf(),
                self.base.snap_model() == base0.snap_model(),
                forall|k: Seq<u8>| !(k.len() >= p.len() && k.take(p.len() as int) == p)
                    ==> #[trigger] self.base.lookup(k) == base0.lookup(k),
                forall|k: Seq<u8>| k.len() >= p.len() && k.take(p.len() as int) == p
                    ==> #[trigger] self.base.lookup(k) == base0.lookup(k) || self.base.lookup(
                    k,
                ) is None,
                forall|j: int| 0 <= j < i ==> (((#[trigger] s[j]).0.len() >= p.len() && s[j].0.take(
                    p.len() as int,
                ) == p) ==> self.base.lookup(s[j].0) is None),
            decreases all@.len() - i,
        {
            proof {
                assert(s[i as int] == (all@[i as int].0@, all@[i as int].1@));
            }
            if has_prefix(&all[i].0, &self.prefix) {
                let key = crate::storage::db::copy_bytes(&all[i].0);
                self.base.delete(key);
            }
            i = i + 1;
        }
        proof {
            assert forall|k: Seq<u8>| k.len() >= p.len() && k.take(p.len() as int) == p implies (
            #[trigger] self.base.lookup(k)) is None by {
                if self.base.lookup(k) is Some {
                    assert(self.base.lookup(k) == base0.lookup(k));
                    crate::storage::db::lemma_merged_lookup(
                        base0.snap_model(),
                        base0.chg_model(),
                        k,
                    );
                    assert(assoc_lookup(s, k) is Some);
                    crate::storage::lemma_lookup_present(s, k);
                    let j = choose|j: int|
                        0 <= j < s.len() && s[j].0 == k && s[j].1 == assoc_lookup(s, k)->Some_0;
                    assert(self.base.lookup(s[j].0) is None);
                }
            }
        }
    }
}

} // verus!
