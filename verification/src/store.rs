//! The abstract key-value store and a verified in-memory implementation.
//!
//! Confidence records, sidecars and plot indices all live behind this
//! trait.  Its contracts speak of an abstract map from keys to values;
//! writes are per-key, and a read returns exactly what the map holds.

use vstd::prelude::*;

verus! {

/// Equality of two byte strings.
pub fn bytes_eq(a: &[u8], b: &[u8]) -> (r: bool)
    ensures
        r == (a@ == b@),
{
    if a.len() != b.len() {
        return false;
    }
    let n = a.len();
    for i in 0..n
        invariant
            n == a@.len() == b@.len(),
            forall|j: int| 0 <= j < i ==> a@[j] == b@[j],
    {
        if a[i] != b[i] {
            return false;
        }
    }
    assert(a@ =~= b@);
    true
}

/// Concatenates a storage prefix and a key.
pub fn prefixed_key(prefix: &[u8], key: &[u8]) -> (r: Vec<u8>)
    ensures
        r@ == prefix@ + key@,
{
    let mut out: Vec<u8> = Vec::new();
    crate::codec::encode_raw(&mut out, prefix);
    crate::codec::encode_raw(&mut out, key);
    assert(out@ =~= prefix@ + key@);
    out
}

/// An abstract key-value store: the trait every persistence layer of
/// the node offers.  Each method's contract is stated over the store's
/// abstract contents.
pub trait DasKv: Sized {
    /// The abstract contents: a map from keys to values.
    spec fn contents(&self) -> Map<Seq<u8>, Seq<u8>>;

    /// Reads a key; the store is unchanged.
    fn get(&mut self, key: &[u8]) -> (r: Option<Vec<u8>>)
        ensures
            final(self).contents() == old(self).contents(),
            r matches Some(v) ==> old(self).contents().contains_key(key@) && v@ == old(
                self,
            ).contents()[key@],
            r is None ==> !old(self).contents().contains_key(key@),
    ;

    /// Writes a key.
    fn set(&mut self, key: &[u8], value: &[u8])
        ensures
            final(self).contents() == old(self).contents().insert(key@, value@),
    ;

    /// Deletes a key.
    fn remove(&mut self, key: &[u8])
        ensures
            final(self).contents() == old(self).contents().remove(key@),
    ;

    /// Membership test; the store is unchanged.
    fn contains(&mut self, key: &[u8]) -> (r: bool)
        ensures
            final(self).contents() == old(self).contents(),
            r == old(self).contents().contains_key(key@),
    ;
}

/// The views of an association list's entries.
pub open spec fn entry_views(s: Seq<(Vec<u8>, Vec<u8>)>) -> Seq<(Seq<u8>, Seq<u8>)> {
    s.map_values(|p: (Vec<u8>, Vec<u8>)| (p.0@, p.1@))
}

/// The map held by an association list; a later entry wins over an
/// earlier one with the same key.
pub open spec fn entries_map(s: Seq<(Seq<u8>, Seq<u8>)>) -> Map<Seq<u8>, Seq<u8>>
    decreases s.len(),
{
    if s.len() == 0 {
        Map::empty()
    } else {
        entries_map(s.drop_last()).insert(s.last().0, s.last().1)
    }
}

/// Entries at or after `i` never hold `k`, so the map's view of `k` is
/// decided by the first `i` entries.
proof fn lemma_entries_suffix_free(s: Seq<(Seq<u8>, Seq<u8>)>, k: Seq<u8>, i: int)
    requires
        0 <= i <= s.len(),
        forall|j: int| i <= j < s.len() ==> (#[trigger] s[j]).0 != k,
    ensures
        entries_map(s).contains_key(k) == entries_map(s.take(i)).contains_key(k),
        entries_map(s).contains_key(k) ==> entries_map(s)[k] == entries_map(s.take(i))[k],
    decreases s.len() - i,
{
    if i == s.len() {
        assert(s.take(i) =~= s);
    } else {
        assert(s.last().0 != k);
        lemma_entries_suffix_free(s.drop_last(), k, i);
        assert(s.drop_last().take(i) =~= s.take(i));
    }
}

/// An in-memory store backed by an association list.
pub struct MockDb {
    items: Vec<(Vec<u8>, Vec<u8>)>,
}

impl MockDb {
    /// An empty store.
    pub fn new() -> (r: MockDb)
        ensures
            r.contents() == Map::<Seq<u8>, Seq<u8>>::empty(),
    {
        MockDb { items: Vec::new() }
    }

    /// Looks a key up, newest entry first.
    fn lookup(&self, key: &[u8]) -> (r: Option<Vec<u8>>)
        ensures
            r matches Some(v) ==> self.contents().contains_key(key@) && v@
                == self.contents()[key@],
            r is None ==> !self.contents().contains_key(key@),
    {
        let ghost vs = entry_views(self.items@);
        let mut i = self.items.len();
        loop
            invariant
                0 <= i <= self.items@.len(),
                vs == entry_views(self.items@),
                vs.len() == self.items@.len(),
                forall|j: int| i <= j < vs.len() ==> (#[trigger] vs[j]).0 != key@,
            ensures
                ({
                    let c = entries_map(vs);
                    &&& 0 <= i <= vs.len()
                    &&& (i == 0 ==> !c.contains_key(key@))
                    &&& (i > 0 ==> vs[i - 1].0 == key@ && c.contains_key(key@) && c[key@] == vs[i
                        - 1].1)
                }),
            decreases i,
        {
            if i == 0 {
                proof {
                    lemma_entries_suffix_free(vs, key@, 0);
                    assert(vs.take(0) =~= Seq::<(Seq<u8>, Seq<u8>)>::empty());
                }
                break;
            }
            if bytes_eq(self.items[i - 1].0.as_slice(), key) {
                proof {
                    assert(vs[i as int - 1].0 == key@);
                    lemma_entries_suffix_free(vs, key@, i as int);
                    assert(vs.take(i as int).last() == vs[i as int - 1]);
                }
                break;
            }
            proof {
                assert(vs[i as int - 1].0 != key@);
            }
            i = i - 1;
        }
        if i == 0 {
            None
        } else {
            let mut out: Vec<u8> = Vec::new();
            crate::codec::encode_raw(&mut out, self.items[i - 1].1.as_slice());
            Some(out)
        }
    }
}

impl DasKv for MockDb {
    closed spec fn contents(&self) -> Map<Seq<u8>, Seq<u8>> {
        entries_map(entry_views(self.items@))
    }

    fn get(&mut self, key: &[u8]) -> (r: Option<Vec<u8>>) {
        self.lookup(key)
    }

    fn set(&mut self, key: &[u8], value: &[u8]) {
        let mut k: Vec<u8> = Vec::new();
        crate::codec::encode_raw(&mut k, key);
        let mut v: Vec<u8> = Vec::new();
        crate::codec::encode_raw(&mut v, value);
        let ghost before = entry_views(self.items@);
        self.items.push((k, v));
        proof {
            let now = entry_views(self.items@);
            assert(now.drop_last() =~= before);
            assert(now.last() == (key@, value@));
        }
    }

    fn remove(&mut self, key: &[u8]) {
        let mut kept: Vec<(Vec<u8>, Vec<u8>)> = Vec::new();
        let n = self.items.len();
        let ghost vs = entry_views(self.items@);
        for i in 0..n
            invariant
                n == self.items@.len(),
                vs == entry_views(self.items@),
                vs.len() == n,
                entry_views(kept@) == erase_key(vs.take(i as int), key@),
        {
            let ghost kept_before = entry_views(kept@);
            if !bytes_eq(self.items[i].0.as_slice(), key) {
                let mut k: Vec<u8> = Vec::new();
                crate::codec::encode_raw(&mut k, self.items[i].0.as_slice());
                let mut v: Vec<u8> = Vec::new();
                crate::codec::encode_raw(&mut v, self.items[i].1.as_slice());
                kept.push((k, v));
                proof {
                    assert(entry_views(kept@).drop_last() =~= kept_before);
                    assert(entry_views(kept@).last() == vs[i as int]);
                }
            }
            proof {
                let taken = vs.take(i as int + 1);
                assert(taken.drop_last() =~= vs.take(i as int));
                assert(taken.last() == vs[i as int]);
                if vs[i as int].0 == key@ {
                    assert(entry_views(kept@) =~= erase_key(taken, key@));
                } else {
                    assert(entry_views(kept@) =~= erase_key(taken, key@));
                }
            }
        }
        proof {
            assert(vs.take(n as int) =~= vs);
            lemma_erase_key(vs, key@);
        }
        self.items = kept;
    }

    fn contains(&mut self, key: &[u8]) -> (r: bool) {
        let r = self.lookup(key);
        r.is_some()
    }
}

/// The association list with every entry for `k` removed.
pub open spec fn erase_key(s: Seq<(Seq<u8>, Seq<u8>)>, k: Seq<u8>) -> Seq<(Seq<u8>, Seq<u8>)>
    decreases s.len(),
{
    if s.len() == 0 {
        s
    } else if s.last().0 == k {
        erase_key(s.drop_last(), k)
    } else {
        erase_key(s.drop_last(), k).push(s.last())
    }
}

/// Erasing a key from the list removes it from the map.
proof fn lemma_erase_key(s: Seq<(Seq<u8>, Seq<u8>)>, k: Seq<u8>)
    ensures
        entries_map(erase_key(s, k)) == entries_map(s).remove(k),
    decreases s.len(),
{
    if s.len() == 0 {
        assert(entries_map(erase_key(s, k)) =~= entries_map(s).remove(k));
    } else {
        lemma_erase_key(s.drop_last(), k);
        if s.last().0 == k {
            assert(entries_map(erase_key(s, k)) =~= entries_map(s).remove(k));
        } else {
            assert(erase_key(s, k).last() == s.last());
            assert(erase_key(s, k).drop_last() =~= erase_key(s.drop_last(), k));
            assert(entries_map(erase_key(s, k)) =~= entries_map(s).remove(k));
        }
    }
}

} // verus!
