//! The embedding store: for each note path, the checksum of the text that
//! was embedded and the vectors the provider returned for it.
//!
//! The vector type is left open: the library only moves vectors around.

use vstd::prelude::*;
use vstd::hash_map::StringHashMap;
use crate::graph::PathSet;

verus! {

/// What the store holds for one note: its path, the checksum of the text
/// that was embedded, and one vector per piece of input the note was sent as.
pub struct Embedding<V> {
    pub note_path: String,
    pub note_checksum: u32,
    pub vectors: Vec<V>,
}

/// The contents of the store: note path to (checksum, vectors).
pub type StoreView<V> = Map<Seq<char>, (u32, Seq<V>)>;

/// An in-memory embedding store keyed by note path; a path occurs at most
/// once, and a later write for a path replaces the earlier one.
pub struct EmbeddingStore<V> {
    records: Vec<Embedding<V>>,
    index: StringHashMap<usize>,
}

impl<V> View for EmbeddingStore<V> {
    type V = StoreView<V>;

    closed spec fn view(&self) -> StoreView<V> {
        Map::new(
            |p: Seq<char>| self.index@.contains_key(p),
            |p: Seq<char>|
                (
                    self.records@[self.index@[p] as int].note_checksum,
                    self.records@[self.index@[p] as int].vectors@,
                ),
        )
    }
}

impl<V> EmbeddingStore<V> {
    /// The index maps each record's path to the record's position.
    pub closed spec fn wf(&self) -> bool {
        &&& forall|k: int|
            0 <= k < self.records@.len() ==> self.index@.contains_key(
                (#[trigger] self.records@[k]).note_path@,
            ) && self.index@[self.records@[k].note_path@] == k
        &&& forall|p: Seq<char>|
            #[trigger] self.index@.contains_key(p) ==> (self.index@[p] as int) < self.records@.len()
                && self.records@[self.index@[p] as int].note_path@ == p
    }

    /// Number of records.
    pub closed spec fn spec_len(&self) -> nat {
        self.records@.len()
    }

    /// The records, in storage order.
    pub closed spec fn record_seq(&self) -> Seq<Embedding<V>> {
        self.records@
    }

    /// An empty store.
    pub fn new() -> (s: Self)
        ensures
            s.wf(),
            s@ == StoreView::<V>::empty(),
            s.spec_len() == 0,
    {
        let s = EmbeddingStore { records: Vec::new(), index: StringHashMap::new() };
        assert(s@ =~= StoreView::<V>::empty());
        s
    }

    /// Number of records.
    pub fn len(&self) -> (n: usize)
        ensures
            n == self.spec_len(),
    {
        self.records.len()
    }

    /// The records, in storage order; each is what the store maps its path to.
    pub fn records(&self) -> (r: &Vec<Embedding<V>>)
        requires
            self.wf(),
        ensures
            r@ == self.record_seq(),
            r@.len() == self.spec_len(),
            forall|k: int|
                0 <= k < r@.len() ==> self@.contains_key((#[trigger] r@[k]).note_path@)
                    && self@[r@[k].note_path@] == (r@[k].note_checksum, r@[k].vectors@),
    {
        &self.records
    }

    /// The checksum stored for a path, if the store holds the path.
    pub fn checksum_of(&self, path: &str) -> (r: Option<u32>)
        requires
            self.wf(),
        ensures
            match r {
                Some(c) => self@.contains_key(path@) && self@[path@].0 == c,
                None => !self@.contains_key(path@),
            },
    {
        match self.index.get(path) {
            Some(k) => Some(self.records[*k].note_checksum),
            None => None,
        }
    }

    /// Stores the vectors of a note, replacing what the store held for its
    /// path.
    pub fn insert(&mut self, note_path: String, note_checksum: u32, vectors: Vec<V>)
        requires
            old(self).wf(),
        ensures
            final(self).wf(),
            final(self)@ == old(self)@.insert(note_path@, (note_checksum, vectors@)),
    {
        let ghost vs = vectors@;
        let ghost p = note_path@;
        match self.index.get(note_path.as_str()) {
            Some(k) => {
                let k = *k;
                let rec = Embedding { note_path, note_checksum, vectors };
                self.records.set(k, rec);
                assert forall|k2: int|
                    0 <= k2 < self.records@.len() implies self.index@.contains_key(
                    (#[trigger] self.records@[k2]).note_path@,
                ) && self.index@[self.records@[k2].note_path@] == k2 by {
                    if k2 != k {
                        assert(self.records@[k2] == old(self).records@[k2]);
                    }
                }
            },
            None => {
                let k = self.records.len();
                self.index.insert(note_path.clone(), k);
                self.records.push(Embedding { note_path, note_checksum, vectors });
                assert forall|k2: int|
                    0 <= k2 < self.records@.len() implies self.index@.contains_key(
                    (#[trigger] self.records@[k2]).note_path@,
                ) && self.index@[self.records@[k2].note_path@] == k2 by {
                    if k2 < k {
                        assert(self.records@[k2] == old(self).records@[k2]);
                        assert(old(self).index@.contains_key(old(self).records@[k2].note_path@));
                    }
                }
            },
        }
        assert(self@ =~= old(self)@.insert(p, (note_checksum, vs)));
    }

    /// Adds one stored vector of a note, as read back from storage: it joins
    /// the note's vectors when the store already holds the note with this
    /// checksum, and otherwise starts the note's record afresh.
    pub fn load_entry(&mut self, note_path: String, note_checksum: u32, vector: V)
        requires
            old(self).wf(),
        ensures
            final(self).wf(),
            final(self)@ == if old(self)@.contains_key(note_path@) && old(self)@[note_path@].0 == note_checksum {
                old(self)@.insert(note_path@, (note_checksum, old(self)@[note_path@].1.push(vector)))
            } else {
                old(self)@.insert(note_path@, (note_checksum, seq![vector]))
            },
    {
        let ghost p = note_path@;
        match self.index.get(note_path.as_str()) {
            Some(k) => {
                let k = *k;
                if self.records[k].note_checksum == note_checksum {
                    self.records[k].vectors.push(vector);
                    assert forall|k2: int|
                        0 <= k2 < self.records@.len() implies self.index@.contains_key(
                        (#[trigger] self.records@[k2]).note_path@,
                    ) && self.index@[self.records@[k2].note_path@] == k2 by {
                        if k2 != k {
                            assert(self.records@[k2] == old(self).records@[k2]);
                        }
                    }
                    assert(self@ =~= old(self)@.insert(p, (note_checksum, old(self)@[p].1.push(vector))));
                    return;
                }
            },
            None => {},
        }
        let mut vectors: Vec<V> = Vec::new();
        vectors.push(vector);
        self.insert(note_path, note_checksum, vectors);
        assert(vectors@ =~= seq![vector]);
    }

    /// Keeps the records whose path is in `keep` and drops the others;
    /// returns how many were dropped.
    pub fn prune(&mut self, keep: &PathSet) -> (removed: usize)
        requires
            old(self).wf(),
        ensures
            final(self).wf(),
            final(self)@ == old(self)@.restrict(keep@),
            removed == old(self).spec_len() - final(self).spec_len(),
    {
        let mut old_records: Vec<Embedding<V>> = Vec::new();
        std::mem::swap(&mut old_records, &mut self.records);
        let ghost before = old_records@;
        let ghost old_index = old(self).index@;
        let mut kept: Vec<Embedding<V>> = Vec::new();
        let mut index: StringHashMap<usize> = StringHashMap::new();
        let mut removed: usize = 0;
        let n = old_records.len();
        for rec in it: old_records.into_iter()
            invariant
                it.seq() == before,
                before.len() == n,
                it.index() <= n,
                before == old(self).records@,
                old_index == old(self).index@,
                old(self).wf(),
                removed + kept@.len() == it.index(),
                forall|k: int|
                    0 <= k < kept@.len() ==> index@.contains_key((#[trigger] kept@[k]).note_path@)
                        && index@[kept@[k].note_path@] == k,
                forall|p: Seq<char>|
                    #[trigger] index@.contains_key(p) ==> (index@[p] as int) < kept@.len()
                        && kept@[index@[p] as int] == before[old_index[p] as int],
                forall|p: Seq<char>|
                    #[trigger] index@.contains_key(p) <==> (keep@.contains(p) && old_index.contains_key(p)
                        && old_index[p] < it.index()),
        {
            let ghost i = it.index();
            assert(rec == before[i]);
            assert(old_index[rec.note_path@] == i);
            if keep.contains(rec.note_path.as_str()) {
                let k = kept.len();
                index.insert(rec.note_path.clone(), k);
                kept.push(rec);
                assert forall|k2: int|
                    0 <= k2 < kept@.len() implies index@.contains_key((#[trigger] kept@[k2]).note_path@)
                        && index@[kept@[k2].note_path@] == k2 by {
                    if k2 < k {
                        assert(kept@[k2] == old(self).records@[old_index[kept@[k2].note_path@] as int]);
                    }
                }
                assert forall|p: Seq<char>|
                    #[trigger] index@.contains_key(p) <==> (keep@.contains(p) && old_index.contains_key(p)
                        && old_index[p] < i + 1) by {
                    if old_index.contains_key(p) && old_index[p] == i {
                        assert(before[i].note_path@ == p);
                    }
                }
            } else {
                removed = removed + 1;
                assert forall|p: Seq<char>|
                    #[trigger] index@.contains_key(p) <==> (keep@.contains(p) && old_index.contains_key(p)
                        && old_index[p] < i + 1) by {
                    if old_index.contains_key(p) && old_index[p] == i {
                        assert(before[i].note_path@ == p);
                    }
                }
            }
        }
        self.records = kept;
        self.index = index;
        assert forall|p: Seq<char>| #[trigger] self.index@.contains_key(p) implies (self.index@[p] as int)
            < self.records@.len() && self.records@[self.index@[p] as int].note_path@ == p by {
            assert(old(self).records@[old_index[p] as int].note_path@ == p);
        }
        assert(self@ =~= old(self)@.restrict(keep@));
        removed
    }
}

} // verus!
