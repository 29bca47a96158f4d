//! The decisions of an incremental build: for each note, whether its
//! embedding must be created, updated or can be kept, and how the store
//! changes with what the embedding provider returned.
//!
//! A build visits the notes of the corpus in order. For a note whose action
//! is not `Skip` the caller asks the provider for vectors and hands the
//! outcome (`None` when the provider failed) to `apply_outcome`; the store
//! is written out whenever `is_checkpoint` says so, and once at the end.

use vstd::prelude::*;
use crate::store::{EmbeddingStore, StoreView};

verus! {

/// What a build does for one note.
#[derive(Debug, Clone, Copy, PartialEq, Eq, Structural)]
pub enum BuildAction {
    /// The store holds nothing for the note: embed it and add it.
    Create,
    /// The store holds the note with another checksum: embed it again.
    Update,
    /// The store holds the note with this checksum: nothing to do.
    Skip,
}

/// Number of notes between two writes of the store during a build.
pub const CHECKPOINT_INTERVAL: usize = 10;

/// The action for a note with the given path and checksum.
pub open spec fn action_for<V>(m: StoreView<V>, path: Seq<char>, checksum: u32) -> BuildAction {
    if !m.contains_key(path) {
        BuildAction::Create
    } else if m[path].0 == checksum {
        BuildAction::Skip
    } else {
        BuildAction::Update
    }
}

/// The store after one note of a build: unchanged when the note is skipped
/// or the provider failed, else holding the new checksum and vectors.
pub open spec fn run_step<V>(m: StoreView<V>, doc: (Seq<char>, u32), outcome: Option<Seq<V>>) -> StoreView<V> {
    if action_for(m, doc.0, doc.1) == BuildAction::Skip {
        m
    } else {
        match outcome {
            Some(v) => m.insert(doc.0, (doc.1, v)),
            None => m,
        }
    }
}

/// The store after a build over `docs` (path and checksum of each note, in
/// corpus order), where `outcomes[k]` is what the provider returned for
/// note `k` if it was asked.
pub open spec fn run_result<V>(
    m: StoreView<V>,
    docs: Seq<(Seq<char>, u32)>,
    outcomes: Seq<Option<Seq<V>>>,
) -> StoreView<V>
    decreases docs.len(),
{
    if docs.len() == 0 {
        m
    } else {
        run_step(run_result(m, docs.drop_last(), outcomes), docs.last(), outcomes[docs.len() - 1])
    }
}

/// The view of an optional vector list.
pub open spec fn outcome_view<V>(o: Option<Vec<V>>) -> Option<Seq<V>> {
    match o {
        Some(v) => Some(v@),
        None => None,
    }
}

impl<V> EmbeddingStore<V> {
    /// The action a build takes for a note with this path and checksum.
    pub fn classify(&self, path: &str, checksum: u32) -> (a: BuildAction)
        requires
            self.wf(),
        ensures
            a == action_for(self@, path@, checksum),
    {
        match self.checksum_of(path) {
            None => BuildAction::Create,
            Some(c) => if c == checksum {
                BuildAction::Skip
            } else {
                BuildAction::Update
            },
        }
    }

    /// Records what the provider returned for a note: the new vectors
    /// replace the stored ones unless the note needed no work or the
    /// provider failed.
    pub fn apply_outcome(&mut self, note_path: String, note_checksum: u32, outcome: Option<Vec<V>>)
        requires
            old(self).wf(),
        ensures
            final(self).wf(),
            final(self)@ == run_step(old(self)@, (note_path@, note_checksum), outcome_view(outcome)),
    {
        if self.classify(note_path.as_str(), note_checksum) == BuildAction::Skip {
            return;
        }
        match outcome {
            Some(vectors) => self.insert(note_path, note_checksum, vectors),
            None => {},
        }
    }
}

/// Whether the store is due to be written after the note at this position
/// (counted from 0) of the build.
pub fn is_checkpoint(position: usize) -> (r: bool)
    ensures
        r == ((position as int + 1) % (CHECKPOINT_INTERVAL as int) == 0),
{
    position % CHECKPOINT_INTERVAL == CHECKPOINT_INTERVAL - 1
}

/// No two notes share a path.
pub open spec fn unique_paths(docs: Seq<(Seq<char>, u32)>) -> bool {
    forall|i: int, j: int| 0 <= i < docs.len() && 0 <= j < docs.len() && i != j ==> (#[trigger] docs[i]).0 != (#[trigger] docs[j]).0
}

/// The store holds every note with its current checksum.
pub open spec fn is_current<V>(m: StoreView<V>, docs: Seq<(Seq<char>, u32)>) -> bool {
    forall|k: int| 0 <= k < docs.len() ==> m.contains_key((#[trigger] docs[k]).0) && m[docs[k].0].0 == docs[k].1
}

proof fn lemma_run_on_current_store<V>(m: StoreView<V>, docs: Seq<(Seq<char>, u32)>, outcomes: Seq<Option<Seq<V>>>)
    requires
        is_current(m, docs),
    ensures
        run_result(m, docs, outcomes) == m,
    decreases docs.len(),
{
    if docs.len() > 0 {
        assert(docs.drop_last().len() == docs.len() - 1);
        assert forall|k: int| 0 <= k < docs.drop_last().len() implies m.contains_key((#[trigger] docs.drop_last()[k]).0) && m[docs.drop_last()[k].0].0 == docs.drop_last()[k].1 by {
            assert(docs.drop_last()[k] == docs[k]);
        }
        lemma_run_on_current_store(m, docs.drop_last(), outcomes);
        assert(docs.last() == docs[docs.len() - 1]);
    }
}

proof fn lemma_successful_run_is_current<V>(m: StoreView<V>, docs: Seq<(Seq<char>, u32)>, outcomes: Seq<Option<Seq<V>>>)
    requires
        unique_paths(docs),
        outcomes.len() >= docs.len(),
        forall|k: int| 0 <= k < docs.len() ==> #[trigger] outcomes[k] is Some,
    ensures
        is_current(run_result(m, docs, outcomes), docs),
    decreases docs.len(),
{
    if docs.len() > 0 {
        let prefix = docs.drop_last();
        assert forall|i: int, j: int| 0 <= i < prefix.len() && 0 <= j < prefix.len() && i != j implies (#[trigger] prefix[i]).0 != (#[trigger] prefix[j]).0 by {
            assert(prefix[i] == docs[i] && prefix[j] == docs[j]);
        }
        lemma_successful_run_is_current(m, prefix, outcomes);
        let last = docs.len() - 1;
        assert(outcomes[last] is Some);
        assert(docs.last() == docs[last]);
        let r = run_result(m, prefix, outcomes);
        assert forall|k: int| 0 <= k < docs.len() implies run_result(m, docs, outcomes).contains_key((#[trigger] docs[k]).0)
            && run_result(m, docs, outcomes)[docs[k].0].0 == docs[k].1 by {
            if k < last {
                assert(prefix[k] == docs[k]);
                assert(docs[k].0 != docs[last].0);
            }
        }
    }
}

/// Building twice with no change in between: when every provider call of
/// the first build succeeded, the second build has nothing to do for any
/// note (so it calls the provider for none) and leaves the store as it was,
/// whatever its outcomes would have been.
pub proof fn rebuild_is_idempotent<V>(
    m: StoreView<V>,
    docs: Seq<(Seq<char>, u32)>,
    first: Seq<Option<Seq<V>>>,
    second: Seq<Option<Seq<V>>>,
)
    requires
        unique_paths(docs),
        first.len() == docs.len(),
        forall|k: int| 0 <= k < docs.len() ==> #[trigger] first[k] is Some,
    ensures
        forall|k: int| 0 <= k < docs.len() ==> action_for(run_result(m, docs, first), (#[trigger] docs[k]).0, docs[k].1)
            == BuildAction::Skip,
        run_result(run_result(m, docs, first), docs, second) == run_result(m, docs, first),
{
    lemma_successful_run_is_current(m, docs, first);
    lemma_run_on_current_store(run_result(m, docs, first), docs, second);
}

proof fn lemma_one_change_prefix<V>(
    m: StoreView<V>,
    docs: Seq<(Seq<char>, u32)>,
    i: int,
    c: u32,
    outcomes: Seq<Option<Seq<V>>>,
    j: int,
)
    requires
        unique_paths(docs),
        is_current(m, docs),
        0 <= i < docs.len(),
        c != docs[i].1,
        outcomes.len() == docs.len(),
        outcomes[i] is Some,
        0 <= j <= docs.len(),
    ensures
        run_result(m, docs.update(i, (docs[i].0, c)).take(j), outcomes) == if j <= i {
            m
        } else {
            m.insert(docs[i].0, (c, outcomes[i]->0))
        },
    decreases j,
{
    let changed = docs.update(i, (docs[i].0, c));
    if j > 0 {
        lemma_one_change_prefix(m, docs, i, c, outcomes, j - 1);
        assert(changed.take(j).drop_last() =~= changed.take(j - 1));
        assert(changed.take(j).last() == changed[j - 1]);
        let k = j - 1;
        if k != i {
            assert(changed[k] == docs[k]);
            assert(m.contains_key(docs[k].0));
            if k > i {
                assert(docs[k].0 != docs[i].0);
            }
        }
    }
}

/// Changing the text of one note: the next build updates exactly that
/// note, skips every other one, and the store afterwards differs from the
/// one before only in that note's record.
pub proof fn one_change_one_update<V>(
    m: StoreView<V>,
    docs: Seq<(Seq<char>, u32)>,
    i: int,
    c: u32,
    outcomes: Seq<Option<Seq<V>>>,
)
    requires
        unique_paths(docs),
        is_current(m, docs),
        0 <= i < docs.len(),
        c != docs[i].1,
        outcomes.len() == docs.len(),
        outcomes[i] is Some,
    ensures
        action_for(m, docs[i].0, c) == BuildAction::Update,
        forall|k: int| 0 <= k < docs.len() && k != i ==> action_for(m, (#[trigger] docs[k]).0, docs[k].1) == BuildAction::Skip,
        run_result(m, docs.update(i, (docs[i].0, c)), outcomes) == m.insert(docs[i].0, (c, outcomes[i]->0)),
{
    lemma_one_change_prefix(m, docs, i, c, outcomes, docs.len() as int);
    assert(docs.update(i, (docs[i].0, c)).take(docs.len() as int) =~= docs.update(i, (docs[i].0, c)));
}

} // verus!
