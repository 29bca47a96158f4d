//! The link graph: an undirected graph over note paths whose edges record
//! that one note references another.

use vstd::prelude::*;
use vstd::hash_map::StringHashMap;
use vstd::hash_set::StringHashSet;
use crate::note::Note;
use crate::text::{chars_of, lemma_seq_less_total, same_text, seq_less, text_less, views};
use crate::wikilink::{parse_wikilinks, wikilinks};

verus! {

/// The two paths of an undirected link, in a fixed order.
pub open spec fn canonical(a: Seq<char>, b: Seq<char>) -> (Seq<char>, Seq<char>) {
    if seq_less(a, b) {
        (a, b)
    } else {
        (b, a)
    }
}

/// An unordered pair of note paths, held with the lexicographically smaller
/// path first so that equal pairs compare equal whichever way they were made.
#[derive(Clone, Debug, Hash, PartialEq, Eq)]
pub struct PathPair(String, String);

impl View for PathPair {
    type V = (Seq<char>, Seq<char>);

    closed spec fn view(&self) -> (Seq<char>, Seq<char>) {
        (self.0@, self.1@)
    }
}

impl PathPair {
    /// The canonical pair of two paths.
    pub fn new(path_a: &str, path_b: &str) -> (r: PathPair)
        ensures
            r@ == canonical(path_a@, path_b@),
    {
        if text_less(path_a, path_b) {
            PathPair(path_a.to_owned(), path_b.to_owned())
        } else {
            PathPair(path_b.to_owned(), path_a.to_owned())
        }
    }

    /// The first (smaller) path of the pair.
    pub fn first(&self) -> (r: &str)
        ensures
            r@ == self@.0,
    {
        self.0.as_str()
    }

    /// The second (larger) path of the pair.
    pub fn second(&self) -> (r: &str)
        ensures
            r@ == self@.1,
    {
        self.1.as_str()
    }
}

/// The canonical pair does not depend on the order of its two paths.
pub proof fn canonical_pair_symmetric(a: Seq<char>, b: Seq<char>)
    ensures
        canonical(a, b) == canonical(b, a),
{
    lemma_seq_less_total(a, b);
}

/// The views of a list of pairs.
pub open spec fn pair_views(s: Seq<PathPair>) -> Seq<(Seq<char>, Seq<char>)> {
    s.map_values(|p: PathPair| p@)
}

/// Undirected graph over note paths. Its view is the symmetric set of
/// linked path pairs: `(a, b)` is in it exactly when `(b, a)` is.
pub struct LinkGraph {
    paths: Vec<String>,
    ids: StringHashMap<usize>,
    adj: Vec<Vec<usize>>,
}

impl View for LinkGraph {
    type V = Set<(Seq<char>, Seq<char>)>;

    closed spec fn view(&self) -> Set<(Seq<char>, Seq<char>)> {
        Set::new(
            |p: (Seq<char>, Seq<char>)|
                self.ids@.contains_key(p.0) && self.ids@.contains_key(p.1)
                    && self.adj@[self.ids@[p.0] as int]@.contains(self.ids@[p.1]),
        )
    }
}

impl LinkGraph {
    /// Node numbering and adjacency lists agree, adjacency is symmetric and
    /// free of self-loops and repeats.
    pub closed spec fn wf(&self) -> bool {
        &&& self.paths@.len() == self.adj@.len()
        &&& forall|k: int|
            0 <= k < self.paths@.len() ==> self.ids@.contains_key(#[trigger] self.paths@[k]@)
                && self.ids@[self.paths@[k]@] == k
        &&& forall|p: Seq<char>|
            #[trigger] self.ids@.contains_key(p) ==> (self.ids@[p] as int) < self.paths@.len()
                && self.paths@[self.ids@[p] as int]@ == p
        &&& forall|k: int, m: int|
            0 <= k < self.adj@.len() && 0 <= m < self.adj@[k]@.len() ==> (#[trigger] self.adj@[k]@[m]
                as int) < self.adj@.len() && self.adj@[k]@[m] != k && self.adj@[self.adj@[k]@[m] as int]@.contains(
                k as usize,
            )
        &&& forall|k: int| 0 <= k < self.adj@.len() ==> #[trigger] self.adj@[k]@.no_duplicates()
    }

    /// The canonical pairs of the graph's links: one per undirected link.
    pub open spec fn canonical_pairs(&self) -> Set<(Seq<char>, Seq<char>)> {
        self@.filter(|p: (Seq<char>, Seq<char>)| seq_less(p.0, p.1))
    }

    /// An empty graph.
    pub fn new() -> (g: LinkGraph)
        ensures
            g.wf(),
            g@ == Set::<(Seq<char>, Seq<char>)>::empty(),
    {
        let g = LinkGraph { paths: Vec::new(), ids: StringHashMap::new(), adj: Vec::new() };
        assert(g@ =~= Set::<(Seq<char>, Seq<char>)>::empty());
        g
    }

    /// The node number of a path, adding the path as a node without links
    /// when it is not one yet.
    fn node_id(&mut self, p: &str) -> (k: usize)
        requires
            old(self).wf(),
        ensures
            final(self).wf(),
            final(self)@ == old(self)@,
            final(self).ids@.contains_key(p@),
            final(self).ids@[p@] == k,
            (k as int) < final(self).adj@.len(),
            forall|q: Seq<char>| #[trigger] old(self).ids@.contains_key(q) ==> final(self).ids@.contains_key(q) && final(self).ids@[q] == old(self).ids@[q],
            forall|j: int| 0 <= j < old(self).adj@.len() ==> #[trigger] final(self).adj@[j] == old(self).adj@[j],
            final(self).adj@.len() >= old(self).adj@.len(),
            forall|j: int| old(self).adj@.len() <= j < final(self).adj@.len() ==> #[trigger] final(self).adj@[j]@.len() == 0,
    {
        match self.ids.get(p) {
            Some(k) => *k,
            None => {
                let k = self.paths.len();
                self.paths.push(p.to_owned());
                self.adj.push(Vec::new());
                self.ids.insert(p.to_owned(), k);
                assert(self@ =~= old(self)@);
                k
            },
        }
    }

    /// Whether an adjacency list holds a node.
    fn row_contains(row: &Vec<usize>, x: usize) -> (r: bool)
        ensures
            r == row@.contains(x),
    {
        let mut i: usize = 0;
        while i < row.len()
            invariant
                i <= row.len(),
                forall|j: int| 0 <= j < i ==> row@[j] != x,
            decreases row.len() - i,
        {
            if row[i] == x {
                return true;
            }
            i += 1;
        }
        false
    }

    /// Records that `path_a` and `path_b` are linked. A link from a path to
    /// itself is dropped.
    pub fn add_link(&mut self, path_a: &str, path_b: &str)
        requires
            old(self).wf(),
        ensures
            final(self).wf(),
            final(self)@ == if path_a@ == path_b@ {
                old(self)@
            } else {
                old(self)@.insert((path_a@, path_b@)).insert((path_b@, path_a@))
            },
    {
        if same_text(path_a, path_b) {
            return;
        }
        let ia = self.node_id(path_a);
        let ib = self.node_id(path_b);
        let ghost mid = *self;
        broadcast use vstd::seq_lib::lemma_seq_contains_after_push;
        assert(ia != ib) by {
            assert(mid.paths@[ia as int]@ == path_a@);
            assert(mid.paths@[ib as int]@ == path_b@);
        }
        if !Self::row_contains(&self.adj[ia], ib) {
            self.adj[ia].push(ib);
            self.adj[ib].push(ia);
            assert(self.adj@[ia as int]@ == mid.adj@[ia as int]@.push(ib));
            assert(self.adj@[ib as int]@ == mid.adj@[ib as int]@.push(ia));
            assert(forall|j: int| 0 <= j < self.adj@.len() && j != ia && j != ib ==> #[trigger] self.adj@[j] == mid.adj@[j]);
            assert(self.wf()) by {
                assert forall|k: int, m: int|
                    0 <= k < self.adj@.len() && 0 <= m < self.adj@[k]@.len() implies (
                    #[trigger] self.adj@[k]@[m] as int) < self.adj@.len() && self.adj@[k]@[m] != k
                        && self.adj@[self.adj@[k]@[m] as int]@.contains(k as usize) by {
                    if k == ia && m == self.adj@[k]@.len() - 1 {
                        assert(self.adj@[ib as int]@.last() == ia);
                    } else if k == ib && m == self.adj@[k]@.len() - 1 {
                        assert(self.adj@[ia as int]@.last() == ib);
                    } else {
                        assert(self.adj@[k]@[m] == mid.adj@[k]@[m]);
                        let j = mid.adj@[k]@[m] as int;
                        assert(mid.adj@[j]@.contains(k as usize));
                        let w = choose|w: int| 0 <= w < mid.adj@[j]@.len() && mid.adj@[j]@[w] == k as usize;
                        assert(self.adj@[j]@[w] == k as usize);
                    }
                }
                assert forall|k: int| 0 <= k < self.adj@.len() implies #[trigger] self.adj@[k]@.no_duplicates() by {
                    if k != ia && k != ib {
                        assert(self.adj@[k] == mid.adj@[k]);
                    } else if k == ia {
                        assert(mid.adj@[ia as int]@.no_duplicates());
                        assert(!mid.adj@[ia as int]@.contains(ib));
                    } else {
                        assert(mid.adj@[ib as int]@.no_duplicates());
                        assert(!mid.adj@[ib as int]@.contains(ia)) by {
                            if mid.adj@[ib as int]@.contains(ia) {
                                let w = choose|w: int| 0 <= w < mid.adj@[ib as int]@.len() && mid.adj@[ib as int]@[w] == ia;
                                assert(mid.adj@[ia as int]@.contains(ib));
                            }
                        }
                    }
                }
            }
            assert forall|p: (Seq<char>, Seq<char>)| #[trigger] self@.contains(p) == old(self)@.insert((path_a@, path_b@)).insert((path_b@, path_a@)).contains(p) by {
                assert(old(self)@.contains(p) == mid@.contains(p));
                if self.ids@.contains_key(p.0) && self.ids@.contains_key(p.1) {
                    let x = self.ids@[p.0] as int;
                    let y = self.ids@[p.1];
                    assert(mid.paths@[x]@ == p.0);
                    assert(mid.paths@[y as int]@ == p.1);
                    if x == ia {
                        assert(self.adj@[x]@.contains(y) == (mid.adj@[x]@.contains(y) || y == ib));
                    } else if x == ib {
                        assert(self.adj@[x]@.contains(y) == (mid.adj@[x]@.contains(y) || y == ia));
                    }
                }
            }
        } else {
            assert(mid.adj@[ib as int]@.contains(ia)) by {
                let w = choose|w: int| 0 <= w < mid.adj@[ia as int]@.len() && mid.adj@[ia as int]@[w] == ib;
            }
            assert forall|p: (Seq<char>, Seq<char>)| #[trigger] self@.contains(p) == old(self)@.insert((path_a@, path_b@)).insert((path_b@, path_a@)).contains(p) by {
                assert(old(self)@.contains(p) == mid@.contains(p));
            }
        }
        assert(self@ =~= old(self)@.insert((path_a@, path_b@)).insert((path_b@, path_a@)));
    }

    /// Whether two paths are linked.
    pub fn is_linked(&self, path_a: &str, path_b: &str) -> (r: bool)
        requires
            self.wf(),
        ensures
            r == self@.contains((path_a@, path_b@)),
    {
        match self.ids.get(path_a) {
            None => false,
            Some(ia) => match self.ids.get(path_b) {
                None => false,
                Some(ib) => Self::row_contains(&self.adj[*ia], *ib),
            },
        }
    }

    /// Every link exactly once, as its canonical pair.
    pub fn all_linked_pairs(&self) -> (pairs: Vec<PathPair>)
        requires
            self.wf(),
        ensures
            pair_views(pairs@).no_duplicates(),
            pair_views(pairs@).to_set() == self.canonical_pairs(),
    {
        broadcast use vstd::seq_lib::lemma_seq_contains_after_push;
        let mut pairs: Vec<PathPair> = Vec::new();
        let n = self.paths.len();
        let mut k: usize = 0;
        while k < n
            invariant
                self.wf(),
                n == self.paths.len(),
                k <= n,
                pair_views(pairs@).no_duplicates(),
                forall|p: (Seq<char>, Seq<char>)|
                    #[trigger] pair_views(pairs@).contains(p) <==> (self.canonical_pairs().contains(p)
                        && self.ids@[p.0] < k),
            decreases n - k,
        {
            let row = &self.adj[k];
            let mut m: usize = 0;
            while m < row.len()
                invariant
                    self.wf(),
                    n == self.paths.len(),
                    k < n,
                    row == &self.adj@[k as int],
                    m <= row.len(),
                    pair_views(pairs@).no_duplicates(),
                    forall|p: (Seq<char>, Seq<char>)|
                        #[trigger] pair_views(pairs@).contains(p) <==> (self.canonical_pairs().contains(p)
                            && (self.ids@[p.0] < k || (self.ids@[p.0] == k && row@.subrange(0, m as int).contains(self.ids@[p.1])))),
                decreases row.len() - m,
            {
                let j = row[m];
                assert(row@.subrange(0, m + 1) == row@.subrange(0, m as int).push(j));
                let ghost q = (self.paths@[k as int]@, self.paths@[j as int]@);
                assert(self.ids@[q.0] == k);
                assert(self.ids@[q.1] == j);
                assert(self@.contains(q)) by {
                    assert(row@[m as int] == j);
                }
                assert(row@.no_duplicates());
                if text_less(&self.paths[k], &self.paths[j]) {
                    let ghost old_pairs = pairs@;
                    assert(!pair_views(old_pairs).contains(q)) by {
                        if pair_views(old_pairs).contains(q) {
                            assert(row@.subrange(0, m as int).contains(j));
                            let w = choose|w: int| 0 <= w < m && row@.subrange(0, m as int)[w] == j;
                            assert(row@[w] == j);
                            assert(row@[m as int] == j);
                        }
                    }
                    pairs.push(PathPair(self.paths[k].clone(), self.paths[j].clone()));
                    assert(pair_views(pairs@) == pair_views(old_pairs).push(q));
                    assert forall|p: (Seq<char>, Seq<char>)|
                        #[trigger] pair_views(pairs@).contains(p) <==> (self.canonical_pairs().contains(p)
                            && (self.ids@[p.0] < k || (self.ids@[p.0] == k && row@.subrange(0, m + 1).contains(self.ids@[p.1])))) by {
                        vstd::seq_lib::lemma_seq_contains_after_push(row@.subrange(0, m as int), j, self.ids@[p.1]);
                        vstd::seq_lib::lemma_seq_contains_after_push(pair_views(old_pairs), q, p);
                        if self.canonical_pairs().contains(p) && self.ids@[p.0] == k && self.ids@[p.1] == j {
                            assert(p == q);
                        }
                        if p == q {
                            assert(row@.subrange(0, m + 1)[m as int] == j);
                            assert(self.canonical_pairs().contains(q));
                        }
                    }
                } else {
                    assert forall|p: (Seq<char>, Seq<char>)|
                        #[trigger] pair_views(pairs@).contains(p) <==> (self.canonical_pairs().contains(p)
                            && (self.ids@[p.0] < k || (self.ids@[p.0] == k && row@.subrange(0, m + 1).contains(self.ids@[p.1])))) by {
                        vstd::seq_lib::lemma_seq_contains_after_push(row@.subrange(0, m as int), j, self.ids@[p.1]);
                        if self.canonical_pairs().contains(p) && self.ids@[p.0] == k && self.ids@[p.1] == j {
                            assert(p == q);
                        }
                    }
                }
                m += 1;
            }
            assert(row@.subrange(0, row@.len() as int) == row@);
            k += 1;
        }
        assert(pair_views(pairs@).to_set() =~= self.canonical_pairs());
        pairs
    }
}


/// Whether `path` lies under `prefix`, segment by segment: `prefix` is an
/// initial part of `path` that ends at a `/` of `path`, at a `/` of its own,
/// or at the end of `path`. So "/Notes/Archive" covers "/Notes/Archive/x.md"
/// but not "/Notes/Archive-test/x.md".
pub open spec fn is_under(path: Seq<char>, prefix: Seq<char>) -> bool {
    &&& prefix.len() <= path.len()
    &&& path.subrange(0, prefix.len() as int) == prefix
    &&& (prefix.len() == 0 || prefix.len() == path.len() || path[prefix.len() as int] == '/'
        || prefix.last() == '/')
}

/// Whether one of the prefixes covers the path.
pub open spec fn excluded_by(path: Seq<char>, prefixes: Seq<Seq<char>>) -> bool {
    exists|i: int| 0 <= i < prefixes.len() && is_under(path, #[trigger] prefixes[i])
}

/// Whether `prefix` covers `path` segment by segment.
pub fn path_starts_with(path: &str, prefix: &str) -> (r: bool)
    ensures
        r == is_under(path@, prefix@),
{
    let p = chars_of(path);
    let q = chars_of(prefix);
    if q.len() > p.len() {
        return false;
    }
    let mut i: usize = 0;
    while i < q.len()
        invariant
            p@ == path@,
            q@ == prefix@,
            q.len() <= p.len(),
            i <= q.len(),
            p@.subrange(0, i as int) == q@.subrange(0, i as int),
        decreases q.len() - i,
    {
        if p[i] != q[i] {
            assert(p@.subrange(0, q.len() as int)[i as int] == p@[i as int]);
            assert(p@.subrange(0, q.len() as int) != q@);
            return false;
        }
        assert(p@.subrange(0, i + 1) =~= p@.subrange(0, i as int).push(p@[i as int]));
        assert(q@.subrange(0, i + 1) =~= q@.subrange(0, i as int).push(q@[i as int]));
        i += 1;
    }
    assert(q@.subrange(0, q.len() as int) =~= q@);
    q.len() == 0 || q.len() == p.len() || p[q.len()] == '/' || q[q.len() - 1] == '/'
}

/// Whether one of the exclusion prefixes covers the path.
pub fn is_excluded(path: &str, exclude_prefixes: &[String]) -> (r: bool)
    ensures
        r == excluded_by(path@, views(exclude_prefixes@)),
{
    let mut i: usize = 0;
    while i < exclude_prefixes.len()
        invariant
            i <= exclude_prefixes@.len(),
            forall|k: int| 0 <= k < i ==> !is_under(path@, #[trigger] views(exclude_prefixes@)[k]),
        decreases exclude_prefixes.len() - i,
    {
        if path_starts_with(path, exclude_prefixes[i].as_str()) {
            assert(is_under(path@, views(exclude_prefixes@)[i as int]));
            return true;
        }
        i += 1;
    }
    false
}

/// A set of note paths.
pub struct PathSet {
    set: StringHashSet,
}

impl View for PathSet {
    type V = Set<Seq<char>>;

    closed spec fn view(&self) -> Set<Seq<char>> {
        self.set@
    }
}

impl PathSet {
    /// An empty set.
    pub fn new() -> (r: PathSet)
        ensures
            r@ == Set::<Seq<char>>::empty(),
    {
        PathSet { set: StringHashSet::new() }
    }

    /// Adds a path.
    pub fn insert(&mut self, path: String)
        ensures
            final(self)@ == old(self)@.insert(path@),
    {
        self.set.insert(path);
    }

    /// Whether the set holds a path.
    pub fn contains(&self, path: &str) -> (r: bool)
        ensures
            r == self@.contains(path@),
    {
        self.set.contains(path)
    }
}

/// A map from note titles to note paths.
pub struct TitleIndex {
    map: StringHashMap<String>,
}

impl View for TitleIndex {
    type V = Map<Seq<char>, Seq<char>>;

    closed spec fn view(&self) -> Map<Seq<char>, Seq<char>> {
        self.map@.map_values(|p: String| p@)
    }
}

impl TitleIndex {
    /// An empty index.
    pub fn new() -> (r: TitleIndex)
        ensures
            r@ == Map::<Seq<char>, Seq<char>>::empty(),
    {
        let r = TitleIndex { map: StringHashMap::new() };
        assert(r@ =~= Map::<Seq<char>, Seq<char>>::empty());
        r
    }

    /// Maps a title to a path, replacing what the title mapped to before.
    pub fn insert(&mut self, title: String, path: String)
        ensures
            final(self)@ == old(self)@.insert(title@, path@),
    {
        self.map.insert(title, path);
        assert(self@ =~= old(self)@.insert(title@, path@));
    }

    /// The path a title maps to, if any.
    pub fn get(&self, title: &str) -> (r: Option<String>)
        ensures
            match r {
                Some(p) => self@.contains_key(title@) && self@[title@] == p@,
                None => !self@.contains_key(title@),
            },
    {
        match self.map.get(title) {
            Some(p) => Some(p.clone()),
            None => None,
        }
    }
}

/// What a reference target names: the note whose path it is, else the note
/// whose title it is, else nothing.
pub open spec fn resolve(
    target: Seq<char>,
    paths: Set<Seq<char>>,
    titles: Map<Seq<char>, Seq<char>>,
) -> Option<Seq<char>> {
    if paths.contains(target) {
        Some(target)
    } else if titles.contains_key(target) {
        Some(titles[target])
    } else {
        None
    }
}

/// Resolves a reference target to a note path: an exact path match wins
/// over a title match.
pub fn resolve_link(link_text: &str, all_paths: &PathSet, title_to_path: &TitleIndex) -> (r:
    Option<String>)
    ensures
        match r {
            Some(p) => resolve(link_text@, all_paths@, title_to_path@) == Some(p@),
            None => resolve(link_text@, all_paths@, title_to_path@) is None,
        },
{
    if all_paths.contains(link_text) {
        return Some(link_text.to_owned());
    }
    title_to_path.get(link_text)
}

/// The paths of the notes that no prefix excludes.
pub open spec fn path_set(notes: Seq<Note>, ex: Seq<Seq<char>>) -> Set<Seq<char>>
    decreases notes.len(),
{
    if notes.len() == 0 {
        Set::empty()
    } else {
        let rest = path_set(notes.drop_last(), ex);
        if excluded_by(notes.last().path@, ex) {
            rest
        } else {
            rest.insert(notes.last().path@)
        }
    }
}

/// The title index of the notes that no prefix excludes: when two notes
/// share a title, the later one wins.
pub open spec fn title_map(notes: Seq<Note>, ex: Seq<Seq<char>>) -> Map<Seq<char>, Seq<char>>
    decreases notes.len(),
{
    if notes.len() == 0 {
        Map::empty()
    } else {
        let rest = title_map(notes.drop_last(), ex);
        if excluded_by(notes.last().path@, ex) {
            rest
        } else {
            rest.insert(notes.last().title@, notes.last().path@)
        }
    }
}

/// The links that the references `targets` of the note at `src` make: both
/// orientations of each link to a note other than `src` itself.
pub open spec fn note_links(
    src: Seq<char>,
    targets: Seq<Seq<char>>,
    paths: Set<Seq<char>>,
    titles: Map<Seq<char>, Seq<char>>,
) -> Set<(Seq<char>, Seq<char>)>
    decreases targets.len(),
{
    if targets.len() == 0 {
        Set::empty()
    } else {
        let rest = note_links(src, targets.drop_last(), paths, titles);
        match resolve(targets.last(), paths, titles) {
            Some(t) => if t != src {
                rest.insert((src, t)).insert((t, src))
            } else {
                rest
            },
            None => rest,
        }
    }
}

/// The union of the links of every note that no prefix excludes.
pub open spec fn corpus_links(
    notes: Seq<Note>,
    ex: Seq<Seq<char>>,
    paths: Set<Seq<char>>,
    titles: Map<Seq<char>, Seq<char>>,
) -> Set<(Seq<char>, Seq<char>)>
    decreases notes.len(),
{
    if notes.len() == 0 {
        Set::empty()
    } else {
        let rest = corpus_links(notes.drop_last(), ex, paths, titles);
        let n = notes.last();
        if excluded_by(n.path@, ex) {
            rest
        } else {
            rest.union(note_links(n.path@, wikilinks(n.text_content@), paths, titles))
        }
    }
}

/// The link graph of a corpus: references are resolved against the paths
/// and titles of the notes that no prefix excludes.
pub open spec fn reference_graph(notes: Seq<Note>, ex: Seq<Seq<char>>) -> Set<(Seq<char>, Seq<char>)> {
    corpus_links(notes, ex, path_set(notes, ex), title_map(notes, ex))
}

impl LinkGraph {
    /// Builds the link graph of a corpus. Excluded notes take no part: their
    /// references are skipped and nothing resolves to them.
    pub fn from_notes(notes: &[Note], exclude_prefixes: &[String]) -> (g: LinkGraph)
        ensures
            g.wf(),
            g@ == reference_graph(notes@, views(exclude_prefixes@)),
    {
        let ghost ex = views(exclude_prefixes@);
        let mut all_paths = PathSet::new();
        let mut title_to_path = TitleIndex::new();
        let mut i: usize = 0;
        while i < notes.len()
            invariant
                i <= notes@.len(),
                ex == views(exclude_prefixes@),
                all_paths@ == path_set(notes@.take(i as int), ex),
                title_to_path@ == title_map(notes@.take(i as int), ex),
            decreases notes.len() - i,
        {
            assert(notes@.take(i + 1).drop_last() =~= notes@.take(i as int));
            if !is_excluded(&notes[i].path, exclude_prefixes) {
                all_paths.insert(notes[i].path.clone());
                title_to_path.insert(notes[i].title.clone(), notes[i].path.clone());
            }
            i += 1;
        }
        assert(notes@.take(notes@.len() as int) =~= notes@);
        let ghost paths = all_paths@;
        let ghost titles = title_to_path@;
        let mut graph = LinkGraph::new();
        let mut i: usize = 0;
        while i < notes.len()
            invariant
                i <= notes@.len(),
                ex == views(exclude_prefixes@),
                all_paths@ == paths,
                title_to_path@ == titles,
                graph.wf(),
                graph@ == corpus_links(notes@.take(i as int), ex, paths, titles),
            decreases notes.len() - i,
        {
            let note = &notes[i];
            assert(notes@.take(i + 1).drop_last() =~= notes@.take(i as int));
            if !is_excluded(&note.path, exclude_prefixes) {
                let links = parse_wikilinks(&note.text_content);
                let ghost base = graph@;
                let mut j: usize = 0;
                while j < links.len()
                    invariant
                        j <= links@.len(),
                        all_paths@ == paths,
                        title_to_path@ == titles,
                        graph.wf(),
                        views(links@) == wikilinks(note.text_content@),
                        graph@ == base.union(note_links(note.path@, views(links@).take(j as int), paths, titles)),
                    decreases links.len() - j,
                {
                    let ghost tj = views(links@).take(j + 1);
                    assert(tj.drop_last() =~= views(links@).take(j as int));
                    assert(tj.last() == links@[j as int]@);
                    match resolve_link(&links[j], &all_paths, &title_to_path) {
                        Some(t) => {
                            graph.add_link(&note.path, &t);
                            assert(graph@ =~= base.union(note_links(note.path@, tj, paths, titles)));
                        },
                        None => {},
                    }
                    j += 1;
                }
                assert(views(links@).take(links@.len() as int) =~= views(links@));
            }
            i += 1;
        }
        graph
    }
}

/// A reference target that is the path of a note resolves to that path,
/// even when it is also the title of another note.
pub proof fn path_match_wins(
    target: Seq<char>,
    paths: Set<Seq<char>>,
    titles: Map<Seq<char>, Seq<char>>,
)
    requires
        paths.contains(target),
    ensures
        resolve(target, paths, titles) == Some(target),
{
}

proof fn lemma_self_note_links_empty(
    src: Seq<char>,
    targets: Seq<Seq<char>>,
    paths: Set<Seq<char>>,
    titles: Map<Seq<char>, Seq<char>>,
)
    requires
        forall|j: int|
            0 <= j < targets.len() ==> match #[trigger] resolve(targets[j], paths, titles) {
                Some(t) => t == src,
                None => true,
            },
    ensures
        note_links(src, targets, paths, titles) == Set::<(Seq<char>, Seq<char>)>::empty(),
    decreases targets.len(),
{
    if targets.len() > 0 {
        let last = targets.len() - 1;
        assert(resolve(targets[last], paths, titles) == resolve(targets.last(), paths, titles));
        lemma_self_note_links_empty(src, targets.drop_last(), paths, titles);
    }
}

proof fn lemma_self_corpus_links_empty(
    notes: Seq<Note>,
    ex: Seq<Seq<char>>,
    paths: Set<Seq<char>>,
    titles: Map<Seq<char>, Seq<char>>,
)
    requires
        forall|i: int, j: int|
            0 <= i < notes.len() && 0 <= j < wikilinks(notes[i].text_content@).len() ==> match resolve(
                #[trigger] wikilinks(notes[i].text_content@)[j],
                paths,
                titles,
            ) {
                Some(t) => t == notes[i].path@,
                None => true,
            },
    ensures
        corpus_links(notes, ex, paths, titles) == Set::<(Seq<char>, Seq<char>)>::empty(),
    decreases notes.len(),
{
    if notes.len() > 0 {
        let last = notes.len() - 1;
        let n = notes.last();
        assert forall|j: int| 0 <= j < wikilinks(n.text_content@).len() implies match #[trigger] resolve(
            wikilinks(n.text_content@)[j],
            paths,
            titles,
        ) {
            Some(t) => t == n.path@,
            None => true,
        } by {
            assert(notes[last] == n);
        }
        lemma_self_note_links_empty(n.path@, wikilinks(n.text_content@), paths, titles);
        assert forall|i: int, j: int|
            0 <= i < notes.drop_last().len() && 0 <= j < wikilinks(notes.drop_last()[i].text_content@).len()
            implies match resolve(
                #[trigger] wikilinks(notes.drop_last()[i].text_content@)[j],
                paths,
                titles,
            ) {
                Some(t) => t == notes.drop_last()[i].path@,
                None => true,
            } by {
            assert(notes.drop_last()[i] == notes[i]);
        }
        lemma_self_corpus_links_empty(notes.drop_last(), ex, paths, titles);
        assert(corpus_links(notes, ex, paths, titles) =~= Set::<(Seq<char>, Seq<char>)>::empty());
    }
}

/// A corpus whose references only ever name the note they stand in (or
/// nothing) has no links at all.
pub proof fn self_references_make_no_links(notes: Seq<Note>, ex: Seq<Seq<char>>)
    requires
        forall|i: int, j: int|
            0 <= i < notes.len() && 0 <= j < wikilinks(notes[i].text_content@).len() ==> match resolve(
                #[trigger] wikilinks(notes[i].text_content@)[j],
                path_set(notes, ex),
                title_map(notes, ex),
            ) {
                Some(t) => t == notes[i].path@,
                None => true,
            },
    ensures
        reference_graph(notes, ex) == Set::<(Seq<char>, Seq<char>)>::empty(),
{
    lemma_self_corpus_links_empty(notes, ex, path_set(notes, ex), title_map(notes, ex));
}

proof fn lemma_path_set_not_excluded(notes: Seq<Note>, ex: Seq<Seq<char>>)
    ensures
        forall|p: Seq<char>| #[trigger] path_set(notes, ex).contains(p) ==> !excluded_by(p, ex),
    decreases notes.len(),
{
    if notes.len() > 0 {
        lemma_path_set_not_excluded(notes.drop_last(), ex);
        assert forall|p: Seq<char>| #[trigger] path_set(notes, ex).contains(p) implies !excluded_by(p, ex) by {
            if p != notes.last().path@ || excluded_by(notes.last().path@, ex) {
                assert(path_set(notes.drop_last(), ex).contains(p));
            }
        }
    }
}

proof fn lemma_title_map_not_excluded(notes: Seq<Note>, ex: Seq<Seq<char>>)
    ensures
        forall|t: Seq<char>| #[trigger] title_map(notes, ex).contains_key(t) ==> !excluded_by(title_map(notes, ex)[t], ex),
    decreases notes.len(),
{
    if notes.len() > 0 {
        lemma_title_map_not_excluded(notes.drop_last(), ex);
        assert forall|t: Seq<char>| #[trigger] title_map(notes, ex).contains_key(t) implies !excluded_by(title_map(notes, ex)[t], ex) by {
            if excluded_by(notes.last().path@, ex) || t != notes.last().title@ {
                assert(title_map(notes.drop_last(), ex).contains_key(t));
            }
        }
    }
}

proof fn lemma_note_links_ends(
    src: Seq<char>,
    targets: Seq<Seq<char>>,
    paths: Set<Seq<char>>,
    titles: Map<Seq<char>, Seq<char>>,
    ex: Seq<Seq<char>>,
)
    requires
        !excluded_by(src, ex),
        forall|p: Seq<char>| #[trigger] paths.contains(p) ==> !excluded_by(p, ex),
        forall|t: Seq<char>| #[trigger] titles.contains_key(t) ==> !excluded_by(titles[t], ex),
    ensures
        forall|l: (Seq<char>, Seq<char>)|
            #[trigger] note_links(src, targets, paths, titles).contains(l) ==> !excluded_by(l.0, ex) && !excluded_by(l.1, ex),
    decreases targets.len(),
{
    if targets.len() > 0 {
        lemma_note_links_ends(src, targets.drop_last(), paths, titles, ex);
        let rest = note_links(src, targets.drop_last(), paths, titles);
        let r = resolve(targets.last(), paths, titles);
        if r is Some {
            assert(!excluded_by(r->0, ex));
        }
        assert forall|l: (Seq<char>, Seq<char>)|
            #[trigger] note_links(src, targets, paths, titles).contains(l) implies !excluded_by(l.0, ex) && !excluded_by(l.1, ex) by {
            if rest.contains(l) {
            }
        }
    }
}

proof fn lemma_corpus_links_ends(
    notes: Seq<Note>,
    ex: Seq<Seq<char>>,
    paths: Set<Seq<char>>,
    titles: Map<Seq<char>, Seq<char>>,
)
    requires
        forall|p: Seq<char>| #[trigger] paths.contains(p) ==> !excluded_by(p, ex),
        forall|t: Seq<char>| #[trigger] titles.contains_key(t) ==> !excluded_by(titles[t], ex),
    ensures
        forall|l: (Seq<char>, Seq<char>)|
            #[trigger] corpus_links(notes, ex, paths, titles).contains(l) ==> !excluded_by(l.0, ex) && !excluded_by(l.1, ex),
    decreases notes.len(),
{
    if notes.len() > 0 {
        lemma_corpus_links_ends(notes.drop_last(), ex, paths, titles);
        let n = notes.last();
        if !excluded_by(n.path@, ex) {
            lemma_note_links_ends(n.path@, wikilinks(n.text_content@), paths, titles, ex);
        }
        assert forall|l: (Seq<char>, Seq<char>)|
            #[trigger] corpus_links(notes, ex, paths, titles).contains(l) implies !excluded_by(l.0, ex) && !excluded_by(l.1, ex) by {
            if corpus_links(notes.drop_last(), ex, paths, titles).contains(l) {
            } else {
                assert(note_links(n.path@, wikilinks(n.text_content@), paths, titles).contains(l));
            }
        }
    }
}

/// Excluded notes take no part in the link graph: no link has an excluded
/// path at either end.
pub proof fn excluded_notes_have_no_links(notes: Seq<Note>, ex: Seq<Seq<char>>)
    ensures
        forall|l: (Seq<char>, Seq<char>)|
            #[trigger] reference_graph(notes, ex).contains(l) ==> !excluded_by(l.0, ex) && !excluded_by(l.1, ex),
{
    lemma_path_set_not_excluded(notes, ex);
    lemma_title_map_not_excluded(notes, ex);
    lemma_corpus_links_ends(notes, ex, path_set(notes, ex), title_map(notes, ex));
}

} // verus!
