//! The traversal engine. A [`Walker`] holds the paths still to visit, the
//! directories already expanded, and the output so far. The caller does the
//! filesystem work: it takes an entry, tells the walker what is on disk, and
//! hands back file contents and directory listings.
use vstd::prelude::*;

use crate::config::AppConfig;
use crate::policy::{classify, ignored, verdict, PathKind, Verdict};
use crate::render::{block, store_block};

verus! {

/// A directory's identity: its device and inode numbers.
pub type DirId = (u64, u64);

/// The set of directories already expanded. It is held in a list rather
/// than a hash set: vstd specifies hash sets only for keys
/// it knows to obey its hashing model, and a pair of integers is not among them.
pub struct VisitedSet {
    keys: Vec<DirId>,
}

impl View for VisitedSet {
    type V = Set<DirId>;

    closed spec fn view(&self) -> Set<DirId> {
        self.keys@.to_set()
    }
}

impl VisitedSet {
    /// An empty set.
    pub fn new() -> (r: VisitedSet)
        ensures
            r@ == Set::<DirId>::empty(),
    {
        let r = VisitedSet { keys: Vec::new() };
        assert(r@ =~= Set::<DirId>::empty());
        r
    }

    /// Records `key`; true when it was not recorded before.
    pub fn try_enter(&mut self, key: DirId) -> (r: bool)
        ensures
            r == !old(self)@.contains(key),
            final(self)@ == old(self)@.insert(key),
    {
        let mut i: usize = 0;
        while i < self.keys.len()
            invariant
                i <= self.keys.len(),
                forall|j: int| 0 <= j < i ==> self.keys@[j] != key,
            decreases self.keys.len() - i,
        {
            if self.keys[i].0 == key.0 && self.keys[i].1 == key.1 {
                assert(self.keys@.to_set().contains(self.keys@[i as int]));
                assert(self@.insert(key) =~= self@);
                return false;
            }
            i = i + 1;
        }
        assert(!self.keys@.contains(key));
        self.keys.push(key);
        assert(self.keys@.to_set() =~= old(self).keys@.to_set().insert(key)) by {
            assert forall|k: DirId| self.keys@.contains(k) <==> old(self).keys@.contains(k) || k == key by {
                if old(self).keys@.contains(k) {
                    let j = choose|j: int| 0 <= j < old(self).keys@.len() && old(self).keys@[j] == k;
                    assert(self.keys@[j] == k);
                }
                if k == key {
                    assert(self.keys@[self.keys@.len() - 1] == key);
                }
                if self.keys@.contains(k) && k != key {
                    let j = choose|j: int| 0 <= j < self.keys@.len() && self.keys@[j] == k;
                    assert(old(self).keys@[j] == k);
                }
            }
        }
        true
    }
}

/// One path waiting to be visited, with its depth: 0 for the paths given,
/// one more than its directory's for each child.
pub struct Entry {
    pub path: String,
    pub depth: u64,
}

impl View for Entry {
    type V = (Seq<char>, u64);

    open spec fn view(&self) -> (Seq<char>, u64) {
        (self.path@, self.depth)
    }
}

/// The views of `entries`.
pub open spec fn views(entries: Seq<Entry>) -> Seq<(Seq<char>, u64)> {
    Seq::new(entries.len(), |i: int| entries[i]@)
}

/// The depth of a child of a directory at depth `depth` (never past `u64::MAX`).
pub open spec fn child_depth(depth: u64) -> u64 {
    if depth < u64::MAX {
        (depth + 1) as u64
    } else {
        depth
    }
}

/// The views of `paths`, each at depth `depth`, last path first: the order
/// in which a stack hands them out first to last.
pub open spec fn stacked(paths: Seq<String>, depth: u64) -> Seq<(Seq<char>, u64)> {
    Seq::new(paths.len(), |i: int| (paths[paths.len() - 1 - i]@, depth))
}

/// Whether a directory at depth `depth`, of identity `id` (`None` when its
/// metadata could not be read), is expanded, given the directories `visited`
/// before it and the depth bound `max_depth`.
pub open spec fn enters(visited: Set<DirId>, max_depth: u64, depth: u64, id: Option<DirId>) -> bool {
    match id {
        Some(k) => !visited.contains(k) && depth <= max_depth,
        None => false,
    }
}

/// The visited directories after one of identity `id` was met.
pub open spec fn record(visited: Set<DirId>, id: Option<DirId>) -> Set<DirId> {
    match id {
        Some(k) => visited.insert(k),
        None => visited,
    }
}

/// The state of one run.
pub struct Walker {
    /// The run's configuration.
    pub config: AppConfig,
    /// Paths still to visit; the last one is visited next.
    pub pending: Vec<Entry>,
    /// Directories already expanded.
    pub visited: VisitedSet,
    /// The blocks rendered so far.
    pub output: String,
}

impl Walker {
    /// The views of the pending entries.
    pub open spec fn pending_view(&self) -> Seq<(Seq<char>, u64)> {
        views(self.pending@)
    }

    /// A walker about to visit the paths of `config`, first to last, at
    /// depth 0, with nothing visited and nothing rendered.
    pub fn new(config: AppConfig) -> (r: Walker)
        ensures
            r.config == config,
            r.pending_view() == stacked(config.paths@, 0),
            r.visited@ == Set::<DirId>::empty(),
            r.output@ == Seq::<char>::empty(),
    {
        let mut pending: Vec<Entry> = Vec::new();
        let n = config.paths.len();
        let mut i: usize = n;
        while i > 0
            invariant
                i <= n,
                n == config.paths.len(),
                views(pending@) =~= stacked(config.paths@, 0).take(n - i),
            decreases i,
        {
            i = i - 1;
            let ghost prev = views(pending@);
            let path = config.paths[i].clone();
            pending.push(Entry { path, depth: 0 });
            assert(views(pending@) =~= prev.push((config.paths@[i as int]@, 0u64)));
            assert(stacked(config.paths@, 0).take(n - i) =~= stacked(config.paths@, 0).take(n - i - 1).push(
                (config.paths@[i as int]@, 0u64),
            ));
        }
        Walker { config, pending, visited: VisitedSet::new(), output: String::new() }
    }

    /// Takes the next entry to visit, if any is left.
    pub fn next_entry(&mut self) -> (r: Option<Entry>)
        ensures
            old(self).pending@.len() == 0 ==> r is None && final(self).pending_view() == old(
                self,
            ).pending_view(),
            old(self).pending@.len() > 0 ==> (r matches Some(e) && e@ == old(self).pending_view().last()
                && final(self).pending_view() == old(self).pending_view().drop_last()),
            final(self).config == old(self).config,
            final(self).visited@ == old(self).visited@,
            final(self).output@ == old(self).output@,
    {
        let r = self.pending.pop();
        proof {
            if old(self).pending@.len() > 0 {
                assert(self.pending_view() =~= old(self).pending_view().drop_last());
            }
        }
        r
    }

    /// What to do with `path`, of kind `kind`.
    pub fn classify(&self, path: &str, kind: PathKind) -> (r: Verdict)
        ensures
            r == verdict(self.config, path@, kind, ignored(self.config.ignore@, path@)),
    {
        classify(&self.config, path, kind)
    }

    /// Renders the file at `path`, whose contents are `contents`, into the output.
    pub fn add_file(&mut self, path: &str, contents: String)
        ensures
            final(self).output@ == old(self).output@ + block(
                path@,
                contents@,
                old(self).config.line_numbers,
                old(self).config.markdown,
            ),
            final(self).config == old(self).config,
            final(self).pending_view() == old(self).pending_view(),
            final(self).visited@ == old(self).visited@,
    {
        let line_numbers = self.config.line_numbers;
        let markdown = self.config.markdown;
        store_block(&mut self.output, path, contents, line_numbers, markdown);
    }

    /// Meets a directory at depth `depth` whose identity is `id` (`None` when
    /// its metadata could not be read); true when it is to be expanded: its
    /// identity is known and new, and its depth within the bound.
    pub fn enter_dir(&mut self, depth: u64, id: Option<DirId>) -> (r: bool)
        ensures
            r == enters(old(self).visited@, old(self).config.depth, depth, id),
            final(self).visited@ == record(old(self).visited@, id),
            final(self).config == old(self).config,
            final(self).pending_view() == old(self).pending_view(),
            final(self).output@ == old(self).output@,
    {
        match id {
            None => false,
            Some(key) => {
                let fresh = self.visited.try_enter(key);
                fresh && depth <= self.config.depth
            },
        }
    }

    /// Queues the `children` of an expanded directory at depth `depth`, so
    /// that they are visited first to last, before what was pending.
    pub fn add_children(&mut self, depth: u64, children: Vec<String>)
        ensures
            final(self).pending_view() == old(self).pending_view() + stacked(
                children@,
                child_depth(depth),
            ),
            final(self).config == old(self).config,
            final(self).visited@ == old(self).visited@,
            final(self).output@ == old(self).output@,
    {
        let d = if depth < u64::MAX {
            depth + 1
        } else {
            depth
        };
        let ghost base = self.pending_view();
        let mut rest = children;
        let ghost all = children@;
        while rest.len() > 0
            invariant
                all.len() >= rest@.len(),
                rest@ == all.take(rest@.len() as int),
                d == child_depth(depth),
                self.pending_view() =~= base + stacked(all, d).take(all.len() - rest@.len()),
                self.config == old(self).config,
                self.visited@ == old(self).visited@,
                self.output@ == old(self).output@,
            decreases rest.len(),
        {
            let ghost before = rest@;
            let path = rest.pop().unwrap();
            assert(path == all[rest@.len() as int]);
            let ghost prev = self.pending_view();
            self.pending.push(Entry { path, depth: d });
            assert(rest@ =~= all.take(rest@.len() as int));
            assert(self.pending_view() =~= prev.push((all[rest@.len() as int]@, d)));
            assert(stacked(all, d).take(all.len() - rest@.len()) =~= stacked(all, d).take(
                all.len() - rest@.len() - 1,
            ).push((all[rest@.len() as int]@, d)));
        }
        assert(stacked(all, d).take(all.len() as int) =~= stacked(all, d));
    }
}

} // verus!
