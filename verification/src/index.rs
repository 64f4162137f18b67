//! The rules directories under watch, each with the project that owns it.

use vstd::prelude::*;
use crate::config::Config;
use crate::path::FsPath;

verus! {

/// A rules directory under watch and the root of the project that owns it.
#[derive(Debug, PartialEq, Eq)]
pub struct WatchEntry {
    /// The rules directory, in canonical form.
    pub rules_path: FsPath,
    /// The project root.
    pub project: FsPath,
}

/// The specification value of a [`WatchEntry`].
pub ghost struct WatchEntryView {
    pub rules_path: Seq<Seq<char>>,
    pub project: Seq<Seq<char>>,
}

impl View for WatchEntry {
    type V = WatchEntryView;

    open spec fn view(&self) -> WatchEntryView {
        WatchEntryView { rules_path: self.rules_path@, project: self.project@ }
    }
}

impl DeepView for WatchEntry {
    type V = WatchEntryView;

    open spec fn deep_view(&self) -> WatchEntryView {
        self.view()
    }
}

/// Whether `path` lies in the rules directory of `entry`, at any depth.
pub open spec fn owns(entry: WatchEntryView, path: Seq<Seq<char>>) -> bool {
    entry.rules_path.is_prefix_of(path)
}

/// Whether `i` is the position of the first entry of `index` that owns `path`.
pub open spec fn is_owner_at(index: Seq<WatchEntryView>, path: Seq<Seq<char>>, i: int) -> bool {
    &&& 0 <= i < index.len()
    &&& owns(index[i], path)
    &&& forall|j: int| 0 <= j < i ==> !owns(#[trigger] index[j], path)
}

/// The first entry of `index` that owns `path`, if any does.
pub open spec fn owner_of(index: Seq<WatchEntryView>, path: Seq<Seq<char>>) -> Option<
    WatchEntryView,
>
    decreases index.len(),
{
    if index.len() == 0 {
        None
    } else if owns(index[0], path) {
        Some(index[0])
    } else {
        owner_of(index.subrange(1, index.len() as int), path)
    }
}

/// [`owner_of`] is the entry at the first owning position, and nothing where
/// no entry owns the path.
pub proof fn lemma_owner_of(index: Seq<WatchEntryView>, path: Seq<Seq<char>>)
    ensures
        forall|i: int| is_owner_at(index, path, i) ==> owner_of(index, path) == Some(index[i]),
        (forall|j: int| 0 <= j < index.len() ==> !owns(#[trigger] index[j], path)) ==> owner_of(
            index,
            path,
        ) is None,
        owner_of(index, path) is Some ==> exists|i: int| is_owner_at(index, path, i),
    decreases index.len(),
{
    if index.len() == 0 {
    } else if owns(index[0], path) {
        assert(is_owner_at(index, path, 0));
        assert forall|i: int| is_owner_at(index, path, i) implies i == 0 by {
            if i > 0 {
                assert(!owns(index[0], path));
            }
        }
    } else {
        let rest = index.subrange(1, index.len() as int);
        lemma_owner_of(rest, path);
        assert forall|i: int| is_owner_at(index, path, i) implies owner_of(index, path) == Some(
            index[i],
        ) by {
            assert(i > 0);
            assert(rest[i - 1] == index[i]);
            assert forall|j: int| 0 <= j < i - 1 implies !owns(#[trigger] rest[j], path) by {
                assert(rest[j] == index[j + 1]);
            }
            assert(is_owner_at(rest, path, i - 1));
        }
        if forall|j: int| 0 <= j < index.len() ==> !owns(#[trigger] index[j], path) {
            assert forall|j: int| 0 <= j < rest.len() implies !owns(#[trigger] rest[j], path) by {
                assert(rest[j] == index[j + 1]);
            }
        }
        if owner_of(index, path) is Some {
            let i = choose|i: int| is_owner_at(rest, path, i);
            assert(rest[i] == index[i + 1]);
            assert forall|j: int| 0 <= j < i + 1 implies !owns(#[trigger] index[j], path) by {
                if j > 0 {
                    assert(rest[j - 1] == index[j]);
                }
            }
            assert(is_owner_at(index, path, i + 1));
        }
    }
}

/// The entries whose project is one of `projects`.
pub open spec fn owned_by(projects: Set<Seq<Seq<char>>>) -> spec_fn(WatchEntryView) -> bool {
    |entry: WatchEntryView| projects.contains(entry.project)
}

/// Whether no two entries of `index` have the same rules directory.
pub open spec fn distinct_rules_paths(index: Seq<WatchEntryView>) -> bool {
    forall|i: int, j: int|
        0 <= i < j < index.len() ==> (#[trigger] index[i]).rules_path != (
        #[trigger] index[j]).rules_path
}

/// The rules directories under watch, in the order in which they were first
/// registered. Built by [`RulesPathIndex::insert`] alone, it never holds a
/// rules directory twice.
#[derive(Debug)]
pub struct RulesPathIndex {
    entries: Vec<WatchEntry>,
}

impl View for RulesPathIndex {
    type V = Seq<WatchEntryView>;

    closed spec fn view(&self) -> Seq<WatchEntryView> {
        self.entries.deep_view()
    }
}

impl RulesPathIndex {
    /// The index with no entry.
    pub fn new() -> (index: RulesPathIndex)
        ensures
            index@ == Seq::<WatchEntryView>::empty(),
    {
        let entries: Vec<WatchEntry> = Vec::new();
        assert(entries.deep_view() =~= Seq::<WatchEntryView>::empty());
        RulesPathIndex { entries }
    }

    /// The number of rules directories under watch.
    pub fn len(&self) -> (n: usize)
        ensures
            n == self@.len(),
    {
        self.entries.len()
    }

    /// Whether nothing is under watch.
    pub fn is_empty(&self) -> (r: bool)
        ensures
            r == (self@.len() == 0),
    {
        self.entries.len() == 0
    }

    /// The entry at position `i`.
    pub fn get(&self, i: usize) -> (entry: &WatchEntry)
        requires
            i < self@.len(),
        ensures
            entry@ == self@[i as int],
    {
        &self.entries[i]
    }

    /// The position of the entry whose rules directory is `rules_path`.
    pub fn position(&self, rules_path: &FsPath) -> (r: Option<usize>)
        ensures
            match r {
                Some(i) => i < self@.len() && self@[i as int].rules_path == rules_path@,
                None => forall|j: int|
                    0 <= j < self@.len() ==> (#[trigger] self@[j]).rules_path != rules_path@,
            },
    {
        let mut i: usize = 0;
        while i < self.entries.len()
            invariant
                i <= self.entries.len(),
                forall|j: int| 0 <= j < i ==> (#[trigger] self@[j]).rules_path != rules_path@,
            decreases self.entries.len() - i,
        {
            if self.entries[i].rules_path.same_as(rules_path) {
                return Some(i);
            }
            i += 1;
        }
        None
    }

    /// The position of the first entry that owns `path`.
    pub fn find_owner(&self, path: &FsPath) -> (r: Option<usize>)
        ensures
            match r {
                Some(i) => is_owner_at(self@, path@, i as int) && owner_of(self@, path@) == Some(
                    self@[i as int],
                ),
                None => owner_of(self@, path@) is None,
            },
    {
        let mut i: usize = 0;
        while i < self.entries.len()
            invariant
                i <= self.entries.len(),
                forall|j: int| 0 <= j < i ==> !owns(#[trigger] self@[j], path@),
            decreases self.entries.len() - i,
        {
            if path.starts_with(&self.entries[i].rules_path) {
                proof {
                    assert(owns(self@[i as int], path@));
                    assert(is_owner_at(self@, path@, i as int));
                    lemma_owner_of(self@, path@);
                }
                return Some(i);
            }
            assert(!owns(self@[i as int], path@));
            i += 1;
        }
        proof {
            lemma_owner_of(self@, path@);
        }
        None
    }

    /// Registers `rules_path` as the rules directory of `project`. A rules
    /// directory that is already registered gets `project` as its owner and
    /// keeps its position; a new one goes to the end.
    pub fn insert(&mut self, rules_path: FsPath, project: FsPath)
        ensures
            ({
                let entry = WatchEntryView { rules_path: rules_path@, project: project@ };
                if exists|i: int|
                    0 <= i < old(self)@.len() && (#[trigger] old(self)@[i]).rules_path
                        == rules_path@ {
                    exists|i: int|
                        0 <= i < old(self)@.len() && (#[trigger] old(self)@[i]).rules_path
                            == rules_path@ && final(self)@ == old(self)@.update(i, entry)
                } else {
                    final(self)@ == old(self)@.push(entry)
                }
            }),
            distinct_rules_paths(old(self)@) ==> distinct_rules_paths(final(self)@),
    {
        let ghost before = self@;
        let ghost entry = WatchEntryView { rules_path: rules_path@, project: project@ };
        match self.position(&rules_path) {
            Some(i) => {
                self.entries[i] = WatchEntry { rules_path, project };
                assert(self.entries.deep_view() =~= before.update(i as int, entry));
                assert(before[i as int].rules_path == entry.rules_path);
            },
            None => {
                self.entries.push(WatchEntry { rules_path, project });
                assert(self.entries.deep_view() =~= before.push(entry));
            },
        }
    }

    /// Keeps the entries whose project `config` watches, in their order, and
    /// drops the others.
    pub fn retain_watched(&mut self, config: &Config)
        ensures
            final(self)@ == old(self)@.filter(owned_by(config@)),
            distinct_rules_paths(old(self)@) ==> distinct_rules_paths(final(self)@),
    {
        let ghost before = self@;
        let ghost keep = owned_by(config@);
        let mut kept: Vec<WatchEntry> = Vec::new();
        let mut i: usize = 0;
        let n = self.entries.len();
        assert(kept.deep_view() =~= before.subrange(0, 0).filter(keep));
        while i < n
            invariant
                i <= n,
                n == self.entries.len(),
                before == self.entries.deep_view(),
                kept.deep_view() == before.subrange(0, i as int).filter(keep),
                keep == owned_by(config@),
            decreases n - i,
        {
            let ghost prefix = before.subrange(0, i as int);
            let ghost next = before.subrange(0, i + 1);
            proof {
                assert(next.drop_last() =~= prefix);
                assert(next.last() == before[i as int]);
                reveal(Seq::filter);
            }
            if config.contains_directory(&self.entries[i].project) {
                let ghost kept_before = kept.deep_view();
                kept.push(
                    WatchEntry {
                        rules_path: self.entries[i].rules_path.clone(),
                        project: self.entries[i].project.clone(),
                    },
                );
                assert(kept.deep_view() =~= kept_before.push(before[i as int]));
            }
            i += 1;
        }
        assert(before.subrange(0, n as int) =~= before);
        proof {
            if distinct_rules_paths(before) {
                lemma_filter_keeps_distinct(before, keep);
            }
        }
        self.entries = kept;
    }

    /// Drops every entry that `project` owns, and says how many there were.
    pub fn remove_project(&mut self, project: &FsPath) -> (removed: usize)
        ensures
            final(self)@ == old(self)@.filter(|e: WatchEntryView| e.project != project@),
            removed == old(self)@.len() - final(self)@.len(),
            distinct_rules_paths(old(self)@) ==> distinct_rules_paths(final(self)@),
    {
        let ghost before = self@;
        let ghost keep = |e: WatchEntryView| e.project != project@;
        let mut kept: Vec<WatchEntry> = Vec::new();
        let mut removed: usize = 0;
        let mut i: usize = 0;
        let n = self.entries.len();
        assert(kept.deep_view() =~= before.subrange(0, 0).filter(keep));
        while i < n
            invariant
                i <= n,
                n == self.entries.len(),
                before == self.entries.deep_view(),
                kept.deep_view() == before.subrange(0, i as int).filter(keep),
                removed + kept.len() == i,
                keep == |e: WatchEntryView| e.project != project@,
            decreases n - i,
        {
            let ghost prefix = before.subrange(0, i as int);
            let ghost next = before.subrange(0, i + 1);
            proof {
                assert(next.drop_last() =~= prefix);
                assert(next.last() == before[i as int]);
                reveal(Seq::filter);
            }
            if self.entries[i].project.same_as(project) {
                removed += 1;
            } else {
                let ghost kept_before = kept.deep_view();
                kept.push(
                    WatchEntry {
                        rules_path: self.entries[i].rules_path.clone(),
                        project: self.entries[i].project.clone(),
                    },
                );
                assert(kept.deep_view() =~= kept_before.push(before[i as int]));
            }
            i += 1;
        }
        assert(before.subrange(0, n as int) =~= before);
        proof {
            if distinct_rules_paths(before) {
                lemma_filter_keeps_distinct(before, keep);
            }
        }
        self.entries = kept;
        removed
    }
}

/// Dropping entries from an index without repeated rules directories leaves none repeated.
pub proof fn lemma_filter_keeps_distinct(
    index: Seq<WatchEntryView>,
    keep: spec_fn(WatchEntryView) -> bool,
)
    requires
        distinct_rules_paths(index),
    ensures
        distinct_rules_paths(index.filter(keep)),
    decreases index.len(),
{
    reveal(Seq::filter);
    if index.len() > 0 {
        let rest = index.drop_last();
        lemma_filter_keeps_distinct(rest, keep);
        let kept = rest.filter(keep);
        if keep(index.last()) {
            assert(index.filter(keep) =~= kept.push(index.last()));
            assert forall|i: int, j: int| 0 <= i < j < kept.len() + 1 implies (
            #[trigger] kept.push(index.last())[i]).rules_path != (#[trigger] kept.push(
                index.last(),
            )[j]).rules_path by {
                if j == kept.len() {
                    rest.lemma_filter_contains_rev(keep, kept[i]);
                    let k = choose|k: int| 0 <= k < rest.len() && rest[k] == kept[i];
                    assert(index[k] == rest[k]);
                    assert(index[index.len() - 1] == index.last());
                }
            }
        } else {
            assert(index.filter(keep) =~= kept);
        }
    }
}

} // verus!
