//! What the plans of the mirror engine do to the links, proved over a model:
//! the links that exist are a map from the path of each to the path it points to.

use vstd::prelude::*;
use crate::action::{apply, apply_all, lemma_apply_all_concat, Action};
use crate::constants::{CURSOR_DIR, RULES_DIR, WINDSURF_DIR};
use crate::event::{effect_of, Effect, EventKind, ModifyKind, ObservedPathView, RenameMode};
use crate::index::{owner_of, WatchEntryView};
use crate::mirror::{
    clear_plan, clear_plan_opt, cursor_rules_dir_of, entries_plan, entry_plan, event_plan,
    link_pair, path_plan, removal_plan, rules_dir_of, sync_plan, unlink_pair,
    windsurf_rules_dir_of,
    DirEntryView,
};
use crate::path::{file_name_of, is_normal};

verus! {

/// The names of the entries of the directory `dir`, as the links show them.
pub open spec fn mirror_names(links: Map<Seq<Seq<char>>, Seq<Seq<char>>>, dir: Seq<Seq<char>>) -> Set<
    Seq<char>,
> {
    Set::new(|name: Seq<char>| links.contains_key(dir.push(name)))
}

/// Whether the directory `dir` mirrors the files `files` of the rules
/// directory `rules`: it has an entry of a name exactly when `files` has the
/// name, and the entry links to the file of that name.
pub open spec fn mirrors(
    links: Map<Seq<Seq<char>>, Seq<Seq<char>>>,
    dir: Seq<Seq<char>>,
    rules: Seq<Seq<char>>,
    files: Set<Seq<char>>,
) -> bool {
    forall|name: Seq<char>|
        {
            &&& links.contains_key(#[trigger] dir.push(name)) <==> files.contains(name)
            &&& files.contains(name) ==> links[dir.push(name)] == rules.push(name)
        }
}

/// Whether both mirrors of the project that `entry` describes mirror `files`.
pub open spec fn in_sync(
    links: Map<Seq<Seq<char>>, Seq<Seq<char>>>,
    entry: WatchEntryView,
    files: Set<Seq<char>>,
) -> bool {
    &&& mirrors(links, cursor_rules_dir_of(entry.project), entry.rules_path, files)
    &&& mirrors(links, windsurf_rules_dir_of(entry.project), entry.rules_path, files)
}

/// Whether some entry of `entries` is a regular file of the name `name`.
pub open spec fn lists_file(entries: Seq<DirEntryView>, name: Seq<char>) -> bool {
    exists|i: int| 0 <= i < entries.len() && (#[trigger] entries[i]).is_file && entries[i].name == name
}

/// Whether `key` is the path, in one of the two mirrors, of a regular file of `entries`.
pub open spec fn linked_by(
    entries: Seq<DirEntryView>,
    cursor: Seq<Seq<char>>,
    windsurf: Seq<Seq<char>>,
    key: Seq<Seq<char>>,
) -> bool {
    &&& key.len() > 0
    &&& lists_file(entries, key.last())
    &&& key.drop_last() == cursor || key.drop_last() == windsurf
}

/// Whether `key` is the path, in `dir`, of a regular file of `entries`.
pub open spec fn cleared_by(entries: Seq<DirEntryView>, dir: Seq<Seq<char>>, key: Seq<Seq<char>>) -> bool {
    &&& key.len() > 0
    &&& lists_file(entries, key.last())
    &&& key.drop_last() == dir
}

/// The names of the regular files of `entries`.
pub open spec fn listed_files(entries: Seq<DirEntryView>) -> Set<Seq<char>> {
    Set::new(|name: Seq<char>| lists_file(entries, name))
}

/// A path determines its parent directory and its final component.
pub proof fn lemma_push_injective(a: Seq<Seq<char>>, x: Seq<char>, b: Seq<Seq<char>>, y: Seq<char>)
    ensures
        a.push(x) == b.push(y) <==> a == b && x == y,
{
    if a.push(x) == b.push(y) {
        assert(a.push(x).last() == x);
        assert(b.push(y).last() == y);
        assert(a.push(x).drop_last() =~= a);
        assert(b.push(y).drop_last() =~= b);
    }
}

/// The two mirrors of a project are different directories.
pub proof fn lemma_mirrors_differ(project: Seq<Seq<char>>)
    ensures
        cursor_rules_dir_of(project) != windsurf_rules_dir_of(project),
{
    reveal_strlit(".cursor");
    reveal_strlit(".windsurf");
    let c = cursor_rules_dir_of(project);
    let w = windsurf_rules_dir_of(project);
    assert(c[project.len() as int] == CURSOR_DIR@);
    assert(w[project.len() as int] == WINDSURF_DIR@);
    assert(CURSOR_DIR@.len() != WINDSURF_DIR@.len());
}

/// The links after a mirror is made to mirror one more file, or the same file again.
pub proof fn lemma_link_pair(
    links: Map<Seq<Seq<char>>, Seq<Seq<char>>>,
    source: Seq<Seq<char>>,
    name: Seq<char>,
    cursor: Seq<Seq<char>>,
    windsurf: Seq<Seq<char>>,
)
    ensures
        apply_all(links, link_pair(source, name, cursor, windsurf)) == links.insert(
            cursor.push(name),
            source,
        ).insert(windsurf.push(name), source),
{
    let pair = link_pair(source, name, cursor, windsurf);
    assert(pair.drop_last() =~= seq![pair[0]]);
    assert(pair.drop_last().drop_last() =~= Seq::<Action>::empty());
    assert(pair.drop_last().last() == pair[0]);
    assert(pair.last() == pair[1]);
    assert(apply_all(links, pair.drop_last().drop_last()) == links);
    assert(apply_all(links, pair.drop_last()) == apply(links, pair[0]));
}

/// The links after a name is removed from both mirrors.
pub proof fn lemma_unlink_pair(
    links: Map<Seq<Seq<char>>, Seq<Seq<char>>>,
    name: Seq<char>,
    cursor: Seq<Seq<char>>,
    windsurf: Seq<Seq<char>>,
)
    ensures
        apply_all(links, unlink_pair(name, cursor, windsurf)) == links.remove(
            cursor.push(name),
        ).remove(windsurf.push(name)),
{
    let pair = unlink_pair(name, cursor, windsurf);
    assert(pair.drop_last() =~= seq![pair[0]]);
    assert(pair.drop_last().drop_last() =~= Seq::<Action>::empty());
    assert(pair.drop_last().last() == pair[0]);
    assert(pair.last() == pair[1]);
    assert(apply_all(links, pair.drop_last().drop_last()) == links);
    assert(apply_all(links, pair.drop_last()) == apply(links, pair[0]));
}

/// What the entries of a full resync do to the links: the path of a listed
/// regular file in either mirror links to that file, and every other link is
/// as it was.
pub proof fn lemma_entries_plan_links(
    links: Map<Seq<Seq<char>>, Seq<Seq<char>>>,
    rules: Seq<Seq<char>>,
    cursor: Seq<Seq<char>>,
    windsurf: Seq<Seq<char>>,
    entries: Seq<DirEntryView>,
)
    ensures
        ({
            let after = apply_all(links, entries_plan(rules, cursor, windsurf, entries));
            forall|key: Seq<Seq<char>>|
                #![trigger after.contains_key(key)]
                #![trigger after[key]]
                if linked_by(entries, cursor, windsurf, key) {
                    after.contains_key(key) && after[key] == rules.push(key.last())
                } else {
                    after.contains_key(key) == links.contains_key(key) && (links.contains_key(key)
                        ==> after[key] == links[key])
                }
        }),
    decreases entries.len(),
{
    if entries.len() == 0 {
        assert(entries_plan(rules, cursor, windsurf, entries) =~= Seq::<Action>::empty());
        assert forall|key: Seq<Seq<char>>| !linked_by(entries, cursor, windsurf, key) by {}
    } else {
        let rest = entries.drop_last();
        let last = entries.last();
        let before = apply_all(links, entries_plan(rules, cursor, windsurf, rest));
        let step = entry_plan(rules, cursor, windsurf, last);
        lemma_entries_plan_links(links, rules, cursor, windsurf, rest);
        lemma_apply_all_concat(links, entries_plan(rules, cursor, windsurf, rest), step);
        let after = apply_all(links, entries_plan(rules, cursor, windsurf, entries));
        assert(after == apply_all(before, step));
        if last.is_file {
            lemma_link_pair(before, rules.push(last.name), last.name, cursor, windsurf);
        } else {
            assert(apply_all(before, step) == before);
        }
        assert forall|key: Seq<Seq<char>>|
            #![trigger after.contains_key(key)]
            #![trigger after[key]]
            if linked_by(entries, cursor, windsurf, key) {
                after.contains_key(key) && after[key] == rules.push(key.last())
            } else {
                after.contains_key(key) == links.contains_key(key) && (links.contains_key(key)
                    ==> after[key] == links[key])
            } by {
            assert(before.contains_key(key) || !before.contains_key(key));
            assert(linked_by(rest, cursor, windsurf, key) ==> before[key] == rules.push(key.last()));
            if key.len() > 0 {
                assert(key.drop_last().push(key.last()) =~= key);
                lemma_push_injective(key.drop_last(), key.last(), cursor, last.name);
                lemma_push_injective(key.drop_last(), key.last(), windsurf, last.name);
                if lists_file(entries, key.last()) {
                    let i = choose|i: int|
                        0 <= i < entries.len() && (#[trigger] entries[i]).is_file
                            && entries[i].name == key.last();
                    if i < rest.len() {
                        assert(rest[i] == entries[i]);
                        assert(lists_file(rest, key.last()));
                    }
                }
                if lists_file(rest, key.last()) {
                    let i = choose|i: int|
                        0 <= i < rest.len() && (#[trigger] rest[i]).is_file && rest[i].name
                            == key.last();
                    assert(entries[i] == rest[i]);
                    assert(lists_file(entries, key.last()));
                }
                if last.is_file && last.name == key.last() {
                    assert(entries[entries.len() - 1] == last);
                    assert(lists_file(entries, key.last()));
                }
            } else {
                assert(cursor.push(last.name).len() > 0);
                assert(windsurf.push(last.name).len() > 0);
            }
        }
    }
}

/// A second full resync of an unchanged rules directory changes no link.
pub proof fn lemma_sync_idempotent(
    links: Map<Seq<Seq<char>>, Seq<Seq<char>>>,
    rules: Seq<Seq<char>>,
    cursor: Seq<Seq<char>>,
    windsurf: Seq<Seq<char>>,
    entries: Seq<DirEntryView>,
)
    ensures
        ({
            let plan = sync_plan(rules, cursor, windsurf, entries);
            let once = apply_all(links, plan);
            let twice = apply_all(once, plan);
            &&& twice == once
            &&& mirror_names(twice, cursor) == mirror_names(once, cursor)
            &&& mirror_names(twice, windsurf) == mirror_names(once, windsurf)
        }),
{
    let plan = sync_plan(rules, cursor, windsurf, entries);
    let once = apply_all(links, plan);
    let twice = apply_all(once, plan);
    lemma_sync_plan_links(links, rules, cursor, windsurf, entries);
    lemma_sync_plan_links(once, rules, cursor, windsurf, entries);
    assert forall|key: Seq<Seq<char>>| twice.contains_key(key) == once.contains_key(key) && (
    once.contains_key(key) ==> twice[key] == once[key]) by {
        assert(once.contains_key(key) || !once.contains_key(key));
    }
    assert(twice =~= once);
}

/// What a full resync does to the links: the path of a listed regular file in
/// either mirror links to that file, and every other link is as it was.
pub proof fn lemma_sync_plan_links(
    links: Map<Seq<Seq<char>>, Seq<Seq<char>>>,
    rules: Seq<Seq<char>>,
    cursor: Seq<Seq<char>>,
    windsurf: Seq<Seq<char>>,
    entries: Seq<DirEntryView>,
)
    ensures
        ({
            let after = apply_all(links, sync_plan(rules, cursor, windsurf, entries));
            &&& after == apply_all(links, entries_plan(rules, cursor, windsurf, entries))
            &&& forall|key: Seq<Seq<char>>|
                #![trigger after.contains_key(key)]
                #![trigger after[key]]
                if linked_by(entries, cursor, windsurf, key) {
                    after.contains_key(key) && after[key] == rules.push(key.last())
                } else {
                    after.contains_key(key) == links.contains_key(key) && (links.contains_key(key)
                        ==> after[key] == links[key])
                }
        }),
{
    let head = seq![Action::CreateDirAll { path: cursor }, Action::CreateDirAll { path: windsurf }];
    assert(head.drop_last() =~= seq![head[0]]);
    assert(head.drop_last().drop_last() =~= Seq::<Action>::empty());
    assert(apply_all(links, head.drop_last().drop_last()) == links);
    assert(apply_all(links, head.drop_last()) == apply(links, head.drop_last().last()));
    assert(apply_all(links, head) == links);
    lemma_apply_all_concat(links, head, entries_plan(rules, cursor, windsurf, entries));
    lemma_entries_plan_links(links, rules, cursor, windsurf, entries);
}

/// After a full resync into mirrors that held nothing but entries of listed
/// files, both mirrors mirror the regular files of the rules directory.
pub proof fn lemma_sync_brings_in_sync(
    links: Map<Seq<Seq<char>>, Seq<Seq<char>>>,
    entry: WatchEntryView,
    entries: Seq<DirEntryView>,
)
    requires
        mirror_names(links, cursor_rules_dir_of(entry.project)).subset_of(listed_files(entries)),
        mirror_names(links, windsurf_rules_dir_of(entry.project)).subset_of(
            listed_files(entries),
        ),
    ensures
        ({
            let cursor = cursor_rules_dir_of(entry.project);
            let windsurf = windsurf_rules_dir_of(entry.project);
            let after = apply_all(links, sync_plan(entry.rules_path, cursor, windsurf, entries));
            &&& in_sync(after, entry, listed_files(entries))
            &&& mirror_names(after, cursor) == listed_files(entries)
            &&& mirror_names(after, windsurf) == listed_files(entries)
        }),
{
    let cursor = cursor_rules_dir_of(entry.project);
    let windsurf = windsurf_rules_dir_of(entry.project);
    let after = apply_all(links, sync_plan(entry.rules_path, cursor, windsurf, entries));
    let files = listed_files(entries);
    lemma_sync_plan_links(links, entry.rules_path, cursor, windsurf, entries);
    assert forall|name: Seq<char>|
        {
            &&& after.contains_key(#[trigger] cursor.push(name)) <==> files.contains(name)
            &&& files.contains(name) ==> after[cursor.push(name)] == entry.rules_path.push(name)
        } by {
        let key = cursor.push(name);
        assert(key.last() == name && key.drop_last() =~= cursor);
        assert(linked_by(entries, cursor, windsurf, key) == files.contains(name));
        assert(after.contains_key(key) || !after.contains_key(key));
        if !files.contains(name) && links.contains_key(key) {
            assert(mirror_names(links, cursor).contains(name));
        }
    }
    assert forall|name: Seq<char>|
        {
            &&& after.contains_key(#[trigger] windsurf.push(name)) <==> files.contains(name)
            &&& files.contains(name) ==> after[windsurf.push(name)] == entry.rules_path.push(name)
        } by {
        let key = windsurf.push(name);
        assert(key.last() == name && key.drop_last() =~= windsurf);
        assert(linked_by(entries, cursor, windsurf, key) == files.contains(name));
        assert(after.contains_key(key) || !after.contains_key(key));
        if !files.contains(name) && links.contains_key(key) {
            assert(mirror_names(links, windsurf).contains(name));
        }
    }
    lemma_in_sync_names(after, entry, files);
}

/// Mirrors that are in sync list exactly the files of the rules directory.
pub proof fn lemma_in_sync_names(
    links: Map<Seq<Seq<char>>, Seq<Seq<char>>>,
    entry: WatchEntryView,
    files: Set<Seq<char>>,
)
    requires
        in_sync(links, entry, files),
    ensures
        mirror_names(links, cursor_rules_dir_of(entry.project)) == files,
        mirror_names(links, windsurf_rules_dir_of(entry.project)) == files,
{
    let cursor = cursor_rules_dir_of(entry.project);
    let windsurf = windsurf_rules_dir_of(entry.project);
    assert forall|name: Seq<char>| mirror_names(links, cursor).contains(name) == files.contains(
        name,
    ) by {
        assert(links.contains_key(cursor.push(name)) <==> files.contains(name));
    }
    assert forall|name: Seq<char>| mirror_names(links, windsurf).contains(name) == files.contains(
        name,
    ) by {
        assert(links.contains_key(windsurf.push(name)) <==> files.contains(name));
    }
    assert(mirror_names(links, cursor) =~= files);
    assert(mirror_names(links, windsurf) =~= files);
}

/// Whether a notification of `kind` for the entry `name` of a rules directory
/// fits the change of its regular files from `before` to `after`: no other
/// name came or went; after a removal or a rename away the name is gone; and
/// where the notification is one that is ignored, the name is there after if
/// and only if it was before.
pub open spec fn reflects(
    kind: EventKind,
    name: Seq<char>,
    before: Set<Seq<char>>,
    after: Set<Seq<char>>,
) -> bool {
    &&& forall|other: Seq<char>| other != name ==> (after.contains(other) <==> before.contains(other))
    &&& effect_of(kind, after.contains(name)) == Effect::Unlink ==> !after.contains(name)
    &&& effect_of(kind, after.contains(name)) == Effect::Ignore ==> (after.contains(name)
        <==> before.contains(name))
}

/// The path that a notification names for the entry `name` of the rules
/// directory of `entry`, seen when the files of that directory are `files`.
pub open spec fn observed_entry(entry: WatchEntryView, name: Seq<char>, files: Set<Seq<char>>) -> ObservedPathView {
    ObservedPathView { path: entry.rules_path.push(name), is_file: files.contains(name) }
}

/// Handling a notification keeps the mirrors in sync: if both mirrors mirror
/// the files of a watched rules directory, one entry of that directory
/// changes, and the notification of the change is handled with the directory
/// as it then is, both mirrors mirror the files again.
pub proof fn lemma_event_keeps_in_sync(
    links: Map<Seq<Seq<char>>, Seq<Seq<char>>>,
    index: Seq<WatchEntryView>,
    entry: WatchEntryView,
    kind: EventKind,
    name: Seq<char>,
    before: Set<Seq<char>>,
    after: Set<Seq<char>>,
)
    requires
        is_normal(name),
        owner_of(index, entry.rules_path.push(name)) == Some(entry),
        in_sync(links, entry, before),
        reflects(kind, name, before, after),
    ensures
        in_sync(apply_all(links, path_plan(kind, observed_entry(entry, name, after), index)), entry, after),
        in_sync(
            apply_all(links, event_plan(kind, seq![observed_entry(entry, name, after)], index)),
            entry,
            after,
        ),
{
    let cursor = cursor_rules_dir_of(entry.project);
    let windsurf = windsurf_rules_dir_of(entry.project);
    let rules = entry.rules_path;
    let observed = observed_entry(entry, name, after);
    let plan = path_plan(kind, observed, index);
    let result = apply_all(links, plan);
    assert(observed.path.last() == name);
    assert(file_name_of(observed.path) == Some(name));
    lemma_mirrors_differ(entry.project);
    match effect_of(kind, observed.is_file) {
        Effect::Link => {
            assert(after.contains(name));
            lemma_link_pair(links, observed.path, name, cursor, windsurf);
        },
        Effect::Unlink => {
            lemma_unlink_pair(links, name, cursor, windsurf);
        },
        Effect::Ignore => {
            assert(plan =~= Seq::<Action>::empty());
        },
    }
    assert forall|other: Seq<char>|
        {
            &&& result.contains_key(#[trigger] cursor.push(other)) <==> after.contains(other)
            &&& after.contains(other) ==> result[cursor.push(other)] == rules.push(other)
        } by {
        lemma_push_injective(cursor, other, cursor, name);
        lemma_push_injective(cursor, other, windsurf, name);
        assert(links.contains_key(cursor.push(other)) <==> before.contains(other));
    }
    assert forall|other: Seq<char>|
        {
            &&& result.contains_key(#[trigger] windsurf.push(other)) <==> after.contains(other)
            &&& after.contains(other) ==> result[windsurf.push(other)] == rules.push(other)
        } by {
        lemma_push_injective(windsurf, other, cursor, name);
        lemma_push_injective(windsurf, other, windsurf, name);
        assert(links.contains_key(windsurf.push(other)) <==> before.contains(other));
    }
    let single = seq![observed];
    assert(single.drop_last() =~= Seq::<ObservedPathView>::empty());
    assert(single.last() == observed);
    assert(event_plan(kind, single.drop_last(), index) =~= Seq::<Action>::empty());
    assert(event_plan(kind, single, index) =~= plan);
}

/// One change of a rules directory: the notification it raises and the
/// regular files of the directory after it.
pub ghost struct Change {
    pub kind: EventKind,
    pub name: Seq<char>,
    pub files: Set<Seq<char>>,
}

/// The regular files of the rules directory after the first `n` of `changes`,
/// starting from `files`.
pub open spec fn files_after(files: Set<Seq<char>>, changes: Seq<Change>, n: int) -> Set<Seq<char>> {
    if n <= 0 {
        files
    } else {
        changes[n - 1].files
    }
}

/// Whether `changes` is a history of the rules directory of `entry` that
/// starts from the files `files`: each change names an entry of the directory
/// that `entry` owns, and its notification fits it.
pub open spec fn is_history(
    index: Seq<WatchEntryView>,
    entry: WatchEntryView,
    files: Set<Seq<char>>,
    changes: Seq<Change>,
) -> bool {
    forall|i: int|
        0 <= i < changes.len() ==> {
            &&& is_normal((#[trigger] changes[i]).name)
            &&& owner_of(index, entry.rules_path.push(changes[i].name)) == Some(entry)
            &&& reflects(
                changes[i].kind,
                changes[i].name,
                files_after(files, changes, i),
                changes[i].files,
            )
        }
}

/// The links after the notifications of `changes` are handled one by one, each
/// when its change has happened.
pub open spec fn replay(
    links: Map<Seq<Seq<char>>, Seq<Seq<char>>>,
    index: Seq<WatchEntryView>,
    entry: WatchEntryView,
    changes: Seq<Change>,
) -> Map<Seq<Seq<char>>, Seq<Seq<char>>>
    decreases changes.len(),
{
    if changes.len() == 0 {
        links
    } else {
        let last = changes.last();
        apply_all(
            replay(links, index, entry, changes.drop_last()),
            event_plan(last.kind, seq![observed_entry(entry, last.name, last.files)], index),
        )
    }
}

/// Convergence: after any finite history of changes to a watched rules
/// directory, each handled when it has happened, mirrors that were in sync
/// before are in sync again, so the names in both are the names of the
/// regular files of the rules directory.
pub proof fn lemma_convergence(
    links: Map<Seq<Seq<char>>, Seq<Seq<char>>>,
    index: Seq<WatchEntryView>,
    entry: WatchEntryView,
    files: Set<Seq<char>>,
    changes: Seq<Change>,
)
    requires
        in_sync(links, entry, files),
        is_history(index, entry, files, changes),
    ensures
        ({
            let after = replay(links, index, entry, changes);
            let last = files_after(files, changes, changes.len() as int);
            &&& in_sync(after, entry, last)
            &&& mirror_names(after, cursor_rules_dir_of(entry.project)) == last
            &&& mirror_names(after, windsurf_rules_dir_of(entry.project)) == last
        }),
    decreases changes.len(),
{
    if changes.len() > 0 {
        let rest = changes.drop_last();
        let last = changes.last();
        let n = rest.len() as int;
        assert forall|i: int| 0 <= i < rest.len() implies {
            &&& is_normal((#[trigger] rest[i]).name)
            &&& owner_of(index, entry.rules_path.push(rest[i].name)) == Some(entry)
            &&& reflects(rest[i].kind, rest[i].name, files_after(files, rest, i), rest[i].files)
        } by {
            assert(rest[i] == changes[i]);
            if i > 0 {
                assert(rest[i - 1] == changes[i - 1]);
            }
        }
        lemma_convergence(links, index, entry, files, rest);
        assert(changes[n] == last);
        if n > 0 {
            assert(rest[n - 1] == changes[n - 1]);
        }
        assert(files_after(files, rest, n) == files_after(files, changes, n));
        lemma_event_keeps_in_sync(
            replay(links, index, entry, rest),
            index,
            entry,
            last.kind,
            last.name,
            files_after(files, changes, n),
            last.files,
        );
    }
    lemma_in_sync_names(
        replay(links, index, entry, changes),
        entry,
        files_after(files, changes, changes.len() as int),
    );
}

/// A rename inside a watched rules directory, seen as the old name going and
/// the new name coming, leaves the new name mirrored in both mirrors and the
/// old name in neither.
pub proof fn lemma_rename_moves_links(
    links: Map<Seq<Seq<char>>, Seq<Seq<char>>>,
    index: Seq<WatchEntryView>,
    entry: WatchEntryView,
    files: Set<Seq<char>>,
    old_name: Seq<char>,
    new_name: Seq<char>,
)
    requires
        in_sync(links, entry, files),
        is_normal(old_name),
        is_normal(new_name),
        old_name != new_name,
        owner_of(index, entry.rules_path.push(old_name)) == Some(entry),
        owner_of(index, entry.rules_path.push(new_name)) == Some(entry),
    ensures
        ({
            let from = EventKind::Modify(ModifyKind::Name(RenameMode::From));
            let to = EventKind::Modify(ModifyKind::Name(RenameMode::To));
            let renamed = files.remove(old_name).insert(new_name);
            let gone = apply_all(
                links,
                event_plan(from, seq![observed_entry(entry, old_name, files.remove(old_name))], index),
            );
            let after = apply_all(
                gone,
                event_plan(to, seq![observed_entry(entry, new_name, renamed)], index),
            );
            let cursor = cursor_rules_dir_of(entry.project);
            let windsurf = windsurf_rules_dir_of(entry.project);
            &&& in_sync(after, entry, renamed)
            &&& after.contains_key(cursor.push(new_name))
            &&& after.contains_key(windsurf.push(new_name))
            &&& after[cursor.push(new_name)] == entry.rules_path.push(new_name)
            &&& after[windsurf.push(new_name)] == entry.rules_path.push(new_name)
            &&& !after.contains_key(cursor.push(old_name))
            &&& !after.contains_key(windsurf.push(old_name))
        }),
{
    let from = EventKind::Modify(ModifyKind::Name(RenameMode::From));
    let to = EventKind::Modify(ModifyKind::Name(RenameMode::To));
    let without = files.remove(old_name);
    let renamed = without.insert(new_name);
    lemma_event_keeps_in_sync(links, index, entry, from, old_name, files, without);
    let gone = apply_all(
        links,
        event_plan(from, seq![observed_entry(entry, old_name, without)], index),
    );
    lemma_event_keeps_in_sync(gone, index, entry, to, new_name, without, renamed);
    let after = apply_all(gone, event_plan(to, seq![observed_entry(entry, new_name, renamed)], index));
    let cursor = cursor_rules_dir_of(entry.project);
    let windsurf = windsurf_rules_dir_of(entry.project);
    assert(after.contains_key(cursor.push(new_name)) <==> renamed.contains(new_name));
    assert(after.contains_key(windsurf.push(new_name)) <==> renamed.contains(new_name));
    assert(after.contains_key(cursor.push(old_name)) <==> renamed.contains(old_name));
    assert(after.contains_key(windsurf.push(old_name)) <==> renamed.contains(old_name));
}

/// What clearing a directory does to the links: the path of every listed
/// regular file is gone from it, and every other link is as it was.
pub proof fn lemma_clear_plan_links(
    links: Map<Seq<Seq<char>>, Seq<Seq<char>>>,
    dir: Seq<Seq<char>>,
    entries: Seq<DirEntryView>,
)
    ensures
        ({
            let after = apply_all(links, clear_plan(dir, entries));
            forall|key: Seq<Seq<char>>|
                #![trigger after.contains_key(key)]
                #![trigger after[key]]
                if cleared_by(entries, dir, key) {
                    !after.contains_key(key)
                } else {
                    after.contains_key(key) == links.contains_key(key) && (links.contains_key(key)
                        ==> after[key] == links[key])
                }
        }),
    decreases entries.len(),
{
    if entries.len() == 0 {
        assert(clear_plan(dir, entries) =~= Seq::<Action>::empty());
        assert forall|key: Seq<Seq<char>>| !cleared_by(entries, dir, key) by {}
    } else {
        let rest = entries.drop_last();
        let last = entries.last();
        lemma_clear_plan_links(links, dir, rest);
        let before = apply_all(links, clear_plan(dir, rest));
        let after = apply_all(links, clear_plan(dir, entries));
        if last.is_file {
            let plan = clear_plan(dir, rest).push(Action::Remove { target: dir.push(last.name) });
            assert(plan.drop_last() =~= clear_plan(dir, rest));
            assert(after == before.remove(dir.push(last.name)));
        } else {
            assert(after == before);
        }
        assert forall|key: Seq<Seq<char>>|
            #![trigger after.contains_key(key)]
            #![trigger after[key]]
            if cleared_by(entries, dir, key) {
                !after.contains_key(key)
            } else {
                after.contains_key(key) == links.contains_key(key) && (links.contains_key(key)
                    ==> after[key] == links[key])
            } by {
            assert(before.contains_key(key) || !before.contains_key(key));
            if key.len() > 0 {
                assert(key.drop_last().push(key.last()) =~= key);
                lemma_push_injective(key.drop_last(), key.last(), dir, last.name);
                if lists_file(entries, key.last()) {
                    let i = choose|i: int|
                        0 <= i < entries.len() && (#[trigger] entries[i]).is_file
                            && entries[i].name == key.last();
                    if i < rest.len() {
                        assert(rest[i] == entries[i]);
                        assert(lists_file(rest, key.last()));
                    }
                }
                if lists_file(rest, key.last()) {
                    let i = choose|i: int|
                        0 <= i < rest.len() && (#[trigger] rest[i]).is_file && rest[i].name
                            == key.last();
                    assert(entries[i] == rest[i]);
                    assert(lists_file(entries, key.last()));
                }
                if last.is_file && last.name == key.last() {
                    assert(entries[entries.len() - 1] == last);
                    assert(lists_file(entries, key.last()));
                }
            } else {
                assert(dir.push(last.name).len() > 0);
            }
        }
    }
}

/// Whether `action` removes an entry directly inside the directory `dir`.
pub open spec fn removes_in(action: Action, dir: Seq<Seq<char>>) -> bool {
    match action {
        Action::Remove { target } => target.len() > 0 && target.drop_last() == dir,
        _ => false,
    }
}

/// Whether `action` makes, links or removes the directory `dir` or something in it.
pub open spec fn touches(action: Action, dir: Seq<Seq<char>>) -> bool {
    match action {
        Action::CreateDirAll { path } => dir.is_prefix_of(path),
        Action::Link { source, target } => dir.is_prefix_of(target),
        Action::Remove { target } => dir.is_prefix_of(target),
    }
}

/// Every request of the clearing of a directory removes an entry directly
/// inside that directory.
pub proof fn lemma_clear_plan_targets(dir: Seq<Seq<char>>, entries: Seq<DirEntryView>)
    ensures
        forall|i: int|
            0 <= i < clear_plan(dir, entries).len() ==> removes_in(
                #[trigger] clear_plan(dir, entries)[i],
                dir,
            ),
    decreases entries.len(),
{
    if entries.len() > 0 {
        lemma_clear_plan_targets(dir, entries.drop_last());
        let rest = clear_plan(dir, entries.drop_last());
        let plan = clear_plan(dir, entries);
        assert forall|i: int| 0 <= i < plan.len() implies removes_in(#[trigger] plan[i], dir) by {
            if i < rest.len() {
                assert(plan[i] == rest[i]);
            } else {
                assert(dir.push(entries.last().name).drop_last() =~= dir);
            }
        }
    }
}

/// Taking a project out of the watch leaves its rules directory alone: every
/// request removes an entry directly inside one of the two mirrors, and none
/// touches the rules directory or anything in it.
pub proof fn lemma_removal_spares_rules(
    project: Seq<Seq<char>>,
    cursor_entries: Option<Seq<DirEntryView>>,
    windsurf_entries: Option<Seq<DirEntryView>>,
)
    ensures
        forall|i: int|
            0 <= i < removal_plan(project, cursor_entries, windsurf_entries).len() ==> {
                let action = #[trigger] removal_plan(project, cursor_entries, windsurf_entries)[i];
                &&& removes_in(action, cursor_rules_dir_of(project)) || removes_in(
                    action,
                    windsurf_rules_dir_of(project),
                )
                &&& !touches(action, rules_dir_of(project))
            },
{
    reveal_strlit(".rules");
    reveal_strlit(".cursor");
    reveal_strlit(".windsurf");
    let cursor = cursor_rules_dir_of(project);
    let windsurf = windsurf_rules_dir_of(project);
    let rules = rules_dir_of(project);
    let first = clear_plan_opt(cursor, cursor_entries);
    let second = clear_plan_opt(windsurf, windsurf_entries);
    let plan = removal_plan(project, cursor_entries, windsurf_entries);
    if let Some(entries) = cursor_entries {
        lemma_clear_plan_targets(cursor, entries);
    }
    if let Some(entries) = windsurf_entries {
        lemma_clear_plan_targets(windsurf, entries);
    }
    assert(RULES_DIR@.len() != CURSOR_DIR@.len());
    assert(RULES_DIR@.len() != WINDSURF_DIR@.len());
    assert forall|i: int| 0 <= i < plan.len() implies {
        let action = #[trigger] plan[i];
        &&& removes_in(action, cursor) || removes_in(action, windsurf)
        &&& !touches(action, rules)
    } by {
        if i < first.len() {
            assert(plan[i] == first[i]);
        } else {
            assert(plan[i] == second[i - first.len()]);
        }
        assert(removes_in(plan[i], cursor) || removes_in(plan[i], windsurf));
        let target = plan[i]->Remove_target;
        let at = project.len() as int;
        assert(cursor.len() == at + 2 && windsurf.len() == at + 2);
        assert(target.len() == at + 3);
        assert(rules[at] == RULES_DIR@);
        assert(target.drop_last()[at] == target[at]);
        assert(cursor[at] == CURSOR_DIR@);
        assert(windsurf[at] == WINDSURF_DIR@);
        if rules.is_prefix_of(target) {
            assert(target.subrange(0, rules.len() as int)[at] == target[at]);
        }
    }
}

/// Taking a project out of the watch empties its mirrors and touches nothing
/// else: where the listings name every entry of the two mirrors as a regular
/// file, no entry is left in either, and every link outside the two mirrors,
/// the rules directory included, is as it was.
pub proof fn lemma_removal_empties_mirrors(
    links: Map<Seq<Seq<char>>, Seq<Seq<char>>>,
    project: Seq<Seq<char>>,
    cursor_entries: Seq<DirEntryView>,
    windsurf_entries: Seq<DirEntryView>,
)
    requires
        mirror_names(links, cursor_rules_dir_of(project)).subset_of(listed_files(cursor_entries)),
        mirror_names(links, windsurf_rules_dir_of(project)).subset_of(
            listed_files(windsurf_entries),
        ),
    ensures
        ({
            let cursor = cursor_rules_dir_of(project);
            let windsurf = windsurf_rules_dir_of(project);
            let after = apply_all(
                links,
                removal_plan(project, Some(cursor_entries), Some(windsurf_entries)),
            );
            &&& mirror_names(after, cursor) == Set::<Seq<char>>::empty()
            &&& mirror_names(after, windsurf) == Set::<Seq<char>>::empty()
            &&& forall|key: Seq<Seq<char>>|
                #![trigger after.contains_key(key)]
                #![trigger after[key]]
                !(key.len() > 0 && (key.drop_last() == cursor || key.drop_last() == windsurf))
                    ==> after.contains_key(key) == links.contains_key(key) && (links.contains_key(
                    key,
                ) ==> after[key] == links[key])
        }),
{
    let cursor = cursor_rules_dir_of(project);
    let windsurf = windsurf_rules_dir_of(project);
    let first = clear_plan(cursor, cursor_entries);
    let second = clear_plan(windsurf, windsurf_entries);
    let middle = apply_all(links, first);
    let after = apply_all(links, removal_plan(project, Some(cursor_entries), Some(windsurf_entries)));
    lemma_apply_all_concat(links, first, second);
    lemma_clear_plan_links(links, cursor, cursor_entries);
    lemma_clear_plan_links(middle, windsurf, windsurf_entries);
    lemma_mirrors_differ(project);
    assert(after == apply_all(middle, second));
    assert forall|key: Seq<Seq<char>>|
        #![trigger after.contains_key(key)]
        #![trigger after[key]]
        !(key.len() > 0 && (key.drop_last() == cursor || key.drop_last() == windsurf))
            implies after.contains_key(key) == links.contains_key(key) && (links.contains_key(key)
            ==> after[key] == links[key]) by {
        assert(middle.contains_key(key) || !middle.contains_key(key));
        assert(!cleared_by(cursor_entries, cursor, key));
        assert(!cleared_by(windsurf_entries, windsurf, key));
    }
    assert forall|name: Seq<char>| !mirror_names(after, cursor).contains(name) by {
        let key = cursor.push(name);
        assert(key.last() == name && key.drop_last() =~= cursor);
        assert(middle.contains_key(key) || !middle.contains_key(key));
        assert(!cleared_by(windsurf_entries, windsurf, key));
        if links.contains_key(key) {
            assert(mirror_names(links, cursor).contains(name));
            assert(lists_file(cursor_entries, name));
            assert(cleared_by(cursor_entries, cursor, key));
        }
    }
    assert forall|name: Seq<char>| !mirror_names(after, windsurf).contains(name) by {
        let key = windsurf.push(name);
        assert(key.last() == name && key.drop_last() =~= windsurf);
        assert(middle.contains_key(key) || !middle.contains_key(key));
        assert(!cleared_by(cursor_entries, cursor, key));
        if links.contains_key(key) {
            assert(mirror_names(links, windsurf).contains(name));
            assert(lists_file(windsurf_entries, name));
            assert(cleared_by(windsurf_entries, windsurf, key));
        }
    }
    assert(mirror_names(after, cursor) =~= Set::<Seq<char>>::empty());
    assert(mirror_names(after, windsurf) =~= Set::<Seq<char>>::empty());
}

} // verus!
