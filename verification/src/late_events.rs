//! Convergence when notifications are handled late.
//!
//! A notification is handled some time after the change that raised it, and
//! other changes may have happened by then. What the handler finds at the
//! path is then the state after those changes too. The mirrors may be wrong
//! for a while, and are right again once every notification is handled.

use vstd::prelude::*;
use crate::action::{apply_all, Action};
use crate::event::{effect_of, Effect, EventKind, ObservedPathView};
use crate::index::{owner_of, WatchEntryView};
use crate::mirror::{cursor_rules_dir_of, event_plan, path_plan, windsurf_rules_dir_of};
use crate::mirror_model::{
    in_sync, lemma_in_sync_names, lemma_link_pair, lemma_mirrors_differ, lemma_push_injective,
    lemma_unlink_pair, mirror_names, mirrors, observed_entry,
};
use crate::path::{file_name_of, is_normal};

verus! {

/// One change of a rules directory and the handling of its notification: the
/// notification it raises, the regular files of the directory after it, and
/// how many changes have happened by the time the notification is handled.
pub ghost struct LateChange {
    pub kind: EventKind,
    pub name: Seq<char>,
    pub files: Set<Seq<char>>,
    pub seen: int,
}

/// The regular files of the rules directory after the first `n` of `changes`,
/// starting from `files`.
pub open spec fn state_after(files: Set<Seq<char>>, changes: Seq<LateChange>, n: int) -> Set<
    Seq<char>,
> {
    if n <= 0 {
        files
    } else {
        changes[n - 1].files
    }
}

/// Whether a notification of `kind` for the entry `name` of a rules directory
/// can come from the change of its regular files from `before` to `after`:
/// no other name came or went; after a removal or a rename away the name is
/// gone; a creation, a rename to the name and a modification do not take the
/// name away; and with any other notification the name neither came nor went.
pub open spec fn raised_by(
    kind: EventKind,
    name: Seq<char>,
    before: Set<Seq<char>>,
    after: Set<Seq<char>>,
) -> bool {
    &&& forall|other: Seq<char>| other != name ==> (after.contains(other) <==> before.contains(other))
    &&& match effect_of(kind, true) {
        Effect::Unlink => !after.contains(name),
        Effect::Link => before.contains(name) ==> after.contains(name),
        Effect::Ignore => after.contains(name) <==> before.contains(name),
    }
}

/// Whether `changes` is a history of the rules directory of `entry` that
/// starts from the files `files`: each change names an entry of the
/// directory that `entry` owns, raises its notification, and has its
/// notification handled after it happened.
pub open spec fn is_late_history(
    index: Seq<WatchEntryView>,
    entry: WatchEntryView,
    files: Set<Seq<char>>,
    changes: Seq<LateChange>,
) -> bool {
    forall|i: int|
        0 <= i < changes.len() ==> {
            &&& is_normal((#[trigger] changes[i]).name)
            &&& owner_of(index, entry.rules_path.push(changes[i].name)) == Some(entry)
            &&& raised_by(
                changes[i].kind,
                changes[i].name,
                state_after(files, changes, i),
                changes[i].files,
            )
            &&& i < changes[i].seen <= changes.len()
        }
}

/// The links after the notifications of the first `k` of `changes` are
/// handled one by one, each with the rules directory as it is when the
/// notification is handled.
pub open spec fn replay_late(
    links: Map<Seq<Seq<char>>, Seq<Seq<char>>>,
    index: Seq<WatchEntryView>,
    entry: WatchEntryView,
    files: Set<Seq<char>>,
    changes: Seq<LateChange>,
    k: int,
) -> Map<Seq<Seq<char>>, Seq<Seq<char>>>
    decreases k,
{
    if k <= 0 {
        links
    } else {
        let change = changes[k - 1];
        apply_all(
            replay_late(links, index, entry, files, changes, k - 1),
            event_plan(
                change.kind,
                seq![observed_entry(entry, change.name, state_after(files, changes, change.seen))],
                index,
            ),
        )
    }
}

/// The position of the first change from `k` on that names `name`, or the
/// number of changes where none does.
pub open spec fn next_about(changes: Seq<LateChange>, k: int, name: Seq<char>) -> int
    decreases changes.len() - k,
{
    if k >= changes.len() {
        changes.len() as int
    } else if k >= 0 && changes[k].name == name {
        k
    } else {
        next_about(changes, k + 1, name)
    }
}

/// [`next_about`] is at or after where the search starts, and at most the
/// number of changes.
proof fn lemma_next_about_bounds(changes: Seq<LateChange>, k: int, name: Seq<char>)
    requires
        0 <= k <= changes.len(),
    ensures
        k <= next_about(changes, k, name) <= changes.len(),
    decreases changes.len() - k,
{
    if k < changes.len() && changes[k].name != name {
        lemma_next_about_bounds(changes, k + 1, name);
    }
}

/// Between two changes that name it, the name neither comes nor goes.
proof fn lemma_steady(
    index: Seq<WatchEntryView>,
    entry: WatchEntryView,
    files: Set<Seq<char>>,
    changes: Seq<LateChange>,
    name: Seq<char>,
    a: int,
    b: int,
)
    requires
        is_late_history(index, entry, files, changes),
        0 <= a <= b <= next_about(changes, a, name),
        a <= changes.len(),
    ensures
        state_after(files, changes, b).contains(name) <==> state_after(files, changes, a).contains(
            name,
        ),
    decreases b - a,
{
    lemma_next_about_bounds(changes, a, name);
    if a < b {
        assert(changes[a].name != name);
        assert(next_about(changes, a, name) == next_about(changes, a + 1, name));
        lemma_steady(index, entry, files, changes, name, a + 1, b);
        assert(raised_by(
            changes[a].kind,
            changes[a].name,
            state_after(files, changes, a),
            changes[a].files,
        ));
        assert(state_after(files, changes, a + 1) == changes[a].files);
    }
}

/// Whether the mirror `dir` is right about `name` up to the notifications
/// that are still to be handled: it has the name exactly if the rules
/// directory has it at some time that is not before the next change that
/// names it, and what it has links to the file of that name.
pub open spec fn settled(
    links: Map<Seq<Seq<char>>, Seq<Seq<char>>>,
    dir: Seq<Seq<char>>,
    rules: Seq<Seq<char>>,
    files: Set<Seq<char>>,
    changes: Seq<LateChange>,
    k: int,
    name: Seq<char>,
) -> bool {
    &&& exists|m: int|
        next_about(changes, k, name) <= m <= changes.len() && (links.contains_key(dir.push(name))
            <==> (#[trigger] state_after(files, changes, m)).contains(name))
    &&& links.contains_key(dir.push(name)) ==> links[dir.push(name)] == rules.push(name)
}

/// What handling one notification does to one mirror: the entry of the name
/// is linked, removed or left as the notification asks, and every other
/// entry is left.
proof fn lemma_plan_effect(
    links: Map<Seq<Seq<char>>, Seq<Seq<char>>>,
    index: Seq<WatchEntryView>,
    entry: WatchEntryView,
    kind: EventKind,
    name: Seq<char>,
    is_file: bool,
    dir: Seq<Seq<char>>,
)
    requires
        is_normal(name),
        owner_of(index, entry.rules_path.push(name)) == Some(entry),
        dir == cursor_rules_dir_of(entry.project) || dir == windsurf_rules_dir_of(entry.project),
    ensures
        ({
            let observed = ObservedPathView { path: entry.rules_path.push(name), is_file };
            let result = apply_all(links, event_plan(kind, seq![observed], index));
            &&& forall|other: Seq<char>|
                other != name ==> (result.contains_key(#[trigger] dir.push(other))
                    <==> links.contains_key(dir.push(other))) && (links.contains_key(
                    dir.push(other),
                ) ==> result[dir.push(other)] == links[dir.push(other)])
            &&& match effect_of(kind, is_file) {
                Effect::Link => result.contains_key(dir.push(name)) && result[dir.push(name)]
                    == entry.rules_path.push(name),
                Effect::Unlink => !result.contains_key(dir.push(name)),
                Effect::Ignore => (result.contains_key(dir.push(name)) <==> links.contains_key(
                    dir.push(name),
                )) && (links.contains_key(dir.push(name)) ==> result[dir.push(name)]
                    == links[dir.push(name)]),
            }
        }),
{
    let cursor = cursor_rules_dir_of(entry.project);
    let windsurf = windsurf_rules_dir_of(entry.project);
    let observed = ObservedPathView { path: entry.rules_path.push(name), is_file };
    let plan = path_plan(kind, observed, index);
    let single = seq![observed];
    assert(single.drop_last() =~= Seq::<ObservedPathView>::empty());
    assert(single.last() == observed);
    assert(event_plan(kind, single.drop_last(), index) =~= Seq::<Action>::empty());
    assert(event_plan(kind, single, index) =~= plan);
    assert(observed.path.last() == name);
    assert(file_name_of(observed.path) == Some(name));
    lemma_mirrors_differ(entry.project);
    let result = apply_all(links, plan);
    match effect_of(kind, is_file) {
        Effect::Link => {
            lemma_link_pair(links, observed.path, name, cursor, windsurf);
        },
        Effect::Unlink => {
            lemma_unlink_pair(links, name, cursor, windsurf);
        },
        Effect::Ignore => {
            assert(plan =~= Seq::<Action>::empty());
        },
    }
    lemma_push_injective(cursor, name, windsurf, name);
    lemma_push_injective(windsurf, name, cursor, name);
    assert forall|other: Seq<char>| other != name implies (result.contains_key(
        #[trigger] dir.push(other),
    ) <==> links.contains_key(dir.push(other))) && (links.contains_key(dir.push(other))
        ==> result[dir.push(other)] == links[dir.push(other)]) by {
        lemma_push_injective(dir, other, cursor, name);
        lemma_push_injective(dir, other, windsurf, name);
    }
}

/// Handling the next notification keeps one mirror settled about every name.
proof fn lemma_step_settles(
    links: Map<Seq<Seq<char>>, Seq<Seq<char>>>,
    index: Seq<WatchEntryView>,
    entry: WatchEntryView,
    files: Set<Seq<char>>,
    changes: Seq<LateChange>,
    k: int,
    dir: Seq<Seq<char>>,
    name: Seq<char>,
)
    requires
        is_late_history(index, entry, files, changes),
        0 <= k < changes.len(),
        dir == cursor_rules_dir_of(entry.project) || dir == windsurf_rules_dir_of(entry.project),
        settled(
            replay_late(links, index, entry, files, changes, k),
            dir,
            entry.rules_path,
            files,
            changes,
            k,
            name,
        ),
    ensures
        settled(
            replay_late(links, index, entry, files, changes, k + 1),
            dir,
            entry.rules_path,
            files,
            changes,
            k + 1,
            name,
        ),
{
    let before = replay_late(links, index, entry, files, changes, k);
    let after = replay_late(links, index, entry, files, changes, k + 1);
    let change = changes[k];
    let n = changes.len() as int;
    let is_file = state_after(files, changes, change.seen).contains(change.name);
    assert(observed_entry(entry, change.name, state_after(files, changes, change.seen)) == (
    ObservedPathView { path: entry.rules_path.push(change.name), is_file }));
    lemma_plan_effect(before, index, entry, change.kind, change.name, is_file, dir);
    let m = choose|m: int|
        next_about(changes, k, name) <= m <= changes.len() && (before.contains_key(dir.push(name))
            <==> (#[trigger] state_after(files, changes, m)).contains(name));
    let next = next_about(changes, k + 1, name);
    lemma_next_about_bounds(changes, k + 1, name);
    if change.name != name {
        assert(next_about(changes, k, name) == next);
        assert(next <= m <= changes.len() && (after.contains_key(dir.push(name)) <==> state_after(
            files,
            changes,
            m,
        ).contains(name)));
    } else {
        assert(next_about(changes, k, name) == k);
        assert(raised_by(change.kind, name, state_after(files, changes, k), change.files));
        assert(state_after(files, changes, k + 1) == change.files);
        // From the change on up to the next that names it, the name is steady.
        lemma_steady(index, entry, files, changes, name, k + 1, next);
        let present = after.contains_key(dir.push(name));
        let seen = change.seen;
        if seen <= next {
            lemma_steady(index, entry, files, changes, name, k + 1, seen);
        }
        if k + 1 <= m <= next {
            lemma_steady(index, entry, files, changes, name, k + 1, m);
        }
        let at_next = state_after(files, changes, next).contains(name);
        let at_seen = state_after(files, changes, seen).contains(name);
        let at_m = state_after(files, changes, m).contains(name);
        let witness = if present == at_next {
            next
        } else if seen >= next && present == at_seen {
            seen
        } else {
            m
        };
        match effect_of(change.kind, is_file) {
            Effect::Link => {
                assert(present && at_seen);
            },
            Effect::Unlink => {
                assert(!present);
                assert(!at_next);
            },
            Effect::Ignore => {
                assert(present == at_m);
                if m == k {
                    if effect_of(change.kind, true) == Effect::Ignore {
                        assert(present == at_next);
                    } else {
                        assert(!is_file);
                    }
                }
            },
        }
        assert(next <= witness <= changes.len() && (after.contains_key(dir.push(name))
            <==> state_after(files, changes, witness).contains(name)));
    }
}

/// After the first `k` notifications are handled, both mirrors are settled
/// about every name.
proof fn lemma_settled_after(
    links: Map<Seq<Seq<char>>, Seq<Seq<char>>>,
    index: Seq<WatchEntryView>,
    entry: WatchEntryView,
    files: Set<Seq<char>>,
    changes: Seq<LateChange>,
    k: int,
)
    requires
        in_sync(links, entry, files),
        is_late_history(index, entry, files, changes),
        0 <= k <= changes.len(),
    ensures
        forall|name: Seq<char>|
            #![trigger cursor_rules_dir_of(entry.project).push(name)]
            #![trigger windsurf_rules_dir_of(entry.project).push(name)]
            settled(
                replay_late(links, index, entry, files, changes, k),
                cursor_rules_dir_of(entry.project),
                entry.rules_path,
                files,
                changes,
                k,
                name,
            ) && settled(
                replay_late(links, index, entry, files, changes, k),
                windsurf_rules_dir_of(entry.project),
                entry.rules_path,
                files,
                changes,
                k,
                name,
            ),
    decreases k,
{
    let cursor = cursor_rules_dir_of(entry.project);
    let windsurf = windsurf_rules_dir_of(entry.project);
    let now = replay_late(links, index, entry, files, changes, k);
    if k == 0 {
        assert forall|name: Seq<char>|
            #![trigger cursor.push(name)]
            #![trigger windsurf.push(name)]
            settled(now, cursor, entry.rules_path, files, changes, k, name) && settled(
                now,
                windsurf,
                entry.rules_path,
                files,
                changes,
                k,
                name,
            ) by {
            let next = next_about(changes, 0, name);
            lemma_next_about_bounds(changes, 0, name);
            lemma_steady(index, entry, files, changes, name, 0, next);
            assert(links.contains_key(cursor.push(name)) <==> files.contains(name));
            assert(links.contains_key(windsurf.push(name)) <==> files.contains(name));
            assert(next <= next <= changes.len() && (now.contains_key(cursor.push(name))
                <==> state_after(files, changes, next).contains(name)));
            assert(next <= next <= changes.len() && (now.contains_key(windsurf.push(name))
                <==> state_after(files, changes, next).contains(name)));
        }
    } else {
        lemma_settled_after(links, index, entry, files, changes, k - 1);
        assert forall|name: Seq<char>|
            #![trigger cursor.push(name)]
            #![trigger windsurf.push(name)]
            settled(now, cursor, entry.rules_path, files, changes, k, name) && settled(
                now,
                windsurf,
                entry.rules_path,
                files,
                changes,
                k,
                name,
            ) by {
            let earlier = replay_late(links, index, entry, files, changes, k - 1);
            assert(settled(earlier, cursor, entry.rules_path, files, changes, k - 1, name)) by {
                let _ = cursor.push(name);
            }
            assert(settled(earlier, windsurf, entry.rules_path, files, changes, k - 1, name)) by {
                let _ = windsurf.push(name);
            }
            lemma_step_settles(links, index, entry, files, changes, k - 1, cursor, name);
            lemma_step_settles(links, index, entry, files, changes, k - 1, windsurf, name);
        }
    }
}

/// A mirror that is settled about a name when no notification is left is
/// right about the name.
proof fn lemma_settled_at_end(
    links: Map<Seq<Seq<char>>, Seq<Seq<char>>>,
    dir: Seq<Seq<char>>,
    rules: Seq<Seq<char>>,
    files: Set<Seq<char>>,
    changes: Seq<LateChange>,
    name: Seq<char>,
)
    requires
        settled(links, dir, rules, files, changes, changes.len() as int, name),
    ensures
        links.contains_key(dir.push(name)) <==> state_after(
            files,
            changes,
            changes.len() as int,
        ).contains(name),
        links.contains_key(dir.push(name)) ==> links[dir.push(name)] == rules.push(name),
{
    assert(next_about(changes, changes.len() as int, name) == changes.len());
}

/// When no notification is left, a mirror that is settled about every name
/// mirrors the rules directory.
proof fn lemma_mirrors_at_end(
    links: Map<Seq<Seq<char>>, Seq<Seq<char>>>,
    dir: Seq<Seq<char>>,
    rules: Seq<Seq<char>>,
    files: Set<Seq<char>>,
    changes: Seq<LateChange>,
)
    requires
        forall|name: Seq<char>|
            settled(links, dir, rules, files, changes, changes.len() as int, name),
    ensures
        mirrors(links, dir, rules, state_after(files, changes, changes.len() as int)),
{
    let last = state_after(files, changes, changes.len() as int);
    assert forall|name: Seq<char>|
        {
            &&& links.contains_key(#[trigger] dir.push(name)) <==> last.contains(name)
            &&& last.contains(name) ==> links[dir.push(name)] == rules.push(name)
        } by {
        assert(settled(links, dir, rules, files, changes, changes.len() as int, name));
        lemma_settled_at_end(links, dir, rules, files, changes, name);
    }
}

/// Convergence: after any finite history of changes to a watched rules
/// directory, whenever after its change each notification is handled, mirrors
/// that were in sync at the start are in sync once every notification is
/// handled: the names in both are the names of the regular files of the
/// rules directory as it then is, and each links to the file of its name.
pub proof fn lemma_late_convergence(
    links: Map<Seq<Seq<char>>, Seq<Seq<char>>>,
    index: Seq<WatchEntryView>,
    entry: WatchEntryView,
    files: Set<Seq<char>>,
    changes: Seq<LateChange>,
)
    requires
        in_sync(links, entry, files),
        is_late_history(index, entry, files, changes),
    ensures
        ({
            let n = changes.len() as int;
            let after = replay_late(links, index, entry, files, changes, n);
            let last = state_after(files, changes, n);
            &&& in_sync(after, entry, last)
            &&& mirror_names(after, cursor_rules_dir_of(entry.project)) == last
            &&& mirror_names(after, windsurf_rules_dir_of(entry.project)) == last
        }),
{
    let n = changes.len() as int;
    let after = replay_late(links, index, entry, files, changes, n);
    let last = state_after(files, changes, n);
    let cursor = cursor_rules_dir_of(entry.project);
    let windsurf = windsurf_rules_dir_of(entry.project);
    assert(mirrors(after, cursor, entry.rules_path, last)) by {
        lemma_settled_after(links, index, entry, files, changes, n);
        assert forall|name: Seq<char>|
            settled(after, cursor, entry.rules_path, files, changes, n, name) by {
            let _ = cursor.push(name);
        }
        lemma_mirrors_at_end(after, cursor, entry.rules_path, files, changes);
    }
    assert(mirrors(after, windsurf, entry.rules_path, last)) by {
        lemma_settled_after(links, index, entry, files, changes, n);
        assert forall|name: Seq<char>|
            settled(after, windsurf, entry.rules_path, files, changes, n, name) by {
            let _ = windsurf.push(name);
        }
        lemma_mirrors_at_end(after, windsurf, entry.rules_path, files, changes);
    }
    lemma_in_sync_names(after, entry, last);
}

} // verus!
