//! The mirror engine: which links to make and which to remove.
//!
//! Every function here decides and does nothing: it returns the requests, in
//! the order in which they are to be carried out. Whoever carries them out
//! stops at the first one that fails.

use vstd::prelude::*;
use crate::action::{push_action, Action, FsAction};
use crate::constants::{CURSOR_DIR, MIRROR_RULES_DIR, RULES_DIR, WINDSURF_DIR};
use crate::event::{classify, effect_of, Effect, EventKind, FileEvent, ObservedPath, ObservedPathView};
use crate::index::{owner_of, RulesPathIndex, WatchEntryView};
use crate::path::{file_name_of, FsPath};

verus! {

/// The rules directory of the project at `project`.
pub open spec fn rules_dir_of(project: Seq<Seq<char>>) -> Seq<Seq<char>> {
    project.push(RULES_DIR@)
}

/// The first mirror directory of the project at `project`.
pub open spec fn cursor_rules_dir_of(project: Seq<Seq<char>>) -> Seq<Seq<char>> {
    project.push(CURSOR_DIR@).push(MIRROR_RULES_DIR@)
}

/// The second mirror directory of the project at `project`.
pub open spec fn windsurf_rules_dir_of(project: Seq<Seq<char>>) -> Seq<Seq<char>> {
    project.push(WINDSURF_DIR@).push(MIRROR_RULES_DIR@)
}

/// The rules directory of the project at `project`.
pub fn rules_dir(project: &FsPath) -> (dir: FsPath)
    ensures
        dir@ == rules_dir_of(project@),
{
    project.join(RULES_DIR)
}

/// The first mirror directory of the project at `project`.
pub fn cursor_rules_dir(project: &FsPath) -> (dir: FsPath)
    ensures
        dir@ == cursor_rules_dir_of(project@),
{
    project.join(CURSOR_DIR).join(MIRROR_RULES_DIR)
}

/// The second mirror directory of the project at `project`.
pub fn windsurf_rules_dir(project: &FsPath) -> (dir: FsPath)
    ensures
        dir@ == windsurf_rules_dir_of(project@),
{
    project.join(WINDSURF_DIR).join(MIRROR_RULES_DIR)
}

/// An entry of a directory listing.
#[derive(Debug, PartialEq, Eq)]
pub struct DirEntry {
    pub name: String,
    /// Whether the entry is a regular file.
    pub is_file: bool,
}

/// The specification value of a [`DirEntry`].
pub ghost struct DirEntryView {
    pub name: Seq<char>,
    pub is_file: bool,
}

impl View for DirEntry {
    type V = DirEntryView;

    open spec fn view(&self) -> DirEntryView {
        DirEntryView { name: self.name@, is_file: self.is_file }
    }
}

impl DeepView for DirEntry {
    type V = DirEntryView;

    open spec fn deep_view(&self) -> DirEntryView {
        self.view()
    }
}

/// The two requests that link `source` under `name` in both mirrors.
pub open spec fn link_pair(
    source: Seq<Seq<char>>,
    name: Seq<char>,
    cursor: Seq<Seq<char>>,
    windsurf: Seq<Seq<char>>,
) -> Seq<Action> {
    seq![
        Action::Link { source, target: cursor.push(name) },
        Action::Link { source, target: windsurf.push(name) },
    ]
}

/// The two requests that remove the entry `name` from both mirrors.
pub open spec fn unlink_pair(name: Seq<char>, cursor: Seq<Seq<char>>, windsurf: Seq<Seq<char>>) -> Seq<
    Action,
> {
    seq![
        Action::Remove { target: cursor.push(name) },
        Action::Remove { target: windsurf.push(name) },
    ]
}

/// What a full resync asks for one entry of the rules directory: a regular
/// file is linked in both mirrors, anything else is passed over.
pub open spec fn entry_plan(
    rules: Seq<Seq<char>>,
    cursor: Seq<Seq<char>>,
    windsurf: Seq<Seq<char>>,
    entry: DirEntryView,
) -> Seq<Action> {
    if entry.is_file {
        link_pair(rules.push(entry.name), entry.name, cursor, windsurf)
    } else {
        Seq::empty()
    }
}

/// What a full resync asks for the entries of the rules directory, in order.
pub open spec fn entries_plan(
    rules: Seq<Seq<char>>,
    cursor: Seq<Seq<char>>,
    windsurf: Seq<Seq<char>>,
    entries: Seq<DirEntryView>,
) -> Seq<Action>
    decreases entries.len(),
{
    if entries.len() == 0 {
        Seq::empty()
    } else {
        entries_plan(rules, cursor, windsurf, entries.drop_last()) + entry_plan(
            rules,
            cursor,
            windsurf,
            entries.last(),
        )
    }
}

/// What a full resync asks: both mirrors exist, then every regular file
/// directly inside the rules directory is linked in both.
pub open spec fn sync_plan(
    rules: Seq<Seq<char>>,
    cursor: Seq<Seq<char>>,
    windsurf: Seq<Seq<char>>,
    entries: Seq<DirEntryView>,
) -> Seq<Action> {
    seq![Action::CreateDirAll { path: cursor }, Action::CreateDirAll { path: windsurf }]
        + entries_plan(rules, cursor, windsurf, entries)
}

/// Appends the two links of `source` under `name`.
fn push_link_pair(
    plan: &mut Vec<FsAction>,
    source: &FsPath,
    name: &str,
    cursor: &FsPath,
    windsurf: &FsPath,
)
    ensures
        final(plan).deep_view() == old(plan).deep_view() + link_pair(
            source@,
            name@,
            cursor@,
            windsurf@,
        ),
{
    let ghost before = plan.deep_view();
    push_action(plan, FsAction::Link { source: source.clone(), target: cursor.join(name) });
    push_action(plan, FsAction::Link { source: source.clone(), target: windsurf.join(name) });
    assert(plan.deep_view() =~= before + link_pair(source@, name@, cursor@, windsurf@));
}

/// Appends the two removals of `name`.
fn push_unlink_pair(plan: &mut Vec<FsAction>, name: &str, cursor: &FsPath, windsurf: &FsPath)
    ensures
        final(plan).deep_view() == old(plan).deep_view() + unlink_pair(
            name@,
            cursor@,
            windsurf@,
        ),
{
    let ghost before = plan.deep_view();
    push_action(plan, FsAction::Remove { target: cursor.join(name) });
    push_action(plan, FsAction::Remove { target: windsurf.join(name) });
    assert(plan.deep_view() =~= before + unlink_pair(name@, cursor@, windsurf@));
}

/// Plans a full resync of the rules directory `rules_path`, whose listing is
/// `entries`, into the two mirrors.
pub fn sync_rules_directory(
    rules_path: &FsPath,
    cursor_rules_path: &FsPath,
    windsurf_rules_path: &FsPath,
    entries: &Vec<DirEntry>,
) -> (plan: Vec<FsAction>)
    ensures
        plan.deep_view() == sync_plan(
            rules_path@,
            cursor_rules_path@,
            windsurf_rules_path@,
            entries.deep_view(),
        ),
{
    let mut plan: Vec<FsAction> = Vec::new();
    push_action(&mut plan, FsAction::CreateDirAll { path: cursor_rules_path.clone() });
    push_action(&mut plan, FsAction::CreateDirAll { path: windsurf_rules_path.clone() });
    let ghost head = seq![
        Action::CreateDirAll { path: cursor_rules_path@ },
        Action::CreateDirAll { path: windsurf_rules_path@ },
    ];
    assert(plan.deep_view() =~= head + Seq::<Action>::empty());
    let mut i: usize = 0;
    while i < entries.len()
        invariant
            i <= entries.len(),
            plan.deep_view() == head + entries_plan(
                rules_path@,
                cursor_rules_path@,
                windsurf_rules_path@,
                entries.deep_view().subrange(0, i as int),
            ),
        decreases entries.len() - i,
    {
        let ghost done = entries.deep_view().subrange(0, i as int);
        let ghost next = entries.deep_view().subrange(0, i + 1);
        let ghost before = plan.deep_view();
        assert(next.drop_last() =~= done && next.last() == entries[i as int]@);
        if entries[i].is_file {
            let source = rules_path.join(entries[i].name.as_str());
            push_link_pair(
                &mut plan,
                &source,
                entries[i].name.as_str(),
                cursor_rules_path,
                windsurf_rules_path,
            );
        }
        assert(plan.deep_view() =~= before + entry_plan(
            rules_path@,
            cursor_rules_path@,
            windsurf_rules_path@,
            entries[i as int]@,
        ));
        assert(plan.deep_view() =~= head + entries_plan(
            rules_path@,
            cursor_rules_path@,
            windsurf_rules_path@,
            next,
        ));
        i += 1;
    }
    assert(entries.deep_view().subrange(0, entries.len() as int) =~= entries.deep_view());
    plan
}

/// The removals that clear the regular files of `entries` out of `dir`.
pub open spec fn clear_plan(dir: Seq<Seq<char>>, entries: Seq<DirEntryView>) -> Seq<Action>
    decreases entries.len(),
{
    if entries.len() == 0 {
        Seq::empty()
    } else if entries.last().is_file {
        clear_plan(dir, entries.drop_last()).push(
            Action::Remove { target: dir.push(entries.last().name) },
        )
    } else {
        clear_plan(dir, entries.drop_last())
    }
}

/// [`clear_plan`] of the listing of a directory that exists, nothing for one
/// that does not.
pub open spec fn clear_plan_opt(dir: Seq<Seq<char>>, entries: Option<Seq<DirEntryView>>) -> Seq<
    Action,
> {
    match entries {
        Some(entries) => clear_plan(dir, entries),
        None => Seq::empty(),
    }
}

/// What taking a project out of the watch asks: every regular file goes from
/// the first mirror, then every regular file from the second. Subdirectories
/// stay, and nothing outside the mirrors is touched.
pub open spec fn removal_plan(
    project: Seq<Seq<char>>,
    cursor_entries: Option<Seq<DirEntryView>>,
    windsurf_entries: Option<Seq<DirEntryView>>,
) -> Seq<Action> {
    clear_plan_opt(cursor_rules_dir_of(project), cursor_entries) + clear_plan_opt(
        windsurf_rules_dir_of(project),
        windsurf_entries,
    )
}

/// Appends the removals that clear `dir`, whose listing is `entries`.
fn push_clear_plan(plan: &mut Vec<FsAction>, dir: &FsPath, entries: &Vec<DirEntry>)
    ensures
        final(plan).deep_view() == old(plan).deep_view() + clear_plan(dir@, entries.deep_view()),
{
    let ghost before = plan.deep_view();
    assert(plan.deep_view() =~= before + Seq::<Action>::empty());
    let mut i: usize = 0;
    while i < entries.len()
        invariant
            i <= entries.len(),
            plan.deep_view() == before + clear_plan(
                dir@,
                entries.deep_view().subrange(0, i as int),
            ),
        decreases entries.len() - i,
    {
        let ghost done = entries.deep_view().subrange(0, i as int);
        let ghost next = entries.deep_view().subrange(0, i + 1);
        assert(next.drop_last() =~= done && next.last() == entries[i as int]@);
        if entries[i].is_file {
            let ghost so_far = plan.deep_view();
            push_action(plan, FsAction::Remove { target: dir.join(entries[i].name.as_str()) });
            assert(plan.deep_view() =~= before + clear_plan(dir@, next));
        }
        i += 1;
    }
    assert(entries.deep_view().subrange(0, entries.len() as int) =~= entries.deep_view());
}

/// Plans the removal of every mirrored file of the project at `dir`. The
/// listing of a mirror is `None` where the mirror does not exist.
pub fn remove_symlinks_from_directory(
    dir: &FsPath,
    cursor_entries: Option<&Vec<DirEntry>>,
    windsurf_entries: Option<&Vec<DirEntry>>,
) -> (plan: Vec<FsAction>)
    ensures
        plan.deep_view() == removal_plan(
            dir@,
            match cursor_entries {
                Some(entries) => Some(entries.deep_view()),
                None => None,
            },
            match windsurf_entries {
                Some(entries) => Some(entries.deep_view()),
                None => None,
            },
        ),
{
    let mut plan: Vec<FsAction> = Vec::new();
    assert(plan.deep_view() =~= Seq::<Action>::empty());
    if let Some(entries) = cursor_entries {
        let cursor = cursor_rules_dir(dir);
        push_clear_plan(&mut plan, &cursor, entries);
    }
    let ghost first = plan.deep_view();
    assert(first =~= clear_plan_opt(
        cursor_rules_dir_of(dir@),
        match cursor_entries {
            Some(entries) => Some(entries.deep_view()),
            None => None,
        },
    ));
    if let Some(entries) = windsurf_entries {
        let windsurf = windsurf_rules_dir(dir);
        push_clear_plan(&mut plan, &windsurf, entries);
    }
    assert(plan.deep_view() =~= first + clear_plan_opt(
        windsurf_rules_dir_of(dir@),
        match windsurf_entries {
            Some(entries) => Some(entries.deep_view()),
            None => None,
        },
    ));
    plan
}

/// What a notification of `kind` asks for one of its paths.
///
/// A path that no watched rules directory owns is passed over, and so is a
/// path without a file name. Otherwise the mirrors are those of the project
/// that owns the path, and the name in them is the path's file name.
pub open spec fn path_plan(kind: EventKind, observed: ObservedPathView, index: Seq<WatchEntryView>) -> Seq<
    Action,
> {
    match (owner_of(index, observed.path), file_name_of(observed.path)) {
        (Some(entry), Some(name)) => {
            let cursor = cursor_rules_dir_of(entry.project);
            let windsurf = windsurf_rules_dir_of(entry.project);
            match effect_of(kind, observed.is_file) {
                Effect::Link => link_pair(observed.path, name, cursor, windsurf),
                Effect::Unlink => unlink_pair(name, cursor, windsurf),
                Effect::Ignore => Seq::empty(),
            }
        },
        _ => Seq::empty(),
    }
}

/// What a notification of `kind` asks for its paths, in order.
pub open spec fn event_plan(
    kind: EventKind,
    paths: Seq<ObservedPathView>,
    index: Seq<WatchEntryView>,
) -> Seq<Action>
    decreases paths.len(),
{
    if paths.len() == 0 {
        Seq::empty()
    } else {
        event_plan(kind, paths.drop_last(), index) + path_plan(kind, paths.last(), index)
    }
}

/// Appends what a notification of `kind` asks for `observed`.
fn push_path_plan(
    plan: &mut Vec<FsAction>,
    kind: EventKind,
    observed: &ObservedPath,
    rules_paths: &RulesPathIndex,
)
    ensures
        final(plan).deep_view() == old(plan).deep_view() + path_plan(
            kind,
            observed@,
            rules_paths@,
        ),
{
    let ghost before = plan.deep_view();
    assert(before =~= before + Seq::<Action>::empty());
    let owner = match rules_paths.find_owner(&observed.path) {
        Some(i) => rules_paths.get(i),
        None => {
            return ;
        },
    };
    let name = match observed.path.file_name() {
        Some(name) => name,
        None => {
            return ;
        },
    };
    let cursor = cursor_rules_dir(&owner.project);
    let windsurf = windsurf_rules_dir(&owner.project);
    match classify(kind, observed.is_file) {
        Effect::Link => {
            push_link_pair(plan, &observed.path, name.as_str(), &cursor, &windsurf);
        },
        Effect::Unlink => {
            push_unlink_pair(plan, name.as_str(), &cursor, &windsurf);
        },
        Effect::Ignore => {},
    }
}

/// Plans the changes to the mirrors that the notification `event` asks for,
/// given the rules directories under watch.
pub fn handle_file_event(event: &FileEvent, rules_paths: &RulesPathIndex) -> (plan: Vec<FsAction>)
    ensures
        plan.deep_view() == event_plan(event.kind, event.paths.deep_view(), rules_paths@),
{
    let mut plan: Vec<FsAction> = Vec::new();
    assert(plan.deep_view() =~= Seq::<Action>::empty());
    let mut i: usize = 0;
    while i < event.paths.len()
        invariant
            i <= event.paths.len(),
            plan.deep_view() == event_plan(
                event.kind,
                event.paths.deep_view().subrange(0, i as int),
                rules_paths@,
            ),
        decreases event.paths.len() - i,
    {
        let ghost done = event.paths.deep_view().subrange(0, i as int);
        let ghost next = event.paths.deep_view().subrange(0, i + 1);
        assert(next.drop_last() =~= done && next.last() == event.paths[i as int]@);
        push_path_plan(&mut plan, event.kind, &event.paths[i], rules_paths);
        i += 1;
    }
    assert(event.paths.deep_view().subrange(0, event.paths.len() as int)
        =~= event.paths.deep_view());
    plan
}

} // verus!
