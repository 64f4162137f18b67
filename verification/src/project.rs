//! Preparing a project: its instruction file, the two other names under
//! which that file is also offered, and its rules directory. The two other
//! names are the caller's to give.
//!
//! As everywhere in this library the functions decide and the caller acts:
//! each returns the requests to carry out, in order, up to the first that fails.

use vstd::prelude::*;
use vstd::string::StringExecFns;
use crate::constants::AGENTS_FILENAME;
use crate::mirror::{
    cursor_rules_dir, cursor_rules_dir_of, rules_dir, rules_dir_of, windsurf_rules_dir,
    windsurf_rules_dir_of,
};
use crate::error::ErrorKind;
use crate::path::FsPath;

verus! {

/// The character `c` with an upper case ASCII letter made lower case.
pub open spec fn fold_case(c: char) -> char {
    if 'A' <= c <= 'Z' {
        ((c as u32 + 32) as u8) as char
    } else {
        c
    }
}

/// Whether the two names are the same but for the case of ASCII letters.
pub open spec fn same_name(a: Seq<char>, b: Seq<char>) -> bool {
    &&& a.len() == b.len()
    &&& forall|i: int| 0 <= i < a.len() ==> fold_case(#[trigger] a[i]) == fold_case(b[i])
}

/// Computes [`fold_case`].
fn fold(c: char) -> (r: char)
    ensures
        r == fold_case(c),
{
    if 'A' <= c && c <= 'Z' {
        ((c as u32 + 32) as u8) as char
    } else {
        c
    }
}

/// Whether the two names are the same but for the case of ASCII letters.
pub fn names_match(a: &str, b: &str) -> (r: bool)
    ensures
        r == same_name(a@, b@),
{
    let n = a.unicode_len();
    if n != b.unicode_len() {
        return false;
    }
    let mut i: usize = 0;
    while i < n
        invariant
            i <= n,
            n == a@.len(),
            n == b@.len(),
            forall|j: int| 0 <= j < i ==> fold_case(#[trigger] a@[j]) == fold_case(b@[j]),
        decreases n - i,
    {
        if fold(a.get_char(i)) != fold(b.get_char(i)) {
            return false;
        }
        i += 1;
    }
    true
}

/// The two other names under which the instruction file is offered.
#[derive(Debug, PartialEq, Eq)]
pub struct AliasNames {
    pub first: String,
    pub second: String,
}

/// The specification value of [`AliasNames`].
pub ghost struct AliasNamesView {
    pub first: Seq<char>,
    pub second: Seq<char>,
}

impl View for AliasNames {
    type V = AliasNamesView;

    open spec fn view(&self) -> AliasNamesView {
        AliasNamesView { first: self.first@, second: self.second@ }
    }
}

/// What a directory holds of the instruction file and of its two other names.
#[derive(Debug, PartialEq, Eq)]
pub struct AgentFileStatus {
    /// Whether the instruction file is there, in any case of letters.
    pub agents_exists: bool,
    /// The file of the first other name, if one is there.
    pub first_alias: Option<FsPath>,
    /// The file of the second other name, if one is there.
    pub second_alias: Option<FsPath>,
}

/// The specification value of an [`AgentFileStatus`].
pub ghost struct AgentFileStatusView {
    pub agents_exists: bool,
    pub first_alias: Option<Seq<Seq<char>>>,
    pub second_alias: Option<Seq<Seq<char>>>,
}

impl View for AgentFileStatus {
    type V = AgentFileStatusView;

    open spec fn view(&self) -> AgentFileStatusView {
        AgentFileStatusView {
            agents_exists: self.agents_exists,
            first_alias: match self.first_alias {
                Some(path) => Some(path@),
                None => None,
            },
            second_alias: match self.second_alias {
                Some(path) => Some(path@),
                None => None,
            },
        }
    }
}

/// The status after the names `names` of the directory `dir` were looked at
/// in order. The look ends at the first name of the instruction file; up to
/// there, the last name of each other form counts.
pub open spec fn scan_of(
    dir: Seq<Seq<char>>,
    names: Seq<Seq<char>>,
    aliases: AliasNamesView,
) -> AgentFileStatusView
    decreases names.len(),
{
    if names.len() == 0 {
        AgentFileStatusView { agents_exists: false, first_alias: None, second_alias: None }
    } else {
        let before = scan_of(dir, names.drop_last(), aliases);
        let name = names.last();
        if before.agents_exists {
            before
        } else if same_name(name, AGENTS_FILENAME@) {
            AgentFileStatusView { agents_exists: true, ..before }
        } else if same_name(name, aliases.first) {
            AgentFileStatusView { first_alias: Some(dir.push(name)), ..before }
        } else if same_name(name, aliases.second) {
            AgentFileStatusView { second_alias: Some(dir.push(name)), ..before }
        } else {
            before
        }
    }
}

/// The instruction file is reported exactly where some name is its name.
pub proof fn lemma_scan_finds_agents(
    dir: Seq<Seq<char>>,
    names: Seq<Seq<char>>,
    aliases: AliasNamesView,
)
    ensures
        scan_of(dir, names, aliases).agents_exists <==> exists|i: int|
            0 <= i < names.len() && same_name(#[trigger] names[i], AGENTS_FILENAME@),
    decreases names.len(),
{
    if names.len() > 0 {
        let rest = names.drop_last();
        lemma_scan_finds_agents(dir, rest, aliases);
        if scan_of(dir, rest, aliases).agents_exists {
            let i = choose|i: int|
                0 <= i < rest.len() && same_name(#[trigger] rest[i], AGENTS_FILENAME@);
            assert(names[i] == rest[i]);
        } else if same_name(names.last(), AGENTS_FILENAME@) {
            assert(names[names.len() - 1] == names.last());
        } else {
            if exists|i: int|
                0 <= i < names.len() && same_name(#[trigger] names[i], AGENTS_FILENAME@) {
                let i = choose|i: int|
                    0 <= i < names.len() && same_name(#[trigger] names[i], AGENTS_FILENAME@);
                assert(i < rest.len());
                assert(rest[i] == names[i]);
            }
        }
    }
}

/// Looks through the names `names` of the entries of the directory `dir` for
/// the instruction file and its two other names.
pub fn scan_directory_for_agent_files(
    dir: &FsPath,
    names: &Vec<String>,
    aliases: &AliasNames,
) -> (status: AgentFileStatus)
    ensures
        status@ == scan_of(dir@, names.deep_view(), aliases@),
{
    let mut status = AgentFileStatus { agents_exists: false, first_alias: None, second_alias: None };
    let mut i: usize = 0;
    while i < names.len()
        invariant
            i <= names.len(),
            status@ == scan_of(dir@, names.deep_view().take(i as int), aliases@),
            !status.agents_exists,
        decreases names.len() - i,
    {
        let ghost next = names.deep_view().take(i + 1);
        proof {
            assert(next.drop_last() =~= names.deep_view().take(i as int));
            assert(next.last() == names[i as int]@);
        }
        let name = names[i].as_str();
        if names_match(name, AGENTS_FILENAME) {
            status.agents_exists = true;
            proof {
                lemma_scan_stays(dir@, names.deep_view(), aliases@, i + 1);
            }
            return status;
        } else if names_match(name, aliases.first.as_str()) {
            status.first_alias = Some(dir.join(name));
        } else if names_match(name, aliases.second.as_str()) {
            status.second_alias = Some(dir.join(name));
        }
        i += 1;
    }
    assert(names.deep_view().take(names.len() as int) =~= names.deep_view());
    status
}

/// Once the instruction file is found, further names change nothing.
proof fn lemma_scan_stays(
    dir: Seq<Seq<char>>,
    names: Seq<Seq<char>>,
    aliases: AliasNamesView,
    n: int,
)
    requires
        0 <= n <= names.len(),
        scan_of(dir, names.take(n), aliases).agents_exists,
    ensures
        scan_of(dir, names, aliases) == scan_of(dir, names.take(n), aliases),
    decreases names.len() - n,
{
    if n < names.len() {
        assert(names.drop_last().take(n) =~= names.take(n));
        lemma_scan_stays(dir, names.drop_last(), aliases, n);
    } else {
        assert(names.take(n) =~= names);
    }
}

/// What a file is to hold when it is made.
#[derive(Debug, Clone, Copy, PartialEq, Eq)]
pub enum Contents {
    /// Nothing.
    Empty,
    /// The text that a new instruction file starts with.
    Default,
}

/// Something to tell the user.
#[derive(Debug, Clone, Copy, PartialEq, Eq)]
pub enum Notice {
    /// Both other names were found: the instruction file was made empty, and
    /// what the two files hold is to be copied by hand.
    BothFound,
}

/// One request to the filesystem, or to the user, while a project is prepared.
#[derive(Debug, PartialEq, Eq)]
pub enum ProjectAction {
    /// Make the file `path` with `contents`, in place of what is there.
    Write { path: FsPath, contents: Contents },
    /// Rename `from` to `to`.
    Rename { from: FsPath, to: FsPath },
    /// Make the directory `path` unless it exists.
    EnsureDir { path: FsPath },
    /// Remove the file `path` if it exists.
    RemoveIfPresent { path: FsPath },
    /// Make a symbolic link at `target` that points to the name `source` beside it.
    Symlink { source: String, target: FsPath },
    /// Warn that the file `name` is already in the rules directory and stays where it is.
    WarnExists { name: String },
    /// Tell the user.
    Tell { notice: Notice },
    /// Add `dir` to the watched directories; that this fails is a warning, not an error.
    Watch { dir: FsPath },
}

/// The specification value of a [`ProjectAction`].
pub ghost enum ProjectActionView {
    Write { path: Seq<Seq<char>>, contents: Contents },
    Rename { from: Seq<Seq<char>>, to: Seq<Seq<char>> },
    EnsureDir { path: Seq<Seq<char>> },
    RemoveIfPresent { path: Seq<Seq<char>> },
    Symlink { source: Seq<char>, target: Seq<Seq<char>> },
    WarnExists { name: Seq<char> },
    Tell { notice: Notice },
    Watch { dir: Seq<Seq<char>> },
}

impl View for ProjectAction {
    type V = ProjectActionView;

    open spec fn view(&self) -> ProjectActionView {
        match self {
            ProjectAction::Write { path, contents } => ProjectActionView::Write {
                path: path@,
                contents: *contents,
            },
            ProjectAction::Rename { from, to } => ProjectActionView::Rename { from: from@, to: to@ },
            ProjectAction::EnsureDir { path } => ProjectActionView::EnsureDir { path: path@ },
            ProjectAction::RemoveIfPresent { path } => ProjectActionView::RemoveIfPresent {
                path: path@,
            },
            ProjectAction::Symlink { source, target } => ProjectActionView::Symlink {
                source: source@,
                target: target@,
            },
            ProjectAction::WarnExists { name } => ProjectActionView::WarnExists { name: name@ },
            ProjectAction::Tell { notice } => ProjectActionView::Tell { notice: *notice },
            ProjectAction::Watch { dir } => ProjectActionView::Watch { dir: dir@ },
        }
    }
}

impl DeepView for ProjectAction {
    type V = ProjectActionView;

    open spec fn deep_view(&self) -> ProjectActionView {
        self.view()
    }
}

/// Appends `action` to `actions`.
fn push_project_action(actions: &mut Vec<ProjectAction>, action: ProjectAction)
    ensures
        final(actions).deep_view() == old(actions).deep_view().push(action@),
{
    let ghost before = actions.deep_view();
    let ghost a = action@;
    actions.push(action);
    assert(actions.deep_view() =~= before.push(a));
}

/// How the instruction file of the directory `dir` comes about, given what
/// is there. With both other names an empty file is made and the user told;
/// with one of them that file is renamed; with neither a file with the
/// default text is made.
pub open spec fn agents_file_plan(dir: Seq<Seq<char>>, status: AgentFileStatusView) -> Seq<
    ProjectActionView,
> {
    let agents = dir.push(AGENTS_FILENAME@);
    match (status.first_alias, status.second_alias) {
        (Some(_), Some(_)) => seq![
            ProjectActionView::Write { path: agents, contents: Contents::Empty },
            ProjectActionView::Tell { notice: Notice::BothFound },
        ],
        (Some(first), None) => seq![ProjectActionView::Rename { from: first, to: agents }],
        (None, Some(second)) => seq![ProjectActionView::Rename { from: second, to: agents }],
        (None, None) => seq![ProjectActionView::Write { path: agents, contents: Contents::Default }],
    }
}

/// Plans how the instruction file of the directory `dir` comes about, given
/// what is there.
pub fn create_agents_file_based_on_existing_files(dir: &FsPath, file_status: AgentFileStatus) -> (plan: Vec<ProjectAction>)
    ensures
        plan.deep_view() == agents_file_plan(dir@, file_status@),
{
    let agents = dir.join(AGENTS_FILENAME);
    let mut plan: Vec<ProjectAction> = Vec::new();
    assert(plan.deep_view() =~= Seq::<ProjectActionView>::empty());
    match (file_status.first_alias, file_status.second_alias) {
        (Some(_), Some(_)) => {
            push_project_action(
                &mut plan,
                ProjectAction::Write { path: agents, contents: Contents::Empty },
            );
            push_project_action(&mut plan, ProjectAction::Tell { notice: Notice::BothFound });
        },
        (Some(first), None) => {
            push_project_action(&mut plan, ProjectAction::Rename { from: first, to: agents });
        },
        (None, Some(second)) => {
            push_project_action(&mut plan, ProjectAction::Rename { from: second, to: agents });
        },
        (None, None) => {
            push_project_action(
                &mut plan,
                ProjectAction::Write { path: agents, contents: Contents::Default },
            );
        },
    }
    assert(plan.deep_view() =~= agents_file_plan(dir@, file_status@));
    plan
}

/// What initializing the directory `dir` asks, given the names of its
/// entries: nothing where the instruction file is there; else the
/// instruction file comes about and the rules directory is made sure of.
pub open spec fn init_plan(
    dir: Seq<Seq<char>>,
    names: Seq<Seq<char>>,
    aliases: AliasNamesView,
) -> Seq<ProjectActionView> {
    let status = scan_of(dir, names, aliases);
    if status.agents_exists {
        Seq::empty()
    } else {
        agents_file_plan(dir, status).push(ProjectActionView::EnsureDir { path: rules_dir_of(dir) })
    }
}

/// Plans the initialization of the directory `dir`, given the names of its entries.
pub fn create_agents_file_in_dir(dir: &FsPath, names: &Vec<String>, aliases: &AliasNames) -> (plan: Vec<ProjectAction>)
    ensures
        plan.deep_view() == init_plan(dir@, names.deep_view(), aliases@),
{
    let file_status = scan_directory_for_agent_files(dir, names, aliases);
    if file_status.agents_exists {
        let plan: Vec<ProjectAction> = Vec::new();
        assert(plan.deep_view() =~= Seq::<ProjectActionView>::empty());
        return plan;
    }
    let mut plan = create_agents_file_based_on_existing_files(dir, file_status);
    push_project_action(&mut plan, ensure_rules_directory_exists(dir));
    plan
}

/// The request that makes sure of the rules directory of the project at `dir`.
pub fn ensure_rules_directory_exists(dir: &FsPath) -> (action: ProjectAction)
    ensures
        action@ == (ProjectActionView::EnsureDir { path: rules_dir_of(dir@) }),
{
    ProjectAction::EnsureDir { path: rules_dir(dir) }
}

/// Whether `names` has the name `name`.
fn has_name(names: &Vec<String>, name: &str) -> (r: bool)
    ensures
        r == names.deep_view().contains(name@),
{
    let mut i: usize = 0;
    while i < names.len()
        invariant
            i <= names.len(),
            forall|j: int| 0 <= j < i ==> names.deep_view()[j] != name@,
        decreases names.len() - i,
    {
        if names[i].as_str().unicode_len() == name.unicode_len() && same_text(
            names[i].as_str(),
            name,
        ) {
            assert(names.deep_view()[i as int] == name@);
            return true;
        }
        i += 1;
    }
    false
}

/// Whether two texts of the same length are the same.
fn same_text(a: &str, b: &str) -> (r: bool)
    requires
        a@.len() == b@.len(),
    ensures
        r == (a@ == b@),
{
    let n = a.unicode_len();
    let mut i: usize = 0;
    while i < n
        invariant
            i <= n,
            n == a@.len(),
            n == b@.len(),
            forall|j: int| 0 <= j < i ==> a@[j] == b@[j],
        decreases n - i,
    {
        if a.get_char(i) != b.get_char(i) {
            return false;
        }
        i += 1;
    }
    assert(a@ =~= b@);
    true
}

/// The names in the target directory after the entries `moving` of a source
/// directory were moved there where they could be, starting from `present`.
pub open spec fn names_after_move(present: Seq<Seq<char>>, moving: Seq<Seq<char>>) -> Seq<Seq<char>>
    decreases moving.len(),
{
    if moving.len() == 0 {
        present
    } else {
        let before = names_after_move(present, moving.drop_last());
        if before.contains(moving.last()) {
            before
        } else {
            before.push(moving.last())
        }
    }
}

/// What moving the entries `moving` of the directory `source` into the
/// directory `target` asks, where `target` holds the names `present`: an
/// entry whose name is there already stays and is warned of, every other is
/// renamed into `target`.
pub open spec fn move_plan(
    source: Seq<Seq<char>>,
    target: Seq<Seq<char>>,
    present: Seq<Seq<char>>,
    moving: Seq<Seq<char>>,
) -> Seq<ProjectActionView>
    decreases moving.len(),
{
    if moving.len() == 0 {
        Seq::empty()
    } else {
        let name = moving.last();
        let before = move_plan(source, target, present, moving.drop_last());
        if names_after_move(present, moving.drop_last()).contains(name) {
            before.push(ProjectActionView::WarnExists { name })
        } else {
            before.push(
                ProjectActionView::Rename { from: source.push(name), to: target.push(name) },
            )
        }
    }
}

/// Plans the move of the entries of the directory `source_dir`, whose names
/// are `moving`, or nothing where it does not exist, into `target_dir`,
/// which holds the names `present`. The requests are appended to `plan` and
/// the names that arrive to `present`.
pub fn move_files_to_rules_dir(
    plan: &mut Vec<ProjectAction>,
    source_dir: &FsPath,
    target_dir: &FsPath,
    present: &mut Vec<String>,
    moving: Option<&Vec<String>>,
)
    ensures
        final(plan).deep_view() == old(plan).deep_view() + move_plan(
            source_dir@,
            target_dir@,
            old(present).deep_view(),
            match moving {
                Some(names) => names.deep_view(),
                None => Seq::empty(),
            },
        ),
        final(present).deep_view() == names_after_move(
            old(present).deep_view(),
            match moving {
                Some(names) => names.deep_view(),
                None => Seq::empty(),
            },
        ),
{
    let ghost plan_before = plan.deep_view();
    let ghost present_before = present.deep_view();
    assert(plan_before =~= plan_before + Seq::<ProjectActionView>::empty());
    let names = match moving {
        Some(names) => names,
        None => {
            return ;
        },
    };
    let mut i: usize = 0;
    while i < names.len()
        invariant
            i <= names.len(),
            plan.deep_view() == plan_before + move_plan(
                source_dir@,
                target_dir@,
                present_before,
                names.deep_view().take(i as int),
            ),
            present.deep_view() == names_after_move(
                present_before,
                names.deep_view().take(i as int),
            ),
        decreases names.len() - i,
    {
        let ghost done = names.deep_view().take(i as int);
        let ghost next = names.deep_view().take(i + 1);
        let ghost so_far = plan.deep_view();
        let ghost there = present.deep_view();
        proof {
            assert(next.drop_last() =~= done);
            assert(next.last() == names[i as int]@);
        }
        let name = names[i].as_str();
        if has_name(present, name) {
            push_project_action(plan, ProjectAction::WarnExists { name: names[i].clone() });
        } else {
            push_project_action(
                plan,
                ProjectAction::Rename { from: source_dir.join(name), to: target_dir.join(name) },
            );
            present.push(names[i].clone());
            assert(present.deep_view() =~= there.push(names[i as int]@));
        }
        assert(plan.deep_view() =~= plan_before + move_plan(
            source_dir@,
            target_dir@,
            present_before,
            next,
        ));
        i += 1;
    }
    assert(names.deep_view().take(names.len() as int) =~= names.deep_view());
}

/// Why the other names of the instruction file were not made.
#[derive(Debug, Clone, Copy, PartialEq, Eq)]
pub enum SymlinkError {
    /// The directory has no instruction file.
    AgentsFileMissing,
}

impl SymlinkError {
    /// The kind of the error.
    pub fn kind(&self) -> (kind: ErrorKind)
        ensures
            kind == ErrorKind::NotFound,
    {
        ErrorKind::NotFound
    }

    /// The error in words.
    pub fn message(&self) -> (text: String)
        ensures
            text@ == "AGENTS.md file not found. Please run 'known init' first."@,
    {
        String::from_str("AGENTS.md file not found. Please run 'known init' first.")
    }
}

/// What the directory `dir` holds when its instruction file is to get its other names.
#[derive(Debug)]
pub struct ProjectListing {
    /// Whether the instruction file exists.
    pub agents_exists: bool,
    /// The names in the rules directory; none where it does not exist.
    pub rules_names: Vec<String>,
    /// The names in the first mirror, or nothing where it does not exist.
    pub cursor_names: Option<Vec<String>>,
    /// The names in the second mirror, or nothing where it does not exist.
    pub windsurf_names: Option<Vec<String>>,
}

/// The names of `names`, or none.
pub open spec fn names_or_none(names: Option<Vec<String>>) -> Seq<Seq<char>> {
    match names {
        Some(names) => names.deep_view(),
        None => Seq::empty(),
    }
}

/// What giving the instruction file of `dir` its other names asks. The
/// rules directory is made sure of; what the two mirrors hold moves into it,
/// the first mirror first; the two other names are removed where they exist
/// and made anew as links to the instruction file; and the directory is put
/// under watch.
pub open spec fn symlink_plan(
    dir: Seq<Seq<char>>,
    rules_names: Seq<Seq<char>>,
    cursor_names: Seq<Seq<char>>,
    windsurf_names: Seq<Seq<char>>,
    aliases: AliasNamesView,
) -> Seq<ProjectActionView> {
    let rules = rules_dir_of(dir);
    let first = dir.push(aliases.first);
    let second = dir.push(aliases.second);
    seq![ProjectActionView::EnsureDir { path: rules }] + move_plan(
        cursor_rules_dir_of(dir),
        rules,
        rules_names,
        cursor_names,
    ) + move_plan(
        windsurf_rules_dir_of(dir),
        rules,
        names_after_move(rules_names, cursor_names),
        windsurf_names,
    ) + seq![
        ProjectActionView::RemoveIfPresent { path: first },
        ProjectActionView::RemoveIfPresent { path: second },
        ProjectActionView::Symlink { source: AGENTS_FILENAME@, target: first },
        ProjectActionView::Symlink { source: AGENTS_FILENAME@, target: second },
        ProjectActionView::Watch { dir },
    ]
}

/// Plans how the instruction file of the directory `dir` gets its other
/// names, given what the directory holds. Without an instruction file there
/// is nothing to link to, which is an error.
pub fn create_symlinks_in_dir(dir: &FsPath, listing: ProjectListing, aliases: &AliasNames) -> (r: Result<
    Vec<ProjectAction>,
    SymlinkError,
>)
    ensures
        match r {
            Ok(plan) => listing.agents_exists && plan.deep_view() == symlink_plan(
                dir@,
                listing.rules_names.deep_view(),
                names_or_none(listing.cursor_names),
                names_or_none(listing.windsurf_names),
                aliases@,
            ),
            Err(error) => !listing.agents_exists && error == SymlinkError::AgentsFileMissing,
        },
{
    if !listing.agents_exists {
        return Err(SymlinkError::AgentsFileMissing);
    }
    let rules = rules_dir(dir);
    let first = dir.join(aliases.first.as_str());
    let second = dir.join(aliases.second.as_str());
    let mut present = listing.rules_names;
    let mut plan: Vec<ProjectAction> = Vec::new();
    push_project_action(&mut plan, ensure_rules_directory_exists(dir));
    let ghost head = plan.deep_view();
    assert(head =~= seq![ProjectActionView::EnsureDir { path: rules_dir_of(dir@) }]);
    move_files_to_rules_dir(
        &mut plan,
        &cursor_rules_dir(dir),
        &rules,
        &mut present,
        listing.cursor_names.as_ref(),
    );
    move_files_to_rules_dir(
        &mut plan,
        &windsurf_rules_dir(dir),
        &rules,
        &mut present,
        listing.windsurf_names.as_ref(),
    );
    let ghost moved = plan.deep_view();
    push_project_action(&mut plan, ProjectAction::RemoveIfPresent { path: first.clone() });
    push_project_action(&mut plan, ProjectAction::RemoveIfPresent { path: second.clone() });
    push_project_action(
        &mut plan,
        ProjectAction::Symlink { source: AGENTS_FILENAME.to_owned(), target: first },
    );
    push_project_action(
        &mut plan,
        ProjectAction::Symlink { source: AGENTS_FILENAME.to_owned(), target: second },
    );
    push_project_action(&mut plan, ProjectAction::Watch { dir: dir.clone() });
    assert(plan.deep_view() =~= symlink_plan(
        dir@,
        listing.rules_names.deep_view(),
        names_or_none(listing.cursor_names),
        names_or_none(listing.windsurf_names),
        aliases@,
    ));
    Ok(plan)
}

} // verus!
