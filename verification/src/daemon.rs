//! The daemon: its states, and what it does on each thing that happens.
//!
//! The daemon itself neither waits nor touches a file. It is told what
//! happened, as a [`DaemonEvent`], and says what is to be done, as a
//! [`DaemonStep`]; whoever runs it does that and comes back with the next
//! event.

use vstd::prelude::*;
use vstd::string::StringExecFns;
use crate::action::{Action, FsAction};
use crate::config::{outside, Config};
use crate::error::ErrorKind;
use crate::event::{FileEvent, ObservedPathView};
use crate::index::{distinct_rules_paths, owned_by, WatchEntryView};
use crate::mirror::{event_plan, handle_file_event};
use crate::path::{clone_paths, file_name_of, parent_of, FsPath};
use crate::single_instance::{lock_message_of, LockError};
use crate::watchers::{setup_message_of, SetupError, WatcherSetup};

verus! {

/// Whether `path` is the file of the name of `config_file_path` in the
/// directory of `config_file_path`.
pub open spec fn names_config_file(path: Seq<Seq<char>>, config_file_path: Seq<Seq<char>>) -> bool {
    &&& file_name_of(path) == file_name_of(config_file_path)
    &&& parent_of(path) == parent_of(config_file_path)
}

/// Whether a notification with the paths `paths` is about the configuration file.
pub open spec fn is_config_event(
    paths: Seq<ObservedPathView>,
    config_file_path: Seq<Seq<char>>,
) -> bool {
    exists|i: int| 0 <= i < paths.len() && names_config_file((#[trigger] paths[i]).path, config_file_path)
}

/// Whether the two paths have the same file name, or both none.
fn same_file_name(a: &FsPath, b: &FsPath) -> (r: bool)
    ensures
        r == (file_name_of(a@) == file_name_of(b@)),
{
    match (a.file_name(), b.file_name()) {
        (Some(x), Some(y)) => x == y,
        (None, None) => true,
        _ => false,
    }
}

/// Whether the two paths have the same parent, or both none.
fn same_parent(a: &FsPath, b: &FsPath) -> (r: bool)
    ensures
        r == (parent_of(a@) == parent_of(b@)),
{
    match (a.parent(), b.parent()) {
        (Some(x), Some(y)) => x.same_as(&y),
        (None, None) => true,
        _ => false,
    }
}

/// Whether the notification `event` is about the configuration file at
/// `config_file_path`: one of its paths has that file's name and that file's
/// directory.
pub fn is_config_file_event(event: &FileEvent, config_file_path: &FsPath) -> (r: bool)
    ensures
        r == is_config_event(event.paths.deep_view(), config_file_path@),
{
    let mut i: usize = 0;
    while i < event.paths.len()
        invariant
            i <= event.paths.len(),
            forall|j: int|
                0 <= j < i ==> !names_config_file(
                    (#[trigger] event.paths.deep_view()[j]).path,
                    config_file_path@,
                ),
        decreases event.paths.len() - i,
    {
        assert(event.paths.deep_view()[i as int].path == event.paths[i as int].path@);
        if same_file_name(&event.paths[i].path, config_file_path) && same_parent(
            &event.paths[i].path,
            config_file_path,
        ) {
            return true;
        }
        i += 1;
    }
    false
}

/// The states of the daemon.
#[derive(Debug, Clone, Copy, PartialEq, Eq)]
pub enum DaemonState {
    /// The daemon takes the lock and sets its watches up.
    Initializing,
    /// The daemon handles what happens.
    Running,
    /// The daemon was asked to stop and gives up what it holds.
    Draining,
    /// The daemon has ended.
    Stopped,
}

/// Why the daemon ended without having run.
#[derive(Debug, Clone, Copy, PartialEq, Eq)]
pub enum DaemonError {
    /// The lock was not to be had.
    Lock { error: LockError },
    /// No watch came about.
    Setup { reason: SetupError },
}

impl DaemonError {
    /// The kind of the error.
    pub fn kind(&self) -> (kind: ErrorKind)
        ensures
            kind == match *self {
                DaemonError::Lock { .. } => ErrorKind::AlreadyExists,
                DaemonError::Setup { .. } => ErrorKind::NotFound,
            },
    {
        match self {
            DaemonError::Lock { error } => error.kind(),
            DaemonError::Setup { reason } => reason.kind(),
        }
    }

    /// The error in words.
    pub fn message(&self) -> (text: String)
        ensures
            text@ == match *self {
                DaemonError::Lock { error } => lock_message_of(error),
                DaemonError::Setup { reason } => setup_message_of(reason),
            },
    {
        match self {
            DaemonError::Lock { error } => error.message(),
            DaemonError::Setup { reason } => reason.message(),
        }
    }
}

/// How long one wait for a notification lasts, in milliseconds.
pub const POLL_MILLIS: u64 = 100;

/// What happened.
#[derive(Debug)]
pub enum DaemonEvent {
    /// The lock was taken.
    LockAcquired,
    /// The lock was not to be had.
    LockRefused { error: LockError },
    /// Every configured directory was gone through, and those that came
    /// under watch were registered.
    SetupFinished,
    /// A request to shut down was found.
    ShutdownRequested,
    /// The wait ended without a notification.
    Timeout,
    /// The watch layer reported an error.
    WatchError,
    /// The watch layer is gone.
    Disconnected,
    /// A notification came.
    FileSystem { event: FileEvent },
    /// The configuration was read again.
    ConfigLoaded { config: Config },
    /// The configuration could not be read or parsed.
    ConfigUnreadable,
    /// What the daemon held was given up.
    Released,
}

/// The specification value of a [`DaemonEvent`].
pub ghost enum DaemonEventView {
    LockAcquired,
    LockRefused { error: LockError },
    SetupFinished,
    ShutdownRequested,
    Timeout,
    WatchError,
    Disconnected,
    FileSystem { kind: crate::event::EventKind, paths: Seq<ObservedPathView> },
    ConfigLoaded { dirs: Seq<Seq<Seq<char>>> },
    ConfigUnreadable,
    Released,
}

impl View for DaemonEvent {
    type V = DaemonEventView;

    open spec fn view(&self) -> DaemonEventView {
        match self {
            DaemonEvent::LockAcquired => DaemonEventView::LockAcquired,
            DaemonEvent::LockRefused { error } => DaemonEventView::LockRefused { error: *error },
            DaemonEvent::SetupFinished => DaemonEventView::SetupFinished,
            DaemonEvent::ShutdownRequested => DaemonEventView::ShutdownRequested,
            DaemonEvent::Timeout => DaemonEventView::Timeout,
            DaemonEvent::WatchError => DaemonEventView::WatchError,
            DaemonEvent::Disconnected => DaemonEventView::Disconnected,
            DaemonEvent::FileSystem { event } => DaemonEventView::FileSystem {
                kind: event.kind,
                paths: event.paths.deep_view(),
            },
            DaemonEvent::ConfigLoaded { config } => DaemonEventView::ConfigLoaded {
                dirs: config.dirs(),
            },
            DaemonEvent::ConfigUnreadable => DaemonEventView::ConfigUnreadable,
            DaemonEvent::Released => DaemonEventView::Released,
        }
    }
}

impl DaemonEvent {
    /// A configuration that comes with the event lists no directory twice.
    pub open spec fn wf(&self) -> bool {
        match self {
            DaemonEvent::ConfigLoaded { config } => config.wf(),
            _ => true,
        }
    }
}

/// What is to be done.
#[derive(Debug, PartialEq, Eq)]
pub enum DaemonStep {
    /// Take the single-instance lock, and come back with
    /// [`DaemonEvent::LockAcquired`] or [`DaemonEvent::LockRefused`].
    AcquireLock,
    /// Watch the configuration file. Go through `directories`: plan the setup
    /// of each, carry it out, and register each that came under watch with
    /// [`Daemon::register`]. A directory that fails is reported and does not
    /// keep the others back. Then come back with [`DaemonEvent::SetupFinished`].
    SetUp { directories: Vec<FsPath> },
    /// Look for a request to shut down, without waiting. Without one, wait
    /// for a notification, for `timeout_millis` milliseconds at most. Come
    /// back with what was found.
    Poll { timeout_millis: u64 },
    /// Carry out `actions` in order up to the first that fails, report a
    /// failure, and poll again.
    Apply { actions: Vec<FsAction> },
    /// Read the configuration again, and come back with
    /// [`DaemonEvent::ConfigLoaded`] or [`DaemonEvent::ConfigUnreadable`].
    Reload,
    /// The watched directories changed. For each of `removed`: drop its
    /// watch, and remove the files in its mirrors. For each of `added`: set
    /// it up as at the start. A failure is reported and keeps nothing else
    /// back. Then poll again.
    Reconfigure { added: Vec<FsPath>, removed: Vec<FsPath> },
    /// Drop every watch and the lock, and come back with [`DaemonEvent::Released`].
    Release,
    /// Drop whatever is held and end with `result`.
    Exit { result: Result<(), DaemonError> },
}

/// The specification value of a [`DaemonStep`].
pub ghost enum DaemonStepView {
    AcquireLock,
    SetUp { directories: Seq<Seq<Seq<char>>> },
    Poll { timeout_millis: u64 },
    Apply { actions: Seq<Action> },
    Reload,
    Reconfigure { added: Seq<Seq<Seq<char>>>, removed: Seq<Seq<Seq<char>>> },
    Release,
    Exit { result: Result<(), DaemonError> },
}

impl View for DaemonStep {
    type V = DaemonStepView;

    open spec fn view(&self) -> DaemonStepView {
        match self {
            DaemonStep::AcquireLock => DaemonStepView::AcquireLock,
            DaemonStep::SetUp { directories } => DaemonStepView::SetUp {
                directories: directories.deep_view(),
            },
            DaemonStep::Poll { timeout_millis } => DaemonStepView::Poll {
                timeout_millis: *timeout_millis,
            },
            DaemonStep::Apply { actions } => DaemonStepView::Apply { actions: actions.deep_view() },
            DaemonStep::Reload => DaemonStepView::Reload,
            DaemonStep::Reconfigure { added, removed } => DaemonStepView::Reconfigure {
                added: added.deep_view(),
                removed: removed.deep_view(),
            },
            DaemonStep::Release => DaemonStepView::Release,
            DaemonStep::Exit { result } => DaemonStepView::Exit { result: *result },
        }
    }
}

/// The daemon.
#[derive(Debug)]
pub struct Daemon {
    state: DaemonState,
    lock_pending: bool,
    config: Config,
    setup: WatcherSetup,
    failure: Option<DaemonError>,
}

/// The specification value of a [`Daemon`].
pub ghost struct DaemonView {
    pub state: DaemonState,
    /// While the daemon initializes: whether the lock is still to be taken.
    pub lock_pending: bool,
    /// The watched directories as configured, in their order.
    pub dirs: Seq<Seq<Seq<char>>>,
    /// The rules directories under watch.
    pub index: Seq<WatchEntryView>,
    /// The configuration file, which is watched too.
    pub config_file_path: Seq<Seq<char>>,
    /// Why the daemon ended, where it ended for an error.
    pub failure: Option<DaemonError>,
}

impl DaemonView {
    /// No directory is configured twice, no rules directory is watched twice,
    /// and every rules directory under watch belongs to a configured directory.
    pub open spec fn wf(self) -> bool {
        &&& self.dirs.no_duplicates()
        &&& distinct_rules_paths(self.index)
        &&& forall|i: int|
            0 <= i < self.index.len() ==> self.dirs.to_set().contains(
                (#[trigger] self.index[i]).project,
            )
    }

    /// How the daemon ended, once it is stopped.
    pub open spec fn result(self) -> Result<(), DaemonError> {
        match self.failure {
            Some(error) => Err(error),
            None => Ok(()),
        }
    }

    /// Whether a directory can be registered: the watches are being set up,
    /// at the start or after the configuration changed.
    pub open spec fn accepts_watches(self) -> bool {
        ||| self.state == DaemonState::Initializing && !self.lock_pending
        ||| self.state == DaemonState::Running
    }
}

/// What the daemon waits for in its state: the step that is due when nothing new happened.
pub open spec fn pending_step(daemon: DaemonView) -> DaemonStepView {
    match daemon.state {
        DaemonState::Initializing => if daemon.lock_pending {
            DaemonStepView::AcquireLock
        } else {
            DaemonStepView::SetUp { directories: daemon.dirs }
        },
        DaemonState::Running => DaemonStepView::Poll { timeout_millis: POLL_MILLIS },
        DaemonState::Draining => DaemonStepView::Release,
        DaemonState::Stopped => DaemonStepView::Exit { result: daemon.result() },
    }
}

/// The daemon as it ends with `failure`, or without an error.
pub open spec fn stopped(daemon: DaemonView, failure: Option<DaemonError>) -> DaemonView {
    DaemonView { state: DaemonState::Stopped, failure, ..daemon }
}

/// The daemon in the state `state`.
pub open spec fn moved(daemon: DaemonView, state: DaemonState) -> DaemonView {
    DaemonView { state, ..daemon }
}

/// The daemon at its start, with the watched directories `dirs` and the
/// configuration file at `config_file_path`. With nothing to watch and no
/// lock to take it has ended before it began, which is no error.
pub open spec fn initial(
    dirs: Seq<Seq<Seq<char>>>,
    config_file_path: Seq<Seq<char>>,
    with_lock: bool,
) -> DaemonView {
    DaemonView {
        state: if !with_lock && dirs.len() == 0 {
            DaemonState::Stopped
        } else {
            DaemonState::Initializing
        },
        lock_pending: with_lock,
        dirs,
        index: Seq::empty(),
        config_file_path,
        failure: None,
    }
}

/// The daemon after `event`, and what is to be done then.
///
/// While it initializes, the daemon takes the lock, ends at once and without
/// error if nothing is configured, and else runs as soon as one directory at
/// least is under watch; without one it ends with an error, as it does when
/// the lock is refused. While it runs, a request to shut down and the loss of
/// the watch layer make it drain; a timeout and an error of the watch layer
/// change nothing; a notification about the configuration file makes it read
/// the configuration again, and any other notification goes to the mirror
/// engine. A configuration that cannot be read changes nothing. A new
/// configuration takes the place of the old one: the watches of the
/// directories that it no longer has are dropped, those of the others stay as
/// they are, and the directories that it has and the old one had not are to
/// be set up. Once it has drained, the daemon is stopped, and stays so.
/// Whatever else happens in a state changes nothing, and the step that the
/// state waits for is due again.
pub open spec fn transition(daemon: DaemonView, event: DaemonEventView) -> (DaemonView, DaemonStepView) {
    match (daemon.state, event) {
        (DaemonState::Initializing, DaemonEventView::LockAcquired) if daemon.lock_pending => {
            if daemon.dirs.len() == 0 {
                let next = stopped(DaemonView { lock_pending: false, ..daemon }, None);
                (next, pending_step(next))
            } else {
                let next = DaemonView { lock_pending: false, ..daemon };
                (next, pending_step(next))
            }
        },
        (DaemonState::Initializing, DaemonEventView::LockRefused { error }) if daemon.lock_pending => {
            let next = stopped(daemon, Some(DaemonError::Lock { error }));
            (next, pending_step(next))
        },
        (DaemonState::Initializing, DaemonEventView::SetupFinished) if !daemon.lock_pending => {
            if daemon.index.len() > 0 {
                let next = moved(daemon, DaemonState::Running);
                (next, pending_step(next))
            } else {
                let next = stopped(
                    daemon,
                    Some(DaemonError::Setup { reason: SetupError::NoRulesDirectories }),
                );
                (next, pending_step(next))
            }
        },
        (DaemonState::Running, DaemonEventView::ShutdownRequested) => {
            let next = moved(daemon, DaemonState::Draining);
            (next, pending_step(next))
        },
        (DaemonState::Running, DaemonEventView::Disconnected) => {
            let next = moved(daemon, DaemonState::Draining);
            (next, pending_step(next))
        },
        (DaemonState::Running, DaemonEventView::FileSystem { kind, paths }) => {
            if is_config_event(paths, daemon.config_file_path) {
                (daemon, DaemonStepView::Reload)
            } else {
                (daemon, DaemonStepView::Apply { actions: event_plan(kind, paths, daemon.index) })
            }
        },
        (DaemonState::Running, DaemonEventView::ConfigLoaded { dirs }) => {
            let next = DaemonView {
                dirs,
                index: daemon.index.filter(owned_by(dirs.to_set())),
                ..daemon
            };
            (
                next,
                DaemonStepView::Reconfigure {
                    added: dirs.filter(outside(daemon.dirs.to_set())),
                    removed: daemon.dirs.filter(outside(dirs.to_set())),
                },
            )
        },
        (DaemonState::Draining, DaemonEventView::Released) => {
            let next = stopped(daemon, None);
            (next, pending_step(next))
        },
        _ => (daemon, pending_step(daemon)),
    }
}

/// The daemon stays well formed whatever happens, as long as a new
/// configuration lists no directory twice.
pub proof fn lemma_transition_keeps_wf(daemon: DaemonView, event: DaemonEventView)
    requires
        daemon.wf(),
        event matches DaemonEventView::ConfigLoaded { dirs } ==> dirs.no_duplicates(),
    ensures
        transition(daemon, event).0.wf(),
{
    if let DaemonEventView::ConfigLoaded { dirs } = event {
        if daemon.state == DaemonState::Running {
            let keep = owned_by(dirs.to_set());
            let kept = daemon.index.filter(keep);
            crate::index::lemma_filter_keeps_distinct(daemon.index, keep);
            assert forall|i: int| 0 <= i < kept.len() implies dirs.to_set().contains(
                (#[trigger] kept[i]).project,
            ) by {
                daemon.index.lemma_filter_pred(keep, i);
            }
        }
    }
}

/// The daemon moves through its states in one direction: from initializing
/// to running or stopped, from running to draining, from draining to
/// stopped; and once stopped it stays stopped.
pub proof fn lemma_states_in_order(daemon: DaemonView, event: DaemonEventView)
    ensures
        ({
            let next = transition(daemon, event).0.state;
            match daemon.state {
                DaemonState::Initializing => next == DaemonState::Initializing || next
                    == DaemonState::Running || next == DaemonState::Stopped,
                DaemonState::Running => next == DaemonState::Running || next
                    == DaemonState::Draining,
                DaemonState::Draining => next == DaemonState::Draining || next
                    == DaemonState::Stopped,
                DaemonState::Stopped => transition(daemon, event).0 == daemon,
            }
        }),
        transition(daemon, event).0.state == DaemonState::Running && daemon.state
            == DaemonState::Initializing ==> !daemon.lock_pending && daemon.index.len() > 0,
{
}

/// A daemon without directories ends without error and without having run:
/// at its start where it takes no lock, and as soon as it has the lock
/// where it takes one.
pub proof fn lemma_nothing_to_watch(config_file_path: Seq<Seq<char>>)
    ensures
        initial(Seq::empty(), config_file_path, false).state == DaemonState::Stopped,
        pending_step(initial(Seq::empty(), config_file_path, false)) == (DaemonStepView::Exit {
            result: Ok(()),
        }),
        transition(
            initial(Seq::empty(), config_file_path, true),
            DaemonEventView::LockAcquired,
        ).0.state == DaemonState::Stopped,
        transition(initial(Seq::empty(), config_file_path, true), DaemonEventView::LockAcquired).1
            == (DaemonStepView::Exit { result: Ok(()) }),
{
}

/// Adding directories to the configuration of a running daemon interrupts no
/// watch: every rules directory that was under watch stays under watch, in
/// its place, the daemon keeps running, nothing is to be removed, and the
/// directories to set up are exactly the new ones.
pub proof fn lemma_hot_add_keeps_watches(daemon: DaemonView, dirs: Seq<Seq<Seq<char>>>)
    requires
        daemon.wf(),
        daemon.state == DaemonState::Running,
        forall|dir: Seq<Seq<char>>| daemon.dirs.contains(dir) ==> dirs.contains(dir),
    ensures
        ({
            let (next, step) = transition(daemon, DaemonEventView::ConfigLoaded { dirs });
            &&& next.state == DaemonState::Running
            &&& next.index == daemon.index
            &&& next.dirs == dirs
            &&& step matches DaemonStepView::Reconfigure { added, removed }
            &&& removed.len() == 0
            &&& forall|dir: Seq<Seq<char>>|
                added.contains(dir) <==> dirs.contains(dir) && !daemon.dirs.contains(dir)
        }),
{
    let keep = owned_by(dirs.to_set());
    assert forall|i: int| 0 <= i < daemon.index.len() implies keep(#[trigger] daemon.index[i]) by {
        assert(daemon.dirs.to_set().contains(daemon.index[i].project));
        assert(daemon.dirs.contains(daemon.index[i].project));
    }
    lemma_filter_all(daemon.index, keep);
    let gone = outside(dirs.to_set());
    let removed = daemon.dirs.filter(gone);
    if removed.len() > 0 {
        daemon.dirs.lemma_filter_pred(gone, 0);
        daemon.dirs.lemma_filter_contains_rev(gone, removed[0]);
        assert(dirs.contains(removed[0]));
    }
    lemma_filter_members(dirs, outside(daemon.dirs.to_set()));
}

/// Taking directories out of the configuration of a running daemon ends
/// their watches and no others: a rules directory stays under watch exactly
/// if its project is still configured, the daemon keeps running, and the
/// directories whose mirrors are to be emptied are exactly those that were
/// configured and are no longer.
pub proof fn lemma_hot_remove_drops_watches(daemon: DaemonView, dirs: Seq<Seq<Seq<char>>>)
    requires
        daemon.wf(),
        daemon.state == DaemonState::Running,
    ensures
        ({
            let (next, step) = transition(daemon, DaemonEventView::ConfigLoaded { dirs });
            &&& next.state == DaemonState::Running
            &&& next.dirs == dirs
            &&& forall|entry: WatchEntryView|
                next.index.contains(entry) <==> daemon.index.contains(entry) && dirs.contains(
                    entry.project,
                )
            &&& step matches DaemonStepView::Reconfigure { added, removed }
            &&& forall|dir: Seq<Seq<char>>|
                removed.contains(dir) <==> daemon.dirs.contains(dir) && !dirs.contains(dir)
        }),
{
    lemma_filter_members(daemon.index, owned_by(dirs.to_set()));
    lemma_filter_members(daemon.dirs, outside(dirs.to_set()));
}

/// A filter that every element passes changes nothing.
proof fn lemma_filter_all<A>(s: Seq<A>, keep: spec_fn(A) -> bool)
    requires
        forall|i: int| 0 <= i < s.len() ==> keep(#[trigger] s[i]),
    ensures
        s.filter(keep) == s,
    decreases s.len(),
{
    reveal(Seq::filter);
    if s.len() > 0 {
        let rest = s.drop_last();
        assert forall|i: int| 0 <= i < rest.len() implies keep(#[trigger] rest[i]) by {
            assert(rest[i] == s[i]);
        }
        lemma_filter_all(rest, keep);
        assert(keep(s[s.len() - 1]));
        assert(s.filter(keep) =~= rest.push(s.last()));
        assert(rest.push(s.last()) =~= s);
    } else {
        assert(s.filter(keep) =~= s);
    }
}

/// What passes a filter is what was there and meets the condition.
proof fn lemma_filter_members<A>(s: Seq<A>, keep: spec_fn(A) -> bool)
    ensures
        forall|x: A| s.filter(keep).contains(x) <==> s.contains(x) && keep(x),
{
    assert forall|x: A| s.filter(keep).contains(x) <==> s.contains(x) && keep(x) by {
        if s.filter(keep).contains(x) {
            let i = choose|i: int| 0 <= i < s.filter(keep).len() && s.filter(keep)[i] == x;
            s.lemma_filter_pred(keep, i);
            s.lemma_filter_contains_rev(keep, x);
        }
        if s.contains(x) && keep(x) {
            let i = choose|i: int| 0 <= i < s.len() && s[i] == x;
            s.lemma_filter_contains(keep, i);
        }
    }
}

impl View for Daemon {
    type V = DaemonView;

    closed spec fn view(&self) -> DaemonView {
        DaemonView {
            state: self.state,
            lock_pending: self.lock_pending,
            dirs: self.config.dirs(),
            index: self.setup.rules_paths@,
            config_file_path: self.setup.config_file_path@,
            failure: self.failure,
        }
    }
}

impl Daemon {
    /// The daemon at its start.
    fn start(config: Config, config_file_path: FsPath, with_lock: bool) -> (daemon: Daemon)
        requires
            config.wf(),
        ensures
            daemon@ == initial(config.dirs(), config_file_path@, with_lock),
            daemon@.wf(),
    {
        let state = if !with_lock && config.directory_count() == 0 {
            DaemonState::Stopped
        } else {
            DaemonState::Initializing
        };
        Daemon {
            state,
            lock_pending: with_lock,
            config,
            setup: WatcherSetup::new(config_file_path),
            failure: None,
        }
    }

    /// The state of the daemon.
    pub fn state(&self) -> (state: DaemonState)
        ensures
            state == self@.state,
    {
        self.state
    }

    /// The configuration that is in force.
    pub fn config(&self) -> (config: &Config)
        ensures
            config.dirs() == self@.dirs,
            self@.wf() ==> config.wf(),
    {
        &self.config
    }

    /// The rules directories under watch and the configuration file.
    pub fn watchers(&self) -> (setup: &WatcherSetup)
        ensures
            setup@.rules_paths == self@.index,
            setup@.config_file_path == self@.config_file_path,
    {
        &self.setup
    }

    /// The step that the daemon waits for in its state.
    pub fn next_step(&self) -> (step: DaemonStep)
        ensures
            step@ == pending_step(self@),
    {
        match self.state {
            DaemonState::Initializing => if self.lock_pending {
                DaemonStep::AcquireLock
            } else {
                DaemonStep::SetUp {
                    directories: clone_paths(self.config.get_watched_directories()),
                }
            },
            DaemonState::Running => DaemonStep::Poll { timeout_millis: POLL_MILLIS },
            DaemonState::Draining => DaemonStep::Release,
            DaemonState::Stopped => DaemonStep::Exit {
                result: match self.failure {
                    Some(error) => Err(error),
                    None => Ok(()),
                },
            },
        }
    }

    /// Registers the rules directory `rules_path`, in canonical form, as
    /// under watch for the project at `project`, and says whether it did. It
    /// does so while the watches are set up, at the start or after the
    /// configuration changed, for a project that is configured. A rules
    /// directory that is registered already changes its owner to `project`.
    pub fn register(&mut self, project: FsPath, rules_path: FsPath) -> (registered: bool)
        requires
            old(self)@.wf(),
        ensures
            final(self)@.wf(),
            registered == (old(self)@.accepts_watches() && old(self)@.dirs.to_set().contains(
                project@,
            )),
            !registered ==> final(self)@ == old(self)@,
            registered ==> final(self)@ == (DaemonView {
                index: final(self)@.index,
                ..old(self)@
            }),
            registered ==> ({
                let entry = WatchEntryView { rules_path: rules_path@, project: project@ };
                if exists|i: int|
                    0 <= i < old(self)@.index.len() && (#[trigger] old(self)@.index[i]).rules_path
                        == rules_path@ {
                    exists|i: int|
                        0 <= i < old(self)@.index.len() && (#[trigger] old(
                            self,
                        )@.index[i]).rules_path == rules_path@ && final(self)@.index == old(
                            self,
                        )@.index.update(i, entry)
                } else {
                    final(self)@.index == old(self)@.index.push(entry)
                }
            }),
    {
        let accepts = match self.state {
            DaemonState::Initializing => !self.lock_pending,
            DaemonState::Running => true,
            _ => false,
        };
        if accepts && self.config.contains_directory(&project) {
            self.setup.rules_paths.insert(rules_path, project);
            true
        } else {
            false
        }
    }

    /// Takes `event` in: the daemon changes as [`transition`] says, and the
    /// step that it names is returned.
    pub fn step(&mut self, event: DaemonEvent) -> (step: DaemonStep)
        requires
            old(self)@.wf(),
            event.wf(),
        ensures
            final(self)@.wf(),
            (final(self)@, step@) == transition(old(self)@, event@),
    {
        let ghost before = self@;
        match (self.state, event) {
            (DaemonState::Initializing, DaemonEvent::LockAcquired) => {
                if self.lock_pending {
                    self.lock_pending = false;
                    if self.config.directory_count() == 0 {
                        self.state = DaemonState::Stopped;
                        self.failure = None;
                    }
                }
                self.next_step()
            },
            (DaemonState::Initializing, DaemonEvent::LockRefused { error }) => {
                if self.lock_pending {
                    self.state = DaemonState::Stopped;
                    self.failure = Some(DaemonError::Lock { error });
                }
                self.next_step()
            },
            (DaemonState::Initializing, DaemonEvent::SetupFinished) => {
                if !self.lock_pending {
                    if self.setup.rules_paths.is_empty() {
                        self.state = DaemonState::Stopped;
                        self.failure = Some(
                            DaemonError::Setup { reason: SetupError::NoRulesDirectories },
                        );
                    } else {
                        self.state = DaemonState::Running;
                    }
                }
                self.next_step()
            },
            (DaemonState::Running, DaemonEvent::ShutdownRequested) => {
                self.state = DaemonState::Draining;
                self.next_step()
            },
            (DaemonState::Running, DaemonEvent::Disconnected) => {
                self.state = DaemonState::Draining;
                self.next_step()
            },
            (DaemonState::Running, DaemonEvent::FileSystem { event }) => {
                if is_config_file_event(&event, &self.setup.config_file_path) {
                    DaemonStep::Reload
                } else {
                    DaemonStep::Apply { actions: handle_file_event(&event, &self.setup.rules_paths) }
                }
            },
            (DaemonState::Running, DaemonEvent::ConfigLoaded { config }) => {
                let added = config.difference(&self.config);
                let removed = self.config.difference(&config);
                self.setup.rules_paths.retain_watched(&config);
                proof {
                    let kept = before.index.filter(owned_by(config@));
                    assert forall|i: int| 0 <= i < kept.len() implies config@.contains(
                        (#[trigger] kept[i]).project,
                    ) by {
                        before.index.lemma_filter_pred(owned_by(config@), i);
                    }
                }
                self.config = config;
                DaemonStep::Reconfigure { added, removed }
            },
            (DaemonState::Draining, DaemonEvent::Released) => {
                self.state = DaemonState::Stopped;
                self.failure = None;
                self.next_step()
            },
            _ => self.next_step(),
        }
    }
}

/// Starts the daemon for the watched directories of `config`, with the
/// configuration file at `config_file_path`: the lock is taken first.
pub fn start_daemon(config: Config, config_file_path: FsPath) -> (daemon: Daemon)
    requires
        config.wf(),
    ensures
        daemon@ == initial(config.dirs(), config_file_path@, true),
        daemon@.wf(),
{
    Daemon::start(config, config_file_path, true)
}

/// Starts the daemon as [`start_daemon`] does, but without the lock, so that
/// several can run side by side.
pub fn start_daemon_with_test_config(config: Config, config_file_path: FsPath) -> (daemon: Daemon)
    requires
        config.wf(),
    ensures
        daemon@ == initial(config.dirs(), config_file_path@, false),
        daemon@.wf(),
{
    Daemon::start(config, config_file_path, false)
}

} // verus!
