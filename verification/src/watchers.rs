//! The watch set: how a directory comes under watch, and what is kept of the
//! directories that are.
//!
//! A watch handle is the caller's: it subscribes and holds the handle of each
//! project for as long as the project has an entry here, and drops it when
//! the entry goes.

use vstd::prelude::*;
use vstd::string::StringExecFns;
use crate::action::{apply_all, Action, FsAction};
use crate::mirror_model::{in_sync, lemma_sync_brings_in_sync, listed_files, mirror_names};
use crate::index::{RulesPathIndex, WatchEntryView};
use crate::mirror::{
    cursor_rules_dir, cursor_rules_dir_of, rules_dir, rules_dir_of, sync_plan,
    sync_rules_directory, windsurf_rules_dir, windsurf_rules_dir_of, DirEntry, DirEntryView,
};
use crate::error::ErrorKind;
use crate::path::FsPath;

verus! {

/// What was found at the rules directory of a project.
#[derive(Debug, PartialEq, Eq)]
pub enum RulesProbe {
    /// The project has no rules directory.
    Absent,
    /// The rules directory exists: its canonical path and its listing.
    Present { canonical: FsPath, entries: Vec<DirEntry> },
    /// The rules directory exists and could not be resolved or listed, for `reason`.
    Unreadable { reason: String },
}

/// The specification value of a [`RulesProbe`].
pub ghost enum RulesProbeView {
    Absent,
    Present { canonical: Seq<Seq<char>>, entries: Seq<DirEntryView> },
    Unreadable { reason: Seq<char> },
}

impl View for RulesProbe {
    type V = RulesProbeView;

    open spec fn view(&self) -> RulesProbeView {
        match self {
            RulesProbe::Absent => RulesProbeView::Absent,
            RulesProbe::Present { canonical, entries } => RulesProbeView::Present {
                canonical: canonical@,
                entries: entries.deep_view(),
            },
            RulesProbe::Unreadable { reason } => RulesProbeView::Unreadable { reason: reason@ },
        }
    }
}

/// What to do to bring one directory under watch.
#[derive(Debug, PartialEq, Eq)]
pub enum DirectorySetup {
    /// The project has not opted in: warn and pass it over.
    Skip { rules_path: FsPath },
    /// The directory cannot be watched, for `reason`: report it and go on
    /// with the other directories.
    Failed { reason: String },
    /// Carry out `actions`, then subscribe to the changes inside
    /// `watch_path`: to those directly inside it alone unless `recursive`
    /// is set. When all of that has worked, register `rules_path` for the
    /// project; when any of it fails, report the failure and go on with the
    /// other directories.
    Watch { rules_path: FsPath, watch_path: FsPath, recursive: bool, actions: Vec<FsAction> },
}

/// The specification value of a [`DirectorySetup`].
pub ghost enum DirectorySetupView {
    Skip { rules_path: Seq<Seq<char>> },
    Failed { reason: Seq<char> },
    Watch {
        rules_path: Seq<Seq<char>>,
        watch_path: Seq<Seq<char>>,
        recursive: bool,
        actions: Seq<Action>,
    },
}

impl View for DirectorySetup {
    type V = DirectorySetupView;

    open spec fn view(&self) -> DirectorySetupView {
        match self {
            DirectorySetup::Skip { rules_path } => DirectorySetupView::Skip {
                rules_path: rules_path@,
            },
            DirectorySetup::Failed { reason } => DirectorySetupView::Failed { reason: reason@ },
            DirectorySetup::Watch { rules_path, watch_path, recursive, actions } => {
                DirectorySetupView::Watch {
                    rules_path: rules_path@,
                    watch_path: watch_path@,
                    recursive: *recursive,
                    actions: actions.deep_view(),
                }
            },
        }
    }
}

/// How the project at `dir` comes under watch, given what was found at its
/// rules directory. Without a rules directory it is passed over. With one,
/// the rules directory is registered under its canonical path, both mirrors
/// are made and fully resynced from the listing, and the rules directory is
/// watched, not what lies deeper in it.
pub open spec fn directory_setup_of(dir: Seq<Seq<char>>, probe: RulesProbeView) -> DirectorySetupView {
    match probe {
        RulesProbeView::Absent => DirectorySetupView::Skip { rules_path: rules_dir_of(dir) },
        RulesProbeView::Unreadable { reason } => DirectorySetupView::Failed { reason },
        RulesProbeView::Present { canonical, entries } => DirectorySetupView::Watch {
            rules_path: canonical,
            watch_path: rules_dir_of(dir),
            recursive: false,
            actions: sync_plan(
                rules_dir_of(dir),
                cursor_rules_dir_of(dir),
                windsurf_rules_dir_of(dir),
                entries,
            ),
        },
    }
}

/// Plans how the project at `dir` comes under watch, given what was found
/// at its rules directory.
pub fn setup_directory_watchers(dir: &FsPath, probe: RulesProbe) -> (setup: DirectorySetup)
    ensures
        setup@ == directory_setup_of(dir@, probe@),
{
    match probe {
        RulesProbe::Absent => DirectorySetup::Skip { rules_path: rules_dir(dir) },
        RulesProbe::Unreadable { reason } => DirectorySetup::Failed { reason },
        RulesProbe::Present { canonical, entries } => {
            let rules_path = rules_dir(dir);
            let cursor = cursor_rules_dir(dir);
            let windsurf = windsurf_rules_dir(dir);
            let actions = sync_rules_directory(&rules_path, &cursor, &windsurf, &entries);
            DirectorySetup::Watch {
                rules_path: canonical,
                watch_path: rules_path,
                recursive: false,
                actions,
            }
        },
    }
}

/// Setting a project up mirrors its rules files: where the rules directory
/// is its own canonical path and the mirrors held nothing but entries of
/// listed files, both mirrors mirror the regular files of the listing once
/// the actions of the setup are carried out.
pub proof fn lemma_setup_mirrors_rules(
    links: Map<Seq<Seq<char>>, Seq<Seq<char>>>,
    dir: Seq<Seq<char>>,
    entries: Seq<DirEntryView>,
)
    requires
        mirror_names(links, cursor_rules_dir_of(dir)).subset_of(listed_files(entries)),
        mirror_names(links, windsurf_rules_dir_of(dir)).subset_of(listed_files(entries)),
    ensures
        ({
            let entry = WatchEntryView { rules_path: rules_dir_of(dir), project: dir };
            let setup = directory_setup_of(
                dir,
                RulesProbeView::Present { canonical: rules_dir_of(dir), entries },
            );
            &&& setup matches DirectorySetupView::Watch { rules_path, watch_path, recursive, actions }
            &&& !recursive
            &&& rules_path == rules_dir_of(dir)
            &&& watch_path == rules_dir_of(dir)
            &&& in_sync(apply_all(links, actions), entry, listed_files(entries))
            &&& mirror_names(apply_all(links, actions), cursor_rules_dir_of(dir)) == listed_files(
                entries,
            )
            &&& mirror_names(apply_all(links, actions), windsurf_rules_dir_of(dir))
                == listed_files(entries)
        }),
{
    let entry = WatchEntryView { rules_path: rules_dir_of(dir), project: dir };
    lemma_sync_brings_in_sync(links, entry, entries);
}

/// The rules directories under watch and the configuration file that is
/// watched with them.
#[derive(Debug)]
pub struct WatcherSetup {
    pub rules_paths: RulesPathIndex,
    pub config_file_path: FsPath,
}

/// The specification value of a [`WatcherSetup`].
pub ghost struct WatcherSetupView {
    pub rules_paths: Seq<WatchEntryView>,
    pub config_file_path: Seq<Seq<char>>,
}

impl View for WatcherSetup {
    type V = WatcherSetupView;

    open spec fn view(&self) -> WatcherSetupView {
        WatcherSetupView {
            rules_paths: self.rules_paths@,
            config_file_path: self.config_file_path@,
        }
    }
}

/// Why no watch set came about.
#[derive(Debug, Clone, Copy, PartialEq, Eq)]
pub enum SetupError {
    /// Directories were given and none of them came under watch.
    NoRulesDirectories,
}

/// The error `error` in words.
pub open spec fn setup_message_of(error: SetupError) -> Seq<char> {
    "No valid .rules directories found to watch"@
}

impl SetupError {
    /// The kind of the error.
    pub fn kind(&self) -> (kind: ErrorKind)
        ensures
            kind == ErrorKind::NotFound,
    {
        ErrorKind::NotFound
    }

    /// The error in words.
    pub fn message(&self) -> (text: String)
        ensures
            text@ == setup_message_of(*self),
    {
        String::from_str("No valid .rules directories found to watch")
    }
}

impl WatcherSetup {
    /// The watch set with nothing under watch but the configuration file at
    /// `config_file_path`.
    pub fn new(config_file_path: FsPath) -> (setup: WatcherSetup)
        ensures
            setup@.rules_paths == Seq::<WatchEntryView>::empty(),
            setup@.config_file_path == config_file_path@,
    {
        WatcherSetup { rules_paths: RulesPathIndex::new(), config_file_path }
    }
}

/// Closes the setup of the watch set after `supplied` directories were gone
/// through: it fails if and only if directories were given and not one of
/// them came under watch.
pub fn setup_all_watchers(setup: WatcherSetup, supplied: usize) -> (r: Result<
    WatcherSetup,
    SetupError,
>)
    ensures
        match r {
            Ok(ready) => ready@ == setup@ && !(supplied > 0 && setup@.rules_paths.len() == 0),
            Err(error) => error == SetupError::NoRulesDirectories && supplied > 0
                && setup@.rules_paths.len() == 0,
        },
{
    if supplied > 0 && setup.rules_paths.is_empty() {
        Err(SetupError::NoRulesDirectories)
    } else {
        Ok(setup)
    }
}

} // verus!
