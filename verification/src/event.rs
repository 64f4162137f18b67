//! Filesystem change notifications, as the daemon reads them.

use vstd::prelude::*;
use crate::path::FsPath;

verus! {

/// How a rename shows in a notification.
#[derive(Debug, Clone, Copy, PartialEq, Eq)]
pub enum RenameMode {
    Any,
    /// The path is the new name.
    To,
    /// The path is the old name.
    From,
    /// One notification carries both names.
    Both,
    Other,
}

/// What a modification touched.
#[derive(Debug, Clone, Copy, PartialEq, Eq)]
pub enum ModifyKind {
    Any,
    Data,
    Metadata,
    Name(RenameMode),
    Other,
}

/// The kind of a notification.
#[derive(Debug, Clone, Copy, PartialEq, Eq)]
pub enum EventKind {
    Any,
    Access,
    Create,
    Modify(ModifyKind),
    Remove,
    Other,
}

/// What a notification asks of the mirrors, for one path.
#[derive(Debug, Clone, Copy, PartialEq, Eq)]
pub enum Effect {
    /// Both mirrors get a link to the path.
    Link,
    /// Both mirrors lose their entry of the path's name.
    Unlink,
    /// Nothing changes.
    Ignore,
}

/// The effect of a notification of `kind` for a path that is, or is not, a
/// regular file when the notification is handled.
///
/// A creation, the new name of a rename and any other modification link the
/// path if it is a regular file. The old name of a rename and a removal unlink
/// it whatever is there. Every other kind is ignored.
pub open spec fn effect_of(kind: EventKind, is_file: bool) -> Effect {
    match kind {
        EventKind::Create => if is_file { Effect::Link } else { Effect::Ignore },
        EventKind::Modify(ModifyKind::Name(RenameMode::From)) => Effect::Unlink,
        EventKind::Modify(_) => if is_file { Effect::Link } else { Effect::Ignore },
        EventKind::Remove => Effect::Unlink,
        _ => Effect::Ignore,
    }
}

/// Computes [`effect_of`].
pub fn classify(kind: EventKind, is_file: bool) -> (e: Effect)
    ensures
        e == effect_of(kind, is_file),
{
    match kind {
        EventKind::Create => if is_file { Effect::Link } else { Effect::Ignore },
        EventKind::Modify(ModifyKind::Name(RenameMode::From)) => Effect::Unlink,
        EventKind::Modify(_) => if is_file { Effect::Link } else { Effect::Ignore },
        EventKind::Remove => Effect::Unlink,
        _ => Effect::Ignore,
    }
}

/// A path named by a notification, with what was found there.
#[derive(Debug, PartialEq, Eq)]
pub struct ObservedPath {
    pub path: FsPath,
    /// Whether the path is a regular file at the time the notification is handled.
    pub is_file: bool,
}

/// The specification value of an [`ObservedPath`].
pub ghost struct ObservedPathView {
    pub path: Seq<Seq<char>>,
    pub is_file: bool,
}

impl View for ObservedPath {
    type V = ObservedPathView;

    open spec fn view(&self) -> ObservedPathView {
        ObservedPathView { path: self.path@, is_file: self.is_file }
    }
}

impl DeepView for ObservedPath {
    type V = ObservedPathView;

    open spec fn deep_view(&self) -> ObservedPathView {
        self.view()
    }
}

/// A notification: its kind and the paths it names.
#[derive(Debug, PartialEq, Eq)]
pub struct FileEvent {
    pub kind: EventKind,
    pub paths: Vec<ObservedPath>,
}

} // verus!
