//! What the daemon asks of the filesystem, and what that does to the links.

use vstd::prelude::*;
use crate::path::FsPath;

verus! {

/// One request to the filesystem.
#[derive(Debug, PartialEq, Eq)]
pub enum FsAction {
    /// Make sure the directory and every directory above it exist.
    CreateDirAll { path: FsPath },
    /// Put a symbolic link to `source` at `target`, in place of whatever is there.
    Link { source: FsPath, target: FsPath },
    /// Remove the entry at `target` if there is one.
    Remove { target: FsPath },
}

/// The specification value of an [`FsAction`].
pub ghost enum Action {
    CreateDirAll { path: Seq<Seq<char>> },
    Link { source: Seq<Seq<char>>, target: Seq<Seq<char>> },
    Remove { target: Seq<Seq<char>> },
}

impl View for FsAction {
    type V = Action;

    open spec fn view(&self) -> Action {
        match self {
            FsAction::CreateDirAll { path } => Action::CreateDirAll { path: path@ },
            FsAction::Link { source, target } => Action::Link { source: source@, target: target@ },
            FsAction::Remove { target } => Action::Remove { target: target@ },
        }
    }
}

impl DeepView for FsAction {
    type V = Action;

    open spec fn deep_view(&self) -> Action {
        self.view()
    }
}

/// The links after `action`, given the links before: the map from the path of
/// each link to the path it points to.
pub open spec fn apply(links: Map<Seq<Seq<char>>, Seq<Seq<char>>>, action: Action) -> Map<
    Seq<Seq<char>>,
    Seq<Seq<char>>,
> {
    match action {
        Action::CreateDirAll { path } => links,
        Action::Link { source, target } => links.insert(target, source),
        Action::Remove { target } => links.remove(target),
    }
}

/// The links after every action of `actions`, in order.
pub open spec fn apply_all(
    links: Map<Seq<Seq<char>>, Seq<Seq<char>>>,
    actions: Seq<Action>,
) -> Map<Seq<Seq<char>>, Seq<Seq<char>>>
    decreases actions.len(),
{
    if actions.len() == 0 {
        links
    } else {
        apply(apply_all(links, actions.drop_last()), actions.last())
    }
}

/// Applying two lists of actions one after the other is applying their concatenation.
pub proof fn lemma_apply_all_concat(
    links: Map<Seq<Seq<char>>, Seq<Seq<char>>>,
    first: Seq<Action>,
    second: Seq<Action>,
)
    ensures
        apply_all(links, first + second) == apply_all(apply_all(links, first), second),
    decreases second.len(),
{
    if second.len() == 0 {
        assert(first + second =~= first);
    } else {
        lemma_apply_all_concat(links, first, second.drop_last());
        assert((first + second).drop_last() =~= first + second.drop_last());
        assert((first + second).last() == second.last());
    }
}

/// Appends `action` to `actions`.
pub fn push_action(actions: &mut Vec<FsAction>, action: FsAction)
    ensures
        final(actions).deep_view() == old(actions).deep_view().push(action@),
{
    let ghost before = actions.deep_view();
    let ghost a = action@;
    actions.push(action);
    assert(actions.deep_view() =~= before.push(a));
}

} // verus!
