//! Paths as sequences of components.
//!
//! A path is the list of its components in order. An absolute path starts with
//! the root component `/`; `.` and `..` are components like any other, except
//! that they are never a file name. Two paths are the same path exactly when
//! their components are the same.

use vstd::prelude::*;
use vstd::string::StringExecFns;

verus! {

/// The root component.
pub open spec fn root_component() -> Seq<char> {
    seq!['/']
}

/// The component that stands for the current directory.
pub open spec fn cur_dir_component() -> Seq<char> {
    seq!['.']
}

/// The component that stands for the parent directory.
pub open spec fn parent_dir_component() -> Seq<char> {
    seq!['.', '.']
}

/// A component that names a file or a directory: any but `/`, `.` and `..`.
pub open spec fn is_normal(name: Seq<char>) -> bool {
    name != root_component() && name != cur_dir_component() && name != parent_dir_component()
}

/// The final component of `p`, if it names a file or a directory.
pub open spec fn file_name_of(p: Seq<Seq<char>>) -> Option<Seq<char>> {
    if p.len() > 0 && is_normal(p.last()) {
        Some(p.last())
    } else {
        None
    }
}

/// `p` without its final component; nothing for the empty path and for a path
/// that ends in the root.
pub open spec fn parent_of(p: Seq<Seq<char>>) -> Option<Seq<Seq<char>>> {
    if p.len() > 0 && p.last() != root_component() {
        Some(p.drop_last())
    } else {
        None
    }
}

/// The position of the last `.` in `name`, or -1 where it has none.
pub open spec fn last_dot(name: Seq<char>) -> int
    decreases name.len(),
{
    if name.len() == 0 {
        -1
    } else if name.last() == '.' {
        name.len() - 1
    } else {
        last_dot(name.drop_last())
    }
}

/// The file name `name` without its extension: the part before the last `.`,
/// or all of it where it has no `.` or only one at its start.
pub open spec fn file_stem_of(name: Seq<char>) -> Seq<char> {
    if last_dot(name) <= 0 {
        name
    } else {
        name.take(last_dot(name))
    }
}

/// The file name `name` with `extension` in place of its own: the stem, then
/// a `.` and `extension` unless `extension` is empty.
pub open spec fn with_extension_name(name: Seq<char>, extension: Seq<char>) -> Seq<char> {
    if extension.len() == 0 {
        file_stem_of(name)
    } else {
        file_stem_of(name) + seq!['.'] + extension
    }
}

/// `p` with `extension` in place of the extension of its file name; `p`
/// itself where it has no file name.
pub open spec fn with_extension_of(p: Seq<Seq<char>>, extension: Seq<char>) -> Seq<Seq<char>> {
    match file_name_of(p) {
        Some(name) => p.drop_last().push(with_extension_name(name, extension)),
        None => p,
    }
}

/// From a position on, `name` has no `.`: the last one is before it.
proof fn lemma_last_dot(name: Seq<char>, i: int)
    requires
        0 <= i <= name.len(),
        forall|k: int| i <= k < name.len() ==> name[k] != '.',
    ensures
        last_dot(name) == last_dot(name.take(i)),
    decreases name.len() - i,
{
    if i < name.len() {
        let rest = name.drop_last();
        assert(name.last() != '.');
        assert forall|k: int| i <= k < rest.len() implies rest[k] != '.' by {
            assert(rest[k] == name[k]);
        }
        lemma_last_dot(rest, i);
        assert(rest.take(i) =~= name.take(i));
    } else {
        assert(name.take(i) =~= name);
    }
}

/// The file name `name` with `extension` in place of its own.
pub fn with_extension_text(name: &str, extension: &str) -> (r: String)
    ensures
        r@ == with_extension_name(name@, extension@),
{
    let n: usize = name.unicode_len();
    let mut i: usize = n;
    loop
        invariant
            i <= n,
            n == name@.len(),
            forall|k: int| i <= k < n ==> name@[k] != '.',
        ensures
            i <= n,
            forall|k: int| i <= k < n ==> name@[k] != '.',
            i == 0 || name@[i - 1] == '.',
        decreases i,
    {
        if i == 0 {
            break ;
        }
        if name.get_char(i - 1) == '.' {
            break ;
        }
        i -= 1;
    }
    proof {
        lemma_last_dot(name@, i as int);
        let head = name@.take(i as int);
        if i > 0 {
            assert(head.last() == name@[i - 1]);
            assert(last_dot(head) == i - 1);
        } else {
            assert(last_dot(head) == -1);
        }
        assert(name@.subrange(0, n as int) =~= name@);
        if i > 1 {
            assert(name@.subrange(0, i - 1) =~= name@.take(i - 1));
        }
        reveal_strlit(".");
    }
    let stem = if i <= 1 {
        name.substring_char(0, n)
    } else {
        name.substring_char(0, i - 1)
    };
    assert(stem@ == file_stem_of(name@));
    let mut r = String::from_str(stem);
    if extension.unicode_len() > 0 {
        r.append(".");
        r.append(extension);
        assert(r@ =~= with_extension_name(name@, extension@));
    }
    r
}

/// A path of components.
#[derive(Debug, PartialEq, Eq)]
pub struct FsPath {
    pub components: Vec<String>,
}

impl View for FsPath {
    type V = Seq<Seq<char>>;

    open spec fn view(&self) -> Seq<Seq<char>> {
        self.components.deep_view()
    }
}

impl DeepView for FsPath {
    type V = Seq<Seq<char>>;

    open spec fn deep_view(&self) -> Seq<Seq<char>> {
        self.view()
    }
}

/// Whether `name` is a component that names a file or a directory.
pub fn is_normal_name(name: &str) -> (r: bool)
    ensures
        r == is_normal(name@),
{
    let n: usize = name.unicode_len();
    if n == 1 {
        let c = name.get_char(0);
        assert(name@ =~= seq![c]);
        assert(seq!['/'][0] == '/' && seq!['.'][0] == '.');
        !(c == '/' || c == '.')
    } else if n == 2 {
        let c0 = name.get_char(0);
        let c1 = name.get_char(1);
        assert(name@ =~= seq![c0, c1]);
        assert(seq!['.', '.'][0] == '.' && seq!['.', '.'][1] == '.');
        !(c0 == '.' && c1 == '.')
    } else {
        assert(seq!['/'].len() == 1 && seq!['.'].len() == 1 && seq!['.', '.'].len() == 2);
        true
    }
}

impl FsPath {
    /// The path made of `components`, in order.
    pub fn new(components: Vec<String>) -> (p: FsPath)
        ensures
            p@ == components.deep_view(),
    {
        FsPath { components }
    }

    /// The path with no component.
    pub fn empty() -> (p: FsPath)
        ensures
            p@ == Seq::<Seq<char>>::empty(),
    {
        let p = FsPath { components: Vec::new() };
        assert(p@ =~= Seq::<Seq<char>>::empty());
        p
    }

    /// The number of components.
    pub fn len(&self) -> (n: usize)
        ensures
            n == self@.len(),
    {
        self.components.len()
    }

    /// Whether the two paths have the same components.
    pub fn same_as(&self, other: &FsPath) -> (r: bool)
        ensures
            r == (self@ == other@),
    {
        if self.components.len() != other.components.len() {
            assert(self@.len() != other@.len());
            return false;
        }
        let mut i: usize = 0;
        while i < self.components.len()
            invariant
                i <= self.components.len(),
                self.components.len() == other.components.len(),
                forall|j: int| 0 <= j < i ==> self@[j] == other@[j],
            decreases self.components.len() - i,
        {
            if self.components[i] != other.components[i] {
                assert(self@[i as int] != other@[i as int]);
                return false;
            }
            i += 1;
        }
        assert(self@ =~= other@);
        true
    }

    /// Whether the components of `base` are the first components of this path.
    pub fn starts_with(&self, base: &FsPath) -> (r: bool)
        ensures
            r == base@.is_prefix_of(self@),
    {
        if base.components.len() > self.components.len() {
            assert(base@.len() > self@.len());
            return false;
        }
        let mut i: usize = 0;
        while i < base.components.len()
            invariant
                i <= base.components.len(),
                base.components.len() <= self.components.len(),
                forall|j: int| 0 <= j < i ==> self@[j] == base@[j],
            decreases base.components.len() - i,
        {
            if self.components[i] != base.components[i] {
                assert(self@[i as int] != base@[i as int]);
                assert(base@ != self@.subrange(0, base@.len() as int)) by {
                    assert(self@.subrange(0, base@.len() as int)[i as int] == self@[i as int]);
                }
                return false;
            }
            i += 1;
        }
        assert(base@ =~= self@.subrange(0, base@.len() as int));
        true
    }

    /// The final component, if it names a file or a directory.
    pub fn file_name(&self) -> (r: Option<String>)
        ensures
            r.deep_view() == file_name_of(self@),
    {
        let n = self.components.len();
        if n == 0 {
            return None;
        }
        let last = &self.components[n - 1];
        assert(self@.last() == last@);
        if is_normal_name(last.as_str()) {
            Some(last.clone())
        } else {
            None
        }
    }

    /// This path followed by the component `name`.
    pub fn join(&self, name: &str) -> (r: FsPath)
        ensures
            r@ == self@.push(name@),
    {
        let mut components = self.components.clone();
        assert(components.deep_view() =~= self@);
        components.push(name.to_owned());
        let r = FsPath { components };
        assert(r@ =~= self@.push(name@));
        r
    }

    /// This path with `extension` in place of the extension of its file
    /// name; this path itself where it has no file name.
    pub fn with_extension(&self, extension: &str) -> (r: FsPath)
        ensures
            r@ == with_extension_of(self@, extension@),
    {
        match self.file_name() {
            Some(name) => {
                let mut components = self.components.clone();
                assert(components.deep_view() =~= self@);
                components.pop();
                components.push(with_extension_text(name.as_str(), extension));
                let r = FsPath { components };
                assert(r@ =~= self@.drop_last().push(with_extension_name(name@, extension@)));
                r
            },
            None => self.clone(),
        }
    }

    /// This path without its final component; nothing for the empty path and
    /// for a path that ends in the root.
    pub fn parent(&self) -> (r: Option<FsPath>)
        ensures
            r.deep_view() == parent_of(self@),
    {
        let n = self.components.len();
        if n == 0 {
            return None;
        }
        let last = &self.components[n - 1];
        assert(self@.last() == last@);
        let is_root = last.as_str().unicode_len() == 1 && last.as_str().get_char(0) == '/';
        assert(is_root == (last@ == root_component())) by {
            if is_root {
                assert(last@ =~= seq!['/']);
            } else {
                assert(seq!['/'].len() == 1 && seq!['/'][0] == '/');
            }
        }
        if is_root {
            return None;
        }
        let mut components = self.components.clone();
        assert(components.deep_view() =~= self@);
        components.pop();
        let r = FsPath { components };
        assert(r@ =~= self@.drop_last());
        Some(r)
    }
}

/// A copy of `paths`.
pub fn clone_paths(paths: &Vec<FsPath>) -> (copy: Vec<FsPath>)
    ensures
        copy.deep_view() == paths.deep_view(),
{
    let mut copy: Vec<FsPath> = Vec::new();
    let mut i: usize = 0;
    assert(copy.deep_view() =~= paths.deep_view().take(0));
    while i < paths.len()
        invariant
            i <= paths.len(),
            copy.deep_view() == paths.deep_view().take(i as int),
        decreases paths.len() - i,
    {
        let ghost before = copy.deep_view();
        copy.push(paths[i].clone());
        assert(copy.deep_view() =~= before.push(paths[i as int]@));
        assert(paths.deep_view().take(i + 1) =~= before.push(paths[i as int]@));
        i += 1;
    }
    assert(paths.deep_view().take(paths.len() as int) =~= paths.deep_view());
    copy
}

impl Clone for FsPath {
    fn clone(&self) -> (r: FsPath)
        ensures
            r@ == self@,
    {
        let components = self.components.clone();
        assert(components.deep_view() =~= self@);
        FsPath { components }
    }
}

} // verus!
