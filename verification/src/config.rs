//! The watched directories: the set that is persisted, how it changes, and
//! where and in what form it is kept.

use vstd::prelude::*;
use vstd::string::StringExecFns;
use crate::constants::{APPLICATION, CONFIG_FILE_NAME, HOME_CONFIG_DIR};
use crate::error::ErrorKind;
use crate::path::{with_extension_of, FsPath};
use crate::text::{trim, trim_of};

verus! {

/// The directories that are not in `set`.
pub open spec fn outside(set: Set<Seq<Seq<char>>>) -> spec_fn(Seq<Seq<char>>) -> bool {
    |dir: Seq<Seq<char>>| !set.contains(dir)
}

/// The set of watched directories. Each is a project root, in canonical form.
#[derive(Debug)]
pub struct Config {
    watched_directories: Vec<FsPath>,
}

impl View for Config {
    type V = Set<Seq<Seq<char>>>;

    open spec fn view(&self) -> Set<Seq<Seq<char>>> {
        self.dirs().to_set()
    }
}

impl Config {
    /// The watched directories in the order in which they were added.
    pub closed spec fn dirs(&self) -> Seq<Seq<Seq<char>>> {
        self.watched_directories.deep_view()
    }

    /// No directory is listed twice.
    pub open spec fn wf(&self) -> bool {
        self.dirs().no_duplicates()
    }

    /// The configuration that watches nothing.
    pub fn new() -> (config: Config)
        ensures
            config.wf(),
            config.dirs() == Seq::<Seq<Seq<char>>>::empty(),
            config@ == Set::<Seq<Seq<char>>>::empty(),
    {
        let config = Config { watched_directories: Vec::new() };
        assert(config.dirs() =~= Seq::<Seq<Seq<char>>>::empty());
        assert(config@ =~= Set::<Seq<Seq<char>>>::empty());
        config
    }

    /// The position of `dir_path` among the watched directories.
    fn position(&self, dir_path: &FsPath) -> (r: Option<usize>)
        ensures
            match r {
                Some(i) => i < self.dirs().len() && self.dirs()[i as int] == dir_path@,
                None => !self.dirs().contains(dir_path@),
            },
    {
        let mut i: usize = 0;
        while i < self.watched_directories.len()
            invariant
                i <= self.watched_directories.len(),
                forall|j: int| 0 <= j < i ==> self.dirs()[j] != dir_path@,
            decreases self.watched_directories.len() - i,
        {
            if self.watched_directories[i].same_as(dir_path) {
                return Some(i);
            }
            i += 1;
        }
        None
    }

    /// Adds `dir_path` to the watched directories, and says whether it was new.
    pub fn add_directory(&mut self, dir_path: FsPath) -> (added: bool)
        requires
            old(self).wf(),
        ensures
            final(self).wf(),
            added == !old(self)@.contains(dir_path@),
            final(self)@ == old(self)@.insert(dir_path@),
            final(self).dirs() == if added {
                old(self).dirs().push(dir_path@)
            } else {
                old(self).dirs()
            },
    {
        let ghost before = self.dirs();
        match self.position(&dir_path) {
            Some(i) => {
                assert(before.to_set().insert(dir_path@) =~= before.to_set());
                false
            },
            None => {
                let ghost d = dir_path@;
                self.watched_directories.push(dir_path);
                assert(self.dirs() =~= before.push(d));
                proof {
                    lemma_push_to_set(before, d);
                }
                true
            },
        }
    }

    /// Takes `dir_path` out of the watched directories, and says whether it was there.
    pub fn remove_directory(&mut self, dir_path: &FsPath) -> (removed: bool)
        requires
            old(self).wf(),
        ensures
            final(self).wf(),
            removed == old(self)@.contains(dir_path@),
            final(self)@ == old(self)@.remove(dir_path@),
            final(self).dirs() == old(self).dirs().filter(
                |x: Seq<Seq<char>>| x != dir_path@,
            ),
    {
        let ghost before = self.dirs();
        match self.position(dir_path) {
            Some(i) => {
                self.watched_directories.remove(i);
                assert(self.dirs() =~= before.remove(i as int));
                proof {
                    lemma_remove_from_set(before, i as int);
                    lemma_filter_out_one(before, i as int, |x: Seq<Seq<char>>| x != dir_path@);
                }
                true
            },
            None => {
                assert(before.to_set().remove(dir_path@) =~= before.to_set());
                proof {
                    lemma_filter_out_none(before, dir_path@, |x: Seq<Seq<char>>| x != dir_path@);
                }
                false
            },
        }
    }

    /// Whether `dir_path` is a watched directory.
    pub fn contains_directory(&self, dir_path: &FsPath) -> (r: bool)
        ensures
            r == self@.contains(dir_path@),
    {
        self.position(dir_path).is_some()
    }

    /// The watched directories, each once, in the order in which they were added.
    pub fn get_watched_directories(&self) -> (dirs: &Vec<FsPath>)
        ensures
            dirs.deep_view() == self.dirs(),
            dirs.deep_view().to_set() == self@,
    {
        &self.watched_directories
    }

    /// The number of watched directories.
    pub fn directory_count(&self) -> (n: usize)
        requires
            self.wf(),
        ensures
            n == self@.len(),
            n == self.dirs().len(),
    {
        proof {
            self.dirs().unique_seq_to_set();
        }
        self.watched_directories.len()
    }

    /// The directories of this configuration that `other` does not watch, in
    /// the order in which they were added here.
    pub fn difference(&self, other: &Config) -> (only: Vec<FsPath>)
        ensures
            only.deep_view() == self.dirs().filter(outside(other@)),
    {
        let ghost keep = outside(other@);
        let mut only: Vec<FsPath> = Vec::new();
        let mut i: usize = 0;
        assert(only.deep_view() =~= self.dirs().take(0).filter(keep));
        while i < self.watched_directories.len()
            invariant
                i <= self.watched_directories.len(),
                keep == outside(other@),
                only.deep_view() == self.dirs().take(i as int).filter(keep),
            decreases self.watched_directories.len() - i,
        {
            let ghost done = self.dirs().take(i as int);
            let ghost next = self.dirs().take(i + 1);
            let ghost before = only.deep_view();
            proof {
                assert(next.drop_last() =~= done);
                assert(next.last() == self.dirs()[i as int]);
                reveal(Seq::filter);
            }
            if !other.contains_directory(&self.watched_directories[i]) {
                only.push(self.watched_directories[i].clone());
                assert(only.deep_view() =~= before.push(self.dirs()[i as int]));
            }
            i += 1;
        }
        assert(self.dirs().take(self.dirs().len() as int) =~= self.dirs());
        only
    }
}

impl Default for Config {
    fn default() -> (config: Config)
        ensures
            config.wf(),
            config.dirs() == Seq::<Seq<Seq<char>>>::empty(),
    {
        Config::new()
    }
}

impl Clone for Config {
    fn clone(&self) -> (config: Config)
        ensures
            config.dirs() == self.dirs(),
            config@ == self@,
    {
        let mut dirs: Vec<FsPath> = Vec::new();
        let mut i: usize = 0;
        assert(dirs.deep_view() =~= self.dirs().take(0));
        while i < self.watched_directories.len()
            invariant
                i <= self.watched_directories.len(),
                dirs.deep_view() == self.dirs().take(i as int),
            decreases self.watched_directories.len() - i,
        {
            let ghost before = dirs.deep_view();
            dirs.push(self.watched_directories[i].clone());
            assert(dirs.deep_view() =~= before.push(self.dirs()[i as int]));
            assert(self.dirs().take(i + 1) =~= before.push(self.dirs()[i as int]));
            i += 1;
        }
        assert(self.dirs().take(self.dirs().len() as int) =~= self.dirs());
        Config { watched_directories: dirs }
    }
}

/// A sequence without repetition stays so when a new element is appended, and
/// its set gains that element.
proof fn lemma_push_to_set(s: Seq<Seq<Seq<char>>>, d: Seq<Seq<char>>)
    requires
        !s.contains(d),
    ensures
        s.push(d).to_set() == s.to_set().insert(d),
        s.no_duplicates() ==> s.push(d).no_duplicates(),
{
    let t = s.push(d);
    assert forall|x: Seq<Seq<char>>| t.to_set().contains(x) == s.to_set().insert(d).contains(
        x,
    ) by {
        if t.contains(x) {
            let i = choose|i: int| 0 <= i < t.len() && t[i] == x;
            if i < s.len() {
                assert(s[i] == x);
            }
        }
        if s.contains(x) {
            let i = choose|i: int| 0 <= i < s.len() && s[i] == x;
            assert(t[i] == x);
        }
        if x == d {
            assert(t[s.len() as int] == d);
        }
    }
    assert(t.to_set() =~= s.to_set().insert(d));
    if s.no_duplicates() {
        assert forall|i: int, j: int| 0 <= i < t.len() && 0 <= j < t.len() && i != j implies t[i]
            != t[j] by {
            if i < s.len() && j < s.len() {
                assert(s[i] != s[j]);
            } else if i < s.len() {
                assert(s[i] == t[i]);
            } else {
                assert(s[j] == t[j]);
            }
        }
    }
}

/// A sequence without repetition stays so when an element is taken out, and
/// its set loses that element.
proof fn lemma_remove_from_set(s: Seq<Seq<Seq<char>>>, i: int)
    requires
        0 <= i < s.len(),
        s.no_duplicates(),
    ensures
        s.remove(i).to_set() == s.to_set().remove(s[i]),
        s.remove(i).no_duplicates(),
{
    let t = s.remove(i);
    assert forall|x: Seq<Seq<char>>| t.to_set().contains(x) == s.to_set().remove(s[i]).contains(
        x,
    ) by {
        if t.contains(x) {
            let k = choose|k: int| 0 <= k < t.len() && t[k] == x;
            if k < i {
                assert(s[k] == x);
            } else {
                assert(s[k + 1] == x);
            }
        }
        if s.contains(x) && x != s[i] {
            let k = choose|k: int| 0 <= k < s.len() && s[k] == x;
            if k < i {
                assert(t[k] == x);
            } else {
                assert(t[k - 1] == x);
            }
        }
    }
    assert(t.to_set() =~= s.to_set().remove(s[i]));
    assert forall|a: int, b: int| 0 <= a < t.len() && 0 <= b < t.len() && a != b implies t[a]
        != t[b] by {
        let sa = if a < i { a } else { a + 1 };
        let sb = if b < i { b } else { b + 1 };
        assert(t[a] == s[sa] && t[b] == s[sb]);
    }
}

/// Filtering out an element that does not occur changes nothing.
proof fn lemma_filter_out_none(
    s: Seq<Seq<Seq<char>>>,
    d: Seq<Seq<char>>,
    keep: spec_fn(Seq<Seq<char>>) -> bool,
)
    requires
        !s.contains(d),
        forall|x: Seq<Seq<char>>| #[trigger] keep(x) == (x != d),
    ensures
        s.filter(keep) == s,
    decreases s.len(),
{
    reveal(Seq::filter);
    if s.len() > 0 {
        let rest = s.drop_last();
        assert forall|k: int| 0 <= k < rest.len() implies rest[k] != d by {
            assert(s[k] == rest[k]);
        }
        lemma_filter_out_none(rest, d, keep);
        assert(s[s.len() - 1] == s.last());
        assert(s.filter(keep) =~= rest.push(s.last()));
        assert(rest.push(s.last()) =~= s);
    } else {
        assert(s.filter(keep) =~= s);
    }
}

/// Filtering out the element at one position of a sequence without
/// repetition is removing it.
proof fn lemma_filter_out_one(
    s: Seq<Seq<Seq<char>>>,
    i: int,
    keep: spec_fn(Seq<Seq<char>>) -> bool,
)
    requires
        0 <= i < s.len(),
        s.no_duplicates(),
        forall|x: Seq<Seq<char>>| #[trigger] keep(x) == (x != s[i]),
    ensures
        s.filter(keep) == s.remove(i),
    decreases s.len(),
{
    reveal(Seq::filter);
    let d = s[i];
    let rest = s.drop_last();
    if i == s.len() - 1 {
        assert forall|k: int| 0 <= k < rest.len() implies rest[k] != d by {
            assert(s[k] == rest[k]);
        }
        lemma_filter_out_none(rest, d, keep);
        assert(s.filter(keep) =~= rest);
        assert(s.remove(i) =~= rest);
    } else {
        assert(rest[i] == d);
        lemma_filter_out_one(rest, i, keep);
        assert(s.last() != d);
        assert(s.filter(keep) =~= rest.filter(keep).push(s.last()));
        assert(s.remove(i) =~= rest.remove(i).push(s.last()));
    }
}

/// Why the place of the configuration file is not known.
#[derive(Debug, Clone, Copy, PartialEq, Eq)]
pub enum ConfigPathError {
    /// The platform names no configuration directory and the home directory
    /// is not known either.
    HomeUnknown,
}

impl ConfigPathError {
    /// The kind of the error.
    pub fn kind(&self) -> (kind: ErrorKind)
        ensures
            kind == ErrorKind::NotFound,
    {
        ErrorKind::NotFound
    }

    /// The error in words.
    pub fn message(&self) -> (text: String)
        ensures
            text@ == "Unable to determine home directory for configuration path"@,
    {
        String::from_str("Unable to determine home directory for configuration path")
    }
}

/// The place of the configuration file: in the configuration directory that
/// the platform names for the application; where the platform names none,
/// under the home directory.
pub open spec fn config_file_path_of(
    platform_dir: Option<Seq<Seq<char>>>,
    home_dir: Option<Seq<Seq<char>>>,
) -> Result<Seq<Seq<char>>, ConfigPathError> {
    match platform_dir {
        Some(dir) => Ok(dir.push(CONFIG_FILE_NAME@)),
        None => match home_dir {
            Some(home) => Ok(
                home.push(HOME_CONFIG_DIR@).push(APPLICATION@).push(CONFIG_FILE_NAME@),
            ),
            None => Err(ConfigPathError::HomeUnknown),
        },
    }
}

/// The place of the configuration file, given the configuration directory
/// that the platform names for the application and the home directory, as
/// far as each is known.
pub fn get_config_file_path(platform_dir: Option<&FsPath>, home_dir: Option<&FsPath>) -> (r: Result<
    FsPath,
    ConfigPathError,
>)
    ensures
        match (r, config_file_path_of(
            match platform_dir {
                Some(dir) => Some(dir@),
                None => None,
            },
            match home_dir {
                Some(dir) => Some(dir@),
                None => None,
            },
        )) {
            (Ok(path), Ok(expected)) => path@ == expected,
            (Err(e), Err(expected)) => e == expected,
            _ => false,
        },
{
    match platform_dir {
        Some(dir) => Ok(dir.join(CONFIG_FILE_NAME)),
        None => match home_dir {
            Some(home) => Ok(
                home.join(HOME_CONFIG_DIR).join(APPLICATION).join(CONFIG_FILE_NAME),
            ),
            None => Err(ConfigPathError::HomeUnknown),
        },
    }
}

/// The extension of the file through which a new configuration is written.
pub const TEMP_EXTENSION: &'static str = "json.tmp";

/// The file through which a new configuration is written before it takes the
/// place of the configuration file at `config_path`: beside it, with the
/// extension `json.tmp`.
pub fn temp_path(config_path: &FsPath) -> (path: FsPath)
    ensures
        path@ == with_extension_of(config_path@, TEMP_EXTENSION@),
{
    config_path.with_extension(TEMP_EXTENSION)
}

/// Adds `dir_path` to `config`, which was read from the file at
/// `config_path`. Where that changed the configuration, the result is the
/// file through which it is to be persisted: the new configuration is written
/// there, and that file then renamed to the configuration file, so that no
/// reader ever finds half of it. Where nothing changed, nothing is written.
pub fn add_directory_to_config_file(config: &mut Config, dir_path: FsPath, config_path: &FsPath) -> (write_through: Option<FsPath>)
    requires
        old(config).wf(),
    ensures
        final(config).wf(),
        final(config)@ == old(config)@.insert(dir_path@),
        final(config).dirs() == if old(config)@.contains(dir_path@) {
            old(config).dirs()
        } else {
            old(config).dirs().push(dir_path@)
        },
        match write_through {
            Some(path) => !old(config)@.contains(dir_path@) && path@ == with_extension_of(
                config_path@,
                TEMP_EXTENSION@,
            ),
            None => old(config)@.contains(dir_path@),
        },
{
    if config.add_directory(dir_path) {
        Some(temp_path(config_path))
    } else {
        None
    }
}

/// Takes `dir_path` out of `config`, which was read from the file at
/// `config_path`. The result is as for [`add_directory_to_config_file`].
pub fn remove_directory_from_config_file(
    config: &mut Config,
    dir_path: &FsPath,
    config_path: &FsPath,
) -> (write_through: Option<FsPath>)
    requires
        old(config).wf(),
    ensures
        final(config).wf(),
        final(config)@ == old(config)@.remove(dir_path@),
        final(config).dirs() == old(config).dirs().filter(|x: Seq<Seq<char>>| x != dir_path@),
        match write_through {
            Some(path) => old(config)@.contains(dir_path@) && path@ == with_extension_of(
                config_path@,
                TEMP_EXTENSION@,
            ),
            None => !old(config)@.contains(dir_path@),
        },
{
    if config.remove_directory(dir_path) {
        Some(temp_path(config_path))
    } else {
        None
    }
}

/// The text of a configuration file that is to be parsed: the content without
/// surrounding white space, or nothing where no more than white space is
/// there. Nothing to parse stands for the configuration that watches nothing.
pub fn config_text(content: &str) -> (text: Option<&str>)
    ensures
        match text {
            Some(text) => text@ == trim_of(content@) && text@.len() > 0,
            None => trim_of(content@).len() == 0,
        },
{
    let trimmed = trim(content);
    if trimmed.unicode_len() == 0 {
        None
    } else {
        Some(trimmed)
    }
}

/// `text` with a line feed at the end, which is added unless it is there.
pub open spec fn newline_terminated_of(text: Seq<char>) -> Seq<char> {
    if text.len() > 0 && text.last() == '\n' {
        text
    } else {
        text.push('\n')
    }
}

/// The content to write for the serialized configuration `text`: `text`
/// itself where it ends with a line feed, else `text` and a line feed.
pub fn newline_terminated(text: String) -> (content: String)
    ensures
        content@ == newline_terminated_of(text@),
{
    let n = text.as_str().unicode_len();
    if n > 0 && text.as_str().get_char(n - 1) == '\n' {
        text
    } else {
        proof {
            reveal_strlit("\n");
        }
        let mut content = text;
        content.append("\n");
        assert(content@ =~= newline_terminated_of(text@));
        content
    }
}

} // verus!
