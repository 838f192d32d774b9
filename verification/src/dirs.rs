//! Typed handles to the well-known directories: the shared binary directory
//! (where exposure scripts live), the environments root, and one
//! environment's installation directory.  Creating the directories on disk
//! and listing them is the caller's concern; these types own the paths and
//! the pure selection logic over directory listings.

use vstd::prelude::*;
use vstd::string::*;
use crate::classify::{is_text, is_text_bytes};
use crate::names::{valid_name, EnvironmentName, ExposedName};
use crate::strutil::{
    bat_suffix, derived_name_spec, ends_with_spec, join_spec, launcher_stripped_spec,
    lemma_base_name_of_join, path_join, views_of_strings,
};

verus! {

/// One entry of a directory listing, reduced to the plain facts the
/// selection logic reads: its path, what kind of entry it is, whether it is
/// executable, and the first bytes of its content (empty for non-files).
pub struct DirEntryInfo {
    pub path: String,
    pub is_file: bool,
    pub is_dir: bool,
    pub is_executable: bool,
    pub head: Vec<u8>,
}

/// An entry qualifies as an exposure-script candidate when it is a regular
/// file, executable, and classified as text.
pub open spec fn script_candidate(e: DirEntryInfo) -> bool {
    e.is_file && e.is_executable && is_text_bytes(e.head@)
}

/// The paths of the script candidates of a listing, in listing order.
pub open spec fn script_files_spec(entries: Seq<DirEntryInfo>) -> Seq<Seq<char>>
    decreases entries.len(),
{
    if entries.len() == 0 {
        Seq::empty()
    } else {
        let prefix = script_files_spec(entries.drop_last());
        if script_candidate(entries.last()) {
            prefix.push(entries.last().path@)
        } else {
            prefix
        }
    }
}

/// The paths of the directory entries of a listing, in listing order.
pub open spec fn directories_spec(entries: Seq<DirEntryInfo>) -> Seq<Seq<char>>
    decreases entries.len(),
{
    if entries.len() == 0 {
        Seq::empty()
    } else {
        let prefix = directories_spec(entries.drop_last());
        if entries.last().is_dir {
            prefix.push(entries.last().path@)
        } else {
            prefix
        }
    }
}

/// The platform-specific file name of the launcher script for an exposed
/// name: the name itself, with `.bat` appended on Windows.
pub open spec fn script_file_name_spec(name: Seq<char>, windows: bool) -> Seq<char> {
    if windows {
        name + bat_suffix()
    } else {
        name
    }
}

/// The shared binary directory where the launcher scripts live.
#[derive(Debug)]
pub struct BinDir {
    pub dir: String,
}

impl BinDir {
    /// The binary directory under the given root: `<root>/bin`.
    pub fn new(root: &str) -> (r: BinDir)
        ensures
            r.dir@ == join_spec(root@, seq!['b', 'i', 'n']),
    {
        let d = path_join(root, "bin");
        proof {
            reveal_strlit("bin");
            assert("bin"@ =~= seq!['b', 'i', 'n']);
        }
        BinDir { dir: d }
    }

    /// Returns the path to the binary directory.
    pub fn path(&self) -> (r: &str)
        ensures
            r@ == self.dir@,
    {
        self.dir.as_str()
    }

    /// The path of the launcher script for the given exposed name: the name
    /// is joined onto the binary directory, with `.bat` appended on Windows.
    pub fn executable_script_path(&self, exposed_name: &ExposedName, windows: bool) -> (r: String)
        ensures
            r@ == join_spec(self.dir@, script_file_name_spec(exposed_name@, windows)),
    {
        if windows {
            let mut file_name = exposed_name.as_str().to_owned();
            file_name.append(".bat");
            proof {
                reveal_strlit(".bat");
                assert(".bat"@ =~= bat_suffix());
            }
            path_join(self.dir.as_str(), file_name.as_str())
        } else {
            path_join(self.dir.as_str(), exposed_name.as_str())
        }
    }

    /// Keeps from a listing of the binary directory exactly the exposure
    /// script candidates: regular, executable, text files.
    pub fn select_script_files(&self, entries: &Vec<DirEntryInfo>) -> (r: Vec<String>)
        ensures
            views_of_strings(r@) == script_files_spec(entries@),
    {
        let mut r: Vec<String> = Vec::new();
        let mut i: usize = 0;
        while i < entries.len()
            invariant
                i <= entries@.len(),
                views_of_strings(r@) == script_files_spec(entries@.take(i as int)),
            decreases entries@.len() - i,
        {
            proof {
                assert(entries@.take(i + 1).drop_last() =~= entries@.take(i as int));
                assert(entries@.take(i + 1).last() == entries@[i as int]);
            }
            let e = &entries[i];
            if e.is_file && e.is_executable && is_text(e.head.as_slice()) {
                proof {
                    crate::strutil::lemma_views_push(r@, e.path);
                }
                r.push(e.path.clone());
            }
            i += 1;
        }
        proof {
            assert(entries@.take(entries@.len() as int) =~= entries@);
        }
        r
    }
}

/// The environments root, holding one subdirectory per environment.
#[derive(Debug)]
pub struct EnvRoot {
    pub dir: String,
}

impl EnvRoot {
    /// The environments root under the given root: `<root>/envs`.
    pub fn new(root: &str) -> (r: EnvRoot)
        ensures
            r.dir@ == join_spec(root@, seq!['e', 'n', 'v', 's']),
    {
        let d = path_join(root, "envs");
        proof {
            reveal_strlit("envs");
            assert("envs"@ =~= seq!['e', 'n', 'v', 's']);
        }
        EnvRoot { dir: d }
    }

    /// Returns the path to the environments root.
    pub fn path(&self) -> (r: &str)
        ensures
            r@ == self.dir@,
    {
        self.dir.as_str()
    }

    /// Keeps from a listing of the environments root exactly the entries
    /// that are directories.
    pub fn select_directories(&self, entries: &Vec<DirEntryInfo>) -> (r: Vec<String>)
        ensures
            views_of_strings(r@) == directories_spec(entries@),
    {
        let mut r: Vec<String> = Vec::new();
        let mut i: usize = 0;
        while i < entries.len()
            invariant
                i <= entries@.len(),
                views_of_strings(r@) == directories_spec(entries@.take(i as int)),
            decreases entries@.len() - i,
        {
            proof {
                assert(entries@.take(i + 1).drop_last() =~= entries@.take(i as int));
                assert(entries@.take(i + 1).last() == entries@[i as int]);
            }
            let e = &entries[i];
            if e.is_dir {
                proof {
                    crate::strutil::lemma_views_push(r@, e.path);
                }
                r.push(e.path.clone());
            }
            i += 1;
        }
        proof {
            assert(entries@.take(entries@.len() as int) =~= entries@);
        }
        r
    }
}

/// One environment's installation directory.
#[derive(Debug)]
pub struct EnvDir {
    pub dir: String,
}

impl EnvDir {
    /// Wraps an already-known environment directory path.
    pub fn from_path(path: String) -> (r: EnvDir)
        ensures
            r.dir@ == path@,
    {
        EnvDir { dir: path }
    }

    /// The environment directory for the named environment:
    /// `<envs root>/<name>`.
    pub fn from_env_root(env_root: &EnvRoot, environment_name: &EnvironmentName) -> (r: EnvDir)
        ensures
            r.dir@ == join_spec(env_root.dir@, environment_name@),
    {
        EnvDir { dir: path_join(env_root.dir.as_str(), environment_name.as_str()) }
    }

    /// Returns the path to the environment directory.
    pub fn path(&self) -> (r: &str)
        ensures
            r@ == self.dir@,
    {
        self.dir.as_str()
    }
}

/// The logical name derived from a launcher script path created by
/// [`BinDir::executable_script_path`] is the exposed name it was created
/// for: script creation and name derivation agree by construction.
pub proof fn lemma_script_path_round_trip(dir: Seq<char>, name: Seq<char>, windows: bool)
    requires
        valid_name(name),
    ensures
        derived_name_spec(join_spec(dir, script_file_name_spec(name, windows)), windows) == name,
{
    let fname = script_file_name_spec(name, windows);
    assert(forall|j: int| 0 <= j < fname.len() ==> fname[j] != '/') by {
        if windows {
            assert(forall|j: int|
                0 <= j < fname.len() ==> fname[j] == if j < name.len() {
                    name[j]
                } else {
                    bat_suffix()[j - name.len()]
                });
        }
    }
    lemma_base_name_of_join(dir, fname);
    if windows {
        assert((name + bat_suffix()).skip(name.len() as int) =~= bat_suffix());
        assert(ends_with_spec(fname, bat_suffix()));
        assert(launcher_stripped_spec(fname, windows) =~= name);
    }
}

} // verus!
