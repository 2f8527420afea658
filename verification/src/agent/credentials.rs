//! Where the agent keeps its credentials.

use vstd::prelude::*;

use crate::agent::error::Error;
use crate::agent::error::ErrorView;
use crate::text::{join2, join3, same_text};

verus! {

/// A file as it was found: whether it exists, and what reading it gave.
#[derive(Debug)]
pub struct FileEntry {
    pub path: String,
    pub exists: bool,
    pub read: Result<String, String>,
}

/// The files that were looked at.
pub struct Files {
    pub entries: Vec<FileEntry>,
}

/// Entry `i` is that of the file `path`, and no earlier one is.
pub open spec fn is_entry(files: Files, path: Seq<char>, i: int) -> bool {
    &&& 0 <= i < files.entries@.len()
    &&& files.entries@[i].path@ == path
    &&& forall|j: int| 0 <= j < i ==> (#[trigger] files.entries@[j]).path@ != path
}

/// The file `path` exists.
pub open spec fn exists_at(files: Files, path: Seq<char>) -> bool {
    exists|i: int| is_entry(files, path, i) && files.entries@[i].exists
}

/// What reading the file `path` gives. One that was not looked at cannot be read.
pub open spec fn read_at(files: Files, path: Seq<char>) -> Result<Seq<char>, ErrorView> {
    if exists|i: int| is_entry(files, path, i) {
        let i = choose|i: int| is_entry(files, path, i);
        match files.entries@[i].read {
            Ok(content) => Ok(content@),
            Err(m) => Err(ErrorView::Io(m@)),
        }
    } else {
        Err(ErrorView::Io("No such file or directory (os error 2)"@))
    }
}

impl Files {
    /// The entry of a file.
    fn find(&self, path: &str) -> (r: Option<usize>)
        ensures
            match r {
                Some(i) => is_entry(*self, path@, i as int),
                None => forall|i: int| !is_entry(*self, path@, i),
            },
    {
        let mut i: usize = 0;
        while i < self.entries.len()
            invariant
                i <= self.entries@.len(),
                forall|j: int| 0 <= j < i ==> (#[trigger] self.entries@[j]).path@ != path@,
            decreases self.entries.len() - i,
        {
            if same_text(self.entries[i].path.as_str(), path) {
                return Some(i);
            }
            i = i + 1;
        }
        None
    }

    /// Whether a file exists.
    pub fn has(&self, path: &str) -> (r: bool)
        ensures
            r == exists_at(*self, path@),
    {
        match self.find(path) {
            Some(i) => {
                let r: bool = self.entries[i].exists;
                proof {
                    assert(is_entry(*self, path@, i as int));
                    assert forall|j: int| is_entry(*self, path@, j) implies j == i by {}
                }
                r
            },
            None => false,
        }
    }

    /// What reading a file gives.
    pub fn read(&self, path: &str) -> (r: Result<String, Error>)
        ensures
            match r {
                Ok(content) => read_at(*self, path@) == Ok::<Seq<char>, ErrorView>(content@),
                Err(e) => read_at(*self, path@) == Err::<Seq<char>, ErrorView>(e@),
            },
    {
        match self.find(path) {
            Some(i) => {
                proof {
                    assert(is_entry(*self, path@, i as int));
                    assert forall|j: int| is_entry(*self, path@, j) implies j == i by {}
                }
                match &self.entries[i].read {
                    Ok(content) => Ok(content.clone()),
                    Err(m) => Err(Error::Io(m.clone())),
                }
            },
            None => Err(Error::Io("No such file or directory (os error 2)".to_owned())),
        }
    }
}

/// The path of a file in a directory.
pub open spec fn path_in(dir: Seq<char>, name: Seq<char>) -> Seq<char> {
    if dir.len() == 0 {
        name
    } else if dir.last() == '/' {
        dir + name
    } else {
        dir + "/"@ + name
    }
}

/// The path of a file in a directory.
pub fn join_path(dir: &str, name: &str) -> (r: String)
    ensures
        r@ == path_in(dir@, name@),
{
    let n: usize = dir.unicode_len();
    if n == 0 {
        name.to_owned()
    } else if dir.get_char(n - 1) == '/' {
        join2(dir, name)
    } else {
        join3(dir, "/", name)
    }
}

/// A file that is to be written: its path and its content.
#[derive(Debug)]
pub struct NewFile {
    pub path: String,
    pub content: String,
}

/// What the agent does next to become part of the fleet.
#[derive(Debug, Clone, Copy, PartialEq, Eq, Structural)]
pub enum Phase {
    /// Get a device certificate for the token from the factory.
    Provision,
    /// Get an operational certificate for the device certificate.
    Enroll,
    /// Work.
    Operate,
}

/// What the agent does next: what is there already is not fetched again, and nothing is
/// skipped.
pub fn next_phase(provisioned: bool, enrolled: bool) -> (r: Phase)
    ensures
        r == Phase::Provision <==> !provisioned,
        r == Phase::Enroll <==> provisioned && !enrolled,
        r == Phase::Operate <==> provisioned && enrolled,
{
    if !provisioned {
        Phase::Provision
    } else if !enrolled {
        Phase::Enroll
    } else {
        Phase::Operate
    }
}

/// A file is what the first entry with its path says; a file without an entry does not exist
/// and cannot be read.
pub proof fn files_are_found_by_path(files: Files, path: Seq<char>, i: int)
    ensures
        0 <= i < files.entries@.len() && files.entries@[i].path@ == path && (forall|j: int|
            0 <= j < i ==> (#[trigger] files.entries@[j]).path@ != path) ==> {
            &&& exists_at(files, path) == files.entries@[i].exists
            &&& match files.entries@[i].read {
                Ok(content) => read_at(files, path) == Ok::<Seq<char>, ErrorView>(content@),
                Err(m) => read_at(files, path) == Err::<Seq<char>, ErrorView>(
                    ErrorView::Io(m@),
                ),
            }
        },
        (forall|j: int|
            0 <= j < files.entries@.len() ==> (#[trigger] files.entries@[j]).path@ != path) ==> {
            &&& !exists_at(files, path)
            &&& read_at(files, path) == Err::<Seq<char>, ErrorView>(
                ErrorView::Io("No such file or directory (os error 2)"@),
            )
        },
{
    if 0 <= i < files.entries@.len() && files.entries@[i].path@ == path && (forall|j: int|
        0 <= j < i ==> (#[trigger] files.entries@[j]).path@ != path) {
        assert(is_entry(files, path, i));
        assert forall|j: int| is_entry(files, path, j) implies j == i by {}
    }
}

/// A file in a directory has the directory's path, a slash and its name for a path; a slash
/// that the directory's path ends with serves for that, and in no directory the name is the
/// path.
pub proof fn files_stand_in_their_directory(dir: Seq<char>, name: Seq<char>)
    ensures
        path_in(Seq::empty(), name) == name,
        path_in(dir.push('/'), name) == dir.push('/') + name,
        dir.len() > 0 && dir[dir.len() - 1] != '/' ==> path_in(dir, name) == path_in(
            dir.push('/'),
            name,
        ),
{
    reveal_strlit("/");
    assert(dir.push('/').last() == '/');
    assert("/"@ =~= seq!['/']);
    if dir.len() > 0 && dir.last() != '/' {
        assert(dir + "/"@ + name =~= dir.push('/') + name);
    }
}

/// Files of different names in a directory have different paths.
pub proof fn names_tell_files_apart(dir: Seq<char>, a: Seq<char>, b: Seq<char>)
    requires
        path_in(dir, a) == path_in(dir, b),
    ensures
        a == b,
{
    let start = if dir.len() == 0 {
        Seq::<char>::empty()
    } else if dir.last() == '/' {
        dir
    } else {
        dir + "/"@
    };
    assert(path_in(dir, a) =~= start + a);
    assert(path_in(dir, b) =~= start + b);
    assert((start + a).skip(start.len() as int) =~= a);
    assert((start + b).skip(start.len() as int) =~= b);
}

} // verus!
