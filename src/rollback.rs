use vstd::prelude::*;

use crate::commit::{Action, Change, Commit};
use crate::error::Error;
use crate::paths::{dir_like, file_like, is_dir_shaped, is_file_shaped};

verus! {

/// Relies on `same_file::is_same_file`: whether two paths open the same filesystem entry.
/// What it answers depends on the disk, so nothing is promised of it; an error counts as "no".
#[verifier::external_body]
fn same_entry(a: &str, b: &str) -> (r: bool) {
    same_file::is_same_file(a, b).unwrap_or(false)
}

/// What a session holds: each registered path with its staging handle, and the new directories.
pub struct SessionView<S> {
    pub noted: Seq<(Seq<char>, S)>,
    pub new_files: Seq<(Seq<char>, S)>,
    pub new_dirs: Seq<Seq<char>>,
}

/// The paths of a registry, in order of registration.
pub open spec fn keys<S>(entries: Seq<(Seq<char>, S)>) -> Seq<Seq<char>> {
    entries.map_values(|e: (Seq<char>, S)| e.0)
}

/// A registry with its paths seen as character sequences.
pub open spec fn entries_view<S>(entries: Seq<(String, S)>) -> Seq<(Seq<char>, S)> {
    entries.map_values(|e: (String, S)| (e.0@, e.1))
}

/// The first index at which `aliased` holds, if any.
pub open spec fn first_alias(aliased: Seq<bool>, i: int) -> bool {
    0 <= i < aliased.len() && aliased[i] && forall|j: int| 0 <= j < i ==> !aliased[j]
}

/// In a sequence without duplicates, an element's index is the one it stands at.
proof fn lemma_index_of_unique(ks: Seq<Seq<char>>, i: int, p: Seq<char>)
    requires
        ks.no_duplicates(),
        0 <= i < ks.len(),
        ks[i] == p,
    ensures
        ks.contains(p),
        ks.index_of(p) == i,
{
    assert(ks.contains(p));
    let j = ks.index_of(p);
    assert(ks[j] == p);
}

/// A session of intended filesystem changes.
///
/// `S` is the handle of a staging file: the session owns it, so a staging file lives exactly as
/// long as the session that holds it (or the commit that consumes the session).
pub struct Rollback<S> {
    noted: Vec<(String, S)>,
    new_files: Vec<(String, S)>,
    new_dirs: Vec<String>,
}

impl<S> View for Rollback<S> {
    type V = SessionView<S>;

    closed spec fn view(&self) -> SessionView<S> {
        SessionView {
            noted: entries_view(self.noted@),
            new_files: entries_view(self.new_files@),
            new_dirs: self.new_dirs@.map_values(|d: String| d@),
        }
    }
}

/// Position of `path` among the keys of `entries`, compared as strings.
fn find_key<S>(entries: &Vec<(String, S)>, path: &String) -> (r: Option<usize>)
    ensures
        match r {
            Some(i) => i < entries@.len() && entries@[i as int].0@ == path@
                && keys(entries_view(entries@)).contains(path@),
            None => !keys(entries_view(entries@)).contains(path@),
        },
{
    let mut i: usize = 0;
    while i < entries.len()
        invariant
            0 <= i <= entries@.len(),
            forall|k: int| 0 <= k < i ==> entries@[k].0@ != path@,
        decreases entries@.len() - i,
    {
        if entries[i].0 == *path {
            proof {
                assert(keys(entries_view(entries@))[i as int] == path@);
            }
            return Some(i);
        }
        i = i + 1;
    }
    proof {
        let ks = keys(entries_view(entries@));
        assert forall|k: int| 0 <= k < ks.len() implies ks[k] != path@ by {
            assert(ks[k] == entries@[k].0@);
        }
    }
    None
}

/// Position of `path` among `dirs`, compared as strings.
fn find_dir(dirs: &Vec<String>, path: &String) -> (r: Option<usize>)
    ensures
        match r {
            Some(i) => i < dirs@.len() && dirs@[i as int]@ == path@,
            None => !dirs@.map_values(|d: String| d@).contains(path@),
        },
{
    let mut i: usize = 0;
    while i < dirs.len()
        invariant
            0 <= i <= dirs@.len(),
            forall|k: int| 0 <= k < i ==> dirs@[k]@ != path@,
        decreases dirs@.len() - i,
    {
        if dirs[i] == *path {
            return Some(i);
        }
        i = i + 1;
    }
    proof {
        let ds = dirs@.map_values(|d: String| d@);
        assert forall|k: int| 0 <= k < ds.len() implies ds[k] != path@ by {
            assert(ds[k] == dirs@[k]@);
        }
    }
    None
}

impl<S> Rollback<S> {
    /// Registries without duplicate paths, compared as strings.
    pub open spec fn wf(&self) -> bool {
        &&& keys(self@.noted).no_duplicates()
        &&& keys(self@.new_files).no_duplicates()
        &&& self@.new_dirs.no_duplicates()
    }

    /// For each noted path in order, whether it denotes the same filesystem entry as `path`.
    fn aliases_of(&self, path: &str) -> (r: Vec<bool>)
        ensures
            r@.len() == self@.noted.len(),
    {
        let mut r: Vec<bool> = Vec::with_capacity(self.noted.len());
        let mut i: usize = 0;
        while i < self.noted.len()
            invariant
                0 <= i <= self.noted@.len(),
                r@.len() == i,
            decreases self.noted@.len() - i,
        {
            r.push(same_entry(path, self.noted[i].0.as_str()));
            i = i + 1;
        }
        r
    }

    /// Which noted entry `path` refers to, given for each noted path whether it denotes the same
    /// filesystem entry as `path`: the entry registered under exactly this string if there is
    /// one, else the first entry that is the same filesystem entry.
    pub fn find_noted(&self, path: &str, aliased: &Vec<bool>) -> (r: Option<usize>)
        requires
            self.wf(),
            aliased@.len() == self@.noted.len(),
        ensures
            r matches Some(i) ==> i < self@.noted.len(),
            keys(self@.noted).contains(path@) ==> (r matches Some(i) && i as int == keys(self@.noted).index_of(path@)),
            !keys(self@.noted).contains(path@) ==> match r {
                Some(i) => first_alias(aliased@, i as int),
                None => !aliased@.contains(true),
            },
    {
        let key = path.to_owned();
        match find_key(&self.noted, &key) {
            Some(i) => {
                proof {
                    lemma_index_of_unique(keys(self@.noted), i as int, path@);
                }
                Some(i)
            },
            None => {
                let mut j: usize = 0;
                while j < aliased.len()
                    invariant
                        0 <= j <= aliased@.len(),
                        aliased@.len() == self@.noted.len(),
                        !keys(self@.noted).contains(path@),
                        forall|k: int| 0 <= k < j ==> !aliased@[k],
                    decreases aliased@.len() - j,
                {
                    if aliased[j] {
                        return Some(j);
                    }
                    j = j + 1;
                }
                None
            },
        }
    }

    /// Registers an existing file for modification.
    ///
    /// `is_file` says whether `original` is an existing regular file. `stage` allocates a staging
    /// file holding a copy of the original's bytes; it is called only once the registration is
    /// valid, and its I/O error is returned as it is. A path that denotes the same filesystem
    /// entry as a noted path is refused too, whatever its spelling.
    pub fn note_file<F>(&mut self, original: &str, is_file: bool, stage: F) -> (r: Result<(), Error>)
        where
            F: FnOnce() -> Result<S, std::io::Error>,
        requires
            old(self).wf(),
            stage.requires(()),
        ensures
            final(self).wf(),
            !is_file ==> (r matches Err(Error::NotAFile(p)) && p@ == original@),
            is_file && keys(old(self)@.noted).contains(original@) ==> (r matches Err(Error::AlreadyNoted(p)) && p@ == original@),
            r is Err ==> final(self)@ == old(self)@,
            r matches Err(e) ==> match e {
                Error::NotAFile(p) => !is_file && p@ == original@,
                Error::AlreadyNoted(p) => is_file && p@ == original@ && old(self)@.noted.len() > 0,
                Error::IO(io) => is_file && !keys(old(self)@.noted).contains(original@)
                    && stage.ensures((), Err(io)),
                _ => false,
            },
            r is Ok ==> is_file && !keys(old(self)@.noted).contains(original@) && exists|s: S|
                stage.ensures((), Ok(s)) && final(self)@ == (SessionView {
                    noted: old(self)@.noted.push((original@, s)),
                    ..old(self)@
                }),
    {
        if !is_file {
            return Err(Error::NotAFile(original.to_owned()));
        }
        let aliased = self.aliases_of(original);
        if self.find_noted(original, &aliased).is_some() {
            return Err(Error::AlreadyNoted(original.to_owned()));
        }
        match stage() {
            Ok(s) => {
                let ghost before = self@;
                self.noted.push((original.to_owned(), s));
                proof {
                    assert(keys(self@.noted) =~= keys(before.noted).push(original@));
                    assert(self@.noted =~= before.noted.push((original@, s)));
                }
                Ok(())
            },
            Err(e) => Err(Error::IO(e)),
        }
    }

    /// Registers a file to be created at commit.
    ///
    /// `on_disk` says whether `path` exists on disk now. The path must not be registered as a new
    /// file under the same string and must be shaped like a file path; `stage` then allocates
    /// the empty staging file that the caller fills.
    pub fn new_file<F>(&mut self, path: &str, on_disk: bool, stage: F) -> (r: Result<(), Error>)
        where
            F: FnOnce() -> Result<S, std::io::Error>,
        requires
            old(self).wf(),
            stage.requires(()),
        ensures
            final(self).wf(),
            r is Err ==> final(self)@ == old(self)@,
            on_disk ==> (r matches Err(Error::NewItemAlreadyExists(p)) && p@ == path@),
            !on_disk && keys(old(self)@.new_files).contains(path@) ==> (r matches Err(Error::AlreadyNoted(p)) && p@ == path@),
            !on_disk && !keys(old(self)@.new_files).contains(path@) && !is_file_shaped(path@) ==> (r matches Err(Error::NotAFile(p)) && p@ == path@),
            !on_disk && !keys(old(self)@.new_files).contains(path@) && is_file_shaped(path@) ==> (
                (r matches Err(Error::IO(e)) && stage.ensures((), Err(e)))
                || (r is Ok && exists|s: S| stage.ensures((), Ok(s)) && final(self)@ == (SessionView {
                    new_files: old(self)@.new_files.push((path@, s)),
                    ..old(self)@
                }))),
    {
        if on_disk {
            return Err(Error::NewItemAlreadyExists(path.to_owned()));
        }
        let key = path.to_owned();
        if find_key(&self.new_files, &key).is_some() {
            return Err(Error::AlreadyNoted(key));
        }
        if !file_like(path) {
            return Err(Error::NotAFile(key));
        }
        match stage() {
            Ok(s) => {
                let ghost before = self@;
                self.new_files.push((key, s));
                proof {
                    assert(keys(self@.new_files) =~= keys(before.new_files).push(path@));
                    assert(self@.new_files =~= before.new_files.push((path@, s)));
                }
                Ok(())
            },
            Err(e) => Err(Error::IO(e)),
        }
    }

    /// Registers a directory, with any missing parents, to be created at commit.
    ///
    /// `on_disk` says whether `path` exists on disk now. The path must not be registered as a new
    /// directory under the same string, and must be shaped like a directory path.
    pub fn new_dir(&mut self, path: &str, on_disk: bool) -> (r: Result<(), Error>)
        requires
            old(self).wf(),
        ensures
            final(self).wf(),
            r is Err ==> final(self)@ == old(self)@,
            on_disk ==> (r matches Err(Error::NewItemAlreadyExists(p)) && p@ == path@),
            !on_disk && old(self)@.new_dirs.contains(path@) ==> (r matches Err(Error::AlreadyNoted(p)) && p@ == path@),
            !on_disk && !old(self)@.new_dirs.contains(path@) && !is_dir_shaped(path@) ==> (r matches Err(Error::NotADir(p)) && p@ == path@),
            !on_disk && !old(self)@.new_dirs.contains(path@) && is_dir_shaped(path@) ==> r is Ok && final(self)@ == (SessionView {
                new_dirs: old(self)@.new_dirs.push(path@),
                ..old(self)@
            }),
    {
        if on_disk {
            return Err(Error::NewItemAlreadyExists(path.to_owned()));
        }
        let key = path.to_owned();
        match find_dir(&self.new_dirs, &key) {
            Some(i) => {
                proof {
                    assert(self@.new_dirs[i as int] == path@);
                }
                return Err(Error::AlreadyNoted(key));
            },
            None => {},
        }
        if !dir_like(path) {
            return Err(Error::NotADir(key));
        }
        let ghost before = self@;
        self.new_dirs.push(key);
        proof {
            assert(self@.new_dirs =~= before.new_dirs.push(path@));
        }
        Ok(())
    }

    /// The staging handle of the noted file that `path` refers to: the one registered under
    /// exactly this string, else the first one that is the same filesystem entry.
    pub fn get_noted_file(&self, path: &str) -> (r: Option<&S>)
        requires
            self.wf(),
        ensures
            keys(self@.noted).contains(path@) ==> r == Some(&self@.noted[keys(self@.noted).index_of(path@)].1),
            r matches Some(s) ==> exists|i: int| 0 <= i < self@.noted.len() && *s == self@.noted[i].1,
            self@.noted.len() == 0 ==> r is None,
    {
        let aliased = self.aliases_of(path);
        match self.find_noted(path, &aliased) {
            Some(i) => {
                proof {
                    assert(self@.noted[i as int] == (self.noted@[i as int].0@, self.noted@[i as int].1));
                }
                Some(&self.noted[i].1)
            },
            None => None,
        }
    }

    /// The staging handle of the new file registered under exactly this string.
    pub fn get_new_file(&self, path: &str) -> (r: Option<&S>)
        requires
            self.wf(),
        ensures
            keys(self@.new_files).contains(path@) ==> r == Some(&self@.new_files[keys(self@.new_files).index_of(path@)].1),
            !keys(self@.new_files).contains(path@) ==> r is None,
    {
        let key = path.to_owned();
        match find_key(&self.new_files, &key) {
            Some(i) => {
                proof {
                    lemma_index_of_unique(keys(self@.new_files), i as int, path@);
                }
                Some(&self.new_files[i].1)
            },
            None => None,
        }
    }

    /// Consumes the session and starts committing it. The first action is always
    /// [`Action::CommitNoted`]; the commit then runs by [`Commit::step`].
    pub fn commit(self) -> (r: (Commit<S>, Action))
        requires
            self.wf(),
        ensures
            r.0.wf(),
            r.0.noted_paths().no_duplicates(),
            r.0.file_paths().no_duplicates(),
            r.0.dir_paths().no_duplicates(),
            r.0.stage() is Noted,
            r.0.log() == Set::<Change>::empty(),
            r.0.noted_paths() == keys(self@.noted),
            r.0.noted_stagings() == self@.noted.map_values(|e: (Seq<char>, S)| e.1),
            r.0.dir_paths() == self@.new_dirs,
            r.0.file_paths() == keys(self@.new_files),
            r.0.file_stagings() == self@.new_files.map_values(|e: (Seq<char>, S)| e.1),
            r.1 is CommitNoted,
    {
        let ghost v = self@;
        let c = Commit::start(self.noted, self.new_files, self.new_dirs);
        proof {
            assert(c.noted_stagings() =~= v.noted.map_values(|e: (Seq<char>, S)| e.1));
            assert(c.file_stagings() =~= v.new_files.map_values(|e: (Seq<char>, S)| e.1));
            assert(c.dir_paths() =~= v.new_dirs);
        }
        (c, Action::CommitNoted)
    }

    /// Number of noted files.
    pub fn noted_len(&self) -> (r: usize)
        ensures
            r == self@.noted.len(),
    {
        self.noted.len()
    }

    /// Number of new files.
    pub fn new_files_len(&self) -> (r: usize)
        ensures
            r == self@.new_files.len(),
    {
        self.new_files.len()
    }

    /// Number of new directories.
    pub fn new_dirs_len(&self) -> (r: usize)
        ensures
            r == self@.new_dirs.len(),
    {
        self.new_dirs.len()
    }

    /// An empty session.
    pub fn new() -> (r: Self)
        ensures
            r.wf(),
            r@.noted.len() == 0,
            r@.new_files.len() == 0,
            r@.new_dirs.len() == 0,
    {
        Rollback { noted: Vec::new(), new_files: Vec::new(), new_dirs: Vec::new() }
    }

    /// An empty session with room reserved in each of its three registries.
    pub fn with_capacity(
        note_capacity: usize,
        new_files_capacity: usize,
        new_dirs_capacity: usize,
    ) -> (r: Self)
        ensures
            r.wf(),
            r@.noted.len() == 0,
            r@.new_files.len() == 0,
            r@.new_dirs.len() == 0,
    {
        Rollback {
            noted: Vec::with_capacity(note_capacity),
            new_files: Vec::with_capacity(new_files_capacity),
            new_dirs: Vec::with_capacity(new_dirs_capacity),
        }
    }
}

impl<S> Default for Rollback<S> {
    /// An empty session.
    fn default() -> (r: Self)
        ensures
            r.wf(),
            r@.noted.len() == 0,
            r@.new_files.len() == 0,
            r@.new_dirs.len() == 0,
    {
        Rollback::new()
    }
}

} // verus!
