use vstd::prelude::*;

use vstd::string::StrSliceExecFns;

use crate::error::Error;
use crate::paths::{parent, parent_of};
use crate::rollback::{entries_view, keys};

verus! {

/// What the caller reports for one noted file once the first phase has run.
pub enum NotedOutcome {
    /// A backup of the original was taken, then the staging content was copied over it.
    Committed,
    /// A backup of the original was taken, but copying the staging content over it failed.
    CopyFailed(String),
    /// No backup could be taken, and the original was left as it was.
    BackupFailed(String),
}

/// What the caller reports after performing an [`Action`].
pub enum Event {
    /// The outcome of [`Action::CommitNoted`] for each noted file, in order of registration.
    Noted(Vec<NotedOutcome>),
    /// Whether the path of a probe exists.
    Exists(bool),
    /// The creation or copy that was asked for succeeded.
    Done,
    /// The creation or copy that was asked for failed, with the text of the error.
    Failed(String),
}

/// What a failed commit must undo before it reports its error.
pub struct UndoPlan {
    /// For each noted file, whether its backup must be restored over the original.
    pub restore: Vec<bool>,
    /// The directories that the commit created, to be removed in this order: the one created
    /// last comes first, so a directory goes after everything that was created inside it.
    pub dirs: Vec<String>,
    /// How many of the new files, counted from the first, must be removed.
    pub files: usize,
}

/// The next piece of filesystem work a commit asks of its caller.
pub enum Action {
    /// For every noted file, independently: back up the original in its own directory (see
    /// `backup_dir`), then copy the staging content over the original. Report [`Event::Noted`].
    CommitNoted,
    /// Report whether the new directory with this index exists.
    ProbeDir(usize),
    /// Report whether the directory at this path exists: an ancestor of the new directory at
    /// hand, probed nearest first until one exists.
    Probe(String),
    /// Create the directory at this path, one level only: the probes found its parent in place,
    /// or it was created just before.
    CreateDir(String),
    /// Report whether the new file with this index exists.
    ProbeFile(usize),
    /// Create the new file with this index, empty.
    CreateFile(usize),
    /// Copy the staging content of the new file with this index into it.
    FillFile(usize),
    /// The commit failed: carry out the plan, then report the error.
    Undo(UndoPlan, Error),
    /// The commit succeeded.
    Finish,
}

/// Where a commit stands.
pub enum Stage {
    Noted,
    ProbeDir(usize),
    /// Probing ancestor `i` of new directory `j`.
    ProbeUp(usize, usize),
    /// Creating, for new directory `j`, ancestor `m - 1`, or the directory itself when `m` is 0.
    MakeLevel(usize, usize),
    ProbeFile(usize),
    MakeFile(usize),
    FillFile(usize),
    Succeeded,
    Failed,
}

/// A change that a commit made to the filesystem, as its caller reported it.
pub enum Change {
    /// The original at this path may no longer hold what it held: a backup of it was taken
    /// before it was written.
    Overwrote(Seq<char>),
    /// The staging content now stands in the original at this path.
    Staged(Seq<char>),
    /// The directory at this path was created: a new directory or one of its ancestors.
    MadeDir(Seq<char>),
    /// The file at this path was created.
    MadeFile(Seq<char>),
    /// The staging content now stands in the new file at this path.
    Filled(Seq<char>),
}

/// The changes that the first phase reports for the noted files at `paths`.
pub open spec fn noted_changes(paths: Seq<Seq<char>>, outs: Seq<NotedOutcome>) -> Set<Change> {
    Set::new(|c: Change| exists|i: int| 0 <= i < outs.len() && {
        ||| c == Change::Overwrote(paths[i]) && !(outs[i] is BackupFailed)
        ||| c == Change::Staged(paths[i]) && outs[i] is Committed
    })
}

/// `i` is the first noted file whose outcome is not a success.
pub open spec fn first_failure(outs: Seq<NotedOutcome>, i: int) -> bool {
    0 <= i < outs.len() && !(outs[i] is Committed) && forall|j: int| 0 <= j < i ==> outs[j] is Committed
}

/// The message that a failed outcome carries.
pub open spec fn failure_text(o: NotedOutcome) -> Seq<char> {
    match o {
        NotedOutcome::CopyFailed(m) => m@,
        NotedOutcome::BackupFailed(m) => m@,
        NotedOutcome::Committed => Seq::empty(),
    }
}

/// The ancestors of `p` that may have to be created before it, nearest first: its parent, the
/// parent's parent, and so on, until a path has no parent or an empty one; at most `fuel` of them.
pub open spec fn ancestors(p: Seq<char>, fuel: nat) -> Seq<Seq<char>>
    decreases fuel,
{
    if fuel == 0 {
        Seq::empty()
    } else {
        match parent_of(p) {
            Some(d) => if d.len() == 0 {
                Seq::empty()
            } else {
                seq![d] + ancestors(d, (fuel - 1) as nat)
            },
            None => Seq::empty(),
        }
    }
}

/// The ancestors of the directory `p` to probe, as in [`ancestors`] with one per character
/// of `p` at most.
fn ancestors_of(p: &String) -> (r: Vec<String>)
    ensures
        r@.map_values(|s: String| s@) == ancestors(p@, p@.len()),
{
    let mut r: Vec<String> = Vec::new();
    let mut cur: String = p.clone();
    let mut fuel: usize = p.as_str().unicode_len();
    while fuel > 0
        invariant
            r@.map_values(|s: String| s@) + ancestors(cur@, fuel as nat) == ancestors(p@, p@.len()),
        decreases fuel,
    {
        match parent(cur.as_str()) {
            Some(d) => {
                if d.as_str().is_empty() {
                    proof {
                        assert(ancestors(cur@, fuel as nat) =~= Seq::<Seq<char>>::empty());
                        assert(r@.map_values(|s: String| s@) + Seq::<Seq<char>>::empty() =~= r@.map_values(|s: String| s@));
                    }
                    return r;
                }
                let ghost before = r@.map_values(|s: String| s@);
                let ghost rest = ancestors(d@, (fuel - 1) as nat);
                r.push(d.clone());
                proof {
                    assert(r@.map_values(|s: String| s@) =~= before.push(d@));
                    assert(before + (seq![d@] + rest) =~= before.push(d@) + rest);
                }
                cur = d;
                fuel = fuel - 1;
            },
            None => {
                proof {
                    assert(r@.map_values(|s: String| s@) + Seq::<Seq<char>>::empty() =~= r@.map_values(|s: String| s@));
                }
                return r;
            },
        }
    }
    proof {
        assert(r@.map_values(|s: String| s@) + Seq::<Seq<char>>::empty() =~= r@.map_values(|s: String| s@));
    }
    r
}

/// The stage that follows the creation of the first `j` new directories.
pub open spec fn stage_from_dir(j: int, n_dirs: int, n_files: int) -> Stage {
    if j < n_dirs {
        Stage::ProbeDir(j as usize)
    } else if 0 < n_files {
        Stage::ProbeFile(0)
    } else {
        Stage::Succeeded
    }
}

/// The stage that follows the creation of the first `k` new files.
pub open spec fn stage_from_file(k: int, n_files: int) -> Stage {
    if k < n_files {
        Stage::ProbeFile(k as usize)
    } else {
        Stage::Succeeded
    }
}

/// `a` is the action that a commit entering stage `s` hands out.
pub open spec fn announces(s: Stage, a: Action) -> bool {
    match s {
        Stage::ProbeDir(j) => a == Action::ProbeDir(j),
        Stage::ProbeFile(k) => a == Action::ProbeFile(k),
        Stage::Succeeded => a is Finish,
        _ => false,
    }
}

/// `a` comes strictly before `b` in the lexicographic order.
pub open spec fn lex_lt(a: (nat, nat, nat, nat), b: (nat, nat, nat, nat)) -> bool {
    ||| a.0 < b.0
    ||| a.0 == b.0 && a.1 < b.1
    ||| a.0 == b.0 && a.1 == b.1 && a.2 < b.2
    ||| a.0 == b.0 && a.1 == b.1 && a.2 == b.2 && a.3 < b.3
}

/// A copy of a vector of flags.
fn copy_flags(v: &Vec<bool>) -> (r: Vec<bool>)
    ensures
        r@ == v@,
{
    let mut r: Vec<bool> = Vec::with_capacity(v.len());
    let mut i: usize = 0;
    while i < v.len()
        invariant
            0 <= i <= v@.len(),
            r@ == v@.subrange(0, i as int),
        decreases v@.len() - i,
    {
        r.push(v[i]);
        i = i + 1;
    }
    proof {
        assert(r@ =~= v@);
    }
    r
}

/// The paths of `v`, last first.
fn reversed(v: &Vec<String>) -> (r: Vec<String>)
    ensures
        r@.map_values(|s: String| s@) == v@.map_values(|s: String| s@).reverse(),
{
    let mut r: Vec<String> = Vec::with_capacity(v.len());
    let mut i: usize = v.len();
    while i > 0
        invariant
            0 <= i <= v@.len(),
            r@.len() == v@.len() - i,
            forall|k: int| 0 <= k < r@.len() ==> #[trigger] r@[k]@ == v@[v@.len() - 1 - k]@,
        decreases i,
    {
        i = i - 1;
        r.push(v[i].clone());
    }
    proof {
        let a = r@.map_values(|s: String| s@);
        let b = v@.map_values(|s: String| s@).reverse();
        assert(a.len() == b.len());
        assert forall|k: int| 0 <= k < a.len() implies a[k] == b[k] by {
            assert(r@[k]@ == v@[v@.len() - 1 - k]@);
        }
        assert(a =~= b);
    }
    r
}

/// The state of a commit in progress. It owns what the session held, so the staging files live
/// until the commit is dropped.
pub struct Commit<S> {
    noted: Vec<(String, S)>,
    new_files: Vec<(String, S)>,
    new_dirs: Vec<String>,
    stage: Stage,
    backed_up: Vec<bool>,
    made_dirs: Vec<String>,
    levels: Vec<String>,
    files_made: usize,
    log: Ghost<Set<Change>>,
}

impl<S> Commit<S> {
    /// The noted paths, in order of registration.
    pub closed spec fn noted_paths(&self) -> Seq<Seq<char>> {
        keys(entries_view(self.noted@))
    }

    /// The staging handles of the noted paths, in the same order.
    pub closed spec fn noted_stagings(&self) -> Seq<S> {
        self.noted@.map_values(|e: (String, S)| e.1)
    }

    /// The new directories, in order of registration.
    pub closed spec fn dir_paths(&self) -> Seq<Seq<char>> {
        self.new_dirs@.map_values(|d: String| d@)
    }

    /// The new files, in order of registration.
    pub closed spec fn file_paths(&self) -> Seq<Seq<char>> {
        keys(entries_view(self.new_files@))
    }

    /// The staging handles of the new files, in the same order.
    pub closed spec fn file_stagings(&self) -> Seq<S> {
        self.new_files@.map_values(|e: (String, S)| e.1)
    }

    pub closed spec fn stage(&self) -> Stage {
        self.stage
    }

    /// Every change made so far, as reported by the caller.
    pub closed spec fn log(&self) -> Set<Change> {
        self.log@
    }

    /// The ancestors of the new directory at hand, nearest first.
    pub closed spec fn levels(&self) -> Seq<Seq<char>> {
        self.levels@.map_values(|s: String| s@)
    }

    /// The directories created so far, in order of creation.
    pub closed spec fn made_dirs(&self) -> Seq<Seq<char>> {
        self.made_dirs@.map_values(|s: String| s@)
    }

    /// The directory that stage `MakeLevel(j, m)` creates.
    pub open spec fn level_to_make(&self, j: int, m: int) -> Seq<char> {
        if m > 0 {
            self.levels()[m - 1]
        } else {
            self.dir_paths()[j]
        }
    }

    /// `r` is the action that stage `MakeLevel(j, m)` hands out.
    pub open spec fn creates(&self, r: Action) -> bool {
        match self.stage() {
            Stage::MakeLevel(j, m) => r matches Action::CreateDir(p) && p@ == self.level_to_make(j as int, m as int),
            _ => false,
        }
    }

    /// `plan` undoes what this commit did.
    pub closed spec fn planned(&self, plan: UndoPlan) -> bool {
        &&& plan.restore@ == self.backed_up@
        &&& plan.dirs@.map_values(|s: String| s@) == self.made_dirs().reverse()
        &&& plan.files == self.files_made
    }

    /// Every noted file holds its staging content.
    spec fn all_staged(&self) -> bool {
        &&& self.backed_up@.len() == self.noted@.len()
        &&& forall|i: int|
            0 <= i < self.noted@.len() ==> #[trigger] self.log@.contains(
                Change::Staged(self.noted_paths()[i]),
            )
    }

    /// Every noted file has a backup.
    spec fn all_backed(&self) -> bool {
        forall|i: int| 0 <= i < self.backed_up@.len() ==> #[trigger] self.backed_up@[i]
    }

    /// The first `j` new directories were created.
    spec fn dirs_before(&self, j: int) -> bool {
        forall|m: int| 0 <= m < j ==> #[trigger] self.log@.contains(Change::MadeDir(self.dir_paths()[m]))
    }

    /// The first `k` new files hold their staging content.
    spec fn filled_before(&self, k: int) -> bool {
        forall|m: int| 0 <= m < k ==> #[trigger] self.log@.contains(Change::Filled(self.file_paths()[m]))
    }

    /// The bookkeeping agrees with the log of changes.
    spec fn books(&self) -> bool {
        let log = self.log@;
        &&& forall|p: Seq<char>| #[trigger] log.contains(Change::Overwrote(p)) <==> exists|i: int|
            0 <= i < self.backed_up@.len() && self.backed_up@[i] && self.noted_paths()[i] == p
        &&& forall|p: Seq<char>| #[trigger] log.contains(Change::Staged(p)) ==> log.contains(Change::Overwrote(p))
        &&& forall|p: Seq<char>| #[trigger] log.contains(Change::MadeDir(p)) <==> self.made_dirs().contains(p)
        &&& forall|p: Seq<char>| #[trigger] log.contains(Change::MadeFile(p)) <==> exists|k: int|
            0 <= k < self.files_made && self.file_paths()[k] == p
        &&& forall|p: Seq<char>| #[trigger] log.contains(Change::Filled(p)) ==> log.contains(Change::MadeFile(p))
        &&& self.files_made <= self.new_files@.len()
    }

    /// Past the noted files and short of the end: every noted file has a backup and holds its
    /// staging content.
    spec fn past_noted(&self) -> bool {
        self.all_staged() && self.all_backed()
    }

    /// The bookkeeping agrees with the log of changes, and the stage with the bookkeeping.
    pub closed spec fn wf(&self) -> bool {
        let nd = self.new_dirs@.len();
        let nf = self.new_files@.len();
        &&& self.books()
        &&& self.stage is Noted ==> self.backed_up@.len() == 0 && self.log@ == Set::<Change>::empty()
            && self.made_dirs@.len() == 0 && self.files_made == 0
        &&& !(self.stage is Noted) ==> self.backed_up@.len() == self.noted@.len()
        &&& match self.stage {
            Stage::Noted => true,
            Stage::ProbeDir(j) => j < nd && self.files_made == 0 && self.past_noted()
                && self.dirs_before(j as int),
            Stage::ProbeUp(j, i) => j < nd && i < self.levels@.len() && self.files_made == 0
                && self.past_noted() && self.dirs_before(j as int),
            Stage::MakeLevel(j, m) => j < nd && m <= self.levels@.len() && self.files_made == 0
                && self.past_noted() && self.dirs_before(j as int),
            Stage::ProbeFile(k) => k < nf && self.dirs_before(nd as int) && self.files_made == k
                && self.past_noted() && self.filled_before(k as int),
            Stage::MakeFile(k) => k < nf && self.dirs_before(nd as int) && self.files_made == k
                && self.past_noted() && self.filled_before(k as int),
            Stage::FillFile(k) => k < nf && self.dirs_before(nd as int) && self.files_made == k + 1
                && self.past_noted() && self.filled_before(k as int),
            Stage::Succeeded => self.dirs_before(nd as int) && self.files_made == nf
                && self.past_noted() && self.filled_before(nf as int),
            Stage::Failed => true,
        }
    }

    /// Where the commit stands, in an order that every step strictly lowers: the phase, the
    /// items left in it, the point within the item, and the levels left to probe or create.
    /// A succeeded or failed commit awaits no event, so every commit ends.
    pub closed spec fn rank(&self) -> (nat, nat, nat, nat) {
        let nd = self.new_dirs@.len() as int;
        let nf = self.new_files@.len() as int;
        let nl = self.levels@.len() as int;
        match self.stage {
            Stage::Noted => (3, 0, 0, 0),
            Stage::ProbeDir(j) => (2, (nd - j) as nat, 3, 0),
            Stage::ProbeUp(j, i) => (2, (nd - j) as nat, 2, (nl - i) as nat),
            Stage::MakeLevel(j, m) => (2, (nd - j) as nat, 1, m as nat),
            Stage::ProbeFile(k) => (1, (nf - k) as nat, 3, 0),
            Stage::MakeFile(k) => (1, (nf - k) as nat, 2, 0),
            Stage::FillFile(k) => (1, (nf - k) as nat, 1, 0),
            Stage::Succeeded => (0, 0, 0, 0),
            Stage::Failed => (0, 0, 0, 0),
        }
    }

    /// Whether the commit is waiting for `e`.
    pub open spec fn awaits(&self, e: Event) -> bool {
        match e {
            Event::Noted(outs) => self.stage() is Noted && outs@.len() == self.noted_paths().len(),
            Event::Exists(_) => self.stage() is ProbeDir || self.stage() is ProbeUp || self.stage() is ProbeFile,
            Event::Done => self.stage() is MakeLevel || self.stage() is MakeFile || self.stage() is FillFile,
            Event::Failed(_) => self.stage() is MakeLevel || self.stage() is MakeFile || self.stage() is FillFile,
        }
    }

    pub(crate) fn start(noted: Vec<(String, S)>, new_files: Vec<(String, S)>, new_dirs: Vec<String>) -> (r: Self)
        ensures
            r.wf(),
            r.stage() is Noted,
            r.log() == Set::<Change>::empty(),
            r.noted_paths() == keys(entries_view(noted@)),
            r.noted_stagings() == noted@.map_values(|e: (String, S)| e.1),
            r.dir_paths() == new_dirs@.map_values(|d: String| d@),
            r.file_paths() == keys(entries_view(new_files@)),
            r.file_stagings() == new_files@.map_values(|e: (String, S)| e.1),
    {
        let r = Commit {
            noted,
            new_files,
            new_dirs,
            stage: Stage::Noted,
            backed_up: Vec::new(),
            made_dirs: Vec::new(),
            levels: Vec::new(),
            files_made: 0,
            log: Ghost(Set::empty()),
        };
        proof {
            assert(r.made_dirs() =~= Seq::<Seq<char>>::empty());
        }
        r
    }

    /// The views of the registries are as long as the registries.
    proof fn lemma_books_lengths(&self)
        ensures
            self.noted_paths().len() == self.noted@.len(),
            self.dir_paths().len() == self.new_dirs@.len(),
            self.file_paths().len() == self.new_files@.len(),
            self.levels().len() == self.levels@.len(),
            self.made_dirs().len() == self.made_dirs@.len(),
    {
    }

    /// Two states that differ only in their stage and the ancestors at hand keep the same
    /// bookkeeping.
    proof fn lemma_frame(a: &Self, b: &Self)
        requires
            a.noted == b.noted,
            a.new_dirs == b.new_dirs,
            a.new_files == b.new_files,
            a.backed_up == b.backed_up,
            a.made_dirs == b.made_dirs,
            a.files_made == b.files_made,
            a.log == b.log,
        ensures
            a.noted_paths() == b.noted_paths(),
            a.noted_stagings() == b.noted_stagings(),
            a.dir_paths() == b.dir_paths(),
            a.file_paths() == b.file_paths(),
            a.file_stagings() == b.file_stagings(),
            a.made_dirs() == b.made_dirs(),
            a.books() == b.books(),
            a.past_noted() == b.past_noted(),
            forall|j: int| a.dirs_before(j) == b.dirs_before(j),
            forall|k: int| a.filled_before(k) == b.filled_before(k),
    {
        assert(a.backed_up@ == b.backed_up@);
        assert(a.noted@ == b.noted@);
        assert(a.new_dirs@ == b.new_dirs@);
        assert(a.new_files@ == b.new_files@);
        assert(a.made_dirs@ == b.made_dirs@);
        assert(a.log@ == b.log@);
        assert(a.noted_paths() == b.noted_paths());
        assert(a.dir_paths() == b.dir_paths());
        assert(a.file_paths() == b.file_paths());
        assert(a.made_dirs() == b.made_dirs());
    }

    /// Recording the creation of directory `p` keeps the bookkeeping, and adds `p` to the
    /// directories known to be made.
    proof fn lemma_made_dir(&self, before: &Self, p: Seq<char>)
        requires
            before.books(),
            before.past_noted(),
            self.noted == before.noted,
            self.new_dirs == before.new_dirs,
            self.new_files == before.new_files,
            self.backed_up == before.backed_up,
            self.files_made == before.files_made,
            self.made_dirs() == before.made_dirs().push(p),
            self.log@ == before.log@.insert(Change::MadeDir(p)),
        ensures
            self.books(),
            self.past_noted(),
            forall|j: int| before.dirs_before(j) ==> self.dirs_before(j),
            forall|j: int| 0 <= j < self.dir_paths().len() && before.dirs_before(j) && self.dir_paths()[j] == p
                ==> self.dirs_before(j + 1),
    {
        assert(self.noted_paths() == before.noted_paths());
        assert(self.dir_paths() == before.dir_paths());
        assert(self.file_paths() == before.file_paths());
        assert(self.backed_up@ == before.backed_up@);
        let log = self.log@;
        assert forall|q: Seq<char>| #[trigger] log.contains(Change::MadeDir(q)) <==> self.made_dirs().contains(q) by {
            if q == p {
                assert(self.made_dirs()[before.made_dirs().len() as int] == p);
            } else {
                if self.made_dirs().contains(q) {
                    let i = choose|i: int| 0 <= i < self.made_dirs().len() && self.made_dirs()[i] == q;
                    assert(before.made_dirs()[i] == q);
                }
                if before.made_dirs().contains(q) {
                    let i = choose|i: int| 0 <= i < before.made_dirs().len() && before.made_dirs()[i] == q;
                    assert(self.made_dirs()[i] == q);
                }
            }
        }
        assert forall|i: int| 0 <= i < self.noted@.len() implies #[trigger] self.log@.contains(
            Change::Staged(self.noted_paths()[i])) by {
            assert(before.log@.contains(Change::Staged(before.noted_paths()[i])));
        }
        assert forall|j: int| before.dirs_before(j) implies self.dirs_before(j) by {
            assert forall|m: int| 0 <= m < j implies #[trigger] self.log@.contains(Change::MadeDir(self.dir_paths()[m])) by {
                assert(before.log@.contains(Change::MadeDir(before.dir_paths()[m])));
            }
        }
        assert forall|j: int| 0 <= j < self.dir_paths().len() && before.dirs_before(j) && self.dir_paths()[j] == p
            implies self.dirs_before(j + 1) by {
            assert forall|m: int| 0 <= m < j + 1 implies #[trigger] self.log@.contains(Change::MadeDir(self.dir_paths()[m])) by {
                if m < j {
                    assert(before.log@.contains(Change::MadeDir(before.dir_paths()[m])));
                }
            }
        }
    }

    /// Recording the creation of file `k` keeps the bookkeeping.
    proof fn lemma_made_file(&self, before: &Self, k: usize)
        requires
            before.wf(),
            before.stage == Stage::MakeFile(k),
            self.stage == Stage::FillFile(k),
            self.noted == before.noted,
            self.new_dirs == before.new_dirs,
            self.new_files == before.new_files,
            self.backed_up == before.backed_up,
            self.made_dirs == before.made_dirs,
            self.files_made == k + 1,
            self.log@ == before.log@.insert(Change::MadeFile(before.file_paths()[k as int])),
        ensures
            self.wf(),
    {
        Self::lemma_frame(before, before);
        assert(self.noted_paths() == before.noted_paths());
        assert(self.dir_paths() == before.dir_paths());
        assert(self.file_paths() == before.file_paths());
        assert(self.made_dirs@ == before.made_dirs@);
        assert(self.made_dirs() == before.made_dirs());
        assert(self.backed_up@ == before.backed_up@);
        let log = self.log@;
        assert forall|p: Seq<char>| #[trigger] log.contains(Change::MadeFile(p)) <==> exists|m: int|
            0 <= m < self.files_made && self.file_paths()[m] == p by {
            if log.contains(Change::MadeFile(p)) {
                if p == before.file_paths()[k as int] {
                    assert(self.file_paths()[k as int] == p);
                } else {
                    assert(before.log@.contains(Change::MadeFile(p)));
                    let m = choose|m: int| 0 <= m < before.files_made && before.file_paths()[m] == p;
                    assert(self.file_paths()[m] == p);
                }
            }
            if exists|m: int| 0 <= m < self.files_made && self.file_paths()[m] == p {
                let m = choose|m: int| 0 <= m < self.files_made && self.file_paths()[m] == p;
                if m < k {
                    assert(before.log@.contains(Change::MadeFile(p)));
                }
            }
        }
        assert forall|i: int| 0 <= i < self.noted@.len() implies #[trigger] self.log@.contains(
            Change::Staged(self.noted_paths()[i])) by {
            assert(before.log@.contains(Change::Staged(before.noted_paths()[i])));
        }
        assert forall|m: int| 0 <= m < k implies #[trigger] self.log@.contains(
            Change::Filled(self.file_paths()[m])) by {
            assert(before.log@.contains(Change::Filled(before.file_paths()[m])));
        }
        assert forall|m: int| 0 <= m < self.new_dirs@.len() implies #[trigger] self.log@.contains(
            Change::MadeDir(self.dir_paths()[m])) by {
            assert(before.log@.contains(Change::MadeDir(before.dir_paths()[m])));
        }
    }

    /// Recording that file `k` was filled keeps the bookkeeping.
    proof fn lemma_filled(&self, before: &Self, k: usize)
        requires
            before.wf(),
            before.stage == Stage::FillFile(k),
            self.noted == before.noted,
            self.new_dirs == before.new_dirs,
            self.new_files == before.new_files,
            self.backed_up == before.backed_up,
            self.made_dirs == before.made_dirs,
            self.files_made == before.files_made,
            self.log@ == before.log@.insert(Change::Filled(before.file_paths()[k as int])),
        ensures
            self.books(),
            self.past_noted(),
            self.dirs_before(self.new_dirs@.len() as int),
            self.filled_before(k + 1),
    {
        assert(self.noted_paths() == before.noted_paths());
        assert(self.dir_paths() == before.dir_paths());
        assert(self.file_paths() == before.file_paths());
        assert(self.made_dirs@ == before.made_dirs@);
        assert(self.made_dirs() == before.made_dirs());
        assert(self.backed_up@ == before.backed_up@);
        assert(before.log@.contains(Change::MadeFile(before.file_paths()[k as int])));
        assert forall|i: int| 0 <= i < self.noted@.len() implies #[trigger] self.log@.contains(
            Change::Staged(self.noted_paths()[i])) by {
            assert(before.log@.contains(Change::Staged(before.noted_paths()[i])));
        }
        assert forall|m: int| 0 <= m < k + 1 implies #[trigger] self.log@.contains(
            Change::Filled(self.file_paths()[m])) by {
            if m < k {
                assert(before.log@.contains(Change::Filled(before.file_paths()[m])));
            }
        }
        assert forall|m: int| 0 <= m < self.new_dirs@.len() implies #[trigger] self.log@.contains(
            Change::MadeDir(self.dir_paths()[m])) by {
            assert(before.log@.contains(Change::MadeDir(before.dir_paths()[m])));
        }
    }

    /// Marks the commit failed and hands out the plan that undoes what it did.
    fn fail(&mut self, e: Error) -> (r: Action)
        requires
            old(self).books(),
            old(self).backed_up@.len() == old(self).noted@.len(),
        ensures
            final(self).wf(),
            final(self).stage() is Failed,
            final(self).log() == old(self).log(),
            final(self).noted == old(self).noted,
            final(self).new_dirs == old(self).new_dirs,
            final(self).new_files == old(self).new_files,
            final(self).backed_up == old(self).backed_up,
            final(self).made_dirs() == old(self).made_dirs(),
            (r matches Action::Undo(plan, err) && err == e && final(self).planned(plan)),
    {
        let restore = copy_flags(&self.backed_up);
        let dirs = reversed(&self.made_dirs);
        self.stage = Stage::Failed;
        proof {
            Self::lemma_frame(old(self), self);
        }
        Action::Undo(UndoPlan { restore, dirs, files: self.files_made }, e)
    }

    /// Moves on to the new directory with index `j`, or past the directories.
    fn enter_dir(&mut self, j: usize) -> (r: Action)
        requires
            old(self).books(),
            old(self).past_noted(),
            j <= old(self).new_dirs@.len(),
            old(self).dirs_before(j as int),
            old(self).files_made == 0,
        ensures
            final(self).wf(),
            final(self).stage() == stage_from_dir(j as int, old(self).dir_paths().len() as int, old(self).file_paths().len() as int),
            announces(final(self).stage(), r),
            final(self).log() == old(self).log(),
            final(self).noted == old(self).noted,
            final(self).new_dirs == old(self).new_dirs,
            final(self).new_files == old(self).new_files,
            final(self).backed_up == old(self).backed_up,
            final(self).made_dirs == old(self).made_dirs,
            final(self).levels == old(self).levels,
    {
        if j < self.new_dirs.len() {
            self.stage = Stage::ProbeDir(j);
            proof {
                Self::lemma_frame(old(self), self);
            }
            Action::ProbeDir(j)
        } else {
            self.enter_file(0)
        }
    }

    /// Moves on to the new file with index `k`, or to success past the last one.
    fn enter_file(&mut self, k: usize) -> (r: Action)
        requires
            old(self).books(),
            old(self).past_noted(),
            old(self).dirs_before(old(self).new_dirs@.len() as int),
            old(self).filled_before(k as int),
            k <= old(self).new_files@.len(),
            old(self).files_made == k,
        ensures
            final(self).wf(),
            final(self).stage() == stage_from_file(k as int, old(self).file_paths().len() as int),
            announces(final(self).stage(), r),
            final(self).log() == old(self).log(),
            final(self).noted == old(self).noted,
            final(self).new_dirs == old(self).new_dirs,
            final(self).new_files == old(self).new_files,
            final(self).backed_up == old(self).backed_up,
            final(self).made_dirs == old(self).made_dirs,
            final(self).levels == old(self).levels,
    {
        if k < self.new_files.len() {
            self.stage = Stage::ProbeFile(k);
            proof {
                Self::lemma_frame(old(self), self);
            }
            Action::ProbeFile(k)
        } else {
            self.stage = Stage::Succeeded;
            proof {
                Self::lemma_frame(old(self), self);
            }
            Action::Finish
        }
    }

    /// Moves on to creating, for new directory `j`, ancestor `m - 1`, or the directory itself
    /// when `m` is 0.
    fn make_level(&mut self, j: usize, m: usize) -> (r: Action)
        requires
            old(self).books(),
            old(self).past_noted(),
            j < old(self).new_dirs@.len(),
            m <= old(self).levels@.len(),
            old(self).dirs_before(j as int),
            old(self).files_made == 0,
            !(old(self).stage is Noted),
        ensures
            final(self).wf(),
            final(self).stage() == Stage::MakeLevel(j, m),
            final(self).creates(r),
            final(self).log() == old(self).log(),
            final(self).noted == old(self).noted,
            final(self).new_dirs == old(self).new_dirs,
            final(self).new_files == old(self).new_files,
            final(self).backed_up == old(self).backed_up,
            final(self).made_dirs == old(self).made_dirs,
            final(self).levels == old(self).levels,
    {
        self.stage = Stage::MakeLevel(j, m);
        proof {
            Self::lemma_frame(old(self), self);
        }
        if m > 0 {
            Action::CreateDir(self.levels[m - 1].clone())
        } else {
            Action::CreateDir(self.new_dirs[j].clone())
        }
    }

    fn settle_noted(&mut self, outs: Vec<NotedOutcome>) -> (r: Action)
        requires
            old(self).wf(),
            old(self).stage() is Noted,
            outs@.len() == old(self).noted@.len(),
        ensures
            final(self).wf(),
            final(self).noted == old(self).noted,
            final(self).new_dirs == old(self).new_dirs,
            final(self).new_files == old(self).new_files,
            final(self).log() == noted_changes(old(self).noted_paths(), outs@),
            final(self).made_dirs() == old(self).made_dirs(),
            final(self).stage() is Failed <==> r is Undo,
            r matches Action::Undo(plan, _) ==> final(self).planned(plan) && plan.restore@.len() == outs@.len()
                && forall|i: int| 0 <= i < outs@.len() ==> plan.restore@[i] == !(#[trigger] outs@[i] is BackupFailed),
            (forall|i: int| 0 <= i < outs@.len() ==> #[trigger] outs@[i] is Committed) ==> final(self).stage()
                == stage_from_dir(0, old(self).dir_paths().len() as int, old(self).file_paths().len() as int)
                && announces(final(self).stage(), r),
            !(forall|i: int| 0 <= i < outs@.len() ==> #[trigger] outs@[i] is Committed) ==> exists|i: int|
                first_failure(outs@, i) && (r matches Action::Undo(_, Error::Commit(p, m)) && p@
                    == old(self).noted_paths()[i] && m@ == failure_text(outs@[i])),
    {
        let mut backed: Vec<bool> = Vec::with_capacity(outs.len());
        let mut failure: Option<usize> = None;
        let mut i: usize = 0;
        while i < outs.len()
            invariant
                0 <= i <= outs@.len(),
                backed@.len() == i,
                forall|m: int| 0 <= m < i ==> backed@[m] == !(outs@[m] is BackupFailed),
                match failure {
                    None => forall|m: int| 0 <= m < i ==> #[trigger] outs@[m] is Committed,
                    Some(f) => f < i && first_failure(outs@, f as int),
                },
            decreases outs@.len() - i,
        {
            let taken = match &outs[i] {
                NotedOutcome::BackupFailed(_) => false,
                _ => true,
            };
            backed.push(taken);
            if failure.is_none() {
                match &outs[i] {
                    NotedOutcome::Committed => {},
                    _ => {
                        failure = Some(i);
                    },
                }
            }
            i = i + 1;
        }
        let ghost paths = self.noted_paths();
        self.backed_up = backed;
        self.log = Ghost(noted_changes(paths, outs@));
        proof {
            assert(self.noted_paths() == paths);
            assert(self.dir_paths() == old(self).dir_paths());
            assert(self.file_paths() == old(self).file_paths());
            let log = self.log@;
            assert forall|p: Seq<char>| #[trigger] log.contains(Change::Overwrote(p)) <==> exists|i: int|
                0 <= i < self.backed_up@.len() && self.backed_up@[i] && paths[i] == p by {
                if log.contains(Change::Overwrote(p)) {
                    let i = choose|i: int| 0 <= i < outs@.len() && {
                        ||| Change::Overwrote(p) == Change::Overwrote(paths[i]) && !(outs@[i] is BackupFailed)
                        ||| Change::Overwrote(p) == Change::Staged(paths[i]) && outs@[i] is Committed
                    };
                    assert(self.backed_up@[i]);
                }
                if exists|i: int| 0 <= i < self.backed_up@.len() && self.backed_up@[i] && paths[i] == p {
                    let i = choose|i: int| 0 <= i < self.backed_up@.len() && self.backed_up@[i] && paths[i] == p;
                    assert(Change::Overwrote(p) == Change::Overwrote(paths[i]) && !(outs@[i] is BackupFailed));
                }
            }
            assert forall|p: Seq<char>| #[trigger] log.contains(Change::Staged(p)) implies log.contains(Change::Overwrote(p)) by {
                let i = choose|i: int| 0 <= i < outs@.len() && {
                    ||| Change::Staged(p) == Change::Overwrote(paths[i]) && !(outs@[i] is BackupFailed)
                    ||| Change::Staged(p) == Change::Staged(paths[i]) && outs@[i] is Committed
                };
                assert(Change::Overwrote(p) == Change::Overwrote(paths[i]) && !(outs@[i] is BackupFailed));
            }
            assert forall|p: Seq<char>| #[trigger] log.contains(Change::MadeDir(p)) <==> self.made_dirs().contains(p) by {
                assert(self.made_dirs() =~= Seq::<Seq<char>>::empty());
            }
            assert forall|p: Seq<char>| !#[trigger] log.contains(Change::MadeFile(p)) by {}
            assert forall|p: Seq<char>| !#[trigger] log.contains(Change::Filled(p)) by {}
            assert(self.books());
        }
        match failure {
            None => {
                proof {
                    assert forall|i: int| 0 <= i < self.noted@.len() implies #[trigger] self.log@.contains(
                        Change::Staged(self.noted_paths()[i])) by {
                        assert(Change::Staged(paths[i]) == Change::Staged(paths[i]) && outs@[i] is Committed);
                    }
                    assert(self.all_staged());
                    assert forall|i: int| 0 <= i < self.noted@.len() implies #[trigger] self.backed_up@[i] by {
                        assert(outs@[i] is Committed);
                    }
                }
                let r = self.enter_dir(0);
                proof {
                    assert(self.made_dirs@ == old(self).made_dirs@);
                }
                r
            },
            Some(f) => {
                let text = match &outs[f] {
                    NotedOutcome::CopyFailed(m) => m.clone(),
                    NotedOutcome::BackupFailed(m) => m.clone(),
                    NotedOutcome::Committed => String::new(),
                };
                let path = self.noted[f].0.clone();
                proof {
                    assert(path@ == paths[f as int]);
                }
                self.fail(Error::Commit(path, text))
            },
        }
    }

    /// The views of what a commit holds depend on the held vectors alone.
    proof fn lemma_paths_kept(a: &Self, b: &Self)
        requires
            a.noted == b.noted,
            a.new_dirs == b.new_dirs,
            a.new_files == b.new_files,
        ensures
            a.noted_paths() == b.noted_paths(),
            a.noted_stagings() == b.noted_stagings(),
            a.dir_paths() == b.dir_paths(),
            a.file_paths() == b.file_paths(),
            a.file_stagings() == b.file_stagings(),
    {
        assert(a.noted@ == b.noted@);
        assert(a.new_dirs@ == b.new_dirs@);
        assert(a.new_files@ == b.new_files@);
    }

    /// Advances the commit by the outcome of the action it handed out last.
    pub fn step(&mut self, event: Event) -> (r: Action)
        requires
            old(self).wf(),
            old(self).awaits(event),
        ensures
            final(self).wf(),
            final(self).noted_paths() == old(self).noted_paths(),
            final(self).noted_stagings() == old(self).noted_stagings(),
            final(self).dir_paths() == old(self).dir_paths(),
            final(self).file_paths() == old(self).file_paths(),
            final(self).file_stagings() == old(self).file_stagings(),
            final(self).stage() is Failed <==> r is Undo,
            r matches Action::Undo(plan, _) ==> final(self).planned(plan),
            lex_lt(final(self).rank(), old(self).rank()),
            !(event is Noted) ==> (r matches Action::Undo(plan, _) ==> plan.restore@.len()
                == old(self).noted_paths().len() && forall|i: int| 0 <= i < plan.restore@.len() ==> #[trigger] plan.restore@[i]),
            match event {
                Event::Noted(outs) => {
                    &&& final(self).log() == noted_changes(old(self).noted_paths(), outs@)
                    &&& final(self).made_dirs() == old(self).made_dirs()
                    &&& (r matches Action::Undo(plan, _) ==> plan.restore@.len() == outs@.len()
                        && forall|i: int| 0 <= i < outs@.len() ==> plan.restore@[i] == !(#[trigger] outs@[i] is BackupFailed))
                    &&& (forall|i: int| 0 <= i < outs@.len() ==> #[trigger] outs@[i] is Committed) ==> final(self).stage()
                        == stage_from_dir(0, old(self).dir_paths().len() as int, old(self).file_paths().len() as int)
                        && announces(final(self).stage(), r)
                    &&& !(forall|i: int| 0 <= i < outs@.len() ==> #[trigger] outs@[i] is Committed) ==> exists|i: int|
                        first_failure(outs@, i) && (r matches Action::Undo(_, Error::Commit(p, m)) && p@
                            == old(self).noted_paths()[i] && m@ == failure_text(outs@[i]))
                },
                Event::Exists(found) => {
                    &&& final(self).log() == old(self).log()
                    &&& final(self).made_dirs() == old(self).made_dirs()
                    &&& match old(self).stage() {
                        Stage::ProbeDir(j) => if found {
                            r matches Action::Undo(_, Error::RepeatedNewDir(p)) && p@ == old(self).dir_paths()[j as int]
                        } else {
                            &&& final(self).levels() == ancestors(old(self).dir_paths()[j as int], old(self).dir_paths()[j as int].len())
                            &&& if final(self).levels().len() > 0 {
                                final(self).stage() == Stage::ProbeUp(j, 0)
                                    && (r matches Action::Probe(p) && p@ == final(self).levels()[0])
                            } else {
                                final(self).stage() == Stage::MakeLevel(j, 0) && final(self).creates(r)
                            }
                        },
                        Stage::ProbeUp(j, i) => {
                            &&& final(self).levels() == old(self).levels()
                            &&& if found {
                                final(self).stage() == Stage::MakeLevel(j, i) && final(self).creates(r)
                            } else if i + 1 < old(self).levels().len() {
                                final(self).stage() == Stage::ProbeUp(j, (i + 1) as usize)
                                    && (r matches Action::Probe(p) && p@ == old(self).levels()[i + 1])
                            } else {
                                final(self).stage() == Stage::MakeLevel(j, old(self).levels().len() as usize)
                                    && final(self).creates(r)
                            }
                        },
                        Stage::ProbeFile(k) => if found {
                            r matches Action::Undo(_, Error::RepeatedNewFile(p)) && p@ == old(self).file_paths()[k as int]
                        } else {
                            final(self).stage() == Stage::MakeFile(k) && r == Action::CreateFile(k)
                        },
                        _ => false,
                    }
                },
                Event::Done => match old(self).stage() {
                    Stage::MakeLevel(j, m) => {
                        &&& final(self).log() == old(self).log().insert(Change::MadeDir(old(self).level_to_make(j as int, m as int)))
                        &&& final(self).made_dirs() == old(self).made_dirs().push(old(self).level_to_make(j as int, m as int))
                        &&& final(self).levels() == old(self).levels()
                        &&& if m > 0 {
                            final(self).stage() == Stage::MakeLevel(j, (m - 1) as usize) && final(self).creates(r)
                        } else {
                            final(self).stage() == stage_from_dir(j + 1, old(self).dir_paths().len() as int, old(self).file_paths().len() as int)
                                && announces(final(self).stage(), r)
                        }
                    },
                    Stage::MakeFile(k) => {
                        &&& final(self).log() == old(self).log().insert(Change::MadeFile(old(self).file_paths()[k as int]))
                        &&& final(self).made_dirs() == old(self).made_dirs()
                        &&& final(self).stage() == Stage::FillFile(k)
                        &&& r == Action::FillFile(k)
                    },
                    Stage::FillFile(k) => {
                        &&& final(self).log() == old(self).log().insert(Change::Filled(old(self).file_paths()[k as int]))
                        &&& final(self).made_dirs() == old(self).made_dirs()
                        &&& final(self).stage() == stage_from_file(k + 1, old(self).file_paths().len() as int)
                        &&& announces(final(self).stage(), r)
                    },
                    _ => false,
                },
                Event::Failed(text) => {
                    &&& final(self).log() == old(self).log()
                    &&& final(self).made_dirs() == old(self).made_dirs()
                    &&& match old(self).stage() {
                        Stage::MakeLevel(j, _) => r matches Action::Undo(_, Error::Commit(p, m)) && p@ == old(self).dir_paths()[j as int] && m == text,
                        Stage::MakeFile(k) => r matches Action::Undo(_, Error::Commit(p, m)) && p@ == old(self).file_paths()[k as int] && m == text,
                        Stage::FillFile(k) => r matches Action::Undo(_, Error::Commit(p, m)) && p@ == old(self).file_paths()[k as int] && m == text,
                        _ => false,
                    }
                },
            },
    {
        let ghost before = *self;
        let r = match event {
            Event::Noted(outs) => self.settle_noted(outs),
            Event::Exists(found) => match self.stage {
                Stage::ProbeDir(j) => {
                    if found {
                        let p = self.new_dirs[j].clone();
                        self.fail(Error::RepeatedNewDir(p))
                    } else {
                        let levels = ancestors_of(&self.new_dirs[j]);
                        self.levels = levels;
                        if self.levels.len() > 0 {
                            self.stage = Stage::ProbeUp(j, 0);
                            proof {
                                Self::lemma_frame(&before, self);
                            }
                            Action::Probe(self.levels[0].clone())
                        } else {
                            proof {
                                Self::lemma_frame(&before, self);
                            }
                            self.make_level(j, 0)
                        }
                    }
                },
                Stage::ProbeUp(j, i) => {
                    let n = self.levels.len();
                    if found {
                        self.make_level(j, i)
                    } else if i + 1 < n {
                        self.stage = Stage::ProbeUp(j, i + 1);
                        proof {
                            Self::lemma_frame(&before, self);
                        }
                        Action::Probe(self.levels[i + 1].clone())
                    } else {
                        self.make_level(j, n)
                    }
                },
                Stage::ProbeFile(k) => {
                    if found {
                        let p = self.new_files[k].0.clone();
                        self.fail(Error::RepeatedNewFile(p))
                    } else {
                        self.stage = Stage::MakeFile(k);
                        proof {
                            Self::lemma_frame(&before, self);
                        }
                        Action::CreateFile(k)
                    }
                },
                _ => Action::Finish,
            },
            Event::Done => match self.stage {
                Stage::MakeLevel(j, m) => {
                    let n_dirs = self.new_dirs.len();
                    proof {
                        assert(j < n_dirs);
                    }
                    let p = if m > 0 {
                        self.levels[m - 1].clone()
                    } else {
                        self.new_dirs[j].clone()
                    };
                    let ghost pv = p@;
                    let ghost mid = *self;
                    self.log = Ghost(self.log@.insert(Change::MadeDir(pv)));
                    self.made_dirs.push(p);
                    proof {
                        Self::lemma_frame(&before, &mid);
                        assert(self.made_dirs() =~= mid.made_dirs().push(pv));
                        self.lemma_made_dir(&mid, pv);
                        assert(self.dir_paths() == before.dir_paths());
                    }
                    if m > 0 {
                        self.make_level(j, m - 1)
                    } else {
                        self.enter_dir(j + 1)
                    }
                },
                Stage::MakeFile(k) => {
                    let n_files = self.new_files.len();
                    proof {
                        assert(k < n_files);
                    }
                    self.files_made = k + 1;
                    self.log = Ghost(self.log@.insert(Change::MadeFile(self.new_files@[k as int].0@)));
                    self.stage = Stage::FillFile(k);
                    proof {
                        self.lemma_made_file(&before, k);
                        Self::lemma_frame(&before, &before);
                        assert(self.made_dirs() == before.made_dirs()) by {
                            assert(self.made_dirs@ == before.made_dirs@);
                        }
                    }
                    Action::FillFile(k)
                },
                Stage::FillFile(k) => {
                    let n_files = self.new_files.len();
                    proof {
                        assert(k < n_files);
                    }
                    self.log = Ghost(self.log@.insert(Change::Filled(self.new_files@[k as int].0@)));
                    proof {
                        self.lemma_filled(&before, k);
                    }
                    self.enter_file(k + 1)
                },
                _ => Action::Finish,
            },
            Event::Failed(text) => match self.stage {
                Stage::MakeLevel(j, _) => {
                    let p = self.new_dirs[j].clone();
                    self.fail(Error::Commit(p, text))
                },
                Stage::MakeFile(k) | Stage::FillFile(k) => {
                    let p = self.new_files[k].0.clone();
                    self.fail(Error::Commit(p, text))
                },
                _ => Action::Finish,
            },
        };
        proof {
            Self::lemma_paths_kept(&before, self);
        }
        r
    }

    /// Whether the commit is waiting for `e`; only such an event may be passed to `step`.
    pub fn accepts(&self, e: &Event) -> (r: bool)
        ensures
            r == self.awaits(*e),
    {
        match e {
            Event::Noted(outs) => match self.stage {
                Stage::Noted => outs.len() == self.noted.len(),
                _ => false,
            },
            Event::Exists(_) => match self.stage {
                Stage::ProbeDir(_) | Stage::ProbeUp(_, _) | Stage::ProbeFile(_) => true,
                _ => false,
            },
            Event::Done | Event::Failed(_) => match self.stage {
                Stage::MakeLevel(_, _) | Stage::MakeFile(_) | Stage::FillFile(_) => true,
                _ => false,
            },
        }
    }

    /// Number of noted files.
    pub fn noted_count(&self) -> (r: usize)
        ensures
            r == self.noted_paths().len(),
    {
        self.noted.len()
    }

    /// The path of the noted file with index `i`.
    pub fn noted_path(&self, i: usize) -> (r: &str)
        requires
            i < self.noted_paths().len(),
        ensures
            r@ == self.noted_paths()[i as int],
    {
        self.noted[i].0.as_str()
    }

    /// The staging handle of the noted file with index `i`.
    pub fn noted_staging(&self, i: usize) -> (r: &S)
        requires
            i < self.noted_paths().len(),
        ensures
            *r == self.noted_stagings()[i as int],
    {
        &self.noted[i].1
    }

    /// Number of new directories.
    pub fn dir_count(&self) -> (r: usize)
        ensures
            r == self.dir_paths().len(),
    {
        self.new_dirs.len()
    }

    /// The path of the new directory with index `j`.
    pub fn dir_path(&self, j: usize) -> (r: &str)
        requires
            j < self.dir_paths().len(),
        ensures
            r@ == self.dir_paths()[j as int],
    {
        self.new_dirs[j].as_str()
    }

    /// Number of new files.
    pub fn file_count(&self) -> (r: usize)
        ensures
            r == self.file_paths().len(),
    {
        self.new_files.len()
    }

    /// The path of the new file with index `k`.
    pub fn file_path(&self, k: usize) -> (r: &str)
        requires
            k < self.file_paths().len(),
        ensures
            r@ == self.file_paths()[k as int],
    {
        self.new_files[k].0.as_str()
    }

    /// The staging handle of the new file with index `k`.
    pub fn file_staging(&self, k: usize) -> (r: &S)
        requires
            k < self.file_paths().len(),
        ensures
            *r == self.file_stagings()[k as int],
    {
        &self.new_files[k].1
    }
}

/// The paths whose backups an undo plan restores.
pub open spec fn restored_paths(plan: UndoPlan, paths: Seq<Seq<char>>) -> Set<Seq<char>> {
    Set::new(|p: Seq<char>| exists|i: int| 0 <= i < plan.restore@.len() && i < paths.len() && plan.restore@[i] && paths[i] == p)
}

/// The first `count` paths of a registry.
pub open spec fn first_paths(count: usize, paths: Seq<Seq<char>>) -> Set<Seq<char>> {
    Set::new(|p: Seq<char>| exists|j: int| 0 <= j < count && j < paths.len() && paths[j] == p)
}

/// A failed commit leaves the filesystem as it found it: its undo plan restores the backup of
/// every noted file that the commit may have written, removes every directory that the commit
/// created (new directories and the ancestors made for them alike), the last created first, and
/// removes every file that the commit created; it touches nothing else.
pub proof fn lemma_failed_commit_is_undone<S>(c: &Commit<S>, plan: UndoPlan)
    requires
        c.wf(),
        c.stage() is Failed,
        c.planned(plan),
    ensures
        forall|p: Seq<char>| #[trigger] c.log().contains(Change::Overwrote(p))
            <==> restored_paths(plan, c.noted_paths()).contains(p),
        forall|p: Seq<char>| #[trigger] c.log().contains(Change::Staged(p))
            ==> restored_paths(plan, c.noted_paths()).contains(p),
        forall|p: Seq<char>| #[trigger] c.log().contains(Change::MadeDir(p))
            <==> plan.dirs@.map_values(|s: String| s@).contains(p),
        plan.dirs@.map_values(|s: String| s@) == c.made_dirs().reverse(),
        forall|p: Seq<char>| #[trigger] c.log().contains(Change::MadeFile(p))
            <==> first_paths(plan.files, c.file_paths()).contains(p),
        forall|p: Seq<char>| #[trigger] c.log().contains(Change::Filled(p))
            ==> first_paths(plan.files, c.file_paths()).contains(p),
{
    c.lemma_books_lengths();
    let made = c.made_dirs();
    let planned = plan.dirs@.map_values(|s: String| s@);
    assert forall|p: Seq<char>| #[trigger] c.log().contains(Change::MadeDir(p)) <==> planned.contains(p) by {
        if made.contains(p) {
            let i = choose|i: int| 0 <= i < made.len() && made[i] == p;
            assert(planned[made.len() - 1 - i] == p);
        }
        if planned.contains(p) {
            let k = choose|k: int| 0 <= k < planned.len() && planned[k] == p;
            assert(made[made.len() - 1 - k] == p);
        }
    }
}

/// A commit that finishes has applied every registered change: each noted file holds its staging
/// content, each new directory was created, and each new file was created and holds its staging
/// content.
pub proof fn lemma_finished_commit_applied_all<S>(c: &Commit<S>)
    requires
        c.wf(),
        c.stage() is Succeeded,
    ensures
        forall|i: int| 0 <= i < c.noted_paths().len()
            ==> #[trigger] c.log().contains(Change::Staged(c.noted_paths()[i])),
        forall|j: int| 0 <= j < c.dir_paths().len()
            ==> #[trigger] c.log().contains(Change::MadeDir(c.dir_paths()[j])),
        forall|k: int| 0 <= k < c.file_paths().len()
            ==> #[trigger] c.log().contains(Change::Filled(c.file_paths()[k])),
        forall|k: int| 0 <= k < c.file_paths().len()
            ==> #[trigger] c.log().contains(Change::MadeFile(c.file_paths()[k])),
{
    c.lemma_books_lengths();
    assert forall|k: int| 0 <= k < c.file_paths().len() implies #[trigger] c.log().contains(
        Change::MadeFile(c.file_paths()[k])) by {
        assert(0 <= k < c.files_made && c.file_paths()[k] == c.file_paths()[k]);
    }
}

} // verus!
