//! Bringing the store back in line with the file system.
//!
//! What the file system holds is handed in as plain values: for each
//! tracked file what was found at its path, and for a search what was
//! found under the search paths.

use vstd::prelude::*;
use crate::entities::{File, FileId, FileTag, ModTime, OptionalValueId, TagId};
use crate::implication::{closure, implications_for, Edge, Node};
use crate::path::{dir_of, name_of, ScopedPath};
use crate::storage::{same_but, tagged, FileTagRow, RowKey, Storage};
use crate::errors::Error;
use crate::text::{chars_of, same_text};

verus! {

/// What the file system says of a file that exists.
#[derive(Debug, Clone, Copy, PartialEq, Eq, Structural)]
pub struct FileStat {
    pub size: u64,
    pub mod_time: ModTime,
    pub is_dir: bool,
}

/// How a tracked file compares with the file system.
#[derive(Debug, Clone, Copy, PartialEq, Eq, Structural)]
pub enum FileState {
    Missing,
    Unmodified,
    Modified,
}

/// A file is missing where nothing was found at its path, unmodified
/// where size and time of change agree with the store, else modified.
pub open spec fn state_of(file: File, stat: Option<FileStat>) -> FileState {
    match stat {
        None => FileState::Missing,
        Some(s) => if file.size == s.size && file.mod_time.same_instant_spec(s.mod_time) {
            FileState::Unmodified
        } else {
            FileState::Modified
        },
    }
}

pub fn check_state(file: &File, stat: &Option<FileStat>) -> (r: FileState)
    ensures
        r == state_of(*file, *stat),
{
    match stat {
        None => FileState::Missing,
        Some(s) => {
            if file.size == s.size && file.mod_time.same_instant(&s.mod_time) {
                FileState::Unmodified
            } else {
                FileState::Modified
            }
        },
    }
}

/// The positions below `upto` of the files in a given state, ascending.
pub open spec fn positions(
    files: Seq<File>,
    stats: Seq<Option<FileStat>>,
    state: FileState,
    upto: int,
) -> Seq<usize>
    decreases upto,
{
    if upto <= 0 {
        seq![]
    } else {
        positions(files, stats, state, upto - 1) + if state_of(files[upto - 1], stats[upto - 1])
            == state {
            seq![(upto - 1) as usize]
        } else {
            seq![]
        }
    }
}

/// The tracked files by their state, each as a position in the list.
pub struct Statuses {
    pub unmodified: Vec<usize>,
    pub modified: Vec<usize>,
    pub missing: Vec<usize>,
}

pub fn determine_statuses(db_files: &Vec<File>, stats: &Vec<Option<FileStat>>) -> (r: Statuses)
    requires
        stats@.len() == db_files@.len(),
    ensures
        r.unmodified@ == positions(
            db_files@,
            stats@,
            FileState::Unmodified,
            db_files@.len() as int,
        ),
        r.modified@ == positions(db_files@, stats@, FileState::Modified, db_files@.len() as int),
        r.missing@ == positions(db_files@, stats@, FileState::Missing, db_files@.len() as int),
{
    let mut modified: Vec<usize> = Vec::new();
    let mut unmodified: Vec<usize> = Vec::new();
    let mut missing: Vec<usize> = Vec::new();
    let mut i: usize = 0;
    while i < db_files.len()
        invariant
            i <= db_files.len(),
            stats@.len() == db_files@.len(),
            unmodified@ == positions(db_files@, stats@, FileState::Unmodified, i as int),
            modified@ == positions(db_files@, stats@, FileState::Modified, i as int),
            missing@ == positions(db_files@, stats@, FileState::Missing, i as int),
        decreases db_files.len() - i,
    {
        let ghost u = unmodified@;
        let ghost m = modified@;
        let ghost g = missing@;
        match check_state(&db_files[i], &stats[i]) {
            FileState::Missing => missing.push(i),
            FileState::Unmodified => unmodified.push(i),
            FileState::Modified => modified.push(i),
        }
        i += 1;
        assert(unmodified@ =~= positions(db_files@, stats@, FileState::Unmodified, i as int));
        assert(modified@ =~= positions(db_files@, stats@, FileState::Modified, i as int));
        assert(missing@ =~= positions(db_files@, stats@, FileState::Missing, i as int));
    }
    Statuses { unmodified, modified, missing }
}

/// A file row as mathematics.
pub struct FileView {
    pub id: u32,
    pub dir: Seq<char>,
    pub name: Seq<char>,
    pub fingerprint: Seq<char>,
    pub mod_time: ModTime,
    pub size: u64,
    pub is_dir: bool,
}

/// The file rows of a table.
pub open spec fn file_views(files: Seq<File>) -> Seq<FileView> {
    files.map_values(
        |f: File|
            FileView {
                id: f.id.0,
                dir: f.dir@,
                name: f.name@,
                fingerprint: f.fingerprint@,
                mod_time: f.mod_time,
                size: f.size,
                is_dir: f.is_dir,
            },
    )
}

/// The file rows with a new path and new facts for those of the given
/// identifier.
pub open spec fn rows_updated(
    rows: Seq<FileView>,
    id: u32,
    inner: Seq<char>,
    fingerprint: Seq<char>,
    mod_time: ModTime,
    size: u64,
    is_dir: bool,
) -> Seq<FileView> {
    rows.map_values(
        |f: FileView|
            if f.id == id {
                FileView {
                    id,
                    dir: dir_of(inner),
                    name: name_of(inner),
                    fingerprint,
                    mod_time,
                    size,
                    is_dir,
                }
            } else {
                f
            },
    )
}

/// The file rows after the files at the first `upto` of the positions
/// `which` were given what was observed of them, one after the other. A
/// position without a file or without an observation changes nothing.
pub open spec fn refreshed(
    rows: Seq<FileView>,
    db_files: Seq<File>,
    which: Seq<usize>,
    observed: Seq<Option<Observation>>,
    upto: int,
) -> Seq<FileView>
    decreases upto,
{
    if upto <= 0 {
        rows
    } else {
        let before = refreshed(rows, db_files, which, observed, upto - 1);
        let at = which[upto - 1] as int;
        if at < db_files.len() && at < observed.len() && observed[at] is Some {
            let seen = observed[at]->0;
            rows_updated(
                before,
                db_files[at].id.0,
                seen.path.inner@,
                seen.fingerprint@,
                seen.stat.mod_time,
                seen.stat.size,
                seen.stat.is_dir,
            )
        } else {
            before
        }
    }
}

/// A file row with the given identifier under a new path and with new
/// facts; any other row as it is.
pub open spec fn updated(
    f: File,
    id: u32,
    inner: Seq<char>,
    fingerprint: Seq<char>,
    mod_time: ModTime,
    size: u64,
    is_dir: bool,
    g: File,
) -> bool {
    if f.id.0 == id {
        &&& g.id == f.id
        &&& g.dir@ == dir_of(inner)
        &&& g.name@ == name_of(inner)
        &&& g.fingerprint@ == fingerprint
        &&& g.mod_time == mod_time
        &&& g.size == size
        &&& g.is_dir == is_dir
    } else {
        g == f
    }
}

/// Stores a new path and new facts for the file with the given
/// identifier. Says how many rows were changed.
pub fn update_file(
    tx: &mut Storage,
    file_id: &FileId,
    path: &ScopedPath,
    fingerprint: &String,
    mod_time: ModTime,
    size: u64,
    is_dir: bool,
) -> (n: usize)
    ensures
        same_but(old(tx), final(tx), false, false, true, false, false),
        final(tx).files@.len() == old(tx).files@.len(),
        forall|i: int|
            0 <= i < old(tx).files@.len() ==> updated(
                #[trigger] old(tx).files@[i],
                file_id.0,
                path.inner@,
                fingerprint@,
                mod_time,
                size,
                is_dir,
                final(tx).files@[i],
            ),
        file_views(final(tx).files@) == rows_updated(
            file_views(old(tx).files@),
            file_id.0,
            path.inner@,
            fingerprint@,
            mod_time,
            size,
            is_dir,
        ),
        old(tx).no_orphans() ==> final(tx).no_orphans(),
{
    let mut out: Vec<File> = Vec::new();
    let mut n: usize = 0;
    let mut i: usize = 0;
    while i < tx.files.len()
        invariant
            i <= tx.files.len(),
            n <= i,
            *tx == *old(tx),
            out@.len() == i,
            forall|j: int|
                0 <= j < i ==> updated(
                    #[trigger] tx.files@[j],
                    file_id.0,
                    path.inner@,
                    fingerprint@,
                    mod_time,
                    size,
                    is_dir,
                    out@[j],
                ),
        decreases tx.files.len() - i,
    {
        if tx.files[i].id.0 == file_id.0 {
            let (dir, name) = path.inner_as_dir_and_name();
            out.push(
                File {
                    id: tx.files[i].id,
                    dir,
                    name,
                    fingerprint: fingerprint.clone(),
                    mod_time,
                    size,
                    is_dir,
                },
            );
            n += 1;
        } else {
            out.push(tx.files[i].duplicate());
        }
        i += 1;
    }
    tx.files = out;
    proof {
        assert(file_views(tx.files@) =~= rows_updated(
            file_views(old(tx).files@),
            file_id.0,
            path.inner@,
            fingerprint@,
            mod_time,
            size,
            is_dir,
        )) by {
            assert forall|k: int| 0 <= k < tx.files@.len() implies file_views(tx.files@)[k]
                == rows_updated(
                file_views(old(tx).files@),
                file_id.0,
                path.inner@,
                fingerprint@,
                mod_time,
                size,
                is_dir,
            )[k] by {
                assert(updated(
                    old(tx).files@[k],
                    file_id.0,
                    path.inner@,
                    fingerprint@,
                    mod_time,
                    size,
                    is_dir,
                    tx.files@[k],
                ));
            }
        }
        if old(tx).no_orphans() {
            assert forall|k: int| 0 <= k < tx.files@.len() implies tagged(
                tx.file_tags@,
                (#[trigger] tx.files@[k]).id.0,
            ) by {
                assert(updated(
                    old(tx).files@[k],
                    file_id.0,
                    path.inner@,
                    fingerprint@,
                    mod_time,
                    size,
                    is_dir,
                    tx.files@[k],
                ));
                assert(tx.files@[k].id == old(tx).files@[k].id);
            }
        }
    }
    n
}

/// The first file stored under a directory and a name.
pub open spec fn first_file_at(files: Seq<File>, dir: Seq<char>, name: Seq<char>) -> Option<File>
    decreases files.len(),
{
    if files.len() == 0 {
        None
    } else if files[0].dir@ == dir && files[0].name@ == name {
        Some(files[0])
    } else {
        first_file_at(files.drop_first(), dir, name)
    }
}

/// The file that is stored under a path.
pub fn file_by_path(tx: &Storage, scoped_path: &ScopedPath) -> (r: Option<File>)
    ensures
        r == first_file_at(tx.files@, dir_of(scoped_path.inner@), name_of(scoped_path.inner@)),
{
    let (dir, name) = scoped_path.inner_as_dir_and_name();
    let mut i: usize = 0;
    assert(tx.files@.skip(0) =~= tx.files@);
    while i < tx.files.len()
        invariant
            i <= tx.files.len(),
            dir@ == dir_of(scoped_path.inner@),
            name@ == name_of(scoped_path.inner@),
            first_file_at(tx.files@, dir@, name@) == first_file_at(
                tx.files@.skip(i as int),
                dir@,
                name@,
            ),
        decreases tx.files.len() - i,
    {
        assert(tx.files@.skip(i as int).drop_first() =~= tx.files@.skip(i + 1));
        if same_text(tx.files[i].dir.as_str(), dir.as_str()) && same_text(
            tx.files[i].name.as_str(),
            name.as_str(),
        ) {
            return Some(tx.files[i].duplicate());
        }
        i += 1;
    }
    None
}

/// What was found at the path of a tracked file that exists.
pub struct Observation {
    pub path: ScopedPath,
    pub stat: FileStat,
    pub fingerprint: String,
}

/// Stores what was observed of one file, unless only pretending.
pub fn repair_file(tx: &mut Storage, file_id: &FileId, seen: &Observation, pretend: bool)
    ensures
        pretend ==> *final(tx) == *old(tx),
        same_but(old(tx), final(tx), false, false, true, false, false),
        !pretend ==> final(tx).files@.len() == old(tx).files@.len() && forall|i: int|
            0 <= i < old(tx).files@.len() ==> updated(
                #[trigger] old(tx).files@[i],
                file_id.0,
                seen.path.inner@,
                seen.fingerprint@,
                seen.stat.mod_time,
                seen.stat.size,
                seen.stat.is_dir,
                final(tx).files@[i],
            ),
        !pretend ==> file_views(final(tx).files@) == rows_updated(
            file_views(old(tx).files@),
            file_id.0,
            seen.path.inner@,
            seen.fingerprint@,
            seen.stat.mod_time,
            seen.stat.size,
            seen.stat.is_dir,
        ),
        old(tx).no_orphans() ==> final(tx).no_orphans(),
{
    if !pretend {
        update_file(
            tx,
            file_id,
            &seen.path,
            &seen.fingerprint,
            seen.stat.mod_time,
            seen.stat.size,
            seen.stat.is_dir,
        );
    }
}

/// Refreshes the files at the given positions with what was observed of
/// them. A position without a file or without an observation is passed
/// over. Gives the positions that were refreshed.
fn refresh(
    tx: &mut Storage,
    db_files: &Vec<File>,
    which: &Vec<usize>,
    observed: &Vec<Option<Observation>>,
    pretend: bool,
) -> (done: Vec<usize>)
    ensures
        pretend ==> *final(tx) == *old(tx),
        same_but(old(tx), final(tx), false, false, true, false, false),
        final(tx).files@.len() == old(tx).files@.len(),
        forall|i: int|
            0 <= i < final(tx).files@.len() ==> (#[trigger] final(tx).files@[i]).id == old(
                tx).files@[i].id,
        old(tx).no_orphans() ==> final(tx).no_orphans(),
        !pretend ==> file_views(final(tx).files@) == refreshed(
            file_views(old(tx).files@),
            db_files@,
            which@,
            observed@,
            which@.len() as int,
        ),
        forall|k: int|
            0 <= k < done@.len() ==> which@.contains(#[trigger] done@[k]) && done@[k]
                < db_files@.len() && done@[k] < observed@.len() && observed@[done@[k] as int]
                is Some,
        forall|k: int|
            0 <= k < which@.len() && which@[k] < db_files@.len() && which@[k] < observed@.len()
                && observed@[which@[k] as int] is Some ==> done@.contains(#[trigger] which@[k]),
{
    let mut done: Vec<usize> = Vec::new();
    let mut k: usize = 0;
    while k < which.len()
        invariant
            k <= which.len(),
            !pretend ==> file_views(tx.files@) == refreshed(
                file_views(old(tx).files@),
                db_files@,
                which@,
                observed@,
                k as int,
            ),
            pretend ==> *tx == *old(tx),
            same_but(old(tx), tx, false, false, true, false, false),
            tx.files@.len() == old(tx).files@.len(),
            forall|i: int|
                0 <= i < tx.files@.len() ==> (#[trigger] tx.files@[i]).id == old(tx).files@[i].id,
            old(tx).no_orphans() ==> tx.no_orphans(),
            forall|j: int|
                0 <= j < done@.len() ==> which@.contains(#[trigger] done@[j]) && done@[j]
                    < db_files@.len() && done@[j] < observed@.len()
                    && observed@[done@[j] as int] is Some,
            forall|j: int|
                0 <= j < k && which@[j] < db_files@.len() && which@[j] < observed@.len()
                    && observed@[which@[j] as int] is Some ==> done@.contains(
                    #[trigger] which@[j],
                ),
        decreases which.len() - k,
    {
        let at = which[k];
        if at < db_files.len() && at < observed.len() {
            match &observed[at] {
                Some(seen) => {
                    let ghost before = tx.files@;
                    let ghost was = done@;
                    repair_file(tx, &db_files[at].id, seen, pretend);
                    done.push(at);
                    proof {
                        assert(done@[was.len() as int] == at);
                        assert forall|j: int| 0 <= j < done@.len() implies which@.contains(
                            #[trigger] done@[j],
                        ) && done@[j] < db_files@.len() && done@[j] < observed@.len()
                            && observed@[done@[j] as int] is Some by {
                            if j < was.len() {
                                assert(done@[j] == was[j]);
                            } else {
                                assert(which@[k as int] == at);
                            }
                        }
                        assert forall|j: int|
                            0 <= j < k + 1 && which@[j] < db_files@.len() && which@[j]
                                < observed@.len() && observed@[which@[j] as int]
                                is Some implies done@.contains(#[trigger] which@[j]) by {
                            if j < k {
                                let w = choose|w: int| 0 <= w < was.len() && was[w] == which@[j];
                                assert(done@[w] == which@[j]);
                            }
                        }
                        assert forall|i: int| 0 <= i < tx.files@.len() implies (
                        #[trigger] tx.files@[i]).id == old(tx).files@[i].id by {
                            if !pretend {
                                assert(updated(
                                    before[i],
                                    db_files@[at as int].id.0,
                                    seen.path.inner@,
                                    seen.fingerprint@,
                                    seen.stat.mod_time,
                                    seen.stat.size,
                                    seen.stat.is_dir,
                                    tx.files@[i],
                                ));
                            }
                        }
                    }
                },
                None => {},
            }
        }
        k += 1;
    }
    done
}

/// Stores anew what was observed of the files that did not change.
pub fn repair_unmodified(
    tx: &mut Storage,
    db_files: &Vec<File>,
    unmodified: &Vec<usize>,
    observed: &Vec<Option<Observation>>,
    pretend: bool,
) -> (done: Vec<usize>)
    ensures
        pretend ==> *final(tx) == *old(tx),
        same_but(old(tx), final(tx), false, false, true, false, false),
        final(tx).files@.len() == old(tx).files@.len(),
        old(tx).no_orphans() ==> final(tx).no_orphans(),
        !pretend ==> file_views(final(tx).files@) == refreshed(
            file_views(old(tx).files@),
            db_files@,
            unmodified@,
            observed@,
            unmodified@.len() as int,
        ),
        forall|k: int|
            0 <= k < done@.len() ==> unmodified@.contains(#[trigger] done@[k]) && done@[k]
                < db_files@.len() && done@[k] < observed@.len() && observed@[done@[k] as int]
                is Some,
        forall|k: int|
            0 <= k < unmodified@.len() && unmodified@[k] < db_files@.len() && unmodified@[k]
                < observed@.len() && observed@[unmodified@[k] as int] is Some ==> done@.contains(
                #[trigger] unmodified@[k],
            ),
{
    refresh(tx, db_files, unmodified, observed, pretend)
}

/// Stores what was observed of the files that changed.
pub fn repair_modified(
    tx: &mut Storage,
    db_files: &Vec<File>,
    modified: &Vec<usize>,
    observed: &Vec<Option<Observation>>,
    pretend: bool,
) -> (done: Vec<usize>)
    ensures
        pretend ==> *final(tx) == *old(tx),
        same_but(old(tx), final(tx), false, false, true, false, false),
        final(tx).files@.len() == old(tx).files@.len(),
        old(tx).no_orphans() ==> final(tx).no_orphans(),
        !pretend ==> file_views(final(tx).files@) == refreshed(
            file_views(old(tx).files@),
            db_files@,
            modified@,
            observed@,
            modified@.len() as int,
        ),
        forall|k: int|
            0 <= k < done@.len() ==> modified@.contains(#[trigger] done@[k]) && done@[k]
                < db_files@.len() && done@[k] < observed@.len() && observed@[done@[k] as int]
                is Some,
        forall|k: int|
            0 <= k < modified@.len() && modified@[k] < db_files@.len() && modified@[k]
                < observed@.len() && observed@[modified@[k] as int] is Some ==> done@.contains(
                #[trigger] modified@[k],
            ),
{
    refresh(tx, db_files, modified, observed, pretend)
}

/// A file found under a search path.
pub struct Candidate {
    pub path: ScopedPath,
    pub size: u64,
    pub mod_time: ModTime,
    pub fingerprint: String,
}

/// Whether a file row stands under a directory and a name.
pub open spec fn known_at(rows: Seq<FileView>, dir: Seq<char>, name: Seq<char>) -> bool {
    exists|i: int| 0 <= i < rows.len() && (#[trigger] rows[i]).dir == dir && rows[i].name == name
}

proof fn lemma_known_at(files: Seq<File>, dir: Seq<char>, name: Seq<char>)
    ensures
        first_file_at(files, dir, name) is Some <==> known_at(file_views(files), dir, name),
    decreases files.len(),
{
    let rows = file_views(files);
    if files.len() > 0 {
        lemma_known_at(files.drop_first(), dir, name);
        let rest = file_views(files.drop_first());
        assert(rest =~= rows.drop_first());
        if files[0].dir@ == dir && files[0].name@ == name {
            assert(rows[0].dir == dir && rows[0].name == name);
        } else {
            if known_at(rows, dir, name) {
                let i = choose|i: int|
                    0 <= i < rows.len() && (#[trigger] rows[i]).dir == dir && rows[i].name == name;
                assert(rest[i - 1] == rows[i]);
            }
            if known_at(rest, dir, name) {
                let i = choose|i: int|
                    0 <= i < rest.len() && (#[trigger] rest[i]).dir == dir && rest[i].name == name;
                assert(rows[i + 1] == rest[i]);
            }
        }
    }
}

/// Whether a candidate can be the new place of a missing file: it has
/// the file's size and fingerprint, and no file is stored at its path.
pub open spec fn fits(rows: Seq<FileView>, missing: File, c: Candidate) -> bool {
    &&& c.size == missing.size
    &&& !known_at(rows, dir_of(c.path.inner@), name_of(c.path.inner@))
    &&& c.fingerprint@ == missing.fingerprint@
}

/// The first candidate from position `at` on that fits.
pub open spec fn first_fit(
    rows: Seq<FileView>,
    missing: File,
    candidates: Seq<Candidate>,
    at: int,
) -> Option<int>
    decreases candidates.len() - at,
{
    if at < 0 || at >= candidates.len() {
        None
    } else if fits(rows, missing, candidates[at]) {
        Some(at)
    } else {
        first_fit(rows, missing, candidates, at + 1)
    }
}

/// The first candidate that can be the new place of a missing file.
pub fn find_moved(tx: &Storage, missing: &File, candidates: &Vec<Candidate>) -> (r: Option<usize>)
    ensures
        match r {
            Some(k) => first_fit(file_views(tx.files@), *missing, candidates@, 0) == Some(
                k as int,
            ) && k < candidates@.len(),
            None => first_fit(file_views(tx.files@), *missing, candidates@, 0) is None,
        },
{
    let mut k: usize = 0;
    while k < candidates.len()
        invariant
            k <= candidates.len(),
            first_fit(file_views(tx.files@), *missing, candidates@, 0) == first_fit(
                file_views(tx.files@),
                *missing,
                candidates@,
                k as int,
            ),
        decreases candidates.len() - k,
    {
        let c = &candidates[k];
        proof {
            lemma_known_at(tx.files@, dir_of(c.path.inner@), name_of(c.path.inner@));
        }
        if c.size == missing.size {
            let found = file_by_path(tx, &c.path);
            if found.is_none() && same_text(
                c.fingerprint.as_str(),
                missing.fingerprint.as_str(),
            ) {
                return Some(k);
            }
        }
        k += 1;
    }
    None
}

/// A missing file that was found again: its position among the tracked
/// files and the position of its new place among the candidates.
#[derive(Debug, Clone, Copy, PartialEq, Eq, Structural)]
pub struct Move {
    pub file: usize,
    pub candidate: usize,
}

/// The file rows and the moves after a new place was looked for for the
/// files at the first `upto` of the positions `missing`, one after the
/// other: a file goes to the first candidate that fits the rows as they
/// are then. When only pretending, the rows stay as they are.
pub open spec fn relocated(
    rows: Seq<FileView>,
    db_files: Seq<File>,
    missing: Seq<usize>,
    candidates: Seq<Candidate>,
    pretend: bool,
    upto: int,
) -> (Seq<FileView>, Seq<Move>)
    decreases upto,
{
    if upto <= 0 {
        (rows, seq![])
    } else {
        let (before, moves) = relocated(rows, db_files, missing, candidates, pretend, upto - 1);
        let at = missing[upto - 1];
        if at < db_files.len() {
            match first_fit(before, db_files[at as int], candidates, 0) {
                Some(k) => (
                    if pretend {
                        before
                    } else {
                        rows_updated(
                            before,
                            db_files[at as int].id.0,
                            candidates[k].path.inner@,
                            candidates[k].fingerprint@,
                            candidates[k].mod_time,
                            db_files[at as int].size,
                            db_files[at as int].is_dir,
                        )
                    },
                    moves.push(Move { file: at, candidate: k as usize }),
                ),
                None => (before, moves),
            }
        } else {
            (before, moves)
        }
    }
}

/// Looks for each missing file among the candidates and stores the new
/// path of those found; the first candidate that fits wins. Gives the
/// moves made.
pub fn repair_moved(
    tx: &mut Storage,
    db_files: &Vec<File>,
    missing: &Vec<usize>,
    candidates: &Vec<Candidate>,
    pretend: bool,
) -> (moves: Vec<Move>)
    ensures
        pretend ==> *final(tx) == *old(tx),
        same_but(old(tx), final(tx), false, false, true, false, false),
        final(tx).files@.len() == old(tx).files@.len(),
        old(tx).no_orphans() ==> final(tx).no_orphans(),
        ({
            let out = relocated(
                file_views(old(tx).files@),
                db_files@,
                missing@,
                candidates@,
                pretend,
                missing@.len() as int,
            );
            file_views(final(tx).files@) == out.0 && moves@ == out.1
        }),
{
    let mut moves: Vec<Move> = Vec::new();
    let mut i: usize = 0;
    while i < missing.len()
        invariant
            i <= missing.len(),
            pretend ==> *tx == *old(tx),
            same_but(old(tx), tx, false, false, true, false, false),
            tx.files@.len() == old(tx).files@.len(),
            old(tx).no_orphans() ==> tx.no_orphans(),
            relocated(
                file_views(old(tx).files@),
                db_files@,
                missing@,
                candidates@,
                pretend,
                i as int,
            ) == (file_views(tx.files@), moves@),
        decreases missing.len() - i,
    {
        let at = missing[i];
        if at < db_files.len() {
            let db_file = &db_files[at];
            match find_moved(tx, db_file, candidates) {
                Some(k) => {
                    let c = &candidates[k];
                    if !pretend {
                        update_file(
                            tx,
                            &db_file.id,
                            &c.path,
                            &c.fingerprint,
                            c.mod_time,
                            db_file.size,
                            db_file.is_dir,
                        );
                    }
                    moves.push(Move { file: at, candidate: k });
                },
                None => {},
            }
        }
        i += 1;
    }
    moves
}

/// The file tags and the files after the file tags of the files at the
/// first `upto` of the positions `missing` were removed one file after
/// the other, each file going with its file tags.
pub open spec fn missing_removed(
    rows: Seq<FileTagRow>,
    files: Seq<File>,
    db_files: Seq<File>,
    missing: Seq<usize>,
    upto: int,
) -> (Seq<FileTagRow>, Seq<File>)
    decreases upto,
{
    if upto <= 0 {
        (rows, files)
    } else {
        let before = missing_removed(rows, files, db_files, missing, upto - 1);
        let at = missing[upto - 1] as int;
        if at < db_files.len() {
            let key = RowKey::OfFile(db_files[at].id.0);
            let kept = before.0.filter(crate::storage::row_pred(key, false));
            (
                kept,
                before.1.filter(
                    crate::storage::purge_pred(
                        before.0.filter(crate::storage::row_pred(key, true)),
                        kept,
                    ),
                ),
            )
        } else {
            before
        }
    }
}

/// Removes the file tags of the missing files, and the files with them,
/// where that is asked for and not only pretended.
pub fn repair_missing(
    tx: &mut Storage,
    db_files: &Vec<File>,
    missing: &Vec<usize>,
    pretend: bool,
    force: bool,
)
    ensures
        pretend || !force ==> *final(tx) == *old(tx),
        same_but(old(tx), final(tx), false, false, true, true, false),
        old(tx).no_orphans() ==> final(tx).no_orphans(),
        forall|r: FileTagRow| #[trigger]
            final(tx).file_tags@.contains(r) ==> old(tx).file_tags@.contains(r),
        !pretend && force ==> (final(tx).file_tags@, final(tx).files@) == missing_removed(
            old(tx).file_tags@,
            old(tx).files@,
            db_files@,
            missing@,
            missing@.len() as int,
        ),
{
    if pretend || !force {
        return ;
    }
    let mut i: usize = 0;
    while i < missing.len()
        invariant
            i <= missing.len(),
            same_but(old(tx), tx, false, false, true, true, false),
            old(tx).no_orphans() ==> tx.no_orphans(),
            forall|r: FileTagRow| #[trigger]
                tx.file_tags@.contains(r) ==> old(tx).file_tags@.contains(r),
            (tx.file_tags@, tx.files@) == missing_removed(
                old(tx).file_tags@,
                old(tx).files@,
                db_files@,
                missing@,
                i as int,
            ),
        decreases missing.len() - i,
    {
        let at = missing[i];
        if at < db_files.len() {
            let ghost before = tx.file_tags@;
            let id = db_files[at].id;
            crate::storage::meta::delete_file_tags_by_file_id(tx, &id);
            proof {
                let pred = crate::storage::row_pred(RowKey::OfFile(id.0), false);
                assert forall|r: FileTagRow| #[trigger] tx.file_tags@.contains(r) implies before.contains(
                    r,
                ) by {
                    before.lemma_filter_contains_rev(pred, r);
                }
            }
        }
        i += 1;
    }
}

/// Whether one of the files has the identifier.
pub open spec fn listed(db_files: Seq<File>, id: u32) -> bool {
    exists|i: int| 0 <= i < db_files.len() && (#[trigger] db_files[i]).id.0 == id
}

/// The files that stay when those of the list that have no file tag are
/// removed.
pub open spec fn sweep_pred(db_files: Seq<File>, rows: Seq<FileTagRow>) -> spec_fn(File) -> bool {
    |f: File| !listed(db_files, f.id.0) || tagged(rows, f.id.0)
}

fn is_listed(db_files: &Vec<File>, id: u32) -> (r: bool)
    ensures
        r == listed(db_files@, id),
{
    let mut i: usize = 0;
    while i < db_files.len()
        invariant
            i <= db_files.len(),
            forall|j: int| 0 <= j < i ==> (#[trigger] db_files@[j]).id.0 != id,
        decreases db_files.len() - i,
    {
        if db_files[i].id.0 == id {
            return true;
        }
        i += 1;
    }
    false
}

fn has_rows(rows: &Vec<FileTagRow>, file: u32) -> (r: bool)
    ensures
        r == tagged(rows@, file),
{
    let mut k: usize = 0;
    while k < rows.len()
        invariant
            k <= rows.len(),
            forall|j: int| 0 <= j < k ==> (#[trigger] rows@[j]).file != file,
        decreases rows.len() - k,
    {
        if rows[k].file == file {
            return true;
        }
        k += 1;
    }
    false
}

/// Removes the files of the list that have no file tag.
pub fn delete_untagged_files(tx: &mut Storage, db_files: &Vec<File>)
    ensures
        same_but(old(tx), final(tx), false, false, true, false, false),
        final(tx).files@ == old(tx).files@.filter(sweep_pred(db_files@, old(tx).file_tags@)),
        old(tx).no_orphans() ==> final(tx).no_orphans(),
        forall|i: int|
            0 <= i < final(tx).files@.len() && listed(
                db_files@,
                (#[trigger] final(tx).files@[i]).id.0,
            ) ==> tagged(final(tx).file_tags@, final(tx).files@[i].id.0),
{
    let mut out: Vec<File> = Vec::new();
    let mut i: usize = 0;
    let ghost pred = sweep_pred(db_files@, tx.file_tags@);
    proof {
        reveal(Seq::filter);
        assert(tx.files@.take(0) =~= Seq::<File>::empty());
    }
    while i < tx.files.len()
        invariant
            i <= tx.files.len(),
            *tx == *old(tx),
            pred == sweep_pred(db_files@, tx.file_tags@),
            out@ == tx.files@.take(i as int).filter(pred),
        decreases tx.files.len() - i,
    {
        proof {
            tx.files@.take(i as int).lemma_filter_push(tx.files@[i as int], pred);
            assert(tx.files@.take(i + 1) =~= tx.files@.take(i as int).push(tx.files@[i as int]));
        }
        let id = tx.files[i].id.0;
        if !is_listed(db_files, id) || has_rows(&tx.file_tags, id) {
            out.push(tx.files[i].duplicate());
        }
        i += 1;
    }
    assert(tx.files@.take(tx.files.len() as int) =~= tx.files@);
    tx.files = out;
    proof {
        assert forall|k: int| 0 <= k < tx.files@.len() implies (listed(
            db_files@,
            (#[trigger] tx.files@[k]).id.0,
        ) ==> tagged(tx.file_tags@, tx.files@[k].id.0)) && (old(tx).no_orphans() ==> tagged(
            tx.file_tags@,
            tx.files@[k].id.0,
        )) by {
            old(tx).files@.lemma_filter_pred(pred, k);
            assert(tx.files@.contains(tx.files@[k]));
            old(tx).files@.lemma_filter_contains_rev(pred, tx.files@[k]);
            let x = choose|x: int|
                0 <= x < old(tx).files@.len() && old(tx).files@[x] == tx.files@[k];
        }
    }
}

/// The pair of a file tag.
pub open spec fn pair_of(ft: FileTag) -> Node {
    Node { tag: ft.tag_id.0, value: ft.value_id.raw() }
}

/// The pairs of file tags.
pub open spec fn pairs_of(fts: Seq<FileTag>) -> Seq<Node> {
    fts.map_values(|ft: FileTag| pair_of(ft))
}

/// Whether a pair is implied by the file tags given: an implication
/// that follows from them leads to it.
pub open spec fn implied_by(edges: Seq<Edge>, fts: Seq<FileTag>, n: Node) -> bool {
    exists|e: Edge| #[trigger]
        closure(edges, pairs_of(fts).to_set()).contains(e) && e.implied == n
}

/// Whether no file tag before the one at `i` has its pair.
pub open spec fn is_first(fts: Seq<FileTag>, i: int) -> bool {
    forall|x: int| 0 <= x < i ==> pair_of(#[trigger] fts[x]) != pair_of(fts[i])
}

/// Whether one of the file tags has the pair.
pub open spec fn covered(all: Seq<FileTag>, n: Node) -> bool {
    exists|i: int| 0 <= i < all.len() && pair_of(#[trigger] all[i]) == n
}

fn position_of(all: &Vec<FileTag>, n: Node) -> (r: Option<usize>)
    ensures
        match r {
            Some(k) => k < all@.len() && pair_of(all@[k as int]) == n && forall|j: int|
                0 <= j < k ==> pair_of(#[trigger] all@[j]) != n,
            None => forall|j: int| 0 <= j < all@.len() ==> pair_of(#[trigger] all@[j]) != n,
        },
{
    let mut k: usize = 0;
    while k < all.len()
        invariant
            k <= all.len(),
            forall|j: int| 0 <= j < k ==> pair_of(#[trigger] all@[j]) != n,
        decreases all.len() - k,
    {
        if all[k].tag_id.0 == n.tag && all[k].value_id.as_u32() == n.value {
            return Some(k);
        }
        k += 1;
    }
    None
}

/// The file tags of one file with those that the implications add: a
/// given file tag is marked as implicit where the others imply it, and
/// every implied pair that was not given is added as implicit only.
pub fn add_implied_file_tags(edges: &Vec<Edge>, file_tags: Vec<FileTag>) -> (all: Vec<FileTag>)
    ensures
        all@.len() >= file_tags@.len(),
        forall|i: int|
            0 <= i < file_tags@.len() ==> {
                let a = #[trigger] all@[i];
                let f = file_tags@[i];
                &&& a.file_id == f.file_id
                &&& a.tag_id == f.tag_id
                &&& a.value_id == f.value_id
                &&& a.explicit == f.explicit
                &&& a.implicit == (f.implicit || (is_first(file_tags@, i) && implied_by(
                    edges@,
                    file_tags@,
                    pair_of(f),
                )))
            },
        forall|i: int|
            file_tags@.len() <= i < all@.len() ==> {
                let a = #[trigger] all@[i];
                &&& !a.explicit
                &&& a.implicit
                &&& a.file_id == file_tags@[0].file_id
                &&& implied_by(edges@, file_tags@, pair_of(a))
            },
        forall|n: Node| #[trigger] implied_by(edges@, file_tags@, n) ==> covered(all@, n),
        forall|i: int| file_tags@.len() <= i < all@.len() ==> #[trigger] is_first(all@, i),
{
    let mut pairs: Vec<Node> = Vec::new();
    let mut i: usize = 0;
    while i < file_tags.len()
        invariant
            i <= file_tags.len(),
            pairs@ == pairs_of(file_tags@).take(i as int),
        decreases file_tags.len() - i,
    {
        pairs.push(Node { tag: file_tags[i].tag_id.0, value: file_tags[i].value_id.as_u32() });
        i += 1;
        assert(pairs@ =~= pairs_of(file_tags@).take(i as int));
    }
    assert(pairs@ =~= pairs_of(file_tags@));
    let found = implications_for(edges, &pairs);
    let ghost given = file_tags@;
    let ghost set = closure(edges@, pairs_of(given).to_set());
    let mut all = file_tags;
    let mut k: usize = 0;
    while k < found.len()
        invariant
            k <= found.len(),
            found@.to_set() == set,
            set == closure(edges@, pairs_of(given).to_set()),
            all@.len() >= given.len(),
            forall|i: int|
                0 <= i < given.len() ==> {
                    let a = #[trigger] all@[i];
                    let f = given[i];
                    &&& a.file_id == f.file_id
                    &&& a.tag_id == f.tag_id
                    &&& a.value_id == f.value_id
                    &&& a.explicit == f.explicit
                    &&& a.implicit == (f.implicit || (is_first(given, i) && exists|j: int|
                        0 <= j < k && (#[trigger] found@[j]).implied == pair_of(f)))
                },
            forall|i: int|
                given.len() <= i < all@.len() ==> {
                    let a = #[trigger] all@[i];
                    &&& !a.explicit
                    &&& a.implicit
                    &&& a.file_id == given[0].file_id
                    &&& exists|j: int| 0 <= j < k && (#[trigger] found@[j]).implied == pair_of(a)
                },
            forall|j: int| 0 <= j < k ==> covered(all@, (#[trigger] found@[j]).implied),
            forall|i: int| given.len() <= i < all@.len() ==> #[trigger] is_first(all@, i),
        decreases found.len() - k,
    {
        let n = found[k].implied;
        let ghost was = all@;
        match position_of(&all, n) {
            Some(at) => {
                let mut ft = all[at];
                ft.implicit = true;
                all.set(at, ft);
                proof {
                    assert forall|i: int| 0 <= i < given.len() implies {
                        let a = #[trigger] all@[i];
                        let f = given[i];
                        &&& a.file_id == f.file_id
                        &&& a.tag_id == f.tag_id
                        &&& a.value_id == f.value_id
                        &&& a.explicit == f.explicit
                        &&& a.implicit == (f.implicit || (is_first(given, i) && exists|j: int|
                            0 <= j < k + 1 && (#[trigger] found@[j]).implied == pair_of(f)))
                    } by {
                        let f = given[i];
                        assert(pair_of(was[i]) == pair_of(f));
                        if i == at {
                            assert(found@[k as int].implied == pair_of(f));
                            assert forall|x: int| 0 <= x < i implies pair_of(
                                #[trigger] given[x],
                            ) != pair_of(given[i]) by {
                                assert(pair_of(was[x]) == pair_of(given[x]));
                            }
                        } else {
                            assert(all@[i] == was[i]);
                            if found@[k as int].implied == pair_of(f) {
                                assert(pair_of(was[i]) == n);
                                if at < i {
                                    assert(pair_of(was[at as int]) == pair_of(given[at as int]));
                                    assert(!is_first(given, i));
                                }
                            }
                        }
                    }
                    assert forall|i: int| given.len() <= i < all@.len() implies {
                        let a = #[trigger] all@[i];
                        &&& !a.explicit
                        &&& a.implicit
                        &&& a.file_id == given[0].file_id
                        &&& exists|j: int|
                            0 <= j < k + 1 && (#[trigger] found@[j]).implied == pair_of(a)
                    } by {
                        assert(pair_of(all@[i]) == pair_of(was[i]));
                        let j = choose|j: int|
                            0 <= j < k && (#[trigger] found@[j]).implied == pair_of(was[i]);
                        assert(found@[j].implied == pair_of(all@[i]));
                    }
                    assert forall|i: int| given.len() <= i < all@.len() implies #[trigger] is_first(
                        all@,
                        i,
                    ) by {
                        assert(is_first(was, i));
                        assert forall|x: int| 0 <= x < i implies pair_of(#[trigger] all@[x])
                            != pair_of(all@[i]) by {
                            assert(pair_of(all@[x]) == pair_of(was[x]));
                            assert(pair_of(all@[i]) == pair_of(was[i]));
                        }
                    }
                    assert forall|j: int| 0 <= j < k + 1 implies covered(
                        all@,
                        (#[trigger] found@[j]).implied,
                    ) by {
                        if j < k {
                            assert(covered(was, found@[j].implied));
                            let i = choose|i: int|
                                0 <= i < was.len() && pair_of(#[trigger] was[i])
                                    == found@[j].implied;
                            assert(pair_of(all@[i]) == pair_of(was[i]));
                        } else {
                            assert(pair_of(all@[at as int]) == n);
                        }
                    }
                }
            },
            None => {
                if all.len() > 0 {
                    let file_id = all[0].file_id;
                    all.push(
                        FileTag {
                            file_id,
                            tag_id: TagId(n.tag),
                            value_id: OptionalValueId::from_id(n.value),
                            explicit: false,
                            implicit: true,
                        },
                    );
                    proof {
                        let added = all@[was.len() as int];
                        assert(pair_of(added) == n);
                        assert(given.len() > 0) by {
                            // an implication follows only from a pair that was given
                            if given.len() == 0 {
                                assert(found@.contains(found@[k as int]));
                                assert(set.contains(found@[k as int]));
                                let e = found@[k as int];
                                let m = choose|m: Node|
                                    #![trigger crate::implication::reached(edges@, pairs_of(given).to_set(), m)]
                                    crate::implication::reached(
                                        edges@,
                                        pairs_of(given).to_set(),
                                        m,
                                    ) && crate::implication::applies(e.implying, m);
                                let a = choose|a: Node|
                                    #![trigger crate::implication::reaches(edges@, a, m)]
                                    pairs_of(given).to_set().contains(a)
                                        && crate::implication::reaches(edges@, a, m);
                                assert(pairs_of(given).contains(a));
                            }
                        }
                        assert(was[0].file_id == given[0].file_id);
                        assert forall|i: int| 0 <= i < given.len() implies {
                            let a = #[trigger] all@[i];
                            let f = given[i];
                            &&& a.file_id == f.file_id
                            &&& a.tag_id == f.tag_id
                            &&& a.value_id == f.value_id
                            &&& a.explicit == f.explicit
                            &&& a.implicit == (f.implicit || (is_first(given, i) && exists|j: int|
                                0 <= j < k + 1 && (#[trigger] found@[j]).implied == pair_of(f)))
                        } by {
                            assert(all@[i] == was[i]);
                            if found@[k as int].implied == pair_of(given[i]) {
                                assert(pair_of(was[i]) == n);
                            }
                        }
                        assert forall|i: int| given.len() <= i < all@.len() implies {
                            let a = #[trigger] all@[i];
                            &&& !a.explicit
                            &&& a.implicit
                            &&& a.file_id == given[0].file_id
                            &&& exists|j: int|
                                0 <= j < k + 1 && (#[trigger] found@[j]).implied == pair_of(a)
                        } by {
                            if i < was.len() {
                                assert(all@[i] == was[i]);
                                let j = choose|j: int|
                                    0 <= j < k && (#[trigger] found@[j]).implied == pair_of(
                                        was[i],
                                    );
                                assert(found@[j].implied == pair_of(all@[i]));
                            } else {
                                assert(found@[k as int].implied == pair_of(all@[i]));
                            }
                        }
                        assert forall|i: int|
                            given.len() <= i < all@.len() implies #[trigger] is_first(all@, i) by {
                            if i < was.len() {
                                assert(is_first(was, i));
                                assert forall|x: int| 0 <= x < i implies pair_of(
                                    #[trigger] all@[x],
                                ) != pair_of(all@[i]) by {
                                    assert(all@[x] == was[x]);
                                    assert(all@[i] == was[i]);
                                }
                            } else {
                                assert forall|x: int| 0 <= x < i implies pair_of(
                                    #[trigger] all@[x],
                                ) != pair_of(all@[i]) by {
                                    assert(all@[x] == was[x]);
                                }
                            }
                        }
                        assert forall|j: int| 0 <= j < k + 1 implies covered(
                            all@,
                            (#[trigger] found@[j]).implied,
                        ) by {
                            if j < k {
                                assert(covered(was, found@[j].implied));
                                let i = choose|i: int|
                                    0 <= i < was.len() && pair_of(#[trigger] was[i])
                                        == found@[j].implied;
                                assert(all@[i] == was[i]);
                            } else {
                                assert(pair_of(all@[was.len() as int]) == n);
                            }
                        }
                    }
                } else {
                    proof {
                        assert(found@.contains(found@[k as int]));
                        assert(set.contains(found@[k as int]));
                        let e = found@[k as int];
                        let m = choose|m: Node|
                            #![trigger crate::implication::reached(edges@, pairs_of(given).to_set(), m)]
                            crate::implication::reached(edges@, pairs_of(given).to_set(), m)
                                && crate::implication::applies(e.implying, m);
                        let a = choose|a: Node|
                            #![trigger crate::implication::reaches(edges@, a, m)]
                            pairs_of(given).to_set().contains(a) && crate::implication::reaches(
                                edges@,
                                a,
                                m,
                            );
                        assert(pairs_of(given).contains(a));
                        assert(false);
                    }
                }
            },
        }
        k += 1;
    }
    proof {
        assert forall|n: Node| implied_by(edges@, given, n) <==> exists|j: int|
            0 <= j < found@.len() && (#[trigger] found@[j]).implied == n by {
            if implied_by(edges@, given, n) {
                let e = choose|e: Edge| #[trigger] set.contains(e) && e.implied == n;
                assert(found@.to_set().contains(e));
                assert(found@.contains(e));
                let j = choose|j: int| 0 <= j < found@.len() && found@[j] == e;
                assert(found@[j].implied == n);
            }
            if exists|j: int| 0 <= j < found@.len() && (#[trigger] found@[j]).implied == n {
                let j = choose|j: int| 0 <= j < found@.len() && (#[trigger] found@[j]).implied == n;
                assert(found@.contains(found@[j]));
                assert(found@.to_set().contains(found@[j]));
                assert(set.contains(found@[j]));
            }
        }
        assert forall|n: Node| #[trigger] implied_by(edges@, given, n) implies covered(all@, n) by {
            let j = choose|j: int| 0 <= j < found@.len() && (#[trigger] found@[j]).implied == n;
            assert(covered(all@, found@[j].implied));
        }
    }
    all
}

/// The pair of a row.
pub open spec fn row_node(r: FileTagRow) -> Node {
    Node { tag: r.tag, value: r.value }
}

/// The pairs of rows.
pub open spec fn row_nodes(rows: Seq<FileTagRow>) -> Seq<Node> {
    rows.map_values(|r: FileTagRow| row_node(r))
}

/// Whether the row at `i` of the rows of one file says what the file's
/// rows imply anyway: an implication that follows from them leads to its
/// pair. Of rows with one pair only the first counts.
pub open spec fn redundant(edges: Seq<Edge>, rows: Seq<FileTagRow>, i: int) -> bool {
    &&& forall|x: int| 0 <= x < i ==> row_node(#[trigger] rows[x]) != row_node(rows[i])
    &&& exists|e: Edge| #[trigger]
        closure(edges, row_nodes(rows).to_set()).contains(e) && e.implied == row_node(rows[i])
}

/// The file tags and the files without a row, and without the files
/// that this leaves with no file tag.
pub open spec fn without_row(state: (Seq<FileTagRow>, Seq<File>), row: FileTagRow) -> (
    Seq<FileTagRow>,
    Seq<File>,
) {
    let key = RowKey::Exactly(row);
    let kept = state.0.filter(crate::storage::row_pred(key, false));
    (
        kept,
        state.1.filter(
            crate::storage::purge_pred(state.0.filter(crate::storage::row_pred(key, true)), kept),
        ),
    )
}

/// The file tags and the files after those of the first `upto` rows of
/// one file that are redundant were removed, one after the other.
pub open spec fn file_rationalized(
    state: (Seq<FileTagRow>, Seq<File>),
    edges: Seq<Edge>,
    rows: Seq<FileTagRow>,
    upto: int,
) -> (Seq<FileTagRow>, Seq<File>)
    decreases upto,
{
    if upto <= 0 {
        state
    } else {
        let before = file_rationalized(state, edges, rows, upto - 1);
        if redundant(edges, rows, upto - 1) {
            without_row(before, rows[upto - 1])
        } else {
            before
        }
    }
}

/// The file tags and the files after the first `upto` files of the list
/// were rationalized, one after the other, each by the rows that it has
/// when its turn comes.
pub open spec fn rationalized(
    state: (Seq<FileTagRow>, Seq<File>),
    edges: Seq<Edge>,
    db_files: Seq<File>,
    upto: int,
) -> (Seq<FileTagRow>, Seq<File>)
    decreases upto,
{
    if upto <= 0 {
        state
    } else {
        let before = rationalized(state, edges, db_files, upto - 1);
        let rows = before.0.filter(
            crate::storage::row_pred(RowKey::OfFile(db_files[upto - 1].id.0), true),
        );
        file_rationalized(before, edges, rows, rows.len() as int)
    }
}

/// Removes, for each file of the list, the file tags that the file's
/// other tags imply anyway.
pub fn rationalize_file_tags(tx: &mut Storage, db_files: &Vec<File>)
    ensures
        same_but(old(tx), final(tx), false, false, true, true, false),
        (final(tx).file_tags@, final(tx).files@) == rationalized(
            (old(tx).file_tags@, old(tx).files@),
            old(tx).implications@,
            db_files@,
            db_files@.len() as int,
        ),
        forall|r: FileTagRow| #[trigger]
            final(tx).file_tags@.contains(r) ==> old(tx).file_tags@.contains(r),
        old(tx).no_orphans() ==> final(tx).no_orphans(),
        db_files@.len() == 0 ==> *final(tx) == *old(tx),
{
    let ghost edges = tx.implications@;
    let ghost first = (tx.file_tags@, tx.files@);
    let mut i: usize = 0;
    while i < db_files.len()
        invariant
            i <= db_files.len(),
            edges == old(tx).implications@,
            first == (old(tx).file_tags@, old(tx).files@),
            same_but(old(tx), tx, false, false, true, true, false),
            (tx.file_tags@, tx.files@) == rationalized(first, edges, db_files@, i as int),
            forall|r: FileTagRow| #[trigger]
                tx.file_tags@.contains(r) ==> old(tx).file_tags@.contains(r),
            old(tx).no_orphans() ==> tx.no_orphans(),
            i == 0 ==> *tx == *old(tx),
        decreases db_files.len() - i,
    {
        let ghost start = (tx.file_tags@, tx.files@);
        let rows = crate::storage::file_tags_by_file_id(tx, &db_files[i].id);
        let file_tags = crate::storage::as_file_tags(&rows);
        let ghost given = file_tags@;
        let all = add_implied_file_tags(&tx.implications, file_tags);
        proof {
            assert(pairs_of(given) =~= row_nodes(rows@));
        }
        let mut k: usize = 0;
        while k < all.len()
            invariant
                k <= all.len(),
                edges == old(tx).implications@,
                same_but(old(tx), tx, false, false, true, true, false),
                given.len() == rows@.len(),
                all@.len() >= given.len(),
                pairs_of(given) == row_nodes(rows@),
                forall|x: int|
                    0 <= x < given.len() ==> (#[trigger] given[x]).row() == rows@[x]
                        && given[x].explicit && !given[x].implicit,
                forall|x: int|
                    0 <= x < given.len() ==> {
                        let a = #[trigger] all@[x];
                        let f = given[x];
                        &&& a.file_id == f.file_id
                        &&& a.tag_id == f.tag_id
                        &&& a.value_id == f.value_id
                        &&& a.explicit == f.explicit
                        &&& a.implicit == (f.implicit || (is_first(given, x) && implied_by(
                            edges,
                            given,
                            pair_of(f),
                        )))
                    },
                forall|x: int| given.len() <= x < all@.len() ==> !(#[trigger] all@[x]).explicit,
                (tx.file_tags@, tx.files@) == file_rationalized(
                    start,
                    edges,
                    rows@,
                    if k < rows@.len() {
                        k as int
                    } else {
                        rows@.len() as int
                    },
                ),
                forall|r: FileTagRow| #[trigger]
                    tx.file_tags@.contains(r) ==> old(tx).file_tags@.contains(r),
                old(tx).no_orphans() ==> tx.no_orphans(),
            decreases all.len() - k,
        {
            let ft = all[k];
            proof {
                if k < rows@.len() {
                    let f = given[k as int];
                    assert(f.row() == rows@[k as int]);
                    assert(pair_of(f) == row_node(rows@[k as int]));
                    assert(is_first(given, k as int) == (forall|x: int|
                        0 <= x < k ==> row_node(#[trigger] rows@[x]) != row_node(
                            rows@[k as int],
                        ))) by {
                        if is_first(given, k as int) {
                            assert forall|x: int| 0 <= x < k implies row_node(
                                #[trigger] rows@[x],
                            ) != row_node(rows@[k as int]) by {
                                assert(pair_of(given[x]) == row_node(rows@[x])) by {
                                    assert(given[x].row() == rows@[x]);
                                }
                            }
                        } else {
                            let x = choose|x: int|
                                0 <= x < k && pair_of(#[trigger] given[x]) == pair_of(
                                    given[k as int],
                                );
                            assert(given[x].row() == rows@[x]);
                            assert(row_node(rows@[x]) == row_node(rows@[k as int]));
                        }
                    }
                    assert((ft.explicit && ft.implicit) == redundant(edges, rows@, k as int));
                }
            }
            if ft.explicit && ft.implicit {
                let ghost before = tx.file_tags@;
                crate::storage::meta::delete_file_tag(tx, &ft.file_id, &ft.tag_id, &ft.value_id);
                proof {
                    assert(FileTagRow {
                        file: ft.file_id.0,
                        tag: ft.tag_id.0,
                        value: ft.value_id.raw(),
                    } == rows@[k as int]) by {
                        assert(given[k as int].row() == rows@[k as int]);
                    }
                    assert forall|r: FileTagRow| #[trigger]
                        tx.file_tags@.contains(r) implies before.contains(r) by {
                        before.lemma_filter_contains_rev(
                            crate::storage::row_pred(
                                RowKey::Exactly(
                                    FileTagRow {
                                        file: ft.file_id.0,
                                        tag: ft.tag_id.0,
                                        value: ft.value_id.raw(),
                                    },
                                ),
                                false,
                            ),
                            r,
                        );
                    }
                }
            }
            k += 1;
        }
        i += 1;
    }
}

/// Whether a stored directory lies at or under a stored path. Where the
/// path holds the root of the store, every directory inside the root
/// does.
pub open spec fn under(dir: Seq<char>, inner: Seq<char>, holds_root: bool) -> bool {
    ||| dir == inner
    ||| inner.push('/').is_prefix_of(dir)
    ||| holds_root && (dir == seq!['.'] || seq!['.', '/'].is_prefix_of(dir))
}

/// The files whose directory lies at or under a stored path.
pub open spec fn under_pred(inner: Seq<char>, holds_root: bool) -> spec_fn(File) -> bool {
    |f: File| under(f.dir@, inner, holds_root)
}

fn begins_with(a: &Vec<char>, b: &Vec<char>) -> (r: bool)
    ensures
        r == b@.is_prefix_of(a@),
{
    if b.len() > a.len() {
        return false;
    }
    let mut i: usize = 0;
    while i < b.len()
        invariant
            i <= b.len() <= a.len(),
            forall|j: int| 0 <= j < i ==> a@[j] == b@[j],
        decreases b.len() - i,
    {
        if a[i] != b[i] {
            return false;
        }
        i += 1;
    }
    assert(b@ =~= a@.subrange(0, b.len() as int));
    true
}

fn is_under(dir: &Vec<char>, inner: &Vec<char>, holds_root: bool) -> (r: bool)
    ensures
        r == under(dir@, inner@, holds_root),
{
    if crate::text::same_chars(dir, inner) {
        return true;
    }
    let mut with_sep = inner.clone();
    with_sep.push('/');
    if begins_with(dir, &with_sep) {
        return true;
    }
    if !holds_root {
        return false;
    }
    let mut dot: Vec<char> = Vec::new();
    dot.push('.');
    assert(dot@ =~= seq!['.']);
    if crate::text::same_chars(dir, &dot) {
        return true;
    }
    dot.push('/');
    assert(dot@ =~= seq!['.', '/']);
    begins_with(dir, &dot)
}

/// The files whose directory lies at or under a path, in the order of
/// the table.
pub fn files_by_directory(tx: &Storage, path: &ScopedPath) -> (r: Vec<File>)
    ensures
        r@ == tx.files@.filter(
            under_pred(path.inner@, crate::path::within(path.base.text(), path.absolute.text())),
        ),
{
    let inner = chars_of(path.inner());
    let holds_root = path.contains_root();
    let ghost pred = under_pred(path.inner@, holds_root);
    let mut out: Vec<File> = Vec::new();
    let mut i: usize = 0;
    proof {
        reveal(Seq::filter);
        assert(tx.files@.take(0) =~= Seq::<File>::empty());
    }
    while i < tx.files.len()
        invariant
            i <= tx.files.len(),
            inner@ == path.inner@,
            pred == under_pred(path.inner@, holds_root),
            out@ == tx.files@.take(i as int).filter(pred),
        decreases tx.files.len() - i,
    {
        proof {
            tx.files@.take(i as int).lemma_filter_push(tx.files@[i as int], pred);
            assert(tx.files@.take(i + 1) =~= tx.files@.take(i as int).push(tx.files@[i as int]));
        }
        let dir = chars_of(tx.files[i].dir.as_str());
        if is_under(&dir, &inner, holds_root) {
            out.push(tx.files[i].duplicate());
        }
        i += 1;
    }
    assert(tx.files@.take(tx.files.len() as int) =~= tx.files@);
    out
}

/// The files that a repair under a path looks at: those at or under the
/// path, and behind them the file stored at the path itself.
pub fn files_to_repair(tx: &Storage, path: &ScopedPath) -> (r: Vec<File>)
    ensures
        ({
            let below = tx.files@.filter(
                under_pred(
                    path.inner@,
                    crate::path::within(path.base.text(), path.absolute.text()),
                ),
            );
            match first_file_at(tx.files@, dir_of(path.inner@), name_of(path.inner@)) {
                Some(f) => r@ == below.push(f),
                None => r@ == below,
            }
        }),
{
    let mut db_files = files_by_directory(tx, path);
    match file_by_path(tx, path) {
        Some(f) => db_files.push(f),
        None => {},
    }
    db_files
}

/// What the file system holds, as far as a repair needs it: for each
/// file looked at what was found at its path, and the files found under
/// the search paths.
pub struct Survey {
    pub stats: Vec<Option<FileStat>>,
    pub observed: Vec<Option<Observation>>,
    pub candidates: Vec<Candidate>,
}

/// What a repair found and did, each file as a position in the list of
/// the files looked at.
pub struct RepairReport {
    pub statuses: Statuses,
    pub recalculated: Vec<usize>,
    pub updated: Vec<usize>,
    pub moved: Vec<Move>,
}

/// The file rows after the unmodified files, if asked, and the modified
/// files were given what was observed of them. When only pretending,
/// the rows stay as they are.
pub open spec fn rows_refreshed(
    rows: Seq<FileView>,
    db_files: Seq<File>,
    stats: Seq<Option<FileStat>>,
    observed: Seq<Option<Observation>>,
    recalc_unmodified: bool,
    pretend: bool,
) -> Seq<FileView> {
    if pretend {
        rows
    } else {
        let unmodified = positions(db_files, stats, FileState::Unmodified, db_files.len() as int);
        let modified = positions(db_files, stats, FileState::Modified, db_files.len() as int);
        let first = if recalc_unmodified {
            refreshed(rows, db_files, unmodified, observed, unmodified.len() as int)
        } else {
            rows
        };
        refreshed(first, db_files, modified, observed, modified.len() as int)
    }
}

/// Repairs the files of the list: stores anew what was observed of the
/// unmodified ones if asked, and of the modified ones; looks for the
/// missing ones among the candidates; removes the file tags of those
/// still missing if asked; removes the files of the list that are left
/// without a file tag; and removes file tags that are implied anyway if
/// asked. When only pretending, nothing is written.
pub fn full_repair(
    tx: &mut Storage,
    db_files: &Vec<File>,
    survey: &Survey,
    remove_missing: bool,
    recalc_unmodified: bool,
    rationalize: bool,
    pretend: bool,
) -> (r: RepairReport)
    requires
        survey.stats@.len() == db_files@.len(),
    ensures
        pretend ==> *final(tx) == *old(tx),
        same_but(old(tx), final(tx), false, false, true, true, false),
        old(tx).no_orphans() ==> final(tx).no_orphans(),
        forall|row: FileTagRow| #[trigger]
            final(tx).file_tags@.contains(row) ==> old(tx).file_tags@.contains(row),
        r.statuses.unmodified@ == positions(
            db_files@,
            survey.stats@,
            FileState::Unmodified,
            db_files@.len() as int,
        ),
        r.statuses.modified@ == positions(
            db_files@,
            survey.stats@,
            FileState::Modified,
            db_files@.len() as int,
        ),
        r.statuses.missing@ == positions(
            db_files@,
            survey.stats@,
            FileState::Missing,
            db_files@.len() as int,
        ),
        !recalc_unmodified ==> r.recalculated@.len() == 0,
        r.moved@ == relocated(
            rows_refreshed(
                file_views(old(tx).files@),
                db_files@,
                survey.stats@,
                survey.observed@,
                recalc_unmodified,
                pretend,
            ),
            db_files@,
            r.statuses.missing@,
            survey.candidates@,
            pretend,
            r.statuses.missing@.len() as int,
        ).1,
        !pretend && !remove_missing && !rationalize ==> forall|row: FileTagRow| #[trigger]
            old(tx).file_tags@.contains(row) ==> final(tx).file_tags@.contains(row),
        !pretend && !rationalize ==> forall|i: int|
            0 <= i < final(tx).files@.len() && listed(
                db_files@,
                (#[trigger] final(tx).files@[i]).id.0,
            ) ==> tagged(final(tx).file_tags@, final(tx).files@[i].id.0),
{
    let statuses = determine_statuses(db_files, &survey.stats);
    let recalculated = if recalc_unmodified {
        repair_unmodified(tx, db_files, &statuses.unmodified, &survey.observed, pretend)
    } else {
        Vec::new()
    };
    let updated = repair_modified(tx, db_files, &statuses.modified, &survey.observed, pretend);
    let moved = repair_moved(tx, db_files, &statuses.missing, &survey.candidates, pretend);
    repair_missing(tx, db_files, &statuses.missing, pretend, remove_missing);
    if !pretend {
        delete_untagged_files(tx, db_files);
        if rationalize {
            rationalize_file_tags(tx, db_files);
        }
    }
    RepairReport { statuses, recalculated, updated, moved }
}

/// Stores for one file the path `to_path` and what was observed there.
/// Fails where nothing was found there.
pub fn manual_repair_file(
    tx: &mut Storage,
    db_file: &File,
    to_path: &ScopedPath,
    seen: &Option<Observation>,
) -> (r: Result<(), Error>)
    ensures
        same_but(old(tx), final(tx), false, false, true, false, false),
        old(tx).no_orphans() ==> final(tx).no_orphans(),
        match *seen {
            None => *final(tx) == *old(tx) && (r matches Err(Error::FileNotFound(p)) && p@
                == to_path.absolute.text()),
            Some(s) => r is Ok && final(tx).files@.len() == old(tx).files@.len() && forall|i: int|
                0 <= i < old(tx).files@.len() ==> updated(
                    #[trigger] old(tx).files@[i],
                    db_file.id.0,
                    to_path.inner@,
                    s.fingerprint@,
                    s.stat.mod_time,
                    s.stat.size,
                    s.stat.is_dir,
                    final(tx).files@[i],
                ),
        },
{
    match seen {
        None => Err(Error::FileNotFound(to_path.absolute.0.clone())),
        Some(s) => {
            update_file(
                tx,
                &db_file.id,
                to_path,
                &s.fingerprint,
                s.stat.mod_time,
                s.stat.size,
                s.stat.is_dir,
            );
            Ok(())
        },
    }
}

/// What a manual repair found to move.
#[derive(Debug, Clone, Copy, PartialEq, Eq, Structural)]
pub struct Found {
    /// Whether a file is stored at the path itself.
    pub at_path: bool,
    /// How many files are stored below the path.
    pub below: usize,
}

/// Moves what is stored at or under `from_path` to `to_path`: the file
/// stored at `from_path`, and every file stored below it. Says what was
/// found to move. Fails where there is something to move and nothing
/// was found at `to_path`; when only pretending, nothing is written.
pub fn manual_repair(
    tx: &mut Storage,
    from_path: &ScopedPath,
    to_path: &ScopedPath,
    seen: &Option<Observation>,
    pretend: bool,
) -> (r: Result<Found, Error>)
    ensures
        same_but(old(tx), final(tx), false, false, true, false, false),
        old(tx).no_orphans() ==> final(tx).no_orphans(),
        pretend ==> *final(tx) == *old(tx),
        ({
            let at = first_file_at(
                old(tx).files@,
                dir_of(from_path.inner@),
                name_of(from_path.inner@),
            );
            let below = old(tx).files@.filter(
                under_pred(
                    from_path.inner@,
                    crate::path::within(from_path.base.text(), from_path.absolute.text()),
                ),
            );
            let nothing = at is None && below.len() == 0;
            if pretend || nothing || *seen is Some {
                r is Ok && r->Ok_0.at_path == (at is Some) && r->Ok_0.below == below.len()
            } else {
                *final(tx) == *old(tx) && (r matches Err(Error::FileNotFound(p)) && p@
                    == to_path.absolute.text())
            }
        }),
{
    let at = file_by_path(tx, from_path);
    let below = files_by_directory(tx, from_path);
    let found = Found { at_path: at.is_some(), below: below.len() };
    if pretend {
        return Ok(found);
    }
    match &at {
        Some(f) => {
            match manual_repair_file(tx, f, to_path, seen) {
                Ok(_) => {},
                Err(e) => return Err(e),
            }
        },
        None => {},
    }
    let mut i: usize = 0;
    while i < below.len()
        invariant
            i <= below.len(),
            !pretend,
            at == first_file_at(
                old(tx).files@,
                dir_of(from_path.inner@),
                name_of(from_path.inner@),
            ),
            below@ == old(tx).files@.filter(
                under_pred(
                    from_path.inner@,
                    crate::path::within(from_path.base.text(), from_path.absolute.text()),
                ),
            ),
            same_but(old(tx), tx, false, false, true, false, false),
            old(tx).no_orphans() ==> tx.no_orphans(),
            *seen is None ==> i == 0 && at is None && *tx == *old(tx),
        decreases below.len() - i,
    {
        match manual_repair_file(tx, &below[i], to_path, seen) {
            Ok(_) => {},
            Err(e) => return Err(e),
        }
        i += 1;
    }
    Ok(found)
}

} // verus!
