//! The state of paths: tagged, modified, missing or untagged.

use vstd::prelude::*;
use crate::api::repair::{check_state, state_of, FileState, FileStat};
use crate::entities::{dir_and_name_path, File};
use crate::path::{cleaned, is_absolute, joined, AbsPath};
use crate::text::same_text;
use crate::tree::{ascending, grown, pieces, pruned, real_paths, NodeView, Tree};

verus! {

#[derive(Debug, Clone, Copy, PartialEq, Eq, Structural)]
pub enum PathStatus {
    Missing,
    Modified,
    Tagged,
    Untagged,
}

#[derive(Debug, PartialEq, Eq)]
pub struct StatusEntry {
    pub path: AbsPath,
    pub status: PathStatus,
}

pub struct Report {
    pub entries: Vec<StatusEntry>,
}

impl View for Report {
    type V = Seq<(Seq<char>, PathStatus)>;

    open spec fn view(&self) -> Seq<(Seq<char>, PathStatus)> {
        self.entries@.map_values(|e: StatusEntry| (e.path.text(), e.status))
    }
}

/// Whether a report has an entry for a path.
pub open spec fn reported(entries: Seq<(Seq<char>, PathStatus)>, path: Seq<char>) -> bool {
    exists|i: int| 0 <= i < entries.len() && (#[trigger] entries[i]).0 == path
}

/// The status of a tracked file by its state.
pub open spec fn status_of(state: FileState) -> PathStatus {
    match state {
        FileState::Missing => PathStatus::Missing,
        FileState::Modified => PathStatus::Modified,
        FileState::Unmodified => PathStatus::Tagged,
    }
}

/// The absolute path of a file of the store.
pub open spec fn abs_path_of(file: File, root: Seq<char>) -> Seq<char> {
    let p = dir_and_name_path(file.dir@, file.name@);
    if is_absolute(p) {
        p
    } else {
        cleaned(joined(root, p))
    }
}

/// The entries of the first `upto` files.
pub open spec fn checked(
    files: Seq<File>,
    root: Seq<char>,
    stats: Seq<Option<FileStat>>,
    upto: int,
) -> Seq<(Seq<char>, PathStatus)>
    decreases upto,
{
    if upto <= 0 {
        seq![]
    } else {
        checked(files, root, stats, upto - 1).push(
            (
                abs_path_of(files[upto - 1], root),
                status_of(state_of(files[upto - 1], stats[upto - 1])),
            ),
        )
    }
}

/// The entries with one for each of the first `upto` paths that has
/// none yet, as untagged.
pub open spec fn with_new(
    entries: Seq<(Seq<char>, PathStatus)>,
    paths: Seq<Seq<char>>,
    upto: int,
) -> Seq<(Seq<char>, PathStatus)>
    decreases upto,
{
    if upto <= 0 {
        entries
    } else {
        let before = with_new(entries, paths, upto - 1);
        if reported(before, paths[upto - 1]) {
            before
        } else {
            before.push((paths[upto - 1], PathStatus::Untagged))
        }
    }
}

impl Report {
    pub fn new() -> (r: Self)
        ensures
            r@ == Seq::<(Seq<char>, PathStatus)>::empty(),
    {
        let r = Report { entries: Vec::new() };
        assert(r@ =~= Seq::<(Seq<char>, PathStatus)>::empty());
        r
    }

    pub fn add_entry(&mut self, path: AbsPath, status: PathStatus)
        ensures
            final(self)@ == old(self)@.push((path.text(), status)),
    {
        self.entries.push(StatusEntry { path, status });
        assert(self@ =~= old(self)@.push((path.text(), status)));
    }

    pub fn contains_path(&self, path: &AbsPath) -> (r: bool)
        ensures
            r == reported(self@, path.text()),
    {
        let mut i: usize = 0;
        while i < self.entries.len()
            invariant
                i <= self.entries.len(),
                self@.len() == self.entries.len(),
                forall|j: int| 0 <= j < i ==> (#[trigger] self@[j]).0 != path.text(),
            decreases self.entries.len() - i,
        {
            assert(self@[i as int].0 == self.entries@[i as int].path.text());
            if same_text(self.entries[i].path.as_str(), path.as_str()) {
                return true;
            }
            i += 1;
        }
        false
    }
}

/// The absolute path of a file of the store.
pub fn abs_path(file: &File, root: &AbsPath) -> (r: AbsPath)
    ensures
        r.text() == abs_path_of(*file, root.text()),
{
    let p = file.to_path_buf();
    AbsPath::from(p.as_str(), root)
}

/// Reports the status of one tracked file.
pub fn check_file(path: AbsPath, file: &File, stat: &Option<FileStat>, report: &mut Report)
    ensures
        final(report)@ == old(report)@.push((path.text(), status_of(state_of(*file, *stat)))),
{
    let status = match check_state(file, stat) {
        FileState::Missing => PathStatus::Missing,
        FileState::Modified => PathStatus::Modified,
        FileState::Unmodified => PathStatus::Tagged,
    };
    report.add_entry(path, status);
}

/// Reports the status of each tracked file.
pub fn check_files(
    files: &Vec<File>,
    root: &AbsPath,
    stats: &Vec<Option<FileStat>>,
    report: &mut Report,
)
    requires
        stats@.len() == files@.len(),
    ensures
        final(report)@ == old(report)@ + checked(
            files@,
            root.text(),
            stats@,
            files@.len() as int,
        ),
{
    let mut i: usize = 0;
    assert(report@ + checked(files@, root.text(), stats@, 0) =~= report@);
    while i < files.len()
        invariant
            i <= files.len(),
            stats@.len() == files@.len(),
            report@ == old(report)@ + checked(files@, root.text(), stats@, i as int),
        decreases files.len() - i,
    {
        let ghost before = report@;
        check_file(abs_path(&files[i], root), &files[i], &stats[i], report);
        i += 1;
        assert(report@ =~= old(report)@ + checked(files@, root.text(), stats@, i as int));
    }
}

/// Reports as untagged the search path and what was found below it, as
/// far as the report does not have them. What was found below is looked
/// at only where the search goes into directories.
pub fn find_new_files(
    search_path: AbsPath,
    report: &mut Report,
    recursive: bool,
    below: &Vec<AbsPath>,
)
    ensures
        final(report)@ == with_new(
            old(report)@,
            seq![search_path.text()] + if recursive {
                below@.map_values(|p: AbsPath| p.text())
            } else {
                seq![]
            },
            if recursive {
                below@.len() as int + 1
            } else {
                1int
            },
        ),
{
    let ghost paths = seq![search_path.text()] + if recursive {
        below@.map_values(|p: AbsPath| p.text())
    } else {
        seq![]
    };
    assert(paths[0] == search_path.text());
    assert(with_new(old(report)@, paths, 0) == old(report)@);
    if !report.contains_path(&search_path) {
        report.add_entry(search_path, PathStatus::Untagged);
    }
    assert(report@ == with_new(old(report)@, paths, 1));
    if recursive {
        let mut i: usize = 0;
        while i < below.len()
            invariant
                i <= below.len(),
                paths.len() == below@.len() + 1,
                forall|j: int| 0 <= j < below@.len() ==> #[trigger] paths[j + 1] == below@[j].text(),
                report@ == with_new(old(report)@, paths, i + 1),
            decreases below.len() - i,
        {
            assert(paths[i + 1] == below@[i as int].text());
            if !report.contains_path(&below[i]) {
                report.add_entry(AbsPath(below[i].0.clone()), PathStatus::Untagged);
            }
            i += 1;
        }
    }
}

/// The tree of the absolute paths of the first `upto` files.
pub open spec fn tree_of(files: Seq<File>, root: Seq<char>, upto: int) -> Seq<NodeView>
    decreases upto,
{
    if upto <= 0 {
        seq![]
    } else {
        grown(
            tree_of(files, root, upto - 1),
            pieces(abs_path_of(files[upto - 1], root)),
            0,
            None,
            files[upto - 1].is_dir,
        )
    }
}

/// The status of every tracked file, and the paths under which to look
/// for untagged files: the highest tracked paths, in ascending order.
pub fn database_status(db_files: &Vec<File>, root: &AbsPath, stats: &Vec<Option<FileStat>>) -> (r: (
    Report,
    Vec<String>,
))
    requires
        stats@.len() == db_files@.len(),
    ensures
        r.0@ == checked(db_files@, root.text(), stats@, db_files@.len() as int),
        ascending(crate::query::names_of(r.1@)),
        ({
            let tree = tree_of(db_files@, root.text(), db_files@.len() as int);
            let top = pruned(tree, tree.len() as int);
            forall|t: Seq<char>|
                crate::query::names_of(r.1@).contains(t) <==> real_paths(
                    top,
                    top.len() as int,
                ).contains(t)
        }),
{
    let mut report = Report::new();
    check_files(db_files, root, stats, &mut report);
    assert(report@ =~= checked(db_files@, root.text(), stats@, db_files@.len() as int));
    let mut tree = Tree::new();
    let mut i: usize = 0;
    while i < db_files.len()
        invariant
            i <= db_files.len(),
            tree@ == tree_of(db_files@, root.text(), i as int),
        decreases db_files.len() - i,
    {
        let p = abs_path(&db_files[i], root);
        tree.add(p.as_str(), db_files[i].is_dir);
        i += 1;
    }
    let top = tree.top_level();
    let paths = top.paths();
    proof {
        assert(crate::tree::showing(top@).len() == top@.len());
    }
    (report, paths)
}

/// What is known of one path whose status is asked for.
pub struct PathReview {
    /// The path, made absolute.
    pub path: AbsPath,
    /// Whether the path itself is a symbolic link.
    pub is_symlink: bool,
    /// The tracked file at the path, and what was found there.
    pub file: Option<(File, Option<FileStat>)>,
    /// The tracked files below the path, and what was found at each.
    pub below: Vec<File>,
    pub below_stats: Vec<Option<FileStat>>,
    /// What the file system holds below the path, in its order.
    pub found: Vec<AbsPath>,
}

/// Whether tracked files below a path are looked at: where the search
/// goes into directories, and the path is no link or links are followed.
pub open spec fn goes_below(recursive: bool, follow_symlinks: bool, is_symlink: bool) -> bool {
    recursive && (follow_symlinks || !is_symlink)
}

/// The status of the given paths: of the tracked file at each, of the
/// tracked files below it, and of what else was found there.
pub fn files_status(
    reviews: &Vec<PathReview>,
    root: &AbsPath,
    recursive: bool,
    follow_symlinks: bool,
) -> (report: Report)
    requires
        forall|i: int|
            0 <= i < reviews@.len() ==> (#[trigger] reviews@[i]).below_stats@.len()
                == reviews@[i].below@.len(),
    ensures
        reviews@.len() == 0 ==> report@.len() == 0,
        forall|i: int|
            0 <= i < reviews@.len() ==> reported(report@, (#[trigger] reviews@[i]).path.text()),
{
    let mut report = Report::new();
    let mut i: usize = 0;
    while i < reviews.len()
        invariant
            i <= reviews.len(),
            i == 0 ==> report@.len() == 0,
            forall|k: int|
                0 <= k < reviews@.len() ==> (#[trigger] reviews@[k]).below_stats@.len()
                    == reviews@[k].below@.len(),
            forall|k: int| 0 <= k < i ==> reported(report@, (#[trigger] reviews@[k]).path.text()),
        decreases reviews.len() - i,
    {
        let review = &reviews[i];
        let ghost start = report@;
        match &review.file {
            Some((file, stat)) => {
                check_file(AbsPath(review.path.0.clone()), file, stat, &mut report);
            },
            None => {},
        }
        if recursive && (follow_symlinks || !review.is_symlink) {
            check_files(&review.below, root, &review.below_stats, &mut report);
        }
        let ghost middle = report@;
        find_new_files(AbsPath(review.path.0.clone()), &mut report, recursive, &review.found);
        proof {
            let paths = seq![review.path.text()] + if recursive {
                review.found@.map_values(|p: AbsPath| p.text())
            } else {
                seq![]
            };
            let n = if recursive {
                review.found@.len() as int + 1
            } else {
                1int
            };
            lemma_with_new_keeps(middle, paths, n);
            lemma_with_new_covers(middle, paths, n, 0);
            assert(paths[0] == review.path.text());
            assert forall|k: int| 0 <= k < i + 1 implies reported(
                report@,
                (#[trigger] reviews@[k]).path.text(),
            ) by {
                if k < i {
                    let w = choose|w: int|
                        0 <= w < start.len() && (#[trigger] start[w]).0 == reviews@[k].path.text();
                    assert(middle[w] == start[w]);
                    assert(report@[w] == middle[w]);
                }
            }
        }
        i += 1;
    }
    report
}

/// Entries stay where they are when untagged paths are added.
pub proof fn lemma_with_new_keeps(
    entries: Seq<(Seq<char>, PathStatus)>,
    paths: Seq<Seq<char>>,
    upto: int,
)
    ensures
        with_new(entries, paths, upto).len() >= entries.len(),
        forall|w: int| 0 <= w < entries.len() ==> with_new(entries, paths, upto)[w] == entries[w],
    decreases upto,
{
    if upto > 0 {
        lemma_with_new_keeps(entries, paths, upto - 1);
    }
}

/// Every path looked at has an entry afterwards.
pub proof fn lemma_with_new_covers(
    entries: Seq<(Seq<char>, PathStatus)>,
    paths: Seq<Seq<char>>,
    upto: int,
    k: int,
)
    requires
        0 <= k < upto,
    ensures
        reported(with_new(entries, paths, upto), paths[k]),
    decreases upto,
{
    let before = with_new(entries, paths, upto - 1);
    let after = with_new(entries, paths, upto);
    if k == upto - 1 {
        if !reported(before, paths[k]) {
            assert(after[before.len() as int].0 == paths[k]);
        }
    } else {
        lemma_with_new_covers(entries, paths, upto - 1, k);
        let w = choose|w: int| 0 <= w < before.len() && (#[trigger] before[w]).0 == paths[k];
        assert(after[w] == before[w]);
    }
}

} // verus!
