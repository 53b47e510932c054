//! Repair of an install: which directory is the install to repair, which
//! of its files are removed to force a clean re-install, and what the
//! caller is told afterwards. A file that cannot be removed is reported,
//! and the repair goes on with the others.

use crate::layout::{is_install_dir_of, names_install_of};
use crate::registry::{lookup, InstallRecordView, Registry};
use crate::text::has_suffix;
use vstd::prelude::*;
use vstd::string::*;

verus! {

/// A directory below the games root.
#[derive(Debug)]
pub struct DirectoryEntry {
    pub name: String,
    /// When the directory was last modified, on any clock that grows with time.
    pub modified: u64,
}

/// The install to repair.
#[derive(Debug)]
pub enum RepairTarget {
    /// The directory that the registry records for the package.
    Registered { install_dir: String },
    /// The directory at this position of the listing.
    Listed { index: usize },
    /// The package is not installed.
    Missing,
}

/// How the removal of one file went.
#[derive(Debug)]
pub struct Removal {
    pub file_name: String,
    /// Why the file could not be removed, if it could not.
    pub error: Option<String>,
}

/// What a repair did.
#[derive(Debug)]
pub struct RepairResult {
    pub success: bool,
    pub repaired_files: Vec<String>,
    pub errors: Vec<String>,
    pub message: String,
}

/// The mathematical content of a [`DirectoryEntry`].
pub struct DirectoryEntryView {
    pub name: Seq<char>,
    pub modified: u64,
}

/// The mathematical content of a [`RepairTarget`].
pub enum RepairTargetView {
    Registered { install_dir: Seq<char> },
    Listed { index: usize },
    Missing,
}

/// The mathematical content of a [`Removal`].
pub struct RemovalView {
    pub file_name: Seq<char>,
    pub error: Option<Seq<char>>,
}

/// The mathematical content of a [`RepairResult`].
pub struct RepairResultView {
    pub success: bool,
    pub repaired_files: Seq<Seq<char>>,
    pub errors: Seq<Seq<char>>,
    pub message: Seq<char>,
}

impl View for DirectoryEntry {
    type V = DirectoryEntryView;

    open spec fn view(&self) -> DirectoryEntryView {
        DirectoryEntryView { name: self.name@, modified: self.modified }
    }
}

impl View for RepairTarget {
    type V = RepairTargetView;

    open spec fn view(&self) -> RepairTargetView {
        match self {
            RepairTarget::Registered { install_dir } => RepairTargetView::Registered {
                install_dir: install_dir@,
            },
            RepairTarget::Listed { index } => RepairTargetView::Listed { index: *index },
            RepairTarget::Missing => RepairTargetView::Missing,
        }
    }
}

impl View for Removal {
    type V = RemovalView;

    open spec fn view(&self) -> RemovalView {
        RemovalView { file_name: self.file_name@, error: crate::progress::text_of(self.error) }
    }
}

impl View for RepairResult {
    type V = RepairResultView;

    open spec fn view(&self) -> RepairResultView {
        RepairResultView {
            success: self.success,
            repaired_files: self.repaired_files.deep_view(),
            errors: self.errors.deep_view(),
            message: self.message@,
        }
    }
}

/// The views of a list of directories, one by one.
pub open spec fn directory_views(entries: Seq<DirectoryEntry>) -> Seq<DirectoryEntryView> {
    entries.map_values(|e: DirectoryEntry| e@)
}

/// The views of a list of removals, one by one.
pub open spec fn removal_views(removals: Seq<Removal>) -> Seq<RemovalView> {
    removals.map_values(|r: Removal| r@)
}

/// `entries[at]` is the install of package `id` to repair: a directory
/// named after the package that none of the others was modified after, and
/// the first in the listing of those modified as late.
pub open spec fn is_latest_install(entries: Seq<DirectoryEntryView>, id: Seq<char>, at: int) -> bool {
    &&& 0 <= at < entries.len()
    &&& names_install_of(entries[at].name, id)
    &&& forall|j: int|
        0 <= j < entries.len() && names_install_of((#[trigger] entries[j]).name, id)
            ==> entries[j].modified <= entries[at].modified
    &&& forall|j: int|
        0 <= j < at && names_install_of((#[trigger] entries[j]).name, id) ==> entries[j].modified
            < entries[at].modified
}

/// No directory of the listing is named after package `id`.
pub open spec fn no_install(entries: Seq<DirectoryEntryView>, id: Seq<char>) -> bool {
    forall|j: int| 0 <= j < entries.len() ==> !names_install_of((#[trigger] entries[j]).name, id)
}

/// `choice` is the fallback's answer for `entries`.
pub open spec fn is_latest_choice(
    entries: Seq<DirectoryEntryView>,
    id: Seq<char>,
    choice: Option<int>,
) -> bool {
    match choice {
        Some(at) => is_latest_install(entries, id, at),
        None => no_install(entries, id),
    }
}

/// The answer for a listing that grew by one directory: that directory, if
/// it is named after the package and was modified after the answer so far;
/// else the answer so far.
pub open spec fn next_latest(
    entries: Seq<DirectoryEntryView>,
    id: Seq<char>,
    choice: Option<int>,
    at: int,
) -> Option<int> {
    if names_install_of(entries[at].name, id) && (choice is None || entries[at].modified
        > entries[choice->0].modified) {
        Some(at)
    } else {
        choice
    }
}

/// Walking the listing directory by directory keeps the answer right.
proof fn lemma_latest_grows(
    entries: Seq<DirectoryEntryView>,
    id: Seq<char>,
    choice: Option<int>,
    at: int,
)
    requires
        0 <= at < entries.len(),
        is_latest_choice(entries.take(at), id, choice),
    ensures
        is_latest_choice(entries.take(at + 1), id, next_latest(entries, id, choice, at)),
{
    let before = entries.take(at);
    let after = entries.take(at + 1);
    assert(after[at] == entries[at]);
    assert forall|j: int| 0 <= j < at implies after[j] == before[j] && after[j] == entries[j] by {}
    match next_latest(entries, id, choice, at) {
        Some(best) => {
            assert forall|j: int|
                0 <= j < after.len() && names_install_of(
                    (#[trigger] after[j]).name,
                    id,
                ) implies after[j].modified <= after[best].modified by {
                if j < at {
                    assert(names_install_of(before[j].name, id));
                }
            }
            assert forall|j: int|
                0 <= j < best && names_install_of((#[trigger] after[j]).name, id) implies after[j].modified
                < after[best].modified by {
                assert(names_install_of(before[j].name, id));
            }
        },
        None => {
            assert forall|j: int| 0 <= j < after.len() implies !names_install_of(
                (#[trigger] after[j]).name,
                id,
            ) by {
                if j < at {
                    assert(!names_install_of(before[j].name, id));
                }
            }
        },
    }
}

/// `target` is the install of package `id` to repair: the registry's
/// directory where it records the package, else the latest of the listed
/// directories that are named after the package.
pub open spec fn is_repair_target(
    records: Seq<InstallRecordView>,
    entries: Seq<DirectoryEntryView>,
    id: Seq<char>,
    target: RepairTargetView,
) -> bool {
    match lookup(records, id) {
        Some(record) => target == (RepairTargetView::Registered { install_dir: record.install_dir }),
        None => match target {
            RepairTargetView::Registered { .. } => false,
            RepairTargetView::Listed { index } => is_latest_install(entries, id, index as int),
            RepairTargetView::Missing => no_install(entries, id),
        },
    }
}

/// A file of this name is removed by a repair: a program, a library or a
/// configuration file.
pub open spec fn is_artifact_name(name: Seq<char>) -> bool {
    ".exe"@.is_suffix_of(name) || ".dll"@.is_suffix_of(name) || ".config"@.is_suffix_of(name)
}

/// `picked` lists, in order, the positions of the names that a repair removes.
pub open spec fn is_artifact_selection(names: Seq<Seq<char>>, picked: Seq<usize>) -> bool {
    &&& forall|k: int|
        0 <= k < picked.len() ==> (#[trigger] picked[k]) < names.len() && is_artifact_name(
            names[picked[k] as int],
        )
    &&& forall|a: int, b: int| 0 <= a < b < picked.len() ==> (#[trigger] picked[a]) < (#[trigger] picked[b])
    &&& forall|j: usize| j < names.len() && is_artifact_name(names[j as int]) ==> #[trigger] picked.contains(j)
}

/// The line that reports a file that could not be removed.
pub open spec fn error_line(file_name: Seq<char>, error: Seq<char>) -> Seq<char> {
    "Failed to remove "@ + file_name + ": "@ + error
}

/// The names of the files that were removed, in order.
pub open spec fn removed_names(removals: Seq<RemovalView>) -> Seq<Seq<char>>
    decreases removals.len(),
{
    if removals.len() == 0 {
        Seq::empty()
    } else if removals.last().error is None {
        removed_names(removals.drop_last()).push(removals.last().file_name)
    } else {
        removed_names(removals.drop_last())
    }
}

/// The lines that report the files that could not be removed, in order.
pub open spec fn error_lines(removals: Seq<RemovalView>) -> Seq<Seq<char>>
    decreases removals.len(),
{
    if removals.len() == 0 {
        Seq::empty()
    } else if removals.last().error is Some {
        error_lines(removals.drop_last()).push(
            error_line(removals.last().file_name, removals.last().error->0),
        )
    } else {
        error_lines(removals.drop_last())
    }
}

/// What a repair reports after these removals.
pub open spec fn summary_of(removals: Seq<RemovalView>) -> RepairResultView {
    let errors = error_lines(removals);
    RepairResultView {
        success: errors.len() == 0,
        repaired_files: removed_names(removals),
        errors: errors,
        message: if errors.len() == 0 {
            "Game repaired successfully"@
        } else {
            "Game repaired with errors"@
        },
    }
}

/// What a repair reports for a package that is not installed.
pub open spec fn not_found_summary() -> RepairResultView {
    RepairResultView {
        success: false,
        repaired_files: Seq::empty(),
        errors: seq!["Game not found"@],
        message: "Game not found"@,
    }
}

/// Every removal is reported once: as a repaired file or as an error. The
/// repair succeeds exactly when every removal did.
pub proof fn lemma_every_removal_is_reported(removals: Seq<RemovalView>)
    ensures
        removed_names(removals).len() + error_lines(removals).len() == removals.len(),
        summary_of(removals).success <==> forall|i: int|
            0 <= i < removals.len() ==> (#[trigger] removals[i]).error is None,
    decreases removals.len(),
{
    if removals.len() > 0 {
        let rest = removals.drop_last();
        lemma_every_removal_is_reported(rest);
        if summary_of(removals).success {
            assert forall|i: int| 0 <= i < removals.len() implies (#[trigger] removals[i]).error is None by {
                if i < rest.len() {
                    assert(rest[i] == removals[i]);
                }
            }
        }
        if forall|i: int| 0 <= i < removals.len() ==> (#[trigger] removals[i]).error is None {
            assert forall|i: int| 0 <= i < rest.len() implies (#[trigger] rest[i]).error is None by {
                assert(rest[i] == removals[i]);
            }
            assert(removals[removals.len() - 1].error is None);
        }
    }
}

/// Picks the install of package `id` to repair, given the registry and
/// the directories below the games root.
pub fn choose_repair_target(registry: &Registry, entries: &Vec<DirectoryEntry>, id: &str) -> (target:
    RepairTarget)
    ensures
        is_repair_target(registry.records(), directory_views(entries@), id@, target@),
{
    match registry.get(id) {
        Some(record) => {
            return RepairTarget::Registered { install_dir: record.install_dir.clone() };
        },
        None => {},
    }
    let ghost list = directory_views(entries@);
    let ghost mut choice: Option<int> = None;
    let mut best: Option<usize> = None;
    let mut i: usize = 0;
    while i < entries.len()
        invariant
            i <= entries.len(),
            list == directory_views(entries@),
            is_latest_choice(list.take(i as int), id@, choice),
            match best {
                Some(at) => choice == Some(at as int) && at < i,
                None => choice is None,
            },
        decreases entries.len() - i,
    {
        proof {
            assert(list[i as int] == entries[i as int]@);
            lemma_latest_grows(list, id@, choice, i as int);
            choice = next_latest(list, id@, choice, i as int);
        }
        let named = is_install_dir_of(entries[i].name.as_str(), id);
        let later = match best {
            Some(at) => entries[i].modified > entries[at].modified,
            None => true,
        };
        if named && later {
            best = Some(i);
        }
        i += 1;
    }
    assert(list.take(entries.len() as int) =~= list);
    match best {
        Some(at) => RepairTarget::Listed { index: at },
        None => RepairTarget::Missing,
    }
}

/// Whether a repair removes a file of this name.
pub fn is_repair_artifact(file_name: &str) -> (artifact: bool)
    ensures
        artifact == is_artifact_name(file_name@),
{
    has_suffix(file_name, ".exe") || has_suffix(file_name, ".dll") || has_suffix(
        file_name,
        ".config",
    )
}

/// Picks, among the files at the top of an install directory, those that
/// a repair removes: their positions in `file_names`, in order.
pub fn select_artifacts(file_names: &Vec<String>) -> (picked: Vec<usize>)
    ensures
        is_artifact_selection(file_names.deep_view(), picked@),
{
    let ghost names = file_names.deep_view();
    let mut picked: Vec<usize> = Vec::new();
    let mut i: usize = 0;
    while i < file_names.len()
        invariant
            i <= file_names.len(),
            names == file_names.deep_view(),
            forall|k: int|
                0 <= k < picked.len() ==> (#[trigger] picked[k]) < i && is_artifact_name(
                    names[picked[k] as int],
                ),
            forall|a: int, b: int|
                0 <= a < b < picked.len() ==> (#[trigger] picked[a]) < (#[trigger] picked[b]),
            forall|j: usize| j < i && is_artifact_name(names[j as int]) ==> #[trigger] picked@.contains(j),
        decreases file_names.len() - i,
    {
        assert(names[i as int] == file_names[i as int]@);
        if is_repair_artifact(file_names[i].as_str()) {
            let ghost before = picked@;
            picked.push(i);
            proof {
                assert forall|j: usize| j < i + 1 && is_artifact_name(names[j as int]) implies #[trigger] picked@.contains(
                    j,
                ) by {
                    if j < i {
                        assert(before.contains(j));
                        let p = choose|p: int| 0 <= p < before.len() && before[p] == j;
                        assert(picked@[p] == j);
                    } else {
                        assert(picked@[before.len() as int] == j);
                    }
                }
            }
        }
        i += 1;
    }
    picked
}

/// What a repair reports after these removals.
pub fn summarize(removals: &Vec<Removal>) -> (result: RepairResult)
    ensures
        result@ == summary_of(removal_views(removals@)),
{
    let ghost all = removal_views(removals@);
    let mut repaired_files: Vec<String> = Vec::new();
    let mut errors: Vec<String> = Vec::new();
    let mut i: usize = 0;
    proof {
        assert(all.take(0) =~= Seq::<RemovalView>::empty());
        assert(repaired_files.deep_view() =~= removed_names(all.take(0)));
        assert(errors.deep_view() =~= error_lines(all.take(0)));
    }
    while i < removals.len()
        invariant
            i <= removals.len(),
            all == removal_views(removals@),
            repaired_files.deep_view() == removed_names(all.take(i as int)),
            errors.deep_view() == error_lines(all.take(i as int)),
        decreases removals.len() - i,
    {
        proof {
            assert(all.take(i + 1).drop_last() =~= all.take(i as int));
            assert(all.take(i + 1).last() == removals[i as int]@);
        }
        let ghost old_files = repaired_files.deep_view();
        let ghost old_errors = errors.deep_view();
        match &removals[i].error {
            Some(error) => {
                let mut line = String::from_str("Failed to remove ");
                line.append(removals[i].file_name.as_str());
                line.append(": ");
                line.append(error.as_str());
                errors.push(line);
                assert(errors.deep_view() =~= old_errors.push(
                    error_line(removals[i as int]@.file_name, error@),
                ));
            },
            None => {
                let name = removals[i].file_name.clone();
                repaired_files.push(name);
                assert(repaired_files.deep_view() =~= old_files.push(removals[i as int]@.file_name));
            },
        }
        i += 1;
    }
    proof {
        assert(all.take(removals.len() as int) =~= all);
    }
    let success = errors.len() == 0;
    let message = if success {
        String::from_str("Game repaired successfully")
    } else {
        String::from_str("Game repaired with errors")
    };
    RepairResult { success, repaired_files, errors, message }
}

/// What a repair reports for a package that is not installed.
pub fn not_found() -> (result: RepairResult)
    ensures
        result@ == not_found_summary(),
{
    let mut errors: Vec<String> = Vec::new();
    errors.push(String::from_str("Game not found"));
    let result = RepairResult {
        success: false,
        repaired_files: Vec::new(),
        errors,
        message: String::from_str("Game not found"),
    };
    proof {
        assert(result@.errors =~= not_found_summary().errors);
        assert(result@.repaired_files =~= not_found_summary().repaired_files);
    }
    result
}

} // verus!
