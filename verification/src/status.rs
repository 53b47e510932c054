//! What a caller is told about a package: whether it is installed, can be
//! updated, or is only available. The install registry decides. Where it
//! holds no record of the package, a look at the install directories stands in.

use crate::layout::{is_install_dir_of, joined, names_install_of};
use crate::locator::{locate_executable, located, MarkerSet};
use crate::registry::{lookup, InstallRecordView, Registry};
use crate::text::same_text;
use vstd::prelude::*;
use vstd::string::*;

verus! {

/// What a caller is told about a package.
#[derive(Clone, Copy, Debug, PartialEq, Eq, Structural)]
pub enum PackageStatus {
    ComingSoon,
    Available,
    Installed,
    UpdateAvailable,
    /// A status of the catalogue's that is none of the others.
    Unknown,
}

/// A directory below the games root and the regular files below it, by
/// their paths relative to it, in the order in which it was walked.
#[derive(Debug)]
pub struct InstalledTree {
    pub name: String,
    pub files: Vec<String>,
}

/// A package as the catalogue lists it.
#[derive(Debug)]
pub struct Listing {
    pub package_id: String,
    /// The version that the catalogue offers.
    pub version: String,
    pub status: PackageStatus,
    pub executable_path: Option<String>,
}

/// What a look at the install directories found for a package.
#[derive(Debug)]
pub struct DirectoryFindings {
    /// A directory of the listed version exists.
    pub listed_version_present: bool,
    /// The launch target found in that directory.
    pub listed_version_executable: Option<String>,
    /// The launch target found in a directory of another version.
    pub other_version_executable: Option<String>,
}

/// A package's status and the path of what launches it.
#[derive(Debug)]
pub struct StatusReport {
    pub status: PackageStatus,
    pub executable_path: Option<String>,
}

/// The mathematical content of a [`Listing`].
pub struct ListingView {
    pub package_id: Seq<char>,
    pub version: Seq<char>,
    pub status: PackageStatus,
    pub executable_path: Option<Seq<char>>,
}

/// The mathematical content of [`DirectoryFindings`].
pub struct DirectoryFindingsView {
    pub listed_version_present: bool,
    pub listed_version_executable: Option<Seq<char>>,
    pub other_version_executable: Option<Seq<char>>,
}

/// The mathematical content of a [`StatusReport`].
pub struct StatusReportView {
    pub status: PackageStatus,
    pub executable_path: Option<Seq<char>>,
}

impl View for Listing {
    type V = ListingView;

    open spec fn view(&self) -> ListingView {
        ListingView {
            package_id: self.package_id@,
            version: self.version@,
            status: self.status,
            executable_path: crate::progress::text_of(self.executable_path),
        }
    }
}

impl View for DirectoryFindings {
    type V = DirectoryFindingsView;

    open spec fn view(&self) -> DirectoryFindingsView {
        DirectoryFindingsView {
            listed_version_present: self.listed_version_present,
            listed_version_executable: crate::progress::text_of(self.listed_version_executable),
            other_version_executable: crate::progress::text_of(self.other_version_executable),
        }
    }
}

impl View for StatusReport {
    type V = StatusReportView;

    open spec fn view(&self) -> StatusReportView {
        StatusReportView {
            status: self.status,
            executable_path: crate::progress::text_of(self.executable_path),
        }
    }
}

/// The name under which a status travels to callers.
pub open spec fn status_label(status: PackageStatus) -> Seq<char> {
    match status {
        PackageStatus::ComingSoon => "coming_soon"@,
        PackageStatus::Available => "available"@,
        PackageStatus::Installed => "installed"@,
        PackageStatus::UpdateAvailable => "update_available"@,
        PackageStatus::Unknown => "unknown"@,
    }
}

/// The status that travels under `label`, if it names one.
pub open spec fn status_named(label: Seq<char>) -> Option<PackageStatus> {
    if label == "coming_soon"@ {
        Some(PackageStatus::ComingSoon)
    } else if label == "available"@ {
        Some(PackageStatus::Available)
    } else if label == "installed"@ {
        Some(PackageStatus::Installed)
    } else if label == "update_available"@ {
        Some(PackageStatus::UpdateAvailable)
    } else if label == "unknown"@ {
        Some(PackageStatus::Unknown)
    } else {
        None
    }
}

/// A status is found again under its own label.
pub proof fn lemma_label_names_its_status(status: PackageStatus)
    ensures
        status_named(status_label(status)) == Some(status),
{
    reveal_strlit("coming_soon");
    reveal_strlit("available");
    reveal_strlit("installed");
    reveal_strlit("update_available");
    reveal_strlit("unknown");
    assert("unknown"@.len() == 7);
    assert("coming_soon"@.len() == 11);
    assert("available"@.len() == 9);
    assert("installed"@.len() == 9);
    assert("update_available"@.len() == 16);
    assert("available"@[0] == 'a');
    assert("installed"@[0] == 'i');
}

impl PackageStatus {
    /// The name under which this status travels to callers.
    pub fn label(&self) -> (name: &'static str)
        ensures
            name@ == status_label(*self),
    {
        match self {
            PackageStatus::ComingSoon => "coming_soon",
            PackageStatus::Available => "available",
            PackageStatus::Installed => "installed",
            PackageStatus::UpdateAvailable => "update_available",
            PackageStatus::Unknown => "unknown",
        }
    }

    /// The status that travels under `label`, if it names one.
    pub fn from_label(label: &str) -> (status: Option<PackageStatus>)
        ensures
            status == status_named(label@),
    {
        if same_text(label, "coming_soon") {
            Some(PackageStatus::ComingSoon)
        } else if same_text(label, "available") {
            Some(PackageStatus::Available)
        } else if same_text(label, "installed") {
            Some(PackageStatus::Installed)
        } else if same_text(label, "update_available") {
            Some(PackageStatus::UpdateAvailable)
        } else if same_text(label, "unknown") {
            Some(PackageStatus::Unknown)
        } else {
            None
        }
    }
}

/// An update is due when the installed version is not the listed one.
pub open spec fn update_due(installed: Seq<char>, listed: Seq<char>) -> bool {
    installed != listed
}

/// The status that the registry's record of a package gives it.
pub open spec fn status_from_record(record: InstallRecordView, listing: ListingView) -> StatusReportView {
    StatusReportView {
        status: if update_due(record.version, listing.version) {
            PackageStatus::UpdateAvailable
        } else {
            PackageStatus::Installed
        },
        executable_path: Some(joined(record.install_dir, record.executable_rel_path)),
    }
}

/// The status of a package that the registry does not know, from what the
/// install directories show.
pub open spec fn status_from_directories(
    listing: ListingView,
    findings: DirectoryFindingsView,
) -> StatusReportView {
    if findings.listed_version_present {
        match findings.listed_version_executable {
            Some(path) => StatusReportView {
                status: PackageStatus::Installed,
                executable_path: Some(path),
            },
            None => StatusReportView {
                status: listing.status,
                executable_path: listing.executable_path,
            },
        }
    } else {
        match findings.other_version_executable {
            Some(path) => StatusReportView {
                status: PackageStatus::UpdateAvailable,
                executable_path: Some(path),
            },
            None => StatusReportView { status: PackageStatus::Available, executable_path: None },
        }
    }
}

/// The status of a listed package.
pub open spec fn status_of(
    records: Seq<InstallRecordView>,
    listing: ListingView,
    findings: DirectoryFindingsView,
) -> StatusReportView {
    if listing.status == PackageStatus::ComingSoon {
        StatusReportView { status: listing.status, executable_path: listing.executable_path }
    } else {
        match lookup(records, listing.package_id) {
            Some(record) => status_from_record(record, listing),
            None => status_from_directories(listing, findings),
        }
    }
}

/// Where the registry holds a record of a package that is not merely
/// announced, the directories have no say in its status.
pub proof fn lemma_registry_decides(
    records: Seq<InstallRecordView>,
    listing: ListingView,
    first: DirectoryFindingsView,
    second: DirectoryFindingsView,
)
    requires
        lookup(records, listing.package_id) is Some,
    ensures
        status_of(records, listing, first) == status_of(records, listing, second),
        listing.status != PackageStatus::ComingSoon ==> status_of(records, listing, first).status == (
        if lookup(records, listing.package_id)->0.version == listing.version {
            PackageStatus::Installed
        } else {
            PackageStatus::UpdateAvailable
        }),
{
}

fn copy_of(text: &Option<String>) -> (copy: Option<String>)
    ensures
        crate::progress::text_of(copy) == crate::progress::text_of(*text),
{
    match text {
        Some(t) => Some(t.clone()),
        None => None,
    }
}

/// Finds the first directory that holds an install of package `id` with a
/// launch target in it: the position of the directory among `trees`, and
/// that of the launch target among its files.
pub fn first_install_with_executable(
    trees: &Vec<InstalledTree>,
    id: &str,
    markers: &MarkerSet,
) -> (found: Option<(usize, usize)>)
    ensures
        match found {
            Some((d, f)) => d < trees.len() && names_install_of(trees[d as int].name@, id@)
                && located(trees[d as int].files.deep_view(), markers@) == Some(f as int)
                && forall|e: int|
                0 <= e < d && names_install_of((#[trigger] trees[e]).name@, id@) ==> located(
                    trees[e].files.deep_view(),
                    markers@,
                ) is None,
            None => forall|e: int|
                0 <= e < trees.len() && names_install_of((#[trigger] trees[e]).name@, id@)
                    ==> located(trees[e].files.deep_view(), markers@) is None,
        },
{
    let mut d: usize = 0;
    while d < trees.len()
        invariant
            d <= trees.len(),
            forall|e: int|
                0 <= e < d && names_install_of((#[trigger] trees[e]).name@, id@) ==> located(
                    trees[e].files.deep_view(),
                    markers@,
                ) is None,
        decreases trees.len() - d,
    {
        if is_install_dir_of(trees[d].name.as_str(), id) {
            match locate_executable(&trees[d].files, markers) {
                Some(f) => {
                    return Some((d, f));
                },
                None => {},
            }
        }
        d += 1;
    }
    None
}

/// Whether an update is due for an install of version `installed` when
/// the catalogue lists version `listed`.
pub fn needs_update(installed: &str, listed: &str) -> (due: bool)
    ensures
        due == update_due(installed@, listed@),
{
    !same_text(installed, listed)
}

/// The status of a listed package and the path of what launches it.
pub fn report_status(registry: &Registry, listing: &Listing, findings: &DirectoryFindings) -> (report:
    StatusReport)
    ensures
        report@ == status_of(registry.records(), listing@, findings@),
{
    if listing.status == PackageStatus::ComingSoon {
        return StatusReport {
            status: listing.status,
            executable_path: copy_of(&listing.executable_path),
        };
    }
    match registry.get(listing.package_id.as_str()) {
        Some(record) => {
            let status = if needs_update(record.version.as_str(), listing.version.as_str()) {
                PackageStatus::UpdateAvailable
            } else {
                PackageStatus::Installed
            };
            let path = crate::layout::join(
                record.install_dir.as_str(),
                record.executable_rel_path.as_str(),
            );
            StatusReport { status, executable_path: Some(path) }
        },
        None => {
            if findings.listed_version_present {
                match &findings.listed_version_executable {
                    Some(path) => StatusReport {
                        status: PackageStatus::Installed,
                        executable_path: Some(path.clone()),
                    },
                    None => StatusReport {
                        status: listing.status,
                        executable_path: copy_of(&listing.executable_path),
                    },
                }
            } else {
                match &findings.other_version_executable {
                    Some(path) => StatusReport {
                        status: PackageStatus::UpdateAvailable,
                        executable_path: Some(path.clone()),
                    },
                    None => StatusReport { status: PackageStatus::Available, executable_path: None },
                }
            }
        },
    }
}

} // verus!
