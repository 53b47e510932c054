//! Where things live on disk. Paths are written with `/`. Below the
//! launcher's directory, `games/<id>` or `games/<id>.v<version>` holds an
//! install and `games/backups/<id>/backup_<timestamp>` a backup of one.

use crate::backup::{backup_dir_name, backup_name, fresh_backup_dir_name, RETAINED_BACKUPS};
use crate::pipeline::{
    InstallRequest, InstallRequestView, PreviousInstall, PreviousInstallView, UpdatePlan,
    UpdatePlanView,
};
use crate::text::{has_prefix, same_text};
use vstd::prelude::*;
use vstd::string::*;

verus! {

/// How the installs of a package are laid out.
#[derive(Clone, Copy, Debug, PartialEq, Eq, Structural)]
pub enum DirectoryLayout {
    /// One directory per package, named by its id: a new version replaces the old.
    SingleVersion,
    /// One directory per package and version, so that versions can coexist.
    MultiVersion,
}

/// The path of `name` below `base`.
pub open spec fn joined(base: Seq<char>, name: Seq<char>) -> Seq<char> {
    base + "/"@ + name
}

/// The directory below the launcher's own that holds all installs.
pub open spec fn games_root(launcher_dir: Seq<char>) -> Seq<char> {
    joined(launcher_dir, "games"@)
}

/// The name of the directory that holds version `version` of package `id`.
pub open spec fn install_dir_name_of(
    layout: DirectoryLayout,
    id: Seq<char>,
    version: Seq<char>,
) -> Seq<char> {
    match layout {
        DirectoryLayout::SingleVersion => id,
        DirectoryLayout::MultiVersion => id + ".v"@ + version,
    }
}

/// A directory of this name holds an install of package `id`: it is named
/// by the id alone, or by the id, `.v` and a version. A directory that is
/// named after another package whose id begins alike is none.
pub open spec fn names_install_of(dir_name: Seq<char>, id: Seq<char>) -> bool {
    dir_name == id || (id + ".v"@).is_prefix_of(dir_name)
}

/// Whatever the layout and the version, the directory that an install of
/// a package goes to is known again as an install of that package.
pub proof fn lemma_install_dir_is_known(layout: DirectoryLayout, id: Seq<char>, version: Seq<char>)
    ensures
        names_install_of(install_dir_name_of(layout, id, version), id),
{
    let name = install_dir_name_of(layout, id, version);
    match layout {
        DirectoryLayout::SingleVersion => {},
        DirectoryLayout::MultiVersion => {
            assert(name.subrange(0, (id + ".v"@).len() as int) =~= id + ".v"@);
        },
    }
}

/// The version that is installed where none is named.
pub open spec fn version_or_default(version: Option<Seq<char>>) -> Seq<char> {
    match version {
        Some(v) => v,
        None => "0.01"@,
    }
}

/// The display name of a download source where none is given.
pub open spec fn source_or_default(source_name: Option<Seq<char>>) -> Seq<char> {
    match source_name {
        Some(s) => s,
        None => "Unknown"@,
    }
}

/// The directory that holds version `version` of package `id`.
pub open spec fn install_dir_of(
    layout: DirectoryLayout,
    base_dir: Seq<char>,
    id: Seq<char>,
    version: Seq<char>,
) -> Seq<char> {
    joined(base_dir, install_dir_name_of(layout, id, version))
}

/// The file that receives the archive of an install into `install_dir`.
pub open spec fn archive_path_of(install_dir: Seq<char>) -> Seq<char> {
    joined(install_dir, "download.zip"@)
}

/// The directory that holds the backups of package `id`.
pub open spec fn backup_root_of(base_dir: Seq<char>, id: Seq<char>) -> Seq<char> {
    joined(joined(base_dir, "backups"@), id)
}

/// The request that installs `version` of package `id` below `base_dir`.
pub open spec fn install_request_of(
    layout: DirectoryLayout,
    base_dir: Seq<char>,
    id: Seq<char>,
    version: Option<Seq<char>>,
    download_url: Seq<char>,
    source_name: Option<Seq<char>>,
) -> InstallRequestView {
    let version = version_or_default(version);
    let install_dir = install_dir_of(layout, base_dir, id, version);
    InstallRequestView {
        package_id: id,
        version: version,
        download_url: download_url,
        source_name: source_or_default(source_name),
        install_dir: install_dir,
        archive_path: archive_path_of(install_dir),
        update: None,
    }
}

/// The request that updates package `id` to `version`, with a backup of
/// the install of `current_version` in a directory named `backup`.
pub open spec fn update_request_of(
    layout: DirectoryLayout,
    base_dir: Seq<char>,
    id: Seq<char>,
    version: Option<Seq<char>>,
    download_url: Seq<char>,
    current_version: Option<Seq<char>>,
    backup: Seq<char>,
) -> InstallRequestView {
    let version = version_or_default(version);
    let install_dir = install_dir_of(layout, base_dir, id, version);
    let backup_root = backup_root_of(base_dir, id);
    InstallRequestView {
        package_id: id,
        version: version,
        download_url: download_url,
        source_name: "Update"@,
        install_dir: install_dir,
        archive_path: archive_path_of(install_dir),
        update: Some(
            UpdatePlanView {
                backup_root: backup_root,
                keep: RETAINED_BACKUPS,
                previous: match current_version {
                    Some(current) => Some(
                        PreviousInstallView {
                            install_dir: install_dir_of(layout, base_dir, id, current),
                            backup_dir: joined(backup_root, backup),
                        },
                    ),
                    None => None,
                },
            },
        ),
    }
}

/// The path of `name` below `base`.
pub fn join(base: &str, name: &str) -> (path: String)
    ensures
        path@ == joined(base@, name@),
{
    let mut path = String::from_str(base);
    path.append("/");
    path.append(name);
    path
}

/// The directory below the launcher's own that holds all installs.
pub fn games_dir(launcher_dir: &str) -> (path: String)
    ensures
        path@ == games_root(launcher_dir@),
{
    join(launcher_dir, "games")
}

/// The name of the directory that holds version `version` of package `id`.
pub fn install_dir_name(layout: DirectoryLayout, id: &str, version: &str) -> (name: String)
    ensures
        name@ == install_dir_name_of(layout, id@, version@),
{
    let mut name = String::from_str(id);
    match layout {
        DirectoryLayout::SingleVersion => {},
        DirectoryLayout::MultiVersion => {
            name.append(".v");
            name.append(version);
        },
    }
    name
}

/// Whether a directory of this name holds an install of package `id`.
pub fn is_install_dir_of(dir_name: &str, id: &str) -> (named: bool)
    ensures
        named == names_install_of(dir_name@, id@),
{
    if same_text(dir_name, id) {
        return true;
    }
    let mut versioned = String::from_str(id);
    versioned.append(".v");
    has_prefix(dir_name, versioned.as_str())
}

/// The directory that holds the backups of package `id`.
pub fn backup_root(base_dir: &str, id: &str) -> (path: String)
    ensures
        path@ == backup_root_of(base_dir@, id@),
{
    let backups = join(base_dir, "backups");
    join(backups.as_str(), id)
}

fn version_or(version: Option<String>) -> (chosen: String)
    ensures
        chosen@ == version_or_default(crate::progress::text_of(version)),
{
    match version {
        Some(v) => v,
        None => String::from_str("0.01"),
    }
}

/// The request that installs `version` of package `id` below `base_dir`,
/// into a directory of its own.
pub fn install_request(
    layout: DirectoryLayout,
    base_dir: &str,
    package_id: String,
    version: Option<String>,
    download_url: String,
    source_name: Option<String>,
) -> (request: InstallRequest)
    ensures
        request@ == install_request_of(
            layout,
            base_dir@,
            package_id@,
            crate::progress::text_of(version),
            download_url@,
            crate::progress::text_of(source_name),
        ),
{
    let version = version_or(version);
    let name = install_dir_name(layout, package_id.as_str(), version.as_str());
    let install_dir = join(base_dir, name.as_str());
    let archive_path = join(install_dir.as_str(), "download.zip");
    let source_name = match source_name {
        Some(s) => s,
        None => String::from_str("Unknown"),
    };
    InstallRequest {
        package_id,
        version,
        download_url,
        source_name,
        install_dir,
        archive_path,
        update: None,
    }
}

/// The request that updates package `id` to `version`. Where a current
/// version is named, its install is backed up into a directory named
/// after `timestamp`.
pub fn update_request(
    layout: DirectoryLayout,
    base_dir: &str,
    package_id: String,
    version: Option<String>,
    download_url: String,
    current_version: Option<String>,
    timestamp: i64,
) -> (request: InstallRequest)
    ensures
        request@ == update_request_of(
            layout,
            base_dir@,
            package_id@,
            crate::progress::text_of(version),
            download_url@,
            crate::progress::text_of(current_version),
            backup_name(timestamp as int),
        ),
{
    update_request_into(
        layout,
        base_dir,
        package_id,
        version,
        download_url,
        current_version,
        backup_dir_name(timestamp),
    )
}

/// The request that updates package `id` to `version`, with the backup
/// directory named after the present time.
pub fn update_request_now(
    layout: DirectoryLayout,
    base_dir: &str,
    package_id: String,
    version: Option<String>,
    download_url: String,
    current_version: Option<String>,
) -> (request: InstallRequest)
    ensures
        exists|timestamp: i64|
            request@ == update_request_of(
                layout,
                base_dir@,
                package_id@,
                crate::progress::text_of(version),
                download_url@,
                crate::progress::text_of(current_version),
                #[trigger] backup_name(timestamp as int),
            ),
{
    update_request_into(
        layout,
        base_dir,
        package_id,
        version,
        download_url,
        current_version,
        fresh_backup_dir_name(),
    )
}

fn update_request_into(
    layout: DirectoryLayout,
    base_dir: &str,
    package_id: String,
    version: Option<String>,
    download_url: String,
    current_version: Option<String>,
    backup: String,
) -> (request: InstallRequest)
    ensures
        request@ == update_request_of(
            layout,
            base_dir@,
            package_id@,
            crate::progress::text_of(version),
            download_url@,
            crate::progress::text_of(current_version),
            backup@,
        ),
{
    let version = version_or(version);
    let name = install_dir_name(layout, package_id.as_str(), version.as_str());
    let install_dir = join(base_dir, name.as_str());
    let archive_path = join(install_dir.as_str(), "download.zip");
    let root = backup_root(base_dir, package_id.as_str());
    let previous = match current_version {
        Some(current) => {
            let current_name = install_dir_name(layout, package_id.as_str(), current.as_str());
            Some(
                PreviousInstall {
                    install_dir: join(base_dir, current_name.as_str()),
                    backup_dir: join(root.as_str(), backup.as_str()),
                },
            )
        },
        None => None,
    };
    InstallRequest {
        package_id,
        version,
        download_url,
        source_name: String::from_str("Update"),
        install_dir,
        archive_path,
        update: Some(UpdatePlan { backup_root: root, keep: RETAINED_BACKUPS, previous }),
    }
}

} // verus!
