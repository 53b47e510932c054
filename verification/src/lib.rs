//! The core of a game launcher: what it takes to install, update, repair
//! and launch versioned packages that are distributed as zip archives.
//!
//! The library holds the decisions and leaves the work on disk and on the
//! network to its caller. [`pipeline`] sequences an install or an update,
//! [`progress`] reports a download, [`archive`] places the entries of an
//! archive safely, [`locator`] picks what launches a package, [`registry`]
//! records what is installed, [`backup`] names and prunes backups,
//! [`repair`] cleans an install, [`status`] tells what can be done with a
//! package, [`layout`] names the directories, and [`locks`] keeps two
//! operations off one package.

pub mod archive;
pub mod backup;
pub mod layout;
pub mod locator;
pub mod locks;
pub mod pipeline;
pub mod progress;
pub mod registry;
pub mod repair;
pub mod status;
pub mod text;
