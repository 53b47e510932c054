//! The install and update pipeline as a state machine. The machine decides;
//! its caller performs each action it is handed (copying, downloading,
//! unpacking, writing the registry) and reports back how the action went.
//!
//! An install runs `Idle → Preparing → Downloading → Extracting → Locating →
//! Registering → Completed`; an update backs the previous install up first
//! and prunes old backups at the end. Any failure leads to `Error`.
//!
//! A failed update is not rolled back: the backup that was made stays where
//! it is, for the caller to restore or to leave.
//!
//! The decisions are the machine's own. It judges the server's answer and
//! throttles the progress events of the download. It plans the extraction
//! from the names of the archive's entries, so that an archive with a
//! refused entry is never unpacked. It picks the launch target among the
//! files of the unpacked tree. And it picks the backups that an update
//! deletes at its end.

use crate::backup::{
    backups_to_remove, entry_views, names_to_remove, BackupEntry, BackupEntryView,
};
use crate::archive::{
    extract_error_message, plan_extraction, plan_of, step_views, ExtractStep, ExtractStepView,
};
use crate::locator::{locate_executable, located, MarkerSet, MarkerSetView};
use crate::progress::{
    after_chunk, event_after_chunk, opened, DownloadSession, DownloadSessionView, ProgressEvent,
    ProgressEventView, ProgressStatus,
};
use crate::registry::{InstallRecord, InstallRecordView};
use crate::text::{decimal, decimal_string};
use vstd::prelude::*;
use vstd::string::*;

verus! {

/// Where an operation stands.
#[derive(Clone, Copy, Debug, PartialEq, Eq, Structural)]
pub enum Phase {
    Idle,
    BackingUp,
    Preparing,
    Downloading,
    Extracting,
    Locating,
    Registering,
    Completed,
    Error,
}

/// The previous install of a package that is being updated.
#[derive(Debug)]
pub struct PreviousInstall {
    /// The directory of the installed version.
    pub install_dir: String,
    /// The fresh directory that receives its copy.
    pub backup_dir: String,
}

/// What an update does beyond an install.
#[derive(Debug)]
pub struct UpdatePlan {
    /// The directory that holds the package's backups.
    pub backup_root: String,
    /// How many backups survive the update.
    pub keep: usize,
    /// The install to back up, where a previous version is known.
    pub previous: Option<PreviousInstall>,
}

/// One install or update of one package.
#[derive(Debug)]
pub struct InstallRequest {
    pub package_id: String,
    pub version: String,
    pub download_url: String,
    /// The display name of the download source.
    pub source_name: String,
    /// The directory that receives the package.
    pub install_dir: String,
    /// The file that receives the downloaded archive.
    pub archive_path: String,
    /// Present when the operation is an update.
    pub update: Option<UpdatePlan>,
}

/// What the caller reports to the machine.
#[derive(Debug)]
pub enum Signal {
    /// The operation is to begin.
    Start,
    /// The last action succeeded.
    Done,
    /// The server has answered: the status of its response, the length of
    /// the body where it announced one, and the time on the caller's clock.
    Responded { status: u16, total: Option<u64>, now_ms: u64 },
    /// A chunk of `len` bytes of the body was written to the archive file.
    Chunk { len: u64, now_ms: u64 },
    /// The body has ended.
    BodyEnded,
    /// The archive was opened: the names of its entries, in its order.
    Entries { names: Vec<String> },
    /// The install tree was walked: its regular files, by their paths
    /// relative to the install directory, in the order of the walk.
    Walked { files: Vec<String> },
    /// The backup root was listed: the backups that it holds.
    Backups { entries: Vec<BackupEntry> },
    /// The last action failed.
    Failed { message: String },
}

/// What the caller is to do next.
#[derive(Debug)]
pub enum Action {
    /// If `source_dir` exists, copy it with all it holds into the new directory `backup_dir`.
    BackUp { source_dir: String, backup_dir: String },
    /// Delete `install_dir` with all it holds if it exists, then create it empty.
    Prepare { install_dir: String },
    /// Request `url`, and create the file `archive_path` once the server
    /// has answered with success.
    Download { url: String, archive_path: String },
    /// Read the next chunk of the body and append it to the archive file.
    ReadChunk,
    /// Open the archive and read the names of its entries.
    ListArchive { archive_path: String },
    /// Perform `steps` one after another; the step at position `i` is for
    /// the archive's entry `i`, and paths are relative to `install_dir`.
    Unpack { archive_path: String, install_dir: String, steps: Vec<ExtractStep> },
    /// Walk `install_dir` and list its regular files.
    Walk { install_dir: String },
    /// Write `record` into the install registry.
    Register { record: InstallRecord },
    /// List the backups below `backup_root`, each with the time of its
    /// creation; none if the directory does not exist.
    ListBackups { backup_root: String },
    /// Delete the backups of these names below `backup_root`, in this order.
    RemoveBackups { backup_root: String, names: Vec<String> },
    /// The operation is over: the install directory, or the failure's message.
    Finish { result: Result<String, String> },
}

/// The machine's answer to a signal: the events to emit, in order, and the next action.
#[derive(Debug)]
pub struct Reaction {
    pub events: Vec<ProgressEvent>,
    pub action: Action,
}

/// The mathematical content of a [`PreviousInstall`].
pub struct PreviousInstallView {
    pub install_dir: Seq<char>,
    pub backup_dir: Seq<char>,
}

/// The mathematical content of an [`UpdatePlan`].
pub struct UpdatePlanView {
    pub backup_root: Seq<char>,
    pub keep: usize,
    pub previous: Option<PreviousInstallView>,
}

/// The mathematical content of an [`InstallRequest`].
pub struct InstallRequestView {
    pub package_id: Seq<char>,
    pub version: Seq<char>,
    pub download_url: Seq<char>,
    pub source_name: Seq<char>,
    pub install_dir: Seq<char>,
    pub archive_path: Seq<char>,
    pub update: Option<UpdatePlanView>,
}

/// The mathematical content of a [`Signal`].
pub enum SignalView {
    Start,
    Done,
    Responded { status: u16, total: Option<u64>, now_ms: u64 },
    Chunk { len: u64, now_ms: u64 },
    BodyEnded,
    Entries { names: Seq<Seq<char>> },
    Walked { files: Seq<Seq<char>> },
    Backups { entries: Seq<BackupEntryView> },
    Failed { message: Seq<char> },
}

/// The mathematical content of an [`Action`].
pub enum ActionView {
    BackUp { source_dir: Seq<char>, backup_dir: Seq<char> },
    Prepare { install_dir: Seq<char> },
    Download { url: Seq<char>, archive_path: Seq<char> },
    ReadChunk,
    ListArchive { archive_path: Seq<char> },
    Unpack { archive_path: Seq<char>, install_dir: Seq<char>, steps: Seq<ExtractStepView> },
    Walk { install_dir: Seq<char> },
    Register { record: InstallRecordView },
    ListBackups { backup_root: Seq<char> },
    RemoveBackups { backup_root: Seq<char>, names: Seq<Seq<char>> },
    Finish { result: Result<Seq<char>, Seq<char>> },
}

/// The mathematical content of a [`Reaction`].
pub struct ReactionView {
    pub events: Seq<ProgressEventView>,
    pub action: ActionView,
}

impl View for PreviousInstall {
    type V = PreviousInstallView;

    open spec fn view(&self) -> PreviousInstallView {
        PreviousInstallView { install_dir: self.install_dir@, backup_dir: self.backup_dir@ }
    }
}

impl View for UpdatePlan {
    type V = UpdatePlanView;

    open spec fn view(&self) -> UpdatePlanView {
        UpdatePlanView {
            backup_root: self.backup_root@,
            keep: self.keep,
            previous: match self.previous {
                Some(p) => Some(p@),
                None => None,
            },
        }
    }
}

impl View for InstallRequest {
    type V = InstallRequestView;

    open spec fn view(&self) -> InstallRequestView {
        InstallRequestView {
            package_id: self.package_id@,
            version: self.version@,
            download_url: self.download_url@,
            source_name: self.source_name@,
            install_dir: self.install_dir@,
            archive_path: self.archive_path@,
            update: match self.update {
                Some(u) => Some(u@),
                None => None,
            },
        }
    }
}

impl View for Signal {
    type V = SignalView;

    open spec fn view(&self) -> SignalView {
        match self {
            Signal::Start => SignalView::Start,
            Signal::Done => SignalView::Done,
            Signal::Responded { status, total, now_ms } => SignalView::Responded {
                status: *status,
                total: *total,
                now_ms: *now_ms,
            },
            Signal::Chunk { len, now_ms } => SignalView::Chunk { len: *len, now_ms: *now_ms },
            Signal::BodyEnded => SignalView::BodyEnded,
            Signal::Entries { names } => SignalView::Entries { names: names.deep_view() },
            Signal::Walked { files } => SignalView::Walked { files: files.deep_view() },
            Signal::Backups { entries } => SignalView::Backups { entries: entry_views(entries@) },
            Signal::Failed { message } => SignalView::Failed { message: message@ },
        }
    }
}

/// The characters of a result's install directory or message.
pub open spec fn result_text(result: Result<String, String>) -> Result<Seq<char>, Seq<char>> {
    match result {
        Ok(dir) => Ok(dir@),
        Err(message) => Err(message@),
    }
}

impl View for Action {
    type V = ActionView;

    open spec fn view(&self) -> ActionView {
        match self {
            Action::BackUp { source_dir, backup_dir } => ActionView::BackUp {
                source_dir: source_dir@,
                backup_dir: backup_dir@,
            },
            Action::Prepare { install_dir } => ActionView::Prepare { install_dir: install_dir@ },
            Action::Download { url, archive_path } => ActionView::Download {
                url: url@,
                archive_path: archive_path@,
            },
            Action::ReadChunk => ActionView::ReadChunk,
            Action::ListArchive { archive_path } => ActionView::ListArchive {
                archive_path: archive_path@,
            },
            Action::Unpack { archive_path, install_dir, steps } => ActionView::Unpack {
                archive_path: archive_path@,
                install_dir: install_dir@,
                steps: step_views(steps@),
            },
            Action::Walk { install_dir } => ActionView::Walk { install_dir: install_dir@ },
            Action::Register { record } => ActionView::Register { record: record@ },
            Action::ListBackups { backup_root } => ActionView::ListBackups {
                backup_root: backup_root@,
            },
            Action::RemoveBackups { backup_root, names } => ActionView::RemoveBackups {
                backup_root: backup_root@,
                names: names.deep_view(),
            },
            Action::Finish { result } => ActionView::Finish { result: result_text(*result) },
        }
    }
}

/// The views of a list of events, one by one.
pub open spec fn event_views(events: Seq<ProgressEvent>) -> Seq<ProgressEventView> {
    events.map_values(|e: ProgressEvent| e@)
}

impl View for Reaction {
    type V = ReactionView;

    open spec fn view(&self) -> ReactionView {
        ReactionView { events: event_views(self.events@), action: self.action@ }
    }
}

/// The state of an operation.
pub struct Installer {
    request: InstallRequest,
    markers: MarkerSet,
    phase: Phase,
    session: Option<DownloadSession>,
    unpacking: bool,
    downloaded: u64,
    total: Option<u64>,
    executable: Option<String>,
    result: Option<Result<String, String>>,
    awaiting_prune: bool,
    removing: bool,
}

/// The mathematical content of an [`Installer`].
pub struct InstallerView {
    pub request: InstallRequestView,
    /// The markers by which the launch target is picked.
    pub markers: MarkerSetView,
    pub phase: Phase,
    /// The download that is under way.
    pub session: Option<DownloadSessionView>,
    /// The extraction has been planned and is being performed.
    pub unpacking: bool,
    /// Bytes that the download delivered.
    pub downloaded: u64,
    /// The size that the server announced.
    pub total: Option<u64>,
    /// The launch target, relative to the install directory.
    pub executable: Option<Seq<char>>,
    /// How the operation ended, once it has.
    pub result: Option<Result<Seq<char>, Seq<char>>>,
    /// The operation has ended and its backups are being listed.
    pub awaiting_prune: bool,
    /// The operation has ended and its oldest backups are being deleted.
    pub removing: bool,
}

impl View for Installer {
    type V = InstallerView;

    closed spec fn view(&self) -> InstallerView {
        InstallerView {
            request: self.request@,
            markers: self.markers@,
            phase: self.phase,
            session: match self.session {
                Some(session) => Some(session@),
                None => None,
            },
            unpacking: self.unpacking,
            downloaded: self.downloaded,
            total: self.total,
            executable: match self.executable {
                Some(e) => Some(e@),
                None => None,
            },
            result: match self.result {
                Some(r) => Some(result_text(r)),
                None => None,
            },
            awaiting_prune: self.awaiting_prune,
            removing: self.removing,
        }
    }
}

/// `Completed` and `Error` end an operation.
pub open spec fn is_terminal(phase: Phase) -> bool {
    phase == Phase::Completed || phase == Phase::Error
}

/// The place of a phase in the order in which an operation passes through them.
pub open spec fn rank(phase: Phase) -> nat {
    match phase {
        Phase::Idle => 0,
        Phase::BackingUp => 1,
        Phase::Preparing => 2,
        Phase::Downloading => 3,
        Phase::Extracting => 4,
        Phase::Locating => 5,
        Phase::Registering => 6,
        Phase::Completed => 7,
        Phase::Error => 7,
    }
}

/// The state before the operation has begun.
pub open spec fn initial(request: InstallRequestView, markers: MarkerSetView) -> InstallerView {
    InstallerView {
        request: request,
        markers: markers,
        phase: Phase::Idle,
        session: None,
        unpacking: false,
        downloaded: 0,
        total: None,
        executable: None,
        result: None,
        awaiting_prune: false,
        removing: false,
    }
}

/// The message of a download that was answered with status `code`.
pub open spec fn http_error_message(code: u16, source_name: Seq<char>) -> Seq<char> {
    "HTTP error "@ + decimal(code as nat) + " from "@ + source_name
}

/// A status from 200 to 299 answers a request with success.
pub open spec fn is_success_status(status: u16) -> bool {
    200 <= status < 300
}

/// The message of a body that is longer than can be counted.
pub open spec fn too_large_message() -> Seq<char> {
    "Download is too large"@
}

/// The message of an install tree without a launch target.
pub open spec fn no_executable_message(install_dir: Seq<char>) -> Seq<char> {
    "No executable found in "@ + install_dir
}

/// The message for a signal that does not answer the action that is under way.
pub open spec fn unexpected_signal_message() -> Seq<char> {
    "Unexpected signal for the current phase"@
}

/// The launch target's full path.
pub open spec fn executable_path(install_dir: Seq<char>, relative: Seq<char>) -> Seq<char> {
    crate::layout::joined(install_dir, relative)
}

/// The event that announces the start of the download.
pub open spec fn started_event(request: InstallRequestView) -> ProgressEventView {
    ProgressEventView {
        package_id: request.package_id,
        source_name: request.source_name,
        status: ProgressStatus::Started,
        percent: Some(0u64),
        downloaded_bytes: 0,
        total_bytes: None,
        bytes_per_second: 0,
        message: None,
        install_dir: None,
        executable_path: None,
    }
}

/// The event that ends a failed operation.
pub open spec fn error_event(request: InstallRequestView, message: Seq<char>) -> ProgressEventView {
    ProgressEventView {
        package_id: request.package_id,
        source_name: request.source_name,
        status: ProgressStatus::Error,
        percent: Some(0u64),
        downloaded_bytes: 0,
        total_bytes: None,
        bytes_per_second: 0,
        message: Some(message),
        install_dir: None,
        executable_path: None,
    }
}

/// The event that marks the end of the download and the start of unpacking.
pub open spec fn extracting_event(
    request: InstallRequestView,
    downloaded: u64,
    total: Option<u64>,
) -> ProgressEventView {
    ProgressEventView {
        package_id: request.package_id,
        source_name: request.source_name,
        status: ProgressStatus::Extracting,
        percent: Some(100u64),
        downloaded_bytes: downloaded,
        total_bytes: total,
        bytes_per_second: 0,
        message: None,
        install_dir: Some(request.install_dir),
        executable_path: None,
    }
}

/// The event that ends a successful operation.
pub open spec fn completed_event(
    request: InstallRequestView,
    downloaded: u64,
    total: Option<u64>,
    executable: Seq<char>,
) -> ProgressEventView {
    ProgressEventView {
        package_id: request.package_id,
        source_name: request.source_name,
        status: ProgressStatus::Completed,
        percent: Some(100u64),
        downloaded_bytes: downloaded,
        total_bytes: total,
        bytes_per_second: 0,
        message: None,
        install_dir: Some(request.install_dir),
        executable_path: Some(executable_path(request.install_dir, executable)),
    }
}

/// The registry record of a finished install.
pub open spec fn record_of(request: InstallRequestView, executable: Seq<char>) -> InstallRecordView {
    InstallRecordView {
        package_id: request.package_id,
        version: request.version,
        install_dir: request.install_dir,
        executable_rel_path: executable,
    }
}

/// Backups are pruned at the end of an update that got as far as preparing
/// the install directory.
pub open spec fn prunes_at_end(s: InstallerView) -> bool {
    s.request.update is Some && s.phase != Phase::Idle && s.phase != Phase::BackingUp
}

/// The action that ends an operation with `result`: pruning first where it is due.
pub open spec fn closing_action(
    s: InstallerView,
    result: Result<Seq<char>, Seq<char>>,
) -> ActionView {
    if prunes_at_end(s) {
        ActionView::ListBackups { backup_root: s.request.update->0.backup_root }
    } else {
        ActionView::Finish { result: result }
    }
}

/// The operation fails with `message`.
pub open spec fn fail(s: InstallerView, message: Seq<char>) -> (InstallerView, ReactionView) {
    (
        InstallerView {
            phase: Phase::Error,
            session: None,
            unpacking: false,
            result: Some(Err(message)),
            awaiting_prune: prunes_at_end(s),
            ..s
        },
        ReactionView {
            events: seq![error_event(s.request, message)],
            action: closing_action(s, Err(message)),
        },
    )
}

/// The machine moves to `phase` and asks for `action`, with `events` to emit.
pub open spec fn proceed(
    s: InstallerView,
    phase: Phase,
    events: Seq<ProgressEventView>,
    action: ActionView,
) -> (InstallerView, ReactionView) {
    (InstallerView { phase: phase, ..s }, ReactionView { events: events, action: action })
}

/// The operation is over for good, with `result`.
pub open spec fn finish(s: InstallerView, result: Result<Seq<char>, Seq<char>>) -> (
    InstallerView,
    ReactionView,
) {
    (
        InstallerView { result: Some(result), awaiting_prune: false, removing: false, ..s },
        ReactionView { events: Seq::empty(), action: ActionView::Finish { result: result } },
    )
}

/// What a signal does to an operation that has ended. An update first has
/// its backups listed, then the oldest of them deleted; a failure of
/// either takes the place of the operation's result.
pub open spec fn step_ended(s: InstallerView, signal: SignalView) -> (InstallerView, ReactionView) {
    if s.awaiting_prune {
        match signal {
            SignalView::Backups { entries } => (
                InstallerView { awaiting_prune: false, removing: true, ..s },
                ReactionView {
                    events: Seq::empty(),
                    action: ActionView::RemoveBackups {
                        backup_root: s.request.update->0.backup_root,
                        names: names_to_remove(entries, s.request.update->0.keep as nat),
                    },
                },
            ),
            SignalView::Failed { message } => finish(s, Err(message)),
            _ => finish(s, Err(unexpected_signal_message())),
        }
    } else if s.removing {
        match signal {
            SignalView::Done => finish(s, s.result->0),
            SignalView::Failed { message } => finish(s, Err(message)),
            _ => finish(s, Err(unexpected_signal_message())),
        }
    } else {
        (s, ReactionView { events: Seq::empty(), action: ActionView::Finish { result: s.result->0 } })
    }
}

/// What a signal does to an operation that is under way.
pub open spec fn step_running(s: InstallerView, signal: SignalView) -> (InstallerView, ReactionView) {
    let request = s.request;
    let prepare = ActionView::Prepare { install_dir: request.install_dir };
    match (s.phase, signal) {
        (Phase::Idle, SignalView::Start) => {
            if request.update is Some && request.update->0.previous is Some {
                proceed(
                    s,
                    Phase::BackingUp,
                    Seq::empty(),
                    ActionView::BackUp {
                        source_dir: request.update->0.previous->0.install_dir,
                        backup_dir: request.update->0.previous->0.backup_dir,
                    },
                )
            } else {
                proceed(s, Phase::Preparing, Seq::empty(), prepare)
            }
        },
        (Phase::BackingUp, SignalView::Done) => proceed(s, Phase::Preparing, Seq::empty(), prepare),
        (Phase::Preparing, SignalView::Done) => proceed(
            s,
            Phase::Downloading,
            seq![started_event(request)],
            ActionView::Download { url: request.download_url, archive_path: request.archive_path },
        ),
        (Phase::Downloading, SignalView::Responded { status, total, now_ms }) => {
            if s.session is Some {
                fail(s, unexpected_signal_message())
            } else if is_success_status(status) {
                proceed(
                    InstallerView {
                        session: Some(
                            opened(
                                request.package_id,
                                request.source_name,
                                request.install_dir,
                                total,
                                now_ms,
                            ),
                        ),
                        ..s
                    },
                    Phase::Downloading,
                    Seq::empty(),
                    ActionView::ReadChunk,
                )
            } else {
                fail(s, http_error_message(status, request.source_name))
            }
        },
        (Phase::Downloading, SignalView::Chunk { len, now_ms }) => {
            match s.session {
                Some(session) => {
                    if session.downloaded + len > u64::MAX {
                        fail(s, too_large_message())
                    } else {
                        proceed(
                            InstallerView {
                                session: Some(after_chunk(session, len, now_ms)),
                                ..s
                            },
                            Phase::Downloading,
                            match event_after_chunk(session, len, now_ms) {
                                Some(event) => seq![event],
                                None => Seq::empty(),
                            },
                            ActionView::ReadChunk,
                        )
                    }
                },
                None => fail(s, unexpected_signal_message()),
            }
        },
        (Phase::Downloading, SignalView::BodyEnded) => {
            match s.session {
                Some(session) => proceed(
                    InstallerView {
                        session: None,
                        downloaded: session.downloaded,
                        total: session.total,
                        ..s
                    },
                    Phase::Extracting,
                    seq![extracting_event(request, session.downloaded, session.total)],
                    ActionView::ListArchive { archive_path: request.archive_path },
                ),
                None => fail(s, unexpected_signal_message()),
            }
        },
        (Phase::Extracting, SignalView::Entries { names }) => {
            if s.unpacking {
                fail(s, unexpected_signal_message())
            } else {
                match plan_of(names) {
                    Ok(steps) => proceed(
                        InstallerView { unpacking: true, ..s },
                        Phase::Extracting,
                        Seq::empty(),
                        ActionView::Unpack {
                            archive_path: request.archive_path,
                            install_dir: request.install_dir,
                            steps: steps,
                        },
                    ),
                    Err(error) => fail(s, extract_error_message(error)),
                }
            }
        },
        (Phase::Extracting, SignalView::Done) => {
            if s.unpacking {
                proceed(
                    InstallerView { unpacking: false, ..s },
                    Phase::Locating,
                    Seq::empty(),
                    ActionView::Walk { install_dir: request.install_dir },
                )
            } else {
                fail(s, unexpected_signal_message())
            }
        },
        (Phase::Locating, SignalView::Walked { files }) => {
            match located(files, s.markers) {
                Some(at) => proceed(
                    InstallerView { executable: Some(files[at]), ..s },
                    Phase::Registering,
                    Seq::empty(),
                    ActionView::Register { record: record_of(request, files[at]) },
                ),
                None => fail(s, no_executable_message(request.install_dir)),
            }
        },
        (Phase::Registering, SignalView::Done) => (
            InstallerView {
                phase: Phase::Completed,
                result: Some(Ok(request.install_dir)),
                awaiting_prune: prunes_at_end(s),
                ..s
            },
            ReactionView {
                events: seq![
                    completed_event(request, s.downloaded, s.total, s.executable->0),
                ],
                action: closing_action(s, Ok(request.install_dir)),
            },
        ),
        (_, SignalView::Failed { message }) => fail(s, message),
        _ => fail(s, unexpected_signal_message()),
    }
}

/// The machine's transition: the state after a signal, and the reaction to it.
pub open spec fn step(s: InstallerView, signal: SignalView) -> (InstallerView, ReactionView) {
    if is_terminal(s.phase) {
        step_ended(s, signal)
    } else {
        step_running(s, signal)
    }
}

/// What holds of every state that an operation reaches.
pub open spec fn consistent(s: InstallerView) -> bool {
    &&& s.session is Some ==> s.phase == Phase::Downloading
    &&& s.unpacking ==> s.phase == Phase::Extracting
    &&& is_terminal(s.phase) ==> s.result is Some
    &&& s.awaiting_prune ==> s.request.update is Some && !s.removing
    &&& s.removing ==> s.request.update is Some && is_terminal(s.phase)
    &&& s.phase == Phase::Completed ==> s.executable is Some
    &&& s.phase == Phase::Registering ==> s.executable is Some
}

/// Every transition keeps a state consistent, and the initial state is.
pub proof fn lemma_step_keeps_consistent(s: InstallerView, signal: SignalView)
    requires
        consistent(s),
    ensures
        consistent(step(s, signal).0),
        consistent(initial(s.request, s.markers)),
        step(s, signal).0.request == s.request,
        step(s, signal).0.markers == s.markers,
{
}

/// How far an operation has come: its phase, within `Downloading` whether
/// the server has answered, and within `Extracting` whether the
/// extraction has been planned.
pub open spec fn progress_of(s: InstallerView) -> nat {
    2 * rank(s.phase) + if s.unpacking || s.session is Some {
        1nat
    } else {
        0nat
    }
}

/// An operation never goes back. Once it has ended its phase stays; until
/// then every signal but the arrival of a chunk takes it further.
pub proof fn lemma_step_moves_forward(s: InstallerView, signal: SignalView)
    requires
        consistent(s),
    ensures
        rank(step(s, signal).0.phase) >= rank(s.phase),
        progress_of(step(s, signal).0) >= progress_of(s),
        is_terminal(s.phase) ==> step(s, signal).0.phase == s.phase,
        !is_terminal(s.phase) && !(signal is Chunk) ==> progress_of(step(s, signal).0)
            > progress_of(s),
{
}

/// A server's answer decides the download: a status of success opens the
/// session and the body is read; any other status ends the operation with
/// an error that names the status and the source.
pub proof fn lemma_status_decides_download(
    s: InstallerView,
    status: u16,
    total: Option<u64>,
    now_ms: u64,
)
    requires
        s.phase == Phase::Downloading,
        s.session is None,
    ensures
        ({
            let (after, reaction) = step(
                s,
                SignalView::Responded { status: status, total: total, now_ms: now_ms },
            );
            &&& is_success_status(status) ==> after.phase == Phase::Downloading
                && reaction.action is ReadChunk && reaction.events.len() == 0
                && after.session is Some && after.session->0.downloaded == 0
                && after.session->0.total == total
            &&& !is_success_status(status) ==> after.phase == Phase::Error && reaction.events
                == seq![error_event(s.request, http_error_message(status, s.request.source_name))]
                && !(reaction.action is ReadChunk)
        }),
{
}

/// `Error` is reachable from every phase in which an operation is under
/// way: a failure of the action at hand ends the operation there, with one
/// event, which carries the failure's message.
pub proof fn lemma_failure_ends_operation(s: InstallerView, message: Seq<char>)
    requires
        !is_terminal(s.phase),
    ensures
        ({
            let (after, reaction) = step(s, SignalView::Failed { message: message });
            &&& after.phase == Phase::Error
            &&& after.result == Some(Err::<Seq<char>, Seq<char>>(message))
            &&& reaction.events == seq![error_event(s.request, message)]
            &&& !(reaction.action is Register)
        }),
{
}

/// At most one event answers a signal. An event of status `completed` or
/// `error` is emitted exactly when the operation ends, and no event of any
/// kind follows it.
pub proof fn lemma_terminal_event_is_last(s: InstallerView, signal: SignalView)
    ensures
        ({
            let (after, reaction) = step(s, signal);
            &&& reaction.events.len() <= 1
            &&& is_terminal(s.phase) ==> reaction.events.len() == 0
            &&& !is_terminal(s.phase) && is_terminal(after.phase) ==> reaction.events.len() == 1 && (
            reaction.events[0].status == ProgressStatus::Completed || reaction.events[0].status
                == ProgressStatus::Error)
            &&& !is_terminal(after.phase) ==> forall|i: int|
                0 <= i < reaction.events.len() ==> (#[trigger] reaction.events[i]).status
                    != ProgressStatus::Completed && reaction.events[i].status
                    != ProgressStatus::Error
            &&& after.phase == Phase::Completed && s.phase != Phase::Completed
                ==> reaction.events[0].status == ProgressStatus::Completed
            &&& after.phase == Phase::Error && s.phase != Phase::Error ==> reaction.events[0].status
                == ProgressStatus::Error
        }),
{
}

/// The state that a run of signals leaves, and every event emitted on the way.
pub open spec fn run(s: InstallerView, signals: Seq<SignalView>) -> (
    InstallerView,
    Seq<ProgressEventView>,
)
    decreases signals.len(),
{
    if signals.len() == 0 {
        (s, Seq::empty())
    } else {
        let (next, reaction) = step(s, signals[0]);
        let (last, later) = run(next, signals.drop_first());
        (last, reaction.events + later)
    }
}

/// Once an operation has ended, no signal makes it emit another event.
pub proof fn lemma_ended_operation_is_silent(s: InstallerView, signals: Seq<SignalView>)
    requires
        is_terminal(s.phase),
    ensures
        run(s, signals).1.len() == 0,
        run(s, signals).0.phase == s.phase,
    decreases signals.len(),
{
    if signals.len() > 0 {
        lemma_ended_operation_is_silent(step(s, signals[0]).0, signals.drop_first());
    }
}

/// Whatever signals an operation receives, an event of status `completed`
/// or `error` is the last event that it emits: observers can take such an
/// event as the end of the operation.
pub proof fn lemma_terminal_event_ends_the_stream(s: InstallerView, signals: Seq<SignalView>)
    requires
        !is_terminal(s.phase),
    ensures
        forall|i: int|
            0 <= i < run(s, signals).1.len() && crate::progress::is_terminal_status(
                (#[trigger] run(s, signals).1[i]).status,
            ) ==> i == run(s, signals).1.len() - 1,
        is_terminal(run(s, signals).0.phase) <==> run(s, signals).1.len() > 0
            && crate::progress::is_terminal_status(run(s, signals).1.last().status),
    decreases signals.len(),
{
    if signals.len() > 0 {
        let (next, reaction) = step(s, signals[0]);
        let rest = signals.drop_first();
        let later = run(next, rest).1;
        let all = run(s, signals).1;
        lemma_terminal_event_is_last(s, signals[0]);
        assert(all == reaction.events + later);
        if is_terminal(next.phase) {
            lemma_ended_operation_is_silent(next, rest);
            assert(all =~= reaction.events);
        } else {
            lemma_terminal_event_ends_the_stream(next, rest);
            assert forall|i: int|
                0 <= i < all.len() && crate::progress::is_terminal_status(
                    (#[trigger] all[i]).status,
                ) implies i == all.len() - 1 by {
                if i < reaction.events.len() {
                    assert(all[i] == reaction.events[i]);
                } else {
                    assert(all[i] == later[i - reaction.events.len()]);
                }
            }
            if later.len() > 0 {
                assert(all.last() == later.last());
            } else {
                assert(all =~= reaction.events);
            }
        }
    }
}

/// How often a run of signals makes the operation ask for a registry write.
pub open spec fn registrations(s: InstallerView, signals: Seq<SignalView>) -> nat
    decreases signals.len(),
{
    if signals.len() == 0 {
        0
    } else {
        let (next, reaction) = step(s, signals[0]);
        let later = registrations(next, signals.drop_first());
        if reaction.action is Register {
            later + 1
        } else {
            later
        }
    }
}

/// From the moment the registry write has been asked for, it is not asked
/// for again.
pub proof fn lemma_no_second_registration(s: InstallerView, signals: Seq<SignalView>)
    requires
        consistent(s),
        rank(s.phase) >= rank(Phase::Registering),
    ensures
        registrations(s, signals) == 0,
    decreases signals.len(),
{
    if signals.len() > 0 {
        lemma_step_moves_forward(s, signals[0]);
        lemma_step_keeps_consistent(s, signals[0]);
        lemma_no_second_registration(step(s, signals[0]).0, signals.drop_first());
    }
}

/// An operation asks for the registry write at most once. One that
/// completes has asked for it; one that fails before its launch target is
/// found has not, and so leaves the registry as it was.
pub proof fn lemma_registers_once(s: InstallerView, signals: Seq<SignalView>)
    requires
        consistent(s),
        rank(s.phase) < rank(Phase::Registering),
    ensures
        registrations(s, signals) <= 1,
        run(s, signals).0.phase == Phase::Completed ==> registrations(s, signals) == 1,
        registrations(s, signals) == 1 ==> rank(run(s, signals).0.phase) >= rank(
            Phase::Registering,
        ),
    decreases signals.len(),
{
    if signals.len() > 0 {
        let (next, reaction) = step(s, signals[0]);
        let rest = signals.drop_first();
        lemma_step_moves_forward(s, signals[0]);
        lemma_step_keeps_consistent(s, signals[0]);
        if rank(next.phase) >= rank(Phase::Registering) {
            lemma_no_second_registration(next, rest);
            lemma_ranks_only_grow(next, rest);
            if is_terminal(next.phase) {
                lemma_ended_operation_is_silent(next, rest);
            }
        } else {
            lemma_registers_once(next, rest);
        }
    }
}

/// A run of signals never takes an operation back to an earlier phase.
pub proof fn lemma_ranks_only_grow(s: InstallerView, signals: Seq<SignalView>)
    requires
        consistent(s),
    ensures
        rank(run(s, signals).0.phase) >= rank(s.phase),
    decreases signals.len(),
{
    if signals.len() > 0 {
        lemma_step_moves_forward(s, signals[0]);
        lemma_step_keeps_consistent(s, signals[0]);
        lemma_ranks_only_grow(step(s, signals[0]).0, signals.drop_first());
    }
}

/// The registry is written for one reason only: the launch target of a
/// freshly unpacked install was found. The record then names the request's
/// package, version and install directory, and as launch target the best
/// of the files that the walk found.
pub proof fn lemma_register_only_after_locating(s: InstallerView, signal: SignalView)
    requires
        step(s, signal).1.action is Register,
    ensures
        s.phase == Phase::Locating,
        signal matches SignalView::Walked { files } && exists|at: int|
            crate::locator::is_best(files, s.markers, at) && step(s, signal).1.action == (
            ActionView::Register { record: record_of(s.request, #[trigger] files[at]) }),
{
    let files = signal->Walked_files;
    crate::locator::lemma_located(files, s.markers);
    assert(crate::locator::is_best(files, s.markers, located(files, s.markers)->0));
}

/// An archive is unpacked only by the plan for its entries, and only if
/// every entry is accepted. An archive with a refused entry ends the
/// operation instead, and nothing of it is unpacked.
pub proof fn lemma_unpacks_by_plan_only(s: InstallerView, names: Seq<Seq<char>>)
    ensures
        ({
            let (after, reaction) = step(s, SignalView::Entries { names: names });
            &&& reaction.action is Unpack ==> s.phase == Phase::Extracting
                && crate::archive::all_accepted(names) && reaction.action->Unpack_steps
                == crate::archive::extraction_steps(names)
            &&& s.phase == Phase::Extracting && !s.unpacking && crate::archive::all_accepted(names)
                ==> reaction.action is Unpack && after.phase == Phase::Extracting
            &&& !crate::archive::all_accepted(names) && !is_terminal(s.phase) ==> after.phase
                == Phase::Error && !(reaction.action is Unpack)
        }),
        forall|signal: SignalView|
            (#[trigger] step(s, signal)).1.action is Unpack ==> signal is Entries,
{
}


/// The download is asked for right after the `started` event, and
/// unpacking right after the `extracting` event, which reports the whole
/// download as done.
pub proof fn lemma_events_precede_actions(s: InstallerView, signal: SignalView)
    ensures
        ({
            let (after, reaction) = step(s, signal);
            &&& reaction.action is Download ==> reaction.events == seq![started_event(s.request)]
            &&& reaction.action is ReadChunk ==> s.phase == Phase::Downloading
            &&& reaction.action is ListArchive ==> reaction.events.len() == 1
                && reaction.events[0].status == ProgressStatus::Extracting
                && reaction.events[0].percent == Some(100u64)
        }),
{
}

/// An update backs the previous install up before anything else, and the
/// install directory is prepared only after the backup has succeeded.
pub proof fn lemma_update_backs_up_first(request: InstallRequestView, markers: MarkerSetView)
    requires
        request.update is Some,
        request.update->0.previous is Some,
    ensures
        ({
            let (backing_up, first) = step(initial(request, markers), SignalView::Start);
            let (preparing, second) = step(backing_up, SignalView::Done);
            &&& backing_up.phase == Phase::BackingUp
            &&& first.action == (ActionView::BackUp {
                source_dir: request.update->0.previous->0.install_dir,
                backup_dir: request.update->0.previous->0.backup_dir,
            })
            &&& first.events.len() == 0
            &&& preparing.phase == Phase::Preparing
            &&& second.action == (ActionView::Prepare { install_dir: request.install_dir })
        }),
{
}

/// An update that got as far as preparing the install directory prunes its
/// backups when it ends, however it ends: it has them listed, has the
/// oldest deleted so that no more than the retained number are left, and
/// finishes after that with its result.
pub proof fn lemma_update_prunes_at_end(
    s: InstallerView,
    signal: SignalView,
    entries: Seq<BackupEntryView>,
)
    requires
        consistent(s),
        !is_terminal(s.phase),
        is_terminal(step(s, signal).0.phase),
        entries.len() <= usize::MAX,
    ensures
        ({
            let (ended, first) = step(s, signal);
            let (listed, second) = step(ended, SignalView::Backups { entries: entries });
            let (removed, third) = step(listed, SignalView::Done);
            let keep = s.request.update->0.keep as nat;
            let created = crate::backup::creation_times(entries);
            let pruned = crate::backup::pruning_of(created, keep);
            &&& !prunes_at_end(s) ==> first.action == (ActionView::Finish {
                result: ended.result->0,
            })
            &&& prunes_at_end(s) ==> {
                &&& first.action == (ActionView::ListBackups {
                    backup_root: s.request.update->0.backup_root,
                })
                &&& second.action == (ActionView::RemoveBackups {
                    backup_root: s.request.update->0.backup_root,
                    names: names_to_remove(entries, keep),
                })
                &&& crate::backup::is_pruning(created, keep, pruned)
                &&& entries.len() - pruned.len() <= keep
                &&& third.action == (ActionView::Finish { result: ended.result->0 })
                &&& second.events.len() == 0 && third.events.len() == 0
            }
        }),
{
    crate::backup::lemma_pruning_of(
        crate::backup::creation_times(entries),
        s.request.update->0.keep as nat,
    );
}

fn copy_of_result(result: &Result<String, String>) -> (copy: Result<String, String>)
    ensures
        result_text(copy) == result_text(*result),
{
    match result {
        Ok(dir) => Ok(dir.clone()),
        Err(message) => Err(message.clone()),
    }
}

/// Writes the message of a download that was answered with status `code`.
pub fn http_error_text(code: u16, source_name: &str) -> (message: String)
    ensures
        message@ == http_error_message(code, source_name@),
{
    let mut message = String::from_str("HTTP error ");
    let digits = decimal_string(code as u64);
    message.append(digits.as_str());
    message.append(" from ");
    message.append(source_name);
    message
}

impl Installer {
    #[verifier::type_invariant]
    spec fn is_consistent(&self) -> bool {
        consistent(self@)
    }

    /// An operation that has not begun.
    pub fn new(request: InstallRequest, markers: MarkerSet) -> (installer: Installer)
        ensures
            installer@ == initial(request@, markers@),
    {
        Installer {
            request,
            markers,
            phase: Phase::Idle,
            session: None,
            unpacking: false,
            downloaded: 0,
            total: None,
            executable: None,
            result: None,
            awaiting_prune: false,
            removing: false,
        }
    }

    /// Where the operation stands.
    pub fn phase(&self) -> (phase: Phase)
        ensures
            phase == self@.phase,
    {
        self.phase
    }

    /// Whether the operation has ended and nothing is left to do for it.
    pub fn is_finished(&self) -> (finished: bool)
        ensures
            finished == (is_terminal(self@.phase) && !self@.awaiting_prune && !self@.removing),
    {
        (self.phase == Phase::Completed || self.phase == Phase::Error) && !self.awaiting_prune
            && !self.removing
    }

    /// The request that the operation serves.
    pub fn request(&self) -> (request: &InstallRequest)
        ensures
            request@ == self@.request,
    {
        &self.request
    }

    fn event(
        &self,
        status: ProgressStatus,
        percent: u64,
        downloaded: u64,
        total: Option<u64>,
        message: Option<String>,
        with_dir: bool,
        executable_path: Option<String>,
    ) -> (event: ProgressEvent)
        ensures
            event@ == (ProgressEventView {
                package_id: self@.request.package_id,
                source_name: self@.request.source_name,
                status: status,
                percent: Some(percent),
                downloaded_bytes: downloaded,
                total_bytes: total,
                bytes_per_second: 0,
                message: crate::progress::text_of(message),
                install_dir: if with_dir {
                    Some(self@.request.install_dir)
                } else {
                    None
                },
                executable_path: crate::progress::text_of(executable_path),
            }),
    {
        ProgressEvent {
            package_id: self.request.package_id.clone(),
            source_name: self.request.source_name.clone(),
            status,
            percent: Some(percent),
            downloaded_bytes: downloaded,
            total_bytes: total,
            bytes_per_second: 0,
            message,
            install_dir: if with_dir {
                Some(self.request.install_dir.clone())
            } else {
                None
            },
            executable_path,
        }
    }

    /// The action that ends the operation with `result`.
    fn close(&self, result: Result<String, String>, prunes: bool) -> (action: Action)
        requires
            prunes ==> self@.request.update is Some,
        ensures
            action@ == if prunes {
                ActionView::ListBackups { backup_root: self@.request.update->0.backup_root }
            } else {
                ActionView::Finish { result: result_text(result) }
            },
    {
        if prunes {
            match &self.request.update {
                Some(plan) => Action::ListBackups { backup_root: plan.backup_root.clone() },
                None => Action::Finish { result },
            }
        } else {
            Action::Finish { result }
        }
    }

    fn prunes(&self) -> (prunes: bool)
        ensures
            prunes == prunes_at_end(self@),
    {
        self.request.update.is_some() && self.phase != Phase::Idle && self.phase
            != Phase::BackingUp
    }

    fn fail_with(&mut self, message: String) -> (reaction: Reaction)
        requires
            !is_terminal(old(self)@.phase),
        ensures
            (final(self)@, reaction@) == fail(old(self)@, message@),
    {
        proof {
            use_type_invariant(&*self);
        }
        let prunes = self.prunes();
        let event = self.event(
            ProgressStatus::Error,
            0,
            0,
            None,
            Some(message.clone()),
            false,
            None,
        );
        let action = self.close(Err(message.clone()), prunes);
        self.result = Some(Err(message));
        self.awaiting_prune = prunes;
        self.unpacking = false;
        self.session = None;
        self.phase = Phase::Error;
        let mut events: Vec<ProgressEvent> = Vec::new();
        events.push(event);
        let reaction = Reaction { events, action };
        proof {
            assert(reaction@.events =~= seq![error_event(old(self)@.request, message@)]);
        }
        reaction
    }

    /// The signal does not answer the action that is under way.
    fn refuse(&mut self) -> (reaction: Reaction)
        requires
            !is_terminal(old(self)@.phase),
        ensures
            (final(self)@, reaction@) == fail(old(self)@, unexpected_signal_message()),
    {
        self.fail_with(String::from_str("Unexpected signal for the current phase"))
    }

    fn go(&mut self, phase: Phase, event: Option<ProgressEvent>, action: Action) -> (reaction:
        Reaction)
        requires
            !is_terminal(phase),
            !is_terminal(old(self)@.phase),
            phase == Phase::Registering ==> old(self)@.executable is Some,
            old(self)@.unpacking ==> phase == Phase::Extracting,
            old(self)@.session is Some ==> phase == Phase::Downloading,
        ensures
            final(self)@ == (InstallerView { phase: phase, ..old(self)@ }),
            reaction@.action == action@,
            reaction@.events == match event {
                Some(e) => seq![e@],
                None => Seq::<ProgressEventView>::empty(),
            },
    {
        proof {
            use_type_invariant(&*self);
        }
        self.phase = phase;
        let mut events: Vec<ProgressEvent> = Vec::new();
        match event {
            Some(e) => {
                events.push(e);
                assert(event_views(events@) =~= seq![e@]);
            },
            None => {
                assert(event_views(events@) =~= Seq::<ProgressEventView>::empty());
            },
        }
        Reaction { events, action }
    }

    fn prepare_action(&self) -> (action: Action)
        ensures
            action@ == (ActionView::Prepare { install_dir: self@.request.install_dir }),
    {
        Action::Prepare { install_dir: self.request.install_dir.clone() }
    }

    /// Takes the caller's report and answers with the events to emit and
    /// the action to perform next.
    pub fn advance(&mut self, signal: Signal) -> (reaction: Reaction)
        ensures
            consistent(old(self)@),
            consistent(final(self)@),
            (final(self)@, reaction@) == step(old(self)@, signal@),
    {
        proof {
            use_type_invariant(&*self);
            lemma_step_keeps_consistent(self@, signal@);
        }
        if self.phase == Phase::Completed || self.phase == Phase::Error {
            return self.advance_ended(signal);
        }
        match signal {
            Signal::Failed { message } => self.fail_with(message),
            Signal::Start => {
                if self.phase == Phase::Idle {
                    let backup = match &self.request.update {
                        Some(plan) => match &plan.previous {
                            Some(previous) => Some(
                                Action::BackUp {
                                    source_dir: previous.install_dir.clone(),
                                    backup_dir: previous.backup_dir.clone(),
                                },
                            ),
                            None => None,
                        },
                        None => None,
                    };
                    match backup {
                        Some(action) => self.go(Phase::BackingUp, None, action),
                        None => {
                            let action = self.prepare_action();
                            self.go(Phase::Preparing, None, action)
                        },
                    }
                } else {
                    self.refuse()
                }
            },
            Signal::Done => {
                if self.phase == Phase::BackingUp {
                    let action = self.prepare_action();
                    self.go(Phase::Preparing, None, action)
                } else if self.phase == Phase::Preparing {
                    let event = self.event(ProgressStatus::Started, 0, 0, None, None, false, None);
                    let action = Action::Download {
                        url: self.request.download_url.clone(),
                        archive_path: self.request.archive_path.clone(),
                    };
                    self.go(Phase::Downloading, Some(event), action)
                } else if self.phase == Phase::Extracting && self.unpacking {
                    let action = Action::Walk { install_dir: self.request.install_dir.clone() };
                    self.unpacking = false;
                    self.go(Phase::Locating, None, action)
                } else if self.phase == Phase::Registering {
                    self.complete()
                } else {
                    self.refuse()
                }
            },
            Signal::Responded { status, total, now_ms } => {
                if self.phase == Phase::Downloading && self.session.is_none() {
                    if 200 <= status && status < 300 {
                        let session = DownloadSession::new(
                            self.request.package_id.clone(),
                            self.request.source_name.clone(),
                            self.request.install_dir.clone(),
                            total,
                            now_ms,
                        );
                        self.session = Some(session);
                        self.go(Phase::Downloading, None, Action::ReadChunk)
                    } else {
                        let message = http_error_text(status, self.request.source_name.as_str());
                        self.fail_with(message)
                    }
                } else {
                    self.refuse()
                }
            },
            Signal::Chunk { len, now_ms } => {
                let mut held: Option<DownloadSession> = None;
                if self.phase == Phase::Downloading {
                    std::mem::swap(&mut self.session, &mut held);
                }
                match held {
                    Some(session) => {
                        let mut session = session;
                        if len > u64::MAX - session.downloaded() {
                            self.fail_with(String::from_str("Download is too large"))
                        } else {
                            let event = session.on_chunk(len, now_ms);
                            self.session = Some(session);
                            self.go(Phase::Downloading, event, Action::ReadChunk)
                        }
                    },
                    None => self.refuse(),
                }
            },
            Signal::BodyEnded => {
                let mut held: Option<DownloadSession> = None;
                if self.phase == Phase::Downloading {
                    std::mem::swap(&mut self.session, &mut held);
                }
                match held {
                    Some(session) => {
                        let bytes = session.downloaded();
                        let total = session.total();
                        self.downloaded = bytes;
                        self.total = total;
                        let event = self.event(
                            ProgressStatus::Extracting,
                            100,
                            bytes,
                            total,
                            None,
                            true,
                            None,
                        );
                        let action = Action::ListArchive {
                            archive_path: self.request.archive_path.clone(),
                        };
                        self.go(Phase::Extracting, Some(event), action)
                    },
                    None => self.refuse(),
                }
            },
            Signal::Backups { entries: _ } => self.refuse(),
            Signal::Entries { names } => {
                if self.phase == Phase::Extracting && !self.unpacking {
                    match plan_extraction(&names) {
                        Ok(steps) => {
                            let action = Action::Unpack {
                                archive_path: self.request.archive_path.clone(),
                                install_dir: self.request.install_dir.clone(),
                                steps,
                            };
                            self.unpacking = true;
                            self.go(Phase::Extracting, None, action)
                        },
                        Err(error) => self.fail_with(error.message()),
                    }
                } else {
                    self.refuse()
                }
            },
            Signal::Walked { files } => {
                if self.phase == Phase::Locating {
                    match locate_executable(&files, &self.markers) {
                        Some(at) => {
                            assert(files.deep_view()[at as int] == files[at as int]@);
                            let record = InstallRecord {
                                package_id: self.request.package_id.clone(),
                                version: self.request.version.clone(),
                                install_dir: self.request.install_dir.clone(),
                                executable_rel_path: files[at].clone(),
                            };
                            self.executable = Some(files[at].clone());
                            self.go(Phase::Registering, None, Action::Register { record })
                        },
                        None => {
                            let mut message = String::from_str("No executable found in ");
                            message.append(self.request.install_dir.as_str());
                            self.fail_with(message)
                        },
                    }
                } else {
                    self.refuse()
                }
            },
        }
    }

    fn complete(&mut self) -> (reaction: Reaction)
        requires
            old(self)@.phase == Phase::Registering,
        ensures
            (final(self)@, reaction@) == step(old(self)@, SignalView::Done),
    {
        proof {
            use_type_invariant(&*self);
        }
        let prunes = self.prunes();
        let full_path = match &self.executable {
            Some(relative) => {
                let mut full = self.request.install_dir.clone();
                full.append("/");
                full.append(relative.as_str());
                full
            },
            None => self.request.install_dir.clone(),
        };
        let event = self.event(
            ProgressStatus::Completed,
            100,
            self.downloaded,
            self.total,
            None,
            true,
            Some(full_path),
        );
        let action = self.close(Ok(self.request.install_dir.clone()), prunes);
        self.result = Some(Ok(self.request.install_dir.clone()));
        self.awaiting_prune = prunes;
        self.phase = Phase::Completed;
        let mut events: Vec<ProgressEvent> = Vec::new();
        events.push(event);
        let reaction = Reaction { events, action };
        proof {
            assert(reaction@.events =~= seq![
                completed_event(
                    old(self)@.request,
                    old(self)@.downloaded,
                    old(self)@.total,
                    old(self)@.executable->0,
                ),
            ]);
        }
        reaction
    }

    fn finish_with(&mut self, result: Result<String, String>) -> (reaction: Reaction)
        requires
            is_terminal(old(self)@.phase),
        ensures
            (final(self)@, reaction@) == finish(old(self)@, result_text(result)),
    {
        proof {
            use_type_invariant(&*self);
        }
        let events: Vec<ProgressEvent> = Vec::new();
        assert(event_views(events@) =~= Seq::<ProgressEventView>::empty());
        self.result = Some(copy_of_result(&result));
        self.awaiting_prune = false;
        self.removing = false;
        Reaction { events, action: Action::Finish { result } }
    }

    /// The result with which the operation ended.
    fn outcome(&self) -> (result: Result<String, String>)
        requires
            is_terminal(self@.phase),
        ensures
            result_text(result) == self@.result->0,
    {
        proof {
            use_type_invariant(self);
        }
        match &self.result {
            Some(r) => copy_of_result(r),
            None => Err(String::new()),
        }
    }

    fn advance_ended(&mut self, signal: Signal) -> (reaction: Reaction)
        requires
            is_terminal(old(self)@.phase),
        ensures
            (final(self)@, reaction@) == step_ended(old(self)@, signal@),
    {
        proof {
            use_type_invariant(&*self);
        }
        if self.awaiting_prune {
            match signal {
                Signal::Backups { entries } => {
                    let action = match &self.request.update {
                        Some(plan) => Action::RemoveBackups {
                            backup_root: plan.backup_root.clone(),
                            names: backups_to_remove(&entries, plan.keep),
                        },
                        None => Action::Finish { result: self.outcome() },
                    };
                    self.awaiting_prune = false;
                    self.removing = true;
                    let events: Vec<ProgressEvent> = Vec::new();
                    assert(event_views(events@) =~= Seq::<ProgressEventView>::empty());
                    Reaction { events, action }
                },
                Signal::Failed { message } => self.finish_with(Err(message)),
                _ => self.finish_with(
                    Err(String::from_str("Unexpected signal for the current phase")),
                ),
            }
        } else if self.removing {
            match signal {
                Signal::Done => {
                    let result = self.outcome();
                    self.finish_with(result)
                },
                Signal::Failed { message } => self.finish_with(Err(message)),
                _ => self.finish_with(
                    Err(String::from_str("Unexpected signal for the current phase")),
                ),
            }
        } else {
            let events: Vec<ProgressEvent> = Vec::new();
            assert(event_views(events@) =~= Seq::<ProgressEventView>::empty());
            Reaction { events, action: Action::Finish { result: self.outcome() } }
        }
    }
}

} // verus!
