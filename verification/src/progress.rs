//! Progress telemetry of a download: the events that observers receive, the
//! percent and throughput figures they carry, and the session that decides
//! after each received chunk whether an event is due.

use vstd::prelude::*;
use vstd::string::*;

verus! {

/// Least time between two progress events of one download, in milliseconds.
pub const EMIT_INTERVAL_MS: u64 = 300;

/// What a progress event reports.
#[derive(Clone, Copy, Debug, PartialEq, Eq, Structural)]
pub enum ProgressStatus {
    Started,
    Progress,
    Extracting,
    Completed,
    Error,
}

/// A point-in-time notification about one package's installation.
#[derive(Debug)]
pub struct ProgressEvent {
    pub package_id: String,
    pub source_name: String,
    pub status: ProgressStatus,
    /// Whole percent of the download that is done; `None` while the total size is unknown.
    pub percent: Option<u64>,
    pub downloaded_bytes: u64,
    pub total_bytes: Option<u64>,
    pub bytes_per_second: u64,
    pub message: Option<String>,
    pub install_dir: Option<String>,
    pub executable_path: Option<String>,
}

/// The mathematical content of a [`ProgressEvent`].
pub struct ProgressEventView {
    pub package_id: Seq<char>,
    pub source_name: Seq<char>,
    pub status: ProgressStatus,
    pub percent: Option<u64>,
    pub downloaded_bytes: u64,
    pub total_bytes: Option<u64>,
    pub bytes_per_second: u64,
    pub message: Option<Seq<char>>,
    pub install_dir: Option<Seq<char>>,
    pub executable_path: Option<Seq<char>>,
}

/// The characters of an optional string.
pub open spec fn text_of(s: Option<String>) -> Option<Seq<char>> {
    match s {
        Some(s) => Some(s@),
        None => None,
    }
}

impl View for ProgressEvent {
    type V = ProgressEventView;

    open spec fn view(&self) -> ProgressEventView {
        ProgressEventView {
            package_id: self.package_id@,
            source_name: self.source_name@,
            status: self.status,
            percent: self.percent,
            downloaded_bytes: self.downloaded_bytes,
            total_bytes: self.total_bytes,
            bytes_per_second: self.bytes_per_second,
            message: text_of(self.message),
            install_dir: text_of(self.install_dir),
            executable_path: text_of(self.executable_path),
        }
    }
}

/// The content of an event, if there is one.
pub open spec fn event_view(event: Option<ProgressEvent>) -> Option<ProgressEventView> {
    match event {
        Some(e) => Some(e@),
        None => None,
    }
}

/// The name under which a status travels to observers.
pub open spec fn status_label(status: ProgressStatus) -> Seq<char> {
    match status {
        ProgressStatus::Started => "started"@,
        ProgressStatus::Progress => "progress"@,
        ProgressStatus::Extracting => "extracting"@,
        ProgressStatus::Completed => "completed"@,
        ProgressStatus::Error => "error"@,
    }
}

/// A status after which no further event of the same operation follows.
pub open spec fn is_terminal_status(status: ProgressStatus) -> bool {
    status == ProgressStatus::Completed || status == ProgressStatus::Error
}

/// `100 * downloaded / total` in whole percent, `0` for an empty download,
/// capped at the largest `u64`.
pub open spec fn percent_of(downloaded: nat, total: nat) -> nat {
    if total == 0 {
        0
    } else if 100 * downloaded / total > u64::MAX {
        u64::MAX as nat
    } else {
        100 * downloaded / total
    }
}

/// The percent that an event reports: none while the total is unknown.
pub open spec fn reported_percent(downloaded: u64, total: Option<u64>) -> Option<u64> {
    match total {
        Some(t) => Some(percent_of(downloaded as nat, t as nat) as u64),
        None => None,
    }
}

/// Bytes per second when `bytes` arrived within `elapsed_ms` milliseconds:
/// `0` when no time has passed, capped at the largest `u64`.
pub open spec fn throughput_of(bytes: nat, elapsed_ms: nat) -> nat {
    if elapsed_ms == 0 {
        0
    } else if bytes * 1000 / elapsed_ms > u64::MAX {
        u64::MAX as nat
    } else {
        bytes * 1000 / elapsed_ms
    }
}

/// A download is complete once the announced total has arrived.
pub open spec fn is_complete(downloaded: u64, total: Option<u64>) -> bool {
    total == Some(downloaded)
}

/// Milliseconds from `earlier` to `later`, `0` if the clock went backwards.
pub open spec fn elapsed_between(earlier: u64, later: u64) -> u64 {
    if later >= earlier {
        (later - earlier) as u64
    } else {
        0
    }
}

/// A percent never leaves `0..=100` while no more than the total has arrived,
/// equals `100 * downloaded / total` there, and is `0` for an empty download.
pub proof fn lemma_percent_within_total(downloaded: nat, total: nat)
    requires
        downloaded <= total,
    ensures
        percent_of(downloaded, total) <= 100,
        total > 0 ==> percent_of(downloaded, total) == 100 * downloaded / total,
        total == 0 ==> percent_of(downloaded, total) == 0,
        total > 0 && downloaded == total ==> percent_of(downloaded, total) == 100,
{
    if total > 0 {
        assert(100 * downloaded / total <= 100) by (nonlinear_arith)
            requires
                downloaded <= total,
                total > 0,
        ;
        assert(100 * total / total == 100) by (nonlinear_arith)
            requires
                total > 0,
        ;
    }
}

/// The percent grows with the bytes received.
pub proof fn lemma_percent_monotonic(earlier: nat, later: nat, total: nat)
    requires
        earlier <= later,
    ensures
        percent_of(earlier, total) <= percent_of(later, total),
{
    if total > 0 {
        assert(100 * earlier / total <= 100 * later / total) by (nonlinear_arith)
            requires
                earlier <= later,
                total > 0,
        ;
    }
}

impl ProgressStatus {
    /// The name under which this status travels to observers.
    pub fn label(&self) -> (name: &'static str)
        ensures
            name@ == status_label(*self),
    {
        match self {
            ProgressStatus::Started => "started",
            ProgressStatus::Progress => "progress",
            ProgressStatus::Extracting => "extracting",
            ProgressStatus::Completed => "completed",
            ProgressStatus::Error => "error",
        }
    }

    /// Whether this status ends its operation's stream of events.
    pub fn is_terminal(&self) -> (terminal: bool)
        ensures
            terminal == is_terminal_status(*self),
    {
        match self {
            ProgressStatus::Completed => true,
            ProgressStatus::Error => true,
            _ => false,
        }
    }
}

/// Whole percent of `total` that `downloaded` makes up.
pub fn percent(downloaded: u64, total: u64) -> (p: u64)
    ensures
        p == percent_of(downloaded as nat, total as nat),
        downloaded <= total ==> p <= 100,
        downloaded <= total && total > 0 ==> p == (100 * downloaded) / (total as int),
{
    proof {
        if downloaded <= total {
            lemma_percent_within_total(downloaded as nat, total as nat);
        }
    }
    if total == 0 {
        return 0;
    }
    let scaled: u128 = 100u128 * (downloaded as u128);
    let share: u128 = scaled / (total as u128);
    if share > u64::MAX as u128 {
        u64::MAX
    } else {
        share as u64
    }
}

/// The percent to report for a download whose total may be unknown.
pub fn percent_to_report(downloaded: u64, total: Option<u64>) -> (p: Option<u64>)
    ensures
        p == reported_percent(downloaded, total),
        p is None <==> total is None,
{
    match total {
        Some(t) => Some(percent(downloaded, t)),
        None => None,
    }
}

/// Bytes per second when `bytes` arrived within `elapsed_ms` milliseconds.
pub fn throughput(bytes: u64, elapsed_ms: u64) -> (rate: u64)
    ensures
        rate == throughput_of(bytes as nat, elapsed_ms as nat),
{
    if elapsed_ms == 0 {
        return 0;
    }
    let scaled: u128 = (bytes as u128) * 1000u128;
    let rate: u128 = scaled / (elapsed_ms as u128);
    if rate > u64::MAX as u128 {
        u64::MAX
    } else {
        rate as u64
    }
}

/// The running state of one download. It lives from the first byte to the
/// end of the stream and is never persisted.
pub struct DownloadSession {
    package_id: String,
    source_name: String,
    install_dir: String,
    total: Option<u64>,
    downloaded: u64,
    started_ms: u64,
    last_emit_ms: u64,
    last_emit_bytes: u64,
}

/// The mathematical content of a [`DownloadSession`].
pub struct DownloadSessionView {
    pub package_id: Seq<char>,
    pub source_name: Seq<char>,
    pub install_dir: Seq<char>,
    pub total: Option<u64>,
    pub downloaded: u64,
    pub started_ms: u64,
    pub last_emit_ms: u64,
    pub last_emit_bytes: u64,
}

impl View for DownloadSession {
    type V = DownloadSessionView;

    closed spec fn view(&self) -> DownloadSessionView {
        DownloadSessionView {
            package_id: self.package_id@,
            source_name: self.source_name@,
            install_dir: self.install_dir@,
            total: self.total,
            downloaded: self.downloaded,
            started_ms: self.started_ms,
            last_emit_ms: self.last_emit_ms,
            last_emit_bytes: self.last_emit_bytes,
        }
    }
}

/// The session of a download that begins at `now_ms`.
pub open spec fn opened(
    package_id: Seq<char>,
    source_name: Seq<char>,
    install_dir: Seq<char>,
    total: Option<u64>,
    now_ms: u64,
) -> DownloadSessionView {
    DownloadSessionView {
        package_id: package_id,
        source_name: source_name,
        install_dir: install_dir,
        total: total,
        downloaded: 0,
        started_ms: now_ms,
        last_emit_ms: now_ms,
        last_emit_bytes: 0,
    }
}

/// The event that a chunk of `len` bytes at `now_ms` gives rise to, if one is due.
pub open spec fn event_after_chunk(s: DownloadSessionView, len: u64, now_ms: u64) -> Option<
    ProgressEventView,
> {
    let downloaded = (s.downloaded + len) as u64;
    if emission_due(s, downloaded, now_ms) {
        Some(progress_event_of(s, downloaded, now_ms))
    } else {
        None
    }
}

/// Whether an event is due once `downloaded` bytes have arrived at `now_ms`:
/// the download is complete, or the interval since the last event has passed.
pub open spec fn emission_due(s: DownloadSessionView, downloaded: u64, now_ms: u64) -> bool {
    is_complete(downloaded, s.total) || elapsed_between(s.last_emit_ms, now_ms) >= EMIT_INTERVAL_MS
}

/// The event that reports `downloaded` bytes at `now_ms`.
pub open spec fn progress_event_of(
    s: DownloadSessionView,
    downloaded: u64,
    now_ms: u64,
) -> ProgressEventView {
    ProgressEventView {
        package_id: s.package_id,
        source_name: s.source_name,
        status: ProgressStatus::Progress,
        percent: reported_percent(downloaded, s.total),
        downloaded_bytes: downloaded,
        total_bytes: s.total,
        bytes_per_second: throughput_of(
            (downloaded - s.last_emit_bytes) as nat,
            elapsed_between(s.last_emit_ms, now_ms) as nat,
        ) as u64,
        message: None,
        install_dir: Some(s.install_dir),
        executable_path: None,
    }
}

/// The session after a chunk of `len` bytes has arrived at `now_ms`.
pub open spec fn after_chunk(s: DownloadSessionView, len: u64, now_ms: u64) -> DownloadSessionView {
    let downloaded = (s.downloaded + len) as u64;
    if emission_due(s, downloaded, now_ms) {
        DownloadSessionView {
            downloaded: downloaded,
            last_emit_ms: now_ms,
            last_emit_bytes: downloaded,
            ..s
        }
    } else {
        DownloadSessionView { downloaded: downloaded, ..s }
    }
}

impl DownloadSession {
    /// The session never reports more bytes at an emission than have arrived.
    #[verifier::type_invariant]
    spec fn reported_within_received(&self) -> bool {
        self.last_emit_bytes <= self.downloaded
    }

    /// Opens a session at time `now_ms`, with nothing received yet.
    pub fn new(
        package_id: String,
        source_name: String,
        install_dir: String,
        total: Option<u64>,
        now_ms: u64,
    ) -> (session: DownloadSession)
        ensures
            session@ == opened(package_id@, source_name@, install_dir@, total, now_ms),
    {
        DownloadSession {
            package_id,
            source_name,
            install_dir,
            total,
            downloaded: 0,
            started_ms: now_ms,
            last_emit_ms: now_ms,
            last_emit_bytes: 0,
        }
    }

    /// Bytes received so far.
    pub fn downloaded(&self) -> (bytes: u64)
        ensures
            bytes == self@.downloaded,
    {
        self.downloaded
    }

    /// The size that the server announced, if it did.
    pub fn total(&self) -> (bytes: Option<u64>)
        ensures
            bytes == self@.total,
    {
        self.total
    }

    /// Milliseconds since the session was opened, `0` if the clock went backwards.
    pub fn elapsed_ms(&self, now_ms: u64) -> (elapsed: u64)
        ensures
            elapsed == elapsed_between(self@.started_ms, now_ms),
    {
        if now_ms >= self.started_ms {
            now_ms - self.started_ms
        } else {
            0
        }
    }

    /// Records a chunk of `len` bytes received at `now_ms` and returns the
    /// event to emit, if one is due.
    pub fn on_chunk(&mut self, len: u64, now_ms: u64) -> (event: Option<ProgressEvent>)
        requires
            old(self)@.downloaded + len <= u64::MAX,
        ensures
            final(self)@ == after_chunk(old(self)@, len, now_ms),
            crate::progress::event_view(event) == event_after_chunk(old(self)@, len, now_ms),
            event is Some <==> emission_due(
                old(self)@,
                (old(self)@.downloaded + len) as u64,
                now_ms,
            ),
            event matches Some(e) ==> e@ == progress_event_of(
                old(self)@,
                (old(self)@.downloaded + len) as u64,
                now_ms,
            ),
    {
        proof {
            use_type_invariant(&*self);
        }
        let downloaded: u64 = self.downloaded + len;
        let elapsed: u64 = if now_ms >= self.last_emit_ms {
            now_ms - self.last_emit_ms
        } else {
            0
        };
        let complete = match self.total {
            Some(t) => t == downloaded,
            None => false,
        };
        self.downloaded = downloaded;
        if complete || elapsed >= EMIT_INTERVAL_MS {
            let event = ProgressEvent {
                package_id: self.package_id.clone(),
                source_name: self.source_name.clone(),
                status: ProgressStatus::Progress,
                percent: percent_to_report(downloaded, self.total),
                downloaded_bytes: downloaded,
                total_bytes: self.total,
                bytes_per_second: throughput(downloaded - self.last_emit_bytes, elapsed),
                message: None,
                install_dir: Some(self.install_dir.clone()),
                executable_path: None,
            };
            self.last_emit_ms = now_ms;
            self.last_emit_bytes = downloaded;
            Some(event)
        } else {
            None
        }
    }
}

} // verus!
