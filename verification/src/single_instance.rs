//! One daemon per system: the record in the lock file, and the decisions of
//! taking the lock and of stopping the daemon that holds it.
//!
//! The lock itself is an advisory lock of the operating system on the lock
//! file, and it alone decides who runs. The process id in the file is a hint:
//! it lets a second daemon give up early and lets a stop command find the
//! first. The functions here decide; the caller reads the file, asks whether a
//! process is alive, asks for the lock, and comes back with each answer.

use vstd::prelude::*;
use vstd::string::StringExecFns;
use crate::error::ErrorKind;
use crate::path::FsPath;
use crate::text::{
    decimal_digits, decimal_in_range, decimal_text, is_digit, is_whitespace, lemma_decimal_digits,
    lemma_trailing_whitespace, lemma_leading_whitespace, parse_decimal, signed_digits, signed_text,
    trim, trim_of,
};

verus! {

/// The process id that the lock file contents `contents` name: the decimal
/// number, at most `i32::MAX`, that is left when the surrounding white space
/// is taken away, with or without a plus sign before it. Anything else names
/// no process: nothing but white space, a word, a negative number, a number
/// followed by more text.
pub open spec fn pid_of(contents: Seq<char>) -> Option<i32> {
    let text = trim_of(contents);
    if text.len() > 0 && text[0] == '+' {
        decimal_in_range(text.skip(1))
    } else {
        decimal_in_range(text)
    }
}

/// The process id that the lock file contents `contents` name, if they name one.
pub fn parse_pid(contents: &str) -> (pid: Option<i32>)
    ensures
        pid == pid_of(contents@),
{
    let text = trim(contents);
    let n = text.unicode_len();
    if n > 0 && text.get_char(0) == '+' {
        assert(text@.subrange(1, n as int) =~= text@.skip(1));
        parse_decimal(text, 1, n)
    } else {
        assert(text@.subrange(0, n as int) =~= text@);
        parse_decimal(text, 0, n)
    }
}

/// The contents of the lock file of the process `pid`: its id in decimal and a line feed.
pub open spec fn pid_record_of(pid: u32) -> Seq<char> {
    decimal_digits(pid as nat).push('\n')
}

/// The contents to write into the lock file for the process `pid`.
pub fn pid_record(pid: u32) -> (record: String)
    ensures
        record@ == pid_record_of(pid),
{
    proof {
        reveal_strlit("\n");
    }
    let mut record = decimal_text(pid);
    record.append("\n");
    assert(record@ =~= pid_record_of(pid));
    record
}

/// The record that a process writes names that process.
pub proof fn lemma_record_names_its_writer(pid: u32)
    requires
        pid <= i32::MAX,
    ensures
        pid_of(pid_record_of(pid)) == Some(pid as i32),
{
    let digits = decimal_digits(pid as nat);
    let record = pid_record_of(pid);
    lemma_decimal_digits(pid as nat);
    assert(is_digit(digits[0]));
    assert(is_digit(digits.last()));
    assert(record[0] == digits[0]);
    lemma_leading_whitespace(record, 0);
    assert(record.skip(0) =~= record);
    assert(record[record.len() - 2] == digits.last());
    assert(is_whitespace('\n'));
    lemma_trailing_whitespace(record, record.len() - 1);
    assert(record.take(record.len() - 1) =~= digits);
    assert(trim_of(record) == digits);
}

/// Why the lock was not taken.
#[derive(Debug, Clone, Copy, PartialEq, Eq)]
pub enum LockError {
    /// Another daemon runs. Its process id is known where the lock file named
    /// a process that is alive.
    AlreadyRunning { pid: Option<i32> },
}

/// The error `error` in words.
pub open spec fn lock_message_of(error: LockError) -> Seq<char> {
    match error {
        LockError::AlreadyRunning { pid: Some(pid) } => {
            "Another instance is already running with PID "@ + signed_digits(pid as int)
        },
        LockError::AlreadyRunning { pid: None } => {
            "Another instance of the daemon is already running"@
        },
    }
}

impl LockError {
    /// The kind of the error.
    pub fn kind(&self) -> (kind: ErrorKind)
        ensures
            kind == ErrorKind::AlreadyExists,
    {
        ErrorKind::AlreadyExists
    }

    /// The error in words.
    pub fn message(&self) -> (text: String)
        ensures
            text@ == lock_message_of(*self),
    {
        match self {
            LockError::AlreadyRunning { pid: Some(pid) } => {
                let mut text = String::from_str("Another instance is already running with PID ");
                let digits = signed_text(*pid);
                text.append(digits.as_str());
                text
            },
            LockError::AlreadyRunning { pid: None } => {
                String::from_str("Another instance of the daemon is already running")
            },
        }
    }
}

/// A lock that is held: where its file is and what was written there.
#[derive(Debug, PartialEq, Eq)]
pub struct SingleInstanceLock {
    pid_file_path: FsPath,
    pid: u32,
}

/// The specification value of a [`SingleInstanceLock`].
pub ghost struct SingleInstanceLockView {
    pub pid_file_path: Seq<Seq<char>>,
    pub pid: u32,
}

impl View for SingleInstanceLock {
    type V = SingleInstanceLockView;

    closed spec fn view(&self) -> SingleInstanceLockView {
        SingleInstanceLockView { pid_file_path: self.pid_file_path@, pid: self.pid }
    }
}

/// What to do next to take the lock.
#[derive(Debug, PartialEq, Eq)]
pub enum AcquireStep {
    /// Ask whether the process `pid` is alive, and go on with
    /// [`SingleInstanceLock::owner_probed`].
    Probe { pid: i32 },
    /// Ask for the exclusive lock on the lock file without waiting, and go on
    /// with [`SingleInstanceLock::lock_tried`].
    TryLock,
    /// The lock is taken: replace the contents of the lock file by the record
    /// of the lock, and keep the file open for as long as the daemon runs.
    Hold { lock: SingleInstanceLock },
    /// The lock is not to be had.
    Fail { error: LockError },
}

/// The specification value of an [`AcquireStep`].
pub ghost enum AcquireStepView {
    Probe { pid: i32 },
    TryLock,
    Hold { lock: SingleInstanceLockView },
    Fail { error: LockError },
}

impl View for AcquireStep {
    type V = AcquireStepView;

    open spec fn view(&self) -> AcquireStepView {
        match self {
            AcquireStep::Probe { pid } => AcquireStepView::Probe { pid: *pid },
            AcquireStep::TryLock => AcquireStepView::TryLock,
            AcquireStep::Hold { lock } => AcquireStepView::Hold { lock: lock@ },
            AcquireStep::Fail { error } => AcquireStepView::Fail { error: *error },
        }
    }
}

/// The first step of taking the lock, given the contents of the lock file: a
/// process that they name is probed, and without one the lock is tried at once.
pub open spec fn acquire_step_of(contents: Seq<char>) -> AcquireStepView {
    match pid_of(contents) {
        Some(pid) => AcquireStepView::Probe { pid },
        None => AcquireStepView::TryLock,
    }
}

/// The step after the probe of the process that the lock file names: a live
/// one ends the attempt, a dead one does not stand in the way.
pub open spec fn owner_probed_of(pid: i32, alive: bool) -> AcquireStepView {
    if alive {
        AcquireStepView::Fail { error: LockError::AlreadyRunning { pid: Some(pid) } }
    } else {
        AcquireStepView::TryLock
    }
}

/// The step after the attempt to lock the file at `pid_file_path`, made by
/// the process `current_pid`: the lock is held exactly if it was granted.
pub open spec fn lock_tried_of(pid_file_path: Seq<Seq<char>>, granted: bool, current_pid: u32) -> AcquireStepView {
    if granted {
        AcquireStepView::Hold { lock: SingleInstanceLockView { pid_file_path, pid: current_pid } }
    } else {
        AcquireStepView::Fail { error: LockError::AlreadyRunning { pid: None } }
    }
}

impl SingleInstanceLock {
    /// Starts to take the lock, given the contents of the lock file as they
    /// are once it is opened or created.
    pub fn acquire(contents: &str) -> (step: AcquireStep)
        ensures
            step@ == acquire_step_of(contents@),
    {
        match parse_pid(contents) {
            Some(pid) => AcquireStep::Probe { pid },
            None => AcquireStep::TryLock,
        }
    }

    /// Goes on after the probe of the process `pid` that the lock file names.
    pub fn owner_probed(pid: i32, alive: bool) -> (step: AcquireStep)
        ensures
            step@ == owner_probed_of(pid, alive),
    {
        if alive {
            AcquireStep::Fail { error: LockError::AlreadyRunning { pid: Some(pid) } }
        } else {
            AcquireStep::TryLock
        }
    }

    /// Goes on after the attempt to lock the file at `pid_file_path`, made by
    /// the process `current_pid`.
    pub fn lock_tried(pid_file_path: FsPath, granted: bool, current_pid: u32) -> (step: AcquireStep)
        ensures
            step@ == lock_tried_of(pid_file_path@, granted, current_pid),
    {
        if granted {
            AcquireStep::Hold { lock: SingleInstanceLock { pid_file_path, pid: current_pid } }
        } else {
            AcquireStep::Fail { error: LockError::AlreadyRunning { pid: None } }
        }
    }

    /// The path of the lock file.
    pub fn pid_file_path(&self) -> (path: &FsPath)
        ensures
            path@ == self@.pid_file_path,
    {
        &self.pid_file_path
    }

    /// The process that holds the lock.
    pub fn pid(&self) -> (pid: u32)
        ensures
            pid == self@.pid,
    {
        self.pid
    }

    /// The contents that the holder writes into the lock file.
    pub fn record(&self) -> (record: String)
        ensures
            record@ == pid_record_of(self@.pid),
    {
        pid_record(self.pid)
    }

    /// Gives the lock up: the path of the lock file, which is to be deleted.
    /// That the deletion fails is to be reported and is no error.
    pub fn release(self) -> (path: FsPath)
        ensures
            path@ == self@.pid_file_path,
    {
        self.pid_file_path
    }
}

/// The lock file as the operating system keeps it: its contents, and the
/// process that holds the exclusive lock on it, if one does.
pub ghost struct LockFile {
    pub contents: Seq<char>,
    pub holder: Option<u32>,
}

/// Whether the lock file contents `contents` name a process that is alive,
/// when the processes `alive` are the ones alive.
pub open spec fn names_live_process(contents: Seq<char>, alive: Set<int>) -> bool {
    match pid_of(contents) {
        Some(owner) => alive.contains(owner as int),
        None => false,
    }
}

/// How an attempt of the process `pid` to take the lock on the file at
/// `pid_file_path` ends. The attempt read `contents` from the file and found
/// the processes `alive` alive; `granted` says whether the operating system
/// gives it the lock when it asks.
pub open spec fn attempt_of(
    contents: Seq<char>,
    alive: Set<int>,
    granted: bool,
    pid_file_path: Seq<Seq<char>>,
    pid: u32,
) -> AcquireStepView {
    match acquire_step_of(contents) {
        AcquireStepView::Probe { pid: owner } => match owner_probed_of(
            owner,
            alive.contains(owner as int),
        ) {
            AcquireStepView::TryLock => lock_tried_of(pid_file_path, granted, pid),
            ended => ended,
        },
        _ => lock_tried_of(pid_file_path, granted, pid),
    }
}

/// The lock of the operating system decides: an attempt ends with the lock
/// held or with an error; it never holds a lock that was not granted; and it
/// holds the lock whenever the file it read names no live process and the
/// lock is granted.
pub proof fn lemma_lock_decides(
    contents: Seq<char>,
    alive: Set<int>,
    granted: bool,
    pid_file_path: Seq<Seq<char>>,
    pid: u32,
)
    ensures
        ({
            let end = attempt_of(contents, alive, granted, pid_file_path, pid);
            &&& end is Hold || end is Fail
            &&& end is Hold <==> granted && !names_live_process(contents, alive)
            &&& end is Hold ==> end == (AcquireStepView::Hold {
                lock: SingleInstanceLockView { pid_file_path, pid },
            })
            &&& end is Fail ==> end == (AcquireStepView::Fail {
                error: LockError::AlreadyRunning {
                    pid: if names_live_process(contents, alive) {
                        pid_of(contents)
                    } else {
                        None
                    },
                },
            })
        }),
{
}

/// Two attempts at the same time, whatever each of them read and found: as
/// the operating system grants the lock to one of them at most, one of them
/// at most holds it; and where it grants the lock to one of them and neither
/// read of a live process, exactly one holds it.
pub proof fn lemma_concurrent_attempts(
    contents_a: Seq<char>,
    contents_b: Seq<char>,
    alive: Set<int>,
    granted_a: bool,
    granted_b: bool,
    pid_file_path: Seq<Seq<char>>,
    pid_a: u32,
    pid_b: u32,
)
    requires
        !(granted_a && granted_b),
    ensures
        ({
            let a = attempt_of(contents_a, alive, granted_a, pid_file_path, pid_a);
            let b = attempt_of(contents_b, alive, granted_b, pid_file_path, pid_b);
            &&& !(a is Hold && b is Hold)
            &&& (granted_a || granted_b) && !names_live_process(contents_a, alive)
                && !names_live_process(contents_b, alive) ==> (a is Hold) != (b is Hold)
        }),
{
    lemma_lock_decides(contents_a, alive, granted_a, pid_file_path, pid_a);
    lemma_lock_decides(contents_b, alive, granted_b, pid_file_path, pid_b);
}

/// Whether the process `pid` gets the lock on `file`, when the processes
/// `alive` are the ones alive: the lock is granted exactly while nobody
/// holds it.
pub open spec fn acquires(file: LockFile, alive: Set<int>, pid: u32) -> bool {
    attempt_of(file.contents, alive, file.holder is None, Seq::empty(), pid) is Hold
}

/// The lock file after the process `pid` tried to take the lock.
pub open spec fn after_attempt(file: LockFile, alive: Set<int>, pid: u32) -> LockFile {
    if acquires(file, alive, pid) {
        LockFile { contents: pid_record_of(pid), holder: Some(pid) }
    } else {
        file
    }
}

/// The lock file after its holder gave the lock up: deleted, so that it is
/// empty when it is next opened, and locked by nobody.
pub open spec fn after_release(file: LockFile) -> LockFile {
    LockFile { contents: Seq::empty(), holder: None }
}

/// A lock file that names a process which is not alive does not keep anybody
/// from the lock: whoever asks while nobody holds the lock gets it.
pub proof fn lemma_stale_record_does_not_block(file: LockFile, alive: Set<int>, pid: u32)
    requires
        file.holder is None,
        !names_live_process(file.contents, alive),
    ensures
        acquires(file, alive, pid),
{
}

/// Of two attempts on a free lock file that names no live process, the first
/// takes the lock and the second, made while the first holds it, does not;
/// once the first has given the lock up, a third attempt takes it.
pub proof fn lemma_one_holder(file: LockFile, alive: Set<int>, first: u32, second: u32, third: u32)
    requires
        file.holder is None,
        !names_live_process(file.contents, alive),
    ensures
        acquires(file, alive, first),
        !acquires(after_attempt(file, alive, first), alive.insert(first as int), second),
        acquires(
            after_release(after_attempt(file, alive, first)),
            alive.remove(first as int),
            third,
        ),
{
    let held = after_attempt(file, alive, first);
    assert(held.holder == Some(first));
    let free = after_release(held);
    assert(trim_of(free.contents) =~= Seq::<char>::empty()) by {
        assert(crate::text::leading_whitespace(free.contents) == 0);
        assert(free.contents.skip(0) =~= free.contents);
        assert(crate::text::trailing_whitespace(free.contents) == 0);
    }
    assert(pid_of(free.contents) is None);
}

/// Why the daemon was not stopped.
#[derive(Debug, PartialEq, Eq)]
pub enum StopError {
    /// There is no lock file, so no daemon runs.
    NotRunning,
    /// The lock file holds nothing but white space.
    EmptyPidFile,
    /// The lock file holds `text`, which names no process.
    InvalidPid { text: String },
    /// The lock file names the process `pid`, which is not alive.
    Stale { pid: i32 },
    /// The termination signal could not be sent to the process `pid`, for `reason`.
    SignalFailed { pid: i32, reason: String },
}

/// The specification value of a [`StopError`].
pub ghost enum StopErrorView {
    NotRunning,
    EmptyPidFile,
    InvalidPid { text: Seq<char> },
    Stale { pid: i32 },
    SignalFailed { pid: i32, reason: Seq<char> },
}

impl View for StopError {
    type V = StopErrorView;

    open spec fn view(&self) -> StopErrorView {
        match self {
            StopError::NotRunning => StopErrorView::NotRunning,
            StopError::EmptyPidFile => StopErrorView::EmptyPidFile,
            StopError::InvalidPid { text } => StopErrorView::InvalidPid { text: text@ },
            StopError::Stale { pid } => StopErrorView::Stale { pid: *pid },
            StopError::SignalFailed { pid, reason } => StopErrorView::SignalFailed {
                pid: *pid,
                reason: reason@,
            },
        }
    }
}

/// The kind of the error `error`.
pub open spec fn stop_kind_of(error: StopErrorView) -> ErrorKind {
    match error {
        StopErrorView::NotRunning => ErrorKind::NotFound,
        StopErrorView::EmptyPidFile => ErrorKind::InvalidData,
        StopErrorView::InvalidPid { .. } => ErrorKind::InvalidData,
        StopErrorView::Stale { .. } => ErrorKind::NotFound,
        StopErrorView::SignalFailed { .. } => ErrorKind::PermissionDenied,
    }
}

/// The error `error` in words.
pub open spec fn stop_message_of(error: StopErrorView) -> Seq<char> {
    match error {
        StopErrorView::NotRunning => "No daemon is currently running (PID file not found)"@,
        StopErrorView::EmptyPidFile => "PID file is empty or contains no valid PID"@,
        StopErrorView::InvalidPid { text } => "Invalid PID in lock file: '"@ + text + "'"@,
        StopErrorView::Stale { pid } => "Daemon process with PID "@ + signed_digits(pid as int)
            + " is not running (removing stale PID file)"@,
        StopErrorView::SignalFailed { pid, reason } => "Failed to terminate daemon process with PID "@
            + signed_digits(pid as int) + ": "@ + reason,
    }
}

impl StopError {
    /// The kind of the error: that no daemon runs is something not found, a
    /// lock file that names no process is invalid data, and a signal that
    /// cannot be sent is a permission denied.
    pub fn kind(&self) -> (kind: ErrorKind)
        ensures
            kind == stop_kind_of(self@),
    {
        match self {
            StopError::NotRunning => ErrorKind::NotFound,
            StopError::EmptyPidFile => ErrorKind::InvalidData,
            StopError::InvalidPid { .. } => ErrorKind::InvalidData,
            StopError::Stale { .. } => ErrorKind::NotFound,
            StopError::SignalFailed { .. } => ErrorKind::PermissionDenied,
        }
    }

    /// The error in words.
    pub fn message(&self) -> (text: String)
        ensures
            text@ == stop_message_of(self@),
    {
        match self {
            StopError::NotRunning => String::from_str(
                "No daemon is currently running (PID file not found)",
            ),
            StopError::EmptyPidFile => String::from_str("PID file is empty or contains no valid PID"),
            StopError::InvalidPid { text } => {
                let mut message = String::from_str("Invalid PID in lock file: '");
                message.append(text.as_str());
                message.append("'");
                message
            },
            StopError::Stale { pid } => {
                let mut message = String::from_str("Daemon process with PID ");
                let digits = signed_text(*pid);
                message.append(digits.as_str());
                message.append(" is not running (removing stale PID file)");
                message
            },
            StopError::SignalFailed { pid, reason } => {
                let mut message = String::from_str("Failed to terminate daemon process with PID ");
                let digits = signed_text(*pid);
                message.append(digits.as_str());
                message.append(": ");
                message.append(reason.as_str());
                message
            },
        }
    }
}

/// How long to wait after the termination signal was sent, in milliseconds.
pub const STOP_SETTLE_MILLIS: u64 = 100;

/// What to do next to stop the daemon.
#[derive(Debug, PartialEq, Eq)]
pub enum StopStep {
    /// Ask whether the process `pid` is alive, and go on with [`stop_probed`].
    Probe { pid: i32 },
    /// Delete the lock file, which is stale, and whether or not that works
    /// report `error`.
    RemoveStale { error: StopError },
    /// Send the termination signal to the process `pid`, and go on with
    /// [`stop_signalled`].
    Terminate { pid: i32 },
    /// Wait for `millis` milliseconds and report success, whether or not the
    /// process has ended by then.
    Settle { millis: u64 },
    /// Report `error`.
    Fail { error: StopError },
}

/// The specification value of a [`StopStep`].
pub ghost enum StopStepView {
    Probe { pid: i32 },
    RemoveStale { error: StopErrorView },
    Terminate { pid: i32 },
    Settle { millis: u64 },
    Fail { error: StopErrorView },
}

impl View for StopStep {
    type V = StopStepView;

    open spec fn view(&self) -> StopStepView {
        match self {
            StopStep::Probe { pid } => StopStepView::Probe { pid: *pid },
            StopStep::RemoveStale { error } => StopStepView::RemoveStale { error: error@ },
            StopStep::Terminate { pid } => StopStepView::Terminate { pid: *pid },
            StopStep::Settle { millis } => StopStepView::Settle { millis: *millis },
            StopStep::Fail { error } => StopStepView::Fail { error: error@ },
        }
    }
}

/// The first step of stopping the daemon, given the contents of the lock
/// file, or nothing where there is no lock file: without a file no daemon
/// runs; a file that names no process is reported as it is, empty or invalid;
/// a process that the file names is probed.
pub open spec fn stop_step_of(pid_file: Option<Seq<char>>) -> StopStepView {
    match pid_file {
        None => StopStepView::Fail { error: StopErrorView::NotRunning },
        Some(contents) => if trim_of(contents).len() == 0 {
            StopStepView::Fail { error: StopErrorView::EmptyPidFile }
        } else {
            match pid_of(contents) {
                Some(pid) => StopStepView::Probe { pid },
                None => StopStepView::Fail {
                    error: StopErrorView::InvalidPid { text: trim_of(contents) },
                },
            }
        },
    }
}

/// The step after the probe of the process that the lock file names: a live
/// one gets the termination signal; with a dead one the lock file is stale.
pub open spec fn stop_probed_of(pid: i32, alive: bool) -> StopStepView {
    if alive {
        StopStepView::Terminate { pid }
    } else {
        StopStepView::RemoveStale { error: StopErrorView::Stale { pid } }
    }
}

/// The step after the termination signal was sent to `pid`, or could not be
/// sent for the reason `failure`: to have sent it is success.
pub open spec fn stop_signalled_of(pid: i32, failure: Option<Seq<char>>) -> StopStepView {
    match failure {
        None => StopStepView::Settle { millis: STOP_SETTLE_MILLIS },
        Some(reason) => StopStepView::Fail { error: StopErrorView::SignalFailed { pid, reason } },
    }
}

/// Starts to stop the daemon, given the contents of the lock file, or
/// nothing where there is no lock file.
pub fn stop_daemon(pid_file: Option<&str>) -> (step: StopStep)
    ensures
        step@ == stop_step_of(
            match pid_file {
                Some(contents) => Some(contents@),
                None => None,
            },
        ),
{
    match pid_file {
        None => StopStep::Fail { error: StopError::NotRunning },
        Some(contents) => {
            let text = trim(contents);
            if text.unicode_len() == 0 {
                StopStep::Fail { error: StopError::EmptyPidFile }
            } else {
                match parse_pid(contents) {
                    Some(pid) => StopStep::Probe { pid },
                    None => StopStep::Fail {
                        error: StopError::InvalidPid { text: String::from_str(text) },
                    },
                }
            }
        },
    }
}

/// Goes on after the probe of the process `pid` that the lock file names.
pub fn stop_probed(pid: i32, alive: bool) -> (step: StopStep)
    ensures
        step@ == stop_probed_of(pid, alive),
{
    if alive {
        StopStep::Terminate { pid }
    } else {
        StopStep::RemoveStale { error: StopError::Stale { pid } }
    }
}

/// Goes on after the termination signal was sent to the process `pid`, or
/// could not be sent for the reason `failure`.
pub fn stop_signalled(pid: i32, failure: Option<String>) -> (step: StopStep)
    ensures
        step@ == stop_signalled_of(
            pid,
            match failure {
                Some(reason) => Some(reason@),
                None => None,
            },
        ),
{
    match failure {
        None => StopStep::Settle { millis: STOP_SETTLE_MILLIS },
        Some(reason) => StopStep::Fail { error: StopError::SignalFailed { pid, reason } },
    }
}

} // verus!
