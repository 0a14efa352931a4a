//! The file operations that the identity procedures ask for, and the replies.

use vstd::prelude::*;

verus! {

/// One second, in nanoseconds.
pub const SECOND: u64 = 1_000_000_000;

/// One millisecond, in nanoseconds.
pub const MILLISECOND: u64 = 1_000_000;

/// How long a start keeps reading a key that another start may still be
/// publishing.
pub const KEY_RACE_DEADLINE: u64 = 5_000_000_000;

/// The age at which a recovery claim counts as orphaned: twice
/// [`KEY_RACE_DEADLINE`]. It is also the age below which a quarantined key may
/// still be adopted.
pub const CLAIM_SWEEP_MIN_AGE: u64 = 10_000_000_000;

/// How long quarantined and superseded files are kept beside a healthy key.
pub const SUPERSEDED_RETENTION: u64 = 86_400_000_000_000;

/// How long the crash signature has to persist before it is acted on.
pub const CRASH_SIGNATURE_MIN_PERSIST: u64 = 250_000_000;

/// How many names a procedure tries before it gives up.
pub const KEY_TEMP_ATTEMPTS: u32 = 64;

/// The pause between two polls.
pub const POLL_PAUSE: u64 = 2_000_000;

/// How long a demoted publisher waits for recovery claims to clear:
/// [`CLAIM_SWEEP_MIN_AGE`] and one second.
pub const CLAIM_WAIT_BOUND: u64 = 11_000_000_000;

/// When the delayed second sweep runs, counted from the start of the process:
/// [`CLAIM_SWEEP_MIN_AGE`] and two seconds.
pub const RESWEEP_DELAY: u64 = 12_000_000_000;

/// How often a live recovery refreshes its claims: a quarter of
/// [`CLAIM_SWEEP_MIN_AGE`].
pub const CLAIM_BEAT: u64 = 2_500_000_000;

/// The sleep between two looks at the heartbeat's stop flag.
pub const CLAIM_BEAT_GRANULE: u64 = 250_000_000;

/// The permission bits a key file must have.
pub const KEY_MODE: u32 = 0o600;

/// A file beside the identity key.
#[derive(Clone, Copy, PartialEq, Eq, Structural, Debug)]
pub enum FileRef {
    /// The identity key itself.
    Final,
    /// The temporary file with this number.
    Temp(u32),
    /// The publish marker with this number.
    Marker(u32),
    /// The recovery claim with this number.
    Claim(u32),
    /// The quarantined key with this number.
    Quarantine(u32),
    /// The superseded key with this number.
    Superseded(u32),
    /// A file that a directory listing returned under this id.
    Listed(u64),
}

/// What an I/O error says about the file.
#[derive(Clone, Copy, PartialEq, Eq, Structural, Debug)]
pub enum IoKind {
    NotFound,
    AlreadyExists,
    Other,
}

/// An I/O error: its kind, and the caller's number for the error itself.
#[derive(Clone, Copy, PartialEq, Eq, Structural, Debug)]
pub struct IoError {
    pub kind: IoKind,
    pub id: u64,
}

/// A file operation.
#[derive(Debug)]
pub enum KeyOp {
    /// Does the file exist?
    Exists(FileRef),
    /// Create the file, failing if it exists; key files get mode 0600.
    CreateNew(FileRef),
    /// Set the file's mode to 0600.
    Tighten(FileRef),
    /// The file's mode.
    Stat(FileRef),
    /// Write the PEM of the numbered key into the file just created.
    WriteKey(FileRef, u64),
    /// Flush the file just written to disk.
    SyncFile(FileRef),
    /// Link the first file under the name of the second, failing if it exists.
    HardLink(FileRef, FileRef),
    /// Remove the file.
    Remove(FileRef),
    /// Rename the first file to the second.
    Rename(FileRef, FileRef),
    /// Flush the key directory to disk.
    SyncDir,
    /// Open the identity key read-only and flush it to disk.
    SyncFinal,
    /// Read the file and parse it as a key.
    ReadKey(FileRef),
    /// Generate a key and serialise it.
    GenerateKey,
    /// Create the key directory, with its parents.
    CreateParent,
    /// Set the claim's modification time to now.
    StampClaim(u32),
    /// Append one byte to the claim, which moves its modification time too.
    AppendClaim(u32),
    /// Begin refreshing the given claims.
    StartHeartbeat(Vec<u32>),
    /// Stop the refreshing, remove the given claims and flush the directory,
    /// each as far as it succeeds.
    ReleaseClaims(Vec<u32>),
    /// Remove the listed files, each as far as it succeeds.
    RemoveListed(Vec<u64>),
    /// The recovery claims present.
    ListClaims,
    /// The files a recovery may claim.
    ListClaimables,
    /// The publish markers present.
    ListMarkers,
    /// The young quarantined keys, newest first.
    ListAdoptable,
    /// The young quarantined keys other than this file.
    ListSiblings(FileRef),
    /// The files a sweep removes.
    ListStale,
    /// Sleep for so many nanoseconds.
    Pause(u64),
}

/// The reply to a file operation.
#[derive(Debug)]
pub enum Reply {
    /// The operation succeeded.
    Done,
    /// The operation failed.
    Failed(IoError),
    /// Whether the file exists.
    Present(bool),
    /// The file's mode.
    Mode(u32),
    /// The key that was read or generated, by the caller's number for it.
    Key(u64),
    /// The file was read and holds no key; the caller's number for the error.
    BadKey(u64),
    /// The files of a listing.
    Ids(Vec<u64>),
}

/// Whether `reply` is one that `op` can be answered with.
pub open spec fn answers(op: KeyOp, reply: Reply) -> bool {
    match op {
        KeyOp::Exists(_) => reply is Present,
        KeyOp::Stat(_) => reply is Mode || reply is Failed,
        KeyOp::ReadKey(_) => reply is Key || reply is BadKey || reply is Failed,
        KeyOp::GenerateKey => reply is Key || reply is Failed,
        KeyOp::ListClaims | KeyOp::ListClaimables | KeyOp::ListMarkers | KeyOp::ListAdoptable
        | KeyOp::ListSiblings(_) | KeyOp::ListStale => reply is Ids || reply is Failed,
        KeyOp::StartHeartbeat(_) | KeyOp::ReleaseClaims(_) | KeyOp::RemoveListed(_)
        | KeyOp::Pause(_) => reply is Done,
        _ => reply is Done || reply is Failed,
    }
}

/// The ids of a listing; a directory that cannot be read has none.
pub open spec fn listed(reply: Reply) -> Seq<u64> {
    match reply {
        Reply::Ids(ids) => ids@,
        _ => Seq::empty(),
    }
}

/// A listing's length is a machine number.
pub proof fn listing_fits(reply: Reply)
    ensures
        listed(reply).len() <= usize::MAX,
{
    if let Reply::Ids(ids) = reply {
        assert(ids.len() == ids@.len());
    }
}

/// The time from `since` to `now` on a clock that does not go back.
pub open spec fn elapsed_spec(since: u64, now: u64) -> nat {
    if now >= since { (now - since) as nat } else { 0 }
}

/// The time from `since` to `now`.
pub fn elapsed(since: u64, now: u64) -> (r: u64)
    ensures
        r == elapsed_spec(since, now),
{
    now.saturating_sub(since)
}

/// Whether a file mode is exactly 0600 in its permission bits.
pub open spec fn is_key_mode(mode: u32) -> bool {
    mode & 0o777 == KEY_MODE
}

/// Whether a file mode is exactly 0600 in its permission bits.
pub fn key_mode_ok(mode: u32) -> (r: bool)
    ensures
        r == is_key_mode(mode),
{
    mode & 0o777 == KEY_MODE
}

impl Reply {
    /// The error, where the operation failed.
    pub fn error(&self) -> (r: Option<IoError>)
        ensures
            r == (match *self {
                Reply::Failed(e) => Some(e),
                _ => None,
            }),
    {
        match self {
            Reply::Failed(e) => Some(*e),
            _ => None,
        }
    }

    /// Whether the reply says that the file exists.
    pub fn present(&self) -> (r: bool)
        ensures
            r == (*self == Reply::Present(true)),
    {
        match self {
            Reply::Present(b) => *b,
            _ => false,
        }
    }

    /// The ids of a listing; a directory that cannot be read has none.
    pub fn into_ids(self) -> (r: Vec<u64>)
        ensures
            r@ == listed(self),
    {
        match self {
            Reply::Ids(ids) => ids,
            _ => Vec::new(),
        }
    }
}

/// The modes of a key file, in numbers: its nine permission bits, the mode modulo
/// 512, are those of 0600. The owner may read and write it, and not run it; the
/// group and the others may do nothing with it. The bits above the nine do not
/// matter.
pub proof fn key_modes_in_numbers(mode: u32)
    ensures
        is_key_mode(mode) <==> mode % 0o1000 == 0o600,
        is_key_mode(mode) <==> (mode / 0o400) % 2 == 1 && (mode / 0o200) % 2 == 1 && mode % 0o200
            == 0,
        KEY_MODE == 0o600,
{
    assert(mode & 0o777 == mode % 0o1000) by (bit_vector);
    assert(mode % 0o1000 == 0o600 <==> (mode / 0o400) % 2 == 1 && (mode / 0o200) % 2 == 1 && mode
        % 0o200 == 0) by (bit_vector);
}

/// The time from one moment to a later one is their difference; a clock that went
/// back has not moved.
pub proof fn elapsed_times(since: u64, now: u64)
    ensures
        since <= now ==> since + elapsed_spec(since, now) == now,
        now <= since ==> elapsed_spec(since, now) == 0,
{
}

/// The time limits fit each other: an orphaned claim is twice as old as the longest
/// race, a demoted publisher waits for longer than that and the second sweep comes
/// later still; a live recovery refreshes its claims four times before they count
/// as orphaned, and a crash is told within the race.
pub proof fn time_limits_fit()
    ensures
        KEY_RACE_DEADLINE == 5 * SECOND,
        CLAIM_SWEEP_MIN_AGE == 2 * KEY_RACE_DEADLINE,
        CLAIM_WAIT_BOUND == CLAIM_SWEEP_MIN_AGE + SECOND,
        RESWEEP_DELAY == CLAIM_SWEEP_MIN_AGE + 2 * SECOND,
        CLAIM_BEAT * 4 == CLAIM_SWEEP_MIN_AGE,
        CLAIM_BEAT_GRANULE == 250 * MILLISECOND,
        CRASH_SIGNATURE_MIN_PERSIST == 250 * MILLISECOND,
        POLL_PAUSE == 2 * MILLISECOND,
        SUPERSEDED_RETENTION == 24 * 60 * 60 * SECOND,
        SECOND == 1000 * MILLISECOND,
        MILLISECOND == 1_000_000,
        KEY_TEMP_ATTEMPTS == 64,
{
}

} // verus!
