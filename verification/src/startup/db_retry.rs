//! Connecting to the database: again and again, ever more slowly.

use vstd::arithmetic::power2::{
    lemma_pow2_pos, lemma_pow2_strictly_increases, lemma_pow2_unfold, pow2,
};
use vstd::prelude::*;

use crate::text::starts_with;

verus! {

/// Why a connection failed, as far as it matters.
#[derive(Debug)]
pub enum DbError {
    /// The database URL is malformed.
    Configuration,
    /// The database answered, with this error code where it gave one.
    Database(Option<String>),
    /// Anything else, a timeout included.
    Other,
}

/// Whether an error code says that we were rejected: invalid authorisation (the
/// class 28), or no such database (3D000).
pub open spec fn rejection_code(code: Seq<char>) -> bool {
    crate::text::has_prefix(code, "28"@) || code == "3D000"@
}

/// Whether an error will hardly go away by itself.
pub open spec fn permanent(e: DbError) -> bool {
    match e {
        DbError::Configuration => true,
        DbError::Database(Some(code)) => rejection_code(code@),
        _ => false,
    }
}

/// Whether an error will hardly go away by itself.
pub fn is_likely_permanent_db_error(e: &DbError) -> (r: bool)
    ensures
        r == permanent(*e),
{
    match e {
        DbError::Configuration => true,
        DbError::Database(Some(code)) => {
            let code = code.as_str();
            let same = starts_with(code, "3D000") && starts_with("3D000", code);
            assert(code@.take(code@.len() as int) =~= code@);
            starts_with(code, "28") || same
        },
        _ => false,
    }
}

/// The exponent of the delay after so many attempts.
pub open spec fn delay_exponent(attempts: u64) -> nat {
    if attempts == 0 {
        0
    } else if attempts - 1 > 63 {
        63
    } else {
        (attempts - 1) as nat
    }
}

/// The delay after so many attempts: doubled with each, up to the maximum.
pub open spec fn retry_delay(initial_secs: u64, max_secs: u64, attempts: u64) -> int {
    let doubled = initial_secs * pow2(delay_exponent(attempts));
    if doubled <= max_secs { doubled } else { max_secs as int }
}

/// The delay, in seconds, after so many attempts.
pub fn database_retry_delay_secs(initial_secs: u64, max_secs: u64, attempts: u64) -> (r: u64)
    ensures
        r == retry_delay(initial_secs, max_secs, attempts),
{
    let less: u64 = attempts.saturating_sub(1);
    let exponent: u64 = if less > 63 { 63 } else { less };
    let mut delay: u64 = initial_secs;
    let mut i: u64 = 0;
    proof {
        vstd::arithmetic::power2::lemma2_to64();
        assert(initial_secs * pow2(0) == initial_secs) by (nonlinear_arith)
            requires
                pow2(0) == 1,
        ;
    }
    while i < exponent
        invariant
            i <= exponent,
            exponent as nat == delay_exponent(attempts),
            delay == initial_secs * pow2(i as nat),
        decreases exponent - i,
    {
        proof {
            lemma_pow2_unfold((i + 1) as nat);
            assert(initial_secs * (2 * pow2(i as nat)) == 2 * (initial_secs * pow2(i as nat)))
                by (nonlinear_arith);
        }
        if delay > max_secs / 2 {
            proof {
                doubling_grows(initial_secs, (i + 1) as nat, exponent as nat);
            }
            return max_secs;
        }
        delay = delay * 2;
        i = i + 1;
    }
    if delay <= max_secs {
        delay
    } else {
        max_secs
    }
}

proof fn doubling_grows(initial_secs: u64, a: nat, b: nat)
    requires
        a <= b,
    ensures
        initial_secs * pow2(a) <= initial_secs * pow2(b),
        initial_secs <= initial_secs * pow2(a),
{
    lemma_pow2_pos(a);
    if a < b {
        lemma_pow2_strictly_increases(a, b);
    }
    assert(initial_secs * pow2(a) <= initial_secs * pow2(b)) by (nonlinear_arith)
        requires
            pow2(a) <= pow2(b),
    ;
    assert(initial_secs <= initial_secs * pow2(a)) by (nonlinear_arith)
        requires
            pow2(a) >= 1,
    ;
}

/// Delays do not shrink from attempt to attempt, and never pass the maximum.
pub proof fn delays_grow_up_to_the_maximum(initial_secs: u64, max_secs: u64, a: u64, b: u64)
    requires
        a <= b,
    ensures
        retry_delay(initial_secs, max_secs, a) <= retry_delay(initial_secs, max_secs, b),
        retry_delay(initial_secs, max_secs, b) <= max_secs,
        initial_secs <= max_secs ==> retry_delay(initial_secs, max_secs, a) >= initial_secs,
{
    doubling_grows(initial_secs, delay_exponent(a), delay_exponent(b));
}

/// Where the connecting stands: what it waits for.
#[derive(Clone, Copy, PartialEq, Eq, Structural, Debug)]
pub enum DbPhase {
    /// Has the node been told to end?
    CheckShutdown,
    /// Connect, and bring the schema up to date.
    Attempt,
    /// Sleep for so many seconds, or until the shutdown signal changes.
    Sleep(u64),
    /// The connection stands.
    Connected,
    /// The node was told to end.
    Stopped,
}

/// The connecting to the database.
#[derive(Clone, Copy, PartialEq, Eq, Structural, Debug)]
pub struct DbRetry {
    pub phase: DbPhase,
    pub initial_secs: u64,
    pub max_secs: u64,
    /// The attempts so far.
    pub attempts: u64,
    /// The delay before the next one.
    pub next_retry_secs: u64,
}

/// What happened.
#[derive(Debug)]
pub enum DbEvent {
    /// Whether the node has been told to end.
    Shutdown(bool),
    /// The attempt succeeded.
    Connected,
    /// The attempt failed.
    Failed(DbError),
    /// The sleep is over.
    Slept,
    /// The shutdown signal changed, or its sender is gone.
    SignalChanged { gone: bool, value: bool },
}

/// Whether an event answers what the phase waits for.
pub open spec fn db_event_fits(phase: DbPhase, e: DbEvent) -> bool {
    match phase {
        DbPhase::CheckShutdown => e is Shutdown,
        DbPhase::Attempt => e is Connected || e is Failed,
        DbPhase::Sleep(_) => e is Slept || e is SignalChanged,
        DbPhase::Connected | DbPhase::Stopped => false,
    }
}

/// The connecting after a failed attempt: it sleeps, at once for the longest
/// where the error will hardly go away.
pub open spec fn after_db_failure(s: DbRetry, e: DbError) -> DbRetry {
    let secs = if permanent(e) {
        s.max_secs
    } else {
        retry_delay(s.initial_secs, s.max_secs, s.attempts) as u64
    };
    DbRetry { phase: DbPhase::Sleep(secs), next_retry_secs: secs, ..s }
}

/// What an event leads to.
pub open spec fn db_next_spec(s: DbRetry, e: DbEvent) -> DbRetry {
    match e {
        DbEvent::Shutdown(stop) => if stop {
            DbRetry { phase: DbPhase::Stopped, ..s }
        } else {
            DbRetry {
                phase: DbPhase::Attempt,
                attempts: if s.attempts == u64::MAX { u64::MAX } else { (s.attempts + 1) as u64 },
                ..s
            }
        },
        DbEvent::Connected => DbRetry { phase: DbPhase::Connected, ..s },
        DbEvent::Failed(err) => after_db_failure(s, err),
        DbEvent::Slept => DbRetry { phase: DbPhase::CheckShutdown, ..s },
        DbEvent::SignalChanged { gone, value } => DbRetry {
            phase: if gone || value { DbPhase::Stopped } else { DbPhase::CheckShutdown },
            ..s
        },
    }
}

impl DbRetry {
    /// Begins to connect. The longest delay is at least the first one.
    pub fn connect_db_with_retry(initial_secs: u64, max_secs: u64) -> (r: Self)
        ensures
            r == (DbRetry {
                phase: DbPhase::CheckShutdown,
                initial_secs,
                max_secs: if max_secs >= initial_secs { max_secs } else { initial_secs },
                attempts: 0,
                next_retry_secs: 0,
            }),
            r == db_start(initial_secs, max_secs),
    {
        DbRetry {
            phase: DbPhase::CheckShutdown,
            initial_secs,
            max_secs: if max_secs >= initial_secs { max_secs } else { initial_secs },
            attempts: 0,
            next_retry_secs: 0,
        }
    }

    /// Takes an event.
    pub fn step(&mut self, e: DbEvent)
        requires
            db_event_fits(old(self).phase, e),
        ensures
            *final(self) == db_next_spec(*old(self), e),
    {
        match e {
            DbEvent::Shutdown(stop) => {
                if stop {
                    self.phase = DbPhase::Stopped;
                } else {
                    self.phase = DbPhase::Attempt;
                    self.attempts = self.attempts.saturating_add(1);
                }
            },
            DbEvent::Connected => {
                self.phase = DbPhase::Connected;
            },
            DbEvent::Failed(err) => {
                let secs: u64 = if is_likely_permanent_db_error(&err) {
                    self.max_secs
                } else {
                    database_retry_delay_secs(self.initial_secs, self.max_secs, self.attempts)
                };
                self.phase = DbPhase::Sleep(secs);
                self.next_retry_secs = secs;
            },
            DbEvent::Slept => {
                self.phase = DbPhase::CheckShutdown;
            },
            DbEvent::SignalChanged { gone, value } => {
                self.phase = if gone || value {
                    DbPhase::Stopped
                } else {
                    DbPhase::CheckShutdown
                };
            },
        }
    }
}

/// The connecting never gives up by itself: it ends only with a connection or
/// with the shutdown signal.
pub proof fn only_success_or_shutdown_ends(s: DbRetry, e: DbEvent)
    requires
        db_event_fits(s.phase, e),
    ensures
        db_next_spec(s, e).phase is Connected <==> e is Connected,
        db_next_spec(s, e).phase is Stopped <==> e == DbEvent::Shutdown(true) || (e
            matches DbEvent::SignalChanged { gone, value } && (gone || value)),
{
}

/// Every sleep is between the first delay and the longest one.
pub proof fn sleeps_are_bounded(s: DbRetry, e: DbError)
    requires
        s.phase is Attempt,
        s.initial_secs <= s.max_secs,
    ensures
        after_db_failure(s, e).phase == DbPhase::Sleep(after_db_failure(s, e).next_retry_secs),
        s.initial_secs <= after_db_failure(s, e).next_retry_secs <= s.max_secs,
        permanent(e) ==> after_db_failure(s, e).next_retry_secs == s.max_secs,
{
    delays_grow_up_to_the_maximum(s.initial_secs, s.max_secs, s.attempts, s.attempts);
}

/// The connecting at its beginning.
pub open spec fn db_start(initial_secs: u64, max_secs: u64) -> DbRetry {
    DbRetry {
        phase: DbPhase::CheckShutdown,
        initial_secs,
        max_secs: if max_secs >= initial_secs { max_secs } else { initial_secs },
        attempts: 0,
        next_retry_secs: 0,
    }
}

/// The connecting begins with the question whether to end, before any attempt;
/// the longest delay is the larger of the two that were asked for.
pub proof fn connecting_begins(initial_secs: u64, max_secs: u64)
    ensures
        ({
            let s = db_start(initial_secs, max_secs);
            &&& s.phase is CheckShutdown
            &&& s.attempts == 0 && s.next_retry_secs == 0
            &&& s.initial_secs == initial_secs
            &&& s.max_secs >= initial_secs && s.max_secs >= max_secs
            &&& s.max_secs == initial_secs || s.max_secs == max_secs
        }),
{
}

/// Where a run of events leads.
pub open spec fn db_after(s: DbRetry, events: Seq<DbEvent>) -> DbRetry
    decreases events.len(),
{
    if events.len() == 0 {
        s
    } else {
        db_next_spec(db_after(s, events.drop_last()), events.last())
    }
}

/// Whether every event of a run answers what was waited for.
pub open spec fn db_run(s: DbRetry, events: Seq<DbEvent>) -> bool
    decreases events.len(),
{
    events.len() > 0 ==> {
        &&& db_run(s, events.drop_last())
        &&& db_event_fits(db_after(s, events.drop_last()).phase, events.last())
    }
}

/// The attempts of a run: as often as the node was found not to be told to end.
pub open spec fn attempts_made(events: Seq<DbEvent>) -> nat
    decreases events.len(),
{
    if events.len() == 0 {
        0
    } else {
        attempts_made(events.drop_last()) + if events.last() == DbEvent::Shutdown(false) {
            1nat
        } else {
            0
        }
    }
}

proof fn attempts_add_up(s: DbRetry, events: Seq<DbEvent>)
    requires
        db_run(s, events),
        s.phase is CheckShutdown,
        s.attempts == 0,
    ensures
        db_after(s, events).attempts == (if attempts_made(events) <= u64::MAX {
            attempts_made(events) as int
        } else {
            u64::MAX as int
        }),
        db_after(s, events).initial_secs == s.initial_secs,
        db_after(s, events).max_secs == s.max_secs,
        db_after(s, events).phase is Attempt ==> attempts_made(events) > 0,
    decreases events.len(),
{
    if events.len() > 0 {
        attempts_add_up(s, events.drop_last());
    }
}

/// The attempts are counted, each as it begins, up to the end of the counter's
/// range; the delays that were asked for stay.
pub proof fn attempts_are_counted(s: DbRetry, events: Seq<DbEvent>)
    requires
        db_run(s, events),
        s.phase is CheckShutdown,
        s.attempts == 0,
        attempts_made(events) <= u64::MAX,
    ensures
        db_after(s, events).attempts == attempts_made(events),
        db_after(s, events).initial_secs == s.initial_secs,
        db_after(s, events).max_secs == s.max_secs,
{
    attempts_add_up(s, events);
}

/// Whether the error is one of the database, with this code.
pub open spec fn has_code(e: DbError, code: Seq<char>) -> bool {
    e matches DbError::Database(Some(c)) && c@ == code
}

/// An error will hardly go away by itself exactly if the URL is malformed, or the
/// database answered with a code that begins with the digits 2 and 8, or with the
/// code 3D000.
pub proof fn permanent_errors_are_rejections(e: DbError)
    ensures
        permanent(e) <==> e is Configuration || (exists|code: Seq<char>| #[trigger]
            has_code(e, code) && ((code.len() >= 2 && code[0] == '2' && code[1] == '8') || code
                == seq!['3', 'D', '0', '0', '0'])),
{
    reveal_strlit("28");
    reveal_strlit("3D000");
    assert("3D000"@ =~= seq!['3', 'D', '0', '0', '0']);
    if let DbError::Database(Some(c)) = e {
        assert(has_code(e, c@));
        let code = c@;
        if code.len() >= 2 && code[0] == '2' && code[1] == '8' {
            assert(code.take(2) =~= "28"@);
        }
        if crate::text::has_prefix(code, "28"@) {
            assert(code.take(2)[0] == code[0] && code.take(2)[1] == code[1]);
        }
    }
}

/// The first delay doubled so many times, up to the longest; from the
/// sixty-fourth attempt on it is doubled no more.
pub open spec fn doubled_up_to(initial_secs: u64, max_secs: u64, times: nat) -> int {
    let doubled = initial_secs * pow2(if times <= 63 { times } else { 63 });
    if doubled <= max_secs { doubled } else { max_secs as int }
}

/// The connecting slows down: after `n` attempts of which the last has failed with
/// an error that may go away, it sleeps for the first delay doubled `n - 1` times,
/// up to the longest delay, and says so. After an error that will hardly go away
/// it sleeps for the longest delay, whatever the number of attempts.
pub proof fn sleeps_double_with_the_attempts(s: DbRetry, events: Seq<DbEvent>, e: DbError)
    requires
        db_run(s, events.push(DbEvent::Failed(e))),
        s.phase is CheckShutdown,
        s.attempts == 0,
    ensures
        ({
            let after = db_after(s, events.push(DbEvent::Failed(e)));
            let n = attempts_made(events);
            let secs = if permanent(e) {
                s.max_secs as int
            } else {
                doubled_up_to(s.initial_secs, s.max_secs, (n - 1) as nat)
            };
            &&& n > 0
            &&& after.phase matches DbPhase::Sleep(t) && t == secs
            &&& after.next_retry_secs == secs
        }),
{
    let longer = events.push(DbEvent::Failed(e));
    assert(longer.drop_last() =~= events);
    attempts_add_up(s, events);
}

/// Of two failures in a row that may go away, the second is followed by a sleep of
/// twice the length, or of the longest delay.
pub proof fn the_next_sleep_is_twice_as_long(
    s: DbRetry,
    events: Seq<DbEvent>,
    first: DbError,
    second: DbError,
)
    requires
        s.phase is CheckShutdown,
        s.attempts == 0,
        !permanent(first),
        !permanent(second),
        attempts_made(events) <= 63,
        ({
            let once = events.push(DbEvent::Failed(first));
            db_run(
                s,
                once.push(DbEvent::Slept).push(DbEvent::Shutdown(false)).push(
                    DbEvent::Failed(second),
                ),
            )
        }),
    ensures
        ({
            let once = events.push(DbEvent::Failed(first));
            let twice = once.push(DbEvent::Slept).push(DbEvent::Shutdown(false)).push(
                DbEvent::Failed(second),
            );
            let a = db_after(s, once);
            let b = db_after(s, twice);
            &&& a.phase == DbPhase::Sleep(a.next_retry_secs)
            &&& b.phase == DbPhase::Sleep(b.next_retry_secs)
            &&& b.next_retry_secs == (if 2 * a.next_retry_secs <= s.max_secs {
                2 * a.next_retry_secs
            } else {
                s.max_secs as int
            })
        }),
{
    let once = events.push(DbEvent::Failed(first));
    let slept = once.push(DbEvent::Slept);
    let asked = slept.push(DbEvent::Shutdown(false));
    let twice = asked.push(DbEvent::Failed(second));
    assert(once.drop_last() =~= events);
    assert(slept.drop_last() =~= once);
    assert(asked.drop_last() =~= slept);
    assert(twice.drop_last() =~= asked);
    assert(db_run(s, asked));
    assert(db_run(s, slept));
    assert(db_run(s, once));
    sleeps_double_with_the_attempts(s, events, first);
    sleeps_double_with_the_attempts(s, asked, second);
    let n = attempts_made(events);
    assert(attempts_made(once) == n);
    assert(attempts_made(slept) == n);
    assert(attempts_made(asked) == n + 1);
    lemma_pow2_unfold(n);
    lemma_pow2_pos((n - 1) as nat);
    assert(s.initial_secs * (2 * pow2((n - 1) as nat)) == 2 * (s.initial_secs * pow2(
        (n - 1) as nat,
    ))) by (nonlinear_arith);
    assert(0 <= s.initial_secs * pow2((n - 1) as nat)) by (nonlinear_arith);
}

/// An attempt is made exactly when the node was asked and not told to end; a sleep
/// follows every failure, and the question follows every sleep that nothing ended.
pub proof fn attempts_follow_the_question(s: DbRetry, e: DbEvent)
    requires
        db_event_fits(s.phase, e),
    ensures
        db_next_spec(s, e).phase is Attempt <==> e == DbEvent::Shutdown(false),
        db_next_spec(s, e).phase is Sleep <==> e is Failed,
        db_next_spec(s, e).phase is CheckShutdown <==> e is Slept || e
            == (DbEvent::SignalChanged { gone: false, value: false }),
{
}

} // verus!
