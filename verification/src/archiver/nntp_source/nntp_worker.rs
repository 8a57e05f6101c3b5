//! Outcome of reading one NNTP group, and the steps of a worker that reads
//! groups one after the other.
use vstd::prelude::*;
use crate::text::{chars_of, decimal, decimal_string, push_char, push_str};

verus! {

/// Result of processing a mailing list.
pub enum NNTPWorkerGroupResult {
    /// New e-mails were fetched: list name and count.
    Collected(String, usize),
    /// No new e-mail: list name.
    NoNews(String),
}

/// `{:?}` of a string without characters that need escaping.
pub open spec fn quoted(s: Seq<char>) -> Seq<char> {
    seq!['"'] + s + seq!['"']
}

/// What [`debug_str`] returns.
pub uninterp spec fn spec_debug_str(s: Seq<char>) -> Seq<char>;

/// `format!("{:?}", s)` for a `str`: the text quoted, with the characters
/// that need it escaped as `char::escape_debug` does.
#[verifier::external_body]
fn debug_str(s: &str) -> (r: String)
    ensures
        r@ == spec_debug_str(s@),
{
    format!("{:?}", s)
}

/// Whether every character of a text is printed as itself inside `{:?}`
/// quotes.
pub open spec fn all_plain(s: Seq<char>) -> bool {
    forall|i: int| 0 <= i < s.len() ==> plain_debug_char(#[trigger] s[i])
}

/// The `{:?}` form of a list name: the name in quotes where no character
/// needs escaping (`char::escape_debug` leaves printable ASCII other than
/// `"` and `\` as it is), else std's escaped form.
pub open spec fn debug_text(s: Seq<char>) -> Seq<char> {
    if all_plain(s) {
        quoted(s)
    } else {
        spec_debug_str(s)
    }
}

/// Executable [`debug_text`].
fn debug_name(name: &str) -> (r: String)
    ensures
        r@ == debug_text(name@),
{
    let v = chars_of(name);
    let mut i: usize = 0;
    while i < v.len()
        invariant
            i <= v.len(),
            v@ == name@,
            forall|j: int| 0 <= j < i ==> plain_debug_char(#[trigger] v@[j]),
        decreases v.len() - i,
    {
        let c = v[i];
        if !(' ' <= c && c <= '~' && c != '"' && c != '\\') {
            return debug_str(name);
        }
        i = i + 1;
    }
    let mut r = String::from_str("\"");
    push_str(&mut r, name);
    push_char(&mut r, '"');
    proof {
        reveal_strlit("\"");
        assert(r@ =~= quoted(name@));
    }
    r
}

/// The human readable description of a result.
pub open spec fn spec_describe(r: NNTPWorkerGroupResult) -> Seq<char> {
    match r {
        NNTPWorkerGroupResult::Collected(name, n) => "Collected "@ + decimal(n as nat)
            + " new e-mails from "@ + debug_text(name@),
        NNTPWorkerGroupResult::NoNews(name) => "No New e-mails from "@ + debug_text(name@),
    }
}

/// Whether a character is printed as itself inside `{:?}` quotes.
pub open spec fn plain_debug_char(c: char) -> bool {
    ' ' <= c && c <= '~' && c != '"' && c != '\\'
}

impl NNTPWorkerGroupResult {
    /// The name of the list the result is about.
    pub open spec fn list_name(&self) -> Seq<char> {
        match self {
            NNTPWorkerGroupResult::Collected(name, _) => name@,
            NNTPWorkerGroupResult::NoNews(name) => name@,
        }
    }

    /// Describes the result, as shown in the worker log, with the list name
    /// in its `{:?}` form (see [`debug_text`]).
    pub fn describe(&self) -> (r: String)
        ensures
            r@ == spec_describe(*self),
    {
        let mut r = String::new();
        match self {
            NNTPWorkerGroupResult::Collected(name, n) => {
                push_str(&mut r, "Collected ");
                let digits = decimal_string(*n as u64);
                push_str(&mut r, digits.as_str());
                push_str(&mut r, " new e-mails from ");
                let shown = debug_name(name.as_str());
                push_str(&mut r, shown.as_str());
                proof {
                    reveal_strlit("Collected ");
                    reveal_strlit(" new e-mails from ");
                    assert(r@ =~= spec_describe(*self));
                }
            },
            NNTPWorkerGroupResult::NoNews(name) => {
                push_str(&mut r, "No New e-mails from ");
                let shown = debug_name(name.as_str());
                push_str(&mut r, shown.as_str());
                proof {
                    reveal_strlit("No New e-mails from ");
                    assert(r@ =~= spec_describe(*self));
                }
            },
        }
        r
    }
}

/// How often a failed article read is tried again.
pub const ARTICLE_READ_RETRIES: usize = 3;

/// Base of the wait between tries of an article read, in milliseconds.
pub const RETRY_DELAY_MS: u64 = 600;

/// Seconds waited before reconnecting after a failed group.
pub const RECONNECT_WAIT_SECS: u64 = 60;

/// Seconds waited after a network error.
pub const NETWORK_ERROR_WAIT_SECS: u64 = 10;

/// The articles to read from a group: the new ones, from the one after the
/// last one read (or the group's first, when that comes later) to the
/// group's last, when the group has an article after the last one read;
/// `None` otherwise.
pub fn plan_group_read(last_article_number: usize, group_low: usize, group_high: usize) -> (r: Option<(usize, usize)>)
    ensures
        match r {
            Some((from, to)) => last_article_number < group_high && to == group_high && from == (
            if last_article_number >= group_low {
                last_article_number + 1
            } else {
                group_low as int
            }),
            None => last_article_number >= group_high,
        },
{
    if last_article_number < group_high {
        let from = if last_article_number >= group_low {
            last_article_number + 1
        } else {
            group_low
        };
        Some((from, group_high))
    } else {
        None
    }
}

/// The wait before the next try of an article read after `attempts`
/// failed tries, in milliseconds; `None` once more than `max_retries`
/// tries failed. The wait is computed in `usize`, so it must fit there.
pub fn retry_delay_ms(attempts: usize, max_retries: usize) -> (r: Option<u64>)
    requires
        attempts <= max_retries ==> RETRY_DELAY_MS * (attempts + 1) <= usize::MAX,
    ensures
        match r {
            Some(ms) => attempts <= max_retries && ms == RETRY_DELAY_MS * (attempts + 1),
            None => attempts > max_retries,
        },
{
    if attempts > max_retries {
        None
    } else {
        Some(RETRY_DELAY_MS * (attempts as u64 + 1))
    }
}

/// Seconds waited between two groups.
pub const PAUSE_BETWEEN_GROUPS_SECS: u64 = 1;

/// Seconds waited after the connection could not be closed cleanly.
pub const QUIT_FAILURE_WAIT_SECS: u64 = 5;

/// What a worker remembers from one group to the next.
#[derive(Debug, Clone, Copy, PartialEq, Eq, Structural)]
pub struct WorkerState {
    /// The connection failed and must be opened again before the next group.
    pub needs_reconnection: bool,
}

/// What happened since the worker's last step.
#[derive(Debug, Clone, PartialEq, Eq)]
pub enum WorkerEvent {
    /// A round starts; whether a shutdown has been asked for.
    RoundStart { shutdown: bool },
    /// A shutdown was asked for during a wait.
    WaitInterrupted,
    /// The connection was opened again, or could not be.
    Reconnected { ok: bool },
    /// What the channel gave: a list name, or nothing once it is closed and
    /// empty.
    Received(Option<String>),
    /// The group was read.
    GroupDone,
    /// Reading the group failed, by a network error or otherwise.
    GroupFailed { network: bool },
    /// The wait after a network error is over.
    ErrorWaitOver,
    /// The connection was closed, cleanly or not.
    QuitDone { ok: bool },
}

/// What the worker does next.
#[derive(Debug, Clone, PartialEq, Eq)]
pub enum WorkerAction {
    /// Stop, with no error.
    Exit,
    /// Stop with the error of the failed reconnection.
    ExitWithError,
    /// Wait `secs` seconds, checking for a shutdown every second, then
    /// reconnect.
    WaitThenReconnect { secs: u64 },
    /// Take the next list name from the channel.
    Receive,
    /// Read the new articles of a group.
    HandleGroup(String),
    /// Wait `secs` seconds, checking for a shutdown every second.
    WaitAfterError { secs: u64 },
    /// Close the connection.
    QuitConnection,
    /// Sleep `secs` seconds, then start a round.
    Pause { secs: u64 },
}

/// The worker's next step. A round checks for a shutdown first, then
/// reconnects after a wait where the last group failed, then takes a list
/// from the channel and reads it. A failed group marks the connection for
/// reconnection and closes it, after a wait when the failure came from the
/// network. Groups are a second apart, six seconds when the connection
/// could not be closed.
pub fn next_worker_step(state: WorkerState, event: WorkerEvent) -> (r: (WorkerState, WorkerAction))
    ensures
        match event {
            WorkerEvent::RoundStart { shutdown } => if shutdown {
                r == (state, WorkerAction::Exit)
            } else if state.needs_reconnection {
                r == (state, WorkerAction::WaitThenReconnect { secs: RECONNECT_WAIT_SECS })
            } else {
                r == (state, WorkerAction::Receive)
            },
            WorkerEvent::WaitInterrupted => r == (state, WorkerAction::Exit),
            WorkerEvent::Reconnected { ok } => if ok {
                r == (WorkerState { needs_reconnection: false }, WorkerAction::Receive)
            } else {
                r == (state, WorkerAction::ExitWithError)
            },
            WorkerEvent::Received(item) => match item {
                Some(list) => r == (state, WorkerAction::HandleGroup(list)),
                None => r == (state, WorkerAction::Exit),
            },
            WorkerEvent::GroupDone => r == (
                state,
                WorkerAction::Pause { secs: PAUSE_BETWEEN_GROUPS_SECS },
            ),
            WorkerEvent::GroupFailed { network } => if network {
                r == (
                    WorkerState { needs_reconnection: true },
                    WorkerAction::WaitAfterError { secs: NETWORK_ERROR_WAIT_SECS },
                )
            } else {
                r == (WorkerState { needs_reconnection: true }, WorkerAction::QuitConnection)
            },
            WorkerEvent::ErrorWaitOver => r == (state, WorkerAction::QuitConnection),
            WorkerEvent::QuitDone { ok } => if ok {
                r == (state, WorkerAction::Pause { secs: PAUSE_BETWEEN_GROUPS_SECS })
            } else {
                r == (
                    state,
                    WorkerAction::Pause {
                        secs: (QUIT_FAILURE_WAIT_SECS + PAUSE_BETWEEN_GROUPS_SECS) as u64,
                    },
                )
            },
        },
{
    match event {
        WorkerEvent::RoundStart { shutdown } => {
            if shutdown {
                (state, WorkerAction::Exit)
            } else if state.needs_reconnection {
                (state, WorkerAction::WaitThenReconnect { secs: RECONNECT_WAIT_SECS })
            } else {
                (state, WorkerAction::Receive)
            }
        },
        WorkerEvent::WaitInterrupted => (state, WorkerAction::Exit),
        WorkerEvent::Reconnected { ok } => {
            if ok {
                (WorkerState { needs_reconnection: false }, WorkerAction::Receive)
            } else {
                (state, WorkerAction::ExitWithError)
            }
        },
        WorkerEvent::Received(item) => match item {
            Some(list) => (state, WorkerAction::HandleGroup(list)),
            None => (state, WorkerAction::Exit),
        },
        WorkerEvent::GroupDone => (state, WorkerAction::Pause { secs: PAUSE_BETWEEN_GROUPS_SECS }),
        WorkerEvent::GroupFailed { network } => {
            if network {
                (
                    WorkerState { needs_reconnection: true },
                    WorkerAction::WaitAfterError { secs: NETWORK_ERROR_WAIT_SECS },
                )
            } else {
                (WorkerState { needs_reconnection: true }, WorkerAction::QuitConnection)
            }
        },
        WorkerEvent::ErrorWaitOver => (state, WorkerAction::QuitConnection),
        WorkerEvent::QuitDone { ok } => {
            if ok {
                (state, WorkerAction::Pause { secs: PAUSE_BETWEEN_GROUPS_SECS })
            } else {
                (state, WorkerAction::Pause { secs: QUIT_FAILURE_WAIT_SECS + PAUSE_BETWEEN_GROUPS_SECS })
            }
        },
    }
}

} // verus!
