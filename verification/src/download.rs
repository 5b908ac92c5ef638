//! The decisions of fetching the shop data file.
//!
//! If the file is already on disk nothing is downloaded. Otherwise the data is
//! requested from its URL; a reply whose status is not a success ends the
//! download with an error, as does a failure to reach the server, to read the
//! body or to write the file. The I/O itself is done by the caller, which
//! performs each action and reports what happened as an event.

use vstd::prelude::*;

verus! {

/// The local file that the shop data is downloaded to.
pub const FILENAME: &'static str = "coffee_shops.csv";

/// How a download ended.
#[derive(Debug, Clone, Copy, PartialEq, Eq, Structural)]
pub enum DownloadOutcome {
    /// The file was already there; nothing was fetched.
    AlreadyPresent,
    /// The file was fetched and written.
    Downloaded,
    /// The server could not be reached.
    RequestFailed,
    /// The server answered with a status that is not a success.
    ServerError { status: u16 },
    /// The body of the reply could not be read.
    BodyUnreadable,
    /// The file could not be written.
    WriteFailed,
}

/// Where a download stands: the step it waits on, or how it ended.
#[derive(Debug, Clone, Copy, PartialEq, Eq, Structural)]
pub enum DownloadState {
    /// Waiting to learn whether the file exists.
    CheckingFile,
    /// Waiting for the server's reply.
    Requesting,
    /// Waiting for the body of the reply.
    ReadingBody,
    /// Waiting for the file to be written.
    WritingFile,
    /// Done.
    Finished { outcome: DownloadOutcome },
}

/// What the caller reports after performing an action.
#[derive(Debug, Clone, Copy, PartialEq, Eq, Structural)]
pub enum DownloadEvent {
    /// Whether the file exists on disk.
    FileChecked { exists: bool },
    /// The server replied with this HTTP status.
    ResponseReceived { status: u16 },
    /// The server could not be reached.
    RequestFailed,
    /// The body was read in full.
    BodyRead,
    /// The body could not be read.
    BodyFailed,
    /// The file was written.
    FileWritten,
    /// The file could not be written.
    WriteFailed,
}

/// What the caller is to do next.
#[derive(Debug, Clone, Copy, PartialEq, Eq, Structural)]
pub enum DownloadAction {
    /// Check whether the file exists.
    CheckFile,
    /// Request the data from its URL.
    SendRequest,
    /// Read the body of the reply.
    ReadBody,
    /// Write the body to the file.
    WriteFile,
    /// Stop; the download ended with this outcome.
    Finish { outcome: DownloadOutcome },
}

/// An HTTP status in the success class, 200 to 299.
pub open spec fn spec_is_success(status: u16) -> bool {
    200 <= status < 300
}

/// Whether an HTTP status is a success (`200..=299`), as
/// `http::StatusCode::is_success` decides it.
pub fn is_success(status: u16) -> (res: bool)
    ensures
        res == spec_is_success(status),
        res <==> (200 <= status && status <= 299),
{
    200 <= status && status < 300
}

/// The action that a state asks of the caller.
pub open spec fn action_of(state: DownloadState) -> DownloadAction {
    match state {
        DownloadState::CheckingFile => DownloadAction::CheckFile,
        DownloadState::Requesting => DownloadAction::SendRequest,
        DownloadState::ReadingBody => DownloadAction::ReadBody,
        DownloadState::WritingFile => DownloadAction::WriteFile,
        DownloadState::Finished { outcome } => DownloadAction::Finish { outcome },
    }
}

/// The state after an event. An event that the state does not wait for
/// leaves it unchanged.
pub open spec fn next_state(state: DownloadState, event: DownloadEvent) -> DownloadState {
    match (state, event) {
        (DownloadState::CheckingFile, DownloadEvent::FileChecked { exists }) => if exists {
            DownloadState::Finished { outcome: DownloadOutcome::AlreadyPresent }
        } else {
            DownloadState::Requesting
        },
        (DownloadState::Requesting, DownloadEvent::ResponseReceived { status }) => if spec_is_success(
            status,
        ) {
            DownloadState::ReadingBody
        } else {
            DownloadState::Finished { outcome: DownloadOutcome::ServerError { status } }
        },
        (DownloadState::Requesting, DownloadEvent::RequestFailed) => DownloadState::Finished {
            outcome: DownloadOutcome::RequestFailed,
        },
        (DownloadState::ReadingBody, DownloadEvent::BodyRead) => DownloadState::WritingFile,
        (DownloadState::ReadingBody, DownloadEvent::BodyFailed) => DownloadState::Finished {
            outcome: DownloadOutcome::BodyUnreadable,
        },
        (DownloadState::WritingFile, DownloadEvent::FileWritten) => DownloadState::Finished {
            outcome: DownloadOutcome::Downloaded,
        },
        (DownloadState::WritingFile, DownloadEvent::WriteFailed) => DownloadState::Finished {
            outcome: DownloadOutcome::WriteFailed,
        },
        _ => state,
    }
}

/// Starts a download: the first step is to check whether the file exists.
pub fn start() -> (res: (DownloadState, DownloadAction))
    ensures
        res.0 == DownloadState::CheckingFile,
        res.1 == action_of(res.0),
{
    (DownloadState::CheckingFile, DownloadAction::CheckFile)
}

/// The action that a state asks of the caller.
pub fn action(state: DownloadState) -> (res: DownloadAction)
    ensures
        res == action_of(state),
{
    match state {
        DownloadState::CheckingFile => DownloadAction::CheckFile,
        DownloadState::Requesting => DownloadAction::SendRequest,
        DownloadState::ReadingBody => DownloadAction::ReadBody,
        DownloadState::WritingFile => DownloadAction::WriteFile,
        DownloadState::Finished { outcome } => DownloadAction::Finish { outcome },
    }
}

/// Takes one step: the next state after `event`, and the action it asks for.
pub fn step(state: DownloadState, event: DownloadEvent) -> (res: (DownloadState, DownloadAction))
    ensures
        res.0 == next_state(state, event),
        res.1 == action_of(res.0),
{
    let next = match (state, event) {
        (DownloadState::CheckingFile, DownloadEvent::FileChecked { exists }) => if exists {
            DownloadState::Finished { outcome: DownloadOutcome::AlreadyPresent }
        } else {
            DownloadState::Requesting
        },
        (DownloadState::Requesting, DownloadEvent::ResponseReceived { status }) => if is_success(
            status,
        ) {
            DownloadState::ReadingBody
        } else {
            DownloadState::Finished { outcome: DownloadOutcome::ServerError { status } }
        },
        (DownloadState::Requesting, DownloadEvent::RequestFailed) => DownloadState::Finished {
            outcome: DownloadOutcome::RequestFailed,
        },
        (DownloadState::ReadingBody, DownloadEvent::BodyRead) => DownloadState::WritingFile,
        (DownloadState::ReadingBody, DownloadEvent::BodyFailed) => DownloadState::Finished {
            outcome: DownloadOutcome::BodyUnreadable,
        },
        (DownloadState::WritingFile, DownloadEvent::FileWritten) => DownloadState::Finished {
            outcome: DownloadOutcome::Downloaded,
        },
        (DownloadState::WritingFile, DownloadEvent::WriteFailed) => DownloadState::Finished {
            outcome: DownloadOutcome::WriteFailed,
        },
        _ => state,
    };
    (next, action(next))
}

impl DownloadOutcome {
    /// The download succeeded: the file is on disk, fetched now or before.
    pub open spec fn spec_is_ok(self) -> bool {
        self == DownloadOutcome::AlreadyPresent || self == DownloadOutcome::Downloaded
    }

    /// Whether the download succeeded.
    pub fn is_ok(&self) -> (res: bool)
        ensures
            res == self.spec_is_ok(),
            res <==> (*self == DownloadOutcome::AlreadyPresent || *self == DownloadOutcome::Downloaded),
    {
        match self {
            DownloadOutcome::AlreadyPresent => true,
            DownloadOutcome::Downloaded => true,
            _ => false,
        }
    }
}


/// The finished state with this outcome.
pub open spec fn finished(outcome: DownloadOutcome) -> DownloadState {
    DownloadState::Finished { outcome }
}

/// The final action with this outcome.
pub open spec fn finish(outcome: DownloadOutcome) -> DownloadAction {
    DownloadAction::Finish { outcome }
}

/// The report of the existence check.
pub open spec fn file_checked(exists: bool) -> DownloadEvent {
    DownloadEvent::FileChecked { exists }
}

/// The state reached from `state` after the events, one step each.
pub open spec fn run(state: DownloadState, events: Seq<DownloadEvent>) -> DownloadState
    decreases events.len(),
{
    if events.len() == 0 {
        state
    } else {
        run(next_state(state, events[0]), events.drop_first())
    }
}

/// The actions asked of the caller along the way, one after each event.
pub open spec fn actions_of_run(state: DownloadState, events: Seq<DownloadEvent>) -> Seq<DownloadAction>
    decreases events.len(),
{
    if events.len() == 0 {
        seq![]
    } else {
        let next = next_state(state, events[0]);
        seq![action_of(next)] + actions_of_run(next, events.drop_first())
    }
}

/// One action per event.
proof fn lemma_actions_len(state: DownloadState, events: Seq<DownloadEvent>)
    ensures
        actions_of_run(state, events).len() == events.len(),
    decreases events.len(),
{
    if events.len() > 0 {
        lemma_actions_len(next_state(state, events[0]), events.drop_first());
    }
}

/// The event is a reply with a success status.
pub open spec fn is_success_reply(event: DownloadEvent) -> bool {
    event matches DownloadEvent::ResponseReceived { status } && spec_is_success(status)
}

/// The state waits on the body or on the write, which only a success reply leads to.
pub open spec fn past_reply(state: DownloadState) -> bool {
    state == DownloadState::ReadingBody || state == DownloadState::WritingFile
}

/// Law: a finished download stays finished, whatever is reported after.
pub proof fn finished_is_final(outcome: DownloadOutcome, events: Seq<DownloadEvent>)
    ensures
        run(finished(outcome), events) == finished(outcome),
        forall|i: int|
            0 <= i < events.len() ==> #[trigger] actions_of_run(finished(outcome), events)[i]
                == finish(outcome),
    decreases events.len(),
{
    if events.len() > 0 {
        finished_is_final(outcome, events.drop_first());
        lemma_actions_len(finished(outcome), events.drop_first());
        let rest = actions_of_run(finished(outcome), events.drop_first());
        assert forall|i: int| 0 <= i < events.len() implies #[trigger] actions_of_run(finished(outcome), events)[i]
            == DownloadAction::Finish { outcome } by {
            if i > 0 {
                assert(actions_of_run(finished(outcome), events)[i] == rest[i - 1]);
            }
        }
    }
}

/// Law: when the file already exists, the download ends at once as
/// `AlreadyPresent`, and nothing is ever requested from the server.
pub proof fn existing_file_is_not_fetched(events: Seq<DownloadEvent>)
    requires
        events.len() > 0,
        events[0] == file_checked(true),
    ensures
        run(DownloadState::CheckingFile, events) == finished(DownloadOutcome::AlreadyPresent),
        !actions_of_run(DownloadState::CheckingFile, events).contains(DownloadAction::SendRequest),
{
    let done = finished(DownloadOutcome::AlreadyPresent);
    let rest = events.drop_first();
    finished_is_final(DownloadOutcome::AlreadyPresent, rest);
    lemma_actions_len(done, rest);
    let acts = actions_of_run(DownloadState::CheckingFile, events);
    assert(acts == seq![action_of(done)] + actions_of_run(done, rest));
    assert forall|i: int| 0 <= i < acts.len() implies acts[i] != DownloadAction::SendRequest by {
        if i > 0 {
            assert(acts[i] == actions_of_run(done, rest)[i - 1]);
        }
    }
}

/// Law: the file is only ever written after the server replied with a
/// success status: wherever the caller is asked to write, an earlier event
/// was such a reply.
pub proof fn write_follows_success(state: DownloadState, events: Seq<DownloadEvent>, i: int)
    requires
        !past_reply(state),
        0 <= i < events.len(),
        actions_of_run(state, events)[i] == DownloadAction::WriteFile,
    ensures
        exists|j: int| 0 <= j <= i && #[trigger] is_success_reply(events[j]),
    decreases events.len(),
{
    let next = next_state(state, events[0]);
    if past_reply(next) {
        assert(is_success_reply(events[0]));
    } else {
        let rest = events.drop_first();
        let acts = actions_of_run(state, events);
        lemma_actions_len(next, rest);
        assert(acts == seq![action_of(next)] + actions_of_run(next, rest));
        if i == 0 {
            assert(acts[0] == action_of(next));
        } else {
            assert(acts[i] == actions_of_run(next, rest)[i - 1]);
            write_follows_success(next, rest, i - 1);
            let j = choose|j: int| 0 <= j <= i - 1 && #[trigger] is_success_reply(rest[j]);
            assert(events[j + 1] == rest[j]);
        }
    }
}

/// Law: a download that ends as `Downloaded` saw the file written.
pub proof fn downloaded_means_written(state: DownloadState, events: Seq<DownloadEvent>)
    requires
        state != finished(DownloadOutcome::Downloaded),
        run(state, events) == finished(DownloadOutcome::Downloaded),
    ensures
        events.contains(DownloadEvent::FileWritten),
    decreases events.len(),
{
    let next = next_state(state, events[0]);
    if next == finished(DownloadOutcome::Downloaded) {
        assert(events[0] == DownloadEvent::FileWritten);
    } else {
        let rest = events.drop_first();
        downloaded_means_written(next, rest);
        let j = choose|j: int| 0 <= j < rest.len() && rest[j] == DownloadEvent::FileWritten;
        assert(events[j + 1] == rest[j]);
    }
}

/// Law: a download that ends as `Downloaded` received a success reply.
pub proof fn downloaded_means_success(state: DownloadState, events: Seq<DownloadEvent>)
    requires
        !past_reply(state),
        state != finished(DownloadOutcome::Downloaded),
        run(state, events) == finished(DownloadOutcome::Downloaded),
    ensures
        exists|j: int| 0 <= j < events.len() && #[trigger] is_success_reply(events[j]),
    decreases events.len(),
{
    let next = next_state(state, events[0]);
    if past_reply(next) {
        assert(is_success_reply(events[0]));
    } else {
        let rest = events.drop_first();
        downloaded_means_success(next, rest);
        let j = choose|j: int| 0 <= j < rest.len() && #[trigger] is_success_reply(rest[j]);
        assert(events[j + 1] == rest[j]);
    }
}

/// A download that ends as `AlreadyPresent` found the file on disk.
proof fn lemma_present_means_checked(state: DownloadState, events: Seq<DownloadEvent>)
    requires
        state != finished(DownloadOutcome::AlreadyPresent),
        run(state, events) == finished(DownloadOutcome::AlreadyPresent),
    ensures
        events.contains(file_checked(true)),
    decreases events.len(),
{
    let next = next_state(state, events[0]);
    if next == finished(DownloadOutcome::AlreadyPresent) {
        assert(events[0] == file_checked(true));
    } else {
        let rest = events.drop_first();
        lemma_present_means_checked(next, rest);
        let j = choose|j: int| 0 <= j < rest.len() && rest[j] == file_checked(true);
        assert(events[j + 1] == rest[j]);
    }
}

/// Law: a download that ends well leaves the file on disk by its own
/// account: either the existence check found it or the file was written.
pub proof fn ok_outcome_means_file_present(events: Seq<DownloadEvent>, outcome: DownloadOutcome)
    requires
        run(DownloadState::CheckingFile, events) == finished(outcome),
        outcome.spec_is_ok(),
    ensures
        events.contains(file_checked(true)) || events.contains(DownloadEvent::FileWritten),
{
    if outcome == DownloadOutcome::Downloaded {
        downloaded_means_written(DownloadState::CheckingFile, events);
    } else {
        lemma_present_means_checked(DownloadState::CheckingFile, events);
    }
}

/// Law: a download that ended well is not repeated. The first download left
/// the file on disk (it was found or written); when the next download's
/// existence check reports it, the next download ends as `AlreadyPresent`
/// and requests nothing from the server.
pub proof fn completed_download_is_not_repeated(
    first: Seq<DownloadEvent>,
    outcome: DownloadOutcome,
    second: Seq<DownloadEvent>,
)
    requires
        run(DownloadState::CheckingFile, first) == finished(outcome),
        outcome.spec_is_ok(),
        second.len() > 0,
        second[0] == file_checked(true),
    ensures
        first.contains(file_checked(true)) || first.contains(DownloadEvent::FileWritten),
        run(DownloadState::CheckingFile, second) == finished(DownloadOutcome::AlreadyPresent),
        !actions_of_run(DownloadState::CheckingFile, second).contains(DownloadAction::SendRequest),
{
    ok_outcome_means_file_present(first, outcome);
    existing_file_is_not_fetched(second);
}

/// Law: the server's reply decides by its status class alone. A status from
/// 200 to 299 goes on to read the body; any other status, a redirect, a
/// client error or a server error such as 503, ends the download as a
/// server error with that very status, and nothing is written.
pub proof fn reply_status_decides(status: u16)
    ensures
        200 <= status <= 299 ==> next_state(
            DownloadState::Requesting,
            DownloadEvent::ResponseReceived { status },
        ) == DownloadState::ReadingBody,
        !(200 <= status <= 299) ==> next_state(
            DownloadState::Requesting,
            DownloadEvent::ResponseReceived { status },
        ) == finished(DownloadOutcome::ServerError { status }),
        spec_is_success(status) <==> 200 <= status <= 299,
{
}

/// Law: a reply that is not a success never leads to a write, whatever is
/// reported after it.
pub proof fn failed_reply_never_writes(status: u16, events: Seq<DownloadEvent>)
    requires
        !(200 <= status <= 299),
    ensures
        !actions_of_run(
            DownloadState::Requesting,
            seq![DownloadEvent::ResponseReceived { status }] + events,
        ).contains(DownloadAction::WriteFile),
{
    let all = seq![DownloadEvent::ResponseReceived { status }] + events;
    let done = finished(DownloadOutcome::ServerError { status });
    assert(all[0] == DownloadEvent::ResponseReceived { status });
    assert(all.drop_first() =~= events);
    finished_is_final(DownloadOutcome::ServerError { status }, events);
    lemma_actions_len(done, events);
    let acts = actions_of_run(DownloadState::Requesting, all);
    assert(acts == seq![action_of(done)] + actions_of_run(done, events));
    assert forall|i: int| 0 <= i < acts.len() implies acts[i] != DownloadAction::WriteFile by {
        if i > 0 {
            assert(acts[i] == actions_of_run(done, events)[i - 1]);
        }
    }
}

/// Law: a download ends well exactly when the step that ended it found the
/// file on disk or wrote it; every other way of ending is a failure.
pub proof fn outcome_is_ok_when_file_on_disk(
    state: DownloadState,
    event: DownloadEvent,
    outcome: DownloadOutcome,
)
    requires
        !(state is Finished),
        next_state(state, event) == finished(outcome),
    ensures
        outcome.spec_is_ok() <==> (event == file_checked(true) || event == DownloadEvent::FileWritten),
{
}

/// Law: a complete download, from the existence check to the write, ends
/// well.
pub proof fn full_download_is_ok(status: u16)
    requires
        200 <= status <= 299,
    ensures
        ({
            let events = seq![
                file_checked(false),
                DownloadEvent::ResponseReceived { status },
                DownloadEvent::BodyRead,
                DownloadEvent::FileWritten,
            ];
            &&& run(DownloadState::CheckingFile, events) == finished(DownloadOutcome::Downloaded)
            &&& DownloadOutcome::Downloaded.spec_is_ok()
        }),
{
    let events = seq![
        file_checked(false),
        DownloadEvent::ResponseReceived { status },
        DownloadEvent::BodyRead,
        DownloadEvent::FileWritten,
    ];
    reveal_with_fuel(run, 5);
    assert(events.drop_first() =~= seq![
        DownloadEvent::ResponseReceived { status },
        DownloadEvent::BodyRead,
        DownloadEvent::FileWritten,
    ]);
    assert(events.drop_first().drop_first() =~= seq![DownloadEvent::BodyRead, DownloadEvent::FileWritten]);
    assert(events.drop_first().drop_first().drop_first() =~= seq![DownloadEvent::FileWritten]);
    assert(events.drop_first().drop_first().drop_first().drop_first() =~= Seq::<DownloadEvent>::empty());
}

} // verus!
