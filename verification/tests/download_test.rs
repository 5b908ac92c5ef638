use af_coding_challenge::download::{
    action, is_success, start, step, DownloadAction, DownloadEvent, DownloadOutcome,
    DownloadState, FILENAME,
};

fn run(events: &[DownloadEvent]) -> (DownloadState, Vec<DownloadAction>) {
    let (mut state, first) = start();
    let mut actions = vec![first];
    for e in events {
        let (next, act) = step(state, *e);
        state = next;
        actions.push(act);
    }
    (state, actions)
}

#[test]
fn starts_by_checking_the_file() {
    assert_eq!(start(), (DownloadState::CheckingFile, DownloadAction::CheckFile));
    assert_eq!(FILENAME, "coffee_shops.csv");
}

#[test]
fn existing_file_is_not_downloaded() {
    let (state, actions) = run(&[DownloadEvent::FileChecked { exists: true }]);
    let done = DownloadOutcome::AlreadyPresent;
    assert_eq!(state, DownloadState::Finished { outcome: done });
    assert!(!actions.contains(&DownloadAction::SendRequest));
    assert!(done.is_ok());
}

#[test]
fn full_download() {
    let (state, actions) = run(&[
        DownloadEvent::FileChecked { exists: false },
        DownloadEvent::ResponseReceived { status: 200 },
        DownloadEvent::BodyRead,
        DownloadEvent::FileWritten,
    ]);
    assert_eq!(
        actions,
        vec![
            DownloadAction::CheckFile,
            DownloadAction::SendRequest,
            DownloadAction::ReadBody,
            DownloadAction::WriteFile,
            DownloadAction::Finish { outcome: DownloadOutcome::Downloaded },
        ]
    );
    assert_eq!(state, DownloadState::Finished { outcome: DownloadOutcome::Downloaded });
}

#[test]
fn server_error_stops_before_writing() {
    let (state, actions) = run(&[
        DownloadEvent::FileChecked { exists: false },
        DownloadEvent::ResponseReceived { status: 404 },
    ]);
    let outcome = DownloadOutcome::ServerError { status: 404 };
    assert_eq!(state, DownloadState::Finished { outcome });
    assert!(!actions.contains(&DownloadAction::WriteFile));
    assert!(!outcome.is_ok());
}

#[test]
fn failures_end_the_download() {
    let (state, _) = run(&[
        DownloadEvent::FileChecked { exists: false },
        DownloadEvent::RequestFailed,
    ]);
    assert_eq!(state, DownloadState::Finished { outcome: DownloadOutcome::RequestFailed });
    let (state, _) = run(&[
        DownloadEvent::FileChecked { exists: false },
        DownloadEvent::ResponseReceived { status: 204 },
        DownloadEvent::BodyFailed,
    ]);
    assert_eq!(state, DownloadState::Finished { outcome: DownloadOutcome::BodyUnreadable });
    let (state, _) = run(&[
        DownloadEvent::FileChecked { exists: false },
        DownloadEvent::ResponseReceived { status: 299 },
        DownloadEvent::BodyRead,
        DownloadEvent::WriteFailed,
    ]);
    assert_eq!(state, DownloadState::Finished { outcome: DownloadOutcome::WriteFailed });
}

#[test]
fn unexpected_events_change_nothing() {
    let (state, act) = step(DownloadState::CheckingFile, DownloadEvent::BodyRead);
    assert_eq!(state, DownloadState::CheckingFile);
    assert_eq!(act, DownloadAction::CheckFile);
    let done = DownloadState::Finished { outcome: DownloadOutcome::Downloaded };
    assert_eq!(step(done, DownloadEvent::FileChecked { exists: false }).0, done);
    assert_eq!(action(DownloadState::ReadingBody), DownloadAction::ReadBody);
}

#[test]
fn success_statuses() {
    assert!(!is_success(199));
    assert!(is_success(200));
    assert!(is_success(299));
    assert!(!is_success(300));
    assert!(!is_success(404));
}

#[test]
fn completed_download_is_not_repeated() {
    let (first, _) = run(&[
        DownloadEvent::FileChecked { exists: false },
        DownloadEvent::ResponseReceived { status: 200 },
        DownloadEvent::BodyRead,
        DownloadEvent::FileWritten,
    ]);
    assert_eq!(first, DownloadState::Finished { outcome: DownloadOutcome::Downloaded });
    let (second, actions) = run(&[DownloadEvent::FileChecked { exists: true }]);
    assert_eq!(second, DownloadState::Finished { outcome: DownloadOutcome::AlreadyPresent });
    assert!(!actions.contains(&DownloadAction::SendRequest));
}
