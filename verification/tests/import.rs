use davsync::error::{Error, ErrorKind};
use davsync::import::{Import, ImportOutcome, ImportProgress, ImportRequest, ImportStage};

fn ask(progress: ImportProgress) -> (Import, ImportRequest) {
    match progress {
        ImportProgress::Ask(import, request) => (import, request),
        ImportProgress::Done(outcome) => panic!("the import ended: {outcome:?}"),
    }
}

fn done(progress: ImportProgress) -> ImportOutcome {
    match progress {
        ImportProgress::Done(outcome) => outcome,
        ImportProgress::Ask(_, request) => panic!("the import asked for {request:?}"),
    }
}

#[test]
fn an_import_copies_in_and_then_out() {
    let (import, request) = ask(Import::begin("calendars", "work.ics"));
    assert!(matches!(request, ImportRequest::CopyIn { ref name } if name == "work.ics"));
    assert!(matches!(import.stage, ImportStage::CopyingIn));
    let (import, request) = ask(import.step(Ok(())));
    assert!(matches!(request, ImportRequest::CopyOut { ref path } if path == "calendars/work.ics"));
    match done(import.step(Ok(()))) {
        ImportOutcome::Imported { calendar } => assert_eq!(calendar, "work"),
        other => panic!("ended with {other:?}"),
    }
}

#[test]
fn an_import_of_a_name_that_is_taken_does_nothing() {
    let (import, _) = ask(Import::begin("calendars", "work.ics"));
    match done(import.step(Err(Error::new(ErrorKind::AlreadyExists, "work.ics")))) {
        ImportOutcome::FileExists { calendar } => assert_eq!(calendar, "work"),
        other => panic!("ended with {other:?}"),
    }
}

#[test]
fn a_failed_first_phase_ends_the_import() {
    let (import, _) = ask(Import::begin("calendars", "work.ics"));
    match done(import.step(Err(Error::new(ErrorKind::NotFound, "picked file")))) {
        ImportOutcome::Failed { error, cleanup } => {
            assert_eq!(error.kind, ErrorKind::NotFound);
            assert!(cleanup.is_none());
        }
        other => panic!("ended with {other:?}"),
    }
}

#[test]
fn a_failed_second_phase_deletes_the_local_file() {
    let (import, _) = ask(Import::begin("calendars", "work.ics"));
    let (import, _) = ask(import.step(Ok(())));
    let (import, request) = ask(import.step(Err(Error::new(ErrorKind::ProviderFailure, "denied"))));
    assert!(matches!(request, ImportRequest::DeleteLocal { ref name } if name == "work.ics"));
    let outcome = done(import.step(Ok(())));
    assert_eq!(
        outcome.message(),
        "Failed to write to external file; deleted internal file.\nError: denied"
    );
    match outcome {
        ImportOutcome::Failed { error, cleanup } => {
            assert_eq!((error.kind, error.context.as_str()), (ErrorKind::ProviderFailure, "denied"));
            assert!(cleanup.is_none());
        }
        other => panic!("ended with {other:?}"),
    }
}

#[test]
fn a_failed_deletion_is_reported_beside_the_failure() {
    let (import, request) = ask(Import::propagate("calendars", "work.ics"));
    assert!(matches!(request, ImportRequest::CopyOut { ref path } if path == "calendars/work.ics"));
    let (import, _) = ask(import.step(Err(Error::new(ErrorKind::ProviderFailure, "denied"))));
    let outcome = done(import.step(Err(Error::new(ErrorKind::NotFound, "gone"))));
    assert_eq!(
        outcome.message(),
        "Failed to delete internal imported file: gone\nError: denied"
    );
    match outcome {
        ImportOutcome::Failed { error, cleanup } => {
            assert_eq!(error.context, "denied");
            assert_eq!(cleanup.unwrap().context, "gone");
        }
        other => panic!("ended with {other:?}"),
    }
}

#[test]
fn an_import_that_did_not_fail_has_no_message() {
    let outcome = ImportOutcome::Imported { calendar: "work".to_string() };
    assert_eq!(outcome.message(), "");
}
