use backtrace::Backtrace;
use sled::DiskPtr;
use std::io::{Error, ErrorKind};
use storage::{map_engine_error, EngineError, SledErrorMapper, SystemError, SystemErrorKind};

#[test]
fn collection_not_found() {
    assert_eq!(
        SledErrorMapper::map(sled::Error::CollectionNotFound(sled::IVec::from("test"))),
        SystemError::unrecoverable("System file [test] can't be found".to_owned())
    )
}

#[test]
fn unsupported() {
    assert_eq!(
        SledErrorMapper::map(sled::Error::Unsupported("NOT_SUPPORTED".to_owned())),
        SystemError::unrecoverable("Unsupported operation [NOT_SUPPORTED] was used on Sled".to_owned())
    )
}

#[test]
fn corruption_with_position() {
    let cause = Backtrace::new();
    let at = DiskPtr::Inline(900);
    assert_eq!(
        SledErrorMapper::map(sled::Error::Corruption {
            at: Some(at),
            bt: cause.clone()
        }),
        SystemError::unrecoverable_with_cause(format!("Sled encountered corruption at {}", at), cause,)
    )
}

#[test]
fn corruption_without_position() {
    let cause = Backtrace::new();
    assert_eq!(
        SledErrorMapper::map(sled::Error::Corruption {
            at: None,
            bt: cause.clone()
        }),
        SystemError::unrecoverable_with_cause("Sled encountered corruption".to_owned(), cause,)
    )
}

#[test]
fn reportable_bug() {
    let description = "SOME_BUG_HERE";
    assert_eq!(
        SledErrorMapper::map(sled::Error::ReportableBug(description.to_owned())),
        SystemError::unrecoverable(format!("Sled encountered reportable BUG: {}", description))
    );
}

#[test]
fn io() {
    assert_eq!(
        SledErrorMapper::map(sled::Error::Io(Error::new(ErrorKind::Other, "oh no!"))),
        SystemError::io(Error::new(ErrorKind::Other, "oh no!"))
    )
}

#[test]
fn collection_name_that_is_not_text() {
    let error = map_engine_error(EngineError::CollectionNotFound(vec![0xff, 0xfe]));
    assert_eq!(error.kind, SystemErrorKind::Unrecoverable);
    assert_eq!(error.message, Some("System file name is not valid UTF-8".to_owned()));
}

#[test]
fn io_error_keeps_its_kind_and_cause() {
    let error = SledErrorMapper::map(sled::Error::Io(Error::new(ErrorKind::NotFound, "gone")));
    assert_eq!(error.kind, SystemErrorKind::Io);
    assert_eq!(error.message, None);
    assert!(matches!(error.cause, Some(storage::ErrorCause::Io(ref e)) if e.kind() == ErrorKind::NotFound));
}

#[test]
fn corruption_keeps_its_trace() {
    let error = SledErrorMapper::map(sled::Error::Corruption { at: None, bt: Backtrace::new() });
    assert_eq!(error.kind, SystemErrorKind::Unrecoverable);
    assert!(matches!(error.cause, Some(storage::ErrorCause::Trace(_))));
}

#[test]
fn system_errors_differ_by_message() {
    assert_ne!(
        SystemError::unrecoverable("one".to_owned()),
        SystemError::unrecoverable("two".to_owned())
    );
    assert_ne!(
        SystemError::unrecoverable("one".to_owned()),
        SystemError::io(Error::new(ErrorKind::Other, "one"))
    );
}
