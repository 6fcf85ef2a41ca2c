//! The error model: domain errors of each operation, the system error, and the
//! translation of engine failures into system errors.
use crate::engine::{engine_error, engine_error_of, EngineError};
use vstd::prelude::*;
use vstd::string::StringExecFns;

verus! {

/// The namespace to be created is already there.
#[derive(Debug, PartialEq, Eq, Structural, Clone, Copy)]
pub struct NamespaceAlreadyExists;

/// The namespace named by the operation is not there.
#[derive(Debug, PartialEq, Eq, Structural, Clone, Copy)]
pub struct NamespaceDoesNotExist;

#[derive(Debug, PartialEq, Eq, Structural, Clone, Copy)]
pub enum CreateObjectError {
    NamespaceDoesNotExist,
    ObjectAlreadyExists,
}

#[derive(Debug, PartialEq, Eq, Structural, Clone, Copy)]
pub enum DropObjectError {
    NamespaceDoesNotExist,
    ObjectDoesNotExist,
}

#[derive(Debug, PartialEq, Eq, Structural, Clone, Copy)]
pub enum OperationOnObjectError {
    NamespaceDoesNotExist,
    ObjectDoesNotExist,
}

/// Whether a system failure leaves room for a retry.
#[derive(Debug, PartialEq, Eq, Structural, Clone, Copy)]
pub enum SystemErrorKind {
    /// An invariant was broken or the engine failed: the process must act.
    Unrecoverable,
    /// An I/O operation failed; it may be transient.
    Io,
}

/// What caused a system failure, kept for diagnostics only.
#[derive(Debug)]
pub enum ErrorCause {
    Trace(backtrace::Backtrace),
    Io(std::io::Error),
}

/// A failure of the infrastructure, as opposed to a domain outcome.
#[derive(Debug)]
pub struct SystemError {
    pub kind: SystemErrorKind,
    pub message: Option<String>,
    pub cause: Option<ErrorCause>,
}

pub type SystemResult<T> = Result<T, SystemError>;

/// The description of a system error, as text.
pub open spec fn message_of(e: SystemError) -> Option<Seq<char>> {
    match e.message {
        Some(m) => Some(m@),
        None => None,
    }
}

impl SystemError {
    pub fn unrecoverable(message: String) -> (r: SystemError)
        ensures
            r.kind == SystemErrorKind::Unrecoverable,
            message_of(r) == Some(message@),
            r.cause is None,
    {
        SystemError { kind: SystemErrorKind::Unrecoverable, message: Some(message), cause: None }
    }

    pub fn unrecoverable_with_cause(message: String, cause: backtrace::Backtrace) -> (r: SystemError)
        ensures
            r.kind == SystemErrorKind::Unrecoverable,
            message_of(r) == Some(message@),
            r.cause == Some(ErrorCause::Trace(cause)),
    {
        SystemError {
            kind: SystemErrorKind::Unrecoverable,
            message: Some(message),
            cause: Some(ErrorCause::Trace(cause)),
        }
    }

    pub fn io(error: std::io::Error) -> (r: SystemError)
        ensures
            r.kind == SystemErrorKind::Io,
            message_of(r) is None,
            r.cause == Some(ErrorCause::Io(error)),
    {
        SystemError { kind: SystemErrorKind::Io, message: None, cause: Some(ErrorCause::Io(error)) }
    }
}

/// Two system errors are the same when kind and description agree; the cause
/// is for diagnostics and takes no part.
impl PartialEq for SystemError {
    fn eq(&self, other: &SystemError) -> (r: bool) {
        let same_message = match (&self.message, &other.message) {
            (Some(a), Some(b)) => a.eq(b),
            (None, None) => true,
            _ => false,
        };
        self.kind == other.kind && same_message
    }
}

impl vstd::std_specs::cmp::PartialEqSpecImpl for SystemError {
    open spec fn obeys_eq_spec() -> bool {
        true
    }

    open spec fn eq_spec(&self, other: &SystemError) -> bool {
        self.kind == other.kind && message_of(*self) == message_of(*other)
    }
}

/// Relies on `String::from_utf8`: the text that the bytes encode, where they
/// are valid UTF-8.
#[verifier::external_body]
pub fn text_from_utf8(bytes: Vec<u8>) -> (r: Option<String>)
    ensures
        r is Some <==> vstd::utf8::valid_utf8(bytes@),
        r matches Some(s) ==> s@ == vstd::utf8::decode_utf8(bytes@),
{
    String::from_utf8(bytes).ok()
}

/// The description that a failure of the engine is reported with, where the
/// failure has one.
pub open spec fn engine_error_message(e: EngineError) -> Option<Seq<char>> {
    match e {
        EngineError::CollectionNotFound(name) => if vstd::utf8::valid_utf8(name@) {
            Some("System file ["@ + vstd::utf8::decode_utf8(name@) + "] can't be found"@)
        } else {
            Some("System file name is not valid UTF-8"@)
        },
        EngineError::Unsupported(operation) => Some(
            "Unsupported operation ["@ + operation@ + "] was used on Sled"@,
        ),
        EngineError::Corruption { at, trace } => match at {
            Some(at) => Some("Sled encountered corruption at "@ + at@),
            None => Some("Sled encountered corruption"@),
        },
        EngineError::ReportableBug(description) => Some(
            "Sled encountered reportable BUG: "@ + description@,
        ),
        EngineError::Io(_) => None,
    }
}

/// The system error that an engine failure becomes: an I/O failure keeps its
/// kind and its error; every other failure is unrecoverable, and a corruption
/// keeps its trace.
pub open spec fn system_error_for(e: EngineError, r: SystemError) -> bool {
    &&& message_of(r) == engine_error_message(e)
    &&& match e {
        EngineError::Io(error) => r.kind == SystemErrorKind::Io && r.cause == Some(
            ErrorCause::Io(error),
        ),
        EngineError::Corruption { at, trace } => r.kind == SystemErrorKind::Unrecoverable
            && r.cause == Some(ErrorCause::Trace(trace)),
        _ => r.kind == SystemErrorKind::Unrecoverable && r.cause is None,
    }
}

/// The system error is the translation of some failure of the sled engine.
pub open spec fn from_engine(e: SystemError) -> bool {
    exists|x: sled::Error| #[trigger] system_error_for(engine_error_of(x), e)
}

/// Translates an engine failure, given as plain values, into a system error.
pub fn map_engine_error(e: EngineError) -> (r: SystemError)
    ensures
        system_error_for(e, r),
{
    match e {
        EngineError::CollectionNotFound(name) => {
            match text_from_utf8(name) {
                Some(text) => {
                    let message = "System file [".to_owned().concat(text.as_str()).concat(
                        "] can't be found",
                    );
                    SystemError::unrecoverable(message)
                },
                None => SystemError::unrecoverable("System file name is not valid UTF-8".to_owned()),
            }
        },
        EngineError::Unsupported(operation) => {
            let message = "Unsupported operation [".to_owned().concat(operation.as_str()).concat(
                "] was used on Sled",
            );
            SystemError::unrecoverable(message)
        },
        EngineError::Corruption { at, trace } => match at {
            Some(at) => {
                let message = "Sled encountered corruption at ".to_owned().concat(at.as_str());
                SystemError::unrecoverable_with_cause(message, trace)
            },
            None => SystemError::unrecoverable_with_cause(
                "Sled encountered corruption".to_owned(),
                trace,
            ),
        },
        EngineError::ReportableBug(description) => {
            let message = "Sled encountered reportable BUG: ".to_owned().concat(
                description.as_str(),
            );
            SystemError::unrecoverable(message)
        },
        EngineError::Io(error) => SystemError::io(error),
    }
}

/// Translates the failures of one storage engine into system errors.
pub trait StorageErrorMapper {
    type Error;

    fn map(error: Self::Error) -> SystemError;
}

/// Maps the errors of the sled engine into system errors.
pub struct SledErrorMapper;

impl StorageErrorMapper for SledErrorMapper {
    type Error = sled::Error;

    fn map(error: sled::Error) -> SystemError {
        SledErrorMapper::map(error)
    }
}

impl SledErrorMapper {
    /// Translates a sled failure; the translation itself is
    /// [`map_engine_error`].
    pub fn map(error: sled::Error) -> (r: SystemError)
        ensures
            system_error_for(engine_error_of(error), r),
            from_engine(r),
    {
        map_engine_error(engine_error(error))
    }
}

} // verus!
