//! The status codes of the firmware, and the errors that they stand for.

use vstd::prelude::*;

verus! {

/// A status as the firmware returns it: zero for success, else the number
/// of an error, with the highest bit set.
#[derive(Debug, Copy, Clone, PartialEq, Eq, Structural)]
pub struct Status(pub usize);

/// The errors of the firmware. `UnknownError` stands for every number that
/// is none of the others'.
#[derive(Debug, Copy, Clone, PartialEq, Eq, Structural)]
pub enum Error {
    EfiLoadError,
    InvalidParameter,
    Unsupported,
    BadBufferSize,
    BufferTooSmall,
    NotReady,
    DeviceError,
    WriteProtected,
    OutOfResources,
    VolumeCorrupted,
    VolumeFull,
    NoMedia,
    MediaChanged,
    NotFound,
    AccessDenied,
    NoResponse,
    NoMapping,
    Timeout,
    NotStarted,
    AlreadyStarted,
    Aborted,
    IcmpError,
    TftpError,
    ProtocolError,
    IncompatibleVersion,
    SecurityViolation,
    CrcError,
    EndOfMedia,
    EndOfFile,
    InvalidLanguage,
    CompromisedData,
    IpAddressConflict,
    HttpError,
    UnknownError,
}

/// An error together with the status that brought it.
pub struct StatusError {
    pub code: Status,
    pub error: Error,
}

impl Error {
    /// The number of the error; the numbers 29 and 30 are not in use, and
    /// `UnknownError` has the number behind the last.
    pub open spec fn spec_code(self) -> usize {
        match self {
            Error::EfiLoadError => 1,
            Error::InvalidParameter => 2,
            Error::Unsupported => 3,
            Error::BadBufferSize => 4,
            Error::BufferTooSmall => 5,
            Error::NotReady => 6,
            Error::DeviceError => 7,
            Error::WriteProtected => 8,
            Error::OutOfResources => 9,
            Error::VolumeCorrupted => 10,
            Error::VolumeFull => 11,
            Error::NoMedia => 12,
            Error::MediaChanged => 13,
            Error::NotFound => 14,
            Error::AccessDenied => 15,
            Error::NoResponse => 16,
            Error::NoMapping => 17,
            Error::Timeout => 18,
            Error::NotStarted => 19,
            Error::AlreadyStarted => 20,
            Error::Aborted => 21,
            Error::IcmpError => 22,
            Error::TftpError => 23,
            Error::ProtocolError => 24,
            Error::IncompatibleVersion => 25,
            Error::SecurityViolation => 26,
            Error::CrcError => 27,
            Error::EndOfMedia => 28,
            Error::EndOfFile => 31,
            Error::InvalidLanguage => 32,
            Error::CompromisedData => 33,
            Error::IpAddressConflict => 34,
            Error::HttpError => 35,
            Error::UnknownError => 36,
        }
    }

    /// The number of the error.
    #[verifier::when_used_as_spec(spec_code)]
    pub fn code(self) -> (code: usize)
        ensures
            code == self.spec_code(),
    {
        match self {
            Error::EfiLoadError => 1,
            Error::InvalidParameter => 2,
            Error::Unsupported => 3,
            Error::BadBufferSize => 4,
            Error::BufferTooSmall => 5,
            Error::NotReady => 6,
            Error::DeviceError => 7,
            Error::WriteProtected => 8,
            Error::OutOfResources => 9,
            Error::VolumeCorrupted => 10,
            Error::VolumeFull => 11,
            Error::NoMedia => 12,
            Error::MediaChanged => 13,
            Error::NotFound => 14,
            Error::AccessDenied => 15,
            Error::NoResponse => 16,
            Error::NoMapping => 17,
            Error::Timeout => 18,
            Error::NotStarted => 19,
            Error::AlreadyStarted => 20,
            Error::Aborted => 21,
            Error::IcmpError => 22,
            Error::TftpError => 23,
            Error::ProtocolError => 24,
            Error::IncompatibleVersion => 25,
            Error::SecurityViolation => 26,
            Error::CrcError => 27,
            Error::EndOfMedia => 28,
            Error::EndOfFile => 31,
            Error::InvalidLanguage => 32,
            Error::CompromisedData => 33,
            Error::IpAddressConflict => 34,
            Error::HttpError => 35,
            Error::UnknownError => 36,
        }
    }

}

impl vstd::std_specs::convert::FromSpecImpl<Error> for StatusError {
    open spec fn obeys_from_spec() -> bool {
        true
    }

    /// The error with its number as status.
    open spec fn from_spec(error: Error) -> StatusError {
        StatusError { code: Status(error.spec_code()), error }
    }
}

impl From<Error> for StatusError {
    /// The error with its number as status.
    fn from(error: Error) -> (status: StatusError) {
        StatusError { code: Status(error.code()), error }
    }
}

/// The number that a status holds below its four highest bits.
pub open spec fn status_number(code: Status) -> usize {
    (code.0 << 4) >> 4
}

/// The error that a status stands for: none for the number zero, the error
/// with the number where there is one, else `UnknownError`. The four
/// highest bits of the status do not count.
pub open spec fn error_of(code: Status) -> Option<Error> {
    let number = status_number(code);
    if number == 0 {
        None
    } else if exists|error: Error| error != Error::UnknownError && #[trigger] error.spec_code() == number {
        Some(choose|error: Error| error != Error::UnknownError && #[trigger] error.spec_code() == number)
    } else {
        Some(Error::UnknownError)
    }
}

/// The error that a status stands for.
pub fn status_error(code: Status) -> (error: Option<Error>)
    ensures
        error == error_of(code),
        error is None <==> status_number(code) == 0,
        error matches Some(e) ==> e == Error::UnknownError || e.spec_code() == status_number(code),
{
    let s: usize = (code.0 << 4) >> 4;
    let error = match s {
        0 => None,
        1 => Some(Error::EfiLoadError),
        2 => Some(Error::InvalidParameter),
        3 => Some(Error::Unsupported),
        4 => Some(Error::BadBufferSize),
        5 => Some(Error::BufferTooSmall),
        6 => Some(Error::NotReady),
        7 => Some(Error::DeviceError),
        8 => Some(Error::WriteProtected),
        9 => Some(Error::OutOfResources),
        10 => Some(Error::VolumeCorrupted),
        11 => Some(Error::VolumeFull),
        12 => Some(Error::NoMedia),
        13 => Some(Error::MediaChanged),
        14 => Some(Error::NotFound),
        15 => Some(Error::AccessDenied),
        16 => Some(Error::NoResponse),
        17 => Some(Error::NoMapping),
        18 => Some(Error::Timeout),
        19 => Some(Error::NotStarted),
        20 => Some(Error::AlreadyStarted),
        21 => Some(Error::Aborted),
        22 => Some(Error::IcmpError),
        23 => Some(Error::TftpError),
        24 => Some(Error::ProtocolError),
        25 => Some(Error::IncompatibleVersion),
        26 => Some(Error::SecurityViolation),
        27 => Some(Error::CrcError),
        28 => Some(Error::EndOfMedia),
        31 => Some(Error::EndOfFile),
        32 => Some(Error::InvalidLanguage),
        33 => Some(Error::CompromisedData),
        34 => Some(Error::IpAddressConflict),
        35 => Some(Error::HttpError),
        _ => Some(Error::UnknownError),
    };
    proof {
        if let Some(e) = error {
            if e != Error::UnknownError {
                assert(e.spec_code() == s);
                assert forall|other: Error|
                    other != Error::UnknownError && #[trigger] other.spec_code() == s implies other
                    == e by {}
            } else {
                assert forall|other: Error| other != Error::UnknownError implies #[trigger] other.spec_code()
                    != s by {}
            }
        }
    }
    error
}

/// A status as a result: success for the number zero, else the error that
/// it stands for, with the status.
pub fn status_result(code: Status) -> (result: Result<(), StatusError>)
    ensures
        result is Ok <==> status_number(code) == 0,
        result matches Err(e) ==> e.code == code && Some(e.error) == error_of(code),
{
    match status_error(code) {
        None => Ok(()),
        Some(error) => Err(StatusError { code, error }),
    }
}

} // verus!
