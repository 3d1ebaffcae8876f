use mm::amd64::cpuid::CpuidResult;
use mm::amd64::svm::{svm_after_cpuid, svm_after_vm_cr, SvmProbe};
use mm::uefi::{status_error, status_result, Error, Status, StatusError};

#[test]
fn status_zero_is_success() {
    assert_eq!(status_error(Status(0)), None);
    assert!(status_result(Status(0)).is_ok());
    // the four highest bits do not count
    assert_eq!(status_error(Status(0xF << (usize::BITS - 4))), None);
}

#[test]
fn status_numbers_are_errors() {
    let high = 1usize << (usize::BITS - 1);
    assert_eq!(status_error(Status(high | 1)), Some(Error::EfiLoadError));
    assert_eq!(status_error(Status(high | 5)), Some(Error::BufferTooSmall));
    assert_eq!(status_error(Status(high | 9)), Some(Error::OutOfResources));
    assert_eq!(status_error(Status(high | 14)), Some(Error::NotFound));
    assert_eq!(status_error(Status(17)), Some(Error::NoMapping));
    assert_eq!(status_error(Status(high | 28)), Some(Error::EndOfMedia));
    assert_eq!(status_error(Status(high | 31)), Some(Error::EndOfFile));
    assert_eq!(status_error(Status(high | 35)), Some(Error::HttpError));
}

#[test]
fn status_numbers_without_error_are_unknown() {
    let high = 1usize << (usize::BITS - 1);
    assert_eq!(status_error(Status(high | 29)), Some(Error::UnknownError));
    assert_eq!(status_error(Status(high | 30)), Some(Error::UnknownError));
    assert_eq!(status_error(Status(high | 36)), Some(Error::UnknownError));
    assert_eq!(status_error(Status(high | 1000)), Some(Error::UnknownError));
    assert_eq!(status_error(Status(usize::MAX)), Some(Error::UnknownError));
}

#[test]
fn every_error_has_its_number() {
    let all = [
        (Error::EfiLoadError, 1),
        (Error::InvalidParameter, 2),
        (Error::Unsupported, 3),
        (Error::BadBufferSize, 4),
        (Error::BufferTooSmall, 5),
        (Error::NotReady, 6),
        (Error::DeviceError, 7),
        (Error::WriteProtected, 8),
        (Error::OutOfResources, 9),
        (Error::VolumeCorrupted, 10),
        (Error::VolumeFull, 11),
        (Error::NoMedia, 12),
        (Error::MediaChanged, 13),
        (Error::NotFound, 14),
        (Error::AccessDenied, 15),
        (Error::NoResponse, 16),
        (Error::NoMapping, 17),
        (Error::Timeout, 18),
        (Error::NotStarted, 19),
        (Error::AlreadyStarted, 20),
        (Error::Aborted, 21),
        (Error::IcmpError, 22),
        (Error::TftpError, 23),
        (Error::ProtocolError, 24),
        (Error::IncompatibleVersion, 25),
        (Error::SecurityViolation, 26),
        (Error::CrcError, 27),
        (Error::EndOfMedia, 28),
        (Error::EndOfFile, 31),
        (Error::InvalidLanguage, 32),
        (Error::CompromisedData, 33),
        (Error::IpAddressConflict, 34),
        (Error::HttpError, 35),
    ];
    for (error, number) in all {
        assert_eq!(error.code(), number);
        assert_eq!(status_error(Status(number)), Some(error));
    }
    assert_eq!(Error::UnknownError.code(), 36);
}

#[test]
fn status_result_keeps_the_status() {
    let status = Status((1usize << (usize::BITS - 1)) | 14);
    match status_result(status) {
        Err(StatusError { code, error }) => {
            assert_eq!(code, status);
            assert_eq!(error, Error::NotFound);
        }
        Ok(()) => panic!(),
    }
}

#[test]
fn error_as_status_error() {
    let e: StatusError = Error::NoMapping.into();
    assert_eq!(e.code, Status(17));
    assert_eq!(e.error, Error::NoMapping);
    let e = StatusError::from(Error::UnknownError);
    assert_eq!(e.code, Status(36));
}

#[test]
fn svm_probe() {
    let leaf = |ecx: u32| CpuidResult { eax: 0, ebx: 0, ecx, edx: 0 };
    assert_eq!(svm_after_cpuid(&leaf(0)), SvmProbe::Unavailable);
    assert_eq!(svm_after_cpuid(&leaf(!0b100)), SvmProbe::Unavailable);
    assert_eq!(svm_after_cpuid(&leaf(0b100)), SvmProbe::ReadVmCr);
    assert_eq!(svm_after_cpuid(&leaf(u32::MAX)), SvmProbe::ReadVmCr);
    assert!(svm_after_vm_cr(0));
    assert!(svm_after_vm_cr(!0x1000));
    assert!(!svm_after_vm_cr(0x1000));
    assert!(!svm_after_vm_cr(u32::MAX));
}
