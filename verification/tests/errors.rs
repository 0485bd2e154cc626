use xmining::primitives::{Error, ErrorKind};

#[test]
fn every_error_has_its_family() {
    assert_eq!(Error::NotSupported.kind(), ErrorKind::Validation);
    assert_eq!(Error::AlreadyRegistered.kind(), ErrorKind::Validation);
    assert_eq!(Error::DuplicateValidator.kind(), ErrorKind::Validation);
    assert_eq!(Error::UnknownValidator.kind(), ErrorKind::Validation);
    assert_eq!(Error::ZeroWeight.kind(), ErrorKind::Validation);
    assert_eq!(Error::InsufficientBalance.kind(), ErrorKind::Validation);
    assert_eq!(Error::Overflow.kind(), ErrorKind::Arithmetic);
    assert_eq!(Error::ClockWentBackwards.kind(), ErrorKind::Consistency);
    assert_eq!(Error::MissingRewardPot.kind(), ErrorKind::ExternalDependency);
}
