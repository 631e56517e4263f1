use canopen::constant::EMCY_PDO_NOT_PROCESSED;
use canopen::emergency::{EmergencyErrorCode, ErrorRegister};
use std::collections::hash_map::DefaultHasher;
use std::hash::{Hash, Hasher};

#[test]
fn test_emergency_error_code() {
    assert_eq!(EmergencyErrorCode::PdoNotProcessed.code(), EMCY_PDO_NOT_PROCESSED);

    assert_eq!(EmergencyErrorCode::from_code(EMCY_PDO_NOT_PROCESSED), Some(EmergencyErrorCode::PdoNotProcessed));
    assert_eq!(EmergencyErrorCode::from_code(0xFFFF), None);
}

#[test]
fn test_error_register() {
    assert_eq!(ErrorRegister::GenericError.code(), 0);
    assert_eq!(ErrorRegister::Current.code(), 1);
    assert_eq!(ErrorRegister::Voltage.code(), 2);
    assert_eq!(ErrorRegister::Temperature.code(), 3);
    assert_eq!(ErrorRegister::CommunicationError.code(), 4);
    assert_eq!(ErrorRegister::DeviceProfileSpecific.code(), 5);
    assert_eq!(ErrorRegister::Reserved.code(), 6);
    assert_eq!(ErrorRegister::ManufacturerSpecific.code(), 7);

    assert_eq!(ErrorRegister::from_code(0), Some(ErrorRegister::GenericError));
    assert_eq!(ErrorRegister::from_code(1), Some(ErrorRegister::Current));
    assert_eq!(ErrorRegister::from_code(2), Some(ErrorRegister::Voltage));
    assert_eq!(ErrorRegister::from_code(3), Some(ErrorRegister::Temperature));
    assert_eq!(ErrorRegister::from_code(4), Some(ErrorRegister::CommunicationError));
    assert_eq!(ErrorRegister::from_code(5), Some(ErrorRegister::DeviceProfileSpecific));
    assert_eq!(ErrorRegister::from_code(6), Some(ErrorRegister::Reserved));
    assert_eq!(ErrorRegister::from_code(7), Some(ErrorRegister::ManufacturerSpecific));
    assert_eq!(ErrorRegister::from_code(8), None);
}

#[test]
fn test_error_register_debug() {
    let error = ErrorRegister::GenericError;
    assert_eq!(format!("{:?}", error), "GenericError");
}

#[test]
fn test_error_register_copy_clone() {
    let error = ErrorRegister::GenericError;
    let error_copy = error;
    let error_cloned = error.clone();
    assert_eq!(error, error_copy);
    assert_eq!(error, error_cloned);
}

#[test]
fn test_error_register_equality() {
    assert_eq!(ErrorRegister::GenericError, ErrorRegister::GenericError);
    assert_ne!(ErrorRegister::GenericError, ErrorRegister::Current);
}

#[test]
fn test_emergency_error_code_debug() {
    let error = EmergencyErrorCode::PdoNotProcessed;
    assert_eq!(format!("{:?}", error), "PdoNotProcessed");
}

#[test]
fn test_emergency_error_code_copy() {
    let error = EmergencyErrorCode::PdoNotProcessed;
    let error_copy = error;
    assert_eq!(error, error_copy);
}

#[test]
fn test_emergency_error_code_clone() {
    let error = EmergencyErrorCode::PdoNotProcessed;
    let error_clone = error.clone();
    assert_eq!(error, error_clone);
}

#[test]
fn test_emergency_error_code_eq() {
    let error1 = EmergencyErrorCode::PdoNotProcessed;
    let error2 = EmergencyErrorCode::PdoNotProcessed;
    assert_eq!(error1, error2);
}

#[test]
fn test_emergency_error_code_ord() {
    let error1 = EmergencyErrorCode::PdoNotProcessed;
    let error2 = EmergencyErrorCode::PdoNotProcessed;
    assert!(error1 <= error2);
    assert!(error1 >= error2);
}

#[test]
fn test_emergency_error_code_hash() {
    let error = EmergencyErrorCode::PdoNotProcessed;
    let mut hasher = DefaultHasher::new();
    error.hash(&mut hasher);
    let hashed = hasher.finish();
    assert_ne!(hashed, 0);
}
