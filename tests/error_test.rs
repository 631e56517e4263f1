use canopen::error::AbortCode;

#[test]
fn test_abort_code() {
    // ToggleBitNotAlternated
    assert_eq!(AbortCode::ToggleBitNotAlternated.code(), 0x0503_0000);
    assert_eq!(AbortCode::ToggleBitNotAlternated.description(), "Toggle bit not alternated");

    // SdoProtocolTimedOut
    assert_eq!(AbortCode::SdoProtocolTimedOut.code(), 0x0504_0000);
    assert_eq!(AbortCode::SdoProtocolTimedOut.description(), "SDO protocol timed out");

    // CommandSpecifierNotValidOrUnknown
    assert_eq!(AbortCode::CommandSpecifierNotValidOrUnknown.code(), 0x0504_0001);
    assert_eq!(AbortCode::CommandSpecifierNotValidOrUnknown.description(), "Client/server command specifier not valid or unknown");

    // InvalidBlockSize
    assert_eq!(AbortCode::InvalidBlockSize.code(), 0x0504_0002);
    assert_eq!(AbortCode::InvalidBlockSize.description(), "Invalid block size (block mode only)");

    // InvalidSequenceNumber
    assert_eq!(AbortCode::InvalidSequenceNumber.code(), 0x0504_0003);
    assert_eq!(AbortCode::InvalidSequenceNumber.description(), "Invalid sequence number (block mode only)");

    // CRCError
    assert_eq!(AbortCode::CRCError.code(), 0x0504_0004);
    assert_eq!(AbortCode::CRCError.description(), "CRC error (block mode only)");

    // OutOfMemory
    assert_eq!(AbortCode::OutOfMemory.code(), 0x0504_0005);
    assert_eq!(AbortCode::OutOfMemory.description(), "Out of memory");

    // UnsupportedAccessToObject
    assert_eq!(AbortCode::UnsupportedAccessToObject.code(), 0x0601_0000);
    assert_eq!(AbortCode::UnsupportedAccessToObject.description(), "Unsupported access to an object");

    // AttemptToReadWriteOnlyObject
    assert_eq!(AbortCode::AttemptToReadWriteOnlyObject.code(), 0x0601_0001);
    assert_eq!(AbortCode::AttemptToReadWriteOnlyObject.description(), "Attempt to read a write only object");

    // AttemptToWriteReadOnlyObject
    assert_eq!(AbortCode::AttemptToWriteReadOnlyObject.code(), 0x0601_0002);
    assert_eq!(AbortCode::AttemptToWriteReadOnlyObject.description(), "Attempt to write a read only object");

    // ObjectDoesNotExistInObjectDictionary
    assert_eq!(AbortCode::ObjectDoesNotExistInObjectDictionary.code(), 0x0602_0000);
    assert_eq!(AbortCode::ObjectDoesNotExistInObjectDictionary.description(), "Object does not exist in the object dictionary");

    // ObjectCannotBeMappedToPDO
    assert_eq!(AbortCode::ObjectCannotBeMappedToPDO.code(), 0x0604_0041);
    assert_eq!(AbortCode::ObjectCannotBeMappedToPDO.description(), "Object cannot be mapped to the PDO");

    // ExceedPDOSize
    assert_eq!(AbortCode::ExceedPDOSize.code(), 0x0604_0042);
    assert_eq!(AbortCode::ExceedPDOSize.description(), "The number and length of the objects to be mapped would exceed PDO length");

    // GeneralParameterIncompatibility
    assert_eq!(AbortCode::GeneralParameterIncompatibility.code(), 0x0604_0043);
    assert_eq!(AbortCode::GeneralParameterIncompatibility.description(), "General parameter incompatibility reason");

    // GeneralInternalIncompatibility
    assert_eq!(AbortCode::GeneralInternalIncompatibility.code(), 0x0604_0047);
    assert_eq!(AbortCode::GeneralInternalIncompatibility.description(), "General internal incompatibility in the device");

    // HardwareError
    assert_eq!(AbortCode::HardwareError.code(), 0x0606_0000);
    assert_eq!(AbortCode::HardwareError.description(), "Access failed due to a hardware error");

    // DataTypeMismatchLengthMismatch
    assert_eq!(AbortCode::DataTypeMismatchLengthMismatch.code(), 0x0607_0010);
    assert_eq!(AbortCode::DataTypeMismatchLengthMismatch.description(), "Data type does not match; length of service parameter does not match");

    // DataTypeMismatchLengthTooHigh
    assert_eq!(AbortCode::DataTypeMismatchLengthTooHigh.code(), 0x0607_0012);
    assert_eq!(AbortCode::DataTypeMismatchLengthTooHigh.description(), "Data type does not match; length of service parameter too high");

    // DataTypeMismatchLengthTooLow
    assert_eq!(AbortCode::DataTypeMismatchLengthTooLow.code(), 0x0607_0013);
    assert_eq!(AbortCode::DataTypeMismatchLengthTooLow.description(), "Data type does not match; length of service parameter too low");

    // SubIndexDoesNotExist
    assert_eq!(AbortCode::SubIndexDoesNotExist.code(), 0x0609_0011);
    assert_eq!(AbortCode::SubIndexDoesNotExist.description(), "Sub-index does not exist");

    // ValueRangeExceeded
    assert_eq!(AbortCode::ValueRangeExceeded.code(), 0x0609_0030);
    assert_eq!(AbortCode::ValueRangeExceeded.description(), "Value range of parameter exceeded (only for write access)");

    // ValueWrittenTooHigh
    assert_eq!(AbortCode::ValueWrittenTooHigh.code(), 0x0609_0031);
    assert_eq!(AbortCode::ValueWrittenTooHigh.description(), "Value of parameter written too high");

    // ValueWrittenTooLow
    assert_eq!(AbortCode::ValueWrittenTooLow.code(), 0x0609_0032);
    assert_eq!(AbortCode::ValueWrittenTooLow.description(), "Value of parameter written too low");

    // MaxValueLessThanMinValue
    assert_eq!(AbortCode::MaxValueLessThanMinValue.code(), 0x0609_0036);
    assert_eq!(AbortCode::MaxValueLessThanMinValue.description(), "Maximum value is less than minimum value");

    // DataTransferOrStoreFailed
    assert_eq!(AbortCode::DataTransferOrStoreFailed.code(), 0x0800_0020);
    assert_eq!(AbortCode::DataTransferOrStoreFailed.description(), "Data cannot be transferred or stored to the application");

    // DataTransferOrStoreFailedDueToLocalControl
    assert_eq!(AbortCode::DataTransferOrStoreFailedDueToLocalControl.code(), 0x0800_0021);
    assert_eq!(AbortCode::DataTransferOrStoreFailedDueToLocalControl.description(), "Data cannot be transferred or stored to the application because of local control");

    // DataTransferOrStoreFailedDueToDeviceState
    assert_eq!(AbortCode::DataTransferOrStoreFailedDueToDeviceState.code(), 0x0800_0022);
    assert_eq!(AbortCode::DataTransferOrStoreFailedDueToDeviceState.description(), "Data cannot be transferred or stored to the application because of the present device state");

    // ObjectDictionaryGenerationFailedOrNotPresent
    assert_eq!(AbortCode::ObjectDictionaryGenerationFailedOrNotPresent.code(), 0x0800_0023);
    assert_eq!(AbortCode::ObjectDictionaryGenerationFailedOrNotPresent.description(), "Object dictionary dynamic generation fails or no object dictionary is present (e.g. object dictionary is generated from file and generation fails because of a file error)");

    // GeneralError
    assert_eq!(AbortCode::GeneralError.code(), 0x0800_0000);
    assert_eq!(AbortCode::GeneralError.description(), "General error");

    // Other
    assert_eq!(AbortCode::Other.code(), 0x0000_0000);
    assert_eq!(AbortCode::Other.description(), "Other");
}

#[test]
fn test_from_code() {
    assert_eq!(AbortCode::from_code(0x0503_0000), Some(AbortCode::ToggleBitNotAlternated));
    assert_eq!(AbortCode::from_code(0x0504_0000), Some(AbortCode::SdoProtocolTimedOut));
    assert_eq!(AbortCode::from_code(0x0504_0001), Some(AbortCode::CommandSpecifierNotValidOrUnknown));
    assert_eq!(AbortCode::from_code(0x0504_0002), Some(AbortCode::InvalidBlockSize));
    assert_eq!(AbortCode::from_code(0x0504_0003), Some(AbortCode::InvalidSequenceNumber));
    assert_eq!(AbortCode::from_code(0x0504_0004), Some(AbortCode::CRCError));
    assert_eq!(AbortCode::from_code(0x0504_0005), Some(AbortCode::OutOfMemory));
    assert_eq!(AbortCode::from_code(0x0601_0000), Some(AbortCode::UnsupportedAccessToObject));
    assert_eq!(AbortCode::from_code(0x0601_0001), Some(AbortCode::AttemptToReadWriteOnlyObject));
    assert_eq!(AbortCode::from_code(0x0601_0002), Some(AbortCode::AttemptToWriteReadOnlyObject));
    assert_eq!(AbortCode::from_code(0x0602_0000), Some(AbortCode::ObjectDoesNotExistInObjectDictionary));
    assert_eq!(AbortCode::from_code(0x0604_0041), Some(AbortCode::ObjectCannotBeMappedToPDO));
    assert_eq!(AbortCode::from_code(0x0604_0042), Some(AbortCode::ExceedPDOSize));
    assert_eq!(AbortCode::from_code(0x0604_0043), Some(AbortCode::GeneralParameterIncompatibility));
    assert_eq!(AbortCode::from_code(0x0604_0047), Some(AbortCode::GeneralInternalIncompatibility));
    assert_eq!(AbortCode::from_code(0x0606_0000), Some(AbortCode::HardwareError));
    assert_eq!(AbortCode::from_code(0x0607_0010), Some(AbortCode::DataTypeMismatchLengthMismatch));
    assert_eq!(AbortCode::from_code(0x0607_0012), Some(AbortCode::DataTypeMismatchLengthTooHigh));
    assert_eq!(AbortCode::from_code(0x0607_0013), Some(AbortCode::DataTypeMismatchLengthTooLow));
    assert_eq!(AbortCode::from_code(0x0609_0011), Some(AbortCode::SubIndexDoesNotExist));
    assert_eq!(AbortCode::from_code(0x0609_0030), Some(AbortCode::ValueRangeExceeded));
    assert_eq!(AbortCode::from_code(0x0609_0031), Some(AbortCode::ValueWrittenTooHigh));
    assert_eq!(AbortCode::from_code(0x0609_0032), Some(AbortCode::ValueWrittenTooLow));
    assert_eq!(AbortCode::from_code(0x0609_0036), Some(AbortCode::MaxValueLessThanMinValue));
    assert_eq!(AbortCode::from_code(0x0800_0000), Some(AbortCode::GeneralError));
    assert_eq!(AbortCode::from_code(0x0800_0020), Some(AbortCode::DataTransferOrStoreFailed));
    assert_eq!(AbortCode::from_code(0x0800_0021), Some(AbortCode::DataTransferOrStoreFailedDueToLocalControl));
    assert_eq!(AbortCode::from_code(0x0800_0022), Some(AbortCode::DataTransferOrStoreFailedDueToDeviceState));
    assert_eq!(AbortCode::from_code(0x0800_0023), Some(AbortCode::ObjectDictionaryGenerationFailedOrNotPresent));

    assert_eq!(AbortCode::from_code(0xFFFFFFFF), None);
}
