use vstd::prelude::*;
use crate::constant::EMCY_PDO_NOT_PROCESSED;

verus! {

/// Emergency error codes raised by the node.
#[derive(Debug, Copy, Clone, Eq, PartialEq, Structural, Ord, PartialOrd, Hash)]
pub enum EmergencyErrorCode {
    PdoNotProcessed,
}

impl EmergencyErrorCode {
    pub open spec fn spec_code(self) -> u16 {
        match self {
            EmergencyErrorCode::PdoNotProcessed => EMCY_PDO_NOT_PROCESSED,
        }
    }

    /// The 16-bit emergency error code.
    pub fn code(&self) -> (r: u16)
        ensures
            r == self.spec_code(),
    {
        match *self {
            EmergencyErrorCode::PdoNotProcessed => EMCY_PDO_NOT_PROCESSED,
        }
    }

    /// The emergency error whose code is `code`, if any.
    pub fn from_code(code: u16) -> (r: Option<Self>)
        ensures
            r matches Some(e) ==> e.spec_code() == code,
            r is None ==> forall|e: Self| e.spec_code() != code,
    {
        if code == EMCY_PDO_NOT_PROCESSED {
            Some(EmergencyErrorCode::PdoNotProcessed)
        } else {
            None
        }
    }
}

/// The bits of the error register (object 0x1001).
#[derive(Copy, Clone, Debug, PartialEq, Eq, Structural)]
pub enum ErrorRegister {
    GenericError,
    Current,
    Voltage,
    Temperature,
    CommunicationError,
    DeviceProfileSpecific,
    Reserved,
    ManufacturerSpecific,
}

impl ErrorRegister {
    pub open spec fn spec_code(self) -> u8 {
        match self {
            ErrorRegister::GenericError => 0,
            ErrorRegister::Current => 1,
            ErrorRegister::Voltage => 2,
            ErrorRegister::Temperature => 3,
            ErrorRegister::CommunicationError => 4,
            ErrorRegister::DeviceProfileSpecific => 5,
            ErrorRegister::Reserved => 6,
            ErrorRegister::ManufacturerSpecific => 7,
        }
    }

    /// The register value written for this error.
    pub fn code(&self) -> (r: u8)
        ensures
            r == self.spec_code(),
    {
        match *self {
            ErrorRegister::GenericError => 0,
            ErrorRegister::Current => 1,
            ErrorRegister::Voltage => 2,
            ErrorRegister::Temperature => 3,
            ErrorRegister::CommunicationError => 4,
            ErrorRegister::DeviceProfileSpecific => 5,
            ErrorRegister::Reserved => 6,
            ErrorRegister::ManufacturerSpecific => 7,
        }
    }

    /// The error register entry whose code is `code`; codes above 7 have none.
    pub fn from_code(code: u8) -> (r: Option<Self>)
        ensures
            r matches Some(e) ==> e.spec_code() == code,
            r is None <==> code > 7,
    {
        match code {
            0 => Some(ErrorRegister::GenericError),
            1 => Some(ErrorRegister::Current),
            2 => Some(ErrorRegister::Voltage),
            3 => Some(ErrorRegister::Temperature),
            4 => Some(ErrorRegister::CommunicationError),
            5 => Some(ErrorRegister::DeviceProfileSpecific),
            6 => Some(ErrorRegister::Reserved),
            7 => Some(ErrorRegister::ManufacturerSpecific),
            _ => None,
        }
    }
}

} // verus!
