use vstd::prelude::*;

verus! {

/// Function code prefixes on a COB-ID.
pub const COB_FUNC_NMT: u16 = 0x000;
pub const COB_FUNC_SYNC: u16 = 0x080;
pub const COB_FUNC_RPDO_0: u16 = 0x200;
pub const COB_FUNC_RPDO_3: u16 = 0x500;
pub const COB_FUNC_TRANSMIT_SDO: u16 = 0x580;
pub const COB_FUNC_RECEIVE_SDO: u16 = 0x600;
pub const COB_FUNC_HEARTBEAT: u16 = 0x700;
pub const COB_FUNC_MASK: u16 = 0xFF80;

/// Registers of the communication profile.
pub const REG_ERROR: u16 = 0x1001;
pub const REG_PRE_DEFINED_ERROR: u16 = 0x1003;
pub const REG_PRODUCER_HEARTBEAT_TIME: u16 = 0x1017;

/// Emergency error codes.
pub const EMCY_PDO_NOT_PROCESSED: u16 = 0x8210;

} // verus!
