//! A CANopen slave node: object dictionary, SDO server, PDO engine, NMT,
//! heartbeat and emergency handling, with the transport kept outside.
use vstd::prelude::*;

pub mod constant;
pub mod data_type;
pub mod error;
pub mod text;
pub mod util;
pub mod cmd_header;
pub mod object_directory;
pub mod pdo;
pub mod node;
pub mod sdo_server;
pub mod value;
pub mod emergency;

verus! {

} // verus!
