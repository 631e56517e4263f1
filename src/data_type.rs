use vstd::prelude::*;

verus! {

/// The primitive data types of the object dictionary, in the order of their
/// numeric codes.
#[derive(Debug, Clone, Copy, PartialEq, Eq, Structural, PartialOrd, Ord, Hash)]
pub enum DataType {
    Unknown,
    Boolean,
    Integer8,
    Integer16,
    Integer32,
    Unsigned8,
    Unsigned16,
    Unsigned32,
    Real32,
    VisibleString,
    OctetString,
    UnicodeString,
    Domain,
    Real64,
    Integer64,
    Unsigned64,
}

impl DataType {
    /// The numeric code of the type in an electronic data sheet.
    pub open spec fn spec_code(self) -> u32 {
        match self {
            DataType::Unknown => 0x0,
            DataType::Boolean => 0x1,
            DataType::Integer8 => 0x2,
            DataType::Integer16 => 0x3,
            DataType::Integer32 => 0x4,
            DataType::Unsigned8 => 0x5,
            DataType::Unsigned16 => 0x6,
            DataType::Unsigned32 => 0x7,
            DataType::Real32 => 0x8,
            DataType::VisibleString => 0x9,
            DataType::OctetString => 0xA,
            DataType::UnicodeString => 0xB,
            DataType::Domain => 0xF,
            DataType::Real64 => 0x11,
            DataType::Integer64 => 0x15,
            DataType::Unsigned64 => 0x1B,
        }
    }

    /// The fixed byte size of the type; 0 for the types of variable length.
    pub open spec fn spec_size(self) -> nat {
        match self {
            DataType::Boolean | DataType::Integer8 | DataType::Unsigned8 => 1,
            DataType::Integer16 | DataType::Unsigned16 => 2,
            DataType::Integer32 | DataType::Unsigned32 | DataType::Real32 | DataType::Domain => 4,
            DataType::Real64 | DataType::Integer64 | DataType::Unsigned64 => 8,
            DataType::Unknown | DataType::VisibleString | DataType::OctetString
            | DataType::UnicodeString => 0,
        }
    }

    /// The canonical zero value of the type, as bytes.
    pub open spec fn spec_default_value(self) -> Seq<u8> {
        match self {
            DataType::VisibleString | DataType::OctetString | DataType::UnicodeString => seq![],
            DataType::Unknown | DataType::Domain => seq![0u8],
            _ => Seq::new(self.spec_size(), |i: int| 0u8),
        }
    }

    /// The type whose code is `value`; `Unknown` for codes of no type.
    pub open spec fn spec_from_u32(value: u32) -> DataType {
        if value == 0x1 {
            DataType::Boolean
        } else if value == 0x2 {
            DataType::Integer8
        } else if value == 0x3 {
            DataType::Integer16
        } else if value == 0x4 {
            DataType::Integer32
        } else if value == 0x5 {
            DataType::Unsigned8
        } else if value == 0x6 {
            DataType::Unsigned16
        } else if value == 0x7 {
            DataType::Unsigned32
        } else if value == 0x8 {
            DataType::Real32
        } else if value == 0x9 {
            DataType::VisibleString
        } else if value == 0xA {
            DataType::OctetString
        } else if value == 0xB {
            DataType::UnicodeString
        } else if value == 0xF {
            DataType::Domain
        } else if value == 0x11 {
            DataType::Real64
        } else if value == 0x15 {
            DataType::Integer64
        } else if value == 0x1B {
            DataType::Unsigned64
        } else {
            DataType::Unknown
        }
    }

    /// The numeric code of the type.
    pub fn code(&self) -> (r: u32)
        ensures
            r == self.spec_code(),
    {
        match *self {
            DataType::Unknown => 0x0,
            DataType::Boolean => 0x1,
            DataType::Integer8 => 0x2,
            DataType::Integer16 => 0x3,
            DataType::Integer32 => 0x4,
            DataType::Unsigned8 => 0x5,
            DataType::Unsigned16 => 0x6,
            DataType::Unsigned32 => 0x7,
            DataType::Real32 => 0x8,
            DataType::VisibleString => 0x9,
            DataType::OctetString => 0xA,
            DataType::UnicodeString => 0xB,
            DataType::Domain => 0xF,
            DataType::Real64 => 0x11,
            DataType::Integer64 => 0x15,
            DataType::Unsigned64 => 0x1B,
        }
    }

    /// The type whose code is `value`, or `Unknown` when no type has it.
    pub fn from_u32(value: u32) -> (r: DataType)
        ensures
            r == Self::spec_from_u32(value),
            (exists|t: DataType| t.spec_code() == value) ==> r.spec_code() == value,
            !(exists|t: DataType| t.spec_code() == value) ==> r == DataType::Unknown,
    {
        let r = match value {
            0x1 => DataType::Boolean,
            0x2 => DataType::Integer8,
            0x3 => DataType::Integer16,
            0x4 => DataType::Integer32,
            0x5 => DataType::Unsigned8,
            0x6 => DataType::Unsigned16,
            0x7 => DataType::Unsigned32,
            0x8 => DataType::Real32,
            0x9 => DataType::VisibleString,
            0xA => DataType::OctetString,
            0xB => DataType::UnicodeString,
            0xF => DataType::Domain,
            0x11 => DataType::Real64,
            0x15 => DataType::Integer64,
            0x1B => DataType::Unsigned64,
            _ => DataType::Unknown,
        };
        proof {
            if exists|t: DataType| t.spec_code() == value {
                let t = choose|t: DataType| t.spec_code() == value;
                assert(r.spec_code() == value);
            } else {
                if r != DataType::Unknown {
                    assert(r.spec_code() == value);
                }
            }
        }
        r
    }

    /// The byte size of the type; 0 means variable length.
    pub fn size(&self) -> (r: usize)
        ensures
            r == self.spec_size(),
    {
        match *self {
            DataType::Boolean | DataType::Integer8 | DataType::Unsigned8 => 1,
            DataType::Integer16 | DataType::Unsigned16 => 2,
            DataType::Integer32 | DataType::Unsigned32 | DataType::Real32 | DataType::Domain => 4,
            DataType::Real64 | DataType::Integer64 | DataType::Unsigned64 => 8,
            DataType::Unknown | DataType::VisibleString | DataType::OctetString
            | DataType::UnicodeString => 0,
        }
    }

    /// The zero value of the type.
    pub fn default_value(&self) -> (r: Vec<u8>)
        ensures
            r@ == self.spec_default_value(),
    {
        let r = match *self {
            DataType::VisibleString | DataType::OctetString | DataType::UnicodeString => vec![],
            DataType::Unknown | DataType::Domain | DataType::Boolean | DataType::Integer8
            | DataType::Unsigned8 => vec![0x0],
            DataType::Integer16 | DataType::Unsigned16 => vec![0x0, 0x0],
            DataType::Integer32 | DataType::Unsigned32 | DataType::Real32 => vec![0x0, 0x0, 0x0, 0x0],
            DataType::Real64 | DataType::Integer64 | DataType::Unsigned64 => {
                vec![0x0, 0x0, 0x0, 0x0, 0x0, 0x0, 0x0, 0x0]
            },
        };
        assert(r@ =~= self.spec_default_value());
        r
    }
}

} // verus!
