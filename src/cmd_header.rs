use vstd::prelude::*;

verus! {

/// Command byte of an SDO download initiate request, read most significant
/// bit first: `ccs`(3) reserved(1) `n`(2) `e`(1) `s`(1).
#[derive(Clone, Copy, Debug, PartialEq, Eq)]
pub struct SdoDownloadInitiateCmd(pub u8);

impl SdoDownloadInitiateCmd {
    pub fn from(raw: u8) -> (r: Self)
        ensures
            r.0 == raw,
    {
        SdoDownloadInitiateCmd(raw)
    }

    /// Client command specifier.
    pub fn ccs(&self) -> (r: u8)
        ensures
            r == self.0 >> 5u8,
    {
        self.0 >> 5u8
    }

    /// Bytes of the four-byte data field that hold no data.
    pub fn n(&self) -> (r: u8)
        ensures
            r == (self.0 >> 2u8) & 3,
            r <= 3,
    {
        let b = self.0;
        let r = (b >> 2u8) & 3;
        assert(((b >> 2u8) & 3) <= 3) by (bit_vector);
        r
    }

    /// Expedited transfer.
    pub fn e(&self) -> (r: bool)
        ensures
            r == ((self.0 >> 1u8) & 1 == 1),
    {
        (self.0 >> 1u8) & 1 == 1
    }

    /// Size indicated.
    pub fn s(&self) -> (r: bool)
        ensures
            r == (self.0 & 1 == 1),
    {
        self.0 & 1 == 1
    }
}

/// Command byte of an SDO download segment: `ccs`(3) `t`(1) `n`(3) `c`(1).
#[derive(Clone, Copy, Debug, PartialEq, Eq)]
pub struct SdoDownloadSegmentCmd(pub u8);

impl SdoDownloadSegmentCmd {
    pub fn from(raw: u8) -> (r: Self)
        ensures
            r.0 == raw,
    {
        SdoDownloadSegmentCmd(raw)
    }

    pub fn ccs(&self) -> (r: u8)
        ensures
            r == self.0 >> 5u8,
    {
        self.0 >> 5u8
    }

    /// Toggle bit.
    pub fn t(&self) -> (r: u8)
        ensures
            r == (self.0 >> 4u8) & 1,
            r <= 1,
    {
        let b = self.0;
        let r = (b >> 4u8) & 1;
        assert(((b >> 4u8) & 1) <= 1) by (bit_vector);
        r
    }

    /// Bytes of the seven-byte data field that hold no data.
    pub fn n(&self) -> (r: u8)
        ensures
            r == (self.0 >> 1u8) & 7,
            r <= 7,
    {
        let b = self.0;
        let r = (b >> 1u8) & 7;
        assert(((b >> 1u8) & 7) <= 7) by (bit_vector);
        r
    }

    /// Last segment.
    pub fn c(&self) -> (r: bool)
        ensures
            r == (self.0 & 1 == 1),
    {
        self.0 & 1 == 1
    }
}

/// Command byte of an SDO block download initiate: `ccs`(3) reserved(2)
/// `cc`(1) `s`(1) `cs`(1).
#[derive(Clone, Copy, Debug, PartialEq, Eq)]
pub struct SdoBlockDownloadInitiateCmd(pub u8);

impl SdoBlockDownloadInitiateCmd {
    pub fn from(raw: u8) -> (r: Self)
        ensures
            r.0 == raw,
    {
        SdoBlockDownloadInitiateCmd(raw)
    }

    pub fn ccs(&self) -> (r: u8)
        ensures
            r == self.0 >> 5u8,
    {
        self.0 >> 5u8
    }

    /// The client supports CRC.
    pub fn cc(&self) -> (r: bool)
        ensures
            r == ((self.0 >> 2u8) & 1 == 1),
    {
        (self.0 >> 2u8) & 1 == 1
    }

    pub fn s(&self) -> (r: bool)
        ensures
            r == ((self.0 >> 1u8) & 1 == 1),
    {
        (self.0 >> 1u8) & 1 == 1
    }

    pub fn cs(&self) -> (r: bool)
        ensures
            r == (self.0 & 1 == 1),
    {
        self.0 & 1 == 1
    }
}

/// Command byte that ends a block download: `ccs`(3) `n`(3) reserved(1)
/// `cs`(1).
#[derive(Clone, Copy, Debug, PartialEq, Eq)]
pub struct SdoEndBlockDownloadCmd(pub u8);

impl SdoEndBlockDownloadCmd {
    pub fn from(raw: u8) -> (r: Self)
        ensures
            r.0 == raw,
    {
        SdoEndBlockDownloadCmd(raw)
    }

    pub fn ccs(&self) -> (r: u8)
        ensures
            r == self.0 >> 5u8,
    {
        self.0 >> 5u8
    }

    /// Bytes of the last segment that hold no data.
    pub fn n(&self) -> (r: u8)
        ensures
            r == (self.0 >> 2u8) & 7,
            r <= 7,
    {
        let b = self.0;
        let r = (b >> 2u8) & 7;
        assert(((b >> 2u8) & 7) <= 7) by (bit_vector);
        r
    }

    pub fn cs(&self) -> (r: bool)
        ensures
            r == (self.0 & 1 == 1),
    {
        self.0 & 1 == 1
    }
}

/// Command byte of a block upload initiate: `ccs`(3) reserved(2) `cc`(1)
/// `cs`(2).
#[derive(Clone, Copy, Debug, PartialEq, Eq)]
pub struct SdoInitBlockUploadCmd(pub u8);

impl SdoInitBlockUploadCmd {
    pub fn from(raw: u8) -> (r: Self)
        ensures
            r.0 == raw,
    {
        SdoInitBlockUploadCmd(raw)
    }

    pub fn ccs(&self) -> (r: u8)
        ensures
            r == self.0 >> 5u8,
    {
        self.0 >> 5u8
    }

    pub fn cc(&self) -> (r: bool)
        ensures
            r == ((self.0 >> 2u8) & 1 == 1),
    {
        (self.0 >> 2u8) & 1 == 1
    }

    pub fn cs(&self) -> (r: u8)
        ensures
            r == self.0 & 3,
    {
        self.0 & 3
    }
}

/// Command byte of the other block upload requests: `ccs`(3) reserved(3)
/// `cs`(2).
#[derive(Clone, Copy, Debug, PartialEq, Eq)]
pub struct SdoBlockUploadCmd(pub u8);

impl SdoBlockUploadCmd {
    pub fn from(raw: u8) -> (r: Self)
        ensures
            r.0 == raw,
    {
        SdoBlockUploadCmd(raw)
    }

    pub fn ccs(&self) -> (r: u8)
        ensures
            r == self.0 >> 5u8,
    {
        self.0 >> 5u8
    }

    pub fn cs(&self) -> (r: u8)
        ensures
            r == self.0 & 3,
    {
        self.0 & 3
    }
}

} // verus!
