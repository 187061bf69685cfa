//! The tag that travels with each `io_uring` submission and comes back with its completion.

use vstd::prelude::*;
use vstd::std_specs::convert::{FromSpecImpl, TryFromSpecImpl};

verus! {

/// What a submission was for.
#[derive(Clone, Copy, Debug, PartialEq, Eq, Structural)]
pub enum UserDataOpType {
    /// A poll on ep0.
    Ep0Poll,
    /// A read of a message header on the bulk OUT endpoint.
    BulkOutReadHeader,
    /// A read of a message payload on the bulk OUT endpoint.
    BulkOutReadPayload,
    /// A write on the bulk IN endpoint.
    BulkInWrite,
    /// A read on the descriptor behind a stream.
    PtyRead,
}

/// An operation number that stands for nothing.
#[derive(Clone, Copy, Debug, PartialEq, Eq, Structural)]
pub struct UserDataOpTypeError(pub u32);

/// The number of an operation.
pub open spec fn op_number(op: UserDataOpType) -> u32 {
    match op {
        UserDataOpType::Ep0Poll => 1,
        UserDataOpType::BulkOutReadHeader => 2,
        UserDataOpType::BulkOutReadPayload => 3,
        UserDataOpType::BulkInWrite => 4,
        UserDataOpType::PtyRead => 5,
    }
}

/// The operation that a number stands for.
pub open spec fn op_of_number(n: u32) -> Result<UserDataOpType, UserDataOpTypeError> {
    if n == 1 {
        Ok(UserDataOpType::Ep0Poll)
    } else if n == 2 {
        Ok(UserDataOpType::BulkOutReadHeader)
    } else if n == 3 {
        Ok(UserDataOpType::BulkOutReadPayload)
    } else if n == 4 {
        Ok(UserDataOpType::BulkInWrite)
    } else if n == 5 {
        Ok(UserDataOpType::PtyRead)
    } else {
        Err(UserDataOpTypeError(n))
    }
}

impl TryFromSpecImpl<u32> for UserDataOpType {
    open spec fn obeys_try_from_spec() -> bool {
        true
    }

    open spec fn try_from_spec(v: u32) -> Result<Self, Self::Error> {
        op_of_number(v)
    }
}

impl TryFrom<u32> for UserDataOpType {
    type Error = UserDataOpTypeError;

    fn try_from(value: u32) -> (res: Result<Self, UserDataOpTypeError>) {
        match value {
            1 => Ok(UserDataOpType::Ep0Poll),
            2 => Ok(UserDataOpType::BulkOutReadHeader),
            3 => Ok(UserDataOpType::BulkOutReadPayload),
            4 => Ok(UserDataOpType::BulkInWrite),
            5 => Ok(UserDataOpType::PtyRead),
            other => Err(UserDataOpTypeError(other)),
        }
    }
}

impl FromSpecImpl<UserDataOpType> for u32 {
    open spec fn obeys_from_spec() -> bool {
        true
    }

    open spec fn from_spec(v: UserDataOpType) -> u32 {
        op_number(v)
    }
}

impl From<UserDataOpType> for u32 {
    fn from(value: UserDataOpType) -> (res: u32) {
        match value {
            UserDataOpType::Ep0Poll => 1,
            UserDataOpType::BulkOutReadHeader => 2,
            UserDataOpType::BulkOutReadPayload => 3,
            UserDataOpType::BulkInWrite => 4,
            UserDataOpType::PtyRead => 5,
        }
    }
}

/// An operation together with the buffer slot or stream that it works on.
///
/// Slots and streams are numbered from 1, so that 0 can stand for none.
#[derive(Clone, Copy, Debug, PartialEq, Eq, Structural)]
pub struct UserData {
    pub op_type: UserDataOpType,
    pub data: Option<u32>,
}

/// A tag whose upper half is no operation number.
#[derive(Clone, Copy, Debug, PartialEq, Eq, Structural)]
pub enum UserDataError {
    UnknownOperationType(UserDataOpTypeError),
}

impl UserData {
    /// The number 0 names no slot and no stream.
    pub open spec fn wf(self) -> bool {
        self.data != Some(0u32)
    }

    /// The tag as one number: the operation in the upper half, the slot or stream in the lower.
    pub open spec fn encoded(self) -> u64 {
        (0x1_0000_0000 * op_number(self.op_type) + match self.data {
            Some(d) => d as int,
            None => 0,
        }) as u64
    }

    /// The tag that a number stands for.
    pub open spec fn decoded(value: u64) -> Result<UserData, UserDataError> {
        match op_of_number((value / 0x1_0000_0000) as u32) {
            Ok(op_type) => {
                let low = (value % 0x1_0000_0000) as u32;
                Ok(UserData { op_type, data: if low == 0 { None } else { Some(low) } })
            },
            Err(e) => Err(UserDataError::UnknownOperationType(e)),
        }
    }

    /// Puts a tag together.
    pub fn new(op_type: UserDataOpType, data: Option<u32>) -> (res: Self)
        requires
            data != Some(0u32),
        ensures
            res == (UserData { op_type, data }),
            res.wf(),
    {
        UserData { op_type, data }
    }

    /// The operation.
    pub fn op_type(&self) -> (res: UserDataOpType)
        ensures
            res == self.op_type,
    {
        self.op_type
    }

    /// The buffer slot or stream, if there is one.
    pub fn data(&self) -> (res: Option<u32>)
        ensures
            res == self.data,
    {
        self.data
    }
}

impl FromSpecImpl<UserData> for u64 {
    open spec fn obeys_from_spec() -> bool {
        true
    }

    open spec fn from_spec(v: UserData) -> u64 {
        v.encoded()
    }
}

impl From<UserData> for u64 {
    fn from(value: UserData) -> (res: u64) {
        let op: u32 = u32::from(value.op_type);
        let low: u32 = match value.data {
            Some(d) => d,
            None => 0,
        };
        let op64: u64 = op as u64;
        let low64: u64 = low as u64;
        assert((op64 << 32) | low64 == 0x1_0000_0000 * op64 + low64) by (bit_vector)
            requires
                op64 <= 0xffff_ffff,
                low64 <= 0xffff_ffff,
        ;
        (op64 << 32) | low64
    }
}

impl TryFromSpecImpl<u64> for UserData {
    open spec fn obeys_try_from_spec() -> bool {
        true
    }

    open spec fn try_from_spec(v: u64) -> Result<Self, Self::Error> {
        UserData::decoded(v)
    }
}

impl TryFrom<u64> for UserData {
    type Error = UserDataError;

    fn try_from(value: u64) -> (res: Result<Self, UserDataError>) {
        assert((value & 0xffff_ffff_0000_0000) >> 32 == value / 0x1_0000_0000) by (bit_vector);
        assert(value & 0x0000_0000_ffff_ffff == value % 0x1_0000_0000) by (bit_vector);
        let op: u32 = ((value & 0xffff_ffff_0000_0000) >> 32) as u32;
        let data: u32 = (value & 0x0000_0000_ffff_ffff) as u32;
        match UserDataOpType::try_from(op) {
            Ok(op_type) => Ok(UserData { op_type, data: if data == 0 { None } else { Some(data) } }),
            Err(e) => Err(UserDataError::UnknownOperationType(e)),
        }
    }
}

/// A tag survives the trip through the ring: decoding its number gives the tag back.
pub proof fn decode_undoes_encode(tag: UserData)
    requires
        tag.wf(),
    ensures
        UserData::decoded(tag.encoded()) == Ok::<UserData, UserDataError>(tag),
{
}

/// A number that decodes to a tag is the number of that tag.
pub proof fn encode_undoes_decode(value: u64)
    ensures
        UserData::decoded(value) matches Ok(tag) ==> tag.wf() && tag.encoded() == value,
{
}

} // verus!
