//! ADB messages: the 24-byte header, its checks, and the messages that the device sends.

use crate::bytes::{
    byte_sum, le_u32, lemma_byte_sum_bound, lemma_bytes_at, lemma_le_u32_at, push_u32, read_u32,
    u32_bytes,
};
use crate::device_info::DeviceInfo;
use vstd::prelude::*;
use vstd::slice::{slice_subrange, slice_to_vec};
use vstd::std_specs::convert::{FromSpecImpl, TryFromSpecImpl};
use vstd::utf8::{
    decode_utf8, encode_utf8, encode_utf8_decode_utf8, encode_utf8_valid_utf8, valid_utf8,
};

verus! {

broadcast use crate::bytes::u32_bytes_len;

pub const A_CNXN: u32 = 0x4e58_4e43;

pub const A_AUTH: u32 = 0x4854_5541;

pub const A_OPEN: u32 = 0x4e45_504f;

pub const A_OKAY: u32 = 0x5941_4b4f;

pub const A_CLSE: u32 = 0x4553_4c43;

pub const A_WRTE: u32 = 0x4554_5257;

pub const A_STLS: u32 = 0x534c_5453;

/// A command word that stands for no command.
#[derive(Clone, Copy, Debug, PartialEq, Eq, Structural)]
pub struct CommandParsingError(pub u32);

/// ADB protocol command identifiers.
#[derive(Clone, Copy, Debug, PartialEq, Eq, Structural)]
pub enum Command {
    /// Connection handshake: `arg0`=version, `arg1`=`max_payload`, payload=system identity.
    Cnxn,
    /// Authentication challenge/response.
    Auth,
    /// Open a new stream: `arg0`=`local_id`, payload=destination.
    Open,
    /// Stream ready for data: `arg0`=`local_id`, `arg1`=`remote_id`.
    Okay,
    /// Close a stream: `arg0`=`local_id`, `arg1`=`remote_id`.
    Clse,
    /// Write data to a stream: `arg0`=`local_id`, `arg1`=`remote_id`.
    Wrte,
    /// Start TLS handshake.
    Stls,
}

/// The word that stands for a command on the wire.
pub open spec fn command_word(c: Command) -> u32 {
    match c {
        Command::Cnxn => A_CNXN,
        Command::Auth => A_AUTH,
        Command::Open => A_OPEN,
        Command::Okay => A_OKAY,
        Command::Clse => A_CLSE,
        Command::Wrte => A_WRTE,
        Command::Stls => A_STLS,
    }
}

/// The command that a word stands for.
pub open spec fn command_of_word(w: u32) -> Result<Command, CommandParsingError> {
    if w == A_CNXN {
        Ok(Command::Cnxn)
    } else if w == A_AUTH {
        Ok(Command::Auth)
    } else if w == A_OPEN {
        Ok(Command::Open)
    } else if w == A_OKAY {
        Ok(Command::Okay)
    } else if w == A_CLSE {
        Ok(Command::Clse)
    } else if w == A_WRTE {
        Ok(Command::Wrte)
    } else if w == A_STLS {
        Ok(Command::Stls)
    } else {
        Err(CommandParsingError(w))
    }
}

/// The four letters by which a command is known.
pub open spec fn command_name(c: Command) -> Seq<char> {
    match c {
        Command::Cnxn => "CNXN"@,
        Command::Auth => "AUTH"@,
        Command::Open => "OPEN"@,
        Command::Okay => "OKAY"@,
        Command::Clse => "CLSE"@,
        Command::Wrte => "WRTE"@,
        Command::Stls => "STLS"@,
    }
}

impl TryFromSpecImpl<u32> for Command {
    open spec fn obeys_try_from_spec() -> bool {
        true
    }

    open spec fn try_from_spec(v: u32) -> Result<Self, Self::Error> {
        command_of_word(v)
    }
}

impl TryFrom<u32> for Command {
    type Error = CommandParsingError;

    fn try_from(value: u32) -> (res: Result<Self, CommandParsingError>) {
        match value {
            A_CNXN => Ok(Command::Cnxn),
            A_AUTH => Ok(Command::Auth),
            A_OPEN => Ok(Command::Open),
            A_OKAY => Ok(Command::Okay),
            A_CLSE => Ok(Command::Clse),
            A_WRTE => Ok(Command::Wrte),
            A_STLS => Ok(Command::Stls),
            other => Err(CommandParsingError(other)),
        }
    }
}

impl FromSpecImpl<Command> for u32 {
    open spec fn obeys_from_spec() -> bool {
        true
    }

    open spec fn from_spec(v: Command) -> u32 {
        command_word(v)
    }
}

impl From<Command> for u32 {
    fn from(value: Command) -> (res: u32) {
        match value {
            Command::Cnxn => A_CNXN,
            Command::Auth => A_AUTH,
            Command::Open => A_OPEN,
            Command::Okay => A_OKAY,
            Command::Clse => A_CLSE,
            Command::Wrte => A_WRTE,
            Command::Stls => A_STLS,
        }
    }
}

impl Command {
    /// The four letters by which the command is known.
    pub fn name(&self) -> (res: &'static str)
        ensures
            res@ == command_name(*self),
    {
        match self {
            Command::Cnxn => "CNXN",
            Command::Auth => "AUTH",
            Command::Open => "OPEN",
            Command::Okay => "OKAY",
            Command::Clse => "CLSE",
            Command::Wrte => "WRTE",
            Command::Stls => "STLS",
        }
    }
}

/// ADB message header (24 bytes on the wire).
#[derive(Clone, Copy, Debug, PartialEq, Eq, Structural)]
pub struct AdbHeader {
    /// The command identifier.
    pub command: Command,
    /// First argument (meaning depends on command).
    pub arg0: u32,
    /// Second argument (meaning depends on command).
    pub arg1: u32,
    /// Length of the payload that follows, in bytes.
    pub data_length: u32,
    /// Checksum of the payload (sum of all bytes as `u32`).
    pub data_check: u32,
    /// Bitwise inverse of the command word.
    pub magic: u32,
}

/// How many bytes a header takes on the wire.
pub const HEADER_SIZE: usize = 24;

/// The bitwise inverse of a command's word.
pub open spec fn command_magic(c: Command) -> u32 {
    (0xffff_ffff - command_word(c)) as u32
}

impl AdbHeader {
    /// The magic belongs to the command.
    pub open spec fn wf(self) -> bool {
        self.magic == command_magic(self.command)
    }

    /// The header on the wire: six little-endian words.
    pub open spec fn wire(self) -> Seq<u8> {
        u32_bytes(command_word(self.command)) + u32_bytes(self.arg0) + u32_bytes(self.arg1)
            + u32_bytes(self.data_length) + u32_bytes(self.data_check) + u32_bytes(self.magic)
    }

    /// The header as it goes over the wire.
    pub fn to_bytes(&self) -> (res: Vec<u8>)
        ensures
            res@ == self.wire(),
            res@.len() == HEADER_SIZE,
    {
        let mut out: Vec<u8> = Vec::with_capacity(HEADER_SIZE);
        push_u32(&mut out, u32::from(self.command));
        push_u32(&mut out, self.arg0);
        push_u32(&mut out, self.arg1);
        push_u32(&mut out, self.data_length);
        push_u32(&mut out, self.data_check);
        push_u32(&mut out, self.magic);
        assert(out@ =~= self.wire());
        out
    }
}

/// Computes the payload checksum: the sum of all bytes.
pub fn checksum(data: &[u8]) -> (sum: u32)
    requires
        byte_sum(data@) <= u32::MAX,
    ensures
        sum == byte_sum(data@),
{
    let mut sum: u32 = 0;
    let mut i: usize = 0;
    while i < data.len()
        invariant
            i <= data@.len(),
            sum == byte_sum(data@.take(i as int)),
            byte_sum(data@) <= u32::MAX,
        decreases data@.len() - i,
    {
        assert(data@.take(i + 1).drop_last() =~= data@.take(i as int));
        proof {
            lemma_byte_sum_prefix(data@, i + 1);
        }
        sum = sum + data[i] as u32;
        i = i + 1;
    }
    assert(data@.take(i as int) =~= data@);
    sum
}

proof fn lemma_byte_sum_prefix(s: Seq<u8>, n: int)
    requires
        0 <= n <= s.len(),
    ensures
        byte_sum(s.take(n)) <= byte_sum(s),
    decreases s.len() - n,
{
    if n < s.len() {
        lemma_byte_sum_prefix(s, n + 1);
        assert(s.take(n + 1).drop_last() =~= s.take(n));
    } else {
        assert(s.take(n) =~= s);
    }
}

/// Why bytes are no header.
#[derive(Clone, Copy, Debug, PartialEq, Eq, Structural)]
pub enum HeaderError {
    /// The bytes end before the header does.
    TooShort,
    /// The first word stands for no command.
    UnknownCommand(CommandParsingError),
    /// The last word is not the inverse of the first.
    BadMagic,
}

/// The header that bytes begin with.
///
/// The first word is judged before the length of the rest.
pub open spec fn parsed_header(s: Seq<u8>) -> Result<AdbHeader, HeaderError> {
    if s.len() < 4 {
        Err(HeaderError::TooShort)
    } else {
        match command_of_word(le_u32(s)) {
            Err(e) => Err(HeaderError::UnknownCommand(e)),
            Ok(command) => if s.len() < HEADER_SIZE {
                Err(HeaderError::TooShort)
            } else if le_u32(s.skip(20)) != command_magic(command) {
                Err(HeaderError::BadMagic)
            } else {
                Ok(
                    AdbHeader {
                        command,
                        arg0: le_u32(s.skip(4)),
                        arg1: le_u32(s.skip(8)),
                        data_length: le_u32(s.skip(12)),
                        data_check: le_u32(s.skip(16)),
                        magic: le_u32(s.skip(20)),
                    },
                )
            },
        }
    }
}

/// Parses the header that `input` begins with, and moves `input` past it.
///
/// # Errors
///
/// Returns an error if the slice is too short, contains an unknown command,
/// or fails the magic check; `input` then stays where it was.
pub fn parse_header(input: &mut &[u8]) -> (res: Result<AdbHeader, HeaderError>)
    ensures
        res == parsed_header(old(input)@),
        final(input)@ == (if res is Ok {
            old(input)@.skip(HEADER_SIZE as int)
        } else {
            old(input)@
        }),
{
    let data: &[u8] = *input;
    assert(data@.skip(0) =~= data@);
    if data.len() < 4 {
        return Err(HeaderError::TooShort);
    }
    match Command::try_from(read_u32(data, 0)) {
        Err(e) => Err(HeaderError::UnknownCommand(e)),
        Ok(command) => {
            if data.len() < HEADER_SIZE {
                return Err(HeaderError::TooShort);
            }
            let magic: u32 = read_u32(data, 20);
            let word: u32 = u32::from(command);
            assert(word ^ 0xffff_ffff == 0xffff_ffff - word) by (bit_vector);
            if magic != word ^ 0xffff_ffff {
                return Err(HeaderError::BadMagic);
            }
            let header = AdbHeader {
                command,
                arg0: read_u32(data, 4),
                arg1: read_u32(data, 8),
                data_length: read_u32(data, 12),
                data_check: read_u32(data, 16),
                magic,
            };
            *input = slice_subrange(data, HEADER_SIZE, data.len());
            assert(input@ =~= data@.skip(24));
            Ok(header)
        },
    }
}

/// ADB protocol versions.
#[derive(Clone, Copy, Debug, PartialEq, Eq, Structural)]
pub enum ProtocolVersion {
    /// The first version: every payload is checked.
    V0,
    /// The version that leaves payload checksums out.
    V1,
}

pub const A_VERSION_0: u32 = 0x0100_0000;

pub const A_VERSION_1: u32 = 0x0100_0001;

/// The largest payload of the first version.
pub const MAX_PAYLOAD_V0: u32 = 0x1000;

/// The largest payload of the second version.
pub const MAX_PAYLOAD_V1: u32 = 0x10_0000;

/// The version that the device speaks, unless the host asks for an older one.
pub const PROTOCOL_VERSION: ProtocolVersion = ProtocolVersion::V1;

/// A version word that stands for no version.
#[derive(Clone, Copy, Debug, PartialEq, Eq, Structural)]
pub struct ProtocolVersionError(pub u32);

/// The word that stands for a version in CNXN.
pub open spec fn version_word(v: ProtocolVersion) -> u32 {
    match v {
        ProtocolVersion::V0 => A_VERSION_0,
        ProtocolVersion::V1 => A_VERSION_1,
    }
}

/// The version that a word stands for.
pub open spec fn version_of_word(w: u32) -> Result<ProtocolVersion, ProtocolVersionError> {
    if w == A_VERSION_0 {
        Ok(ProtocolVersion::V0)
    } else if w == A_VERSION_1 {
        Ok(ProtocolVersion::V1)
    } else {
        Err(ProtocolVersionError(w))
    }
}

impl TryFromSpecImpl<u32> for ProtocolVersion {
    open spec fn obeys_try_from_spec() -> bool {
        true
    }

    open spec fn try_from_spec(v: u32) -> Result<Self, Self::Error> {
        version_of_word(v)
    }
}

impl TryFrom<u32> for ProtocolVersion {
    type Error = ProtocolVersionError;

    fn try_from(value: u32) -> (res: Result<Self, ProtocolVersionError>) {
        match value {
            A_VERSION_0 => Ok(ProtocolVersion::V0),
            A_VERSION_1 => Ok(ProtocolVersion::V1),
            other => Err(ProtocolVersionError(other)),
        }
    }
}

impl FromSpecImpl<ProtocolVersion> for u32 {
    open spec fn obeys_from_spec() -> bool {
        true
    }

    open spec fn from_spec(v: ProtocolVersion) -> u32 {
        version_word(v)
    }
}

impl From<ProtocolVersion> for u32 {
    fn from(value: ProtocolVersion) -> (res: u32) {
        match value {
            ProtocolVersion::V0 => A_VERSION_0,
            ProtocolVersion::V1 => A_VERSION_1,
        }
    }
}

impl ProtocolVersion {
    /// Whether payloads of this version carry a checksum.
    pub open spec fn checked(self) -> bool {
        self is V0
    }

    /// Whether payloads of this version carry a checksum.
    pub fn requires_checksum(&self) -> (res: bool)
        ensures
            res == self.checked(),
    {
        match self {
            ProtocolVersion::V0 => true,
            ProtocolVersion::V1 => false,
        }
    }

    /// The largest payload, in bytes, that this version allows.
    pub open spec fn payload_limit(self) -> u32 {
        match self {
            ProtocolVersion::V0 => MAX_PAYLOAD_V0,
            ProtocolVersion::V1 => MAX_PAYLOAD_V1,
        }
    }

    /// The largest payload, in bytes, that this version allows.
    pub fn max_payload(&self) -> (res: u32)
        ensures
            res == self.payload_limit(),
    {
        match self {
            ProtocolVersion::V0 => MAX_PAYLOAD_V0,
            ProtocolVersion::V1 => MAX_PAYLOAD_V1,
        }
    }
}

/// A payload that a header can describe: its length, and its checksum where the version wants
/// one, fit in 32 bits.
pub open spec fn sendable(version: ProtocolVersion, payload: Seq<u8>) -> bool {
    &&& payload.len() <= u32::MAX
    &&& version.checked() ==> byte_sum(payload) <= u32::MAX
}

/// Whether a header can describe a payload.
pub fn is_sendable(version: ProtocolVersion, payload: &[u8]) -> (res: bool)
    ensures
        res == sendable(version, payload@),
{
    if payload.len() > u32::MAX as usize {
        return false;
    }
    if !version.requires_checksum() {
        return true;
    }
    let mut sum: u64 = 0;
    let mut i: usize = 0;
    assert(payload@.take(0) =~= Seq::<u8>::empty());
    while i < payload.len()
        invariant
            i <= payload@.len() <= u32::MAX,
            version.checked(),
            sum == byte_sum(payload@.take(i as int)),
            sum <= u32::MAX,
        decreases payload@.len() - i,
    {
        assert(payload@.take(i + 1).drop_last() =~= payload@.take(i as int));
        sum = sum + payload[i] as u64;
        i = i + 1;
        if sum > u32::MAX as u64 {
            proof {
                lemma_byte_sum_prefix(payload@, i as int);
            }
            return false;
        }
    }
    assert(payload@.take(i as int) =~= payload@);
    true
}

/// The header that announces `payload`.
pub open spec fn header_for(
    version: ProtocolVersion,
    command: Command,
    arg0: u32,
    arg1: u32,
    payload: Seq<u8>,
) -> AdbHeader {
    AdbHeader {
        command,
        arg0,
        arg1,
        data_length: payload.len() as u32,
        data_check: if version.checked() {
            byte_sum(payload) as u32
        } else {
            0
        },
        magic: command_magic(command),
    }
}

fn message_header(
    version: ProtocolVersion,
    command: Command,
    arg0: u32,
    arg1: u32,
    payload: &[u8],
) -> (res: AdbHeader)
    requires
        sendable(version, payload@),
    ensures
        res == header_for(version, command, arg0, arg1, payload@),
{
    let word: u32 = u32::from(command);
    assert(word ^ 0xffff_ffff == 0xffff_ffff - word) by (bit_vector);
    let data_check: u32 = if version.requires_checksum() {
        checksum(payload)
    } else {
        0
    };
    AdbHeader {
        command,
        arg0,
        arg1,
        data_length: payload.len() as u32,
        data_check,
        magic: word ^ 0xffff_ffff,
    }
}

/// The header of a CLSE message, which carries no payload.
pub fn clse_header(version: ProtocolVersion, local_id: u32, remote_id: u32) -> (res: AdbHeader)
    ensures
        res == header_for(version, Command::Clse, local_id, remote_id, Seq::empty()),
{
    let none: Vec<u8> = Vec::new();
    message_header(version, Command::Clse, local_id, remote_id, none.as_slice())
}

/// The header of an OKAY message, which carries no payload.
pub fn okay_header(version: ProtocolVersion, local_id: u32, remote_id: u32) -> (res: AdbHeader)
    ensures
        res == header_for(version, Command::Okay, local_id, remote_id, Seq::empty()),
{
    let none: Vec<u8> = Vec::new();
    message_header(version, Command::Okay, local_id, remote_id, none.as_slice())
}

/// The header of a WRTE message that carries `payload`.
pub fn wrte_header(
    version: ProtocolVersion,
    local_id: u32,
    remote_id: u32,
    payload: &[u8],
) -> (res: AdbHeader)
    requires
        sendable(version, payload@),
    ensures
        res == header_for(version, Command::Wrte, local_id, remote_id, payload@),
{
    message_header(version, Command::Wrte, local_id, remote_id, payload)
}

/// The system identity string: `device`, the serial number and the product properties.
pub open spec fn identity(info: DeviceInfo) -> Seq<char> {
    "device:"@ + info.serial@ + ":ro.product.name="@ + info.name@ + ";ro.product.model="@
        + info.model@ + ";ro.product.device="@ + info.device@ + ";"@
}

/// The payload of the CNXN response: the identity string in UTF-8.
pub open spec fn identity_payload(info: DeviceInfo) -> Seq<u8> {
    encode_utf8(identity(info))
}

/// The identity of the device in UTF-8.
pub fn identity_bytes(info: &DeviceInfo) -> (res: Vec<u8>)
    ensures
        res@ == identity_payload(*info),
{
    let text = "device:".to_owned().concat(info.serial.as_str()).concat(":ro.product.name=").concat(
        info.name.as_str(),
    ).concat(";ro.product.model=").concat(info.model.as_str()).concat(";ro.product.device=").concat(
        info.device.as_str(),
    ).concat(";");
    slice_to_vec(text.as_str().as_bytes())
}

/// The header and payload that answer a CNXN: the version, the largest payload that it allows,
/// and the identity of the device.
pub fn cnxn_response(version: ProtocolVersion, info: &DeviceInfo) -> (res: (AdbHeader, Vec<u8>))
    requires
        sendable(version, identity_payload(*info)),
    ensures
        res.1@ == identity_payload(*info),
        res.0 == header_for(
            version,
            Command::Cnxn,
            version_word(version),
            version.payload_limit(),
            res.1@,
        ),
{
    let payload: Vec<u8> = identity_bytes(info);
    let header = message_header(
        version,
        Command::Cnxn,
        u32::from(version),
        version.max_payload(),
        payload.as_slice(),
    );
    (header, payload)
}

/// Every command has a word of its own.
pub proof fn command_word_round_trip(c: Command, w: u32)
    ensures
        command_of_word(command_word(c)) == Ok::<Command, CommandParsingError>(c),
        command_of_word(w) matches Ok(d) ==> command_word(d) == w,
{
}

/// Parsing a header from the bytes that it was written to gives the header back, whatever
/// follows.
pub proof fn parse_undoes_write(h: AdbHeader, tail: Seq<u8>)
    requires
        h.wf(),
    ensures
        parsed_header(h.wire() + tail) == Ok::<AdbHeader, HeaderError>(h),
{
    let s = h.wire() + tail;
    assert(s.skip(0) =~= s);
    assert(s.subrange(0, 4) =~= u32_bytes(command_word(h.command)));
    assert(s.subrange(4, 8) =~= u32_bytes(h.arg0));
    assert(s.subrange(8, 12) =~= u32_bytes(h.arg1));
    assert(s.subrange(12, 16) =~= u32_bytes(h.data_length));
    assert(s.subrange(16, 20) =~= u32_bytes(h.data_check));
    assert(s.subrange(20, 24) =~= u32_bytes(h.magic));
    lemma_le_u32_at(s, 0, command_word(h.command));
    lemma_le_u32_at(s, 4, h.arg0);
    lemma_le_u32_at(s, 8, h.arg1);
    lemma_le_u32_at(s, 12, h.data_length);
    lemma_le_u32_at(s, 16, h.data_check);
    lemma_le_u32_at(s, 20, h.magic);
}

/// Bytes that parse as a header begin with the bytes of that header, whose magic is right.
pub proof fn write_undoes_parse(s: Seq<u8>)
    ensures
        parsed_header(s) matches Ok(h) ==> h.wf() && h.wire() == s.take(HEADER_SIZE as int),
{
    if let Ok(h) = parsed_header(s) {
        assert(s.skip(0) =~= s);
        lemma_bytes_at(s, 0);
        lemma_bytes_at(s, 4);
        lemma_bytes_at(s, 8);
        lemma_bytes_at(s, 12);
        lemma_bytes_at(s, 16);
        lemma_bytes_at(s, 20);
        assert(h.wire() =~= s.take(24));
    }
}

/// Every header that the device builds passes the check that it puts to the host's headers, and
/// its length and checksum are those of the payload; where payloads are not checked, there is no
/// checksum.
pub proof fn built_headers_are_sound(
    version: ProtocolVersion,
    command: Command,
    arg0: u32,
    arg1: u32,
    payload: Seq<u8>,
)
    requires
        sendable(version, payload),
    ensures
        header_for(version, command, arg0, arg1, payload).wf(),
        header_for(version, command, arg0, arg1, payload).data_length == payload.len(),
        version.checked() ==> header_for(version, command, arg0, arg1, payload).data_check
            == byte_sum(payload),
        !version.checked() ==> header_for(version, command, arg0, arg1, payload).data_check == 0,
        header_for(version, command, arg0, arg1, payload).command == command,
        header_for(version, command, arg0, arg1, payload).arg0 == arg0,
        header_for(version, command, arg0, arg1, payload).arg1 == arg1,
{
}

/// The word of a command spells its four letters, and the magic is what the word lacks to all
/// ones.
pub proof fn words_spell_names(c: Command)
    ensures
        command_name(c).len() == 4,
        forall|i: int|
            0 <= i < 4 ==> (#[trigger] u32_bytes(command_word(c))[i]) as int == command_name(
                c,
            )[i] as int,
        command_word(c) + command_magic(c) == 0xffff_ffff,
{
    reveal(u32_bytes);
    reveal_strlit("CNXN");
    reveal_strlit("AUTH");
    reveal_strlit("OPEN");
    reveal_strlit("OKAY");
    reveal_strlit("CLSE");
    reveal_strlit("WRTE");
    reveal_strlit("STLS");
}

/// Bytes are a header exactly if there are 24 of them, the first word is a command, and the last
/// word is the inverse of the first. What the header says stands in the words between, in order;
/// what follows the 24 bytes has no part in it.
pub proof fn header_is_read_word_by_word(s: Seq<u8>)
    ensures
        parsed_header(s) is Ok <==> {
            &&& s.len() >= 24
            &&& command_of_word(le_u32(s)) is Ok
            &&& le_u32(s) + le_u32(s.skip(20)) == 0xffff_ffff
        },
        parsed_header(s) matches Ok(h) ==> {
            &&& command_word(h.command) == le_u32(s)
            &&& h.arg0 == le_u32(s.skip(4))
            &&& h.arg1 == le_u32(s.skip(8))
            &&& h.data_length == le_u32(s.skip(12))
            &&& h.data_check == le_u32(s.skip(16))
        },
{
}

/// The first version knows payloads of up to 4 KiB and checks them, the second payloads of up to
/// 1 MiB and does not; each has its own word, and no other word is a version.
pub proof fn versions_differ(w: u32)
    ensures
        version_of_word(w) == Ok::<ProtocolVersion, ProtocolVersionError>(ProtocolVersion::V0)
            <==> w == 0x0100_0000,
        version_of_word(w) == Ok::<ProtocolVersion, ProtocolVersionError>(ProtocolVersion::V1)
            <==> w == 0x0100_0001,
        version_of_word(w) matches Ok(v) ==> version_word(v) == w,
        version_of_word(w) matches Err(e) ==> e.0 == w,
        ProtocolVersion::V0.payload_limit() == 4096 && ProtocolVersion::V0.checked(),
        ProtocolVersion::V1.payload_limit() == 1024 * 1024 && !ProtocolVersion::V1.checked(),
{
}

/// A header can describe every payload of up to 16 MiB, in either version.
pub proof fn ordinary_payloads_can_be_sent(version: ProtocolVersion, payload: Seq<u8>)
    requires
        payload.len() <= 0x100_0000,
    ensures
        sendable(version, payload),
{
    lemma_byte_sum_bound(payload);
}

/// Whoever cuts the identity up finds in it, in this order and unchanged, the serial number, the
/// name, the model and the device, each behind the word that announces it.
pub proof fn identity_names_the_device(info: DeviceInfo)
    ensures
        ({
            let s = identity(info);
            let serial_end = 7 + info.serial@.len() as int;
            let name = serial_end + 17;
            let name_end = name + info.name@.len() as int;
            let model = name_end + 18;
            let model_end = model + info.model@.len() as int;
            let device = model_end + 19;
            let device_end = device + info.device@.len() as int;
            &&& s.len() == device_end + 1
            &&& s.subrange(0, 7) == "device:"@
            &&& s.subrange(7, serial_end) == info.serial@
            &&& s.subrange(serial_end, name) == ":ro.product.name="@
            &&& s.subrange(name, name_end) == info.name@
            &&& s.subrange(name_end, model) == ";ro.product.model="@
            &&& s.subrange(model, model_end) == info.model@
            &&& s.subrange(model_end, device) == ";ro.product.device="@
            &&& s.subrange(device, device_end) == info.device@
            &&& s[device_end] == ';'
        }),
        valid_utf8(identity_payload(info)),
        decode_utf8(identity_payload(info)) == identity(info),
{
    reveal_strlit("device:");
    reveal_strlit(":ro.product.name=");
    reveal_strlit(";ro.product.model=");
    reveal_strlit(";ro.product.device=");
    reveal_strlit(";");
    encode_utf8_decode_utf8(identity(info));
    encode_utf8_valid_utf8(identity(info));
    let s = identity(info);
    let serial_end = 7 + info.serial@.len() as int;
    let name = serial_end + 17;
    let name_end = name + info.name@.len() as int;
    let model = name_end + 18;
    let model_end = model + info.model@.len() as int;
    let device = model_end + 19;
    let device_end = device + info.device@.len() as int;
    assert(s.subrange(0, 7) =~= "device:"@);
    assert(s.subrange(7, serial_end) =~= info.serial@);
    assert(s.subrange(serial_end, name) =~= ":ro.product.name="@);
    assert(s.subrange(name, name_end) =~= info.name@);
    assert(s.subrange(name_end, model) =~= ";ro.product.model="@);
    assert(s.subrange(model, model_end) =~= info.model@);
    assert(s.subrange(model_end, device) =~= ";ro.product.device="@);
    assert(s.subrange(device, device_end) =~= info.device@);
}

} // verus!
