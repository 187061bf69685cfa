//! ADB sync protocol (file transfer).
//!
//! The sync protocol runs inside an ADB stream opened with destination `sync:`. Sync messages are
//! carried in WRTE payloads and consist of an 8-byte header (id + length, both `u32` LE)
//! optionally followed by `length` bytes of data.
//!
//! ```text
//! adb pull:
//!   LSTAT_V1(path)        -> STAT(mode, size, mtime)
//!   RECV_V1(path)         -> DATA(chunk)* DONE
//!   QUIT                  -> (stream closed)
//!
//! adb push:
//!   SEND_V1(path,mode)    -> (wait for data)
//!   DATA(chunk)*          -> (written to file)
//!   DONE(mtime)           -> OKAY
//! ```
//!
//! Errors at any point are reported as FAIL messages containing a human-readable error string.

use crate::bytes::{
    find_byte, first_index, le_u32, lemma_bytes_at, lemma_first_index, lemma_first_index_bound,
    lemma_le_u32_at, push_bytes, read_u32, u32_bytes,
};
use vstd::prelude::*;
use vstd::slice::slice_subrange;
use vstd::std_specs::convert::TryFromSpecImpl;

verus! {

broadcast use crate::bytes::u32_bytes_len;

/// The largest chunk that one DATA frame carries to the host.
pub const PAYLOAD_SIZE_MAX_BYTES: usize = 0x1_0000;

/// `STAT`
pub const ID_LSTAT_V1: u32 = 0x5441_5453;

/// `DATA`
pub const ID_DATA: u32 = 0x4154_4144;

/// `DONE`
pub const ID_DONE: u32 = 0x454e_4f44;

/// `FAIL`
pub const ID_FAIL: u32 = 0x4c49_4146;

/// `OKAY`
pub const ID_OKAY: u32 = 0x5941_4b4f;

/// `RECV`
pub const ID_RECV_V1: u32 = 0x5643_4552;

/// `SEND`
pub const ID_SEND_V1: u32 = 0x444e_4553;

/// `QUIT`
pub const ID_QUIT: u32 = 0x5449_5551;

/// A word that stands for no sync command.
#[derive(Clone, Copy, Debug, PartialEq, Eq, Structural)]
pub struct SyncCommandParsingError(pub u32);

/// Sync protocol command identifiers.
#[derive(Clone, Copy, Debug, PartialEq, Eq, Structural)]
pub enum SyncPacketId {
    /// Stat a file path.
    LstatV1,
    /// Receive (pull) a file from the device.
    RecvV1,
    /// Send (push) a file to the device.
    SendV1,
    /// End the sync session.
    Quit,
}

/// The command that a word stands for.
pub open spec fn packet_id_of_word(w: u32) -> Result<SyncPacketId, SyncCommandParsingError> {
    if w == ID_LSTAT_V1 {
        Ok(SyncPacketId::LstatV1)
    } else if w == ID_RECV_V1 {
        Ok(SyncPacketId::RecvV1)
    } else if w == ID_SEND_V1 {
        Ok(SyncPacketId::SendV1)
    } else if w == ID_QUIT {
        Ok(SyncPacketId::Quit)
    } else {
        Err(SyncCommandParsingError(w))
    }
}

impl TryFromSpecImpl<u32> for SyncPacketId {
    open spec fn obeys_try_from_spec() -> bool {
        true
    }

    open spec fn try_from_spec(v: u32) -> Result<Self, Self::Error> {
        packet_id_of_word(v)
    }
}

impl TryFrom<u32> for SyncPacketId {
    type Error = SyncCommandParsingError;

    fn try_from(value: u32) -> (res: Result<Self, SyncCommandParsingError>) {
        match value {
            ID_LSTAT_V1 => Ok(SyncPacketId::LstatV1),
            ID_RECV_V1 => Ok(SyncPacketId::RecvV1),
            ID_SEND_V1 => Ok(SyncPacketId::SendV1),
            ID_QUIT => Ok(SyncPacketId::Quit),
            other => Err(SyncCommandParsingError(other)),
        }
    }
}

impl SyncPacketId {
    /// The four letters by which the command is known.
    pub fn name(&self) -> (res: &'static str)
        ensures
            res@ == match *self {
                SyncPacketId::LstatV1 => "STAT"@,
                SyncPacketId::RecvV1 => "RECV"@,
                SyncPacketId::SendV1 => "SEND"@,
                SyncPacketId::Quit => "QUIT"@,
            },
    {
        match self {
            SyncPacketId::LstatV1 => "STAT",
            SyncPacketId::RecvV1 => "RECV",
            SyncPacketId::SendV1 => "SEND",
            SyncPacketId::Quit => "QUIT",
        }
    }
}

/// A parsed sync request from the host. Paths are the bytes that the host sent.
#[derive(Debug)]
pub enum SyncPacket<'a> {
    /// Stat request with the target path.
    LStatV1(&'a [u8]),
    /// File receive request with the target path.
    RecvV1(&'a [u8]),
    /// File send request with the target path and mode.
    SendV1(&'a [u8], u32),
    /// End the sync session.
    Quit,
}

/// A sync request as a value.
pub enum PacketView {
    LStatV1(Seq<u8>),
    RecvV1(Seq<u8>),
    SendV1(Seq<u8>, u32),
    Quit,
}

impl<'a> View for SyncPacket<'a> {
    type V = PacketView;

    open spec fn view(&self) -> PacketView {
        match self {
            SyncPacket::LStatV1(path) => PacketView::LStatV1(path@),
            SyncPacket::RecvV1(path) => PacketView::RecvV1(path@),
            SyncPacket::SendV1(path, mode) => PacketView::SendV1(path@, *mode),
            SyncPacket::Quit => PacketView::Quit,
        }
    }
}

/// An ASCII digit.
pub open spec fn is_digit(b: u8) -> bool {
    0x30 <= b <= 0x39
}

/// How many ASCII digits a byte string begins with.
pub open spec fn digit_count(s: Seq<u8>) -> nat
    decreases s.len(),
{
    if s.len() == 0 || !is_digit(s[0]) {
        0
    } else {
        1 + digit_count(s.drop_first())
    }
}

/// The number that ASCII digits spell.
pub open spec fn decimal(s: Seq<u8>) -> nat
    decreases s.len(),
{
    if s.len() == 0 {
        0
    } else {
        10 * decimal(s.drop_last()) + (s.last() - 0x30) as nat
    }
}

/// The bytes that a length announces and the input holds.
pub open spec fn length_prefixed(s: Seq<u8>) -> Option<Seq<u8>> {
    if s.len() < 4 || s.len() < 4 + le_u32(s) {
        None
    } else {
        Some(s.subrange(4, 4 + le_u32(s)))
    }
}

/// The path and mode of a SEND request: a path that is not empty up to the first comma, then at
/// least one digit, the digits spelling a mode of 32 bits. What follows the digits is ignored.
pub open spec fn send_target(s: Seq<u8>) -> Option<(Seq<u8>, u32)> {
    let comma = first_index(s, 0x2c);
    if comma == 0 || comma == s.len() {
        None
    } else {
        let rest = s.skip(comma as int + 1);
        let digits = rest.take(digit_count(rest) as int);
        if digits.len() == 0 || decimal(digits) > u32::MAX {
            None
        } else {
            Some((s.take(comma as int), decimal(digits) as u32))
        }
    }
}

/// The request that bytes begin with, and how many bytes it takes.
pub open spec fn parsed_packet(s: Seq<u8>) -> Option<(PacketView, nat)> {
    if s.len() < 4 {
        None
    } else {
        match packet_id_of_word(le_u32(s)) {
            Err(_) => None,
            Ok(SyncPacketId::Quit) => Some((PacketView::Quit, 4)),
            Ok(id) => match length_prefixed(s.skip(4)) {
                None => None,
                Some(body) => match id {
                    SyncPacketId::LstatV1 => Some((PacketView::LStatV1(body), 8 + body.len())),
                    SyncPacketId::RecvV1 => Some((PacketView::RecvV1(body), 8 + body.len())),
                    _ => match send_target(body) {
                        None => None,
                        Some((path, mode)) => Some(
                            (PacketView::SendV1(path, mode), 8 + body.len()),
                        ),
                    },
                },
            },
        }
    }
}

/// Bytes that begin with no sync request, or with no sync frame.
#[derive(Clone, Copy, Debug, PartialEq, Eq, Structural)]
pub struct InvalidSync;

proof fn lemma_digit_count(s: Seq<u8>, n: int)
    requires
        0 <= n <= s.len(),
        forall|i: int| 0 <= i < n ==> is_digit(s[i]),
        n < s.len() ==> !is_digit(s[n]),
    ensures
        digit_count(s) == n,
    decreases n,
{
    if n > 0 {
        lemma_digit_count(s.drop_first(), n - 1);
    }
}

proof fn lemma_decimal_grows(s: Seq<u8>, n: int)
    requires
        0 <= n <= s.len(),
        forall|i: int| 0 <= i < s.len() ==> is_digit(s[i]),
    ensures
        decimal(s.take(n)) <= decimal(s),
    decreases s.len() - n,
{
    if n == s.len() {
        assert(s.take(n) =~= s);
    } else {
        lemma_decimal_grows(s, n + 1);
        assert(s.take(n + 1).drop_last() =~= s.take(n));
    }
}

/// A request, and with it the path that it names, lies inside the payload.
pub proof fn request_lies_in_payload(s: Seq<u8>)
    ensures
        parsed_packet(s) matches Some((packet, taken)) ==> {
            &&& taken <= s.len()
            &&& match packet {
                PacketView::LStatV1(path) => path.len() <= taken,
                PacketView::RecvV1(path) => path.len() <= taken,
                PacketView::SendV1(path, _) => path.len() <= taken,
                PacketView::Quit => true,
            }
        },
{
    if s.len() >= 4 {
        if let Some(body) = length_prefixed(s.skip(4)) {
            lemma_first_index_bound(body, 0x2c);
        }
    }
}

/// What follows a request in its payload has no part in it: the bytes of the request alone are
/// read as the same request.
pub proof fn request_stands_alone(s: Seq<u8>)
    ensures
        parsed_packet(s) matches Some((packet, taken)) ==> parsed_packet(s.take(taken as int))
            == Some((packet, taken)),
{
    if let Some((packet, taken)) = parsed_packet(s) {
        reveal(le_u32);
        request_lies_in_payload(s);
        let alone = s.take(taken as int);
        if !(packet is Quit) {
            assert(alone.skip(4) =~= s.skip(4).take(taken - 4));
            assert(le_u32(alone.skip(4)) == le_u32(s.skip(4)));
            let length = le_u32(s.skip(4));
            assert(alone.skip(4).subrange(4, 4 + length) =~= s.skip(4).subrange(4, 4 + length));
        }
    }
}

/// Splits a SEND target into path and mode.
fn parse_send_target(body: &[u8]) -> (res: Result<(&[u8], u32), InvalidSync>)
    ensures
        match res {
            Ok((path, mode)) => send_target(body@) == Some((path@, mode)),
            Err(_) => send_target(body@) is None,
        },
{
    let comma: usize = find_byte(body, 0x2c);
    proof {
        lemma_first_index_bound(body@, 0x2c);
    }
    if comma == 0 || comma == body.len() {
        return Err(InvalidSync);
    }
    let rest = slice_subrange(body, comma + 1, body.len());
    assert(rest@ =~= body@.skip(comma + 1));
    let mut end: usize = 0;
    while end < rest.len() && 0x30 <= rest[end] && rest[end] <= 0x39
        invariant
            end <= rest@.len(),
            forall|i: int| 0 <= i < end ==> is_digit(rest@[i]),
        decreases rest@.len() - end,
    {
        end = end + 1;
    }
    proof {
        lemma_digit_count(rest@, end as int);
    }
    if end == 0 {
        return Err(InvalidSync);
    }
    let ghost digits = rest@.take(end as int);
    let mut value: u32 = 0;
    let mut i: usize = 0;
    while i < end
        invariant
            i <= end <= rest@.len(),
            digits == rest@.take(end as int),
            forall|k: int| 0 <= k < digits.len() ==> is_digit(digits[k]),
            value == decimal(digits.take(i as int)),
            send_target(body@) is None <==> decimal(digits) > u32::MAX,
        decreases end - i,
    {
        assert(digits.take(i + 1).drop_last() =~= digits.take(i as int));
        assert(is_digit(digits[i as int]));
        let wide: u64 = 10 * (value as u64) + (rest[i] - 0x30) as u64;
        if wide > 0xffff_ffff {
            proof {
                lemma_decimal_grows(digits, i + 1);
            }
            return Err(InvalidSync);
        }
        value = wide as u32;
        i = i + 1;
    }
    assert(digits.take(i as int) =~= digits);
    let path = slice_subrange(body, 0, comma);
    assert(path@ =~= body@.take(comma as int));
    Ok((path, value))
}

/// Parses the sync request that `input` begins with, and moves `input` past it.
///
/// # Errors
///
/// Returns an error where `input` begins with no request; `input` then stays where it was.
pub fn parse_sync_packet<'a>(input: &mut &'a [u8]) -> (res: Result<SyncPacket<'a>, InvalidSync>)
    ensures
        match res {
            Ok(packet) => {
                &&& parsed_packet(old(input)@) matches Some((view, taken))
                &&& packet@ == view
                &&& final(input)@ == old(input)@.skip(taken as int)
            },
            Err(_) => parsed_packet(old(input)@) is None && final(input)@ == old(input)@,
        },
{
    let data: &'a [u8] = *input;
    assert(data@.skip(0) =~= data@);
    if data.len() < 4 {
        return Err(InvalidSync);
    }
    let id = match SyncPacketId::try_from(read_u32(data, 0)) {
        Ok(id) => id,
        Err(_) => {
            return Err(InvalidSync);
        },
    };
    match id {
        SyncPacketId::Quit => {
            *input = slice_subrange(data, 4, data.len());
            assert(input@ =~= data@.skip(4));
            return Ok(SyncPacket::Quit);
        },
        _ => {},
    }
    if data.len() < 8 {
        return Err(InvalidSync);
    }
    let length: u32 = read_u32(data, 4);
    if data.len() - 8 < length as usize {
        return Err(InvalidSync);
    }
    let end: usize = 8 + length as usize;
    let body = slice_subrange(data, 8, end);
    assert(body@ =~= data@.skip(4).subrange(4, 4 + length));
    let packet = match id {
        SyncPacketId::LstatV1 => SyncPacket::LStatV1(body),
        SyncPacketId::RecvV1 => SyncPacket::RecvV1(body),
        _ => match parse_send_target(body) {
            Ok((path, mode)) => SyncPacket::SendV1(path, mode),
            Err(e) => {
                return Err(e);
            },
        },
    };
    *input = slice_subrange(data, end, data.len());
    assert(input@ =~= data@.skip(end as int));
    Ok(packet)
}

/// Sync frame command IDs in host-to-device DATA/DONE frames.
#[derive(Clone, Copy, Debug, PartialEq, Eq, Structural)]
pub enum SyncFrameRequestId {
    /// File data chunk.
    Data,
    /// End of file transfer (`payload_len` carries the mtime).
    Done,
}

/// The frame id that a word stands for in a frame from the host.
pub open spec fn frame_id_of_word(w: u32) -> Result<SyncFrameRequestId, SyncCommandParsingError> {
    if w == ID_DATA {
        Ok(SyncFrameRequestId::Data)
    } else if w == ID_DONE {
        Ok(SyncFrameRequestId::Done)
    } else {
        Err(SyncCommandParsingError(w))
    }
}

impl TryFromSpecImpl<u32> for SyncFrameRequestId {
    open spec fn obeys_try_from_spec() -> bool {
        true
    }

    open spec fn try_from_spec(v: u32) -> Result<Self, Self::Error> {
        frame_id_of_word(v)
    }
}

impl TryFrom<u32> for SyncFrameRequestId {
    type Error = SyncCommandParsingError;

    fn try_from(value: u32) -> (res: Result<Self, SyncCommandParsingError>) {
        match value {
            ID_DATA => Ok(SyncFrameRequestId::Data),
            ID_DONE => Ok(SyncFrameRequestId::Done),
            other => Err(SyncCommandParsingError(other)),
        }
    }
}

impl SyncFrameRequestId {
    /// The four letters by which the frame is known.
    pub fn name(&self) -> (res: &'static str)
        ensures
            res@ == match *self {
                SyncFrameRequestId::Data => "DATA"@,
                SyncFrameRequestId::Done => "DONE"@,
            },
    {
        match self {
            SyncFrameRequestId::Data => "DATA",
            SyncFrameRequestId::Done => "DONE",
        }
    }
}

/// Parsed 8-byte header for host-to-device sync frames.
#[derive(Clone, Copy, Debug, PartialEq, Eq, Structural)]
pub struct SyncFrameRequestHeader {
    pub id: SyncFrameRequestId,
    pub payload_len: u32,
}

/// How many bytes the header of a sync frame takes.
pub const FRAME_HEADER_SIZE: usize = 8;

/// The frame header that bytes begin with.
pub open spec fn parsed_frame(s: Seq<u8>) -> Option<SyncFrameRequestHeader> {
    if s.len() < FRAME_HEADER_SIZE {
        None
    } else {
        match frame_id_of_word(le_u32(s)) {
            Ok(id) => Some(SyncFrameRequestHeader { id, payload_len: le_u32(s.skip(4)) }),
            Err(_) => None,
        }
    }
}

/// Parses the frame header that `input` begins with, and moves `input` past it.
///
/// # Errors
///
/// Returns an error where `input` is too short or names no frame; `input` then stays where it
/// was.
pub fn parse_sync_frame_header(input: &mut &[u8]) -> (res: Result<
    SyncFrameRequestHeader,
    InvalidSync,
>)
    ensures
        match res {
            Ok(header) => {
                &&& parsed_frame(old(input)@) == Some(header)
                &&& final(input)@ == old(input)@.skip(FRAME_HEADER_SIZE as int)
            },
            Err(_) => parsed_frame(old(input)@) is None && final(input)@ == old(input)@,
        },
{
    let data: &[u8] = *input;
    assert(data@.skip(0) =~= data@);
    if data.len() < FRAME_HEADER_SIZE {
        return Err(InvalidSync);
    }
    match SyncFrameRequestId::try_from(read_u32(data, 0)) {
        Ok(id) => {
            let payload_len: u32 = read_u32(data, 4);
            *input = slice_subrange(data, FRAME_HEADER_SIZE, data.len());
            assert(input@ =~= data@.skip(8));
            Ok(SyncFrameRequestHeader { id, payload_len })
        },
        Err(_) => Err(InvalidSync),
    }
}

/// Parsing state of a file that is being received.
#[derive(Clone, Copy, Debug)]
pub enum RecvState {
    /// A frame header comes next.
    Header,
    /// A payload ended inside a frame header: the first bytes of it, and how many they are.
    PartialHeader([u8; 8], usize),
    /// So many bytes of a DATA frame are still to come.
    Data { remaining: usize },
}

/// Parsing state as a value.
pub enum RecvView {
    /// The bytes of the next frame header that have come.
    Header(Seq<u8>),
    /// How many bytes of a DATA frame are still to come.
    Data(nat),
}

impl View for RecvState {
    type V = RecvView;

    open spec fn view(&self) -> RecvView {
        match self {
            RecvState::Header => RecvView::Header(Seq::empty()),
            RecvState::PartialHeader(bytes, len) => RecvView::Header(bytes@.take(*len as int)),
            RecvState::Data { remaining } => RecvView::Data(*remaining as nat),
        }
    }
}

impl RecvState {
    /// A partial header holds at least one byte, and not all of them.
    pub open spec fn wf(self) -> bool {
        self matches RecvState::PartialHeader(_, len) ==> 0 < len < FRAME_HEADER_SIZE
    }
}

/// How a payload leaves a transfer.
#[derive(Clone, Copy, Debug, PartialEq, Eq, Structural)]
pub enum ReceiveEnd {
    /// More data is expected.
    More,
    /// A DONE frame came, with the modification time of the file.
    Done { mtime: u32 },
    /// Something came that is no DATA or DONE frame.
    Invalid,
}

/// What a payload does to a transfer.
pub struct Received {
    /// The parsing state after it.
    pub state: RecvView,
    /// The file contents that it carries.
    pub written: Seq<u8>,
    /// Whether the transfer goes on.
    pub end: ReceiveEnd,
}

/// The same, with more file contents in front.
pub open spec fn preceded(first: Seq<u8>, r: Received) -> Received {
    Received { state: r.state, written: first + r.written, end: r.end }
}

/// What the payload `data` does to a transfer whose parsing stands at `state`.
///
/// The stream of a transfer is a row of frames. A DATA frame announces a number of bytes, which
/// follow and belong to the file; a DONE frame ends the transfer, and what follows it is ignored.
pub open spec fn received(state: RecvView, data: Seq<u8>) -> Received
    recommends
        state matches RecvView::Header(begun) ==> begun.len() < FRAME_HEADER_SIZE,
    decreases
            data.len(),
            (if state is Data {
                1nat
            } else {
                0
            }),
{
    match state {
        RecvView::Data(remaining) => if data.len() == 0 {
            Received { state, written: Seq::empty(), end: ReceiveEnd::More }
        } else if remaining > data.len() {
            Received {
                state: RecvView::Data((remaining - data.len()) as nat),
                written: data,
                end: ReceiveEnd::More,
            }
        } else {
            preceded(
                data.take(remaining as int),
                received(RecvView::Header(Seq::empty()), data.skip(remaining as int)),
            )
        },
        RecvView::Header(begun) => if data.len() == 0 || begun.len() + data.len()
            < FRAME_HEADER_SIZE || begun.len() >= FRAME_HEADER_SIZE {
            Received {
                state: RecvView::Header(begun + data),
                written: Seq::empty(),
                end: ReceiveEnd::More,
            }
        } else {
            let missing = FRAME_HEADER_SIZE - begun.len();
            match parsed_frame(begun + data.take(missing)) {
                None => Received {
                    state: RecvView::Header(Seq::empty()),
                    written: Seq::empty(),
                    end: ReceiveEnd::Invalid,
                },
                Some(
                    SyncFrameRequestHeader { id: SyncFrameRequestId::Done, payload_len },
                ) => Received {
                    state: RecvView::Header(Seq::empty()),
                    written: Seq::empty(),
                    end: ReceiveEnd::Done { mtime: payload_len },
                },
                Some(
                    SyncFrameRequestHeader { id: SyncFrameRequestId::Data, payload_len },
                ) => received(RecvView::Data(payload_len as nat), data.skip(missing)),
            }
        },
    }
}

/// Receives a file from the host during an `adb push` session.
#[derive(Debug)]
pub struct FileReceiver {
    /// Where the file goes, as the host named it.
    pub path: Vec<u8>,
    /// The permissions that the file gets at the end.
    pub mode: u32,
    /// Where the parsing stands.
    pub state: RecvState,
}

/// A file reception as a value.
pub struct ReceiverView {
    pub path: Seq<u8>,
    pub mode: u32,
    pub state: RecvView,
}

impl View for FileReceiver {
    type V = ReceiverView;

    open spec fn view(&self) -> ReceiverView {
        ReceiverView { path: self.path@, mode: self.mode, state: self.state@ }
    }
}

/// Copies bytes from `data`, beginning at `pos`, behind the first `have` bytes of a frame header,
/// until the header is whole or `data` ends. Returns how many bytes were copied.
fn complete_header(begun: [u8; 8], have: usize, data: &[u8], pos: usize) -> (res: ([u8; 8], usize))
    requires
        have < FRAME_HEADER_SIZE,
        pos < data@.len(),
    ensures
        res.1 == (if FRAME_HEADER_SIZE - have <= data@.len() - pos {
            FRAME_HEADER_SIZE - have
        } else {
            data@.len() - pos
        }),
        res.0@.take(have + res.1) == begun@.take(have as int) + data@.subrange(
            pos as int,
            pos + res.1,
        ),
{
    let left: usize = data.len() - pos;
    let need: usize = FRAME_HEADER_SIZE - have;
    let count: usize = if need <= left {
        need
    } else {
        left
    };
    let mut bytes: [u8; 8] = begun;
    let mut i: usize = 0;
    assert(data@.subrange(pos as int, pos as int) =~= Seq::<u8>::empty());
    assert(bytes@.take(have as int) =~= begun@.take(have as int) + Seq::<u8>::empty());
    while i < count
        invariant
            i <= count,
            have + count <= 8,
            pos + count <= data@.len() <= usize::MAX,
            bytes@.take(have + i) == begun@.take(have as int) + data@.subrange(
                pos as int,
                pos + i,
            ),
        decreases count - i,
    {
        let ghost before = bytes@;
        bytes[have + i] = data[pos + i];
        assert(bytes@.take(have + i + 1) =~= before.take(have + i).push(data@[pos + i]));
        assert(data@.subrange(pos as int, pos + i + 1) =~= data@.subrange(
            pos as int,
            pos + i,
        ).push(data@[pos + i]));
        assert(bytes@.take(have + i + 1) =~= begun@.take(have as int) + data@.subrange(
            pos as int,
            pos + i + 1,
        ));
        i = i + 1;
    }
    (bytes, count)
}

impl FileReceiver {
    /// The parsing state makes sense.
    pub open spec fn wf(self) -> bool {
        self.state.wf()
    }

    /// Starts a reception: a frame header comes first.
    pub fn new(path: Vec<u8>, mode: u32) -> (res: Self)
        ensures
            res.wf(),
            res@ == (ReceiverView { path: path@, mode, state: RecvView::Header(Seq::empty()) }),
    {
        FileReceiver { path, mode, state: RecvState::Header }
    }

    /// Takes the bytes at `pos` that belong to the current DATA frame, and returns where they end.
    fn receive_data(&mut self, data: &[u8], pos: usize, written: &mut Vec<u8>) -> (next: usize)
        requires
            old(self).state is Data,
            pos < data@.len(),
        ensures
            final(self).wf(),
            final(self).path == old(self).path,
            final(self).mode == old(self).mode,
            pos <= next <= data@.len(),
            next == pos ==> !(final(self).state is Data),
            final(written)@ == old(written)@ + data@.subrange(pos as int, next as int),
            received(old(self).state@, data@.skip(pos as int)) == preceded(
                data@.subrange(pos as int, next as int),
                received(final(self).state@, data@.skip(next as int)),
            ),
    {
        let ghost rest = data@.skip(pos as int);
        let remaining: usize = match self.state {
            RecvState::Data { remaining } => remaining,
            _ => 0,
        };
        let left: usize = data.len() - pos;
        let to_write: usize = if remaining < left {
            remaining
        } else {
            left
        };
        let next: usize = pos + to_write;
        push_bytes(written, slice_subrange(data, pos, next));
        self.state = if remaining - to_write > 0 {
            RecvState::Data { remaining: remaining - to_write }
        } else {
            RecvState::Header
        };
        proof {
            let tail = data@.skip(next as int);
            assert(tail =~= rest.skip(to_write as int));
            assert(data@.subrange(pos as int, next as int) =~= rest.take(to_write as int));
            if remaining > left {
                assert(rest.take(to_write as int) =~= rest);
                assert(rest =~= rest + Seq::<u8>::empty());
            }
        }
        next
    }

    /// Takes the bytes at `pos` that belong to a frame header, and returns where they end and,
    /// unless a DATA frame begins, how the payload leaves the transfer.
    fn receive_header(&mut self, data: &[u8], pos: usize) -> (res: (usize, Option<ReceiveEnd>))
        requires
            old(self).wf(),
            !(old(self).state is Data),
            pos < data@.len(),
        ensures
            final(self).wf(),
            final(self).path == old(self).path,
            final(self).mode == old(self).mode,
            pos < res.0 <= data@.len(),
            received(old(self).state@, data@.skip(pos as int)) == match res.1 {
                None => received(final(self).state@, data@.skip(res.0 as int)),
                Some(end) => Received { state: final(self).state@, written: Seq::empty(), end },
            },
    {
        let ghost rest = data@.skip(pos as int);
        let (begun, have): ([u8; 8], usize) = match self.state {
            RecvState::PartialHeader(bytes, len) => (bytes, len),
            _ => ([0u8; 8], 0),
        };
        assert(begun@.take(0) =~= Seq::<u8>::empty());
        let (bytes, taken): ([u8; 8], usize) = complete_header(begun, have, data, pos);
        assert(pos + taken <= data.len());
        let next: usize = pos + taken;
        assert(data@.subrange(pos as int, next as int) =~= rest.take(taken as int));
        if have + taken < FRAME_HEADER_SIZE {
            self.state = RecvState::PartialHeader(bytes, have + taken);
            assert(rest.take(taken as int) =~= rest);
            return (next, Some(ReceiveEnd::More));
        }
        assert(bytes@.take(8) =~= bytes@);
        assert(data@.skip(next as int) =~= rest.skip(taken as int));
        let mut header_slice: &[u8] = bytes.as_slice();
        match parse_sync_frame_header(&mut header_slice) {
            Err(_) => {
                self.state = RecvState::Header;
                (next, Some(ReceiveEnd::Invalid))
            },
            Ok(header) => match header.id {
                SyncFrameRequestId::Data => {
                    self.state = RecvState::Data { remaining: header.payload_len as usize };
                    (next, None)
                },
                SyncFrameRequestId::Done => {
                    self.state = RecvState::Header;
                    (next, Some(ReceiveEnd::Done { mtime: header.payload_len }))
                },
            },
        }
    }

    /// Feeds a WRTE payload containing sync DATA or DONE frames.
    ///
    /// Returns the file contents that it carries, and whether the transfer goes on.
    pub fn receive(&mut self, data: &[u8]) -> (res: (Vec<u8>, ReceiveEnd))
        requires
            old(self).wf(),
        ensures
            final(self).wf(),
            final(self).path == old(self).path,
            final(self).mode == old(self).mode,
            received(old(self).state@, data@) == (Received {
                state: final(self).state@,
                written: res.0@,
                end: res.1,
            }),
    {
        let ghost whole = received(self.state@, data@);
        let mut written: Vec<u8> = Vec::new();
        let mut pos: usize = 0;
        assert(data@.skip(0) =~= data@);
        assert(Seq::<u8>::empty() + whole.written =~= whole.written);
        while pos < data.len()
            invariant
                pos <= data@.len(),
                self.wf(),
                self.path == old(self).path,
                self.mode == old(self).mode,
                whole == received(old(self).state@, data@),
                whole == preceded(written@, received(self.state@, data@.skip(pos as int))),
            decreases
                    data@.len() - pos,
                    (if self.state is Data {
                        1nat
                    } else {
                        0
                    }),
        {
            let ghost before = written@;
            let ghost at = pos as int;
            match self.state {
                RecvState::Data { .. } => {
                    pos = self.receive_data(data, pos, &mut written);
                    let ghost after = received(self.state@, data@.skip(pos as int)).written;
                    assert(before + (data@.subrange(at, pos as int) + after) =~= written@ + after);
                },
                _ => {
                    let (next, end) = self.receive_header(data, pos);
                    pos = next;
                    if let Some(end) = end {
                        assert(before + Seq::<u8>::empty() =~= before);
                        return (written, end);
                    }
                },
            }
        }
        assert(data@.skip(pos as int) =~= Seq::<u8>::empty());
        proof {
            if let RecvView::Header(begun) = self.state@ {
                assert(begun + Seq::<u8>::empty() =~= begun);
            }
            assert(written@ + Seq::<u8>::empty() =~= written@);
        }
        (written, ReceiveEnd::More)
    }
}

/// A request with a body, on the wire.
pub open spec fn request_bytes(id: u32, body: Seq<u8>) -> Seq<u8> {
    u32_bytes(id) + u32_bytes(body.len() as u32) + body
}

proof fn lemma_request_bytes(id: u32, body: Seq<u8>, tail: Seq<u8>)
    requires
        body.len() <= u32::MAX,
    ensures
        le_u32(request_bytes(id, body) + tail) == id,
        length_prefixed((request_bytes(id, body) + tail).skip(4)) == Some(body),
{
    let s = request_bytes(id, body) + tail;
    let rest = s.skip(4);
    assert(s.skip(0) =~= s);
    assert(s.subrange(0, 4) =~= u32_bytes(id));
    lemma_le_u32_at(s, 0, id);
    assert(rest.skip(0) =~= rest);
    assert(rest.subrange(0, 4) =~= u32_bytes(body.len() as u32));
    lemma_le_u32_at(rest, 0, body.len() as u32);
    assert(rest.subrange(4, 4 + body.len() as int) =~= body);
}

/// A request that names a path is read as what it is, whatever follows it.
pub proof fn path_requests_are_read(path: Seq<u8>, tail: Seq<u8>)
    requires
        path.len() <= u32::MAX,
    ensures
        parsed_packet(request_bytes(ID_LSTAT_V1, path) + tail) == Some(
            (PacketView::LStatV1(path), 8 + path.len()),
        ),
        parsed_packet(request_bytes(ID_RECV_V1, path) + tail) == Some(
            (PacketView::RecvV1(path), 8 + path.len()),
        ),
{
    lemma_request_bytes(ID_LSTAT_V1, path, tail);
    lemma_request_bytes(ID_RECV_V1, path, tail);
}

/// QUIT is read as what it is, whatever follows it.
pub proof fn quit_is_read(tail: Seq<u8>)
    ensures
        parsed_packet(u32_bytes(ID_QUIT) + tail) == Some((PacketView::Quit, 4nat)),
{
    let s = u32_bytes(ID_QUIT) + tail;
    assert(s.skip(0) =~= s);
    assert(s.subrange(0, 4) =~= u32_bytes(ID_QUIT));
    lemma_le_u32_at(s, 0, ID_QUIT);
}

/// A SEND request for a path without comma and a mode in decimal digits is read as what it is,
/// whatever follows it.
pub proof fn send_request_is_read(path: Seq<u8>, digits: Seq<u8>, tail: Seq<u8>)
    requires
        path.len() > 0,
        forall|i: int| 0 <= i < path.len() ==> path[i] != 0x2c,
        digits.len() > 0,
        forall|i: int| 0 <= i < digits.len() ==> is_digit(digits[i]),
        decimal(digits) <= u32::MAX,
        path.len() + 1 + digits.len() <= u32::MAX,
    ensures
        parsed_packet(request_bytes(ID_SEND_V1, path + seq![0x2cu8] + digits) + tail) == Some(
            (PacketView::SendV1(path, decimal(digits) as u32), 8 + path.len() + 1 + digits.len()),
        ),
{
    let body = path + seq![0x2cu8] + digits;
    lemma_request_bytes(ID_SEND_V1, body, tail);
    lemma_first_index(body, 0x2c, path.len() as int);
    assert(body.skip(path.len() as int + 1) =~= digits);
    assert(body.take(path.len() as int) =~= path);
    lemma_digit_count(digits, digits.len() as int);
    assert(digits.take(digits.len() as int) =~= digits);
}

/// The words of the sync protocol spell their names: STAT, RECV, SEND and QUIT for requests, DATA
/// and DONE for frames, OKAY and FAIL for answers. No other word is a request, and none but DATA
/// and DONE is a frame of the host.
pub proof fn sync_words_spell_their_names(w: u32)
    ensures
        u32_bytes(ID_LSTAT_V1) == seq![0x53u8, 0x54, 0x41, 0x54],
        u32_bytes(ID_RECV_V1) == seq![0x52u8, 0x45, 0x43, 0x56],
        u32_bytes(ID_SEND_V1) == seq![0x53u8, 0x45, 0x4e, 0x44],
        u32_bytes(ID_QUIT) == seq![0x51u8, 0x55, 0x49, 0x54],
        u32_bytes(ID_DATA) == seq![0x44u8, 0x41, 0x54, 0x41],
        u32_bytes(ID_DONE) == seq![0x44u8, 0x4f, 0x4e, 0x45],
        u32_bytes(ID_OKAY) == seq![0x4fu8, 0x4b, 0x41, 0x59],
        u32_bytes(ID_FAIL) == seq![0x46u8, 0x41, 0x49, 0x4c],
        packet_id_of_word(w) is Ok <==> w == ID_LSTAT_V1 || w == ID_RECV_V1 || w == ID_SEND_V1 || w
            == ID_QUIT,
        frame_id_of_word(w) is Ok <==> w == ID_DATA || w == ID_DONE,
{
    reveal(u32_bytes);
    assert(u32_bytes(ID_LSTAT_V1) =~= seq![0x53u8, 0x54, 0x41, 0x54]);
    assert(u32_bytes(ID_RECV_V1) =~= seq![0x52u8, 0x45, 0x43, 0x56]);
    assert(u32_bytes(ID_SEND_V1) =~= seq![0x53u8, 0x45, 0x4e, 0x44]);
    assert(u32_bytes(ID_QUIT) =~= seq![0x51u8, 0x55, 0x49, 0x54]);
    assert(u32_bytes(ID_DATA) =~= seq![0x44u8, 0x41, 0x54, 0x41]);
    assert(u32_bytes(ID_DONE) =~= seq![0x44u8, 0x4f, 0x4e, 0x45]);
    assert(u32_bytes(ID_OKAY) =~= seq![0x4fu8, 0x4b, 0x41, 0x59]);
    assert(u32_bytes(ID_FAIL) =~= seq![0x46u8, 0x41, 0x49, 0x4c]);
}

/// A number in ASCII digits, without leading zeros.
pub open spec fn decimal_bytes(n: nat) -> Seq<u8>
    decreases n,
{
    if n < 10 {
        seq![(0x30 + n) as u8]
    } else {
        decimal_bytes(n / 10).push((0x30 + n % 10) as u8)
    }
}

proof fn lemma_decimal_bytes(n: nat)
    ensures
        decimal_bytes(n).len() > 0,
        forall|i: int| 0 <= i < decimal_bytes(n).len() ==> is_digit(#[trigger] decimal_bytes(n)[i]),
        decimal(decimal_bytes(n)) == n,
    decreases n,
{
    let text = decimal_bytes(n);
    reveal_with_fuel(decimal, 2);
    if n < 10 {
        assert(text.drop_last() =~= Seq::empty());
    } else {
        lemma_decimal_bytes(n / 10);
        assert(text.drop_last() =~= decimal_bytes(n / 10));
        assert forall|i: int| 0 <= i < text.len() implies is_digit(#[trigger] text[i]) by {
            if i < text.len() - 1 {
                assert(is_digit(decimal_bytes(n / 10)[i]));
            }
        }
    }
}

proof fn lemma_leading_zeros(zeros: nat, digits: Seq<u8>)
    ensures
        decimal(Seq::new(zeros, |i: int| 0x30u8) + digits) == decimal(digits),
    decreases zeros + digits.len(),
{
    let front = Seq::new(zeros, |i: int| 0x30u8);
    if digits.len() > 0 {
        assert((front + digits).drop_last() =~= front + digits.drop_last());
        lemma_leading_zeros(zeros, digits.drop_last());
    } else if zeros > 0 {
        let less = Seq::new((zeros - 1) as nat, |i: int| 0x30u8);
        assert((front + digits).drop_last() =~= less + digits);
        lemma_leading_zeros((zeros - 1) as nat, digits);
    }
}

/// Whoever sends a file to a path without comma with some mode is understood: path and mode are
/// read as they were written. Zeros in front of the mode, what stands behind it in the request,
/// unless it is a digit, and what follows the request make no difference.
pub proof fn every_mode_can_be_sent(
    path: Seq<u8>,
    zeros: nat,
    mode: u32,
    junk: Seq<u8>,
    tail: Seq<u8>,
)
    requires
        path.len() > 0,
        forall|i: int| 0 <= i < path.len() ==> path[i] != 0x2c,
        junk.len() > 0 ==> !(0x30 <= junk[0] <= 0x39),
        path.len() + 1 + zeros + decimal_bytes(mode as nat).len() + junk.len() <= u32::MAX,
    ensures
        ({
            let digits = Seq::new(zeros, |i: int| 0x30u8) + decimal_bytes(mode as nat);
            let body = path + seq![0x2cu8] + digits + junk;
            parsed_packet(request_bytes(ID_SEND_V1, body) + tail) == Some(
                (PacketView::SendV1(path, mode), 8 + body.len()),
            )
        }),
{
    let front = Seq::new(zeros, |i: int| 0x30u8);
    let digits = front + decimal_bytes(mode as nat);
    let body = path + seq![0x2cu8] + digits + junk;
    lemma_decimal_bytes(mode as nat);
    lemma_leading_zeros(zeros, decimal_bytes(mode as nat));
    assert forall|i: int| 0 <= i < digits.len() implies is_digit(#[trigger] digits[i]) by {
        if i >= zeros {
            assert(is_digit(decimal_bytes(mode as nat)[i - zeros]));
        }
    }
    lemma_request_bytes(ID_SEND_V1, body, tail);
    lemma_first_index(body, 0x2c, path.len() as int);
    let rest = body.skip(path.len() as int + 1);
    assert(rest =~= digits + junk);
    assert(body.take(path.len() as int) =~= path);
    assert forall|i: int| 0 <= i < digits.len() implies is_digit(rest[i]) by {
        assert(rest[i] == digits[i]);
    }
    lemma_digit_count(rest, digits.len() as int);
    assert(rest.take(digits.len() as int) =~= digits);
}

/// What is read is what was sent: the bytes that a request takes are those of the request that was
/// read. Of a SEND request they are a path, which is not empty and ends at the first comma, and a
/// mode in digits behind that.
pub proof fn requests_are_read_as_they_were_sent(s: Seq<u8>)
    ensures
        match parsed_packet(s) {
            Some((PacketView::LStatV1(path), n)) => s.take(n as int) == request_bytes(
                ID_LSTAT_V1,
                path,
            ),
            Some((PacketView::RecvV1(path), n)) => s.take(n as int) == request_bytes(
                ID_RECV_V1,
                path,
            ),
            Some((PacketView::Quit, n)) => s.take(n as int) == u32_bytes(ID_QUIT),
            Some((PacketView::SendV1(path, mode), n)) => {
                let body = s.subrange(8, n as int);
                &&& 8 <= n <= s.len()
                &&& s.take(n as int) == request_bytes(ID_SEND_V1, body)
                &&& 0 < path.len() < body.len()
                &&& body.take(path.len() as int) == path
                &&& body[path.len() as int] == 0x2c
                &&& path.len() + 1 < body.len() && 0x30 <= body[path.len() as int + 1] <= 0x39
            },
            None => true,
        },
{
    if let Some((packet, n)) = parsed_packet(s) {
        request_lies_in_payload(s);
        assert(s.skip(0) =~= s);
        lemma_bytes_at(s, 0);
        if packet is Quit {
            assert(s.take(4) =~= u32_bytes(ID_QUIT));
        } else {
            lemma_bytes_at(s, 4);
            let body = s.skip(4).subrange(4, n - 4);
            assert(length_prefixed(s.skip(4)) == Some(body));
            assert(body =~= s.subrange(8, n as int));
            let id = le_u32(s);
            assert(s.take(n as int) =~= request_bytes(id, body));
            if packet is SendV1 {
                lemma_first_index_is(body, 0x2c);
                let comma = first_index(body, 0x2c) as int;
                let rest = body.skip(comma + 1);
                assert(digit_count(rest) > 0);
                assert(rest[0] == body[comma + 1]);
            }
        }
    }
}

proof fn lemma_first_index_is(s: Seq<u8>, b: u8)
    ensures
        first_index(s, b) <= s.len(),
        first_index(s, b) < s.len() ==> s[first_index(s, b) as int] == b,
    decreases s.len(),
{
    if s.len() > 0 && s[0] != b {
        lemma_first_index_is(s.drop_first(), b);
    }
}

/// What is no request is refused: fewer than four bytes, a word that is none of the four, a path
/// that is longer than what follows, and a target that has no comma, no path, no mode, or a mode
/// beyond 32 bits.
pub proof fn malformed_requests_are_refused(
    w: u32,
    body: Seq<u8>,
    announced: u32,
    path: Seq<u8>,
    mode: nat,
    tail: Seq<u8>,
)
    requires
        body.len() < announced,
        forall|i: int| 0 <= i < path.len() ==> path[i] != 0x2c,
        path.len() + 1 + decimal_bytes(mode).len() <= u32::MAX,
        tail.len() > 0 ==> !(0x30 <= tail[0] <= 0x39),
        path.len() + 1 + tail.len() <= u32::MAX,
    ensures
        body.len() < 4 ==> parsed_packet(body) is None,
        w != ID_LSTAT_V1 && w != ID_RECV_V1 && w != ID_SEND_V1 && w != ID_QUIT ==> parsed_packet(
            u32_bytes(w) + tail,
        ) is None,
        w != ID_QUIT ==> parsed_packet(u32_bytes(w) + u32_bytes(announced) + body) is None,
        parsed_packet(request_bytes(ID_SEND_V1, path) + tail) is None,
        parsed_packet(request_bytes(ID_SEND_V1, seq![0x2cu8] + decimal_bytes(mode)) + tail) is None,
        parsed_packet(request_bytes(ID_SEND_V1, path + seq![0x2cu8] + tail)) is None,
        mode > u32::MAX ==> parsed_packet(
            request_bytes(ID_SEND_V1, path + seq![0x2cu8] + decimal_bytes(mode)) + tail,
        ) is None,
{
    let none = Seq::<u8>::empty();
    let unknown = u32_bytes(w) + tail;
    assert(unknown.skip(0) =~= unknown);
    assert(unknown.subrange(0, 4) =~= u32_bytes(w));
    lemma_le_u32_at(unknown, 0, w);
    let cut = u32_bytes(w) + u32_bytes(announced) + body;
    assert(cut.skip(0) =~= cut);
    assert(cut.subrange(0, 4) =~= u32_bytes(w));
    assert(cut.subrange(4, 8) =~= u32_bytes(announced));
    lemma_le_u32_at(cut, 0, w);
    lemma_le_u32_at(cut, 4, announced);
    lemma_request_bytes(ID_SEND_V1, path, tail);
    lemma_first_index(path, 0x2c, path.len() as int);
    lemma_decimal_bytes(mode);
    let pathless = seq![0x2cu8] + decimal_bytes(mode);
    lemma_request_bytes(ID_SEND_V1, pathless, tail);
    lemma_first_index(pathless, 0x2c, 0);
    let modeless = path + seq![0x2cu8] + tail;
    lemma_request_bytes(ID_SEND_V1, modeless, none);
    assert(request_bytes(ID_SEND_V1, modeless) + none =~= request_bytes(ID_SEND_V1, modeless));
    lemma_first_index(modeless, 0x2c, path.len() as int);
    let behind = modeless.skip(path.len() as int + 1);
    assert(behind =~= tail);
    lemma_digit_count(behind, 0);
    let digits = decimal_bytes(mode);
    let large = path + seq![0x2cu8] + digits;
    lemma_request_bytes(ID_SEND_V1, large, tail);
    lemma_first_index(large, 0x2c, path.len() as int);
    assert(large.skip(path.len() as int + 1) =~= digits);
    lemma_digit_count(digits, digits.len() as int);
    assert(digits.take(digits.len() as int) =~= digits);
}

/// A frame of the host that is neither DATA nor DONE ends the transfer, and what comes with it is
/// not written; less than the header of a frame is kept until the rest comes.
pub proof fn other_frames_end_the_transfer(w: u32, n: u32, tail: Seq<u8>, begun: Seq<u8>)
    requires
        w != ID_DATA && w != ID_DONE,
        0 < begun.len() < 8,
    ensures
        ({
            let r = received(
                RecvView::Header(Seq::empty()),
                u32_bytes(w) + u32_bytes(n) + tail,
            );
            &&& r.end == ReceiveEnd::Invalid
            &&& r.written == Seq::<u8>::empty()
        }),
        received(RecvView::Header(Seq::empty()), begun) == (Received {
            state: RecvView::Header(begun),
            written: Seq::empty(),
            end: ReceiveEnd::More,
        }),
{
    let s = u32_bytes(w) + u32_bytes(n) + tail;
    let head = Seq::<u8>::empty() + s.take(8);
    assert(head.skip(0) =~= head);
    assert(head.subrange(0, 4) =~= u32_bytes(w));
    lemma_le_u32_at(head, 0, w);
    assert(Seq::<u8>::empty() + begun =~= begun);
}

} // verus!
