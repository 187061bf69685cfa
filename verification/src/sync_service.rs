//! ADB sync service: answers the requests of a `sync:` stream.
//!
//! The service decides; it touches no file. What it needs of the file system it asks for, one
//! [`FileRequest`] at a time, and goes on when the [`FileReply`] comes.

use crate::bytes::{push_bytes, push_u32, u32_bytes};
use crate::message::MAX_PAYLOAD_V1;
use crate::sync::{
    parse_sync_packet, parsed_packet, path_requests_are_read, received, request_bytes, FileReceiver, PacketView, ReceiveEnd,
    ReceiverView, RecvView, request_lies_in_payload, SyncCommandParsingError, SyncPacket, ID_DATA, ID_DONE, ID_FAIL,
    ID_LSTAT_V1, ID_OKAY, ID_RECV_V1, PAYLOAD_SIZE_MAX_BYTES,
};
use crate::text::{encoded_length, lossy, lossy_text, lossy_text_is_no_longer};
use vstd::pervasive::unreached;
use vstd::prelude::*;
use vstd::slice::slice_to_vec;
use vstd::std_specs::convert::{FromSpecImpl, TryFromSpecImpl};
use vstd::string::{StringExecFns, StringSliceAdditionalSpecFns};
use vstd::utf8::encode_utf8;

verus! {

broadcast use crate::bytes::u32_bytes_len;

/// Sync frame command IDs in device-to-host frames.
#[derive(Clone, Copy, Debug, PartialEq, Eq, Structural)]
pub enum SyncFrameResponseId {
    /// File data chunk.
    Data,
    /// End of file transfer.
    Done,
    /// The request was carried out.
    Okay,
    /// The request failed; the payload says why.
    Fail,
}

/// The word that stands for a response frame.
pub open spec fn response_word(id: SyncFrameResponseId) -> u32 {
    match id {
        SyncFrameResponseId::Data => ID_DATA,
        SyncFrameResponseId::Done => ID_DONE,
        SyncFrameResponseId::Okay => ID_OKAY,
        SyncFrameResponseId::Fail => ID_FAIL,
    }
}

impl FromSpecImpl<SyncFrameResponseId> for u32 {
    open spec fn obeys_from_spec() -> bool {
        true
    }

    open spec fn from_spec(v: SyncFrameResponseId) -> u32 {
        response_word(v)
    }
}

impl From<SyncFrameResponseId> for u32 {
    fn from(value: SyncFrameResponseId) -> (res: u32) {
        match value {
            SyncFrameResponseId::Data => ID_DATA,
            SyncFrameResponseId::Done => ID_DONE,
            SyncFrameResponseId::Okay => ID_OKAY,
            SyncFrameResponseId::Fail => ID_FAIL,
        }
    }
}

/// The response frame that a word stands for.
pub open spec fn response_of_word(w: u32) -> Result<SyncFrameResponseId, SyncCommandParsingError> {
    if w == ID_DATA {
        Ok(SyncFrameResponseId::Data)
    } else if w == ID_DONE {
        Ok(SyncFrameResponseId::Done)
    } else if w == ID_OKAY {
        Ok(SyncFrameResponseId::Okay)
    } else if w == ID_FAIL {
        Ok(SyncFrameResponseId::Fail)
    } else {
        Err(SyncCommandParsingError(w))
    }
}

impl TryFromSpecImpl<u32> for SyncFrameResponseId {
    open spec fn obeys_try_from_spec() -> bool {
        true
    }

    open spec fn try_from_spec(v: u32) -> Result<Self, Self::Error> {
        response_of_word(v)
    }
}

impl TryFrom<u32> for SyncFrameResponseId {
    type Error = SyncCommandParsingError;

    fn try_from(value: u32) -> (res: Result<Self, SyncCommandParsingError>) {
        match value {
            ID_DATA => Ok(SyncFrameResponseId::Data),
            ID_DONE => Ok(SyncFrameResponseId::Done),
            ID_OKAY => Ok(SyncFrameResponseId::Okay),
            ID_FAIL => Ok(SyncFrameResponseId::Fail),
            other => Err(SyncCommandParsingError(other)),
        }
    }
}

/// Every response frame has a word of its own.
pub proof fn response_word_round_trip(id: SyncFrameResponseId, w: u32)
    ensures
        response_of_word(response_word(id)) == Ok::<SyncFrameResponseId, SyncCommandParsingError>(
            id,
        ),
        response_of_word(w) matches Ok(found) ==> response_word(found) == w,
{
}

impl SyncFrameResponseId {
    /// The four letters by which the frame is known.
    pub fn name(&self) -> (res: &'static str)
        ensures
            res@ == match *self {
                SyncFrameResponseId::Data => "DATA"@,
                SyncFrameResponseId::Done => "DONE"@,
                SyncFrameResponseId::Okay => "OKAY"@,
                SyncFrameResponseId::Fail => "FAIL"@,
            },
    {
        match self {
            SyncFrameResponseId::Data => "DATA",
            SyncFrameResponseId::Done => "DONE",
            SyncFrameResponseId::Okay => "OKAY",
            SyncFrameResponseId::Fail => "FAIL",
        }
    }
}

/// 8-byte header for DATA/DONE/OKAY/FAIL sync response frames.
#[derive(Clone, Copy, Debug, PartialEq, Eq, Structural)]
pub struct SyncFrameResponseHeader {
    pub id: SyncFrameResponseId,
    pub payload_len: u32,
}

impl SyncFrameResponseHeader {
    /// The header on the wire.
    pub open spec fn wire(self) -> Seq<u8> {
        u32_bytes(response_word(self.id)) + u32_bytes(self.payload_len)
    }

    /// The header on the wire, followed by `payload`.
    pub fn frame(&self, payload: &[u8]) -> (res: Vec<u8>)
        ensures
            res@ == self.wire() + payload@,
    {
        let mut out: Vec<u8> = Vec::new();
        push_u32(&mut out, u32::from(self.id));
        push_u32(&mut out, self.payload_len);
        assert(out@ =~= self.wire());
        push_bytes(&mut out, payload);
        out
    }
}

/// `LSTAT_V1` response: fixed 16-byte struct sent as a single write.
#[derive(Clone, Copy, Debug, PartialEq, Eq, Structural)]
pub struct SyncStat {
    /// Sync command ID (always `LSTAT_V1`).
    pub id: u32,
    /// File mode bits.
    pub mode: u32,
    /// File size in bytes.
    pub size: u32,
    /// Last modification time as a Unix timestamp.
    pub mtime: u32,
}

impl SyncStat {
    /// The response on the wire.
    pub open spec fn wire(self) -> Seq<u8> {
        u32_bytes(self.id) + u32_bytes(self.mode) + u32_bytes(self.size) + u32_bytes(self.mtime)
    }

    /// The response on the wire.
    pub fn to_bytes(&self) -> (res: Vec<u8>)
        ensures
            res@ == self.wire(),
    {
        let mut out: Vec<u8> = Vec::new();
        push_u32(&mut out, self.id);
        push_u32(&mut out, self.mode);
        push_u32(&mut out, self.size);
        push_u32(&mut out, self.mtime);
        assert(out@ =~= self.wire());
        out
    }
}

/// A response frame as a value: its header and payload.
pub type ResponseView = (SyncFrameResponseHeader, Seq<u8>);

/// The DATA frame that carries `data`.
pub open spec fn data_response_view(data: Seq<u8>) -> ResponseView {
    (
        SyncFrameResponseHeader {
            id: SyncFrameResponseId::Data,
            payload_len: data.len() as u32,
        },
        data,
    )
}

/// A frame without payload.
pub open spec fn bare_response_view(id: SyncFrameResponseId) -> ResponseView {
    (SyncFrameResponseHeader { id, payload_len: 0 }, Seq::empty())
}

/// The FAIL frame that carries a message.
pub open spec fn fail_response_view(msg: Seq<char>) -> ResponseView {
    let bytes = encode_utf8(msg);
    (
        SyncFrameResponseHeader {
            id: SyncFrameResponseId::Fail,
            payload_len: bytes.len() as u32,
        },
        bytes,
    )
}

/// The DATA frame that carries `data`.
pub fn data_response(data: &[u8]) -> (res: (SyncFrameResponseHeader, Vec<u8>))
    requires
        data@.len() <= u32::MAX,
    ensures
        (res.0, res.1@) == data_response_view(data@),
{
    (
        SyncFrameResponseHeader {
            id: SyncFrameResponseId::Data,
            payload_len: data.len() as u32,
        },
        slice_to_vec(data),
    )
}

/// The DONE frame, which ends a transfer.
pub fn done_response() -> (res: (SyncFrameResponseHeader, Vec<u8>))
    ensures
        (res.0, res.1@) == bare_response_view(SyncFrameResponseId::Done),
{
    (SyncFrameResponseHeader { id: SyncFrameResponseId::Done, payload_len: 0 }, Vec::new())
}

/// The OKAY frame, which says that a file arrived.
pub fn okay_response() -> (res: (SyncFrameResponseHeader, Vec<u8>))
    ensures
        (res.0, res.1@) == bare_response_view(SyncFrameResponseId::Okay),
{
    (SyncFrameResponseHeader { id: SyncFrameResponseId::Okay, payload_len: 0 }, Vec::new())
}

/// The FAIL frame that carries `msg`.
pub fn fail_response(msg: &str) -> (res: (SyncFrameResponseHeader, Vec<u8>))
    requires
        encode_utf8(msg@).len() <= u32::MAX,
    ensures
        (res.0, res.1@) == fail_response_view(msg@),
{
    let bytes: &[u8] = msg.as_bytes();
    (
        SyncFrameResponseHeader {
            id: SyncFrameResponseId::Fail,
            payload_len: bytes.len() as u32,
        },
        slice_to_vec(bytes),
    )
}

/// What a file says of itself.
#[derive(Clone, Copy, Debug, PartialEq, Eq, Structural)]
pub struct FileStat {
    /// File mode bits.
    pub mode: u32,
    /// File size in bytes.
    pub size: u64,
    /// Last modification time in seconds since the Unix epoch.
    pub mtime: i64,
}

/// What the service asks of the file system.
#[derive(Debug)]
pub enum FileRequest {
    /// Stat the path, without following a link.
    Lstat { path: Vec<u8> },
    /// Open the path for reading; later chunks are read from it.
    OpenRead { path: Vec<u8> },
    /// Create or truncate the path; later data is written to it.
    Create { path: Vec<u8> },
    /// Write all of the data to the file that was created.
    Write { data: Vec<u8> },
    /// Set the permissions of the file that was created.
    SetPermissions { mode: u32 },
}

/// What the service asks of the file system, as a value.
pub enum FileRequestView {
    Lstat(Seq<u8>),
    OpenRead(Seq<u8>),
    Create(Seq<u8>),
    Write(Seq<u8>),
    SetPermissions(u32),
}

impl View for FileRequest {
    type V = FileRequestView;

    open spec fn view(&self) -> FileRequestView {
        match self {
            FileRequest::Lstat { path } => FileRequestView::Lstat(path@),
            FileRequest::OpenRead { path } => FileRequestView::OpenRead(path@),
            FileRequest::Create { path } => FileRequestView::Create(path@),
            FileRequest::Write { data } => FileRequestView::Write(data@),
            FileRequest::SetPermissions { mode } => FileRequestView::SetPermissions(*mode),
        }
    }
}

/// What the file system answers.
#[derive(Debug)]
pub enum FileReply {
    /// To `Lstat`: what the file says of itself, if it can be asked.
    Stat(Option<FileStat>),
    /// To every other request: it was carried out.
    Done,
    /// To every other request: it was not, for this reason.
    Failed { error: String },
}

/// What the file system answers, as a value.
pub enum FileReplyView {
    Stat(Option<FileStat>),
    Done,
    Failed(Seq<char>),
}

impl View for FileReply {
    type V = FileReplyView;

    open spec fn view(&self) -> FileReplyView {
        match self {
            FileReply::Stat(stat) => FileReplyView::Stat(*stat),
            FileReply::Done => FileReplyView::Done,
            FileReply::Failed { error } => FileReplyView::Failed(error@),
        }
    }
}

/// What the service has done to the file system without waiting for an answer.
#[derive(Debug)]
pub enum FileEffect {
    /// Remove the file that was being received.
    RemoveFile { path: Vec<u8> },
    /// Set the modification time, in seconds since the Unix epoch, of the file that was created.
    SetModified { mtime: u32 },
}

/// The same as a value.
pub enum FileEffectView {
    RemoveFile(Seq<u8>),
    SetModified(u32),
}

impl View for FileEffect {
    type V = FileEffectView;

    open spec fn view(&self) -> FileEffectView {
        match self {
            FileEffect::RemoveFile { path } => FileEffectView::RemoveFile(path@),
            FileEffect::SetModified { mtime } => FileEffectView::SetModified(*mtime),
        }
    }
}

/// Result of processing a single sync request from the host.
#[derive(Debug)]
pub enum SyncResult {
    /// `LSTAT_V1` response: fixed 16-byte stat result.
    Stat(SyncStat),
    /// A DATA/DONE/FAIL response: fixed header + variable payload.
    Data(SyncFrameResponseHeader, Vec<u8>),
    /// No response needed yet; more data expected.
    Continue,
    /// The host sent QUIT; the stream should be closed.
    Quit,
}

/// Result of processing a request, as a value.
pub enum SyncResultView {
    Stat(SyncStat),
    Data(ResponseView),
    Continue,
    Quit,
}

impl View for SyncResult {
    type V = SyncResultView;

    open spec fn view(&self) -> SyncResultView {
        match self {
            SyncResult::Stat(stat) => SyncResultView::Stat(*stat),
            SyncResult::Data(header, payload) => SyncResultView::Data((*header, payload@)),
            SyncResult::Continue => SyncResultView::Continue,
            SyncResult::Quit => SyncResultView::Quit,
        }
    }
}

/// How a step of the service ends.
#[derive(Debug)]
pub enum SyncNext {
    /// The file system is asked; the service goes on with the reply.
    Ask(FileRequest),
    /// The request from the host is dealt with.
    Finished(SyncResult),
}

/// How a step of the service ends, as a value.
pub enum SyncNextView {
    Ask(FileRequestView),
    Finished(SyncResultView),
}

/// One step of the service.
#[derive(Debug)]
pub struct SyncStep {
    /// What is done to the file system first.
    pub effect: Option<FileEffect>,
    /// How the step ends.
    pub next: SyncNext,
}

/// One step of the service, as a value.
pub struct SyncStepView {
    pub effect: Option<FileEffectView>,
    pub next: SyncNextView,
}

impl View for SyncNext {
    type V = SyncNextView;

    open spec fn view(&self) -> SyncNextView {
        match self {
            SyncNext::Ask(request) => SyncNextView::Ask(request@),
            SyncNext::Finished(result) => SyncNextView::Finished(result@),
        }
    }
}

impl View for SyncStep {
    type V = SyncStepView;

    open spec fn view(&self) -> SyncStepView {
        SyncStepView {
            effect: match self.effect {
                Some(effect) => Some(effect@),
                None => None,
            },
            next: self.next@,
        }
    }
}

/// A step without effect that asks for something.
pub open spec fn asks(request: FileRequestView) -> SyncStepView {
    SyncStepView { effect: None, next: SyncNextView::Ask(request) }
}

/// A step without effect that deals with the request.
pub open spec fn finishes(result: SyncResultView) -> SyncStepView {
    SyncStepView { effect: None, next: SyncNextView::Finished(result) }
}

/// A step that answers FAIL with a message.
pub open spec fn fails(msg: Seq<char>) -> SyncStepView {
    finishes(SyncResultView::Data(fail_response_view(msg)))
}

/// A step that removes the file at `path` and answers FAIL with a message.
pub open spec fn aborts(path: Seq<u8>, msg: Seq<char>) -> SyncStepView {
    SyncStepView { effect: Some(FileEffectView::RemoveFile(path)), next: fails(msg).next }
}

/// Streams a file back to the host as framed sync DATA messages.
#[derive(Clone, Copy, Debug, PartialEq, Eq, Structural)]
pub struct FileSender {
    /// Whether the last frame of the file was handed out.
    pub done: bool,
}

/// What reading the next chunk of a file gave.
#[derive(Debug)]
pub enum ReadReply {
    /// So many bytes; none at the end of the file.
    Data(Vec<u8>),
    /// The chunk could not be read, for this reason.
    Failed { error: String },
}

/// What reading the next chunk gave, as a value.
pub enum ReadReplyView {
    Data(Seq<u8>),
    Failed(Seq<char>),
}

impl View for ReadReply {
    type V = ReadReplyView;

    open spec fn view(&self) -> ReadReplyView {
        match self {
            ReadReply::Data(data) => ReadReplyView::Data(data@),
            ReadReply::Failed { error } => ReadReplyView::Failed(error@),
        }
    }
}

/// The most bytes that the reason of a failure may take, so that the sum of the bytes of a FAIL
/// frame fits in 32 bits.
pub const ERROR_TEXT_MAX_BYTES: usize = 0x10_0000;

/// The most bytes that the payload of a response takes.
pub const RESPONSE_MAX_BYTES: usize = 0x100_0000;

/// The reason of a failure is short enough for a FAIL frame.
pub open spec fn error_fits(error: Seq<char>) -> bool {
    encode_utf8(error).len() <= ERROR_TEXT_MAX_BYTES
}

impl ReadReplyView {
    /// The chunk fits in a DATA frame, the reason of a failure in a FAIL frame.
    pub open spec fn fits(self) -> bool {
        match self {
            ReadReplyView::Data(data) => data.len() <= PAYLOAD_SIZE_MAX_BYTES,
            ReadReplyView::Failed(error) => error_fits(error),
        }
    }
}

/// The frame that a chunk makes: DATA, or DONE at the end of the file, or FAIL.
pub open spec fn chunk_frame(read: ReadReplyView) -> ResponseView {
    match read {
        ReadReplyView::Data(data) => if data.len() == 0 {
            bare_response_view(SyncFrameResponseId::Done)
        } else {
            data_response_view(data)
        },
        ReadReplyView::Failed(error) => fail_response_view("read error: "@ + error),
    }
}

impl ReadReply {
    /// Whether the chunk fits in a DATA frame, the reason of a failure in a FAIL frame.
    pub fn is_fitting(&self) -> (res: bool)
        ensures
            res == self@.fits(),
    {
        match self {
            ReadReply::Data(data) => data.len() <= PAYLOAD_SIZE_MAX_BYTES,
            ReadReply::Failed { error } => is_short(error.as_str()),
        }
    }
}

/// Whether the reason of a failure is short enough for a FAIL frame.
fn is_short(error: &str) -> (res: bool)
    ensures
        res == error_fits(error@),
{
    error.as_bytes().len() <= ERROR_TEXT_MAX_BYTES
}

/// Whether nothing comes after the frame of a chunk.
pub open spec fn ends_file(read: ReadReplyView) -> bool {
    read matches ReadReplyView::Data(data) ==> data.len() == 0
}

proof fn lemma_fail_fits(msg: Seq<char>)
    requires
        msg.len() <= 0x20_0040,
    ensures
        encode_utf8(msg).len() <= RESPONSE_MAX_BYTES,
{
    encoded_length(msg);
}

impl FileSender {
    /// Returns the next DATA chunk, a DONE message at EOF, or `None` once the transfer is
    /// complete.
    pub fn next_frame(&mut self, read: ReadReply) -> (res: Option<
        (SyncFrameResponseHeader, Vec<u8>),
    >)
        requires
            read@.fits(),
        ensures
            match res {
                None => old(self).done && *final(self) == *old(self),
                Some(frame) => {
                    &&& !old(self).done
                    &&& (frame.0, frame.1@) == chunk_frame(read@)
                    &&& frame.1@.len() <= RESPONSE_MAX_BYTES
                    &&& final(self).done == ends_file(read@)
                },
            },
    {
        if self.done {
            return None;
        }
        match read {
            ReadReply::Data(data) => if data.len() == 0 {
                self.done = true;
                Some(done_response())
            } else {
                Some(data_response(data.as_slice()))
            },
            ReadReply::Failed { error } => {
                self.done = true;
                let msg = "read error: ".to_owned().concat(error.as_str());
                proof {
                    reveal_strlit("read error: ");
                    encoded_length(error@);
                    lemma_fail_fits(msg@);
                }
                Some(fail_response(msg.as_str()))
            },
        }
    }
}

/// Current state of a sync service session.
#[derive(Debug)]
pub enum SyncState {
    /// Waiting for a command from the host.
    Idle,
    /// Streaming file data back to the host.
    Sending(FileSender),
    /// Receiving file data from the host.
    Receiving(FileReceiver),
}

/// State of a session, as a value.
pub enum SyncStateView {
    Idle,
    Sending(FileSender),
    Receiving(ReceiverView),
}

impl View for SyncState {
    type V = SyncStateView;

    open spec fn view(&self) -> SyncStateView {
        match self {
            SyncState::Idle => SyncStateView::Idle,
            SyncState::Sending(sender) => SyncStateView::Sending(*sender),
            SyncState::Receiving(receiver) => SyncStateView::Receiving(receiver@),
        }
    }
}

/// What the service waits for.
#[derive(Debug)]
pub enum SyncStage {
    /// For a request from the host.
    Ready,
    /// For the answer to `Lstat`.
    Statting { path: Vec<u8> },
    /// For the answer to `OpenRead`.
    Opening { path: Vec<u8> },
    /// For the answer to `Create`; what the payload held behind the request is kept.
    Creating { path: Vec<u8>, mode: u32, leftover: Vec<u8> },
    /// For the answer to `Write`; how the payload leaves the transfer is kept.
    Writing { receiver: FileReceiver, end: ReceiveEnd },
    /// For the answer to `SetPermissions`; the modification time is kept.
    SettingPermissions { path: Vec<u8>, mtime: u32 },
}

/// What the service waits for, as a value.
pub enum SyncStageView {
    Ready,
    Statting(Seq<u8>),
    Opening(Seq<u8>),
    Creating(Seq<u8>, u32, Seq<u8>),
    Writing(ReceiverView, ReceiveEnd),
    SettingPermissions(Seq<u8>, u32),
}

impl View for SyncStage {
    type V = SyncStageView;

    open spec fn view(&self) -> SyncStageView {
        match self {
            SyncStage::Ready => SyncStageView::Ready,
            SyncStage::Statting { path } => SyncStageView::Statting(path@),
            SyncStage::Opening { path } => SyncStageView::Opening(path@),
            SyncStage::Creating { path, mode, leftover } => SyncStageView::Creating(
                path@,
                *mode,
                leftover@,
            ),
            SyncStage::Writing { receiver, end } => SyncStageView::Writing(receiver@, *end),
            SyncStage::SettingPermissions { path, mtime } => SyncStageView::SettingPermissions(
                path@,
                *mtime,
            ),
        }
    }
}

/// Handles sync protocol requests within an ADB stream.
#[derive(Debug)]
pub struct SyncService {
    /// Current session state. While a file is being written to, the state that the session falls
    /// back to when the transfer ends.
    pub state: SyncState,
    /// What the service waits for.
    pub stage: SyncStage,
}

/// A service as a value.
pub struct SyncServiceView {
    pub state: SyncStateView,
    pub stage: SyncStageView,
}

impl View for SyncService {
    type V = SyncServiceView;

    open spec fn view(&self) -> SyncServiceView {
        SyncServiceView { state: self.state@, stage: self.stage@ }
    }
}

/// A service that waits for the host.
pub open spec fn ready(state: SyncStateView) -> SyncServiceView {
    SyncServiceView { state, stage: SyncStageView::Ready }
}

/// What a payload leads to once its file contents are written: the transfer goes on, the
/// permissions are set, or it is given up. The session falls back to `state` where it ends.
pub open spec fn after_write(
    state: SyncStateView,
    receiver: ReceiverView,
    end: ReceiveEnd,
) -> (SyncServiceView, SyncStepView) {
    match end {
        ReceiveEnd::More => (
            ready(SyncStateView::Receiving(receiver)),
            finishes(SyncResultView::Continue),
        ),
        ReceiveEnd::Done { mtime } => (
            SyncServiceView { state, stage: SyncStageView::SettingPermissions(receiver.path, mtime) },
            asks(FileRequestView::SetPermissions(receiver.mode)),
        ),
        ReceiveEnd::Invalid => (
            ready(state),
            aborts(receiver.path, "invalid sync frame during send"@),
        ),
    }
}

/// What a payload leads to during a transfer: the file contents that it carries are written
/// first.
pub open spec fn receives(state: SyncStateView, receiver: ReceiverView, data: Seq<u8>) -> (
    SyncServiceView,
    SyncStepView,
) {
    let r = received(receiver.state, data);
    let next = ReceiverView { state: r.state, ..receiver };
    if r.written.len() > 0 {
        (
            SyncServiceView { state, stage: SyncStageView::Writing(next, r.end) },
            asks(FileRequestView::Write(r.written)),
        )
    } else {
        after_write(state, next, r.end)
    }
}

/// What a payload from the host leads to.
pub open spec fn handled(service: SyncServiceView, data: Seq<u8>) -> (
    SyncServiceView,
    SyncStepView,
) {
    if let SyncStateView::Receiving(receiver) = service.state {
        receives(SyncStateView::Idle, receiver, data)
    } else {
        match parsed_packet(data) {
            None => (service, fails("invalid sync request"@)),
            Some((PacketView::LStatV1(path), _)) => (
                SyncServiceView { stage: SyncStageView::Statting(path), ..service },
                asks(FileRequestView::Lstat(path)),
            ),
            Some((PacketView::RecvV1(path), _)) => (
                SyncServiceView { stage: SyncStageView::Opening(path), ..service },
                asks(FileRequestView::OpenRead(path)),
            ),
            Some((PacketView::SendV1(path, mode), taken)) => (
                SyncServiceView {
                    stage: SyncStageView::Creating(path, mode, data.skip(taken as int)),
                    ..service
                },
                asks(FileRequestView::Create(path)),
            ),
            Some((PacketView::Quit, _)) => (service, finishes(SyncResultView::Quit)),
        }
    }
}

/// The stat response for a file, or for one that cannot be asked.
pub open spec fn stat_of(stat: Option<FileStat>) -> SyncStat {
    match stat {
        Some(s) => SyncStat {
            id: ID_LSTAT_V1,
            mode: s.mode,
            size: s.size as u32,
            mtime: s.mtime as u32,
        },
        None => SyncStat { id: ID_LSTAT_V1, mode: 0, size: 0, mtime: 0 },
    }
}

/// Why what a file says of itself does not fit in a stat response, if it does not.
pub open spec fn misfit(stat: Option<FileStat>) -> Option<Seq<char>> {
    match stat {
        Some(s) if s.size > u32::MAX => Some("file size does not fit in 32 bits"@),
        Some(s) if !(0 <= s.mtime <= u32::MAX) => Some(
            "modification time does not fit in 32 bits"@,
        ),
        _ => None,
    }
}

/// A message that names a file and the reason of a failure.
pub open spec fn file_message(what: Seq<char>, path: Seq<u8>, error: Seq<char>) -> Seq<char> {
    what + lossy_text(path) + ": "@ + error
}

/// What the answer of the file system leads to.
pub open spec fn replied(service: SyncServiceView, reply: FileReplyView) -> (
    SyncServiceView,
    SyncStepView,
) {
    let back = ready(service.state);
    match (service.stage, reply) {
        (SyncStageView::Statting(path), FileReplyView::Stat(stat)) => (
            back,
            match misfit(stat) {
                Some(reason) => fails(file_message("cannot stat "@, path, reason)),
                None => finishes(SyncResultView::Stat(stat_of(stat))),
            },
        ),
        (SyncStageView::Opening(path), FileReplyView::Failed(error)) => (
            back,
            fails(file_message("cannot open "@, path, error)),
        ),
        (SyncStageView::Opening(path), _) => (
            ready(SyncStateView::Sending(FileSender { done: false })),
            finishes(SyncResultView::Continue),
        ),
        (SyncStageView::Creating(path, mode, leftover), FileReplyView::Failed(error)) => (
            back,
            fails(file_message("cannot create "@, path, error)),
        ),
        (SyncStageView::Creating(path, mode, leftover), _) => receives(
            service.state,
            ReceiverView { path, mode, state: RecvView::Header(Seq::empty()) },
            leftover,
        ),
        (SyncStageView::Writing(receiver, end), FileReplyView::Failed(error)) => (
            back,
            aborts(receiver.path, file_message("write error for "@, receiver.path, error)),
        ),
        (SyncStageView::Writing(receiver, end), _) => after_write(service.state, receiver, end),
        (SyncStageView::SettingPermissions(path, mtime), FileReplyView::Failed(error)) => (
            back,
            aborts(path, file_message("cannot set permissions on "@, path, error)),
        ),
        (SyncStageView::SettingPermissions(path, mtime), _) => (
            back,
            SyncStepView {
                effect: Some(FileEffectView::SetModified(mtime)),
                next: SyncNextView::Finished(
                    SyncResultView::Data(bare_response_view(SyncFrameResponseId::Okay)),
                ),
            },
        ),
        _ => (service, finishes(SyncResultView::Continue)),
    }
}

/// The answer is one to what the service asked.
pub open spec fn answers(stage: SyncStageView, reply: FileReplyView) -> bool {
    match reply {
        FileReplyView::Stat(_) => stage is Statting,
        FileReplyView::Done => !(stage is Ready) && !(stage is Statting),
        FileReplyView::Failed(error) => {
            &&& !(stage is Ready) && !(stage is Statting)
            &&& error_fits(error)
        },
    }
}

impl SyncStepView {
    /// The payload of the response, if there is one, is not too long.
    pub open spec fn fits(self) -> bool {
        self.next matches SyncNextView::Finished(SyncResultView::Data(frame)) ==> frame.1.len()
            <= RESPONSE_MAX_BYTES
    }
}

impl SyncState {
    /// A receiver makes sense, and its path came in one payload.
    pub open spec fn wf(self) -> bool {
        self matches SyncState::Receiving(receiver) ==> receiver.wf() && receiver.path@.len()
            <= MAX_PAYLOAD_V1
    }
}

impl SyncStage {
    /// What is kept makes sense, and the path came in one payload.
    pub open spec fn wf(self) -> bool {
        match self {
            SyncStage::Statting { path } => path@.len() <= MAX_PAYLOAD_V1,
            SyncStage::Opening { path } => path@.len() <= MAX_PAYLOAD_V1,
            SyncStage::Creating { path, .. } => path@.len() <= MAX_PAYLOAD_V1,
            SyncStage::Writing { receiver, .. } => receiver.wf() && receiver.path@.len()
                <= MAX_PAYLOAD_V1,
            SyncStage::SettingPermissions { path, .. } => path@.len() <= MAX_PAYLOAD_V1,
            _ => true,
        }
    }
}

/// A step that answers FAIL with a message.
fn fail_step(msg: &str) -> (res: SyncStep)
    requires
        msg@.len() <= 0x20_0040,
    ensures
        res@ == fails(msg@),
        res@.fits(),
{
    proof {
        lemma_fail_fits(msg@);
    }
    let (header, payload) = fail_response(msg);
    SyncStep { effect: None, next: SyncNext::Finished(SyncResult::Data(header, payload)) }
}

/// A step that removes the file at `path` and answers FAIL with a message.
fn abort_step(path: Vec<u8>, msg: &str) -> (res: SyncStep)
    requires
        msg@.len() <= 0x20_0040,
    ensures
        res@ == aborts(path@, msg@),
        res@.fits(),
{
    let step = fail_step(msg);
    SyncStep { effect: Some(FileEffect::RemoveFile { path }), next: step.next }
}

/// A message that names a file and the reason of a failure.
fn name_file(what: &str, path: &[u8], error: &str) -> (res: String)
    requires
        what@.len() <= 0x20,
        path@.len() <= MAX_PAYLOAD_V1,
        error_fits(error@),
    ensures
        res@ == file_message(what@, path@, error@),
        res@.len() <= 0x20_0040,
{
    let shown: String = lossy(path);
    proof {
        reveal_strlit(": ");
        lossy_text_is_no_longer(path@);
        encoded_length(error@);
    }
    what.to_owned().concat(shown.as_str()).concat(": ").concat(error)
}

/// Answers `LSTAT_V1`.
fn reply_stat(path: &[u8], stat: Option<FileStat>) -> (res: SyncStep)
    requires
        path@.len() <= MAX_PAYLOAD_V1,
    ensures
        res@ == (match misfit(stat) {
            Some(reason) => fails(file_message("cannot stat "@, path@, reason)),
            None => finishes(SyncResultView::Stat(stat_of(stat))),
        }),
        res@.fits(),
{
    proof {
        reveal_strlit("cannot stat ");
        reveal_strlit("file size does not fit in 32 bits");
        reveal_strlit("modification time does not fit in 32 bits");
        encoded_length("file size does not fit in 32 bits"@);
        encoded_length("modification time does not fit in 32 bits"@);
    }
    let answer = match stat {
        Some(s) => {
            if s.size > u32::MAX as u64 {
                return fail_step(
                    name_file("cannot stat ", path, "file size does not fit in 32 bits").as_str(),
                );
            }
            if s.mtime < 0 || s.mtime > u32::MAX as i64 {
                return fail_step(
                    name_file(
                        "cannot stat ",
                        path,
                        "modification time does not fit in 32 bits",
                    ).as_str(),
                );
            }
            SyncStat {
                id: ID_LSTAT_V1,
                mode: s.mode,
                size: s.size as u32,
                mtime: s.mtime as u32,
            }
        },
        None => SyncStat { id: ID_LSTAT_V1, mode: 0, size: 0, mtime: 0 },
    };
    SyncStep { effect: None, next: SyncNext::Finished(SyncResult::Stat(answer)) }
}

impl SyncService {
    /// The session makes sense.
    pub open spec fn wf(self) -> bool {
        &&& self.state.wf()
        &&& self.stage.wf()
        &&& !(self.stage is Ready) ==> !(self.state is Receiving)
    }

    /// Creates a new sync service in the idle state.
    pub fn new() -> (res: Self)
        ensures
            res.wf(),
            res@ == ready(SyncStateView::Idle),
    {
        SyncService { state: SyncState::Idle, stage: SyncStage::Ready }
    }

    /// Goes on once the contents of a payload are written.
    fn finish_write(&mut self, receiver: FileReceiver, end: ReceiveEnd) -> (res: SyncStep)
        requires
            old(self).wf(),
            old(self).stage is Ready,
            !(old(self).state is Receiving),
            receiver.wf(),
            receiver.path@.len() <= MAX_PAYLOAD_V1,
        ensures
            final(self).wf(),
            (final(self)@, res@) == after_write(old(self).state@, receiver@, end),
            res@.fits(),
    {
        match end {
            ReceiveEnd::More => {
                self.state = SyncState::Receiving(receiver);
                SyncStep { effect: None, next: SyncNext::Finished(SyncResult::Continue) }
            },
            ReceiveEnd::Done { mtime } => {
                let mode: u32 = receiver.mode;
                self.stage = SyncStage::SettingPermissions { path: receiver.path, mtime };
                SyncStep { effect: None, next: SyncNext::Ask(FileRequest::SetPermissions { mode }) }
            },
            ReceiveEnd::Invalid => {
                proof {
                    reveal_strlit("invalid sync frame during send");
                }
                abort_step(receiver.path, "invalid sync frame during send")
            },
        }
    }

    /// Feeds a payload to a transfer.
    fn feed(&mut self, mut receiver: FileReceiver, data: &[u8]) -> (res: SyncStep)
        requires
            old(self).wf(),
            old(self).stage is Ready,
            !(old(self).state is Receiving),
            receiver.wf(),
            receiver.path@.len() <= MAX_PAYLOAD_V1,
        ensures
            final(self).wf(),
            (final(self)@, res@) == receives(old(self).state@, receiver@, data@),
            res@.fits(),
    {
        let (written, end) = receiver.receive(data);
        if written.len() > 0 {
            self.stage = SyncStage::Writing { receiver, end };
            SyncStep { effect: None, next: SyncNext::Ask(FileRequest::Write { data: written }) }
        } else {
            self.finish_write(receiver, end)
        }
    }

    /// Parses a sync request from a WRTE payload and dispatches it.
    pub fn handle(&mut self, data: &[u8]) -> (res: SyncStep)
        requires
            old(self).wf(),
            old(self).stage is Ready,
            data@.len() <= MAX_PAYLOAD_V1,
        ensures
            final(self).wf(),
            (final(self)@, res@) == handled(old(self)@, data@),
            res@.fits(),
    {
        let mut state: SyncState = SyncState::Idle;
        core::mem::swap(&mut self.state, &mut state);
        if let SyncState::Receiving(receiver) = state {
            return self.feed(receiver, data);
        }
        self.state = state;
        proof {
            request_lies_in_payload(data@);
        }
        let mut rest: &[u8] = data;
        match parse_sync_packet(&mut rest) {
            Err(_) => {
                proof {
                    reveal_strlit("invalid sync request");
                }
                fail_step("invalid sync request")
            },
            Ok(SyncPacket::LStatV1(path)) => {
                self.stage = SyncStage::Statting { path: slice_to_vec(path) };
                SyncStep {
                    effect: None,
                    next: SyncNext::Ask(FileRequest::Lstat { path: slice_to_vec(path) }),
                }
            },
            Ok(SyncPacket::RecvV1(path)) => {
                self.stage = SyncStage::Opening { path: slice_to_vec(path) };
                SyncStep {
                    effect: None,
                    next: SyncNext::Ask(FileRequest::OpenRead { path: slice_to_vec(path) }),
                }
            },
            Ok(SyncPacket::SendV1(path, mode)) => {
                self.stage =
                SyncStage::Creating {
                    path: slice_to_vec(path),
                    mode,
                    leftover: slice_to_vec(rest),
                };
                SyncStep {
                    effect: None,
                    next: SyncNext::Ask(FileRequest::Create { path: slice_to_vec(path) }),
                }
            },
            Ok(SyncPacket::Quit) => {
                SyncStep { effect: None, next: SyncNext::Finished(SyncResult::Quit) }
            },
        }
    }

    /// Whether an answer is one to what the service asked.
    pub fn accepts(&self, reply: &FileReply) -> (res: bool)
        ensures
            res == answers(self.stage@, reply@),
    {
        let asked: bool = match self.stage {
            SyncStage::Ready | SyncStage::Statting { .. } => false,
            _ => true,
        };
        match reply {
            FileReply::Stat(_) => matches!(self.stage, SyncStage::Statting { .. }),
            FileReply::Done => asked,
            FileReply::Failed { error } => asked && is_short(error.as_str()),
        }
    }

    /// Goes on with the answer of the file system.
    pub fn reply(&mut self, reply: FileReply) -> (res: SyncStep)
        requires
            old(self).wf(),
            answers(old(self).stage@, reply@),
        ensures
            final(self).wf(),
            (final(self)@, res@) == replied(old(self)@, reply@),
            res@.fits(),
    {
        let mut stage: SyncStage = SyncStage::Ready;
        core::mem::swap(&mut self.stage, &mut stage);
        proof {
            reveal_strlit("cannot open ");
            reveal_strlit("cannot create ");
            reveal_strlit("write error for ");
            reveal_strlit("cannot set permissions on ");
        }
        match stage {
            SyncStage::Ready => unreached(),
            SyncStage::Statting { path } => match reply {
                FileReply::Stat(stat) => reply_stat(path.as_slice(), stat),
                _ => unreached(),
            },
            SyncStage::Opening { path } => match reply {
                FileReply::Failed { error } => fail_step(
                    name_file("cannot open ", path.as_slice(), error.as_str()).as_str(),
                ),
                _ => {
                    self.state = SyncState::Sending(FileSender { done: false });
                    SyncStep { effect: None, next: SyncNext::Finished(SyncResult::Continue) }
                },
            },
            SyncStage::Creating { path, mode, leftover } => match reply {
                FileReply::Failed { error } => fail_step(
                    name_file("cannot create ", path.as_slice(), error.as_str()).as_str(),
                ),
                _ => self.feed(FileReceiver::new(path, mode), leftover.as_slice()),
            },
            SyncStage::Writing { receiver, end } => match reply {
                FileReply::Failed { error } => {
                    let msg = name_file(
                        "write error for ",
                        receiver.path.as_slice(),
                        error.as_str(),
                    );
                    abort_step(receiver.path, msg.as_str())
                },
                _ => self.finish_write(receiver, end),
            },
            SyncStage::SettingPermissions { path, mtime } => match reply {
                FileReply::Failed { error } => {
                    let msg = name_file(
                        "cannot set permissions on ",
                        path.as_slice(),
                        error.as_str(),
                    );
                    abort_step(path, msg.as_str())
                },
                _ => {
                    let (header, payload) = okay_response();
                    SyncStep {
                        effect: Some(FileEffect::SetModified { mtime }),
                        next: SyncNext::Finished(SyncResult::Data(header, payload)),
                    }
                },
            },
        }
    }

    /// Whether a chunk is to be read from the file that is being sent. A session whose file was
    /// sent whole goes back to waiting for a command.
    pub fn wants_chunk(&mut self) -> (res: bool)
        requires
            old(self).wf(),
            old(self).stage is Ready,
        ensures
            final(self).wf(),
            final(self).stage is Ready,
            res == (old(self).state@ == SyncStateView::Sending(FileSender { done: false })),
            final(self)@ == (if old(self).state@ == SyncStateView::Sending(
                FileSender { done: true },
            ) {
                ready(SyncStateView::Idle)
            } else {
                old(self)@
            }),
    {
        match self.state {
            SyncState::Sending(sender) => {
                if sender.done {
                    self.state = SyncState::Idle;
                    false
                } else {
                    true
                }
            },
            _ => false,
        }
    }

    /// The frame for a chunk that was read from the file that is being sent.
    pub fn chunk(&mut self, read: ReadReply) -> (res: (SyncFrameResponseHeader, Vec<u8>))
        requires
            old(self).wf(),
            old(self).state@ == SyncStateView::Sending(FileSender { done: false }),
            read@.fits(),
        ensures
            final(self).wf(),
            final(self)@ == (SyncServiceView {
                state: SyncStateView::Sending(FileSender { done: ends_file(read@) }),
                ..old(self)@
            }),
            (res.0, res.1@) == chunk_frame(read@),
            res.1@.len() <= RESPONSE_MAX_BYTES,
    {
        let mut sender: FileSender = FileSender { done: false };
        match sender.next_frame(read) {
            Some(frame) => {
                self.state = SyncState::Sending(sender);
                frame
            },
            None => unreached(),
        }
    }
}

/// The service waits for the file system exactly when it asked something, and for the host
/// exactly when it dealt with the request.
pub proof fn waits_for_what_it_asked(service: SyncServiceView, data: Seq<u8>, reply: FileReplyView)
    ensures
        service.stage is Ready ==> (handled(service, data).1.next is Finished <==> handled(
            service,
            data,
        ).0.stage is Ready),
        answers(service.stage, reply) ==> (replied(service, reply).1.next is Finished <==> replied(
            service,
            reply,
        ).0.stage is Ready),
{
}

/// Whatever fails is reported as a FAIL message, and a file that was only received in part is
/// removed.
pub proof fn failures_are_reported(service: SyncServiceView, error: Seq<char>)
    requires
        answers(service.stage, FileReplyView::Failed(error)),
    ensures
        ({
            let (next, step) = replied(service, FileReplyView::Failed(error));
            &&& next == ready(service.state)
            &&& step.next matches SyncNextView::Finished(SyncResultView::Data(frame))
                && frame.0.id is Fail
            &&& match service.stage {
                SyncStageView::Writing(receiver, _) => step.effect == Some(
                    FileEffectView::RemoveFile(receiver.path),
                ),
                SyncStageView::SettingPermissions(path, _) => step.effect == Some(
                    FileEffectView::RemoveFile(path),
                ),
                _ => step.effect is None,
            }
        }),
{
}

/// A stat request is answered by one stat response for the path that it names, or by FAIL where
/// size or modification time do not fit in it, and leaves the session as it was. The response has
/// mode, size and modification time as the file system gives them, and zeros where there is no
/// file; what is answered is never cut down to fit.
pub proof fn stat_answers_the_request(
    service: SyncServiceView,
    path: Seq<u8>,
    tail: Seq<u8>,
    stat: Option<FileStat>,
)
    requires
        service.stage is Ready,
        !(service.state is Receiving),
        path.len() <= u32::MAX,
    ensures
        ({
            let (asking, step) = handled(service, request_bytes(ID_LSTAT_V1, path) + tail);
            let (next, answer) = replied(asking, FileReplyView::Stat(stat));
            &&& step == asks(FileRequestView::Lstat(path))
            &&& next == service
            &&& match misfit(stat) {
                Some(reason) => answer == fails(file_message("cannot stat "@, path, reason)),
                None => answer == finishes(SyncResultView::Stat(stat_of(stat))),
            }
        }),
        misfit(stat) is None && stat is Some ==> {
            &&& stat_of(stat).mode == stat->0.mode
            &&& stat_of(stat).size == stat->0.size
            &&& stat_of(stat).mtime == stat->0.mtime
        },
        stat is None ==> stat_of(stat).mode == 0 && stat_of(stat).size == 0 && stat_of(stat).mtime
            == 0,
        stat_of(stat).id == ID_LSTAT_V1,
        misfit(stat) is Some <==> stat is Some && !(stat->0.size <= u32::MAX && 0
            <= stat->0.mtime <= u32::MAX),
{
    path_requests_are_read(path, tail);
}

/// A request for a file opens it for sending; what was to be sent before is forgotten.
pub proof fn receive_request_starts_sending(service: SyncServiceView, path: Seq<u8>, tail: Seq<u8>)
    requires
        service.stage is Ready,
        !(service.state is Receiving),
        path.len() <= u32::MAX,
    ensures
        ({
            let (asking, step) = handled(service, request_bytes(ID_RECV_V1, path) + tail);
            &&& step == asks(FileRequestView::OpenRead(path))
            &&& replied(asking, FileReplyView::Done) == (
                ready(SyncStateView::Sending(FileSender { done: false })),
                finishes(SyncResultView::Continue),
            )
        }),
{
    path_requests_are_read(path, tail);
}

/// A response on the wire is its four letters, the length of what it carries, and that as it is.
pub proof fn responses_are_framed(data: Seq<u8>, msg: Seq<char>)
    requires
        data.len() <= u32::MAX,
        encode_utf8(msg).len() <= u32::MAX,
    ensures
        ({
            let (header, payload) = data_response_view(data);
            header.wire() + payload == u32_bytes(ID_DATA) + u32_bytes(data.len() as u32) + data
        }),
        ({
            let (header, payload) = fail_response_view(msg);
            header.wire() + payload == u32_bytes(ID_FAIL) + u32_bytes(
                encode_utf8(msg).len() as u32,
            ) + encode_utf8(msg)
        }),
        ({
            let (header, payload) = bare_response_view(SyncFrameResponseId::Okay);
            header.wire() + payload == u32_bytes(ID_OKAY) + u32_bytes(0)
        }),
        ({
            let (header, payload) = bare_response_view(SyncFrameResponseId::Done);
            header.wire() + payload == u32_bytes(ID_DONE) + u32_bytes(0)
        }),
{
    let none = Seq::<u8>::empty();
    assert(u32_bytes(ID_OKAY) + u32_bytes(0) + none =~= u32_bytes(ID_OKAY) + u32_bytes(0));
    assert(u32_bytes(ID_DONE) + u32_bytes(0) + none =~= u32_bytes(ID_DONE) + u32_bytes(0));
}

/// A stat response on the wire is four words: STAT, the mode, the size and the modification time.
pub proof fn stats_are_four_words(stat: SyncStat)
    ensures
        stat.wire().len() == 16,
        stat.wire().subrange(0, 4) == u32_bytes(stat.id),
        stat.wire().subrange(4, 8) == u32_bytes(stat.mode),
        stat.wire().subrange(8, 12) == u32_bytes(stat.size),
        stat.wire().subrange(12, 16) == u32_bytes(stat.mtime),
{
    assert(stat.wire().subrange(0, 4) =~= u32_bytes(stat.id));
    assert(stat.wire().subrange(4, 8) =~= u32_bytes(stat.mode));
    assert(stat.wire().subrange(8, 12) =~= u32_bytes(stat.size));
    assert(stat.wire().subrange(12, 16) =~= u32_bytes(stat.mtime));
}

/// A step whose answer to the host is FAIL with this message.
pub open spec fn tells_failure(step: SyncStepView, msg: Seq<char>) -> bool {
    step.next matches SyncNextView::Finished(SyncResultView::Data((header, payload))) && {
        &&& header.id is Fail
        &&& header.payload_len == encode_utf8(msg).len() as u32
        &&& payload == encode_utf8(msg)
    }
}

/// A failure is told with what could not be done, the path as the host named it, as far as that is
/// text, and the reason as the file system gives it.
pub proof fn failures_say_what_failed(
    state: SyncStateView,
    path: Seq<u8>,
    mode: u32,
    leftover: Seq<u8>,
    parsing: RecvView,
    end: ReceiveEnd,
    mtime: u32,
    error: Seq<char>,
)
    ensures
        ({
            let failed = FileReplyView::Failed(error);
            let shown = lossy_text(path);
            let at = |stage: SyncStageView| replied(SyncServiceView { state, stage }, failed).1;
            let receiver = ReceiverView { path, mode, state: parsing };
            &&& tells_failure(
                at(SyncStageView::Opening(path)),
                "cannot open "@ + shown + ": "@ + error,
            )
            &&& tells_failure(
                at(SyncStageView::Creating(path, mode, leftover)),
                "cannot create "@ + shown + ": "@ + error,
            )
            &&& tells_failure(
                at(SyncStageView::Writing(receiver, end)),
                "write error for "@ + shown + ": "@ + error,
            )
            &&& tells_failure(
                at(SyncStageView::SettingPermissions(path, mtime)),
                "cannot set permissions on "@ + shown + ": "@ + error,
            )
        }),
{
}

/// What is no request is answered by FAIL, and leaves the session as it was; QUIT ends it, and so
/// does nothing else.
pub proof fn only_quit_ends_the_session(service: SyncServiceView, data: Seq<u8>)
    requires
        !(service.state is Receiving),
    ensures
        ({
            let (next, step) = handled(service, data);
            &&& parsed_packet(data) is None ==> {
                &&& next == service
                &&& step.effect is None
                &&& tells_failure(step, "invalid sync request"@)
            }
            &&& step.next == SyncNextView::Finished(SyncResultView::Quit) <==> match parsed_packet(
                data,
            ) {
                Some((packet, _)) => packet is Quit,
                None => false,
            }
        }),
{
}

/// While a file is received, what a payload carries for it is written first, all of it in one
/// request. Then the transfer goes on, or the permissions are set, or, where something came that
/// is no frame, the file is removed and the host told FAIL; after that the session is idle.
pub proof fn payloads_are_written_first(receiver: ReceiverView, data: Seq<u8>)
    ensures
        ({
            let r = received(receiver.state, data);
            let (next, step) = handled(ready(SyncStateView::Receiving(receiver)), data);
            let (after, last) = if r.written.len() > 0 {
                replied(next, FileReplyView::Done)
            } else {
                (next, step)
            };
            &&& r.written.len() > 0 ==> step.effect is None && step.next == SyncNextView::Ask(
                FileRequestView::Write(r.written),
            )
            &&& match r.end {
                ReceiveEnd::More => {
                    &&& last.effect is None
                    &&& last.next == SyncNextView::Finished(SyncResultView::Continue)
                    &&& after.stage is Ready
                    &&& after.state == SyncStateView::Receiving(
                        ReceiverView { path: receiver.path, mode: receiver.mode, state: r.state },
                    )
                },
                ReceiveEnd::Done { mtime } => {
                    let (end, answer) = replied(after, FileReplyView::Done);
                    &&& last.effect is None
                    &&& last.next == SyncNextView::Ask(
                        FileRequestView::SetPermissions(receiver.mode),
                    )
                    &&& answer.effect == Some(FileEffectView::SetModified(mtime))
                    &&& answer.next matches SyncNextView::Finished(
                        SyncResultView::Data((header, payload)),
                    ) && header.id is Okay && header.payload_len == 0 && payload.len() == 0
                    &&& end.stage is Ready && end.state is Idle
                },
                ReceiveEnd::Invalid => {
                    &&& last.effect == Some(FileEffectView::RemoveFile(receiver.path))
                    &&& tells_failure(last, "invalid sync frame during send"@)
                    &&& after.stage is Ready && after.state is Idle
                },
            }
        }),
{
}

/// What is read of a file goes to the host as it is, in a DATA frame; the end of the file makes a
/// DONE frame, and a failure a FAIL frame with the reason. Nothing follows the last two.
pub proof fn chunks_are_sent_as_they_are(data: Seq<u8>, error: Seq<char>)
    ensures
        data.len() > 0 ==> {
            let (header, payload) = chunk_frame(ReadReplyView::Data(data));
            &&& header.id is Data && header.payload_len == data.len() as u32
            &&& payload == data
            &&& !ends_file(ReadReplyView::Data(data))
        },
        data.len() == 0 ==> {
            let (header, payload) = chunk_frame(ReadReplyView::Data(data));
            &&& header.id is Done && header.payload_len == 0
            &&& payload.len() == 0
            &&& ends_file(ReadReplyView::Data(data))
        },
        ({
            let (header, payload) = chunk_frame(ReadReplyView::Failed(error));
            &&& header.id is Fail && header.payload_len == payload.len() as u32
            &&& payload == encode_utf8("read error: "@ + error)
            &&& ends_file(ReadReplyView::Failed(error))
        }),
{
}

/// Chunks of up to 64 KiB, and reasons of up to 1 MiB, are taken; so is everything else that a file
/// system can answer to what it was asked.
pub proof fn ordinary_answers_are_taken(
    stage: SyncStageView,
    stat: Option<FileStat>,
    data: Seq<u8>,
    error: Seq<char>,
)
    requires
        data.len() <= 0x1_0000,
        encode_utf8(error).len() <= 0x10_0000,
    ensures
        ReadReplyView::Data(data).fits(),
        ReadReplyView::Failed(error).fits(),
        stage is Statting ==> answers(stage, FileReplyView::Stat(stat)),
        stage is Opening || stage is Creating || stage is Writing || stage is SettingPermissions
            ==> answers(stage, FileReplyView::Done) && answers(stage, FileReplyView::Failed(error)),
{
}

} // verus!
