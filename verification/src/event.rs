//! What passes between a connection and the world: effects that it has, questions that it asks,
//! and the replies to them.

use crate::ffs::EventError;
use crate::forward::{Destination, DestinationView};
use crate::message::AdbHeader;
use crate::sync_service::{
    FileEffect, FileEffectView, FileReply, FileReplyView, FileRequest, FileRequestView, ReadReply,
    ReadReplyView,
};
use crate::user_data::UserDataOpType;
use vstd::prelude::*;

verus! {

/// What a connection has done, without waiting for an answer.
#[derive(Debug)]
pub enum Effect {
    /// Submit a message, header and payload, to the host.
    Send { header: AdbHeader, payload: Vec<u8> },
    /// Submit a read on the bulk OUT endpoint.
    ReadBulkOut { user_data: u64 },
    /// Submit a poll on ep0.
    PollEp0 { user_data: u64 },
    /// Submit a read on the shell or the socket of a stream.
    ReadStream { local_id: u32, user_data: u64 },
    /// Shut down the write side of the socket of a stream, so that the destination sees EOF.
    ShutdownWrite { local_id: u32 },
    /// Drop what belongs to a stream.
    CloseStream { local_id: u32 },
    /// Do something to a file of a sync stream.
    File { local_id: u32, effect: FileEffect },
    /// Reboot the device.
    Reboot,
}

/// An effect as a value.
pub enum EffectView {
    Send(AdbHeader, Seq<u8>),
    ReadBulkOut(u64),
    PollEp0(u64),
    ReadStream(u32, u64),
    ShutdownWrite(u32),
    CloseStream(u32),
    File(u32, FileEffectView),
    Reboot,
}

impl View for Effect {
    type V = EffectView;

    open spec fn view(&self) -> EffectView {
        match self {
            Effect::Send { header, payload } => EffectView::Send(*header, payload@),
            Effect::ReadBulkOut { user_data } => EffectView::ReadBulkOut(*user_data),
            Effect::PollEp0 { user_data } => EffectView::PollEp0(*user_data),
            Effect::ReadStream { local_id, user_data } => EffectView::ReadStream(
                *local_id,
                *user_data,
            ),
            Effect::ShutdownWrite { local_id } => EffectView::ShutdownWrite(*local_id),
            Effect::CloseStream { local_id } => EffectView::CloseStream(*local_id),
            Effect::File { local_id, effect } => EffectView::File(*local_id, effect@),
            Effect::Reboot => EffectView::Reboot,
        }
    }
}

/// What a connection asks.
#[derive(Debug)]
pub enum Request {
    /// Read the next event from ep0.
    Ep0Event,
    /// Spawn a shell for the stream that is to get this ID, running the command if there is one.
    StartShell { local_id: u32, command: Option<String> },
    /// Connect a socket for the stream that is to get this ID.
    Connect { local_id: u32, destination: Destination },
    /// Carry out a file request of a sync stream.
    File { local_id: u32, request: FileRequest },
    /// Read the next chunk of the file that a sync stream sends.
    ReadChunk { local_id: u32 },
    /// Write all of the data to the shell or the socket of a stream.
    WriteInput { local_id: u32, data: Vec<u8> },
}

/// A question as a value.
pub enum RequestView {
    Ep0Event,
    StartShell(u32, Option<Seq<char>>),
    Connect(u32, DestinationView),
    File(u32, FileRequestView),
    ReadChunk(u32),
    WriteInput(u32, Seq<u8>),
}

impl View for Request {
    type V = RequestView;

    open spec fn view(&self) -> RequestView {
        match self {
            Request::Ep0Event => RequestView::Ep0Event,
            Request::StartShell { local_id, command: Some(command) } => RequestView::StartShell(
                *local_id,
                Some(command@),
            ),
            Request::StartShell { local_id, command: None } => RequestView::StartShell(
                *local_id,
                None,
            ),
            Request::Connect { local_id, destination } => RequestView::Connect(
                *local_id,
                destination@,
            ),
            Request::File { local_id, request } => RequestView::File(*local_id, request@),
            Request::ReadChunk { local_id } => RequestView::ReadChunk(*local_id),
            Request::WriteInput { local_id, data } => RequestView::WriteInput(*local_id, data@),
        }
    }
}

/// The reply to a question.
#[derive(Debug)]
pub enum Reply {
    /// To `Ep0Event`: the bytes that were read, or nothing where the read failed.
    Ep0Event(Option<Vec<u8>>),
    /// To `StartShell`, `Connect` and `WriteInput`: it was done.
    Done,
    /// To `StartShell`, `Connect` and `WriteInput`: it could not be done.
    Failed,
    /// To `File`.
    File(FileReply),
    /// To `ReadChunk`.
    Chunk(ReadReply),
}

/// A reply as a value.
pub enum ReplyView {
    Ep0Event(Option<Seq<u8>>),
    Done,
    Failed,
    File(FileReplyView),
    Chunk(ReadReplyView),
}

impl View for Reply {
    type V = ReplyView;

    open spec fn view(&self) -> ReplyView {
        match self {
            Reply::Ep0Event(Some(bytes)) => ReplyView::Ep0Event(Some(bytes@)),
            Reply::Ep0Event(None) => ReplyView::Ep0Event(None),
            Reply::Done => ReplyView::Done,
            Reply::Failed => ReplyView::Failed,
            Reply::File(reply) => ReplyView::File(reply@),
            Reply::Chunk(read) => ReplyView::Chunk(read@),
        }
    }
}

/// How a step of a connection ends.
#[derive(Debug)]
pub enum Next {
    /// Wait for the next completion.
    Wait,
    /// Answer the question, and hand the reply back before the next completion.
    Ask(Request),
    /// The connection is over: the interface was disabled, or the function unbound.
    Stop,
    /// The connection failed: an operation completed with an error, given as a negative number.
    Fail { op_type: UserDataOpType, result: i32 },
    /// The connection failed: ep0 gave something that is no event, or could not be read at all,
    /// and then there is no event error.
    Ep0Failed { error: Option<EventError> },
}

/// How a step ends, as a value.
pub enum NextView {
    Wait,
    Ask(RequestView),
    Stop,
    Fail(UserDataOpType, i32),
    Ep0Failed(Option<EventError>),
}

impl View for Next {
    type V = NextView;

    open spec fn view(&self) -> NextView {
        match self {
            Next::Wait => NextView::Wait,
            Next::Ask(request) => NextView::Ask(request@),
            Next::Stop => NextView::Stop,
            Next::Fail { op_type, result } => NextView::Fail(*op_type, *result),
            Next::Ep0Failed { error } => NextView::Ep0Failed(*error),
        }
    }
}

/// One step of a connection.
#[derive(Debug)]
pub struct Step {
    /// What is done first, in this order.
    pub effects: Vec<Effect>,
    /// How the step ends.
    pub next: Next,
}

/// One step of a connection, as a value.
pub struct StepView {
    pub effects: Seq<EffectView>,
    pub next: NextView,
}

/// Effects as values.
pub open spec fn effect_views(effects: Seq<Effect>) -> Seq<EffectView> {
    effects.map_values(|e: Effect| e@)
}

impl View for Step {
    type V = StepView;

    open spec fn view(&self) -> StepView {
        StepView { effects: effect_views(self.effects@), next: self.next@ }
    }
}

/// Appends an effect.
pub fn push_effect(effects: &mut Vec<Effect>, effect: Effect)
    ensures
        effect_views(final(effects)@) == effect_views(old(effects)@).push(effect@),
{
    let ghost before = effect_views(effects@);
    effects.push(effect);
    assert(effect_views(effects@) =~= before.push(effect@));
}

} // verus!
