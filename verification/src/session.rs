//! What a connection does about each event, as a function on values.

use crate::buffers::first_free;
use crate::bytes::{byte_sum, first_index};
use crate::event::{EffectView, NextView, ReplyView, RequestView, StepView};
use crate::ffs::{ends_connection, event_of, EventError, UsbFunctionFsEventType};
use crate::message::{
    header_for, parsed_header, sendable, version_of_word, version_word, AdbHeader, Command,
    ProtocolVersion, MAX_PAYLOAD_V1,
};
use crate::stream::{service_of, ServiceRequestView, ServiceView, StreamView, StreamsView};
use crate::sync_service::{
    answers, chunk_frame, ends_file, handled, ready, replied, waits_for_what_it_asked,
    FileReplyView, FileSender, SyncNextView, SyncResultView, SyncServiceView, SyncStateView,
    SyncStepView,
};
use crate::transfer::response_bytes;
use crate::user_data::{UserData, UserDataOpType};
use vstd::prelude::*;
use vstd::utf8::{decode_utf8, valid_utf8};

verus! {

/// The question that a connection waits to have answered.
#[derive(Clone, Copy, Debug, PartialEq, Eq, Structural)]
pub enum Task {
    /// None: the next completion can be handled.
    Idle,
    /// The next ep0 event.
    Ep0Event,
    /// Whether the shell for a stream of the host was spawned.
    StartShell { remote_id: u32 },
    /// Whether the socket for a stream of the host was connected.
    Connect { remote_id: u32 },
    /// The outcome of a file request.
    File { local_id: u32 },
    /// The next chunk of a file.
    ReadChunk { local_id: u32 },
    /// Whether data was written to a shell or socket.
    WriteInput { local_id: u32 },
}

/// A connection as a value.
pub struct ConnectionView {
    /// The protocol version that was negotiated.
    pub version: ProtocolVersion,
    /// The identity of the device, as it is sent to the host.
    pub identity: Seq<u8>,
    /// The open streams.
    pub streams: StreamsView,
    /// The write buffers.
    pub slots: Seq<Option<Seq<u8>>>,
    /// The header whose payload is to come.
    pub pending: Option<AdbHeader>,
    /// The question that is open.
    pub task: Task,
}

/// The tag of a read of a message header.
pub open spec fn header_tag() -> u64 {
    (UserData { op_type: UserDataOpType::BulkOutReadHeader, data: None }).encoded()
}

/// The tag of a read of a payload.
pub open spec fn payload_tag() -> u64 {
    (UserData { op_type: UserDataOpType::BulkOutReadPayload, data: None }).encoded()
}

/// The tag of a poll on ep0.
pub open spec fn poll_tag() -> u64 {
    (UserData { op_type: UserDataOpType::Ep0Poll, data: None }).encoded()
}

/// The tag of a read on the shell or the socket of a stream.
pub open spec fn stream_tag(local_id: u32) -> u64 {
    (UserData { op_type: UserDataOpType::PtyRead, data: Some(local_id) }).encoded()
}

/// The tag of a write from a buffer slot.
pub open spec fn write_tag(slot: u32) -> u64 {
    (UserData { op_type: UserDataOpType::BulkInWrite, data: Some(slot) }).encoded()
}

impl ConnectionView {
    /// There is a stream with this ID.
    pub open spec fn has(self, local_id: u32) -> bool {
        self.streams.streams.contains_key(local_id)
    }

    /// The stream with this ID.
    pub open spec fn stream(self, local_id: u32) -> StreamView {
        self.streams.streams[local_id]
    }

    /// The same with one stream in another state.
    pub open spec fn with_stream(self, local_id: u32, stream: StreamView) -> Self {
        ConnectionView {
            streams: StreamsView {
                streams: self.streams.streams.insert(local_id, stream),
                ..self.streams
            },
            ..self
        }
    }

    /// The same with the sync service of one stream in another state.
    pub open spec fn with_service(self, local_id: u32, service: SyncServiceView) -> Self {
        self.with_stream(
            local_id,
            StreamView { service: ServiceView::Sync(service), ..self.stream(local_id) },
        )
    }

    /// The same without one stream.
    pub open spec fn without_stream(self, local_id: u32) -> Self {
        ConnectionView {
            streams: StreamsView {
                streams: self.streams.streams.remove(local_id),
                ..self.streams
            },
            ..self
        }
    }

    /// The same with a new stream.
    pub open spec fn opened(self, remote_id: u32, service: ServiceView) -> Self {
        ConnectionView {
            streams: StreamsView {
                streams: self.streams.streams.insert(
                    self.streams.next_id,
                    StreamView { remote_id, service, waiting_for_okay: false },
                ),
                next_id: (self.streams.next_id + 1) as u32,
            },
            ..self
        }
    }

    /// The same with another open question.
    pub open spec fn with_task(self, task: Task) -> Self {
        ConnectionView { task, ..self }
    }

    /// A CLSE message to the host.
    pub open spec fn clse(self, local_id: u32, remote_id: u32) -> EffectView {
        EffectView::Send(
            header_for(self.version, Command::Clse, local_id, remote_id, Seq::empty()),
            Seq::empty(),
        )
    }

    /// An OKAY message to the host.
    pub open spec fn okay(self, local_id: u32, remote_id: u32) -> EffectView {
        EffectView::Send(
            header_for(self.version, Command::Okay, local_id, remote_id, Seq::empty()),
            Seq::empty(),
        )
    }

    /// A WRTE message to the host.
    pub open spec fn wrte(self, local_id: u32, remote_id: u32, payload: Seq<u8>) -> EffectView {
        EffectView::Send(
            header_for(self.version, Command::Wrte, local_id, remote_id, payload),
            payload,
        )
    }
}

/// A step after which a command is dealt with: the next header is read.
pub open spec fn finished(effects: Seq<EffectView>) -> StepView {
    StepView { effects: effects.push(EffectView::ReadBulkOut(header_tag())), next: NextView::Wait }
}

/// A step that asks a question.
pub open spec fn asking(effects: Seq<EffectView>, request: RequestView) -> StepView {
    StepView { effects, next: NextView::Ask(request) }
}

/// A step that does nothing.
pub open spec fn nothing() -> StepView {
    StepView { effects: Seq::empty(), next: NextView::Wait }
}

/// CLSE: the stream is torn down, and the host told so.
pub open spec fn on_clse(c: ConnectionView, header: AdbHeader) -> (ConnectionView, StepView) {
    let local_id = header.arg1;
    if c.has(local_id) {
        let stream = c.stream(local_id);
        let told = seq![c.clse(local_id, stream.remote_id)];
        let shut = if stream.service is Forward {
            told.push(EffectView::ShutdownWrite(local_id))
        } else {
            told
        };
        (c.without_stream(local_id), finished(shut.push(EffectView::CloseStream(local_id))))
    } else {
        (c, finished(Seq::empty()))
    }
}

/// The version that CNXN settles on: the host's, or the first where the device does not know it.
pub open spec fn negotiated(word: u32) -> ProtocolVersion {
    match version_of_word(word) {
        Ok(version) => version,
        Err(_) => ProtocolVersion::V0,
    }
}

/// CNXN: the version is settled, and the host told who the device is.
pub open spec fn on_cnxn(c: ConnectionView, header: AdbHeader) -> (ConnectionView, StepView) {
    let version = negotiated(header.arg0);
    let answer = header_for(
        version,
        Command::Cnxn,
        version_word(version),
        version.payload_limit(),
        c.identity,
    );
    (
        ConnectionView { version, ..c },
        finished(seq![EffectView::Send(answer, c.identity)]),
    )
}

/// A chunk of a file is asked for, if the stream sends one and is ready for more.
pub open spec fn frame_due(c: ConnectionView, local_id: u32, before: Seq<EffectView>) -> (
    ConnectionView,
    StepView,
) {
    let stream = c.stream(local_id);
    if c.has(local_id) && !stream.waiting_for_okay {
        match stream.service {
            ServiceView::Sync(
                SyncServiceView { state: SyncStateView::Sending(sender), stage },
            ) => if sender.done {
                (
                    c.with_service(local_id, SyncServiceView { state: SyncStateView::Idle, stage }),
                    finished(before),
                )
            } else {
                (
                    c.with_task(Task::ReadChunk { local_id }),
                    asking(before, RequestView::ReadChunk(local_id)),
                )
            },
            _ => (c, finished(before)),
        }
    } else {
        (c, finished(before))
    }
}

/// A read on the shell or the socket of a stream, if the stream is ready for more output.
pub open spec fn read_due(c: ConnectionView, local_id: u32, before: Seq<EffectView>) -> Seq<
    EffectView,
> {
    let stream = c.stream(local_id);
    if c.has(local_id) && !stream.waiting_for_okay && (stream.service is Shell
        || stream.service is Forward) {
        before.push(EffectView::ReadStream(local_id, stream_tag(local_id)))
    } else {
        before
    }
}

/// The pending work of a stream is driven on.
pub open spec fn continued(c: ConnectionView, local_id: u32) -> (ConnectionView, StepView) {
    if c.has(local_id) && c.stream(local_id).service is Sync {
        frame_due(c, local_id, Seq::empty())
    } else {
        (c, finished(read_due(c, local_id, Seq::empty())))
    }
}

/// OKAY: the stream is ready, and its work goes on.
pub open spec fn on_okay(c: ConnectionView, header: AdbHeader) -> (ConnectionView, StepView) {
    let local_id = header.arg1;
    if c.has(local_id) {
        continued(
            c.with_stream(
                local_id,
                StreamView { waiting_for_okay: false, ..c.stream(local_id) },
            ),
            local_id,
        )
    } else {
        (c, finished(Seq::empty()))
    }
}

/// The name of the service that an OPEN payload holds: UTF-8 up to the first NUL.
pub open spec fn service_name(payload: Seq<u8>) -> Option<Seq<char>> {
    let nul = first_index(payload, 0);
    if nul < payload.len() && valid_utf8(payload.take(nul as int)) {
        Some(decode_utf8(payload.take(nul as int)))
    } else {
        None
    }
}

/// The service that an OPEN payload asks for, if there is such a service.
pub open spec fn requested_service(payload: Seq<u8>) -> Option<ServiceRequestView> {
    match service_name(payload) {
        Some(name) => match service_of(name) {
            Ok(service) => Some(service),
            Err(_) => None,
        },
        None => None,
    }
}

/// OPEN: a stream is created for the service, or the host told that there is none.
pub open spec fn on_open(c: ConnectionView, header: AdbHeader, payload: Seq<u8>) -> (
    ConnectionView,
    StepView,
) {
    let remote_id = header.arg0;
    let local_id = c.streams.next_id;
    match requested_service(payload) {
        None => (c, finished(seq![c.clse(0, remote_id)])),
        Some(ServiceRequestView::Sync) => (
            c.opened(
                remote_id,
                ServiceView::Sync(ready(SyncStateView::Idle)),
            ),
            finished(seq![c.okay(local_id, remote_id)]),
        ),
        Some(ServiceRequestView::Reboot) => (
            c.opened(remote_id, ServiceView::Reboot),
            finished(seq![c.okay(local_id, remote_id), EffectView::Reboot]),
        ),
        Some(ServiceRequestView::Shell(command)) => (
            c.with_task(Task::StartShell { remote_id }),
            asking(Seq::empty(), RequestView::StartShell(local_id, command)),
        ),
        Some(ServiceRequestView::Forward(destination)) => (
            c.with_task(Task::Connect { remote_id }),
            asking(Seq::empty(), RequestView::Connect(local_id, destination)),
        ),
    }
}

/// A shell was spawned or a socket connected, or not.
pub open spec fn on_started(c: ConnectionView, remote_id: u32, service: ServiceView, ok: bool) -> (
    ConnectionView,
    StepView,
) {
    let local_id = c.streams.next_id;
    if ok {
        (
            c.opened(remote_id, service),
            finished(
                seq![
                    c.okay(local_id, remote_id),
                    EffectView::ReadStream(local_id, stream_tag(local_id)),
                ],
            ),
        )
    } else {
        (c, finished(seq![c.clse(0, remote_id)]))
    }
}

/// A stream is closed from this side, and the host told so.
pub open spec fn hung_up(c: ConnectionView, local_id: u32, before: Seq<EffectView>) -> (
    ConnectionView,
    StepView,
) {
    (
        c.without_stream(local_id),
        finished(
            before.push(c.clse(local_id, c.stream(local_id).remote_id)).push(
                EffectView::CloseStream(local_id),
            ),
        ),
    )
}

/// A sync request is dealt with.
pub open spec fn on_sync_result(
    c: ConnectionView,
    local_id: u32,
    before: Seq<EffectView>,
    result: SyncResultView,
) -> (ConnectionView, StepView) {
    let remote_id = c.stream(local_id).remote_id;
    match result {
        SyncResultView::Stat(stat) => (
            c,
            finished(before.push(c.wrte(local_id, remote_id, stat.wire()))),
        ),
        SyncResultView::Data(frame) => (
            c,
            finished(before.push(c.wrte(local_id, remote_id, response_bytes(frame)))),
        ),
        SyncResultView::Continue => frame_due(c, local_id, before),
        SyncResultView::Quit => hung_up(c, local_id, before),
    }
}

/// The sync service of a stream took a step.
pub open spec fn on_sync_step(
    c: ConnectionView,
    local_id: u32,
    before: Seq<EffectView>,
    step: SyncStepView,
) -> (ConnectionView, StepView) {
    let effects = match step.effect {
        Some(effect) => before.push(EffectView::File(local_id, effect)),
        None => before,
    };
    match step.next {
        SyncNextView::Ask(request) => (
            c.with_task(Task::File { local_id }),
            asking(effects, RequestView::File(local_id, request)),
        ),
        SyncNextView::Finished(result) => on_sync_result(c, local_id, effects, result),
    }
}

/// WRTE: it is acknowledged, and the payload handed to the service of the stream.
pub open spec fn on_wrte(c: ConnectionView, header: AdbHeader, payload: Seq<u8>) -> (
    ConnectionView,
    StepView,
) {
    let local_id = header.arg1;
    let acknowledged = seq![c.okay(local_id, header.arg0)];
    if c.has(local_id) {
        match c.stream(local_id).service {
            ServiceView::Sync(service) => {
                let (next, step) = handled(service, payload);
                on_sync_step(c.with_service(local_id, next), local_id, acknowledged, step)
            },
            _ => (
                c.with_task(Task::WriteInput { local_id }),
                asking(acknowledged, RequestView::WriteInput(local_id, payload)),
            ),
        }
    } else {
        (c, finished(acknowledged))
    }
}

/// What a message from the host leads to.
pub open spec fn commanded(c: ConnectionView, header: AdbHeader, payload: Option<Seq<u8>>) -> (
    ConnectionView,
    StepView,
) {
    match (header.command, payload) {
        (Command::Cnxn, Some(_)) => on_cnxn(c, header),
        (Command::Open, Some(payload)) => on_open(c, header, payload),
        (Command::Wrte, Some(payload)) => on_wrte(c, header, payload),
        (Command::Okay, None) => on_okay(c, header),
        (Command::Clse, _) => on_clse(c, header),
        _ => (c, finished(Seq::empty())),
    }
}

/// A message that the protocol allows in this state. CNXN, OPEN and WRTE carry a payload, OKAY
/// carries none; CLSE names the ID that the host gave the stream; nothing but CLSE comes on a
/// stream that reboots the device; and there is an ID left for a new stream.
pub open spec fn allowed(c: ConnectionView, header: AdbHeader, payload: Option<Seq<u8>>) -> bool {
    let local_id = header.arg1;
    match header.command {
        Command::Cnxn => {
            &&& payload is Some
            &&& sendable(negotiated(header.arg0), c.identity)
        },
        Command::Open => {
            &&& payload matches Some(payload)
            &&& requested_service(payload) is Some ==> c.streams.next_id < u32::MAX
        },
        Command::Wrte => {
            &&& payload is Some
            &&& c.has(local_id) ==> !(c.stream(local_id).service is Reboot)
        },
        Command::Okay => {
            &&& payload is None
            &&& c.has(local_id) ==> !(c.stream(local_id).service is Reboot)
        },
        Command::Clse => c.has(local_id) ==> c.stream(local_id).remote_id == header.arg0,
        _ => true,
    }
}

/// A header came, or something that is none.
pub open spec fn on_header(c: ConnectionView, data: Seq<u8>) -> (ConnectionView, StepView) {
    match parsed_header(data) {
        Ok(header) => if header.data_length > 0 {
            (
                ConnectionView { pending: Some(header), ..c },
                StepView {
                    effects: seq![EffectView::ReadBulkOut(payload_tag())],
                    next: NextView::Wait,
                },
            )
        } else {
            commanded(c, header, None)
        },
        Err(_) => (c, finished(Seq::empty())),
    }
}

/// Whether a payload is the one that its header announced, as far as that is checked.
pub open spec fn intact(c: ConnectionView, header: AdbHeader, data: Seq<u8>) -> bool {
    c.version.checked() ==> byte_sum(data) == header.data_check
}

/// A payload came.
pub open spec fn on_payload(c: ConnectionView, data: Seq<u8>) -> (ConnectionView, StepView) {
    let next = ConnectionView { pending: None, ..c };
    match c.pending {
        Some(header) if intact(c, header, data) => commanded(next, header, Some(data)),
        _ => (next, finished(Seq::empty())),
    }
}

/// Output of the shell or the socket of a stream came, or its end.
pub open spec fn on_output(c: ConnectionView, local_id: u32, res: i32, data: Seq<u8>) -> (
    ConnectionView,
    StepView,
) {
    if !c.has(local_id) {
        (c, nothing())
    } else {
        let stream = c.stream(local_id);
        if res <= 0 {
            (
                c.without_stream(local_id),
                StepView {
                    effects: seq![
                        c.clse(local_id, stream.remote_id),
                        EffectView::CloseStream(local_id),
                    ],
                    next: NextView::Wait,
                },
            )
        } else if stream.service is Shell || stream.service is Forward {
            (
                c.with_stream(local_id, StreamView { waiting_for_okay: true, ..stream }),
                StepView {
                    effects: seq![c.wrte(local_id, stream.remote_id, data)],
                    next: NextView::Wait,
                },
            )
        } else {
            (c, nothing())
        }
    }
}

/// What the completion of an operation leads to.
pub open spec fn completed(c: ConnectionView, user_data: u64, res: i32, data: Seq<u8>) -> (
    ConnectionView,
    StepView,
) {
    match UserData::decoded(user_data) {
        Err(_) => (c, nothing()),
        Ok(tag) => match (tag.op_type, tag.data) {
            (UserDataOpType::PtyRead, Some(local_id)) => on_output(c, local_id, res, data),
            (UserDataOpType::BulkInWrite, Some(slot)) => (
                ConnectionView { slots: c.slots.update(slot - 1, None), ..c },
                nothing(),
            ),
            (op_type, _) => if res < 0 {
                (c, StepView { effects: Seq::empty(), next: NextView::Fail(op_type, res) })
            } else {
                match op_type {
                    UserDataOpType::Ep0Poll => (
                        c.with_task(Task::Ep0Event),
                        asking(Seq::empty(), RequestView::Ep0Event),
                    ),
                    UserDataOpType::BulkOutReadHeader => on_header(c, data),
                    UserDataOpType::BulkOutReadPayload => on_payload(c, data),
                    _ => (c, nothing()),
                }
            },
        },
    }
}

/// A completion that the connection can handle: it belongs to an operation that was submitted,
/// the data that was read fits in the read buffer, and a message is one that the protocol allows.
pub open spec fn admitted(c: ConnectionView, user_data: u64, res: i32, data: Seq<u8>) -> bool {
    UserData::decoded(user_data) matches Ok(tag) ==> match tag.op_type {
        UserDataOpType::PtyRead => {
            &&& tag.data is Some
            &&& res > 0 ==> data.len() <= MAX_PAYLOAD_V1
        },
        UserDataOpType::BulkInWrite => {
            &&& tag.data matches Some(slot) ==> 1 <= slot <= c.slots.len()
            &&& tag.data is None ==> res < 0
        },
        UserDataOpType::BulkOutReadHeader => res >= 0 ==> {
            &&& data.len() <= MAX_PAYLOAD_V1
            &&& parsed_header(data) matches Ok(header) ==> header.data_length > 0 || allowed(
                c,
                header,
                None,
            )
        },
        UserDataOpType::BulkOutReadPayload => res >= 0 ==> {
            &&& data.len() <= MAX_PAYLOAD_V1
            &&& c.pending matches Some(header) ==> !intact(c, header, data) || allowed(
                c,
                header,
                Some(data),
            )
        },
        UserDataOpType::Ep0Poll => true,
    }
}

/// An event came from ep0, or something that is none: the connection stops, goes on, or fails.
pub open spec fn on_ep0_event(event: Result<UsbFunctionFsEventType, EventError>) -> StepView {
    match event {
        Ok(event) => if ends_connection(event) {
            StepView { effects: Seq::empty(), next: NextView::Stop }
        } else {
            StepView { effects: seq![EffectView::PollEp0(poll_tag())], next: NextView::Wait }
        },
        Err(e) => StepView { effects: Seq::empty(), next: NextView::Ep0Failed(Some(e)) },
    }
}

/// What the reply to the open question leads to.
pub open spec fn answered(c: ConnectionView, reply: ReplyView) -> (ConnectionView, StepView) {
    let idle = c.with_task(Task::Idle);
    match (c.task, reply) {
        (Task::Ep0Event, ReplyView::Ep0Event(Some(bytes))) => (idle, on_ep0_event(event_of(bytes))),
        (Task::Ep0Event, _) => (
            idle,
            StepView { effects: Seq::empty(), next: NextView::Ep0Failed(None) },
        ),
        (Task::StartShell { remote_id }, _) => on_started(
            idle,
            remote_id,
            ServiceView::Shell,
            reply is Done,
        ),
        (Task::Connect { remote_id }, _) => on_started(
            idle,
            remote_id,
            ServiceView::Forward,
            reply is Done,
        ),
        (Task::WriteInput { local_id }, ReplyView::Failed) => hung_up(
            idle,
            local_id,
            Seq::empty(),
        ),
        (Task::File { local_id }, ReplyView::File(reply)) => match c.stream(local_id).service {
            ServiceView::Sync(service) => {
                let (next, step) = replied(service, reply);
                on_sync_step(idle.with_service(local_id, next), local_id, Seq::empty(), step)
            },
            _ => (idle, finished(Seq::empty())),
        },
        (Task::ReadChunk { local_id }, ReplyView::Chunk(read)) => {
            let stream = c.stream(local_id);
            (
                idle.with_stream(
                    local_id,
                    StreamView {
                        service: ServiceView::Sync(
                            ready(
                                SyncStateView::Sending(FileSender { done: ends_file(read) }),
                            ),
                        ),
                        waiting_for_okay: true,
                        ..stream
                    },
                ),
                finished(
                    seq![
                        c.wrte(local_id, stream.remote_id, response_bytes(chunk_frame(read))),
                    ],
                ),
            )
        },
        _ => (idle, finished(Seq::empty())),
    }
}

/// The reply is one to the open question.
pub open spec fn fitting(c: ConnectionView, reply: ReplyView) -> bool {
    match c.task {
        Task::Idle => false,
        Task::Ep0Event => reply is Ep0Event,
        Task::StartShell { .. } | Task::Connect { .. } | Task::WriteInput { .. } => reply is Done
            || reply is Failed,
        Task::File { local_id } => {
            &&& reply matches ReplyView::File(reply)
            &&& c.stream(local_id).service matches ServiceView::Sync(service)
            &&& answers(service.stage, reply)
        },
        Task::ReadChunk { .. } => {
            &&& reply matches ReplyView::Chunk(read)
            &&& read.fits()
        },
    }
}

impl ConnectionView {
    /// A sync stream waits for the file system exactly while that question is open.
    pub open spec fn settled(self, local_id: u32) -> bool {
        self.stream(local_id).service matches ServiceView::Sync(service) ==> (service.stage is Ready
            <==> self.task != Task::File { local_id })
    }

    /// What holds between two steps: the open question is about a stream that is there, and of
    /// the kind that it is asked for.
    pub open spec fn inv(self) -> bool {
        &&& forall|id: u32| #[trigger] self.has(id) ==> self.settled(id)
        &&& match self.task {
            Task::Idle | Task::Ep0Event => true,
            Task::StartShell { .. } | Task::Connect { .. } => self.streams.next_id < u32::MAX,
            Task::File { local_id } => self.has(local_id) && self.stream(local_id).service is Sync,
            Task::ReadChunk { local_id } => {
                &&& self.has(local_id)
                &&& self.stream(local_id).service == ServiceView::Sync(
                    ready(SyncStateView::Sending(FileSender { done: false })),
                )
            },
            Task::WriteInput { local_id } => {
                &&& self.has(local_id)
                &&& self.stream(local_id).service is Shell || self.stream(local_id).service
                    is Forward
            },
        }
    }
}

/// A write to submit to the bulk IN endpoint.
#[derive(Clone, Copy, Debug, PartialEq, Eq, Structural)]
pub struct WriteOp {
    /// The buffer that holds what is to be written.
    pub slot: u32,
    /// The tag of the write.
    pub user_data: u64,
    /// Whether the next write may only begin when this one is complete.
    pub linked: bool,
}

/// How many write buffers a message takes.
pub open spec fn slots_needed(payload: Seq<u8>) -> nat {
    if payload.len() > 0 {
        2
    } else {
        1
    }
}

/// What submitting a message does to the write buffers, and the writes to submit: the header, and
/// linked to it the payload, unless that is empty.
pub open spec fn submitted(
    slots: Seq<Option<Seq<u8>>>,
    header: Seq<u8>,
    payload: Seq<u8>,
) -> (Seq<Option<Seq<u8>>>, Seq<WriteOp>) {
    let first = first_free(slots);
    let slot = (first + 1) as u32;
    let filled = slots.update(first as int, Some(header));
    if payload.len() > 0 {
        let second = first_free(filled);
        let payload_slot = (second + 1) as u32;
        (
            filled.update(second as int, Some(payload)),
            seq![
                WriteOp { slot, user_data: write_tag(slot), linked: true },
                WriteOp {
                    slot: payload_slot,
                    user_data: write_tag(payload_slot),
                    linked: false,
                },
            ],
        )
    } else {
        (filled, seq![WriteOp { slot, user_data: write_tag(slot), linked: false }])
    }
}

/// Which header is pending is no matter to what holds between two steps.
pub proof fn lemma_pending_is_no_matter(c: ConnectionView, pending: Option<AdbHeader>)
    ensures
        c.inv() ==> (ConnectionView { pending, ..c }).inv(),
{
    let d = ConnectionView { pending, ..c };
    assert forall|id: u32| c.inv() && #[trigger] d.has(id) implies d.settled(id) by {
        assert(c.has(id));
    }
}

/// A stream whose service, if it is a sync service, waits for the host.
spec fn rests(stream: StreamView) -> bool {
    stream.service matches ServiceView::Sync(service) ==> service.stage is Ready
}

/// All streams rest.
spec fn all_rest(streams: Map<u32, StreamView>) -> bool {
    forall|id: u32| #[trigger] streams.contains_key(id) ==> rests(streams[id])
}

proof fn lemma_rests(c: ConnectionView)
    requires
        c.inv(),
        !(c.task is File),
    ensures
        all_rest(c.streams.streams),
{
    assert forall|id: u32| #[trigger] c.streams.streams.contains_key(id) implies rests(
        c.streams.streams[id],
    ) by {
        assert(c.has(id));
        assert(c.settled(id));
    }
}

proof fn lemma_all_rest(c: ConnectionView)
    requires
        all_rest(c.streams.streams),
        c.task is Idle || c.task is Ep0Event || ((c.task is StartShell || c.task is Connect)
            && c.streams.next_id < u32::MAX),
    ensures
        c.inv(),
{
    assert forall|id: u32| #[trigger] c.has(id) implies c.settled(id) by {
        assert(c.streams.streams.contains_key(id));
    }
}

proof fn lemma_changed_stream(c: ConnectionView, local_id: u32, stream: StreamView)
    requires
        c.inv(),
        c.task is Idle,
        rests(stream),
    ensures
        c.with_stream(local_id, stream).inv(),
{
    let d = c.with_stream(local_id, stream);
    lemma_rests(c);
    lemma_all_rest(d);
}

proof fn lemma_removed_stream(c: ConnectionView, local_id: u32)
    requires
        c.inv(),
        c.task is Idle,
    ensures
        c.without_stream(local_id).inv(),
{
    let d = c.without_stream(local_id);
    lemma_rests(c);
    lemma_all_rest(d);
}

proof fn lemma_opened_stream(c: ConnectionView, remote_id: u32, service: ServiceView)
    requires
        c.inv(),
        c.task is Idle,
        rests(StreamView { remote_id, service, waiting_for_okay: false }),
    ensures
        c.opened(remote_id, service).inv(),
{
    let d = c.opened(remote_id, service);
    lemma_rests(c);
    lemma_all_rest(d);
}

proof fn lemma_inv_frame_due(c: ConnectionView, local_id: u32, before: Seq<EffectView>)
    requires
        c.inv(),
        c.task is Idle,
        c.has(local_id),
    ensures
        frame_due(c, local_id, before).0.inv(),
{
    assert(c.settled(local_id));
    let stream = c.stream(local_id);
    if let ServiceView::Sync(service) = stream.service {
        if let SyncStateView::Sending(sender) = service.state {
            if !stream.waiting_for_okay {
                if sender.done {
                    let idle = SyncServiceView { state: SyncStateView::Idle, ..service };
                    lemma_changed_stream(
                        c,
                        local_id,
                        StreamView { service: ServiceView::Sync(idle), ..stream },
                    );
                } else {
                    let d = c.with_task(Task::ReadChunk { local_id });
                    assert forall|id: u32| #[trigger] d.has(id) implies d.settled(id) by {
                        assert(c.has(id));
                    }
                }
            }
        }
    }
}

proof fn lemma_inv_sync_step(
    c: ConnectionView,
    local_id: u32,
    service: SyncServiceView,
    before: Seq<EffectView>,
    step: SyncStepView,
)
    requires
        c.has(local_id),
        c.task is Idle,
        all_rest(c.streams.streams.remove(local_id)),
        step.next is Finished <==> service.stage is Ready,
    ensures
        on_sync_step(c.with_service(local_id, service), local_id, before, step).0.inv(),
{
    let d = c.with_service(local_id, service);
    assert forall|id: u32| c.has(id) && id != local_id implies rests(#[trigger] c.stream(id)) by {
        assert(c.streams.streams.remove(local_id).contains_key(id));
    }
    let effects = match step.effect {
        Some(effect) => before.push(EffectView::File(local_id, effect)),
        None => before,
    };
    match step.next {
        SyncNextView::Ask(request) => {
            let e = d.with_task(Task::File { local_id });
            assert forall|id: u32| #[trigger] e.has(id) implies e.settled(id) by {
                if id != local_id {
                    assert(rests(c.stream(id)));
                }
            }
        },
        SyncNextView::Finished(result) => {
            assert forall|id: u32| #[trigger] d.streams.streams.contains_key(id) implies rests(
                d.streams.streams[id],
            ) by {
                if id != local_id {
                    assert(rests(c.stream(id)));
                }
            }
            lemma_all_rest(d);
            lemma_inv_frame_due(d, local_id, effects);
            lemma_removed_stream(d, local_id);
        },
    }
}

proof fn lemma_inv_commanded(c: ConnectionView, header: AdbHeader, payload: Option<Seq<u8>>)
    requires
        c.inv(),
        c.task is Idle,
        allowed(c, header, payload),
    ensures
        commanded(c, header, payload).0.inv(),
{
    let local_id = header.arg1;
    lemma_rests(c);
    match (header.command, payload) {
        (Command::Cnxn, Some(_)) => {
            lemma_all_rest(on_cnxn(c, header).0);
        },
        (Command::Open, Some(payload)) => {
            lemma_opened_stream(c, header.arg0, ServiceView::Reboot);
            lemma_opened_stream(c, header.arg0, ServiceView::Sync(ready(SyncStateView::Idle)));
            if c.streams.next_id < u32::MAX {
                lemma_all_rest(c.with_task(Task::StartShell { remote_id: header.arg0 }));
                lemma_all_rest(c.with_task(Task::Connect { remote_id: header.arg0 }));
            }
        },
        (Command::Wrte, Some(payload)) => {
            if c.has(local_id) {
                match c.stream(local_id).service {
                    ServiceView::Sync(service) => {
                        let (next, step) = handled(service, payload);
                        waits_for_what_it_asked(service, payload, FileReplyView::Done);
                        lemma_inv_sync_step(
                            c,
                            local_id,
                            next,
                            seq![c.okay(local_id, header.arg0)],
                            step,
                        );
                    },
                    _ => {
                        let d = c.with_task(Task::WriteInput { local_id });
                        assert forall|id: u32| #[trigger] d.has(id) implies d.settled(id) by {
                            assert(c.streams.streams.contains_key(id));
                        }
                    },
                }
            }
        },
        (Command::Okay, None) => {
            if c.has(local_id) {
                let stream = StreamView { waiting_for_okay: false, ..c.stream(local_id) };
                assert(c.streams.streams.contains_key(local_id));
                lemma_changed_stream(c, local_id, stream);
                lemma_inv_frame_due(c.with_stream(local_id, stream), local_id, Seq::empty());
            }
        },
        (Command::Clse, _) => {
            lemma_removed_stream(c, local_id);
        },
        _ => {},
    }
}

/// What holds between two steps holds again after a completion.
pub proof fn inv_after_completion(c: ConnectionView, user_data: u64, res: i32, data: Seq<u8>)
    requires
        c.inv(),
        c.task is Idle,
        admitted(c, user_data, res, data),
    ensures
        completed(c, user_data, res, data).0.inv(),
{
    lemma_rests(c);
    if let Ok(tag) = UserData::decoded(user_data) {
        match (tag.op_type, tag.data) {
            (UserDataOpType::PtyRead, Some(local_id)) => {
                lemma_removed_stream(c, local_id);
                if c.has(local_id) {
                    assert(c.streams.streams.contains_key(local_id));
                    lemma_changed_stream(
                        c,
                        local_id,
                        StreamView { waiting_for_okay: true, ..c.stream(local_id) },
                    );
                }
            },
            (UserDataOpType::BulkInWrite, Some(slot)) => {
                lemma_all_rest(ConnectionView { slots: c.slots.update(slot - 1, None), ..c });
            },
            (UserDataOpType::Ep0Poll, _) => {
                lemma_all_rest(c.with_task(Task::Ep0Event));
            },
            (UserDataOpType::BulkOutReadHeader, _) => {
                if res >= 0 {
                    if let Ok(header) = parsed_header(data) {
                        if header.data_length > 0 {
                            lemma_pending_is_no_matter(c, Some(header));
                        } else {
                            lemma_inv_commanded(c, header, None);
                        }
                    }
                }
            },
            (UserDataOpType::BulkOutReadPayload, _) => {
                lemma_pending_is_no_matter(c, None);
                if res >= 0 {
                    if let Some(header) = c.pending {
                        if intact(c, header, data) {
                            lemma_inv_commanded(
                                ConnectionView { pending: None, ..c },
                                header,
                                Some(data),
                            );
                        }
                    }
                }
            },
            _ => {},
        }
    }
}

/// What holds between two steps holds again after a reply.
pub proof fn inv_after_reply(c: ConnectionView, reply: ReplyView)
    requires
        c.inv(),
        fitting(c, reply),
    ensures
        answered(c, reply).0.inv(),
{
    let idle = c.with_task(Task::Idle);
    if !(c.task is File) {
        lemma_rests(c);
        lemma_all_rest(idle);
    }
    match (c.task, reply) {
        (Task::StartShell { remote_id }, _) => {
            lemma_opened_stream(idle, remote_id, ServiceView::Shell);
        },
        (Task::Connect { remote_id }, _) => {
            lemma_opened_stream(idle, remote_id, ServiceView::Forward);
        },
        (Task::WriteInput { local_id }, ReplyView::Failed) => {
            lemma_removed_stream(idle, local_id);
        },
        (Task::File { local_id }, ReplyView::File(reply)) => {
            if let ServiceView::Sync(service) = c.stream(local_id).service {
                let (next, step) = replied(service, reply);
                waits_for_what_it_asked(service, Seq::empty(), reply);
                let others = c.streams.streams.remove(local_id);
                assert forall|id: u32| #[trigger] others.contains_key(id) implies rests(
                    others[id],
                ) by {
                    assert(c.has(id));
                    assert(c.settled(id));
                }
                lemma_inv_sync_step(idle, local_id, next, Seq::empty(), step);
            }
        },
        (Task::ReadChunk { local_id }, ReplyView::Chunk(read)) => {
            lemma_changed_stream(
                idle,
                local_id,
                StreamView {
                    service: ServiceView::Sync(
                        ready(SyncStateView::Sending(FileSender { done: ends_file(read) })),
                    ),
                    waiting_for_okay: true,
                    ..c.stream(local_id)
                },
            );
        },
        _ => {},
    }
}

} // verus!
