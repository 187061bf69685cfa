//! A single ADB session over USB.
//!
//! The connection decides what to do about each completed operation. It performs none: it returns
//! the effects that are to be had, in order, and either waits for the next completion or asks a
//! question whose reply it needs before that.

use crate::buffers::{
    first_free, free_slots, free_slots_after_update, slot_count, BufferManager, MAX_BUFFER_SLOTS,
};
use crate::bytes::{find_byte, lemma_byte_sum_bound, push_bytes};
use crate::device_info::DeviceInfo;
use crate::event::{
    effect_views, push_effect, Effect, EffectView, Next, NextView, Reply, Request, Step, StepView,
};
use crate::ffs::{decode_event, event_of, is_connection_end};
use crate::message::{
    checksum, clse_header, cnxn_response, identity_bytes, identity_payload, is_sendable,
    okay_header, parse_header, parsed_header, sendable, wrte_header, AdbHeader, Command,
    ProtocolVersion, MAX_PAYLOAD_V1,
};
use crate::session::{
    admitted, allowed, answered, commanded, completed, continued, finished, fitting, frame_due,
    header_tag, hung_up, intact, inv_after_completion, inv_after_reply, lemma_pending_is_no_matter,
    negotiated, on_clse, on_cnxn, on_ep0_event, on_header, on_okay, on_open, on_output, on_payload, on_started,
    on_sync_result, on_sync_step, on_wrte, payload_tag, poll_tag, read_due, requested_service,
    slots_needed, stream_tag, submitted, ConnectionView, Task, WriteOp,
};
use crate::stream::{
    parse_service, Service, ServiceRequest, ServiceView, Stream, StreamManager, StreamView,
    StreamsView,
};
use crate::sync_service::{
    answers, chunk_frame, ends_file, ready, replied, waits_for_what_it_asked, FileReply,
    FileReplyView, FileSender, ReadReply, SyncFrameResponseHeader, SyncNext, SyncResult,
    SyncResultView, SyncService, SyncStateView, SyncStep, RESPONSE_MAX_BYTES,
};
use crate::text::from_utf8;
use crate::transfer::response_bytes;
use crate::user_data::{UserData, UserDataOpType};
use vstd::pervasive::unreached;
use vstd::prelude::*;
use vstd::slice::{slice_subrange, slice_to_vec};
use vstd::utf8::encode_utf8_decode_utf8;

verus! {

broadcast use crate::bytes::u32_bytes_len;

/// State for a single ADB session over USB.
#[derive(Debug)]
pub struct AdbConnection {
    info: DeviceInfo,
    buffers: BufferManager,
    streams: StreamManager,
    version: ProtocolVersion,
    pending: Option<AdbHeader>,
    task: Task,
}

impl View for AdbConnection {
    type V = ConnectionView;

    closed spec fn view(&self) -> ConnectionView {
        ConnectionView {
            version: self.version,
            identity: identity_payload(self.info),
            streams: self.streams@,
            slots: self.buffers@,
            pending: self.pending,
            task: self.task,
        }
    }
}

/// A step after which a command is dealt with.
fn finish(mut effects: Vec<Effect>) -> (res: Step)
    ensures
        res@ == finished(effect_views(effects@)),
{
    let user_data: u64 = u64::from(UserData::new(UserDataOpType::BulkOutReadHeader, None));
    push_effect(&mut effects, Effect::ReadBulkOut { user_data });
    Step { effects, next: Next::Wait }
}

/// No effects.
fn no_effects() -> (res: Vec<Effect>)
    ensures
        effect_views(res@) == Seq::<EffectView>::empty(),
{
    let res: Vec<Effect> = Vec::new();
    assert(effect_views(res@) =~= Seq::empty());
    res
}

impl AdbConnection {
    /// The parts of the connection make sense by themselves.
    closed spec fn sound(self) -> bool {
        self.streams.wf()
    }

    /// The connection makes sense.
    pub closed spec fn wf(self) -> bool {
        &&& self.sound()
        &&& self@.inv()
    }

    /// A connection has eight write buffers.
    pub proof fn slot_count_of(self)
        ensures
            self@.slots.len() == MAX_BUFFER_SLOTS,
    {
        slot_count(self.buffers);
    }

    /// Creates a new ADB connection.
    pub fn new(info: DeviceInfo) -> (res: Self)
        ensures
            res.wf(),
            res@ == (ConnectionView {
                version: ProtocolVersion::V0,
                identity: identity_payload(info),
                streams: StreamsView { streams: Map::empty(), next_id: 1 },
                slots: Seq::new(8, |i: int| None::<Seq<u8>>),
                pending: None,
                task: Task::Idle,
            }),
    {
        let res = AdbConnection {
            info,
            buffers: BufferManager::new(),
            streams: StreamManager::new(),
            version: ProtocolVersion::V0,
            pending: None,
            task: Task::Idle,
        };
        assert forall|id: u32| #[trigger] res@.has(id) implies res@.settled(id) by {
            assert(!res@.streams.streams.contains_key(id));
        }
        res
    }

    /// What is submitted first: a poll on ep0, and the read of a message header.
    pub fn start(&self) -> (effects: Vec<Effect>)
        ensures
            effect_views(effects@) == seq![
                EffectView::PollEp0(poll_tag()),
                EffectView::ReadBulkOut(header_tag()),
            ],
    {
        let mut effects: Vec<Effect> = no_effects();
        let poll: u64 = u64::from(UserData::new(UserDataOpType::Ep0Poll, None));
        push_effect(&mut effects, Effect::PollEp0 { user_data: poll });
        let read: u64 = u64::from(UserData::new(UserDataOpType::BulkOutReadHeader, None));
        push_effect(&mut effects, Effect::ReadBulkOut { user_data: read });
        assert(effect_views(effects@) =~= seq![
            EffectView::PollEp0(poll_tag()),
            EffectView::ReadBulkOut(header_tag()),
        ]);
        effects
    }

    /// Whether a question is open.
    pub fn is_asking(&self) -> (res: bool)
        ensures
            res == !(self@.task is Idle),
    {
        match self.task {
            Task::Idle => false,
            _ => true,
        }
    }

    /// How many write buffers are free.
    pub fn free_slots(&self) -> (res: usize)
        ensures
            res == free_slots(self@.slots),
    {
        self.buffers.free_count()
    }

    /// What a write buffer holds, if it is in use.
    pub fn slot_contents(&self, slot: u32) -> (res: Option<&[u8]>)
        requires
            1 <= slot <= self@.slots.len(),
        ensures
            match res {
                Some(bytes) => self@.slots[slot - 1] == Some(bytes@),
                None => self@.slots[slot - 1] is None,
            },
    {
        proof {
            slot_count(self.buffers);
        }
        self.buffers.contents(slot)
    }

    /// Puts a message (header + payload, if that is not empty) into write buffers, and returns
    /// the writes to submit.
    pub fn submit_message(&mut self, header: &AdbHeader, payload: &[u8]) -> (res: Vec<WriteOp>)
        requires
            old(self).wf(),
            free_slots(old(self)@.slots) >= slots_needed(payload@),
        ensures
            final(self).wf(),
            (final(self)@.slots, res@) == submitted(old(self)@.slots, header.wire(), payload@),
            final(self)@ == (ConnectionView { slots: final(self)@.slots, ..old(self)@ }),
    {
        let ghost c = self@;
        let linked: bool = payload.len() > 0;
        let mut writes: Vec<WriteOp> = Vec::new();
        let bytes: Vec<u8> = header.to_bytes();
        let slot: u32 = self.write_buffer(bytes.as_slice());
        proof {
            free_slots_after_update(c.slots, slot - 1, Some(header.wire()));
        }
        let user_data: u64 = u64::from(UserData::new(UserDataOpType::BulkInWrite, Some(slot)));
        writes.push(WriteOp { slot, user_data, linked });
        if linked {
            let slot: u32 = self.write_buffer(payload);
            let user_data: u64 = u64::from(UserData::new(UserDataOpType::BulkInWrite, Some(slot)));
            writes.push(WriteOp { slot, user_data, linked: false });
        }
        proof {
            assert(writes@ =~= submitted(c.slots, header.wire(), payload@).1);
            assert forall|id: u32| #[trigger] self@.has(id) implies self@.settled(id) by {
                assert(c.has(id));
            }
        }
        writes
    }

    /// Puts bytes into the first free write buffer, and returns its number.
    fn write_buffer(&mut self, bytes: &[u8]) -> (slot: u32)
        requires
            old(self).sound(),
            free_slots(old(self)@.slots) > 0,
        ensures
            final(self).sound(),
            first_free(old(self)@.slots) < old(self)@.slots.len() <= 8,
            old(self)@.slots[first_free(old(self)@.slots) as int] is None,
            slot == first_free(old(self)@.slots) + 1,
            final(self)@ == (ConnectionView {
                slots: old(self)@.slots.update(first_free(old(self)@.slots) as int, Some(bytes@)),
                ..old(self)@
            }),
    {
        proof {
            slot_count(self.buffers);
        }
        let (slot, buffer) = self.buffers.allocate(bytes.len());
        push_bytes(buffer, bytes);
        assert(buffer@ =~= bytes@);
        slot
    }

    /// Whether the connection can handle a completion.
    pub fn admits(&self, user_data: u64, res: i32, data: &[u8]) -> (ok: bool)
        requires
            self.wf(),
        ensures
            ok == admitted(self@, user_data, res, data@),
    {
        let tag = match UserData::try_from(user_data) {
            Ok(tag) => tag,
            Err(_) => {
                return true;
            },
        };
        let short: bool = data.len() <= MAX_PAYLOAD_V1 as usize;
        match tag.op_type() {
            UserDataOpType::Ep0Poll => true,
            UserDataOpType::PtyRead => tag.data().is_some() && (res <= 0 || short),
            UserDataOpType::BulkInWrite => {
                proof {
                    slot_count(self.buffers);
                }
                match tag.data() {
                    Some(slot) => 1 <= slot && slot <= 8,
                    None => res < 0,
                }
            },
            UserDataOpType::BulkOutReadHeader => {
                if res < 0 {
                    return true;
                }
                let mut rest: &[u8] = data;
                short && match parse_header(&mut rest) {
                    Ok(header) => header.data_length > 0 || self.allows(&header, None),
                    Err(_) => true,
                }
            },
            UserDataOpType::BulkOutReadPayload => {
                if res < 0 {
                    return true;
                }
                short && match &self.pending {
                    Some(header) => !self.is_intact(header, data) || self.allows(
                        header,
                        Some(data),
                    ),
                    None => true,
                }
            },
        }
    }

    /// Whether the protocol allows a message in this state.
    fn allows(&self, header: &AdbHeader, payload: Option<&[u8]>) -> (ok: bool)
        requires
            self.sound(),
        ensures
            ok == allowed(
                self@,
                *header,
                match payload {
                    Some(data) => Some(data@),
                    None => None,
                },
            ),
    {
        match header.command {
            Command::Cnxn => {
                let version = match ProtocolVersion::try_from(header.arg0) {
                    Ok(version) => version,
                    Err(_) => ProtocolVersion::V0,
                };
                payload.is_some() && is_sendable(version, identity_bytes(&self.info).as_slice())
            },
            Command::Open => match payload {
                Some(data) => parse_open(data).is_none() || self.streams.next_local_id() < u32::MAX,
                None => false,
            },
            Command::Wrte => payload.is_some() && !self.is_reboot(header.arg1),
            Command::Okay => payload.is_none() && !self.is_reboot(header.arg1),
            Command::Clse => match self.streams.get(header.arg1) {
                Some(stream) => stream.remote_id == header.arg0,
                None => true,
            },
            _ => true,
        }
    }

    /// Whether a stream is there to reboot the device.
    fn is_reboot(&self, local_id: u32) -> (res: bool)
        requires
            self.sound(),
        ensures
            res == (self@.has(local_id) && self@.stream(local_id).service is Reboot),
    {
        match self.streams.get(local_id) {
            Some(stream) => matches!(stream.service, Service::Reboot),
            None => false,
        }
    }

    /// Whether a reply is one to the question that is open.
    pub fn accepts(&self, reply: &Reply) -> (ok: bool)
        requires
            self.wf(),
        ensures
            ok == fitting(self@, reply@),
    {
        match self.task {
            Task::Idle => false,
            Task::Ep0Event => matches!(reply, Reply::Ep0Event(_)),
            Task::StartShell { .. } | Task::Connect { .. } | Task::WriteInput { .. } => {
                matches!(reply, Reply::Done | Reply::Failed)
            },
            Task::File { local_id } => match (reply, self.streams.get(local_id)) {
                (Reply::File(reply), Some(stream)) => match &stream.service {
                    Service::Sync(service) => service.accepts(reply),
                    _ => false,
                },
                _ => false,
            },
            Task::ReadChunk { .. } => match reply {
                Reply::Chunk(read) => read.is_fitting(),
                _ => false,
            },
        }
    }

    /// Appends a CLSE message.
    fn send_clse(&self, effects: &mut Vec<Effect>, local_id: u32, remote_id: u32)
        ensures
            effect_views(final(effects)@) == effect_views(old(effects)@).push(
                self@.clse(local_id, remote_id),
            ),
    {
        let header = clse_header(self.version, local_id, remote_id);
        push_effect(effects, Effect::Send { header, payload: Vec::new() });
    }

    /// Appends an OKAY message.
    fn send_okay(&self, effects: &mut Vec<Effect>, local_id: u32, remote_id: u32)
        ensures
            effect_views(final(effects)@) == effect_views(old(effects)@).push(
                self@.okay(local_id, remote_id),
            ),
    {
        let header = okay_header(self.version, local_id, remote_id);
        push_effect(effects, Effect::Send { header, payload: Vec::new() });
    }

    /// Appends a WRTE message.
    fn send_wrte(
        &self,
        effects: &mut Vec<Effect>,
        local_id: u32,
        remote_id: u32,
        payload: Vec<u8>,
    )
        requires
            payload@.len() <= RESPONSE_MAX_BYTES + 8,
        ensures
            effect_views(final(effects)@) == effect_views(old(effects)@).push(
                self@.wrte(local_id, remote_id, payload@),
            ),
    {
        proof {
            lemma_byte_sum_bound(payload@);
        }
        let header = wrte_header(self.version, local_id, remote_id, payload.as_slice());
        push_effect(effects, Effect::Send { header, payload });
    }

    /// Handles CLSE: acknowledges and tears down the stream.
    fn handle_command_clse(&mut self, header: &AdbHeader) -> (res: Step)
        requires
            old(self).sound(),
            allowed(old(self)@, *header, None),
            header.command is Clse,
        ensures
            final(self).sound(),
            (final(self)@, res@) == on_clse(old(self)@, *header),
    {
        let local_id: u32 = header.arg1;
        let mut effects: Vec<Effect> = no_effects();
        let (remote_id, forwards): (u32, bool) = match self.streams.get(local_id) {
            Some(stream) => (stream.remote_id, matches!(stream.service, Service::Forward)),
            None => {
                return finish(effects);
            },
        };
        self.send_clse(&mut effects, local_id, remote_id);
        if forwards {
            push_effect(&mut effects, Effect::ShutdownWrite { local_id });
        }
        push_effect(&mut effects, Effect::CloseStream { local_id });
        self.streams.close(local_id);
        finish(effects)
    }

    /// Handles CNXN: negotiates protocol version and sends the connection response.
    fn handle_command_cnxn(&mut self, header: &AdbHeader) -> (res: Step)
        requires
            old(self).sound(),
            sendable(negotiated(header.arg0), old(self)@.identity),
        ensures
            final(self).sound(),
            (final(self)@, res@) == on_cnxn(old(self)@, *header),
    {
        let version = match ProtocolVersion::try_from(header.arg0) {
            Ok(version) => version,
            Err(_) => ProtocolVersion::V0,
        };
        self.version = version;
        let (answer, payload) = cnxn_response(version, &self.info);
        let mut effects: Vec<Effect> = no_effects();
        push_effect(&mut effects, Effect::Send { header: answer, payload });
        assert(effect_views(effects@) =~= seq![EffectView::Send(answer, payload@)]);
        finish(effects)
    }

    /// Asks for the next chunk of a file if the stream sends one and is ready.
    fn maybe_submit_wrte_sync(&mut self, local_id: u32, effects: Vec<Effect>) -> (res: Step)
        requires
            old(self).sound(),
            old(self)@.has(local_id),
            old(self)@.stream(local_id).service matches ServiceView::Sync(service)
                && service.stage is Ready,
        ensures
            final(self).sound(),
            (final(self)@, res@) == frame_due(old(self)@, local_id, effect_views(effects@)),
    {
        let ghost before = self@;
        proof {
            self.streams.ids_in_use();
        }
        let mut wanted: bool = false;
        match self.streams.take(local_id) {
            None => unreached(),
            Some(stream) => match stream.service {
                Service::Sync(mut service) => {
                    if !stream.waiting_for_okay {
                        wanted = service.wants_chunk();
                    }
                    self.streams.put(
                        local_id,
                        Stream {
                            remote_id: stream.remote_id,
                            service: Service::Sync(service),
                            waiting_for_okay: stream.waiting_for_okay,
                        },
                    );
                },
                _ => unreached(),
            },
        }
        assert(self@.streams.streams =~= before.streams.streams.insert(
            local_id,
            self@.streams.streams[local_id],
        ));
        proof {
            if self@.stream(local_id) == before.stream(local_id) {
                assert(self@.streams.streams =~= before.streams.streams);
            }
        }
        if wanted {
            self.task = Task::ReadChunk { local_id };
            Step { effects, next: Next::Ask(Request::ReadChunk { local_id }) }
        } else {
            finish(effects)
        }
    }

    /// Appends a read on the shell or the socket of a stream that is ready for more output.
    fn maybe_submit_pty_read(&self, local_id: u32, effects: &mut Vec<Effect>)
        requires
            self.sound(),
        ensures
            effect_views(final(effects)@) == read_due(
                self@,
                local_id,
                effect_views(old(effects)@),
            ),
    {
        proof {
            self.streams.ids_in_use();
        }
        if let Some(stream) = self.streams.get(local_id) {
            if stream.waiting_for_okay {
                return ;
            }
            match stream.service {
                Service::Shell | Service::Forward => {
                    let user_data: u64 = u64::from(
                        UserData::new(UserDataOpType::PtyRead, Some(local_id)),
                    );
                    push_effect(effects, Effect::ReadStream { local_id, user_data });
                },
                _ => {},
            }
        }
    }

    /// Drives any pending work on the given stream (e.g. file transfer chunks).
    fn maybe_continue_stream(&mut self, local_id: u32) -> (res: Step)
        requires
            old(self).sound(),
            old(self)@.has(local_id) ==> old(self)@.settled(local_id),
            old(self)@.task is Idle,
        ensures
            final(self).sound(),
            (final(self)@, res@) == continued(old(self)@, local_id),
    {
        let mut effects: Vec<Effect> = no_effects();
        let syncs: bool = match self.streams.get(local_id) {
            Some(stream) => matches!(stream.service, Service::Sync(_)),
            None => false,
        };
        if syncs {
            self.maybe_submit_wrte_sync(local_id, effects)
        } else {
            self.maybe_submit_pty_read(local_id, &mut effects);
            finish(effects)
        }
    }

    /// Handles OKAY: marks the stream as ready and continues any pending transfer.
    fn handle_command_okay(&mut self, header: &AdbHeader) -> (res: Step)
        requires
            old(self).sound(),
            old(self)@.inv(),
            old(self)@.task is Idle,
        ensures
            final(self).sound(),
            (final(self)@, res@) == on_okay(old(self)@, *header),
    {
        let ghost before = self@;
        let local_id: u32 = header.arg1;
        proof {
            self.streams.ids_in_use();
        }
        match self.streams.take(local_id) {
            Some(mut stream) => {
                assert(before.has(local_id));
                stream.waiting_for_okay = false;
                self.streams.put(local_id, stream);
                assert(self@.streams.streams =~= before.streams.streams.insert(
                    local_id,
                    self@.streams.streams[local_id],
                ));
            },
            None => {
                assert(self@.streams.streams =~= before.streams.streams);
            },
        }
        self.maybe_continue_stream(local_id)
    }

    /// Deals with the result of a sync request.
    fn finish_sync(&mut self, local_id: u32, mut effects: Vec<Effect>, result: SyncResult) -> (res:
        Step)
        requires
            old(self).sound(),
            old(self)@.has(local_id),
            old(self)@.stream(local_id).service matches ServiceView::Sync(service)
                && service.stage is Ready,
            result@ matches SyncResultView::Data(frame) ==> frame.1.len() <= RESPONSE_MAX_BYTES,
        ensures
            final(self).sound(),
            (final(self)@, res@) == on_sync_result(
                old(self)@,
                local_id,
                effect_views(effects@),
                result@,
            ),
    {
        let remote_id: u32 = match self.streams.get(local_id) {
            Some(stream) => stream.remote_id,
            None => unreached(),
        };
        match result {
            SyncResult::Stat(stat) => {
                self.send_wrte(&mut effects, local_id, remote_id, stat.to_bytes());
                finish(effects)
            },
            SyncResult::Data(header, payload) => {
                self.submit_wrte_sync(
                    &mut effects,
                    local_id,
                    remote_id,
                    &header,
                    payload.as_slice(),
                );
                finish(effects)
            },
            SyncResult::Continue => self.maybe_submit_wrte_sync(local_id, effects),
            SyncResult::Quit => self.hang_up(local_id, remote_id, effects),
        }
    }

    /// Closes a stream from this side.
    fn hang_up(&mut self, local_id: u32, remote_id: u32, mut effects: Vec<Effect>) -> (res: Step)
        requires
            old(self).sound(),
            remote_id == old(self)@.stream(local_id).remote_id,
        ensures
            final(self).sound(),
            (final(self)@, res@) == hung_up(old(self)@, local_id, effect_views(effects@)),
    {
        self.send_clse(&mut effects, local_id, remote_id);
        push_effect(&mut effects, Effect::CloseStream { local_id });
        self.streams.close(local_id);
        finish(effects)
    }

    /// Appends a WRTE containing a sync response frame (header + payload).
    fn submit_wrte_sync(
        &self,
        effects: &mut Vec<Effect>,
        local_id: u32,
        remote_id: u32,
        header: &SyncFrameResponseHeader,
        payload: &[u8],
    )
        requires
            payload@.len() <= RESPONSE_MAX_BYTES,
        ensures
            effect_views(final(effects)@) == effect_views(old(effects)@).push(
                self@.wrte(local_id, remote_id, response_bytes((*header, payload@))),
            ),
    {
        let frame: Vec<u8> = header.frame(payload);
        self.send_wrte(effects, local_id, remote_id, frame);
    }

    /// Goes on after a step of the sync service of a stream.
    fn follow_sync(&mut self, local_id: u32, mut effects: Vec<Effect>, step: SyncStep) -> (res: Step)
        requires
            old(self).sound(),
            old(self)@.has(local_id),
            old(self)@.stream(local_id).service matches ServiceView::Sync(service) && (
            step@.next is Finished ==> service.stage is Ready),
            step@.fits(),
        ensures
            final(self).sound(),
            (final(self)@, res@) == on_sync_step(
                old(self)@,
                local_id,
                effect_views(effects@),
                step@,
            ),
    {
        if let Some(effect) = step.effect {
            push_effect(&mut effects, Effect::File { local_id, effect });
        }
        match step.next {
            SyncNext::Ask(request) => {
                self.task = Task::File { local_id };
                Step { effects, next: Next::Ask(Request::File { local_id, request }) }
            },
            SyncNext::Finished(result) => self.finish_sync(local_id, effects, result),
        }
    }

    /// Handles OPEN: creates a stream for the requested service.
    fn handle_command_open(&mut self, header: &AdbHeader, payload: &[u8]) -> (res: Step)
        requires
            old(self).sound(),
            requested_service(payload@) is Some ==> old(self)@.streams.next_id < u32::MAX,
        ensures
            final(self).sound(),
            (final(self)@, res@) == on_open(old(self)@, *header, payload@),
    {
        let remote_id: u32 = header.arg0;
        let mut effects: Vec<Effect> = no_effects();
        let ghost c = self@;
        let request: ServiceRequest = match parse_open(payload) {
            Some(request) => request,
            None => {
                self.send_clse(&mut effects, 0, remote_id);
                assert(effect_views(effects@) =~= seq![c.clse(0, remote_id)]);
                return finish(effects);
            },
        };
        let local_id: u32 = self.streams.next_local_id();
        match request {
            ServiceRequest::Sync => {
                let _local_id = self.streams.open(remote_id, Service::Sync(SyncService::new()));
                self.send_okay(&mut effects, local_id, remote_id);
                assert(effect_views(effects@) =~= seq![c.okay(local_id, remote_id)]);
                finish(effects)
            },
            ServiceRequest::Reboot => {
                let _local_id = self.streams.open(remote_id, Service::Reboot);
                self.send_okay(&mut effects, local_id, remote_id);
                push_effect(&mut effects, Effect::Reboot);
                assert(effect_views(effects@) =~= seq![
                    c.okay(local_id, remote_id),
                    EffectView::Reboot,
                ]);
                finish(effects)
            },
            ServiceRequest::Shell { command } => {
                self.task = Task::StartShell { remote_id };
                Step { effects, next: Next::Ask(Request::StartShell { local_id, command }) }
            },
            ServiceRequest::Forward(destination) => {
                self.task = Task::Connect { remote_id };
                Step { effects, next: Next::Ask(Request::Connect { local_id, destination }) }
            },
        }
    }

    /// Opens a stream for a shell that was spawned or a socket that was connected, or tells the
    /// host that it was not.
    fn finish_open(&mut self, remote_id: u32, service: Service, ok: bool) -> (res: Step)
        requires
            old(self).sound(),
            service is Shell || service is Forward,
            old(self)@.streams.next_id < u32::MAX,
        ensures
            final(self).sound(),
            (final(self)@, res@) == on_started(old(self)@, remote_id, service@, ok),
    {
        let ghost c = self@;
        let mut effects: Vec<Effect> = no_effects();
        if ok {
            let local_id: u32 = self.streams.open(remote_id, service);
            self.send_okay(&mut effects, local_id, remote_id);
            self.maybe_submit_pty_read(local_id, &mut effects);
            assert(effect_views(effects@) =~= seq![
                c.okay(local_id, remote_id),
                EffectView::ReadStream(local_id, stream_tag(local_id)),
            ]);
            finish(effects)
        } else {
            self.send_clse(&mut effects, 0, remote_id);
            assert(effect_views(effects@) =~= seq![c.clse(0, remote_id)]);
            finish(effects)
        }
    }

    /// Handles WRTE: dispatches payload data to the stream's service handler.
    fn handle_command_wrte(&mut self, header: &AdbHeader, payload: &[u8]) -> (res: Step)
        requires
            old(self).sound(),
            old(self)@.inv(),
            old(self)@.task is Idle,
            old(self)@.has(header.arg1) ==> !(old(self)@.stream(header.arg1).service is Reboot),
            payload@.len() <= MAX_PAYLOAD_V1,
        ensures
            final(self).sound(),
            (final(self)@, res@) == on_wrte(old(self)@, *header, payload@),
    {
        let local_id: u32 = header.arg1;
        let ghost c = self@;
        proof {
            self.streams.ids_in_use();
        }
        let mut effects: Vec<Effect> = no_effects();
        self.send_okay(&mut effects, local_id, header.arg0);
        assert(effect_views(effects@) =~= seq![c.okay(local_id, header.arg0)]);
        match self.streams.take(local_id) {
            None => {
                assert(self@.streams.streams =~= c.streams.streams);
                finish(effects)
            },
            Some(stream) => {
                assert(c.has(local_id));
                match stream.service {
                    Service::Sync(mut service) => {
                        proof {
                            waits_for_what_it_asked(service@, payload@, FileReplyView::Done);
                        }
                        let step = service.handle(payload);
                        self.streams.put(
                            local_id,
                            Stream {
                                remote_id: stream.remote_id,
                                service: Service::Sync(service),
                                waiting_for_okay: stream.waiting_for_okay,
                            },
                        );
                        assert(self@.streams.streams =~= c.streams.streams.insert(
                            local_id,
                            self@.streams.streams[local_id],
                        ));
                        self.follow_sync(local_id, effects, step)
                    },
                    service => {
                        self.streams.put(
                            local_id,
                            Stream {
                                remote_id: stream.remote_id,
                                service,
                                waiting_for_okay: stream.waiting_for_okay,
                            },
                        );
                        assert(self@.streams.streams =~= c.streams.streams);
                        self.task = Task::WriteInput { local_id };
                        Step {
                            effects,
                            next: Next::Ask(
                                Request::WriteInput { local_id, data: slice_to_vec(payload) },
                            ),
                        }
                    },
                }
            },
        }
    }

    /// Dispatches a fully parsed ADB command.
    fn handle_command(&mut self, header: &AdbHeader, payload: Option<&[u8]>) -> (res: Step)
        requires
            old(self).sound(),
            old(self)@.inv(),
            old(self)@.task is Idle,
            payload matches Some(data) ==> data@.len() <= MAX_PAYLOAD_V1,
            allowed(
                old(self)@,
                *header,
                match payload {
                    Some(data) => Some(data@),
                    None => None,
                },
            ),
        ensures
            final(self).sound(),
            (final(self)@, res@) == commanded(
                old(self)@,
                *header,
                match payload {
                    Some(data) => Some(data@),
                    None => None,
                },
            ),
    {
        match (header.command, payload) {
            (Command::Cnxn, Some(_)) => self.handle_command_cnxn(header),
            (Command::Open, Some(data)) => self.handle_command_open(header, data),
            (Command::Wrte, Some(data)) => self.handle_command_wrte(header, data),
            (Command::Okay, None) => self.handle_command_okay(header),
            (Command::Clse, _) => self.handle_command_clse(header),
            _ => finish(no_effects()),
        }
    }

    /// Handles the completion of a header read.
    fn handle_header(&mut self, data: &[u8]) -> (res: Step)
        requires
            old(self).sound(),
            old(self)@.inv(),
            old(self)@.task is Idle,
            parsed_header(data@) matches Ok(header) ==> header.data_length > 0 || allowed(
                old(self)@,
                header,
                None,
            ),
        ensures
            final(self).sound(),
            (final(self)@, res@) == on_header(old(self)@, data@),
    {
        let mut rest: &[u8] = data;
        match parse_header(&mut rest) {
            Ok(header) => {
                if header.data_length > 0 {
                    self.pending = Some(header);
                    let user_data: u64 = u64::from(
                        UserData::new(UserDataOpType::BulkOutReadPayload, None),
                    );
                    let mut effects: Vec<Effect> = no_effects();
                    push_effect(&mut effects, Effect::ReadBulkOut { user_data });
                    assert(effect_views(effects@) =~= seq![EffectView::ReadBulkOut(payload_tag())]);
                    Step { effects, next: Next::Wait }
                } else {
                    self.handle_command(&header, None)
                }
            },
            Err(_) => finish(no_effects()),
        }
    }

    /// Whether a payload is the one that its header announced, as far as that is checked.
    fn is_intact(&self, header: &AdbHeader, data: &[u8]) -> (res: bool)
        requires
            data@.len() <= MAX_PAYLOAD_V1,
        ensures
            res == intact(self@, *header, data@),
    {
        proof {
            lemma_byte_sum_bound(data@);
        }
        !self.version.requires_checksum() || checksum(data) == header.data_check
    }

    /// Handles the completion of a payload read.
    fn handle_payload(&mut self, data: &[u8]) -> (res: Step)
        requires
            old(self).sound(),
            old(self)@.inv(),
            old(self)@.task is Idle,
            data@.len() <= MAX_PAYLOAD_V1,
            old(self)@.pending matches Some(header) ==> !intact(old(self)@, header, data@)
                || allowed(old(self)@, header, Some(data@)),
        ensures
            final(self).sound(),
            (final(self)@, res@) == on_payload(old(self)@, data@),
    {
        let ghost c = self@;
        match self.pending.take() {
            Some(header) => {
                proof {
                    lemma_pending_is_no_matter(c, None);
                }
                if self.is_intact(&header, data) {
                    self.handle_command(&header, Some(data))
                } else {
                    finish(no_effects())
                }
            },
            None => finish(no_effects()),
        }
    }

    /// Handles the completion of a read on a shell or socket.
    fn handle_output(&mut self, local_id: u32, res: i32, data: &[u8]) -> (step: Step)
        requires
            old(self).sound(),
            res > 0 ==> data@.len() <= MAX_PAYLOAD_V1,
        ensures
            final(self).sound(),
            (final(self)@, step@) == on_output(old(self)@, local_id, res, data@),
    {
        let ghost c = self@;
        proof {
            self.streams.ids_in_use();
        }
        let mut effects: Vec<Effect> = no_effects();
        let (remote_id, reads): (u32, bool) = match self.streams.get(local_id) {
            Some(stream) => (
                stream.remote_id,
                matches!(stream.service, Service::Shell | Service::Forward),
            ),
            None => {
                return Step { effects, next: Next::Wait };
            },
        };
        if res <= 0 {
            self.send_clse(&mut effects, local_id, remote_id);
            push_effect(&mut effects, Effect::CloseStream { local_id });
            self.streams.close(local_id);
            assert(effect_views(effects@) =~= seq![
                c.clse(local_id, remote_id),
                EffectView::CloseStream(local_id),
            ]);
        } else if reads {
            if let Some(mut stream) = self.streams.take(local_id) {
                stream.waiting_for_okay = true;
                self.streams.put(local_id, stream);
            }
            assert(self@.streams.streams =~= c.streams.streams.insert(
                local_id,
                StreamView { waiting_for_okay: true, ..c.stream(local_id) },
            ));
            self.send_wrte(&mut effects, local_id, remote_id, slice_to_vec(data));
            assert(effect_views(effects@) =~= seq![c.wrte(local_id, remote_id, data@)]);
        }
        Step { effects, next: Next::Wait }
    }

    /// Handles the completion of an operation.
    ///
    /// `res` is the result of the operation, and `data` what a read has read.
    pub fn complete(&mut self, user_data: u64, res: i32, data: &[u8]) -> (step: Step)
        requires
            old(self).wf(),
            old(self)@.task is Idle,
            admitted(old(self)@, user_data, res, data@),
        ensures
            final(self).wf(),
            (final(self)@, step@) == completed(old(self)@, user_data, res, data@),
    {
        proof {
            slot_count(self.buffers);
            inv_after_completion(self@, user_data, res, data@);
        }
        let tag = match UserData::try_from(user_data) {
            Ok(tag) => tag,
            Err(_) => {
                return Step { effects: no_effects(), next: Next::Wait };
            },
        };
        match (tag.op_type(), tag.data()) {
            (UserDataOpType::PtyRead, Some(local_id)) => self.handle_output(local_id, res, data),
            (UserDataOpType::BulkInWrite, Some(slot)) => {
                self.buffers.free(slot);
                Step { effects: no_effects(), next: Next::Wait }
            },
            (op_type, _) => {
                if res < 0 {
                    return Step {
                        effects: no_effects(),
                        next: Next::Fail { op_type, result: res },
                    };
                }
                match op_type {
                    UserDataOpType::Ep0Poll => {
                        self.task = Task::Ep0Event;
                        Step { effects: no_effects(), next: Next::Ask(Request::Ep0Event) }
                    },
                    UserDataOpType::BulkOutReadHeader => self.handle_header(data),
                    UserDataOpType::BulkOutReadPayload => self.handle_payload(data),
                    _ => Step { effects: no_effects(), next: Next::Wait },
                }
            },
        }
    }

    /// Goes on with the reply to the question that is open.
    pub fn reply(&mut self, reply: Reply) -> (res: Step)
        requires
            old(self).wf(),
            fitting(old(self)@, reply@),
        ensures
            final(self).wf(),
            (final(self)@, res@) == answered(old(self)@, reply@),
    {
        proof {
            inv_after_reply(self@, reply@);
        }
        let task: Task = self.task;
        self.task = Task::Idle;
        match (task, reply) {
            (Task::Ep0Event, Reply::Ep0Event(event)) => self.handle_ep0_event(event),
            (Task::StartShell { remote_id }, reply) => {
                self.finish_open(remote_id, Service::Shell, matches!(reply, Reply::Done))
            },
            (Task::Connect { remote_id }, reply) => {
                self.finish_open(remote_id, Service::Forward, matches!(reply, Reply::Done))
            },
            (Task::WriteInput { local_id }, Reply::Failed) => {
                let remote_id: u32 = match self.streams.get(local_id) {
                    Some(stream) => stream.remote_id,
                    None => unreached(),
                };
                self.hang_up(local_id, remote_id, no_effects())
            },
            (Task::File { local_id }, Reply::File(reply)) => self.reply_file(local_id, reply),
            (Task::ReadChunk { local_id }, Reply::Chunk(read)) => self.reply_chunk(local_id, read),
            _ => finish(no_effects()),
        }
    }

    /// Handles the ep0 events: the connection stops, ep0 is polled again, or the connection fails.
    fn handle_ep0_event(&self, event: Option<Vec<u8>>) -> (res: Step)
        ensures
            res@ == (match event {
                Some(bytes) => on_ep0_event(event_of(bytes@)),
                None => StepView { effects: Seq::empty(), next: NextView::Ep0Failed(None) },
            }),
    {
        let mut effects: Vec<Effect> = no_effects();
        let bytes: Vec<u8> = match event {
            Some(bytes) => bytes,
            None => {
                return Step { effects, next: Next::Ep0Failed { error: None } };
            },
        };
        match decode_event(bytes.as_slice()) {
            Ok(event) => {
                if is_connection_end(event) {
                    return Step { effects, next: Next::Stop };
                }
                let user_data: u64 = u64::from(UserData::new(UserDataOpType::Ep0Poll, None));
                push_effect(&mut effects, Effect::PollEp0 { user_data });
                assert(effect_views(effects@) =~= seq![EffectView::PollEp0(poll_tag())]);
                Step { effects, next: Next::Wait }
            },
            Err(e) => Step { effects, next: Next::Ep0Failed { error: Some(e) } },
        }
    }

    /// Hands the outcome of a file request to the sync service of a stream.
    fn reply_file(&mut self, local_id: u32, reply: FileReply) -> (res: Step)
        requires
            old(self).sound(),
            old(self)@.has(local_id),
            old(self)@.stream(local_id).service matches ServiceView::Sync(service) && answers(
                service.stage,
                reply@,
            ),
        ensures
            final(self).sound(),
            old(self)@.stream(local_id).service matches ServiceView::Sync(service) && ({
                let (next, step) = replied(service, reply@);
                (final(self)@, res@) == on_sync_step(
                    old(self)@.with_service(local_id, next),
                    local_id,
                    Seq::empty(),
                    step,
                )
            }),
    {
        let ghost c = self@;
        proof {
            self.streams.ids_in_use();
        }
        match self.streams.take(local_id) {
            None => unreached(),
            Some(stream) => match stream.service {
                Service::Sync(mut service) => {
                    proof {
                        waits_for_what_it_asked(service@, Seq::empty(), reply@);
                    }
                    let step = service.reply(reply);
                    self.streams.put(
                        local_id,
                        Stream {
                            remote_id: stream.remote_id,
                            service: Service::Sync(service),
                            waiting_for_okay: stream.waiting_for_okay,
                        },
                    );
                    assert(self@.streams.streams =~= c.streams.streams.insert(
                        local_id,
                        self@.streams.streams[local_id],
                    ));
                    self.follow_sync(local_id, no_effects(), step)
                },
                _ => unreached(),
            },
        }
    }

    /// Sends the frame for a chunk of the file that a stream sends.
    fn reply_chunk(&mut self, local_id: u32, read: ReadReply) -> (res: Step)
        requires
            old(self).sound(),
            old(self)@.has(local_id),
            old(self)@.stream(local_id).service == ServiceView::Sync(
                ready(SyncStateView::Sending(FileSender { done: false })),
            ),
            read@.fits(),
        ensures
            final(self).sound(),
            final(self)@ == old(self)@.with_stream(
                local_id,
                StreamView {
                    service: ServiceView::Sync(
                        ready(SyncStateView::Sending(FileSender { done: ends_file(read@) })),
                    ),
                    waiting_for_okay: true,
                    ..old(self)@.stream(local_id)
                },
            ),
            res@ == finished(
                seq![
                    old(self)@.wrte(
                        local_id,
                        old(self)@.stream(local_id).remote_id,
                        response_bytes(chunk_frame(read@)),
                    ),
                ],
            ),
    {
        let ghost c = self@;
        proof {
            self.streams.ids_in_use();
        }
        match self.streams.take(local_id) {
            None => unreached(),
            Some(stream) => match stream.service {
                Service::Sync(mut service) => {
                    let (header, payload) = service.chunk(read);
                    self.streams.put(
                        local_id,
                        Stream {
                            remote_id: stream.remote_id,
                            service: Service::Sync(service),
                            waiting_for_okay: true,
                        },
                    );
                    assert(self@.streams.streams =~= c.streams.streams.insert(
                        local_id,
                        self@.streams.streams[local_id],
                    ));
                    let mut effects: Vec<Effect> = no_effects();
                    self.submit_wrte_sync(
                        &mut effects,
                        local_id,
                        stream.remote_id,
                        &header,
                        payload.as_slice(),
                    );
                    assert(effect_views(effects@) =~= seq![
                        c.wrte(
                            local_id,
                            c.stream(local_id).remote_id,
                            response_bytes(chunk_frame(read@)),
                        ),
                    ]);
                    finish(effects)
                },
                _ => unreached(),
            },
        }
    }
}

/// Reads the service that an OPEN payload asks for.
fn parse_open(payload: &[u8]) -> (res: Option<ServiceRequest>)
    ensures
        match res {
            Some(request) => requested_service(payload@) == Some(request@),
            None => requested_service(payload@) is None,
        },
{
    let nul: usize = find_byte(payload, 0);
    if nul == payload.len() {
        return None;
    }
    let name: &[u8] = slice_subrange(payload, 0, nul);
    assert(name@ =~= payload@.take(nul as int));
    match from_utf8(name) {
        Ok(text) => {
            proof {
                encode_utf8_decode_utf8(text@);
            }
            match parse_service(text) {
                Ok(request) => Some(request),
                Err(_) => None,
            }
        },
        Err(_) => None,
    }
}

} // verus!
