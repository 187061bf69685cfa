//! What a connection promises as a whole, from one step to the next and over many of them.

use crate::buffers::{first_free, first_free_is_free, free_slots, free_slots_after_update};
use crate::bytes::{byte_sum, lemma_first_index, u32_bytes};
use crate::event::{EffectView, NextView, ReplyView, RequestView, StepView};
use crate::ffs::{event_of, EventError, UsbFunctionFsEventType};
use crate::message::{
    command_word, ordinary_payloads_can_be_sent, parse_undoes_write, parsed_header, sendable,
    version_word, AdbHeader, Command, ProtocolVersion,
};
use crate::session::{
    admitted, allowed, answered, commanded, completed, finished, fitting, header_tag, hung_up,
    intact, negotiated, on_cnxn, on_output, on_payload, on_started, on_sync_step, payload_tag,
    poll_tag, requested_service, slots_needed, stream_tag, submitted, ConnectionView, Task,
};
use crate::stream::{service_of, ServiceRequestView, ServiceView, StreamView, StreamsView};
use crate::sync::{
    parsed_packet, quit_is_read, received, request_bytes, sync_words_spell_their_names, PacketView,
    ReceiveEnd, Received, ReceiverView, RecvView, ID_DONE, ID_LSTAT_V1, ID_QUIT,
    PAYLOAD_SIZE_MAX_BYTES,
};
use crate::sync_service::{
    bare_response_view, chunk_frame, fail_response_view, file_message, handled, ready, receives,
    replied, response_word, stat_answers_the_request, stat_of, waits_for_what_it_asked,
    FileEffectView, FileReplyView, FileRequestView, FileSender, FileStat, ReadReplyView,
    SyncFrameResponseId, SyncNextView, SyncResultView, SyncServiceView, SyncStageView,
    SyncStateView, SyncStepView,
};
use crate::transfer::{
    announceable, answers_left, file_chunks, payload_follows_the_stream, pull_stream,
    pulled_file_is_the_file, push_outcome, push_puts_the_file_there, pushes, response_bytes,
    settled, settles, transfer_stream, Settled,
};
use crate::user_data::{decode_undoes_encode, UserData, UserDataError, UserDataOpType};
use vstd::prelude::*;
use vstd::utf8::{decode_utf8, encode_utf8, valid_utf8};

verus! {

/// Data from the host is acknowledged before anything is done with it.
pub proof fn data_is_acknowledged_first(c: ConnectionView, header: AdbHeader, payload: Seq<u8>)
    requires
        header.command is Wrte,
    ensures
        ({
            let effects = commanded(c, header, Some(payload)).1.effects;
            effects.len() > 0 && effects[0] == c.okay(header.arg1, header.arg0)
        }),
{
}

/// An OPEN for a service that does not exist, or whose name cannot be read, changes nothing; the
/// host is told that the stream is closed.
pub proof fn unknown_service_is_refused(c: ConnectionView, header: AdbHeader, payload: Seq<u8>)
    requires
        header.command is Open,
        requested_service(payload) is None,
    ensures
        commanded(c, header, Some(payload)) == (c, finished(seq![c.clse(0, header.arg0)])),
{
}

/// An OPEN whose shell cannot be spawned, or whose socket cannot be connected, leaves no stream
/// behind; the host is told that the stream is closed.
pub proof fn failed_start_is_refused(c: ConnectionView, remote_id: u32)
    requires
        c.task == (Task::StartShell { remote_id }) || c.task == (Task::Connect { remote_id }),
    ensures
        answered(c, ReplyView::Failed) == (
            c.with_task(Task::Idle),
            finished(seq![c.clse(0, remote_id)]),
        ),
{
}

/// A CLSE takes the stream away, and is answered by a CLSE for it.
pub proof fn close_is_answered(c: ConnectionView, header: AdbHeader, payload: Option<Seq<u8>>)
    requires
        header.command is Clse,
        c.has(header.arg1),
    ensures
        ({
            let (d, step) = commanded(c, header, payload);
            &&& !d.has(header.arg1)
            &&& step.effects[0] == c.clse(header.arg1, c.stream(header.arg1).remote_id)
            &&& step.effects.contains(EffectView::CloseStream(header.arg1))
        }),
{
    let effects = commanded(c, header, payload).1.effects;
    assert(effects[effects.len() - 2] == EffectView::CloseStream(header.arg1));
}

/// A CLSE for a stream that is gone is ignored.
pub proof fn second_close_is_ignored(
    c: ConnectionView,
    header: AdbHeader,
    payload: Option<Seq<u8>>,
)
    requires
        header.command is Clse,
        !c.has(header.arg1),
    ensures
        commanded(c, header, payload) == (c, finished(Seq::empty())),
{
}

/// The version is the one that the host asks for, or the first where the device does not know
/// it; from then on payloads are checked exactly if that is the first version.
pub proof fn version_is_negotiated(c: ConnectionView, header: AdbHeader, payload: Seq<u8>)
    requires
        header.command is Cnxn,
    ensures
        commanded(c, header, Some(payload)).0 == (ConnectionView {
            version: negotiated(header.arg0),
            ..c
        }),
        header.arg0 == version_word(ProtocolVersion::V1) <==> !commanded(
            c,
            header,
            Some(payload),
        ).0.version.checked(),
{
}

/// A payload whose sum is not the one that its header announced is dropped, where payloads are
/// checked.
pub proof fn mangled_payload_is_dropped(c: ConnectionView, header: AdbHeader, data: Seq<u8>)
    requires
        c.pending == Some(header),
        c.version.checked(),
        byte_sum(data) != header.data_check,
    ensures
        on_payload(c, data) == (
            ConnectionView { pending: None, ..c },
            finished(Seq::empty()),
        ),
{
}

/// A connection stops exactly where ep0 tells that the interface was disabled or the function
/// unbound. Where ep0 cannot be read, or gives something that is no event, the connection fails,
/// and any other event has ep0 polled again.
pub proof fn only_disable_and_unbind_stop(c: ConnectionView, event: Option<Seq<u8>>)
    requires
        c.task is Ep0Event,
    ensures
        ({
            let step = answered(c, ReplyView::Ep0Event(event)).1;
            &&& step.next is Stop <==> event is Some && (event_of(event->0) == Ok::<
                UsbFunctionFsEventType,
                EventError,
            >(UsbFunctionFsEventType::Disable) || event_of(event->0) == Ok::<
                UsbFunctionFsEventType,
                EventError,
            >(UsbFunctionFsEventType::Unbind))
            &&& event is None ==> step.next == NextView::Ep0Failed(None)
            &&& event is Some ==> (event_of(event->0) matches Err(e) ==> step.next
                == NextView::Ep0Failed(Some(e)))
            &&& step.next is Wait ==> step.effects == seq![EffectView::PollEp0(poll_tag())]
            &&& !(step.next is Wait) ==> step.effects == Seq::<EffectView>::empty()
            &&& step.next is Stop || step.next is Ep0Failed || step.next is Wait
        }),
{
}

/// How many reads on the bulk OUT endpoint are submitted.
pub open spec fn read_count(effects: Seq<EffectView>) -> nat
    decreases effects.len(),
{
    if effects.len() == 0 {
        0
    } else {
        read_count(effects.drop_last()) + if effects.last() is ReadBulkOut {
            1nat
        } else {
            0
        }
    }
}

/// One read is submitted if the step ends the work, and none while a question is open.
pub open spec fn reads_once(step: StepView) -> bool {
    &&& step.next is Wait || step.next is Ask
    &&& read_count(step.effects) == if step.next is Wait {
        1nat
    } else {
        0
    }
}

proof fn lemma_read_count_push(effects: Seq<EffectView>, effect: EffectView)
    ensures
        read_count(effects.push(effect)) == read_count(effects) + if effect is ReadBulkOut {
            1nat
        } else {
            0
        },
{
    assert(effects.push(effect).drop_last() =~= effects);
}

proof fn lemma_finished(effects: Seq<EffectView>)
    requires
        read_count(effects) == 0,
    ensures
        reads_once(finished(effects)),
{
    lemma_read_count_push(effects, EffectView::ReadBulkOut(header_tag()));
}

proof fn lemma_one_effect(effect: EffectView)
    ensures
        read_count(Seq::empty()) == 0,
        read_count(seq![effect]) == if effect is ReadBulkOut {
            1nat
        } else {
            0
        },
{
    lemma_read_count_push(Seq::empty(), effect);
}

proof fn lemma_sync_reads_once(
    c: ConnectionView,
    local_id: u32,
    before: Seq<EffectView>,
    step: SyncStepView,
)
    requires
        read_count(before) == 0,
    ensures
        reads_once(on_sync_step(c, local_id, before, step).1),
{
    let effects = match step.effect {
        Some(effect) => before.push(EffectView::File(local_id, effect)),
        None => before,
    };
    if let Some(effect) = step.effect {
        lemma_read_count_push(before, EffectView::File(local_id, effect));
    }
    assert(read_count(effects) == 0);
    lemma_finished(effects);
    if let SyncNextView::Finished(result) = step.next {
        let remote_id = c.stream(local_id).remote_id;
        match result {
            SyncResultView::Stat(stat) => {
                let sent = c.wrte(local_id, remote_id, stat.wire());
                lemma_read_count_push(effects, sent);
                lemma_finished(effects.push(sent));
            },
            SyncResultView::Data(frame) => {
                let sent = c.wrte(local_id, remote_id, response_bytes(frame));
                lemma_read_count_push(effects, sent);
                lemma_finished(effects.push(sent));
            },
            SyncResultView::Continue => {},
            SyncResultView::Quit => {
                lemma_hang_up_reads_once(c, local_id, effects);
            },
        }
    }
}

proof fn lemma_hang_up_reads_once(c: ConnectionView, local_id: u32, before: Seq<EffectView>)
    requires
        read_count(before) == 0,
    ensures
        reads_once(hung_up(c, local_id, before).1),
{
    let told = before.push(c.clse(local_id, c.stream(local_id).remote_id));
    lemma_read_count_push(before, c.clse(local_id, c.stream(local_id).remote_id));
    lemma_read_count_push(told, EffectView::CloseStream(local_id));
    lemma_finished(told.push(EffectView::CloseStream(local_id)));
}

/// However a message is dealt with, and whatever is asked on the way, exactly one new read of the
/// bulk OUT endpoint is submitted for it, at the end of the work: there is always one in flight
/// when the connection waits.
pub proof fn message_leads_to_one_read(
    c: ConnectionView,
    header: AdbHeader,
    payload: Option<Seq<u8>>,
)
    ensures
        reads_once(commanded(c, header, payload).1),
{
    let none = Seq::<EffectView>::empty();
    let local_id = header.arg1;
    let remote_id = header.arg0;
    lemma_finished(none);
    lemma_one_effect(c.clse(0, remote_id));
    lemma_one_effect(c.okay(local_id, remote_id));
    lemma_one_effect(c.okay(c.streams.next_id, remote_id));
    lemma_finished(seq![c.clse(0, remote_id)]);
    lemma_finished(seq![c.okay(local_id, remote_id)]);
    lemma_finished(seq![c.okay(c.streams.next_id, remote_id)]);
    match (header.command, payload) {
        (Command::Cnxn, Some(_)) => {
            let sent = on_cnxn(c, header).1.effects[0];
            lemma_one_effect(sent);
            lemma_finished(seq![sent]);
        },
        (Command::Open, Some(payload)) => {
            let okay = c.okay(c.streams.next_id, remote_id);
            assert(seq![okay, EffectView::Reboot] =~= seq![okay].push(EffectView::Reboot));
            lemma_read_count_push(seq![okay], EffectView::Reboot);
            lemma_finished(seq![okay, EffectView::Reboot]);
        },
        (Command::Wrte, Some(payload)) => {
            if c.has(local_id) {
                if let ServiceView::Sync(service) = c.stream(local_id).service {
                    let (next, step) = handled(service, payload);
                    lemma_sync_reads_once(
                        c.with_service(local_id, next),
                        local_id,
                        seq![c.okay(local_id, remote_id)],
                        step,
                    );
                }
            }
        },
        (Command::Okay, None) => {
            let stream = EffectView::ReadStream(local_id, stream_tag(local_id));
            lemma_read_count_push(none, stream);
            lemma_finished(none.push(stream));
        },
        (Command::Clse, _) => {
            if c.has(local_id) {
                let told = seq![c.clse(local_id, c.stream(local_id).remote_id)];
                let shut = told.push(EffectView::ShutdownWrite(local_id));
                let closed = EffectView::CloseStream(local_id);
                lemma_one_effect(c.clse(local_id, c.stream(local_id).remote_id));
                lemma_read_count_push(told, EffectView::ShutdownWrite(local_id));
                lemma_read_count_push(told, closed);
                lemma_read_count_push(shut, closed);
                lemma_finished(told.push(closed));
                lemma_finished(shut.push(closed));
            }
        },
        _ => {},
    }
}

/// The same holds of every later step of that work.
pub proof fn reply_leads_to_one_read(c: ConnectionView, reply: ReplyView)
    requires
        !(c.task is Ep0Event),
    ensures
        reads_once(answered(c, reply).1),
{
    let none = Seq::<EffectView>::empty();
    let idle = c.with_task(Task::Idle);
    lemma_finished(none);
    match (c.task, reply) {
        (Task::StartShell { remote_id }, _) => {
            lemma_start_reads_once(idle, remote_id, ServiceView::Shell, reply is Done);
        },
        (Task::Connect { remote_id }, _) => {
            lemma_start_reads_once(idle, remote_id, ServiceView::Forward, reply is Done);
        },
        (Task::WriteInput { local_id }, ReplyView::Failed) => {
            lemma_hang_up_reads_once(idle, local_id, none);
        },
        (Task::File { local_id }, ReplyView::File(reply)) => {
            if let ServiceView::Sync(service) = c.stream(local_id).service {
                let (next, step) = replied(service, reply);
                lemma_sync_reads_once(idle.with_service(local_id, next), local_id, none, step);
            }
        },
        (Task::ReadChunk { local_id }, ReplyView::Chunk(read)) => {
            let sent = c.wrte(
                local_id,
                c.stream(local_id).remote_id,
                response_bytes(chunk_frame(read)),
            );
            lemma_one_effect(sent);
            lemma_finished(seq![sent]);
        },
        _ => {},
    }
}

proof fn lemma_start_reads_once(
    c: ConnectionView,
    remote_id: u32,
    service: ServiceView,
    ok: bool,
)
    ensures
        reads_once(on_started(c, remote_id, service, ok).1),
{
    let local_id = c.streams.next_id;
    let okay = c.okay(local_id, remote_id);
    let read = EffectView::ReadStream(local_id, stream_tag(local_id));
    lemma_one_effect(c.clse(0, remote_id));
    lemma_finished(seq![c.clse(0, remote_id)]);
    lemma_one_effect(okay);
    lemma_read_count_push(seq![okay], read);
    assert(seq![okay, read] =~= seq![okay].push(read));
    lemma_finished(seq![okay, read]);
}

/// The completion of a read on the bulk OUT endpoint leads to one new read, of a header or of a
/// payload; no other completion leads to one.
pub proof fn bulk_out_read_is_renewed(c: ConnectionView, user_data: u64, res: i32, data: Seq<u8>)
    requires
        res >= 0,
        UserData::decoded(user_data) is Ok,
    ensures
        match UserData::decoded(user_data)->Ok_0.op_type {
            UserDataOpType::BulkOutReadHeader | UserDataOpType::BulkOutReadPayload => reads_once(
                completed(c, user_data, res, data).1,
            ),
            _ => read_count(completed(c, user_data, res, data).1.effects) == 0,
        },
{
    let none = Seq::<EffectView>::empty();
    lemma_finished(none);
    lemma_one_effect(EffectView::ReadBulkOut(payload_tag()));
    if let Ok(header) = parsed_header(data) {
        message_leads_to_one_read(c, header, None);
    }
    if let Some(header) = c.pending {
        message_leads_to_one_read(
            ConnectionView { pending: None, ..c },
            header,
            Some(data),
        );
    }
    let tag = UserData::decoded(user_data)->Ok_0;
    if let (UserDataOpType::PtyRead, Some(local_id)) = (tag.op_type, tag.data) {
        if c.has(local_id) {
            let remote_id = c.stream(local_id).remote_id;
            let told = c.clse(local_id, remote_id);
            let closed = EffectView::CloseStream(local_id);
            lemma_one_effect(told);
            lemma_read_count_push(seq![told], closed);
            assert(seq![told, closed] =~= seq![told].push(closed));
            lemma_one_effect(c.wrte(local_id, remote_id, data));
        }
    }
}

/// Every stream but one is as it was.
pub open spec fn differs_only_in(c: ConnectionView, d: ConnectionView, local_id: u32) -> bool {
    &&& d.streams.next_id == c.streams.next_id
    &&& forall|id: u32|
        id != local_id ==> {
            &&& #[trigger] d.has(id) == c.has(id)
            &&& c.has(id) ==> d.stream(id) == c.stream(id)
        }
    &&& d.has(local_id) ==> c.has(local_id) && d.stream(local_id).remote_id == c.stream(
        local_id,
    ).remote_id
}

proof fn lemma_sync_touches_one(
    c: ConnectionView,
    local_id: u32,
    service: SyncServiceView,
    before: Seq<EffectView>,
    step: SyncStepView,
)
    requires
        c.has(local_id),
    ensures
        differs_only_in(
            c,
            on_sync_step(c.with_service(local_id, service), local_id, before, step).0,
            local_id,
        ),
{
}

/// Messages are routed by the ID that the device gave the stream: a message about one stream
/// leaves every other stream alone, and only OPEN makes a stream.
pub proof fn message_touches_one_stream(
    c: ConnectionView,
    header: AdbHeader,
    payload: Option<Seq<u8>>,
)
    requires
        !(header.command is Open),
    ensures
        differs_only_in(c, commanded(c, header, payload).0, header.arg1),
{
    if header.command is Wrte && payload is Some && c.has(header.arg1) {
        if let ServiceView::Sync(service) = c.stream(header.arg1).service {
            let (next, step) = handled(service, payload->0);
            lemma_sync_touches_one(
                c,
                header.arg1,
                next,
                seq![c.okay(header.arg1, header.arg0)],
                step,
            );
        }
    }
}

/// OPEN leaves every stream alone that is there; where it makes one, that gets the next ID.
pub proof fn open_touches_no_stream(c: ConnectionView, header: AdbHeader, payload: Seq<u8>)
    requires
        header.command is Open,
        allowed(c, header, Some(payload)),
    ensures
        only_grows(c, commanded(c, header, Some(payload)).0),
{
}

/// No stream is changed or lost; there may be a new one under the next ID.
pub open spec fn only_grows(c: ConnectionView, d: ConnectionView) -> bool {
    &&& c.streams.next_id <= d.streams.next_id <= c.streams.next_id + 1
    &&& forall|id: u32|
        id != c.streams.next_id ==> {
            &&& #[trigger] d.has(id) == c.has(id)
            &&& c.has(id) ==> d.stream(id) == c.stream(id)
        }
    &&& d.has(c.streams.next_id) && !c.has(c.streams.next_id) ==> d.streams.next_id
        == c.streams.next_id + 1
}

/// IDs of streams are handed out in increasing order, and none is handed out twice: a stream that
/// is there after a step under an ID below the next one was there before, for the same stream of
/// the host.
pub open spec fn ids_only_grow(c: ConnectionView, d: ConnectionView) -> bool {
    &&& c.streams.next_id <= d.streams.next_id
    &&& forall|id: u32| #[trigger]
        d.has(id) && id < c.streams.next_id ==> c.has(id) && c.stream(id).remote_id == d.stream(
            id,
        ).remote_id
    &&& (forall|id: u32| #[trigger] c.has(id) ==> id < c.streams.next_id) ==> (forall|id: u32|
     #[trigger]
        d.has(id) ==> id < d.streams.next_id)
}

proof fn lemma_ids_of_message(c: ConnectionView, header: AdbHeader, payload: Option<Seq<u8>>)
    requires
        allowed(c, header, payload),
    ensures
        ids_only_grow(c, commanded(c, header, payload).0),
{
    if header.command is Open {
        open_touches_no_stream(c, header, payload->0);
    } else {
        message_touches_one_stream(c, header, payload);
        lemma_ids_of_difference(c, commanded(c, header, payload).0, header.arg1);
    }
}

proof fn lemma_ids_of_difference(c: ConnectionView, d: ConnectionView, local_id: u32)
    requires
        differs_only_in(c, d, local_id),
    ensures
        ids_only_grow(c, d),
{
    assert forall|id: u32| #[trigger] d.has(id) implies c.has(id) && c.stream(id).remote_id
        == d.stream(id).remote_id by {
        if id != local_id {
            assert(d.has(id) == c.has(id));
        }
    }
}

proof fn lemma_ids_unchanged(c: ConnectionView, d: ConnectionView)
    ensures
        c.streams == d.streams ==> ids_only_grow(c, d),
{
    if c.streams == d.streams {
        lemma_ids_of_difference(c, c, 0);
        assert forall|id: u32| #[trigger] d.has(id) implies c.has(id) by {
        }
    }
}

proof fn lemma_ids_of_opened(c: ConnectionView, remote_id: u32, service: ServiceView)
    requires
        c.streams.next_id < u32::MAX,
    ensures
        ids_only_grow(c, c.opened(remote_id, service)),
{
    let d = c.opened(remote_id, service);
    assert forall|id: u32| #[trigger] d.has(id) && id != c.streams.next_id implies c.has(id) by {
    }
}

/// No completion hands an ID out twice.
pub proof fn completion_reuses_no_id(c: ConnectionView, user_data: u64, res: i32, data: Seq<u8>)
    requires
        admitted(c, user_data, res, data),
    ensures
        ids_only_grow(c, completed(c, user_data, res, data).0),
{
    lemma_ids_unchanged(c, completed(c, user_data, res, data).0);
    if let Ok(tag) = UserData::decoded(user_data) {
        match (tag.op_type, tag.data) {
            (UserDataOpType::PtyRead, Some(local_id)) => {
                lemma_ids_of_difference(c, on_output(c, local_id, res, data).0, local_id);
            },
            (UserDataOpType::BulkOutReadHeader, _) => {
                if res >= 0 {
                    if let Ok(header) = parsed_header(data) {
                        if header.data_length == 0 {
                            lemma_ids_of_message(c, header, None);
                        }
                    }
                }
            },
            (UserDataOpType::BulkOutReadPayload, _) => {
                if res >= 0 {
                    if let Some(header) = c.pending {
                        if intact(c, header, data) {
                            let d = ConnectionView { pending: None, ..c };
                            lemma_ids_of_message(d, header, Some(data));
                            lemma_same_streams(c, d, commanded(d, header, Some(data)).0);
                        }
                    }
                }
            },
            _ => {},
        }
    }
}

proof fn lemma_same_streams(c: ConnectionView, d: ConnectionView, e: ConnectionView)
    requires
        c.streams == d.streams,
        ids_only_grow(d, e),
    ensures
        ids_only_grow(c, e),
{
    assert forall|id: u32| #[trigger] d.has(id) implies c.has(id) by {
    }
    if forall|id: u32| #[trigger] c.has(id) ==> id < c.streams.next_id {
        assert forall|id: u32| #[trigger] d.has(id) implies id < d.streams.next_id by {
            assert(c.has(id));
        }
    }
}

/// No reply hands an ID out twice.
pub proof fn reply_reuses_no_id(c: ConnectionView, reply: ReplyView)
    requires
        c.inv(),
        fitting(c, reply),
    ensures
        ids_only_grow(c, answered(c, reply).0),
{
    let idle = c.with_task(Task::Idle);
    lemma_ids_unchanged(c, answered(c, reply).0);
    match (c.task, reply) {
        (Task::StartShell { remote_id }, _) => {
            lemma_ids_of_opened(idle, remote_id, ServiceView::Shell);
            lemma_same_streams(c, idle, idle.opened(remote_id, ServiceView::Shell));
        },
        (Task::Connect { remote_id }, _) => {
            lemma_ids_of_opened(idle, remote_id, ServiceView::Forward);
            lemma_same_streams(c, idle, idle.opened(remote_id, ServiceView::Forward));
        },
        (Task::File { local_id }, ReplyView::File(reply)) => {
            if let ServiceView::Sync(service) = c.stream(local_id).service {
                let (next, step) = replied(service, reply);
                lemma_sync_touches_one(idle, local_id, next, Seq::empty(), step);
                let d = on_sync_step(
                    idle.with_service(local_id, next),
                    local_id,
                    Seq::empty(),
                    step,
                ).0;
                lemma_ids_of_difference(idle, d, local_id);
                lemma_same_streams(c, idle, d);
            }
        },
        (Task::ReadChunk { local_id }, ReplyView::Chunk(read)) => {
            lemma_ids_of_difference(c, answered(c, reply).0, local_id);
        },
        (Task::WriteInput { local_id }, ReplyView::Failed) => {
            lemma_ids_of_difference(c, answered(c, reply).0, local_id);
        },
        _ => {},
    }
}

/// The stream waits for an OKAY of the host.
pub open spec fn waits(c: ConnectionView, local_id: u32) -> bool {
    c.has(local_id) && c.stream(local_id).waiting_for_okay
}

/// A stream that waits for an OKAY goes on waiting, unless an OKAY for it is what came, or it is
/// closed.
pub proof fn only_okay_ends_the_wait(
    c: ConnectionView,
    header: AdbHeader,
    payload: Option<Seq<u8>>,
    local_id: u32,
)
    requires
        waits(c, local_id),
        local_id < c.streams.next_id,
        header.command is Okay ==> header.arg1 != local_id,
    ensures
        commanded(c, header, payload).0.has(local_id) ==> waits(
            commanded(c, header, payload).0,
            local_id,
        ),
{
}

/// No reply, and no output of a shell or socket, ends the wait for an OKAY.
pub proof fn replies_and_output_end_no_wait(
    c: ConnectionView,
    reply: ReplyView,
    stream_id: u32,
    res: i32,
    data: Seq<u8>,
    local_id: u32,
)
    requires
        waits(c, local_id),
        local_id < c.streams.next_id,
    ensures
        answered(c, reply).0.has(local_id) ==> waits(answered(c, reply).0, local_id),
        on_output(c, stream_id, res, data).0.has(local_id) ==> waits(
            on_output(c, stream_id, res, data).0,
            local_id,
        ),
{
}

/// A step asks for a chunk of a file on a stream, or reads from its shell or socket.
pub open spec fn draws_from(step: StepView, local_id: u32) -> bool {
    ||| step.next == NextView::Ask(RequestView::ReadChunk(local_id))
    ||| exists|tag: u64| step.effects.contains(EffectView::ReadStream(local_id, tag))
}

/// A chunk of a file is only asked for, and a shell or socket only read from, while the stream
/// does not wait for an OKAY.
pub proof fn waiting_streams_send_nothing(
    c: ConnectionView,
    header: AdbHeader,
    payload: Option<Seq<u8>>,
    reply: ReplyView,
    local_id: u32,
)
    ensures
        draws_from(commanded(c, header, payload).1, local_id) ==> {
            let d = commanded(c, header, payload).0;
            d.has(local_id) && !waits(d, local_id)
        },
        draws_from(answered(c, reply).1, local_id) ==> {
            let d = answered(c, reply).0;
            d.has(local_id) && !waits(d, local_id)
        },
{
}

/// A stream whose file chunk was sent waits for an OKAY, and so does one whose output was sent.
pub proof fn sending_begins_the_wait(
    c: ConnectionView,
    read: ReadReplyView,
    local_id: u32,
    res: i32,
    data: Seq<u8>,
)
    ensures
        c.task == (Task::ReadChunk { local_id }) ==> waits(
            answered(c, ReplyView::Chunk(read)).0,
            local_id,
        ),
        on_output(c, local_id, res, data).1.effects.contains(
            c.wrte(local_id, c.stream(local_id).remote_id, data),
        ) && on_output(c, local_id, res, data).0.has(local_id) ==> waits(
            on_output(c, local_id, res, data).0,
            local_id,
        ),
{
}

/// The payload of a message.
pub open spec fn sent_payload(effect: EffectView) -> Seq<u8> {
    match effect {
        EffectView::Send(_, payload) => payload,
        _ => Seq::empty(),
    }
}

/// A file is sent on a stream, whose chunks are as given and whose host answers every message
/// with `okay`: the connection afterwards, and the payloads that were sent.
pub open spec fn pulled(c: ConnectionView, chunks: Seq<Seq<u8>>, okay: AdbHeader) -> (
    ConnectionView,
    Seq<Seq<u8>>,
)
    decreases chunks.len(),
{
    let chunk = if chunks.len() == 0 {
        Seq::empty()
    } else {
        chunks[0]
    };
    let (d, step) = answered(c, ReplyView::Chunk(ReadReplyView::Data(chunk)));
    let payload = sent_payload(step.effects[0]);
    let e = commanded(d, okay, None).0;
    if chunks.len() == 0 {
        (e, seq![payload])
    } else {
        let (f, rest) = pulled(e, chunks.drop_first(), okay);
        (f, seq![payload] + rest)
    }
}

/// A pull sends the file: the payloads, joined in order, are the frames of the chunks and a DONE
/// frame, and the stream waits for the next request afterwards.
pub proof fn pull_sends_the_file(
    c: ConnectionView,
    local_id: u32,
    chunks: Seq<Seq<u8>>,
    okay: AdbHeader,
)
    requires
        c.inv(),
        c.task == (Task::ReadChunk { local_id }),
        file_chunks(chunks),
        okay.command is Okay,
        okay.arg1 == local_id,
    ensures
        pulled(c, chunks, okay).1.flatten() == pull_stream(chunks),
        pulled(c, chunks, okay).0 == c.with_task(Task::Idle).with_stream(
            local_id,
            StreamView {
                service: ServiceView::Sync(ready(SyncStateView::Idle)),
                waiting_for_okay: false,
                ..c.stream(local_id)
            },
        ),
    decreases chunks.len(),
{
    let chunk = if chunks.len() == 0 {
        Seq::empty()
    } else {
        chunks[0]
    };
    let (d, step) = answered(c, ReplyView::Chunk(ReadReplyView::Data(chunk)));
    let payload = sent_payload(step.effects[0]);
    let e = commanded(d, okay, None).0;
    if chunks.len() == 0 {
        assert(seq![payload].drop_first() =~= Seq::<Seq<u8>>::empty());
        assert(seq![payload].flatten() =~= payload) by {
            reveal_with_fuel(Seq::flatten, 2);
        }
        assert(e.streams.streams =~= c.streams.streams.insert(
            local_id,
            StreamView {
                service: ServiceView::Sync(ready(SyncStateView::Idle)),
                waiting_for_okay: false,
                ..c.stream(local_id)
            },
        ));
    } else {
        assert(0 < chunks[0].len());
        let rest = chunks.drop_first();
        assert forall|i: int| 0 <= i < rest.len() implies 0 < (#[trigger] rest[i]).len()
            <= PAYLOAD_SIZE_MAX_BYTES by {
            assert(rest[i] == chunks[i + 1]);
        }
        assert(e.streams.streams =~= c.streams.streams.insert(
            local_id,
            StreamView { waiting_for_okay: false, ..c.stream(local_id) },
        ));
        assert forall|id: u32| #[trigger] e.has(id) implies e.settled(id) by {
            assert(c.has(id));
            assert(c.settled(id));
        }
        pull_sends_the_file(e, local_id, rest, okay);
        let (f, payloads) = pulled(e, rest, okay);
        assert((seq![payload] + payloads).drop_first() =~= payloads);
        assert(f.streams.streams =~= c.streams.streams.insert(
            local_id,
            StreamView {
                service: ServiceView::Sync(ready(SyncStateView::Idle)),
                waiting_for_okay: false,
                ..c.stream(local_id)
            },
        ));
    }
}

/// A message is put into buffers that were free: what is in flight in the others stays as it is.
pub proof fn message_goes_into_free_buffers(
    slots: Seq<Option<Seq<u8>>>,
    header: Seq<u8>,
    payload: Seq<u8>,
    i: int,
)
    requires
        free_slots(slots) >= slots_needed(payload),
        slots.len() <= u32::MAX,
        0 <= i < slots.len(),
        slots[i] is Some,
    ensures
        submitted(slots, header, payload).0[i] == slots[i],
        submitted(slots, header, payload).0.len() == slots.len(),
{
    first_free_is_free(slots);
    let first = first_free(slots) as int;
    let filled = slots.update(first, Some(header));
    free_slots_after_update(slots, first, Some(header));
    if payload.len() > 0 {
        first_free_is_free(filled);
    }
}

/// Once the writes of a message are complete, whether they failed or not, the buffers are as they
/// were before it was submitted.
pub proof fn writes_give_their_buffers_back(
    c: ConnectionView,
    header: Seq<u8>,
    payload: Seq<u8>,
    first_res: i32,
    second_res: i32,
)
    requires
        free_slots(c.slots) >= slots_needed(payload),
        c.slots.len() < u32::MAX,
    ensures
        ({
            let (slots, writes) = submitted(c.slots, header, payload);
            let d = ConnectionView { slots, ..c };
            let e = completed(d, writes[0].user_data, first_res, Seq::empty()).0;
            if payload.len() > 0 {
                &&& writes.len() == 2 && writes[0].linked && !writes[1].linked
                &&& completed(e, writes[1].user_data, second_res, Seq::empty()).0 == c
            } else {
                &&& writes.len() == 1 && !writes[0].linked
                &&& e == c
            }
        }),
{
    let (slots, writes) = submitted(c.slots, header, payload);
    first_free_is_free(c.slots);
    let first = first_free(c.slots) as int;
    let filled = c.slots.update(first, Some(header));
    free_slots_after_update(c.slots, first, Some(header));
    decode_undoes_encode(
        UserData { op_type: UserDataOpType::BulkInWrite, data: Some(writes[0].slot) },
    );
    if payload.len() > 0 {
        first_free_is_free(filled);
        let second = first_free(filled) as int;
        decode_undoes_encode(
            UserData { op_type: UserDataOpType::BulkInWrite, data: Some(writes[1].slot) },
        );
        assert(slots.update(first, None).update(second, None) =~= c.slots);
    } else {
        assert(slots.update(first, None) =~= c.slots);
    }
}

/// A pull delivers the file: whoever joins the payloads that were sent, and reads them by the
/// rules of a transfer, gets the chunks of the file, joined in order.
pub proof fn pull_delivers_the_file(
    c: ConnectionView,
    local_id: u32,
    chunks: Seq<Seq<u8>>,
    okay: AdbHeader,
)
    requires
        c.inv(),
        c.task == (Task::ReadChunk { local_id }),
        file_chunks(chunks),
        okay.command is Okay,
        okay.arg1 == local_id,
    ensures
        received(RecvView::Header(Seq::empty()), pulled(c, chunks, okay).1.flatten()) == (Received {
            state: RecvView::Header(Seq::empty()),
            written: chunks.flatten(),
            end: ReceiveEnd::Done { mtime: 0 },
        }),
{
    pull_sends_the_file(c, local_id, chunks, okay);
    pulled_file_is_the_file(chunks);
}

/// A pull begins with the host's request: RECV on a sync stream, unless a file is being received
/// there, is acknowledged and has the file opened. Once that is done, the stream sends the file,
/// and where it does not wait for an OKAY, the first chunk is asked for. Where the file cannot be
/// opened, the host is told FAIL, and the stream is as it was.
pub proof fn pull_begins_at_the_request(
    c: ConnectionView,
    header: AdbHeader,
    service: SyncServiceView,
    payload: Seq<u8>,
    path: Seq<u8>,
    taken: nat,
    error: Seq<char>,
)
    requires
        c.inv(),
        c.task is Idle,
        header.command is Wrte,
        c.has(header.arg1),
        c.stream(header.arg1).service == ServiceView::Sync(service),
        !(service.state is Receiving),
        parsed_packet(payload) == Some((PacketView::RecvV1(path), taken)),
    ensures
        ({
            let local_id = header.arg1;
            let sending = c.with_service(
                local_id,
                ready(SyncStateView::Sending(FileSender { done: false })),
            );
            let (opening, step) = commanded(c, header, Some(payload));
            let (begun, first) = answered(opening, ReplyView::File(FileReplyView::Done));
            let (back, refusal) = answered(
                opening,
                ReplyView::File(FileReplyView::Failed(error)),
            );
            &&& step == (StepView {
                effects: seq![c.okay(local_id, header.arg0)],
                next: NextView::Ask(RequestView::File(local_id, FileRequestView::OpenRead(path))),
            })
            &&& !waits(c, local_id) ==> {
                &&& begun == sending.with_task(Task::ReadChunk { local_id })
                &&& begun.inv()
                &&& first == (StepView {
                    effects: Seq::empty(),
                    next: NextView::Ask(RequestView::ReadChunk(local_id)),
                })
            }
            &&& waits(c, local_id) ==> begun == sending && first == finished(Seq::empty())
            &&& back == c
            &&& refusal == finished(
                seq![
                    c.wrte(
                        local_id,
                        c.stream(local_id).remote_id,
                        response_bytes(
                            fail_response_view(file_message("cannot open "@, path, error)),
                        ),
                    ),
                ],
            )
        }),
{
    let local_id = header.arg1;
    assert(c.settled(local_id));
    let sending = ready(SyncStateView::Sending(FileSender { done: false }));
    let (opening, step) = commanded(c, header, Some(payload));
    let (begun, first) = answered(opening, ReplyView::File(FileReplyView::Done));
    let (back, refusal) = answered(opening, ReplyView::File(FileReplyView::Failed(error)));
    assert(begun.streams.streams =~= c.with_service(local_id, sending).streams.streams);
    assert(back.streams.streams =~= c.streams.streams);
    assert forall|id: u32| #[trigger] begun.has(id) implies begun.settled(id) by {
        assert(c.has(id));
        assert(c.settled(id));
    }
}

/// A pull as a whole. Let the host send, on a sync stream that waits for a request, a RECV request
/// for a path, let the file be opened and have these chunks, and let the host answer every message
/// with an OKAY. Then whoever joins the payloads that were sent, and reads them by the rules of a
/// transfer, gets the chunks of the file, joined in order; and the connection is as it was.
pub proof fn pull_answers_the_request(
    c: ConnectionView,
    header: AdbHeader,
    payload: Seq<u8>,
    path: Seq<u8>,
    taken: nat,
    chunks: Seq<Seq<u8>>,
    okay: AdbHeader,
)
    requires
        c.inv(),
        c.task is Idle,
        header.command is Wrte,
        c.has(header.arg1),
        c.stream(header.arg1).service == ServiceView::Sync(ready(SyncStateView::Idle)),
        !waits(c, header.arg1),
        parsed_packet(payload) == Some((PacketView::RecvV1(path), taken)),
        file_chunks(chunks),
        okay.command is Okay,
        okay.arg1 == header.arg1,
    ensures
        ({
            let (opening, step) = commanded(c, header, Some(payload));
            let (begun, first) = answered(opening, ReplyView::File(FileReplyView::Done));
            let (end, payloads) = pulled(begun, chunks, okay);
            &&& step.next == NextView::Ask(
                RequestView::File(header.arg1, FileRequestView::OpenRead(path)),
            )
            &&& first.next == NextView::Ask(RequestView::ReadChunk(header.arg1))
            &&& received(RecvView::Header(Seq::empty()), payloads.flatten()) == (Received {
                state: RecvView::Header(Seq::empty()),
                written: chunks.flatten(),
                end: ReceiveEnd::Done { mtime: 0 },
            })
            &&& end == c
        }),
{
    let local_id = header.arg1;
    pull_begins_at_the_request(
        c,
        header,
        ready(SyncStateView::Idle),
        payload,
        path,
        taken,
        Seq::empty(),
    );
    let (opening, step) = commanded(c, header, Some(payload));
    let (begun, first) = answered(opening, ReplyView::File(FileReplyView::Done));
    pull_sends_the_file(begun, local_id, chunks, okay);
    pull_delivers_the_file(begun, local_id, chunks, okay);
    let (end, payloads) = pulled(begun, chunks, okay);
    assert(end.streams.streams =~= c.streams.streams);
}

/// QUIT closes the sync stream that it comes on, unless a file is being received there.
pub proof fn quit_closes_the_stream(
    c: ConnectionView,
    header: AdbHeader,
    service: SyncServiceView,
    tail: Seq<u8>,
)
    requires
        header.command is Wrte,
        c.has(header.arg1),
        c.stream(header.arg1).service == ServiceView::Sync(service),
        !(service.state is Receiving),
    ensures
        commanded(c, header, Some(u32_bytes(ID_QUIT) + tail)) == (
            c.without_stream(header.arg1),
            finished(
                seq![
                    c.okay(header.arg1, header.arg0),
                    c.clse(header.arg1, c.stream(header.arg1).remote_id),
                    EffectView::CloseStream(header.arg1),
                ],
            ),
        ),
{
    quit_is_read(tail);
    let id = header.arg1;
    let (d, step) = commanded(c, header, Some(u32_bytes(ID_QUIT) + tail));
    assert(d.streams.streams =~= c.streams.streams.remove(id));
    assert(step.effects =~= finished(
        seq![
            c.okay(id, header.arg0),
            c.clse(id, c.stream(id).remote_id),
            EffectView::CloseStream(id),
        ],
    ).effects);
}

/// The payloads of the WRTE messages among effects.
pub open spec fn wrte_payloads(effects: Seq<EffectView>) -> Seq<Seq<u8>>
    decreases effects.len(),
{
    if effects.len() == 0 {
        Seq::empty()
    } else {
        let before = wrte_payloads(effects.drop_last());
        match effects.last() {
            EffectView::Send(header, payload) if header.command is Wrte => before.push(payload),
            _ => before,
        }
    }
}

/// The last modification time among effects.
pub open spec fn modified(effects: Seq<EffectView>) -> Option<u32>
    decreases effects.len(),
{
    if effects.len() == 0 {
        None
    } else {
        match effects.last() {
            EffectView::File(_, FileEffectView::SetModified(mtime)) => Some(mtime),
            _ => modified(effects.drop_last()),
        }
    }
}

/// What messages to a sync stream lead to on a file system that carries everything out.
pub struct Carried {
    /// The connection afterwards.
    pub connection: ConnectionView,
    /// All that was written to the file.
    pub written: Seq<u8>,
    /// The permissions that the file got.
    pub mode: Option<u32>,
    /// The modification time that the file got.
    pub mtime: Option<u32>,
    /// The payloads that were sent to the host.
    pub answers: Seq<Seq<u8>>,
}

/// How many answers the service of a stream can still wait for.
pub open spec fn stream_answers_left(c: ConnectionView, local_id: u32) -> nat {
    match c.stream(local_id).service {
        ServiceView::Sync(service) => answers_left(service.stage),
        _ => 0,
    }
}

/// Follows a step of the connection as long as it asks for something to be done to a file.
pub open spec fn carried(c: ConnectionView, step: StepView, local_id: u32) -> Carried
    decreases stream_answers_left(c, local_id),
{
    let answers = wrte_payloads(step.effects);
    match step.next {
        NextView::Ask(RequestView::File(_, request)) => {
            let (d, next) = answered(c, ReplyView::File(FileReplyView::Done));
            if stream_answers_left(d, local_id) < stream_answers_left(c, local_id) {
                let rest = carried(d, next, local_id);
                Carried {
                    connection: rest.connection,
                    written: match request {
                        FileRequestView::Write(data) => data + rest.written,
                        _ => rest.written,
                    },
                    mode: match request {
                        FileRequestView::SetPermissions(mode) => Some(mode),
                        _ => rest.mode,
                    },
                    mtime: rest.mtime,
                    answers: answers + rest.answers,
                }
            } else {
                arbitrary()
            }
        },
        _ => Carried {
            connection: c,
            written: Seq::empty(),
            mode: None,
            mtime: modified(step.effects),
            answers,
        },
    }
}

/// What a message with this payload leads to.
pub open spec fn carries(c: ConnectionView, header: AdbHeader, payload: Seq<u8>) -> Carried {
    let (d, step) = commanded(c, header, Some(payload));
    carried(d, step, header.arg1)
}

/// What a row of messages leads to, up to the one that the host gets an answer to.
pub open spec fn delivers(c: ConnectionView, header: AdbHeader, payloads: Seq<Seq<u8>>) -> Carried
    decreases payloads.len(),
{
    if payloads.len() == 0 {
        Carried {
            connection: c,
            written: Seq::empty(),
            mode: None,
            mtime: None,
            answers: Seq::empty(),
        }
    } else {
        let first = carries(c, header, payloads[0]);
        if first.answers.len() == 0 {
            let rest = delivers(first.connection, header, payloads.drop_first());
            Carried { written: first.written + rest.written, ..rest }
        } else {
            first
        }
    }
}

/// What a connection makes of what its sync service makes of a payload.
pub open spec fn relayed(c: ConnectionView, local_id: u32, s: Settled) -> Carried {
    Carried {
        connection: c.with_service(local_id, s.service),
        written: s.written,
        mode: s.mode,
        mtime: s.mtime,
        answers: match s.result {
            SyncResultView::Data(frame) => seq![response_bytes(frame)],
            _ => Seq::empty(),
        },
    }
}

/// A result that a push can have.
pub open spec fn is_push_result(s: Settled) -> bool {
    match s.result {
        SyncResultView::Data(_) => true,
        SyncResultView::Continue => s.service.state is Receiving,
        _ => false,
    }
}

proof fn lemma_effects_of_push(effects: Seq<EffectView>, effect: EffectView)
    ensures
        wrte_payloads(effects.push(effect)) == match effect {
            EffectView::Send(header, payload) if header.command is Wrte => wrte_payloads(
                effects,
            ).push(payload),
            _ => wrte_payloads(effects),
        },
        modified(effects.push(effect)) == match effect {
            EffectView::File(_, FileEffectView::SetModified(mtime)) => Some(mtime),
            _ => modified(effects),
        },
{
    assert(effects.push(effect).drop_last() =~= effects);
}

proof fn lemma_relayed(
    c: ConnectionView,
    local_id: u32,
    service: SyncServiceView,
    before: Seq<EffectView>,
    step: SyncStepView,
)
    requires
        c.has(local_id),
        c.task is Idle,
        c.stream(local_id).service is Sync,
        wrte_payloads(before).len() == 0,
        modified(before) is None,
        !(service.stage is Statting),
        step.next is Finished <==> service.stage is Ready,
        is_push_result(settled(service, step)),
    ensures
        ({
            let (d, next) = on_sync_step(
                c.with_service(local_id, service),
                local_id,
                before,
                step,
            );
            carried(d, next, local_id) == relayed(c, local_id, settled(service, step))
        }),
    decreases answers_left(service.stage),
{
    let e = c.with_service(local_id, service);
    let (d, next) = on_sync_step(e, local_id, before, step);
    let effects = match step.effect {
        Some(effect) => before.push(EffectView::File(local_id, effect)),
        None => before,
    };
    if let Some(effect) = step.effect {
        lemma_effects_of_push(before, EffectView::File(local_id, effect));
    }
    assert(wrte_payloads(effects) =~= Seq::empty());
    match step.next {
        SyncNextView::Finished(result) => {
            let done = EffectView::ReadBulkOut(header_tag());
            lemma_effects_of_push(effects, done);
            if let SyncResultView::Data(frame) = result {
                let sent = e.wrte(
                    local_id,
                    e.stream(local_id).remote_id,
                    response_bytes(frame),
                );
                lemma_effects_of_push(effects, sent);
                lemma_effects_of_push(effects.push(sent), done);
                assert(wrte_payloads(effects.push(sent)) =~= seq![response_bytes(frame)]);
            }
        },
        SyncNextView::Ask(request) => {
            waits_for_what_it_asked(service, Seq::empty(), FileReplyView::Done);
            let (after, after_step) = replied(service, FileReplyView::Done);
            assert(answers_left(after.stage) < answers_left(service.stage));
            let (f, last) = answered(d, ReplyView::File(FileReplyView::Done));
            assert(d.with_task(Task::Idle).with_service(local_id, after).streams.streams
                =~= c.with_service(local_id, after).streams.streams);
            lemma_relayed(c, local_id, after, Seq::empty(), after_step);
            let rest = carried(f, last, local_id);
            assert(Seq::<Seq<u8>>::empty() + rest.answers =~= rest.answers);
        },
    }
}

proof fn lemma_carries(
    c: ConnectionView,
    header: AdbHeader,
    service: SyncServiceView,
    payload: Seq<u8>,
)
    requires
        header.command is Wrte,
        c.has(header.arg1),
        c.task is Idle,
        c.stream(header.arg1).service == ServiceView::Sync(service),
        service.stage is Ready,
        !(handled(service, payload).0.stage is Statting),
        is_push_result(settles(service, payload)),
    ensures
        carries(c, header, payload) == relayed(c, header.arg1, settles(service, payload)),
{
    let (next, step) = handled(service, payload);
    let okay = c.okay(header.arg1, header.arg0);
    lemma_effects_of_push(Seq::empty(), okay);
    assert(Seq::<EffectView>::empty().push(okay) =~= seq![okay]);
    waits_for_what_it_asked(service, payload, FileReplyView::Done);
    lemma_relayed(c, header.arg1, next, seq![okay], step);
}

proof fn lemma_delivers(
    c: ConnectionView,
    header: AdbHeader,
    receiver: ReceiverView,
    payloads: Seq<Seq<u8>>,
)
    requires
        header.command is Wrte,
        c.has(header.arg1),
        c.task is Idle,
        c.stream(header.arg1).service == ServiceView::Sync(
            ready(SyncStateView::Receiving(receiver)),
        ),
    ensures
        delivers(c, header, payloads) == relayed(
            c,
            header.arg1,
            pushes(ready(SyncStateView::Receiving(receiver)), payloads),
        ),
    decreases payloads.len(),
{
    let local_id = header.arg1;
    let service = ready(SyncStateView::Receiving(receiver));
    if payloads.len() == 0 {
        assert(c.with_service(local_id, service).streams.streams =~= c.streams.streams);
    } else {
        let first = settles(service, payloads[0]);
        payload_follows_the_stream(receiver, payloads[0]);
        lemma_carries(c, header, service, payloads[0]);
        if first.result is Continue {
            let d = c.with_service(local_id, first.service);
            let r = received(receiver.state, payloads[0]);
            let next = ReceiverView { state: r.state, ..receiver };
            lemma_delivers(d, header, next, payloads.drop_first());
            let rest = pushes(first.service, payloads.drop_first());
            assert(d.with_service(local_id, rest.service).streams.streams =~= c.with_service(
                local_id,
                rest.service,
            ).streams.streams);
        }
    }
}

/// A push reaches the file. Let the host send, on a sync stream that waits for a request, a SEND
/// request for a path and a mode and behind it, in the same message and in as many others as it
/// likes, the frames of some chunks and a DONE frame. Then all that is written to the file are the
/// chunks, joined in order; the file gets the mode and the modification time that were sent; the
/// one answer that the host gets is OKAY; and the connection is as it was.
pub proof fn push_reaches_the_file(
    c: ConnectionView,
    header: AdbHeader,
    first: Seq<u8>,
    more: Seq<Seq<u8>>,
    path: Seq<u8>,
    mode: u32,
    taken: nat,
    chunks: Seq<Seq<u8>>,
    mtime: u32,
    tail: Seq<u8>,
)
    requires
        header.command is Wrte,
        c.has(header.arg1),
        c.task is Idle,
        c.stream(header.arg1).service == ServiceView::Sync(ready(SyncStateView::Idle)),
        parsed_packet(first) == Some((PacketView::SendV1(path, mode), taken)),
        announceable(chunks),
        first.skip(taken as int) + more.flatten() == transfer_stream(chunks, mtime) + tail,
    ensures
        commanded(c, header, Some(first)).1.next == NextView::Ask(
            RequestView::File(header.arg1, FileRequestView::Create(path)),
        ),
        delivers(c, header, seq![first] + more) == (Carried {
            connection: c,
            written: chunks.flatten(),
            mode: Some(mode),
            mtime: Some(mtime),
            answers: seq![response_bytes(bare_response_view(SyncFrameResponseId::Okay))],
        }),
{
    let local_id = header.arg1;
    let idle = ready(SyncStateView::Idle);
    let receiver = ReceiverView { path, mode, state: RecvView::Header(Seq::empty()) };
    let leftover = first.skip(taken as int);
    let s = settles(idle, first);
    push_puts_the_file_there(first, more, path, mode, taken, chunks, mtime, tail);
    payload_follows_the_stream(receiver, leftover);
    let (asking, step) = handled(idle, first);
    assert(replied(asking, FileReplyView::Done) == receives(
        SyncStateView::Idle,
        receiver,
        leftover,
    ));
    assert(s == push_outcome(receiver, received(receiver.state, leftover)));
    lemma_carries(c, header, idle, first);
    assert((seq![first] + more).drop_first() =~= more);
    assert(c.with_service(local_id, idle).streams.streams =~= c.streams.streams);
    if s.result is Continue {
        let d = c.with_service(local_id, s.service);
        let r = received(receiver.state, leftover);
        lemma_delivers(d, header, ReceiverView { state: r.state, ..receiver }, more);
        let rest = pushes(s.service, more);
        assert(d.with_service(local_id, rest.service).streams.streams =~= c.with_service(
            local_id,
            rest.service,
        ).streams.streams);
    }
}

/// The effect is a message to the host with this command, these arguments and this payload, and a
/// header that describes it.
pub open spec fn is_message(
    effect: EffectView,
    version: ProtocolVersion,
    command: Command,
    arg0: u32,
    arg1: u32,
    payload: Seq<u8>,
) -> bool {
    effect matches EffectView::Send(header, sent) && {
        &&& sent == payload
        &&& header.command == command && header.arg0 == arg0 && header.arg1 == arg1
        &&& payload.len() <= u32::MAX ==> header.data_length == payload.len()
        &&& version is V0 && byte_sum(payload) <= u32::MAX ==> header.data_check == byte_sum(
            payload,
        )
        &&& version is V1 ==> header.data_check == 0
        &&& header.magic + command_word(command) == 0xffff_ffff
    }
}

/// The number is the tag of this operation.
pub open spec fn tags(user_data: u64, op_type: UserDataOpType, data: Option<u32>) -> bool {
    UserData::decoded(user_data) == Ok::<UserData, UserDataError>(UserData { op_type, data })
}

/// The effect is a read of a message header.
pub open spec fn reads_header(effect: EffectView) -> bool {
    effect matches EffectView::ReadBulkOut(user_data) && tags(
        user_data,
        UserDataOpType::BulkOutReadHeader,
        None,
    )
}

/// The effect is a read on the shell or the socket of a stream.
pub open spec fn reads_stream(effect: EffectView, local_id: u32) -> bool {
    effect matches EffectView::ReadStream(id, user_data) && id == local_id && (local_id != 0
        ==> tags(user_data, UserDataOpType::PtyRead, Some(local_id)))
}

proof fn lemma_tags(local_id: u32)
    ensures
        tags(header_tag(), UserDataOpType::BulkOutReadHeader, None),
        tags(payload_tag(), UserDataOpType::BulkOutReadPayload, None),
        tags(poll_tag(), UserDataOpType::Ep0Poll, None),
        local_id != 0 ==> tags(stream_tag(local_id), UserDataOpType::PtyRead, Some(local_id)),
{
    decode_undoes_encode(UserData { op_type: UserDataOpType::BulkOutReadHeader, data: None });
    decode_undoes_encode(UserData { op_type: UserDataOpType::BulkOutReadPayload, data: None });
    decode_undoes_encode(UserData { op_type: UserDataOpType::Ep0Poll, data: None });
    if local_id != 0 {
        decode_undoes_encode(UserData { op_type: UserDataOpType::PtyRead, data: Some(local_id) });
    }
}

/// Every whole message is dealt with. Let a header come, and then the payload that it announces, of
/// whatever length. Unless the first version was settled on and the sum of the payload is not the
/// one in the header, what the connection does is what the command with this payload leads to; a
/// message without payload is dealt with at once.
pub proof fn whole_messages_are_dealt_with(
    c: ConnectionView,
    header: AdbHeader,
    tail: Seq<u8>,
    payload: Seq<u8>,
    header_data: u64,
    payload_data: u64,
    header_res: i32,
    payload_res: i32,
)
    requires
        header.wf(),
        tags(header_data, UserDataOpType::BulkOutReadHeader, None),
        tags(payload_data, UserDataOpType::BulkOutReadPayload, None),
        header_res >= 0,
        payload_res >= 0,
    ensures
        ({
            let (d, step) = completed(c, header_data, header_res, header.wire() + tail);
            let (e, last) = completed(d, payload_data, payload_res, payload);
            let unpended = ConnectionView { pending: None, ..c };
            &&& header.data_length == 0 ==> (d, step) == commanded(c, header, None)
            &&& header.data_length > 0 ==> {
                &&& d == (ConnectionView { pending: Some(header), ..c })
                &&& step.next is Wait
                &&& step.effects.len() == 1
                &&& step.effects[0] matches EffectView::ReadBulkOut(user_data) && tags(
                    user_data,
                    UserDataOpType::BulkOutReadPayload,
                    None,
                )
                &&& c.version is V1 || byte_sum(payload) == header.data_check ==> (e, last)
                    == commanded(unpended, header, Some(payload))
                &&& c.version is V0 && byte_sum(payload) != header.data_check ==> {
                    &&& e == unpended
                    &&& last.next is Wait
                    &&& last.effects.len() == 1 && reads_header(last.effects[0])
                }
            }
        }),
{
    parse_undoes_write(header, tail);
    lemma_tags(0);
}

/// What is no header, a payload that no header announced, and the completion of an operation that
/// was never submitted change nothing.
pub proof fn junk_is_skipped(
    c: ConnectionView,
    user_data: u64,
    res: i32,
    data: Seq<u8>,
)
    requires
        res >= 0,
    ensures
        ({
            let (d, step) = completed(c, user_data, res, data);
            &&& tags(user_data, UserDataOpType::BulkOutReadHeader, None) && parsed_header(
                data,
            ) is Err ==> {
                &&& d == c
                &&& step.next is Wait
                &&& step.effects.len() == 1 && reads_header(step.effects[0])
            }
            &&& tags(user_data, UserDataOpType::BulkOutReadPayload, None) && c.pending is None ==> {
                &&& d == c
                &&& step.next is Wait
                &&& step.effects.len() == 1 && reads_header(step.effects[0])
            }
            &&& UserData::decoded(user_data) is Err ==> {
                &&& d == c
                &&& step.next is Wait
                &&& step.effects.len() == 0
            }
        }),
{
    lemma_tags(0);
}

/// An operation that failed ends the connection with its error, unless it belongs to one stream or
/// one buffer; a poll on ep0 that is complete leads to the question for the event.
pub proof fn failed_operations_fail_the_connection(
    c: ConnectionView,
    user_data: u64,
    op_type: UserDataOpType,
    res: i32,
    data: Seq<u8>,
)
    requires
        tags(user_data, op_type, None),
        !(op_type is PtyRead),
    ensures
        ({
            let (d, step) = completed(c, user_data, res, data);
            &&& res < 0 ==> {
                &&& d == c
                &&& step.effects.len() == 0
                &&& step.next == NextView::Fail(op_type, res)
            }
            &&& res >= 0 && op_type is Ep0Poll ==> {
                &&& d == (ConnectionView { task: Task::Ep0Event, ..c })
                &&& step.effects.len() == 0
                &&& step.next == NextView::Ask(RequestView::Ep0Event)
            }
        }),
{
}

/// CNXN is answered by CNXN: with the version that the host asks for, if that is one of the two,
/// and otherwise with the first; with the most that a payload of that version holds, 1 MiB or
/// 4 KiB; and with the identity of the device. Nothing else changes.
pub proof fn connect_is_answered(c: ConnectionView, header: AdbHeader, payload: Seq<u8>)
    requires
        header.command is Cnxn,
    ensures
        ({
            let (d, step) = commanded(c, header, Some(payload));
            let second = header.arg0 == 0x0100_0001;
            &&& d.version == if second {
                ProtocolVersion::V1
            } else {
                ProtocolVersion::V0
            }
            &&& d == (ConnectionView { version: d.version, ..c })
            &&& step.next is Wait
            &&& step.effects.len() == 2
            &&& is_message(
                step.effects[0],
                d.version,
                Command::Cnxn,
                if second {
                    0x0100_0001
                } else {
                    0x0100_0000
                },
                if second {
                    0x10_0000
                } else {
                    0x1000
                },
                c.identity,
            )
            &&& reads_header(step.effects[1])
        }),
{
    lemma_tags(0);
}

/// AUTH and STLS are passed over.
pub proof fn other_commands_are_passed_over(
    c: ConnectionView,
    header: AdbHeader,
    payload: Option<Seq<u8>>,
)
    requires
        header.command is Auth || header.command is Stls,
    ensures
        ({
            let (d, step) = commanded(c, header, payload);
            &&& d == c
            &&& step.next is Wait
            &&& step.effects.len() == 1 && reads_header(step.effects[0])
        }),
{
    lemma_tags(0);
}

/// OPEN asks for the service whose name the payload holds up to the first NUL, whatever follows
/// that: a shell is to be started with the command, or a socket connected to the destination, for
/// the stream that gets the next ID; a sync stream is there at once, and so is the one on which
/// the device is rebooted. Where there is no such service, the host is told CLSE, and nothing
/// changes.
pub proof fn open_asks_for_what_is_named(
    c: ConnectionView,
    header: AdbHeader,
    name: Seq<u8>,
    tail: Seq<u8>,
)
    requires
        header.command is Open,
        forall|i: int| 0 <= i < name.len() ==> name[i] != 0,
        valid_utf8(name),
    ensures
        ({
            let (d, step) = commanded(c, header, Some(name + seq![0u8] + tail));
            let remote_id = header.arg0;
            let local_id = c.streams.next_id;
            let opened = |service: ServiceView|
                ConnectionView {
                    streams: StreamsView {
                        streams: c.streams.streams.insert(
                            local_id,
                            StreamView { remote_id, service, waiting_for_okay: false },
                        ),
                        next_id: (local_id + 1) as u32,
                    },
                    ..c
                };
            match service_of(decode_utf8(name)) {
                Ok(ServiceRequestView::Shell(command)) => {
                    &&& d == (ConnectionView { task: Task::StartShell { remote_id }, ..c })
                    &&& step.effects.len() == 0
                    &&& step.next == NextView::Ask(RequestView::StartShell(local_id, command))
                },
                Ok(ServiceRequestView::Forward(destination)) => {
                    &&& d == (ConnectionView { task: Task::Connect { remote_id }, ..c })
                    &&& step.effects.len() == 0
                    &&& step.next == NextView::Ask(RequestView::Connect(local_id, destination))
                },
                Ok(ServiceRequestView::Sync) => {
                    &&& d == opened(ServiceView::Sync(ready(SyncStateView::Idle)))
                    &&& step.next is Wait
                    &&& step.effects.len() == 2
                    &&& is_message(
                        step.effects[0],
                        c.version,
                        Command::Okay,
                        local_id,
                        remote_id,
                        Seq::empty(),
                    )
                    &&& reads_header(step.effects[1])
                },
                Ok(ServiceRequestView::Reboot) => {
                    &&& d == opened(ServiceView::Reboot)
                    &&& step.next is Wait
                    &&& step.effects.len() == 3
                    &&& is_message(
                        step.effects[0],
                        c.version,
                        Command::Okay,
                        local_id,
                        remote_id,
                        Seq::empty(),
                    )
                    &&& step.effects[1] == EffectView::Reboot
                    &&& reads_header(step.effects[2])
                },
                Err(_) => {
                    &&& d == c
                    &&& step.next is Wait
                    &&& step.effects.len() == 2
                    &&& is_message(
                        step.effects[0],
                        c.version,
                        Command::Clse,
                        0,
                        remote_id,
                        Seq::empty(),
                    )
                    &&& reads_header(step.effects[1])
                },
            }
        }),
{
    let payload = name + seq![0u8] + tail;
    lemma_first_index(payload, 0, name.len() as int);
    assert(payload.take(name.len() as int) =~= name);
    lemma_tags(0);
}

/// An OPEN whose payload has no NUL, or no text in front of it, is refused like one for a service
/// that does not exist.
pub proof fn nameless_open_is_refused(
    c: ConnectionView,
    header: AdbHeader,
    name: Seq<u8>,
    tail: Seq<u8>,
)
    requires
        header.command is Open,
        forall|i: int| 0 <= i < name.len() ==> name[i] != 0,
    ensures
        ({
            let (d, step) = commanded(c, header, Some(name));
            &&& d == c
            &&& step.next is Wait
            &&& step.effects.len() == 2
            &&& is_message(
                step.effects[0],
                c.version,
                Command::Clse,
                0,
                header.arg0,
                Seq::empty(),
            )
            &&& reads_header(step.effects[1])
        }),
        !valid_utf8(name) ==> commanded(c, header, Some(name + seq![0u8] + tail)) == commanded(
            c,
            header,
            Some(name),
        ),
{
    let payload = name + seq![0u8] + tail;
    lemma_first_index(payload, 0, name.len() as int);
    lemma_first_index(name, 0, name.len() as int);
    assert(payload.take(name.len() as int) =~= name);
    lemma_tags(0);
}

/// A shell that was started, or a socket that was connected, makes a stream: it gets the next ID
/// and belongs to the stream of the host that asked for it; the host is told OKAY, and the output
/// is read. The streams that are there stay as they are.
pub proof fn started_services_make_streams(c: ConnectionView, remote_id: u32)
    requires
        c.task == (Task::StartShell { remote_id }) || c.task == (Task::Connect { remote_id }),
    ensures
        ({
            let (d, step) = answered(c, ReplyView::Done);
            let local_id = c.streams.next_id;
            let service = if c.task is StartShell {
                ServiceView::Shell
            } else {
                ServiceView::Forward
            };
            &&& d == (ConnectionView {
                streams: StreamsView {
                    streams: c.streams.streams.insert(
                        local_id,
                        StreamView { remote_id, service, waiting_for_okay: false },
                    ),
                    next_id: (local_id + 1) as u32,
                },
                task: Task::Idle,
                ..c
            })
            &&& step.next is Wait
            &&& step.effects.len() == 3
            &&& is_message(
                step.effects[0],
                c.version,
                Command::Okay,
                local_id,
                remote_id,
                Seq::empty(),
            )
            &&& reads_stream(step.effects[1], local_id)
            &&& reads_header(step.effects[2])
        }),
{
    lemma_tags(c.streams.next_id);
}

/// What the host sends on a shell or a socket is acknowledged, and given to that shell or socket as
/// it is; on a stream that is not there it is acknowledged, and that is all. Where the shell or
/// socket does not take it, the stream is closed and the host told so; otherwise nothing changes.
pub proof fn input_is_relayed(c: ConnectionView, header: AdbHeader, payload: Seq<u8>)
    requires
        c.task is Idle,
        header.command is Wrte,
        c.has(header.arg1) ==> c.stream(header.arg1).service is Shell || c.stream(
            header.arg1,
        ).service is Forward,
    ensures
        ({
            let local_id = header.arg1;
            let (d, step) = commanded(c, header, Some(payload));
            let (taken, rest) = answered(d, ReplyView::Done);
            let (refused, end) = answered(d, ReplyView::Failed);
            &&& step.effects.len() > 0 && is_message(
                step.effects[0],
                c.version,
                Command::Okay,
                local_id,
                header.arg0,
                Seq::empty(),
            )
            &&& !c.has(local_id) ==> {
                &&& d == c
                &&& step.next is Wait
                &&& step.effects.len() == 2 && reads_header(step.effects[1])
            }
            &&& c.has(local_id) ==> {
                &&& d == (ConnectionView { task: Task::WriteInput { local_id }, ..c })
                &&& step.effects.len() == 1
                &&& step.next == NextView::Ask(RequestView::WriteInput(local_id, payload))
                &&& taken == c
                &&& rest.next is Wait
                &&& rest.effects.len() == 1 && reads_header(rest.effects[0])
                &&& refused == (ConnectionView {
                    streams: StreamsView {
                        streams: c.streams.streams.remove(local_id),
                        ..c.streams
                    },
                    ..c
                })
                &&& end.next is Wait
                &&& end.effects.len() == 3
                &&& is_message(
                    end.effects[0],
                    c.version,
                    Command::Clse,
                    local_id,
                    c.stream(local_id).remote_id,
                    Seq::empty(),
                )
                &&& end.effects[1] == EffectView::CloseStream(local_id)
                &&& reads_header(end.effects[2])
            }
        }),
{
    lemma_tags(0);
}

/// What a shell prints, or a socket receives, goes to the host as it was read, in one message to
/// the stream of the host; the stream then waits for an OKAY. At the end of the output, and where
/// it cannot be read, the host is told CLSE and the stream is closed. Output of a stream that is
/// gone, or is neither shell nor socket, is dropped.
pub proof fn output_is_relayed(
    c: ConnectionView,
    local_id: u32,
    user_data: u64,
    res: i32,
    data: Seq<u8>,
)
    requires
        tags(user_data, UserDataOpType::PtyRead, Some(local_id)),
    ensures
        ({
            let (d, step) = completed(c, user_data, res, data);
            let stream = c.stream(local_id);
            let relayed = stream.service is Shell || stream.service is Forward;
            &&& step.next is Wait
            &&& !c.has(local_id) || (res > 0 && !relayed) ==> d == c && step.effects.len() == 0
            &&& c.has(local_id) && relayed && res > 0 ==> {
                &&& d == (ConnectionView {
                    streams: StreamsView {
                        streams: c.streams.streams.insert(
                            local_id,
                            StreamView { waiting_for_okay: true, ..stream },
                        ),
                        ..c.streams
                    },
                    ..c
                })
                &&& step.effects.len() == 1
                &&& is_message(
                    step.effects[0],
                    c.version,
                    Command::Wrte,
                    local_id,
                    stream.remote_id,
                    data,
                )
            }
            &&& c.has(local_id) && res <= 0 ==> {
                &&& d == (ConnectionView {
                    streams: StreamsView {
                        streams: c.streams.streams.remove(local_id),
                        ..c.streams
                    },
                    ..c
                })
                &&& step.effects.len() == 2
                &&& is_message(
                    step.effects[0],
                    c.version,
                    Command::Clse,
                    local_id,
                    stream.remote_id,
                    Seq::empty(),
                )
                &&& step.effects[1] == EffectView::CloseStream(local_id)
            }
        }),
{
}

/// An OKAY ends the wait of a stream, and its work goes on: the output of a shell or a socket is
/// read again, the next chunk of a file is asked for, and once the last frame of a file is through,
/// the session is idle again. On a stream that is not there it changes nothing.
pub proof fn okay_lets_the_work_go_on(c: ConnectionView, header: AdbHeader)
    requires
        header.command is Okay,
    ensures
        ({
            let local_id = header.arg1;
            let stream = c.stream(local_id);
            let (d, step) = commanded(c, header, None);
            let through = |service: ServiceView|
                ConnectionView {
                    streams: StreamsView {
                        streams: c.streams.streams.insert(
                            local_id,
                            StreamView {
                                remote_id: stream.remote_id,
                                service,
                                waiting_for_okay: false,
                            },
                        ),
                        ..c.streams
                    },
                    ..c
                };
            &&& !c.has(local_id) ==> {
                &&& d == c
                &&& step.next is Wait
                &&& step.effects.len() == 1 && reads_header(step.effects[0])
            }
            &&& c.has(local_id) ==> match stream.service {
                ServiceView::Shell | ServiceView::Forward => {
                    &&& d == through(stream.service)
                    &&& step.next is Wait
                    &&& step.effects.len() == 2
                    &&& reads_stream(step.effects[0], local_id)
                    &&& reads_header(step.effects[1])
                },
                ServiceView::Sync(service) => match service.state {
                    SyncStateView::Sending(sender) => if sender.done {
                        &&& d == through(
                            ServiceView::Sync(
                                SyncServiceView { state: SyncStateView::Idle, ..service },
                            ),
                        )
                        &&& step.next is Wait
                        &&& step.effects.len() == 1 && reads_header(step.effects[0])
                    } else {
                        &&& d == (ConnectionView {
                            task: Task::ReadChunk { local_id },
                            ..through(stream.service)
                        })
                        &&& step.effects.len() == 0
                        &&& step.next == NextView::Ask(RequestView::ReadChunk(local_id))
                    },
                    _ => {
                        &&& d == through(stream.service)
                        &&& step.next is Wait
                        &&& step.effects.len() == 1 && reads_header(step.effects[0])
                    },
                },
                ServiceView::Reboot => true,
            }
        }),
{
    let local_id = header.arg1;
    lemma_tags(local_id);
    let stream = c.stream(local_id);
    let ready_stream = StreamView { waiting_for_okay: false, ..stream };
    let streams = c.streams.streams.insert(local_id, ready_stream);
    if let ServiceView::Sync(service) = stream.service {
        let idle = SyncServiceView { state: SyncStateView::Idle, ..service };
        let back = StreamView { service: ServiceView::Sync(idle), ..ready_stream };
        assert(streams.insert(local_id, back) =~= c.streams.streams.insert(local_id, back));
    }
}

/// CLSE closes the stream and nothing else, and is answered by CLSE to the stream of the host; a
/// socket is told that no more input comes before it is closed.
pub proof fn close_closes_one_stream(
    c: ConnectionView,
    header: AdbHeader,
    payload: Option<Seq<u8>>,
)
    requires
        header.command is Clse,
        c.has(header.arg1),
    ensures
        ({
            let local_id = header.arg1;
            let stream = c.stream(local_id);
            let (d, step) = commanded(c, header, payload);
            let n = step.effects.len() as int;
            &&& d == (ConnectionView {
                streams: StreamsView {
                    streams: c.streams.streams.remove(local_id),
                    ..c.streams
                },
                ..c
            })
            &&& step.next is Wait
            &&& is_message(
                step.effects[0],
                c.version,
                Command::Clse,
                local_id,
                stream.remote_id,
                Seq::empty(),
            )
            &&& n == if stream.service is Forward {
                4int
            } else {
                3
            }
            &&& stream.service is Forward ==> step.effects[1] == EffectView::ShutdownWrite(local_id)
            &&& step.effects[n - 2] == EffectView::CloseStream(local_id)
            &&& reads_header(step.effects[n - 1])
        }),
{
    lemma_tags(0);
}

/// What a shell or a socket puts out is read piece by piece, and the host answers every message
/// with `okay`: the connection afterwards, and the payloads that were sent.
pub open spec fn relays(
    c: ConnectionView,
    user_data: u64,
    pieces: Seq<Seq<u8>>,
    okay: AdbHeader,
) -> (ConnectionView, Seq<Seq<u8>>)
    decreases pieces.len(),
{
    if pieces.len() == 0 {
        (c, Seq::empty())
    } else {
        let (d, step) = completed(c, user_data, pieces[0].len() as i32, pieces[0]);
        let payload = sent_payload(step.effects[0]);
        let (f, rest) = relays(commanded(d, okay, None).0, user_data, pieces.drop_first(), okay);
        (f, seq![payload] + rest)
    }
}

/// The host gets the output of a shell or a socket whole and in order, however it is cut up by the
/// reads: each piece as it was read, and so, joined, all of it. The stream is as it was.
pub proof fn output_arrives_whole(
    c: ConnectionView,
    local_id: u32,
    user_data: u64,
    pieces: Seq<Seq<u8>>,
    okay: AdbHeader,
)
    requires
        tags(user_data, UserDataOpType::PtyRead, Some(local_id)),
        c.has(local_id),
        c.stream(local_id).service is Shell || c.stream(local_id).service is Forward,
        !c.stream(local_id).waiting_for_okay,
        forall|i: int| 0 <= i < pieces.len() ==> 0 < (#[trigger] pieces[i]).len() <= i32::MAX,
        okay.command is Okay,
        okay.arg1 == local_id,
    ensures
        relays(c, user_data, pieces, okay).1 == pieces,
        relays(c, user_data, pieces, okay).0 == c,
    decreases pieces.len(),
{
    if pieces.len() == 0 {
        assert(pieces =~= Seq::empty());
    } else {
        let piece = pieces[0];
        let rest = pieces.drop_first();
        assert(0 < pieces[0].len() <= i32::MAX);
        let (d, step) = completed(c, user_data, piece.len() as i32, piece);
        output_is_relayed(c, local_id, user_data, piece.len() as i32, piece);
        okay_lets_the_work_go_on(d, okay);
        let e = commanded(d, okay, None).0;
        assert(e.streams.streams =~= c.streams.streams);
        assert(e == c);
        assert forall|i: int| 0 <= i < rest.len() implies 0 < (#[trigger] rest[i]).len()
            <= i32::MAX by {
            assert(rest[i] == pieces[i + 1]);
        }
        output_arrives_whole(c, local_id, user_data, rest, okay);
        assert(seq![piece] + rest =~= pieces);
    }
}

/// A sync session does over its stream what it decides: what it asks of the file system is asked
/// for that stream, what it does to the file is done there first, and its answer goes to the host
/// in one message, byte by byte as it is framed. The session of the stream is then the one that
/// the decision leaves, and nothing else changes. A payload of the host is acknowledged before.
pub proof fn sync_decisions_are_carried_out(
    c: ConnectionView,
    header: AdbHeader,
    payload: Seq<u8>,
    reply: FileReplyView,
    service: SyncServiceView,
    local_id: u32,
    by_reply: bool,
)
    requires
        c.has(local_id),
        c.stream(local_id).service == ServiceView::Sync(service),
        by_reply ==> c.task == (Task::File { local_id }),
        !by_reply ==> c.task is Idle && header.command is Wrte && header.arg1 == local_id,
    ensures
        ({
            let remote_id = c.stream(local_id).remote_id;
            let (next, decision) = if by_reply {
                replied(service, reply)
            } else {
                handled(service, payload)
            };
            let (d, step) = if by_reply {
                answered(c, ReplyView::File(reply))
            } else {
                commanded(c, header, Some(payload))
            };
            let kept = ConnectionView {
                streams: StreamsView {
                    streams: c.streams.streams.insert(
                        local_id,
                        StreamView { service: ServiceView::Sync(next), ..c.stream(local_id) },
                    ),
                    ..c.streams
                },
                task: Task::Idle,
                ..c
            };
            let first = if by_reply {
                0int
            } else {
                1int
            };
            let at = if decision.effect is Some {
                first + 1
            } else {
                first
            };
            &&& !by_reply ==> is_message(
                step.effects[0],
                c.version,
                Command::Okay,
                local_id,
                header.arg0,
                Seq::empty(),
            )
            &&& decision.effect is Some ==> step.effects[first] == EffectView::File(
                local_id,
                decision.effect->0,
            )
            &&& decision.next matches SyncNextView::Ask(request) ==> {
                &&& d == (ConnectionView { task: Task::File { local_id }, ..kept })
                &&& step.effects.len() == at
                &&& step.next == NextView::Ask(RequestView::File(local_id, request))
            }
            &&& decision.next matches SyncNextView::Finished(SyncResultView::Stat(stat)) ==> {
                &&& d == kept
                &&& step.next is Wait
                &&& step.effects.len() == at + 2
                &&& is_message(
                    step.effects[at],
                    c.version,
                    Command::Wrte,
                    local_id,
                    remote_id,
                    u32_bytes(stat.id) + u32_bytes(stat.mode) + u32_bytes(stat.size) + u32_bytes(
                        stat.mtime,
                    ),
                )
                &&& reads_header(step.effects[at + 1])
            }
            &&& decision.next matches SyncNextView::Finished(SyncResultView::Data((head, body)))
                ==> {
                &&& d == kept
                &&& step.next is Wait
                &&& step.effects.len() == at + 2
                &&& is_message(
                    step.effects[at],
                    c.version,
                    Command::Wrte,
                    local_id,
                    remote_id,
                    u32_bytes(response_word(head.id)) + u32_bytes(head.payload_len) + body,
                )
                &&& reads_header(step.effects[at + 1])
            }
            &&& decision.next == SyncNextView::Finished(SyncResultView::Continue) && !(
            next.state is Sending) ==> {
                &&& d == kept
                &&& step.next is Wait
                &&& step.effects.len() == at + 1
                &&& reads_header(step.effects[at])
            }
        }),
{
    lemma_tags(0);
    let (next, decision) = if by_reply {
        replied(service, reply)
    } else {
        handled(service, payload)
    };
    let before = if by_reply {
        Seq::<EffectView>::empty()
    } else {
        seq![c.okay(local_id, header.arg0)]
    };
    let (d, step) = if by_reply {
        answered(c, ReplyView::File(reply))
    } else {
        commanded(c, header, Some(payload))
    };
    assert((d, step) == on_sync_step(
        c.with_task(Task::Idle).with_service(local_id, next),
        local_id,
        before,
        decision,
    ));
}

/// A stat request is answered whole: whoever asks for a path has that path looked up, and gets a
/// response of four words, STAT and mode, size and modification time of the file as the file
/// system gives them, or zeros where there is no file. The connection is as it was.
pub proof fn stat_reaches_the_host(
    c: ConnectionView,
    header: AdbHeader,
    service: SyncServiceView,
    path: Seq<u8>,
    tail: Seq<u8>,
    stat: Option<FileStat>,
)
    requires
        c.task is Idle,
        header.command is Wrte,
        c.has(header.arg1),
        c.stream(header.arg1).service == ServiceView::Sync(service),
        service.stage is Ready,
        !(service.state is Receiving),
        path.len() <= u32::MAX,
        stat is Some ==> stat->0.size <= u32::MAX && 0 <= stat->0.mtime <= u32::MAX,
    ensures
        ({
            let local_id = header.arg1;
            let (asking, step) = commanded(
                c,
                header,
                Some(seq![0x53u8, 0x54, 0x41, 0x54] + u32_bytes(path.len() as u32) + path + tail),
            );
            let (d, answer) = answered(asking, ReplyView::File(FileReplyView::Stat(stat)));
            let words = if stat is Some {
                u32_bytes(stat->0.mode) + u32_bytes(stat->0.size as u32) + u32_bytes(
                    stat->0.mtime as u32,
                )
            } else {
                u32_bytes(0) + u32_bytes(0) + u32_bytes(0)
            };
            &&& step.next == NextView::Ask(
                RequestView::File(local_id, FileRequestView::Lstat(path)),
            )
            &&& d == c
            &&& answer.next is Wait
            &&& answer.effects.len() == 2
            &&& is_message(
                answer.effects[0],
                c.version,
                Command::Wrte,
                local_id,
                c.stream(local_id).remote_id,
                seq![0x53u8, 0x54, 0x41, 0x54] + words,
            )
            &&& reads_header(answer.effects[1])
        }),
{
    let local_id = header.arg1;
    sync_words_spell_their_names(0);
    let payload = seq![0x53u8, 0x54, 0x41, 0x54] + u32_bytes(path.len() as u32) + path + tail;
    assert(payload =~= request_bytes(ID_LSTAT_V1, path) + tail);
    stat_answers_the_request(service, path, tail, stat);
    sync_decisions_are_carried_out(
        c,
        header,
        payload,
        FileReplyView::Done,
        service,
        local_id,
        false,
    );
    let asking = commanded(c, header, Some(payload)).0;
    let waiting = handled(service, payload).0;
    sync_decisions_are_carried_out(
        asking,
        header,
        payload,
        FileReplyView::Stat(stat),
        waiting,
        local_id,
        true,
    );
    let d = answered(asking, ReplyView::File(FileReplyView::Stat(stat))).0;
    assert(d.streams.streams =~= c.streams.streams);
    let s = stat_of(stat);
    assert(u32_bytes(s.id) + u32_bytes(s.mode) + u32_bytes(s.size) + u32_bytes(s.mtime)
        =~= u32_bytes(s.id) + (u32_bytes(s.mode) + u32_bytes(s.size) + u32_bytes(s.mtime)));
}

/// A chunk of a file goes to the host in one DATA frame, as it was read; the end of the file makes
/// a DONE frame, and a chunk that cannot be read a FAIL frame with the reason. The stream then
/// waits for an OKAY; after the last two, that finds the session idle again.
pub proof fn chunks_reach_the_host(
    c: ConnectionView,
    local_id: u32,
    read: ReadReplyView,
    okay: AdbHeader,
)
    requires
        c.inv(),
        c.task == (Task::ReadChunk { local_id }),
        okay.command is Okay,
        okay.arg1 == local_id,
    ensures
        ({
            let (d, step) = answered(c, ReplyView::Chunk(read));
            let (e, next) = commanded(d, okay, None);
            let stream = c.stream(local_id);
            let frame = match read {
                ReadReplyView::Data(data) => if data.len() > 0 {
                    seq![0x44u8, 0x41, 0x54, 0x41] + u32_bytes(data.len() as u32) + data
                } else {
                    seq![0x44u8, 0x4f, 0x4e, 0x45] + u32_bytes(0)
                },
                ReadReplyView::Failed(error) => {
                    let msg = encode_utf8("read error: "@ + error);
                    seq![0x46u8, 0x41, 0x49, 0x4c] + u32_bytes(msg.len() as u32) + msg
                },
            };
            let more = read matches ReadReplyView::Data(data) && data.len() > 0;
            &&& step.next is Wait
            &&& step.effects.len() == 2
            &&& is_message(
                step.effects[0],
                c.version,
                Command::Wrte,
                local_id,
                stream.remote_id,
                frame,
            )
            &&& reads_header(step.effects[1])
            &&& waits(d, local_id)
            &&& !waits(e, local_id)
            &&& more ==> next.next == NextView::Ask(RequestView::ReadChunk(local_id))
            &&& !more ==> next.next is Wait && e.stream(local_id).service == ServiceView::Sync(
                ready(SyncStateView::Idle),
            )
        }),
{
    lemma_tags(0);
    sync_words_spell_their_names(0);
    let d = answered(c, ReplyView::Chunk(read)).0;
    okay_lets_the_work_go_on(d, okay);
    let none = Seq::<u8>::empty();
    assert(u32_bytes(ID_DONE) + u32_bytes(0) + none =~= u32_bytes(ID_DONE) + u32_bytes(0));
}

/// A message is written whole: the header stands in the buffer of the first write, and the payload,
/// unless it is empty, in that of the second, which follows the first; both tell which buffer is
/// to be given back.
pub proof fn messages_are_written_whole(
    slots: Seq<Option<Seq<u8>>>,
    header: Seq<u8>,
    payload: Seq<u8>,
)
    requires
        free_slots(slots) >= slots_needed(payload),
        slots.len() < u32::MAX,
    ensures
        ({
            let (filled, writes) = submitted(slots, header, payload);
            &&& filled.len() == slots.len()
            &&& writes.len() == if payload.len() > 0 {
                2int
            } else {
                1int
            }
            &&& 1 <= writes[0].slot <= slots.len()
            &&& slots[writes[0].slot - 1] is None
            &&& filled[writes[0].slot - 1] == Some(header)
            &&& tags(
                writes[0].user_data,
                UserDataOpType::BulkInWrite,
                Some(writes[0].slot),
            )
            &&& writes[0].linked <==> payload.len() > 0
            &&& payload.len() > 0 ==> {
                &&& 1 <= writes[1].slot <= slots.len()
                &&& writes[1].slot != writes[0].slot
                &&& slots[writes[1].slot - 1] is None
                &&& filled[writes[1].slot - 1] == Some(payload)
                &&& tags(
                    writes[1].user_data,
                    UserDataOpType::BulkInWrite,
                    Some(writes[1].slot),
                )
                &&& !writes[1].linked
            }
        }),
{
    first_free_is_free(slots);
    let first = first_free(slots) as int;
    let filled = slots.update(first, Some(header));
    free_slots_after_update(slots, first, Some(header));
    let writes = submitted(slots, header, payload).1;
    decode_undoes_encode(
        UserData { op_type: UserDataOpType::BulkInWrite, data: Some(writes[0].slot) },
    );
    if payload.len() > 0 {
        first_free_is_free(filled);
        decode_undoes_encode(
            UserData { op_type: UserDataOpType::BulkInWrite, data: Some(writes[1].slot) },
        );
    }
}

/// A host that keeps to the protocol is always heard: data and OKAYs on any stream that does not
/// reboot the device, CLSE for a stream as the host knows it, OPEN as long as there are IDs left,
/// CNXN where the identity of the device is not longer than 16 MiB, AUTH and STLS, all with
/// payloads of up to 1 MiB.
pub proof fn well_behaved_hosts_are_heard(
    c: ConnectionView,
    header: AdbHeader,
    payload: Option<Seq<u8>>,
    user_data: u64,
    res: i32,
    data: Seq<u8>,
)
    requires
        data.len() <= 0x10_0000,
        match header.command {
            Command::Cnxn => payload is Some && c.identity.len() <= 0x100_0000,
            Command::Open => payload is Some && c.streams.next_id < u32::MAX,
            Command::Wrte => payload is Some && !(c.has(header.arg1) && c.stream(
                header.arg1,
            ).service is Reboot),
            Command::Okay => payload is None && !(c.has(header.arg1) && c.stream(
                header.arg1,
            ).service is Reboot),
            Command::Clse => c.has(header.arg1) ==> c.stream(header.arg1).remote_id == header.arg0,
            _ => true,
        },
    ensures
        tags(user_data, UserDataOpType::BulkOutReadHeader, None) && (res < 0 || parsed_header(
            data,
        ) is Err || (parsed_header(data) matches Ok(read) && (read.data_length > 0 || (read
            == header && payload is None)))) ==> admitted(c, user_data, res, data),
        tags(user_data, UserDataOpType::BulkOutReadPayload, None) && (res < 0 || c.pending is None
            || (c.pending == Some(header) && (payload == Some(data) || (c.version is V0 && byte_sum(
            data,
        ) != header.data_check)))) ==> admitted(
            c,
            user_data,
            res,
            data,
        ),
{
    lemma_sendable(c.identity);
}

proof fn lemma_sendable(payload: Seq<u8>)
    ensures
        payload.len() <= 0x100_0000 ==> sendable(ProtocolVersion::V0, payload) && sendable(
            ProtocolVersion::V1,
            payload,
        ),
{
    if payload.len() <= 0x100_0000 {
        ordinary_payloads_can_be_sent(ProtocolVersion::V0, payload);
        ordinary_payloads_can_be_sent(ProtocolVersion::V1, payload);
    }
}

/// Every other completion of an operation that was submitted is heard too: of a poll, of a write
/// from one of the buffers, and of a read on a stream of up to 1 MiB; and so is every reply of the
/// kind that was asked for.
pub proof fn other_completions_are_heard(
    c: ConnectionView,
    user_data: u64,
    res: i32,
    data: Seq<u8>,
    n: u32,
    event: Option<Seq<u8>>,
    stat: Option<FileStat>,
    error: Seq<char>,
)
    requires
        data.len() <= 0x10_0000,
        n != 0,
    ensures
        tags(user_data, UserDataOpType::Ep0Poll, None) ==> admitted(c, user_data, res, data),
        tags(user_data, UserDataOpType::BulkInWrite, Some(n)) && n <= c.slots.len() ==> admitted(
            c,
            user_data,
            res,
            data,
        ),
        tags(user_data, UserDataOpType::PtyRead, Some(n)) ==> admitted(c, user_data, res, data),
        UserData::decoded(user_data) is Err ==> admitted(c, user_data, res, data),
        c.task is Ep0Event ==> fitting(c, ReplyView::Ep0Event(event)),
        c.task is StartShell || c.task is Connect || c.task is WriteInput ==> fitting(
            c,
            ReplyView::Done,
        ) && fitting(c, ReplyView::Failed),
        c.task is ReadChunk && data.len() <= 0x1_0000 ==> fitting(
            c,
            ReplyView::Chunk(ReadReplyView::Data(data)),
        ),
        c.task is ReadChunk && encode_utf8(error).len() <= 0x10_0000 ==> fitting(
            c,
            ReplyView::Chunk(ReadReplyView::Failed(error)),
        ),
        c.task == (Task::File { local_id: n }) ==> match c.stream(n).service {
            ServiceView::Sync(service) => match service.stage {
                SyncStageView::Ready => true,
                SyncStageView::Statting(_) => fitting(
                    c,
                    ReplyView::File(FileReplyView::Stat(stat)),
                ),
                _ => fitting(c, ReplyView::File(FileReplyView::Done)) && (encode_utf8(error).len()
                    <= 0x10_0000 ==> fitting(c, ReplyView::File(FileReplyView::Failed(error)))),
            },
            _ => true,
        },
{
}

} // verus!
