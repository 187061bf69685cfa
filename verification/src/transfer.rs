//! What a file transfer promises as a whole: the bytes that arrive are the bytes that were sent,
//! however they were cut up on the way.

use crate::bytes::{lemma_le_u32_at, u32_bytes};
use crate::sync::{
    frame_id_of_word, parsed_frame, parsed_packet, preceded, received, request_lies_in_payload,
    request_stands_alone, PacketView, ReceiveEnd, Received, ReceiverView, RecvView,
    SyncFrameRequestHeader, FRAME_HEADER_SIZE, ID_DATA, ID_DONE, PAYLOAD_SIZE_MAX_BYTES,
};
use crate::sync_service::{
    after_write, asks, bare_response_view, chunk_frame, fail_response_view, finishes, handled,
    ready, receives, replied, FileEffectView, FileReplyView, FileRequestView, ReadReplyView,
    ResponseView, SyncFrameResponseId, SyncNextView, SyncResultView, SyncServiceView,
    SyncStageView, SyncStateView, SyncStepView,
};
use vstd::prelude::*;

verus! {

broadcast use crate::bytes::u32_bytes_len;

/// A parsing state that a transfer can be in.
pub open spec fn sound(state: RecvView) -> bool {
    state matches RecvView::Header(begun) ==> begun.len() < FRAME_HEADER_SIZE
}

/// Every payload leaves a transfer in a sound parsing state.
pub proof fn parsing_stays_sound(state: RecvView, data: Seq<u8>)
    requires
        sound(state),
    ensures
        sound(received(state, data).state),
    decreases
            data.len(),
            (if state is Data {
                1nat
            } else {
                0
            }),
{
    match state {
        RecvView::Data(remaining) => {
            if data.len() > 0 && remaining <= data.len() {
                parsing_stays_sound(
                    RecvView::Header(Seq::empty()),
                    data.skip(remaining as int),
                );
            }
        },
        RecvView::Header(begun) => {
            if data.len() > 0 && begun.len() + data.len() >= FRAME_HEADER_SIZE {
                let missing = FRAME_HEADER_SIZE - begun.len();
                if let Some(header) = parsed_frame(begun + data.take(missing)) {
                    if header.id is Data {
                        parsing_stays_sound(
                            RecvView::Data(header.payload_len as nat),
                            data.skip(missing),
                        );
                    }
                }
            }
        },
    }
}

/// Where a payload ends makes no difference: two payloads do to a transfer what one payload with
/// the bytes of both does. Once the transfer is over, further bytes change nothing.
pub proof fn cutting_is_invisible(state: RecvView, a: Seq<u8>, b: Seq<u8>)
    requires
        sound(state),
    ensures
        received(state, a).end is More ==> received(state, a + b) == preceded(
            received(state, a).written,
            received(received(state, a).state, b),
        ),
        !(received(state, a).end is More) ==> received(state, a + b) == received(state, a),
    decreases
            a.len(),
            (if state is Data {
                1nat
            } else {
                0
            }),
{
    if a.len() == 0 {
        lemma_nothing_came(state, b);
        assert(a + b =~= b);
        assert(a =~= Seq::empty());
    } else {
        match state {
            RecvView::Data(remaining) => {
                if remaining > a.len() {
                    lemma_data_goes_on(remaining, a, b);
                } else {
                    let begin = RecvView::Header(Seq::empty());
                    cutting_is_invisible(begin, a.skip(remaining as int), b);
                    lemma_data_ends(remaining, a, b);
                    let ra = received(begin, a.skip(remaining as int));
                    let rb = received(ra.state, b);
                    lemma_preceded_twice(a.take(remaining as int), ra.written, rb);
                }
            },
            RecvView::Header(begun) => {
                if begun.len() + a.len() < FRAME_HEADER_SIZE {
                    lemma_header_goes_on(begun, a, b);
                } else {
                    let missing = FRAME_HEADER_SIZE - begun.len();
                    assert((a + b).take(missing) =~= a.take(missing));
                    assert((a + b).skip(missing) =~= a.skip(missing) + b);
                    if let Some(header) = parsed_frame(begun + a.take(missing)) {
                        if header.id is Data {
                            cutting_is_invisible(
                                RecvView::Data(header.payload_len as nat),
                                a.skip(missing),
                                b,
                            );
                        }
                    }
                }
            },
        }
    }
}

proof fn lemma_preceded_twice(first: Seq<u8>, second: Seq<u8>, r: Received)
    ensures
        preceded(first, preceded(second, r)) == preceded(first + second, r),
{
    assert(first + (second + r.written) =~= (first + second) + r.written);
}

proof fn lemma_nothing_came(state: RecvView, b: Seq<u8>)
    ensures
        received(state, Seq::empty()) == (Received {
            state,
            written: Seq::empty(),
            end: ReceiveEnd::More,
        }),
        preceded(Seq::empty(), received(state, b)) == received(state, b),
{
    if let RecvView::Header(begun) = state {
        assert(begun + Seq::<u8>::empty() =~= begun);
    }
    let r = received(state, b);
    assert(Seq::<u8>::empty() + r.written =~= r.written);
}

proof fn lemma_data_goes_on(remaining: nat, a: Seq<u8>, b: Seq<u8>)
    requires
        0 < a.len() < remaining,
    ensures
        received(RecvView::Data(remaining), a + b) == preceded(
            a,
            received(RecvView::Data((remaining - a.len()) as nat), b),
        ),
{
    let ab = a + b;
    let left = (remaining - a.len()) as nat;
    let r = received(RecvView::Data(left), b);
    if b.len() == 0 {
        assert(ab =~= a);
        assert(a + Seq::<u8>::empty() =~= a);
    } else if left <= b.len() {
        assert(ab.take(remaining as int) =~= a + b.take(left as int));
        assert(ab.skip(remaining as int) =~= b.skip(left as int));
        let rest = received(RecvView::Header(Seq::empty()), b.skip(left as int));
        lemma_preceded_twice(a, b.take(left as int), rest);
    }
}

proof fn lemma_data_ends(remaining: nat, a: Seq<u8>, b: Seq<u8>)
    requires
        0 < a.len(),
        remaining <= a.len(),
    ensures
        received(RecvView::Data(remaining), a + b) == preceded(
            a.take(remaining as int),
            received(RecvView::Header(Seq::empty()), a.skip(remaining as int) + b),
        ),
{
    let n = remaining as int;
    assert((a + b).skip(n) =~= a.skip(n) + b);
    assert((a + b).take(n) =~= a.take(n));
}

proof fn lemma_header_goes_on(begun: Seq<u8>, a: Seq<u8>, b: Seq<u8>)
    requires
        a.len() > 0,
        begun.len() + a.len() < FRAME_HEADER_SIZE,
    ensures
        received(RecvView::Header(begun), a + b) == preceded(
            Seq::empty(),
            received(RecvView::Header(begun + a), b),
        ),
{
    let ab = a + b;
    let next = begun + a;
    let r = received(RecvView::Header(next), b);
    assert(Seq::<u8>::empty() + r.written =~= r.written);
    assert(begun + ab =~= next + b);
    if b.len() == 0 {
        assert(begun + ab =~= next);
    } else if next.len() + b.len() >= FRAME_HEADER_SIZE {
        let missing_ab = FRAME_HEADER_SIZE - begun.len();
        let missing_b = FRAME_HEADER_SIZE - next.len();
        assert(begun + ab.take(missing_ab) =~= next + b.take(missing_b));
        assert(ab.skip(missing_ab) =~= b.skip(missing_b));
    }
}

/// What a row of payloads does to a transfer, one after the other, up to the one that ends it.
pub open spec fn fed(state: RecvView, payloads: Seq<Seq<u8>>) -> Received
    decreases payloads.len(),
{
    if payloads.len() == 0 {
        Received { state, written: Seq::empty(), end: ReceiveEnd::More }
    } else {
        let first = received(state, payloads[0]);
        if first.end is More {
            preceded(first.written, fed(first.state, payloads.drop_first()))
        } else {
            first
        }
    }
}

/// However the host cuts its stream into payloads, the same bytes reach the file and the transfer
/// ends in the same way.
pub proof fn payload_boundaries_are_invisible(state: RecvView, payloads: Seq<Seq<u8>>)
    requires
        sound(state),
    ensures
        fed(state, payloads) == received(state, payloads.flatten()),
    decreases payloads.len(),
{
    if payloads.len() == 0 {
        if let RecvView::Header(begun) = state {
            assert(begun + payloads.flatten() =~= begun);
        }
    } else {
        let rest = payloads.drop_first();
        parsing_stays_sound(state, payloads[0]);
        cutting_is_invisible(state, payloads[0], rest.flatten());
        payload_boundaries_are_invisible(received(state, payloads[0]).state, rest);
        assert(payloads.flatten() =~= payloads[0] + rest.flatten());
    }
}

/// A DATA frame that carries `chunk`.
pub open spec fn data_frame(chunk: Seq<u8>) -> Seq<u8> {
    u32_bytes(ID_DATA) + u32_bytes(chunk.len() as u32) + chunk
}

/// A DONE frame with a modification time.
pub open spec fn done_frame(mtime: u32) -> Seq<u8> {
    u32_bytes(ID_DONE) + u32_bytes(mtime)
}

/// The stream of a whole transfer: a DATA frame for each chunk, then a DONE frame.
pub open spec fn transfer_stream(chunks: Seq<Seq<u8>>, mtime: u32) -> Seq<u8>
    decreases chunks.len(),
{
    if chunks.len() == 0 {
        done_frame(mtime)
    } else {
        data_frame(chunks[0]) + transfer_stream(chunks.drop_first(), mtime)
    }
}

/// No chunk is longer than a frame can announce.
pub open spec fn announceable(chunks: Seq<Seq<u8>>) -> bool {
    forall|i: int| 0 <= i < chunks.len() ==> (#[trigger] chunks[i]).len() <= u32::MAX
}

proof fn lemma_parsed_frame(word: u32, n: u32)
    ensures
        parsed_frame(u32_bytes(word) + u32_bytes(n)) == match frame_id_of_word(word) {
            Ok(id) => Some(SyncFrameRequestHeader { id, payload_len: n }),
            Err(_) => None,
        },
{
    let s = u32_bytes(word) + u32_bytes(n);
    assert(s.skip(0) =~= s);
    assert(s.subrange(0, 4) =~= u32_bytes(word));
    assert(s.subrange(4, 8) =~= u32_bytes(n));
    lemma_le_u32_at(s, 0, word);
    lemma_le_u32_at(s, 4, n);
}

/// Receiving the stream of a transfer gives back the chunks, joined in order, and the
/// modification time; whatever follows the DONE frame is ignored.
pub proof fn receiving_undoes_sending(chunks: Seq<Seq<u8>>, mtime: u32, tail: Seq<u8>)
    requires
        announceable(chunks),
    ensures
        received(RecvView::Header(Seq::empty()), transfer_stream(chunks, mtime) + tail) == (Received {
            state: RecvView::Header(Seq::empty()),
            written: chunks.flatten(),
            end: ReceiveEnd::Done { mtime },
        }),
    decreases chunks.len(),
{
    let none = Seq::<u8>::empty();
    let s = transfer_stream(chunks, mtime) + tail;
    if chunks.len() == 0 {
        lemma_parsed_frame(ID_DONE, mtime);
        assert(none + s.take(8) =~= u32_bytes(ID_DONE) + u32_bytes(mtime));
    } else {
        let chunk = chunks[0];
        let rest = transfer_stream(chunks.drop_first(), mtime) + tail;
        let length = chunk.len() as u32;
        lemma_parsed_frame(ID_DATA, length);
        assert(none + s.take(8) =~= u32_bytes(ID_DATA) + u32_bytes(length));
        assert(s.skip(8) =~= chunk + rest);
        assert((chunk + rest).take(chunk.len() as int) =~= chunk);
        assert((chunk + rest).skip(chunk.len() as int) =~= rest);
        assert(announceable(chunks.drop_first())) by {
            assert forall|i: int| 0 <= i < chunks.drop_first().len() implies (
            #[trigger] chunks.drop_first()[i]).len() <= u32::MAX by {
                assert(chunks.drop_first()[i] == chunks[i + 1]);
            }
        }
        receiving_undoes_sending(chunks.drop_first(), mtime, tail);
        assert(rest.len() > 0);
        assert(received(RecvView::Data(chunk.len()), chunk + rest) == preceded(
            chunk,
            received(RecvView::Header(none), rest),
        ));
        assert(chunks.flatten() =~= chunk + chunks.drop_first().flatten());
    }
}

/// A response frame on the wire.
pub open spec fn response_bytes(frame: ResponseView) -> Seq<u8> {
    frame.0.wire() + frame.1
}

/// The frames that a file is sent in, on the wire: one for each chunk that is read from it, and
/// one for the end of the file.
pub open spec fn pull_stream(chunks: Seq<Seq<u8>>) -> Seq<u8>
    decreases chunks.len(),
{
    if chunks.len() == 0 {
        response_bytes(chunk_frame(ReadReplyView::Data(Seq::empty())))
    } else {
        response_bytes(chunk_frame(ReadReplyView::Data(chunks[0]))) + pull_stream(
            chunks.drop_first(),
        )
    }
}

/// The chunks of a file: each holds something, and fits in a frame.
pub open spec fn file_chunks(chunks: Seq<Seq<u8>>) -> bool {
    forall|i: int|
        0 <= i < chunks.len() ==> 0 < (#[trigger] chunks[i]).len() <= PAYLOAD_SIZE_MAX_BYTES
}

proof fn lemma_pull_stream(chunks: Seq<Seq<u8>>)
    requires
        file_chunks(chunks),
    ensures
        pull_stream(chunks) == transfer_stream(chunks, 0),
        announceable(chunks),
    decreases chunks.len(),
{
    if chunks.len() == 0 {
        assert(pull_stream(chunks) =~= done_frame(0));
    } else {
        let rest = chunks.drop_first();
        assert forall|i: int| 0 <= i < rest.len() implies 0 < (#[trigger] rest[i]).len()
            <= PAYLOAD_SIZE_MAX_BYTES by {
            assert(rest[i] == chunks[i + 1]);
        }
        lemma_pull_stream(rest);
        assert(0 < chunks[0].len() <= PAYLOAD_SIZE_MAX_BYTES);
        assert(response_bytes(chunk_frame(ReadReplyView::Data(chunks[0]))) =~= data_frame(
            chunks[0],
        ));
    }
}

/// Whoever reads the frames of a pulled file by the rules of a transfer gets the file: the chunks
/// that were read from it, joined in order.
pub proof fn pulled_file_is_the_file(chunks: Seq<Seq<u8>>)
    requires
        file_chunks(chunks),
    ensures
        received(RecvView::Header(Seq::empty()), pull_stream(chunks)) == (Received {
            state: RecvView::Header(Seq::empty()),
            written: chunks.flatten(),
            end: ReceiveEnd::Done { mtime: 0 },
        }),
{
    lemma_pull_stream(chunks);
    receiving_undoes_sending(chunks, 0, Seq::empty());
    assert(pull_stream(chunks) + Seq::<u8>::empty() =~= pull_stream(chunks));
}

/// What requests from the host lead to on a file system that carries everything out.
pub struct Settled {
    /// The service afterwards.
    pub service: SyncServiceView,
    /// All that was written to the file.
    pub written: Seq<u8>,
    /// The permissions that the file got.
    pub mode: Option<u32>,
    /// The modification time that the file got.
    pub mtime: Option<u32>,
    /// The last result.
    pub result: SyncResultView,
}

/// How many answers a service can still wait for.
pub open spec fn answers_left(stage: SyncStageView) -> nat {
    match stage {
        SyncStageView::Ready => 0,
        SyncStageView::Writing(_, _) => 2,
        SyncStageView::Creating(_, _, _) => 3,
        _ => 1,
    }
}

/// Follows a step of the service until the request is dealt with.
pub open spec fn settled(service: SyncServiceView, step: SyncStepView) -> Settled
    decreases answers_left(service.stage),
{
    match step.next {
        SyncNextView::Finished(result) => Settled {
            service,
            written: Seq::empty(),
            mode: None,
            mtime: match step.effect {
                Some(FileEffectView::SetModified(mtime)) => Some(mtime),
                _ => None,
            },
            result,
        },
        SyncNextView::Ask(request) => {
            let (next, next_step) = replied(service, FileReplyView::Done);
            if answers_left(next.stage) < answers_left(service.stage) {
                let rest = settled(next, next_step);
                match request {
                    FileRequestView::Write(data) => Settled {
                        written: data + rest.written,
                        ..rest
                    },
                    FileRequestView::SetPermissions(mode) => Settled { mode: Some(mode), ..rest },
                    _ => rest,
                }
            } else {
                arbitrary()
            }
        },
    }
}

/// What a payload from the host leads to on a file system that carries everything out.
pub open spec fn settles(service: SyncServiceView, data: Seq<u8>) -> Settled {
    let (next, step) = handled(service, data);
    settled(next, step)
}

/// What a row of payloads leads to, up to the one that gets a result other than `Continue`.
pub open spec fn pushes(service: SyncServiceView, payloads: Seq<Seq<u8>>) -> Settled
    decreases payloads.len(),
{
    if payloads.len() == 0 {
        Settled {
            service,
            written: Seq::empty(),
            mode: None,
            mtime: None,
            result: SyncResultView::Continue,
        }
    } else {
        let first = settles(service, payloads[0]);
        if first.result is Continue {
            let rest = pushes(first.service, payloads.drop_first());
            Settled { written: first.written + rest.written, ..rest }
        } else {
            first
        }
    }
}

/// What a transfer into a file leads to.
pub open spec fn push_outcome(receiver: ReceiverView, r: Received) -> Settled {
    match r.end {
        ReceiveEnd::More => Settled {
            service: ready(SyncStateView::Receiving(ReceiverView { state: r.state, ..receiver })),
            written: r.written,
            mode: None,
            mtime: None,
            result: SyncResultView::Continue,
        },
        ReceiveEnd::Done { mtime } => Settled {
            service: ready(SyncStateView::Idle),
            written: r.written,
            mode: Some(receiver.mode),
            mtime: Some(mtime),
            result: SyncResultView::Data(bare_response_view(SyncFrameResponseId::Okay)),
        },
        ReceiveEnd::Invalid => Settled {
            service: ready(SyncStateView::Idle),
            written: r.written,
            mode: None,
            mtime: None,
            result: SyncResultView::Data(fail_response_view("invalid sync frame during send"@)),
        },
    }
}

proof fn lemma_after_write(receiver: ReceiverView, end: ReceiveEnd)
    ensures
        ({
            let (service, step) = after_write(SyncStateView::Idle, receiver, end);
            settled(service, step) == push_outcome(
                receiver,
                Received { state: receiver.state, written: Seq::empty(), end },
            )
        }),
{
    let (service, step) = after_write(SyncStateView::Idle, receiver, end);
    if let ReceiveEnd::Done { mtime } = end {
        let (next, next_step) = replied(service, FileReplyView::Done);
        assert(settled(next, next_step).mtime == Some(mtime));
    }
}

/// During a transfer a payload leads to what the frames in it say.
pub proof fn payload_follows_the_stream(receiver: ReceiverView, data: Seq<u8>)
    ensures
        ({
            let (service, step) = receives(SyncStateView::Idle, receiver, data);
            settled(service, step) == push_outcome(receiver, received(receiver.state, data))
        }),
        settles(ready(SyncStateView::Receiving(receiver)), data) == push_outcome(
            receiver,
            received(receiver.state, data),
        ),
{
    let r = received(receiver.state, data);
    let next = ReceiverView { state: r.state, ..receiver };
    lemma_after_write(next, r.end);
    let (service, step) = receives(SyncStateView::Idle, receiver, data);
    if r.written.len() > 0 {
        assert(replied(service, FileReplyView::Done) == after_write(
            SyncStateView::Idle,
            next,
            r.end,
        ));
        assert(r.written + Seq::<u8>::empty() =~= r.written);
    } else {
        assert(r.written =~= Seq::empty());
    }
}

/// A file that the host pushes gets exactly what its stream of frames carries, however the host
/// cuts the stream into payloads: the outcome is that of the stream as a whole.
pub proof fn push_follows_the_stream(receiver: ReceiverView, payloads: Seq<Seq<u8>>)
    requires
        sound(receiver.state),
    ensures
        pushes(ready(SyncStateView::Receiving(receiver)), payloads) == push_outcome(
            receiver,
            received(receiver.state, payloads.flatten()),
        ),
    decreases payloads.len(),
{
    payload_boundaries_are_invisible(receiver.state, payloads);
    let service = ready(SyncStateView::Receiving(receiver));
    if payloads.len() > 0 {
        let r = received(receiver.state, payloads[0]);
        payload_follows_the_stream(receiver, payloads[0]);
        parsing_stays_sound(receiver.state, payloads[0]);
        if r.end is More {
            let next = ReceiverView { state: r.state, ..receiver };
            push_follows_the_stream(next, payloads.drop_first());
            payload_boundaries_are_invisible(r.state, payloads.drop_first());
        }
    }
}

/// What stands behind a SEND request in its payload counts as the first payload of the transfer.
/// The request, with or without something behind it, asks for the same file to be created. Once
/// that is done, the payload as a whole gets the answer that the request alone and then the rest
/// as a payload of its own get, and leaves the session where they leave it, but for one thing: a
/// transfer that ends in the payload it began in leaves the session as it was before, whereas any
/// other leaves it idle. Where the file cannot be created, what stands behind the request is
/// ignored.
pub proof fn leftover_counts_as_a_payload(
    service: SyncServiceView,
    data: Seq<u8>,
    path: Seq<u8>,
    mode: u32,
    taken: nat,
    error: Seq<char>,
)
    requires
        service.stage is Ready,
        !(service.state is Receiving),
        parsed_packet(data) == Some((PacketView::SendV1(path, mode), taken)),
    ensures
        ({
            let (whole, ask) = handled(service, data);
            let (alone, ask_alone) = handled(service, data.take(taken as int));
            let (begun, answer_alone) = replied(alone, FileReplyView::Done);
            let (then, answer_then) = handled(begun, data.skip(taken as int));
            let (now, answer) = replied(whole, FileReplyView::Done);
            &&& ask == asks(FileRequestView::Create(path))
            &&& ask_alone == ask
            &&& begun == ready(
                SyncStateView::Receiving(
                    ReceiverView { path, mode, state: RecvView::Header(Seq::empty()) },
                ),
            )
            &&& answer_alone == finishes(SyncResultView::Continue)
            &&& answer == answer_then
            &&& now.stage == then.stage
            &&& then.state is Idle ==> now.state == service.state
            &&& !(then.state is Idle) ==> now.state == then.state
            &&& replied(whole, FileReplyView::Failed(error)) == replied(
                alone,
                FileReplyView::Failed(error),
            )
        }),
{
    request_stands_alone(data);
    request_lies_in_payload(data);
    let request = data.take(taken as int);
    assert(request.skip(taken as int) =~= Seq::empty());
    assert(Seq::<u8>::empty() + Seq::<u8>::empty() =~= Seq::<u8>::empty());
}

/// In an idle session a SEND request with something behind it leads to exactly what the request
/// and then the rest as a payload of its own lead to.
pub proof fn leftover_is_pushed(data: Seq<u8>, path: Seq<u8>, mode: u32, taken: nat)
    requires
        parsed_packet(data) == Some((PacketView::SendV1(path, mode), taken)),
    ensures
        settles(ready(SyncStateView::Idle), data) == pushes(
            ready(SyncStateView::Idle),
            seq![data.take(taken as int), data.skip(taken as int)],
        ),
{
    let idle = ready(SyncStateView::Idle);
    let request = data.take(taken as int);
    let rest = data.skip(taken as int);
    let receiver = ReceiverView { path, mode, state: RecvView::Header(Seq::empty()) };
    let begun = ready(SyncStateView::Receiving(receiver));
    leftover_counts_as_a_payload(idle, data, path, mode, taken, Seq::empty());
    payload_follows_the_stream(receiver, rest);
    let payloads = seq![request, rest];
    let last = payloads.drop_first();
    assert(last =~= seq![rest]);
    assert(last.drop_first() =~= Seq::<Seq<u8>>::empty());
    let (whole, ask) = handled(idle, data);
    assert(replied(whole, FileReplyView::Done) == receives(SyncStateView::Idle, receiver, rest));
    assert(settles(idle, data) == settles(begun, rest));
    let (alone, _) = handled(idle, request);
    let (next, step) = replied(alone, FileReplyView::Done);
    assert(settled(next, step).service == begun);
    push_follows_the_stream(receiver, last);
    assert(last.flatten() =~= rest) by {
        assert(last.drop_first().flatten() =~= Seq::empty());
    }
    let end = settles(begun, rest);
    assert(Seq::<u8>::empty() + end.written =~= end.written);
}

/// A push puts the file there. Let the host send a SEND request for a path and a mode and behind
/// it, in the same payload and in as many others as it likes, the frames of some chunks and a
/// DONE frame. Then the file holds the chunks, joined in order, has the mode and the modification
/// time that were sent, the host is answered OKAY, and the service waits for the next request.
pub proof fn push_puts_the_file_there(
    first: Seq<u8>,
    more: Seq<Seq<u8>>,
    path: Seq<u8>,
    mode: u32,
    taken: nat,
    chunks: Seq<Seq<u8>>,
    mtime: u32,
    tail: Seq<u8>,
)
    requires
        parsed_packet(first) == Some((PacketView::SendV1(path, mode), taken)),
        announceable(chunks),
        first.skip(taken as int) + more.flatten() == transfer_stream(chunks, mtime) + tail,
    ensures
        handled(ready(SyncStateView::Idle), first).1 == asks(FileRequestView::Create(path)),
        pushes(ready(SyncStateView::Idle), seq![first] + more) == (Settled {
            service: ready(SyncStateView::Idle),
            written: chunks.flatten(),
            mode: Some(mode),
            mtime: Some(mtime),
            result: SyncResultView::Data(bare_response_view(SyncFrameResponseId::Okay)),
        }),
{
    let receiver = ReceiverView { path, mode, state: RecvView::Header(Seq::empty()) };
    let leftover = first.skip(taken as int);
    let payloads = seq![leftover] + more;
    let begun = ready(SyncStateView::Receiving(receiver));
    receiving_undoes_sending(chunks, mtime, tail);
    push_follows_the_stream(receiver, payloads);
    assert(payloads.drop_first() =~= more);
    assert(payloads.flatten() =~= leftover + more.flatten());
    assert((seq![first] + more).drop_first() =~= more);
    payload_follows_the_stream(receiver, leftover);
    let (service, step) = handled(ready(SyncStateView::Idle), first);
    assert(replied(service, FileReplyView::Done) == receives(
        SyncStateView::Idle,
        receiver,
        leftover,
    ));
    assert(settles(ready(SyncStateView::Idle), first) == settles(begun, leftover));
}

} // verus!
