use adibi::sync::{
    parse_sync_frame_header, parse_sync_packet, FileReceiver, InvalidSync, ReceiveEnd,
    SyncCommandParsingError, SyncFrameRequestHeader, SyncFrameRequestId, SyncPacket, SyncPacketId,
};
use winnow::ascii::digit1;
use winnow::binary::{le_u32, length_take};
use winnow::combinator::separated_pair;
use winnow::token::take_until;
use winnow::Parser as _;

fn request(id: &[u8; 4], body: &[u8]) -> Vec<u8> {
    let mut out = id.to_vec();
    out.extend_from_slice(&(body.len() as u32).to_le_bytes());
    out.extend_from_slice(body);
    out
}

fn frame(id: &[u8; 4], n: u32, data: &[u8]) -> Vec<u8> {
    let mut out = id.to_vec();
    out.extend_from_slice(&n.to_le_bytes());
    out.extend_from_slice(data);
    out
}

/// A packet as a comparable value.
fn seen(packet: Result<SyncPacket<'_>, InvalidSync>) -> Option<(char, Vec<u8>, u32)> {
    match packet {
        Ok(SyncPacket::LStatV1(path)) => Some(('l', path.to_vec(), 0)),
        Ok(SyncPacket::RecvV1(path)) => Some(('r', path.to_vec(), 0)),
        Ok(SyncPacket::SendV1(path, mode)) => Some(('s', path.to_vec(), mode)),
        Ok(SyncPacket::Quit) => Some(('q', vec![], 0)),
        Err(InvalidSync) => None,
    }
}

fn parse(bytes: &[u8]) -> (Option<(char, Vec<u8>, u32)>, usize) {
    let mut input = bytes;
    let packet = seen(parse_sync_packet(&mut input));
    (packet, bytes.len() - input.len())
}

#[test]
fn packet_ids_have_words_and_names() {
    let ids = [
        (SyncPacketId::LstatV1, "STAT"),
        (SyncPacketId::RecvV1, "RECV"),
        (SyncPacketId::SendV1, "SEND"),
        (SyncPacketId::Quit, "QUIT"),
    ];
    for (id, name) in ids {
        let word = u32::from_le_bytes(name.as_bytes().try_into().unwrap());
        assert_eq!(SyncPacketId::try_from(word), Ok(id));
        assert_eq!(id.name(), name);
    }
    assert_eq!(SyncPacketId::try_from(5), Err(SyncCommandParsingError(5)));
}

#[test]
fn frame_ids_have_words_and_names() {
    let ids = [
        (SyncFrameRequestId::Data, "DATA"),
        (SyncFrameRequestId::Done, "DONE"),
    ];
    for (id, name) in ids {
        let word = u32::from_le_bytes(name.as_bytes().try_into().unwrap());
        assert_eq!(SyncFrameRequestId::try_from(word), Ok(id));
        assert_eq!(id.name(), name);
    }
    assert_eq!(
        SyncFrameRequestId::try_from(0x5941_4b4f),
        Err(SyncCommandParsingError(0x5941_4b4f))
    );
}

#[test]
fn requests_with_a_path_are_read() {
    let mut bytes = request(b"STAT", b"/etc/hostname");
    bytes.extend_from_slice(b"more");
    assert_eq!(parse(&bytes), (Some(('l', b"/etc/hostname".to_vec(), 0)), 21));
    let bytes = request(b"RECV", b"");
    assert_eq!(parse(&bytes), (Some(('r', vec![], 0)), 8));
    assert_eq!(parse(b"QUITxyz").0, Some(('q', vec![], 0)));
}

#[test]
fn send_requests_are_read() {
    let bytes = request(b"SEND", b"/tmp/file,33188");
    assert_eq!(parse(&bytes), (Some(('s', b"/tmp/file".to_vec(), 33188)), 23));
    // Only the first comma separates, and what follows the digits is ignored.
    let bytes = request(b"SEND", b"/tmp/a,12b,7");
    assert_eq!(parse(&bytes).0, Some(('s', b"/tmp/a".to_vec(), 12)));
    let bytes = request(b"SEND", b"x,4294967295");
    assert_eq!(parse(&bytes).0, Some(('s', b"x".to_vec(), u32::MAX)));
}

#[test]
fn malformed_requests_are_refused() {
    for bytes in [
        b"".to_vec(),
        b"STA".to_vec(),
        b"NOPE\0\0\0\0".to_vec(),
        b"STAT\x05\0\0\0abcd".to_vec(),
        b"STAT\x05\0\0".to_vec(),
        request(b"SEND", b"no comma"),
        request(b"SEND", b",0644"),
        request(b"SEND", b"/tmp/x,"),
        request(b"SEND", b"/tmp/x,rw"),
        request(b"SEND", b"/tmp/x,4294967296"),
    ] {
        assert_eq!(parse(&bytes).0, None, "{bytes:?}");
    }
}

fn winnow_send(body: &[u8]) -> Option<(Vec<u8>, u32)> {
    let mut input = body;
    let parsed: winnow::Result<(&[u8], u32)> = separated_pair(
        take_until(1.., ","),
        ",",
        digit1.verify_map(|b: &[u8]| {
            core::str::from_utf8(b).ok().and_then(|s| s.parse::<u32>().ok())
        }),
    )
    .parse_next(&mut input);
    parsed.ok().map(|(path, mode)| (path.to_vec(), mode))
}

#[test]
fn send_targets_are_split_as_winnow_splits_them() {
    for body in [
        &b"/a,1"[..],
        b",1",
        b"a,",
        b"a",
        b"",
        b",,1",
        b"a,,1",
        b"a,b,1",
        b"a,007",
        b"a,99999999999",
        b"a,1 2",
        b"a,+1",
        b"\xff\xfe,8",
        b"a,0000000000000000000000042",
    ] {
        let ours = parse(&request(b"SEND", body)).0.map(|(_, path, mode)| (path, mode));
        assert_eq!(ours, winnow_send(body), "{body:?}");
    }
}

#[test]
fn lengths_are_taken_as_winnow_takes_them() {
    for bytes in [
        &b"\x03\0\0\0abc"[..],
        b"\x03\0\0\0abcd",
        b"\x03\0\0\0ab",
        b"\0\0\0\0",
        b"\x01\0\0",
        b"\xff\xff\xff\xffx",
    ] {
        let mut input = bytes;
        let theirs: winnow::Result<&[u8]> = length_take(le_u32).parse_next(&mut input);
        let mut request = b"RECV".to_vec();
        request.extend_from_slice(bytes);
        let ours = parse(&request).0.map(|(_, path, _)| path);
        assert_eq!(ours, theirs.ok().map(|b: &[u8]| b.to_vec()), "{bytes:?}");
    }
}

#[test]
fn frame_headers_are_read() {
    let bytes = frame(b"DATA", 0x0102_0304, b"zz");
    let mut input = bytes.as_slice();
    assert_eq!(
        parse_sync_frame_header(&mut input),
        Ok(SyncFrameRequestHeader {
            id: SyncFrameRequestId::Data,
            payload_len: 0x0102_0304
        })
    );
    assert_eq!(input, b"zz");

    let mut short: &[u8] = b"DONE\0\0\0";
    assert_eq!(parse_sync_frame_header(&mut short), Err(InvalidSync));
    assert_eq!(short.len(), 7);
    let mut unknown: &[u8] = b"OKAY\0\0\0\0";
    assert_eq!(parse_sync_frame_header(&mut unknown), Err(InvalidSync));
}

fn receiver() -> FileReceiver {
    FileReceiver::new(b"/tmp/x".to_vec(), 0o644)
}

fn stream() -> Vec<u8> {
    let mut out = frame(b"DATA", 5, b"hello");
    out.extend_from_slice(&frame(b"DATA", 0, b""));
    out.extend_from_slice(&frame(b"DATA", 7, b", world"));
    out.extend_from_slice(&frame(b"DONE", 1234, b""));
    out
}

#[test]
fn whole_stream_is_received_at_once() {
    let mut r = receiver();
    assert_eq!(
        r.receive(&stream()),
        (b"hello, world".to_vec(), ReceiveEnd::Done { mtime: 1234 })
    );
}

#[test]
fn cuts_between_payloads_do_not_show() {
    let bytes = stream();
    for size in 1..bytes.len() {
        let mut r = receiver();
        let mut written = vec![];
        let mut last = ReceiveEnd::More;
        for payload in bytes.chunks(size) {
            assert_eq!(last, ReceiveEnd::More);
            let (data, end) = r.receive(payload);
            written.extend_from_slice(&data);
            last = end;
        }
        assert_eq!(written, b"hello, world", "payloads of {size}");
        assert_eq!(last, ReceiveEnd::Done { mtime: 1234 });
    }
}

#[test]
fn an_empty_payload_changes_nothing() {
    let mut r = receiver();
    assert_eq!(r.receive(&[]), (vec![], ReceiveEnd::More));
    assert_eq!(r.receive(b"DA"), (vec![], ReceiveEnd::More));
    assert_eq!(r.receive(&[]), (vec![], ReceiveEnd::More));
    assert_eq!(r.receive(b"TA\x01\0\0\0"), (vec![], ReceiveEnd::More));
    assert_eq!(r.receive(&[]), (vec![], ReceiveEnd::More));
    assert_eq!(r.receive(b"x"), (b"x".to_vec(), ReceiveEnd::More));
}

#[test]
fn other_frames_end_the_transfer() {
    let mut r = receiver();
    let mut bytes = frame(b"DATA", 2, b"ok");
    bytes.extend_from_slice(b"QUIT\0\0\0\0tail");
    assert_eq!(r.receive(&bytes), (b"ok".to_vec(), ReceiveEnd::Invalid));

    let mut r = receiver();
    assert_eq!(r.receive(b"JUN"), (vec![], ReceiveEnd::More));
    assert_eq!(r.receive(b"K\0\0\0\0"), (vec![], ReceiveEnd::Invalid));
}

#[test]
fn what_follows_done_is_ignored() {
    let mut r = receiver();
    let mut bytes = frame(b"DONE", 7, b"");
    bytes.extend_from_slice(b"garbage");
    assert_eq!(r.receive(&bytes), (vec![], ReceiveEnd::Done { mtime: 7 }));
}
