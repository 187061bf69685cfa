use adibi::connection::AdbConnection;
use adibi::device_info::DeviceInfo;
use adibi::event::{Effect, Next, Reply, Request, Step};
use adibi::ffs::{EventError, UsbFunctionFsEventTypeError};
use adibi::forward::Destination;
use adibi::message::{checksum, AdbHeader, Command};
use adibi::sync_service::{FileEffect, FileReply, FileRequest, FileStat, ReadReply};
use adibi::user_data::{UserData, UserDataOpType};

const V0: u32 = 0x0100_0000;
const V1: u32 = 0x0100_0001;

fn tag(op: UserDataOpType, data: Option<u32>) -> u64 {
    u64::from(UserData::new(op, data))
}

fn header_tag() -> u64 {
    tag(UserDataOpType::BulkOutReadHeader, None)
}

fn payload_tag() -> u64 {
    tag(UserDataOpType::BulkOutReadPayload, None)
}

fn header(command: Command, arg0: u32, arg1: u32, payload: &[u8]) -> AdbHeader {
    AdbHeader {
        command,
        arg0,
        arg1,
        data_length: payload.len() as u32,
        data_check: checksum(payload),
        magic: u32::from(command) ^ 0xffff_ffff,
    }
}

fn connection() -> AdbConnection {
    AdbConnection::new(DeviceInfo {
        serial: "S".to_owned(),
        name: "N".to_owned(),
        model: "M".to_owned(),
        device: "D".to_owned(),
    })
}

fn complete(c: &mut AdbConnection, user_data: u64, res: i32, data: &[u8]) -> Step {
    assert!(!c.is_asking());
    assert!(c.admits(user_data, res, data));
    c.complete(user_data, res, data)
}

/// Delivers a message of the host, header and payload.
fn deliver(c: &mut AdbConnection, command: Command, arg0: u32, arg1: u32, payload: &[u8]) -> Step {
    let bytes = header(command, arg0, arg1, payload).to_bytes();
    let step = complete(c, header_tag(), bytes.len() as i32, &bytes);
    if payload.is_empty() {
        return step;
    }
    assert_eq!(texts(&step), vec!["read payload"]);
    assert!(matches!(step.next, Next::Wait));
    complete(c, payload_tag(), payload.len() as i32, payload)
}

fn answer(c: &mut AdbConnection, reply: Reply) -> Step {
    assert!(c.accepts(&reply));
    c.reply(reply)
}

/// The effects of a step, spelled out.
fn texts(step: &Step) -> Vec<String> {
    step.effects.iter().map(text).collect()
}

fn text(effect: &Effect) -> String {
    match effect {
        Effect::Send { header, payload } => {
            assert_eq!(header.data_length as usize, payload.len());
            format!(
                "{} {} {} {}",
                header.command.name(),
                header.arg0,
                header.arg1,
                String::from_utf8_lossy(payload)
            )
            .trim_end()
            .to_owned()
        }
        Effect::ReadBulkOut { user_data } if *user_data == header_tag() => "read header".to_owned(),
        Effect::ReadBulkOut { user_data } if *user_data == payload_tag() => {
            "read payload".to_owned()
        }
        Effect::PollEp0 { user_data } if *user_data == tag(UserDataOpType::Ep0Poll, None) => {
            "poll".to_owned()
        }
        Effect::ReadStream {
            local_id,
            user_data,
        } if *user_data == tag(UserDataOpType::PtyRead, Some(*local_id)) => {
            format!("read stream {local_id}")
        }
        Effect::ShutdownWrite { local_id } => format!("shutdown {local_id}"),
        Effect::CloseStream { local_id } => format!("close {local_id}"),
        Effect::File { local_id, effect } => match effect {
            FileEffect::RemoveFile { path } => {
                format!("remove {local_id} {}", String::from_utf8_lossy(path))
            }
            FileEffect::SetModified { mtime } => format!("mtime {local_id} {mtime}"),
        },
        Effect::Reboot => "reboot".to_owned(),
        other => panic!("{other:?}"),
    }
}

fn waits(step: &Step) -> bool {
    matches!(step.next, Next::Wait)
}

fn ask(step: Step) -> Request {
    match step.next {
        Next::Ask(request) => request,
        other => panic!("{other:?}"),
    }
}

fn request(id: &[u8; 4], body: &[u8]) -> Vec<u8> {
    let mut out = id.to_vec();
    out.extend_from_slice(&(body.len() as u32).to_le_bytes());
    out.extend_from_slice(body);
    out
}

/// A connection with a sync stream: 1 here, 50 at the host.
fn with_sync() -> AdbConnection {
    let mut c = connection();
    let step = deliver(&mut c, Command::Open, 50, 0, b"sync:\0");
    assert_eq!(texts(&step), vec!["OKAY 1 50", "read header"]);
    c
}

/// A connection with a shell: 1 here, 60 at the host.
fn with_shell() -> AdbConnection {
    let mut c = connection();
    let step = deliver(&mut c, Command::Open, 60, 0, b"shell:\0");
    assert!(texts(&step).is_empty());
    assert!(matches!(
        ask(step),
        Request::StartShell { local_id: 1, command: None }
    ));
    let step = answer(&mut c, Reply::Done);
    assert_eq!(texts(&step), vec!["OKAY 1 60", "read stream 1", "read header"]);
    c
}

#[test]
fn connection_starts_with_a_poll_and_a_read() {
    let effects: Vec<String> = connection().start().iter().map(text).collect();
    assert_eq!(effects, vec!["poll", "read header"]);
}

#[test]
fn host_is_told_who_the_device_is() {
    let identity = "device:S:ro.product.name=N;ro.product.model=M;ro.product.device=D;";
    let mut c = connection();
    let step = deliver(&mut c, Command::Cnxn, V1, 0x10_0000, b"host::");
    assert_eq!(
        texts(&step),
        vec![format!("CNXN {V1} {} {identity}", 0x10_0000), "read header".to_owned()]
    );
    let step = deliver(&mut c, Command::Cnxn, V0, 4096, b"host::");
    assert_eq!(texts(&step)[0], format!("CNXN {V0} 4096 {identity}"));
    let step = deliver(&mut c, Command::Cnxn, 77, 4096, b"host::");
    assert_eq!(texts(&step)[0], format!("CNXN {V0} 4096 {identity}"));
}

#[test]
fn first_version_drops_mangled_payloads() {
    let mut c = connection();
    let mut mangled = header(Command::Open, 9, 0, b"sync:\0");
    mangled.data_check += 1;
    complete(&mut c, header_tag(), 24, &mangled.to_bytes());
    let step = complete(&mut c, payload_tag(), 6, b"sync:\0");
    assert_eq!(texts(&step), vec!["read header"]);

    // The second version does not look.
    deliver(&mut c, Command::Cnxn, V1, 0, b"host::");
    complete(&mut c, header_tag(), 24, &mangled.to_bytes());
    let step = complete(&mut c, payload_tag(), 6, b"sync:\0");
    assert_eq!(texts(&step), vec!["OKAY 1 9", "read header"]);
}

#[test]
fn junk_on_the_endpoint_is_skipped() {
    let mut c = connection();
    let step = complete(&mut c, header_tag(), 4, b"junk");
    assert_eq!(texts(&step), vec!["read header"]);
    let step = complete(&mut c, payload_tag(), 4, b"junk");
    assert_eq!(texts(&step), vec!["read header"]);
    let step = complete(&mut c, 0xffff, 4, b"junk");
    assert!(texts(&step).is_empty() && waits(&step));
    let step = deliver(&mut c, Command::Auth, 1, 0, b"x");
    assert_eq!(texts(&step), vec!["read header"]);
}

#[test]
fn unknown_services_are_refused() {
    let mut c = connection();
    for payload in [&b"nope:\0"[..], b"sync:", b"\xff\xfe\0", b"tcp:99999\0", b"\0"] {
        let step = deliver(&mut c, Command::Open, 5, 0, payload);
        assert_eq!(texts(&step), vec!["CLSE 0 5", "read header"]);
    }
    // No number was used up.
    let step = deliver(&mut c, Command::Open, 5, 0, b"sync:\0ignored");
    assert_eq!(texts(&step), vec!["OKAY 1 5", "read header"]);
}

#[test]
fn stream_numbers_grow() {
    let mut c = connection();
    for n in 1..=3u32 {
        let step = deliver(&mut c, Command::Open, 40 + n, 0, b"sync:\0");
        assert_eq!(texts(&step)[0], format!("OKAY {n} {}", 40 + n));
    }
    deliver(&mut c, Command::Clse, 42, 2, b"");
    let step = deliver(&mut c, Command::Open, 99, 0, b"sync:\0");
    assert_eq!(texts(&step)[0], "OKAY 4 99");
}

#[test]
fn close_is_answered_once() {
    let mut c = with_sync();
    let step = deliver(&mut c, Command::Clse, 50, 1, b"");
    assert_eq!(texts(&step), vec!["CLSE 1 50", "close 1", "read header"]);
    let step = deliver(&mut c, Command::Clse, 50, 1, b"");
    assert_eq!(texts(&step), vec!["read header"]);
}

#[test]
fn shell_that_cannot_start_is_refused() {
    let mut c = connection();
    let step = deliver(&mut c, Command::Open, 6, 0, b"shell:ls\0");
    assert!(matches!(
        ask(step),
        Request::StartShell { local_id: 1, command: Some(command) } if command == "ls"
    ));
    let step = answer(&mut c, Reply::Failed);
    assert_eq!(texts(&step), vec!["CLSE 0 6", "read header"]);
}

#[test]
fn shell_output_waits_for_okay() {
    let mut c = with_shell();
    let read = tag(UserDataOpType::PtyRead, Some(1));
    let step = complete(&mut c, read, 3, b"$ \n");
    assert_eq!(texts(&step), vec!["WRTE 1 60 $"]);
    assert!(waits(&step));
    // Input does not end the wait, and causes no read.
    let step = deliver(&mut c, Command::Wrte, 60, 1, b"ls\n");
    assert_eq!(texts(&step), vec!["OKAY 1 60"]);
    assert!(matches!(
        ask(step),
        Request::WriteInput { local_id: 1, data } if data == b"ls\n"
    ));
    let step = answer(&mut c, Reply::Done);
    assert_eq!(texts(&step), vec!["read header"]);
    let step = deliver(&mut c, Command::Okay, 60, 1, b"");
    assert_eq!(texts(&step), vec!["read stream 1", "read header"]);
}

#[test]
fn shell_exit_closes_the_stream() {
    for res in [0, -5] {
        let mut c = with_shell();
        let read = tag(UserDataOpType::PtyRead, Some(1));
        let step = complete(&mut c, read, res, b"");
        assert_eq!(texts(&step), vec!["CLSE 1 60", "close 1"]);
        let step = complete(&mut c, read, res, b"");
        assert!(texts(&step).is_empty());
    }
}

#[test]
fn failing_input_closes_the_stream() {
    let mut c = with_shell();
    deliver(&mut c, Command::Wrte, 60, 1, b"x");
    let step = answer(&mut c, Reply::Failed);
    assert_eq!(texts(&step), vec!["CLSE 1 60", "close 1", "read header"]);
}

#[test]
fn forwarded_connections_are_shut_down_first() {
    let mut c = connection();
    let step = deliver(&mut c, Command::Open, 8, 0, b"tcp:8080\0");
    assert!(matches!(
        ask(step),
        Request::Connect { local_id: 1, destination: Destination::Tcp(8080) }
    ));
    let step = answer(&mut c, Reply::Done);
    assert_eq!(texts(&step), vec!["OKAY 1 8", "read stream 1", "read header"]);
    let step = complete(&mut c, tag(UserDataOpType::PtyRead, Some(1)), 2, b"hi");
    assert_eq!(texts(&step), vec!["WRTE 1 8 hi"]);
    let step = deliver(&mut c, Command::Clse, 8, 1, b"");
    assert_eq!(
        texts(&step),
        vec!["CLSE 1 8", "shutdown 1", "close 1", "read header"]
    );
    let step = deliver(&mut c, Command::Open, 8, 0, b"localabstract:x\0");
    assert!(matches!(ask(step), Request::Connect { local_id: 2, .. }));
    let step = answer(&mut c, Reply::Failed);
    assert_eq!(texts(&step), vec!["CLSE 0 8", "read header"]);
}

#[test]
fn reboot_is_acknowledged_and_done() {
    let mut c = connection();
    let step = deliver(&mut c, Command::Open, 3, 0, b"reboot:\0");
    assert_eq!(texts(&step), vec!["OKAY 1 3", "reboot", "read header"]);
    // Nothing but CLSE is expected on that stream.
    let okay = header(Command::Okay, 3, 1, b"").to_bytes();
    assert!(!c.admits(header_tag(), 24, &okay));
    let step = deliver(&mut c, Command::Clse, 3, 1, b"");
    assert_eq!(texts(&step), vec!["CLSE 1 3", "close 1", "read header"]);
}

#[test]
fn breaches_of_the_protocol_are_not_admitted() {
    let mut c = with_sync();
    for bad in [
        header(Command::Cnxn, V1, 0, b""),
        header(Command::Open, 1, 0, b""),
        header(Command::Wrte, 50, 1, b""),
        header(Command::Clse, 51, 1, b""),
    ] {
        assert!(!c.admits(header_tag(), 24, &bad.to_bytes()));
    }
    complete(&mut c, header_tag(), 24, &header(Command::Okay, 50, 1, b"x").to_bytes());
    assert!(!c.admits(payload_tag(), 1, b"x"));
    assert!(!c.admits(tag(UserDataOpType::PtyRead, None), 1, b"x"));
    assert!(!c.admits(tag(UserDataOpType::BulkInWrite, None), 1, b""));
    assert!(!c.admits(tag(UserDataOpType::BulkInWrite, Some(9)), 1, b""));
    assert!(!c.admits(header_tag(), 0, &vec![0; 0x10_0001]));
}

#[test]
fn a_failed_write_without_a_slot_ends_the_connection() {
    let mut c = connection();
    let step = complete(&mut c, tag(UserDataOpType::BulkInWrite, None), -5, b"");
    assert!(texts(&step).is_empty());
    assert!(matches!(
        step.next,
        Next::Fail {
            op_type: UserDataOpType::BulkInWrite,
            result: -5
        }
    ));
}

#[test]
fn data_for_an_unknown_stream_is_only_acknowledged() {
    let mut c = connection();
    let step = deliver(&mut c, Command::Wrte, 70, 7, b"data");
    assert_eq!(texts(&step), vec!["OKAY 7 70", "read header"]);
    let step = deliver(&mut c, Command::Okay, 70, 7, b"");
    assert_eq!(texts(&step), vec!["read header"]);
}

#[test]
fn lstat_goes_through() {
    let mut c = with_sync();
    let step = deliver(&mut c, Command::Wrte, 50, 1, &request(b"STAT", b"/f"));
    assert_eq!(texts(&step), vec!["OKAY 1 50"]);
    assert!(matches!(
        ask(step),
        Request::File { local_id: 1, request: FileRequest::Lstat { path } } if path == b"/f"
    ));
    let step = answer(
        &mut c,
        Reply::File(FileReply::Stat(Some(FileStat {
            mode: 0x41,
            size: 0x42,
            mtime: 0x43,
        }))),
    );
    assert_eq!(
        texts(&step),
        vec!["WRTE 1 50 STATA\0\0\0B\0\0\0C\0\0\0", "read header"]
    );
}

#[test]
fn pull_sends_one_chunk_per_okay() {
    let mut c = with_sync();
    let step = deliver(&mut c, Command::Wrte, 50, 1, &request(b"RECV", b"/f"));
    assert!(matches!(
        ask(step),
        Request::File { local_id: 1, request: FileRequest::OpenRead { .. } }
    ));
    let step = answer(&mut c, Reply::File(FileReply::Done));
    assert!(matches!(ask(step), Request::ReadChunk { local_id: 1 }));
    let step = answer(&mut c, Reply::Chunk(ReadReply::Data(b"one".to_vec())));
    assert_eq!(texts(&step), vec!["WRTE 1 50 DATA\x03\0\0\0one", "read header"]);
    let step = deliver(&mut c, Command::Okay, 50, 1, b"");
    assert!(matches!(ask(step), Request::ReadChunk { local_id: 1 }));
    let step = answer(&mut c, Reply::Chunk(ReadReply::Data(vec![])));
    assert_eq!(texts(&step), vec!["WRTE 1 50 DONE\0\0\0\0", "read header"]);
    let step = deliver(&mut c, Command::Okay, 50, 1, b"");
    assert_eq!(texts(&step), vec!["read header"]);
    let step = deliver(&mut c, Command::Wrte, 50, 1, b"QUIT\0\0\0\0");
    assert_eq!(
        texts(&step),
        vec!["OKAY 1 50", "CLSE 1 50", "close 1", "read header"]
    );
}

#[test]
fn pull_that_fails_tells_why() {
    let mut c = with_sync();
    deliver(&mut c, Command::Wrte, 50, 1, &request(b"RECV", b"/f"));
    answer(&mut c, Reply::File(FileReply::Done));
    let step = answer(
        &mut c,
        Reply::Chunk(ReadReply::Failed {
            error: "broken".to_owned(),
        }),
    );
    assert_eq!(
        texts(&step),
        vec!["WRTE 1 50 FAIL\x12\0\0\0read error: broken", "read header"]
    );
}

#[test]
fn push_ends_with_okay() {
    let mut c = with_sync();
    let mut payload = request(b"SEND", b"/p,8");
    payload.extend_from_slice(&request(b"DATA", b"abc"));
    let step = deliver(&mut c, Command::Wrte, 50, 1, &payload);
    assert_eq!(texts(&step), vec!["OKAY 1 50"]);
    assert!(matches!(
        ask(step),
        Request::File { request: FileRequest::Create { path }, .. } if path == b"/p"
    ));
    let step = answer(&mut c, Reply::File(FileReply::Done));
    assert!(matches!(
        ask(step),
        Request::File { request: FileRequest::Write { data }, .. } if data == b"abc"
    ));
    let step = answer(&mut c, Reply::File(FileReply::Done));
    assert_eq!(texts(&step), vec!["read header"]);
    let step = deliver(&mut c, Command::Wrte, 50, 1, b"DONE\x07\0\0\0");
    assert!(matches!(
        ask(step),
        Request::File { request: FileRequest::SetPermissions { mode: 8 }, .. }
    ));
    let step = answer(&mut c, Reply::File(FileReply::Done));
    assert_eq!(
        texts(&step),
        vec!["mtime 1 7", "WRTE 1 50 OKAY\0\0\0\0", "read header"]
    );
}

#[test]
fn broken_push_removes_the_file() {
    let mut c = with_sync();
    deliver(&mut c, Command::Wrte, 50, 1, &request(b"SEND", b"/p,8"));
    answer(&mut c, Reply::File(FileReply::Done));
    let step = deliver(&mut c, Command::Wrte, 50, 1, b"OOPS\0\0\0\0");
    assert_eq!(
        texts(&step),
        vec![
            "OKAY 1 50",
            "remove 1 /p",
            "WRTE 1 50 FAIL\x1e\0\0\0invalid sync frame during send",
            "read header"
        ]
    );
}

#[test]
fn streams_do_not_disturb_each_other() {
    let mut c = with_sync();
    deliver(&mut c, Command::Wrte, 50, 1, &request(b"SEND", b"/p,8"));
    answer(&mut c, Reply::File(FileReply::Done));
    // Another stream comes, works and goes in the middle of the push.
    deliver(&mut c, Command::Open, 51, 0, b"sync:\0");
    let step = deliver(&mut c, Command::Wrte, 51, 2, b"QUIT\0\0\0\0");
    assert_eq!(
        texts(&step),
        vec!["OKAY 2 51", "CLSE 2 51", "close 2", "read header"]
    );
    let step = deliver(&mut c, Command::Wrte, 50, 1, &request(b"DATA", b"abc"));
    assert!(matches!(
        ask(step),
        Request::File { local_id: 1, request: FileRequest::Write { data } } if data == b"abc"
    ));
}

#[test]
fn ep0_events_stop_the_connection_or_not() {
    let poll = tag(UserDataOpType::Ep0Poll, None);
    for (number, stops) in [(0u8, false), (1, true), (2, false), (3, true), (4, false), (5, false)] {
        let mut c = connection();
        let step = complete(&mut c, poll, 1, b"");
        assert!(texts(&step).is_empty());
        assert!(matches!(ask(step), Request::Ep0Event));
        let mut event = vec![0; 12];
        event[8] = number;
        let step = answer(&mut c, Reply::Ep0Event(Some(event)));
        if stops {
            assert!(texts(&step).is_empty());
            assert!(matches!(step.next, Next::Stop));
        } else {
            assert_eq!(texts(&step), vec!["poll"]);
            assert!(waits(&step));
        }
    }
}

#[test]
fn ep0_without_an_event_fails_the_connection() {
    let mut unknown = vec![0; 12];
    unknown[8] = 9;
    for (reply, expected) in [
        (None, None),
        (Some(vec![0; 11]), Some(EventError::Short)),
        (Some(unknown), Some(EventError::UnknownType(UsbFunctionFsEventTypeError(9)))),
    ] {
        let mut c = connection();
        complete(&mut c, tag(UserDataOpType::Ep0Poll, None), 1, b"");
        let step = answer(&mut c, Reply::Ep0Event(reply));
        assert!(texts(&step).is_empty());
        assert!(matches!(step.next, Next::Ep0Failed { error } if error == expected));
    }
}

#[test]
fn failed_operations_end_the_connection() {
    for op in [
        UserDataOpType::Ep0Poll,
        UserDataOpType::BulkOutReadHeader,
        UserDataOpType::BulkOutReadPayload,
    ] {
        let mut c = connection();
        let step = complete(&mut c, tag(op, None), -108, b"");
        assert!(texts(&step).is_empty());
        assert!(matches!(
            step.next,
            Next::Fail { op_type, result: -108 } if op_type == op
        ));
    }
}

#[test]
fn messages_go_through_buffers() {
    let mut c = connection();
    assert_eq!(c.free_slots(), 8);
    let okay = header(Command::Okay, 1, 2, b"");
    let writes = c.submit_message(&okay, b"");
    assert_eq!(writes.len(), 1);
    assert_eq!((writes[0].slot, writes[0].linked), (1, false));
    assert_eq!(writes[0].user_data, tag(UserDataOpType::BulkInWrite, Some(1)));
    assert_eq!(c.slot_contents(1), Some(&okay.to_bytes()[..]));

    let wrte = header(Command::Wrte, 1, 2, b"data");
    let writes = c.submit_message(&wrte, b"data");
    assert_eq!(writes.len(), 2);
    assert_eq!((writes[0].slot, writes[0].linked), (2, true));
    assert_eq!((writes[1].slot, writes[1].linked), (3, false));
    assert_eq!(c.slot_contents(3), Some(&b"data"[..]));
    assert_eq!(c.free_slots(), 5);

    // Completions give the buffers back, failed ones too.
    for (slot, res) in [(2, 24), (1, -19), (3, 4)] {
        let step = complete(&mut c, tag(UserDataOpType::BulkInWrite, Some(slot)), res, b"");
        assert!(texts(&step).is_empty() && waits(&step));
        assert_eq!(c.slot_contents(slot), None);
    }
    assert_eq!(c.free_slots(), 8);
}
