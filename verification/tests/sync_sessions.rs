use adibi::sync::SyncCommandParsingError;
use adibi::sync_service::{
    data_response, done_response, fail_response, okay_response, FileEffect, FileReply, FileRequest,
    FileSender, FileStat, ReadReply, SyncFrameResponseHeader, SyncFrameResponseId, SyncNext,
    SyncResult, SyncService, SyncStat, SyncState, SyncStep, ERROR_TEXT_MAX_BYTES,
};

fn request(id: &[u8; 4], body: &[u8]) -> Vec<u8> {
    let mut out = id.to_vec();
    out.extend_from_slice(&(body.len() as u32).to_le_bytes());
    out.extend_from_slice(body);
    out
}

fn data(chunk: &[u8]) -> Vec<u8> {
    request(b"DATA", chunk)
}

fn done(mtime: u32) -> Vec<u8> {
    let mut out = b"DONE".to_vec();
    out.extend_from_slice(&mtime.to_le_bytes());
    out
}

fn failed(error: &str) -> FileReply {
    FileReply::Failed {
        error: error.to_owned(),
    }
}

/// The message of a step that answers FAIL.
fn failure(step: SyncStep) -> String {
    match step.next {
        SyncNext::Finished(SyncResult::Data(header, payload)) => {
            assert_eq!(header.id, SyncFrameResponseId::Fail);
            assert_eq!(header.payload_len as usize, payload.len());
            String::from_utf8(payload).unwrap()
        }
        other => panic!("{other:?}"),
    }
}

fn asked(step: SyncStep) -> FileRequest {
    assert!(step.effect.is_none());
    match step.next {
        SyncNext::Ask(request) => request,
        other => panic!("{other:?}"),
    }
}

fn is_continue(step: &SyncStep) -> bool {
    step.effect.is_none() && matches!(step.next, SyncNext::Finished(SyncResult::Continue))
}

#[test]
fn response_ids_have_words_and_names() {
    let ids = [
        (SyncFrameResponseId::Data, "DATA"),
        (SyncFrameResponseId::Done, "DONE"),
        (SyncFrameResponseId::Okay, "OKAY"),
        (SyncFrameResponseId::Fail, "FAIL"),
    ];
    for (id, name) in ids {
        assert_eq!(id.name(), name);
        assert_eq!(u32::from(id).to_le_bytes(), name.as_bytes());
        assert_eq!(SyncFrameResponseId::try_from(u32::from(id)), Ok(id));
    }
    let quit = u32::from_le_bytes(*b"QUIT");
    assert_eq!(
        SyncFrameResponseId::try_from(quit),
        Err(SyncCommandParsingError(quit))
    );
}

#[test]
fn responses_are_framed() {
    let (header, payload) = data_response(b"abc");
    assert_eq!(header.frame(&payload), b"DATA\x03\0\0\0abc");
    let (header, payload) = done_response();
    assert_eq!(header.frame(&payload), b"DONE\0\0\0\0");
    let (header, payload) = okay_response();
    assert_eq!(header.frame(&payload), b"OKAY\0\0\0\0");
    let (header, payload) = fail_response("no \u{e9}");
    assert_eq!(header.frame(&payload), b"FAIL\x05\0\0\0no \xc3\xa9");
    assert_eq!(
        header,
        SyncFrameResponseHeader {
            id: SyncFrameResponseId::Fail,
            payload_len: 5
        }
    );
}

#[test]
fn stat_is_sixteen_bytes() {
    let stat = SyncStat {
        id: u32::from_le_bytes(*b"STAT"),
        mode: 0o100644,
        size: 0x0102,
        mtime: 3,
    };
    assert_eq!(
        stat.to_bytes(),
        b"STAT\xa4\x81\0\0\x02\x01\0\0\x03\0\0\0"
    );
}

#[test]
fn lstat_asks_and_answers() {
    let mut service = SyncService::new();
    let step = service.handle(&request(b"STAT", b"/etc/x"));
    assert!(matches!(asked(step), FileRequest::Lstat { path } if path == b"/etc/x"));
    let stat = FileStat {
        mode: 0o644,
        size: 77,
        mtime: 1_700_000_000,
    };
    assert!(service.accepts(&FileReply::Stat(Some(stat))));
    assert!(!service.accepts(&FileReply::Done));
    let step = service.reply(FileReply::Stat(Some(stat)));
    match step.next {
        SyncNext::Finished(SyncResult::Stat(answer)) => assert_eq!(
            (answer.id, answer.mode, answer.size, answer.mtime),
            (u32::from_le_bytes(*b"STAT"), 0o644, 77, 1_700_000_000)
        ),
        other => panic!("{other:?}"),
    }
}

#[test]
fn lstat_of_a_missing_file_is_all_zero() {
    let mut service = SyncService::new();
    service.handle(&request(b"STAT", b"/nope"));
    let step = service.reply(FileReply::Stat(None));
    match step.next {
        SyncNext::Finished(SyncResult::Stat(answer)) => {
            assert_eq!((answer.mode, answer.size, answer.mtime), (0, 0, 0));
        }
        other => panic!("{other:?}"),
    }
}

#[test]
fn stats_that_do_not_fit_are_answered_by_fail() {
    let fits = FileStat {
        mode: 0,
        size: u64::from(u32::MAX),
        mtime: i64::from(u32::MAX),
    };
    let mut service = SyncService::new();
    service.handle(&request(b"STAT", b"/big"));
    let step = service.reply(FileReply::Stat(Some(fits)));
    assert!(matches!(
        step.next,
        SyncNext::Finished(SyncResult::Stat(answer))
            if answer.size == u32::MAX && answer.mtime == u32::MAX
    ));
    for (stat, reason) in [
        (FileStat { size: 1 << 32, ..fits }, "file size does not fit in 32 bits"),
        (FileStat { mtime: 1 << 32, ..fits }, "modification time does not fit in 32 bits"),
        (FileStat { mtime: -1, ..fits }, "modification time does not fit in 32 bits"),
    ] {
        service.handle(&request(b"STAT", b"/big"));
        assert!(service.accepts(&FileReply::Stat(Some(stat))));
        let step = service.reply(FileReply::Stat(Some(stat)));
        assert_eq!(failure(step), format!("cannot stat /big: {reason}"));
        // The session goes on.
        assert!(matches!(
            asked(service.handle(&request(b"STAT", b"/small"))),
            FileRequest::Lstat { path } if path == b"/small"
        ));
        service.reply(FileReply::Stat(None));
    }
}

#[test]
fn pull_sends_chunks_and_done() {
    let mut service = SyncService::new();
    let step = service.handle(&request(b"RECV", b"/f"));
    assert!(matches!(asked(step), FileRequest::OpenRead { path } if path == b"/f"));
    assert!(is_continue(&service.reply(FileReply::Done)));
    let mut wire = vec![];
    for chunk in [&b"first "[..], b"second", b""] {
        assert!(service.wants_chunk());
        let (header, payload) = service.chunk(ReadReply::Data(chunk.to_vec()));
        wire.extend_from_slice(&header.frame(&payload));
    }
    assert_eq!(wire, b"DATA\x06\0\0\0first DATA\x06\0\0\0secondDONE\0\0\0\0");
    assert!(!service.wants_chunk());
    assert!(matches!(service.state, SyncState::Idle));
}

#[test]
fn sender_stops_after_the_end() {
    let mut sender = FileSender { done: false };
    let frame = sender.next_frame(ReadReply::Failed {
        error: "io".to_owned(),
    });
    let (header, payload) = frame.unwrap();
    assert_eq!(header.id, SyncFrameResponseId::Fail);
    assert_eq!(payload, b"read error: io");
    assert!(sender.done);
    assert!(sender.next_frame(ReadReply::Data(vec![1])).is_none());
}

#[test]
fn pull_of_a_missing_file_fails() {
    let mut service = SyncService::new();
    service.handle(&request(b"RECV", b"/gone"));
    let step = service.reply(failed("No such file"));
    assert_eq!(failure(step), "cannot open /gone: No such file");
    assert!(!service.wants_chunk());
}

#[test]
fn push_in_one_payload() {
    let mut service = SyncService::new();
    let mut payload = request(b"SEND", b"/tmp/a,420");
    payload.extend_from_slice(&data(b"hello "));
    payload.extend_from_slice(&data(b"world"));
    payload.extend_from_slice(&done(99));
    let step = service.handle(&payload);
    assert!(matches!(asked(step), FileRequest::Create { path } if path == b"/tmp/a"));
    let step = service.reply(FileReply::Done);
    assert!(matches!(asked(step), FileRequest::Write { data } if data == b"hello world"));
    let step = service.reply(FileReply::Done);
    assert!(matches!(asked(step), FileRequest::SetPermissions { mode: 420 }));
    let step = service.reply(FileReply::Done);
    assert!(matches!(step.effect, Some(FileEffect::SetModified { mtime: 99 })));
    match step.next {
        SyncNext::Finished(SyncResult::Data(header, payload)) => {
            assert_eq!(header.frame(&payload), b"OKAY\0\0\0\0");
        }
        other => panic!("{other:?}"),
    }
    assert!(matches!(service.state, SyncState::Idle));
}

#[test]
fn push_in_many_payloads() {
    let mut service = SyncService::new();
    let mut stream = data(b"some contents");
    stream.extend_from_slice(&done(5));
    service.handle(&request(b"SEND", b"/p,1"));
    assert!(is_continue(&service.reply(FileReply::Done)));
    let mut written = vec![];
    for payload in stream.chunks(3) {
        let mut step = service.handle(payload);
        loop {
            match step.next {
                SyncNext::Ask(FileRequest::Write { data }) => {
                    written.extend_from_slice(&data);
                    step = service.reply(FileReply::Done);
                }
                SyncNext::Ask(FileRequest::SetPermissions { mode }) => {
                    assert_eq!(mode, 1);
                    step = service.reply(FileReply::Done);
                }
                SyncNext::Ask(other) => panic!("{other:?}"),
                SyncNext::Finished(_) => break,
            }
        }
    }
    assert_eq!(written, b"some contents");
    assert!(matches!(service.state, SyncState::Idle));
}

#[test]
fn failing_create_is_reported() {
    let mut service = SyncService::new();
    service.handle(&request(b"SEND", b"/ro/\xff,1"));
    let step = service.reply(failed("Read-only"));
    assert!(step.effect.is_none());
    assert_eq!(failure(step), "cannot create /ro/\u{fffd}: Read-only");
}

#[test]
fn failing_write_removes_the_file() {
    let mut service = SyncService::new();
    let mut payload = request(b"SEND", b"/full,1");
    payload.extend_from_slice(&data(b"x"));
    service.handle(&payload);
    service.reply(FileReply::Done);
    let step = service.reply(failed("No space"));
    assert!(matches!(&step.effect, Some(FileEffect::RemoveFile { path }) if path == b"/full"));
    assert_eq!(failure(step), "write error for /full: No space");
    assert!(matches!(service.state, SyncState::Idle));
}

#[test]
fn failing_permissions_remove_the_file() {
    let mut service = SyncService::new();
    let mut payload = request(b"SEND", b"/odd,1");
    payload.extend_from_slice(&done(1));
    service.handle(&payload);
    let step = service.reply(FileReply::Done);
    assert!(matches!(asked(step), FileRequest::SetPermissions { mode: 1 }));
    let step = service.reply(failed("denied"));
    assert!(matches!(&step.effect, Some(FileEffect::RemoveFile { path }) if path == b"/odd"));
    assert_eq!(failure(step), "cannot set permissions on /odd: denied");
}

#[test]
fn stray_frames_remove_the_file() {
    let mut service = SyncService::new();
    let mut payload = request(b"SEND", b"/odd,1");
    payload.extend_from_slice(b"WHAT\0\0\0\0");
    service.handle(&payload);
    let step = service.reply(FileReply::Done);
    assert!(matches!(&step.effect, Some(FileEffect::RemoveFile { path }) if path == b"/odd"));
    assert_eq!(failure(step), "invalid sync frame during send");
    assert!(matches!(service.state, SyncState::Idle));
}

#[test]
fn bad_requests_and_quit() {
    let mut service = SyncService::new();
    assert_eq!(failure(service.handle(b"????")), "invalid sync request");
    let step = service.handle(b"QUIT\0\0\0\0");
    assert!(matches!(step.next, SyncNext::Finished(SyncResult::Quit)));
}

#[test]
fn overlong_reasons_are_not_accepted() {
    let mut service = SyncService::new();
    service.handle(&request(b"RECV", b"/f"));
    assert!(service.accepts(&failed(&"x".repeat(ERROR_TEXT_MAX_BYTES))));
    assert!(!service.accepts(&failed(&"x".repeat(ERROR_TEXT_MAX_BYTES + 1))));
    assert!(ReadReply::Data(vec![0; 0x1_0000]).is_fitting());
    assert!(!ReadReply::Data(vec![0; 0x1_0001]).is_fitting());
}

/// Answers whatever the service asks for, and gives what it asked for and how it ended.
fn carry_out(service: &mut SyncService, mut step: SyncStep) -> (Vec<String>, String) {
    let mut asked = vec![];
    loop {
        if let Some(effect) = step.effect {
            asked.push(format!("{effect:?}"));
        }
        match step.next {
            SyncNext::Ask(request) => {
                asked.push(format!("{request:?}"));
                step = service.reply(FileReply::Done);
            }
            SyncNext::Finished(result) => return (asked, format!("{result:?}")),
        }
    }
}

#[test]
fn bytes_behind_a_send_request_count_as_a_payload() {
    let send = request(b"SEND", b"/tmp/a,420");
    for rest in [
        vec![],
        b"DAT".to_vec(),
        data(b"abc"),
        [data(b"abc"), done(7)].concat(),
        done(7),
        b"BAD!\0\0\0\0".to_vec(),
    ] {
        let mut whole = SyncService::new();
        let step = whole.handle(&[send.clone(), rest.clone()].concat());
        let (asked, result) = carry_out(&mut whole, step);

        let mut cut = SyncService::new();
        let step = cut.handle(&send);
        let (mut asked_cut, between) = carry_out(&mut cut, step);
        assert_eq!(between, format!("{:?}", SyncResult::Continue));
        let step = cut.handle(&rest);
        let (more, result_cut) = carry_out(&mut cut, step);
        asked_cut.extend(more);

        assert_eq!((asked, result), (asked_cut, result_cut));
        assert_eq!(format!("{whole:?}"), format!("{cut:?}"));
    }
}
