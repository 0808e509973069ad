use icebox::wire::{
    decode_request, decode_result, deframe, encode_request, encode_result, frame, read_request,
    read_result, ExecuteCommand, ExecuteError, FileMode, OpenFile, ProtocolError, Request,
    MAX_FRAME_LENGTH,
};

fn whoami_command() -> ExecuteCommand {
    ExecuteCommand {
        file: String::from("/usr/bin/whoami"),
        args: vec![String::from("whoami")],
        envs: vec![String::from("PATH=/usr/bin:/bin"), String::from("HOME=/")],
        working_dir: String::from("/"),
        open_files: vec![OpenFile {
            path: String::from("/in/stdout"),
            fds: vec![1],
            mode: FileMode::WriteOnly,
        }],
        cgroup_file: None,
    }
}

#[test]
fn request_round_trip_execute() {
    let request = Request::Execute(whoami_command());
    let payload = encode_request(&request);
    let decoded = decode_request(&payload).expect("a well-formed payload decodes");
    assert_eq!(decoded, Request::Execute(whoami_command()));
}

#[test]
fn request_round_trip_cleanup() {
    let payload = encode_request(&Request::Cleanup);
    assert_eq!(payload, vec![1, 0, 0, 0]);
    let decoded = decode_request(&payload).expect("a well-formed payload decodes");
    assert_eq!(decoded, Request::Cleanup);
}

#[test]
fn request_round_trip_with_cgroup_and_many_fds() {
    let request = Request::Execute(ExecuteCommand {
        file: String::from("/in/package/a.out"),
        args: vec![String::from("a.out"), String::from("--fast")],
        envs: vec![],
        working_dir: String::from("/in/package"),
        open_files: vec![
            OpenFile {
                path: String::from("/in/stdin"),
                fds: vec![0],
                mode: FileMode::ReadOnly,
            },
            OpenFile {
                path: String::from("/in/extra"),
                fds: vec![3, 4],
                mode: FileMode::ReadOnly,
            },
        ],
        cgroup_file: Some(String::from(
            "/sys/fs/cgroup/memory/sandbox/abcdefgh01234567/tasks",
        )),
    });
    let payload = encode_request(&request);
    let decoded = decode_request(&payload).expect("a well-formed payload decodes");
    assert_eq!(Some(decoded), Some(request));
}

#[test]
fn result_round_trip() {
    for result in [Ok(0), Ok(42), Err(ExecuteError::Signaled(6)), Err(ExecuteError::Signaled(9))] {
        let payload = encode_result(&result);
        let decoded = decode_result(&payload).expect("a well-formed payload decodes");
        assert_eq!(decoded, result);
    }
}

#[test]
fn result_exact_bytes() {
    // Tag 0 and status 7, both 32-bit little-endian.
    assert_eq!(encode_result(&Ok(7)), vec![0, 0, 0, 0, 7, 0, 0, 0]);
    // Tag 1 and signal -1 in two's complement.
    assert_eq!(
        encode_result(&Err(ExecuteError::Signaled(-1))),
        vec![1, 0, 0, 0, 255, 255, 255, 255]
    );
}

#[test]
fn truncated_payload_is_refused() {
    let payload = encode_request(&Request::Execute(whoami_command()));
    assert!(decode_request(&payload[..payload.len() - 1]).is_none());
    assert!(decode_request(&[]).is_none());
}

#[test]
fn trailing_garbage_is_refused() {
    let mut payload = encode_request(&Request::Cleanup);
    payload.push(0);
    assert!(decode_request(&payload).is_none());
}

#[test]
fn unknown_tag_is_refused() {
    assert!(decode_request(&[9, 0, 0, 0]).is_none());
    assert!(decode_result(&[9, 0, 0, 0, 0, 0, 0, 0]).is_none());
}

#[test]
fn frame_round_trip() {
    let payload = encode_request(&Request::Execute(whoami_command()));
    let framed = frame(&payload).expect("a small payload frames");
    assert_eq!(framed[0] as usize + ((framed[1] as usize) << 8), payload.len());
    let (recovered, consumed) = deframe(&framed).expect("a whole frame deframes");
    assert_eq!(recovered, payload);
    assert_eq!(consumed, framed.len());
}

#[test]
fn oversize_payload_is_not_framed() {
    let payload = vec![0u8; MAX_FRAME_LENGTH + 1];
    assert_eq!(frame(&payload), Err(ProtocolError::Oversize));
    let payload = vec![0u8; MAX_FRAME_LENGTH];
    assert!(frame(&payload).is_ok());
}

#[test]
fn oversize_frame_is_rejected_on_read() {
    // A length field announcing 4097 bytes, however many follow.
    let mut bytes = vec![0x01u8, 0x10];
    bytes.extend(std::iter::repeat(0u8).take(8192));
    assert_eq!(deframe(&bytes), Err(ProtocolError::Oversize));
    assert_eq!(
        read_request(&bytes).map(|(_, n)| n),
        Err(ProtocolError::Oversize)
    );
}

#[test]
fn short_frame_is_truncated() {
    assert_eq!(deframe(&[5]), Err(ProtocolError::Truncated));
    assert_eq!(deframe(&[5, 0, 1, 2]), Err(ProtocolError::Truncated));
}

#[test]
fn garbage_frame_is_malformed() {
    let payload = vec![7u8, 7, 7];
    let framed = frame(&payload).expect("a small payload frames");
    assert_eq!(read_request(&framed).map(|(_, n)| n), Err(ProtocolError::Malformed));
    assert_eq!(read_result(&framed).map(|(_, n)| n), Err(ProtocolError::Malformed));
}

#[test]
fn framed_request_reads_back() {
    let request = Request::Execute(whoami_command());
    let framed = frame(&encode_request(&request)).expect("a small payload frames");
    let (recovered, consumed) = read_request(&framed).expect("the frame reads back");
    assert_eq!(recovered, request);
    assert_eq!(consumed, framed.len());
}

#[test]
fn framed_result_reads_back() {
    let result = Err(ExecuteError::Signaled(6));
    let framed = frame(&encode_result(&result)).expect("a small payload frames");
    let (recovered, consumed) = read_result(&framed).expect("the frame reads back");
    assert_eq!(recovered, result);
    assert_eq!(consumed, framed.len());
}
