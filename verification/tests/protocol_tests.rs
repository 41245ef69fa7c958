use torrent_core::client::PeerClient;
use torrent_core::client::SessionStep;
use torrent_core::listener::process_listener;
use torrent_core::listener::process_stream;
use torrent_core::messages::NamedRequest;
use torrent_core::messages::ProtocolError;
use torrent_core::messages::Request;
use torrent_core::storage::Storage;
use torrent_core::storage::memory::MemoryStorage;

fn server_with(name: &str, data: Vec<u8>) -> MemoryStorage {
    let mut s = MemoryStorage::new("srv".to_string(), 4);
    s.register_file(name, data).unwrap();
    s
}

#[test]
fn listener_answers_file_info_for_known_files() {
    let s = server_with("a.bin", vec![1, 2, 3, 4, 5]);
    let reply = process_listener(&s, "a.bin", Request::FetchFileInfo).unwrap();
    let msg = reply.unwrap();
    assert_eq!(msg.name, "a.bin");
    assert!(matches!(msg.request, Request::FileSize { size: 5 }));
}

#[test]
fn listener_stays_silent_on_unknown_file_info() {
    let s = server_with("a.bin", vec![1, 2, 3]);
    let reply = process_listener(&s, "other.bin", Request::FetchFileInfo).unwrap();
    assert!(reply.is_none());
}

#[test]
fn listener_answers_numbers() {
    let s = server_with("a.bin", vec![1, 2, 3, 4, 5, 6, 7, 8, 9]);
    let reply = process_listener(&s, "a.bin", Request::FetchNumbers).unwrap();
    let msg = reply.unwrap();
    match msg.request {
        Request::Numbers { numbers } => assert_eq!(numbers, Some(vec![0, 1, 2])),
        _ => panic!("expected a Numbers reply"),
    }
}

#[test]
fn listener_answers_unknown_numbers_explicitly() {
    let s = server_with("a.bin", vec![1, 2, 3]);
    let reply = process_listener(&s, "other.bin", Request::FetchNumbers).unwrap();
    let msg = reply.unwrap();
    match msg.request {
        Request::Numbers { numbers } => assert_eq!(numbers, None),
        _ => panic!("expected a Numbers reply"),
    }
}

#[test]
fn listener_serves_held_segments() {
    let s = server_with("a.bin", vec![1, 2, 3, 4, 5, 6]);
    let reply = process_listener(&s, "a.bin", Request::FetchSegment { index: 1 }).unwrap();
    let msg = reply.unwrap();
    match msg.request {
        Request::Segment { segment } => {
            assert_eq!(segment.index, 1);
            assert_eq!(segment.data, vec![5, 6]);
        },
        _ => panic!("expected a Segment reply"),
    }
}

#[test]
fn listener_treats_missing_segments_as_fatal() {
    let s = server_with("a.bin", vec![1, 2, 3]);
    let r = process_listener(&s, "a.bin", Request::FetchSegment { index: 7 });
    assert!(matches!(r, Err(ProtocolError::MissingSegment)));
    let r = process_listener(&s, "other.bin", Request::FetchSegment { index: 0 });
    assert!(matches!(r, Err(ProtocolError::MissingSegment)));
}

#[test]
fn listener_rejects_client_bound_kinds() {
    let s = server_with("a.bin", vec![1]);
    let r = process_listener(&s, "a.bin", Request::FileSize { size: 1 });
    assert!(matches!(r, Err(ProtocolError::UnexpectedRequest)));
    let r = process_stream(
        &s,
        NamedRequest::new("a.bin".to_string(), Request::Numbers { numbers: None }),
    );
    assert!(matches!(r, Err(ProtocolError::UnexpectedRequest)));
}

#[test]
fn listener_echoes_finished_and_closes() {
    let s = server_with("a.bin", vec![1]);
    let (reply, close) = process_stream(
        &s,
        NamedRequest::new("a.bin".to_string(), Request::Finished),
    )
    .unwrap();
    assert!(close);
    let msg = reply.unwrap();
    assert_eq!(msg.name, "a.bin");
    assert!(matches!(msg.request, Request::Finished));
}

#[test]
fn client_registers_placeholder_on_file_size() {
    let mut b = PeerClient::new("out".to_string(), 4);
    let msgs = b.process_client("a.bin", Request::FileSize { size: 6 }).unwrap();
    assert_eq!(msgs.len(), 1);
    assert_eq!(msgs[0].name, "a.bin");
    assert!(matches!(msgs[0].request, Request::FetchNumbers));
    assert_eq!(b.storage.file_size("a.bin"), Some(6));
    // A second FileSize (another session) leaves the placeholder as it is.
    let msgs = b.process_client("a.bin", Request::FileSize { size: 99 }).unwrap();
    assert_eq!(msgs.len(), 1);
    assert_eq!(b.storage.file_size("a.bin"), Some(6));
}

#[test]
fn client_requests_every_advertised_segment() {
    let mut b = PeerClient::new("out".to_string(), 4);
    b.create_empty_file("a.bin", 6).unwrap();
    let msgs = b
        .process_client("a.bin", Request::Numbers { numbers: Some(vec![0, 1]) })
        .unwrap();
    assert_eq!(msgs.len(), 2);
    assert!(matches!(msgs[0].request, Request::FetchSegment { index: 0 }));
    assert!(matches!(msgs[1].request, Request::FetchSegment { index: 1 }));
}

#[test]
fn client_does_nothing_for_an_unknown_remote_file() {
    let mut b = PeerClient::new("out".to_string(), 4);
    let msgs = b.process_client("a.bin", Request::Numbers { numbers: None }).unwrap();
    assert!(msgs.is_empty());
}

#[test]
fn client_announces_finished_exactly_on_completion() {
    let mut b = PeerClient::new("out".to_string(), 4);
    b.create_empty_file("a.bin", 6).unwrap();
    let msgs = b
        .process_client(
            "a.bin",
            Request::Segment {
                segment: torrent_core::file::Segment { index: 0, data: vec![1, 2, 3, 4] },
            },
        )
        .unwrap();
    assert!(msgs.is_empty());
    let msgs = b
        .process_client(
            "a.bin",
            Request::Segment {
                segment: torrent_core::file::Segment { index: 1, data: vec![5, 6] },
            },
        )
        .unwrap();
    assert_eq!(msgs.len(), 1);
    assert!(matches!(msgs[0].request, Request::Finished));
    assert_eq!(b.file_data("a.bin"), Some(vec![1, 2, 3, 4, 5, 6]));
}

#[test]
fn client_treats_segments_for_unknown_files_as_fatal() {
    let mut b = PeerClient::new("out".to_string(), 4);
    let r = b.process_client(
        "a.bin",
        Request::Segment {
            segment: torrent_core::file::Segment { index: 0, data: vec![1] },
        },
    );
    assert!(matches!(r, Err(ProtocolError::UnknownFile)));
}

#[test]
fn client_rejects_listener_bound_kinds() {
    let mut b = PeerClient::new("out".to_string(), 4);
    let r = b.process_client("a.bin", Request::FetchNumbers);
    assert!(matches!(r, Err(ProtocolError::UnexpectedRequest)));
    let r = b.process_channel(NamedRequest::new(
        "a.bin".to_string(),
        Request::FetchSegment { index: 0 },
    ));
    assert!(matches!(r, Err(ProtocolError::UnexpectedRequest)));
}

#[test]
fn client_finished_echo_hands_back_the_bytes() {
    let mut b = PeerClient::new("out".to_string(), 4);
    b.create_empty_file("a.bin", 2).unwrap();
    let step = b
        .process_channel(NamedRequest::new(
            "a.bin".to_string(),
            Request::Segment {
                segment: torrent_core::file::Segment { index: 0, data: vec![7, 8] },
            },
        ))
        .unwrap();
    match step {
        SessionStep::Continue(msgs) => {
            assert_eq!(msgs.len(), 1);
            assert!(matches!(msgs[0].request, Request::Finished));
        },
        _ => panic!("expected the session to continue"),
    }
    let step = b
        .process_channel(NamedRequest::new("a.bin".to_string(), Request::Finished))
        .unwrap();
    match step {
        SessionStep::Done { data, path, reply } => {
            assert_eq!(data, vec![7, 8]);
            assert_eq!(path, "out/a.bin");
            assert_eq!(reply.name, "a.bin");
            assert!(matches!(reply.request, Request::Finished));
        },
        _ => panic!("expected the session to finish"),
    }
}

#[test]
fn client_finished_for_unknown_file_is_fatal() {
    let mut b = PeerClient::new("out".to_string(), 4);
    let r = b.process_channel(NamedRequest::new("a.bin".to_string(), Request::Finished));
    assert!(matches!(r, Err(ProtocolError::UnknownFile)));
}
