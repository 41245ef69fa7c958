//! The full exchange between two peers, run message by message against the
//! verified state machines: peer A serves a 600 KiB file, peer B downloads
//! it, and the bytes B persists are identical to A's original.

use torrent_core::SEGMENT_SIZE;
use torrent_core::client::PeerClient;
use torrent_core::client::SessionStep;
use torrent_core::listener::process_stream;
use torrent_core::messages::NamedRequest;
use torrent_core::messages::Request;
use torrent_core::storage::Storage;
use torrent_core::storage::memory::MemoryStorage;

#[test]
fn download_from_one_peer() {
    let size = 600 * 1024;
    let original: Vec<u8> = (0..size).map(|i| (i % 239) as u8).collect();

    // Peer A holds the file, eagerly chunked: 256 KiB, 256 KiB, 88 KiB.
    let mut a = MemoryStorage::new("srv".to_string(), SEGMENT_SIZE);
    a.register_file("x.bin", original.clone()).unwrap();
    assert_eq!(a.segment_numbers("x.bin"), Some(vec![0, 1, 2]));

    // Peer B starts a download session.
    let mut b = PeerClient::new("out".to_string(), SEGMENT_SIZE);

    // B -> A: FetchFileInfo. A -> B: FileSize(614400).
    let (reply, close) = process_stream(
        &a,
        NamedRequest::new("x.bin".to_string(), Request::FetchFileInfo),
    )
    .unwrap();
    assert!(!close);
    let reply = reply.unwrap();
    assert!(matches!(reply.request, Request::FileSize { size: 614400 }));

    // B registers the placeholder and asks for the segment numbers.
    let step = b.process_channel(reply).unwrap();
    let to_a = match step {
        SessionStep::Continue(msgs) => msgs,
        _ => panic!("expected the session to continue"),
    };
    assert_eq!(to_a.len(), 1);
    assert!(matches!(to_a[0].request, Request::FetchNumbers));
    assert_eq!(b.storage.file_size("x.bin"), Some(614400));

    // A -> B: Numbers([0, 1, 2]). B requests all three segments.
    let (reply, _) = process_stream(&a, to_a.into_iter().next().unwrap()).unwrap();
    let reply = reply.unwrap();
    assert_eq!(reply.name, "x.bin");
    match &reply.request {
        Request::Numbers { numbers } => assert_eq!(numbers, &Some(vec![0, 1, 2])),
        _ => panic!("expected a Numbers reply"),
    }
    let step = b.process_channel(reply).unwrap();
    let fetches = match step {
        SessionStep::Continue(msgs) => msgs,
        _ => panic!("expected the session to continue"),
    };
    assert_eq!(fetches.len(), 3);

    // A serves each segment; B becomes complete exactly on the third and
    // then announces Finished.
    let mut finished_msg = None;
    for (i, fetch) in fetches.into_iter().enumerate() {
        let (reply, _) = process_stream(&a, fetch).unwrap();
        let step = b.process_channel(reply.unwrap()).unwrap();
        let msgs = match step {
            SessionStep::Continue(msgs) => msgs,
            _ => panic!("expected the session to continue"),
        };
        if i < 2 {
            assert!(msgs.is_empty());
            assert!(!b.storage.is_complete("x.bin"));
        } else {
            assert_eq!(msgs.len(), 1);
            assert!(matches!(msgs[0].request, Request::Finished));
            assert!(b.storage.is_complete("x.bin"));
            finished_msg = Some(msgs.into_iter().next().unwrap());
        }
    }

    // B -> A: Finished. A echoes it and closes its side.
    let (echo, close) = process_stream(&a, finished_msg.unwrap()).unwrap();
    assert!(close);
    let echo = echo.unwrap();
    assert!(matches!(echo.request, Request::Finished));

    // B receives the echo: the reassembled bytes go to the output path.
    let step = b.process_channel(echo).unwrap();
    match step {
        SessionStep::Done { data, path, reply } => {
            assert_eq!(data.len(), 614400);
            assert_eq!(data, original);
            assert_eq!(path, "out/x.bin");
            assert!(matches!(reply.request, Request::Finished));
        },
        _ => panic!("expected the download to finish"),
    }
}
