use bittorrent_rs::bencode::{decode, BencodeValue};
use bittorrent_rs::error::BittorrentError;
use bittorrent_rs::text::{decimal_string, percent_encode};
use bittorrent_rs::tracker::request::urlencoded_hash;
use bittorrent_rs::tracker::{
    announce_url, generate_peer_id, read_response, Peer, PeerHost, TrackerEvent, TrackerRequest,
    TrackerResponse,
};

fn is_tracker_error<T>(r: Result<T, BittorrentError>) -> bool {
    matches!(r, Err(BittorrentError::TrackerError(_)))
}

#[test]
fn test_generate_peer_id() {
    let peer_id = generate_peer_id();
    assert_eq!(peer_id.len(), 20);
    assert_eq!(&peer_id[0..8], b"-RS0001-");
}

#[test]
fn test_generated_peer_id_bytes_are_in_range() {
    let mut differ = false;
    let first = generate_peer_id();
    for _ in 0..20 {
        let peer_id = generate_peer_id();
        for b in &peer_id[8..] {
            assert!((b'0'..=b'z').contains(b));
        }
        differ = differ || peer_id != first;
    }
    assert!(differ);
}

#[test]
fn test_event_names() {
    assert_eq!(TrackerEvent::Started.as_str(), "started");
    assert_eq!(TrackerEvent::Stopped.as_str(), "stopped");
    assert_eq!(TrackerEvent::Completed.as_str(), "completed");
}

fn pair(k: &str, v: &str) -> (String, String) {
    (k.to_string(), v.to_string())
}

#[test]
fn test_query_params() {
    let mut request = TrackerRequest::new([0xabu8; 20], [b'-'; 20], 6881, 3000);
    assert_eq!(request.uploaded, 0);
    assert_eq!(request.downloaded, 0);
    assert_eq!(request.event, Some(TrackerEvent::Started));
    assert!(request.compact);
    let hash = "%ab".repeat(20);
    let id = "%2d".repeat(20);
    assert_eq!(
        request.to_query_params(),
        vec![
            pair("info_hash", &hash),
            pair("peer_id", &id),
            pair("port", "6881"),
            pair("uploaded", "0"),
            pair("downloaded", "0"),
            pair("left", "3000"),
            pair("compact", "1"),
            pair("event", "started"),
        ]
    );
    request.event = None;
    request.compact = false;
    request.uploaded = u64::MAX;
    request.downloaded = 10;
    request.port = 0;
    assert_eq!(
        request.to_query_params(),
        vec![
            pair("info_hash", &hash),
            pair("peer_id", &id),
            pair("port", "0"),
            pair("uploaded", "18446744073709551615"),
            pair("downloaded", "10"),
            pair("left", "3000"),
            pair("compact", "0"),
        ]
    );
    request.event = Some(TrackerEvent::Completed);
    assert_eq!(request.to_query_params()[7], pair("event", "completed"));
}

#[test]
fn test_text_helpers() {
    assert_eq!(percent_encode(&[]), "");
    assert_eq!(percent_encode(&[0x00, 0x0f, 0xf0, 0xff, b'a']), "%00%0f%f0%ff%61");
    assert_eq!(urlencoded_hash(&[0x1cu8; 20]), "%1c".repeat(20));
    assert_eq!(decimal_string(0), "0");
    assert_eq!(decimal_string(9), "9");
    assert_eq!(decimal_string(10), "10");
    assert_eq!(decimal_string(1234567890), "1234567890");
}

#[test]
fn test_announce_url() {
    let request = TrackerRequest::new([0x01u8; 20], [b'A'; 20], 6881, 5);
    let url = announce_url("http://tracker.example/announce?key=1", &request).unwrap();
    let expected = format!(
        "http://tracker.example/announce?key=1&info_hash={}&peer_id={}&port=6881&uploaded=0&downloaded=0&left=5&compact=1&event=started",
        "%2501".repeat(20),
        "%2541".repeat(20)
    );
    assert_eq!(url, expected);
    let refused = announce_url("not a url", &request);
    assert!(matches!(refused, Err(BittorrentError::UrlParseError(_))));
    let relative = announce_url("/announce", &request);
    assert!(matches!(relative, Err(BittorrentError::UrlParseError(_))));
}

#[test]
fn test_compact_peers() {
    let peer = Peer::from_compact(&[192, 168, 1, 2, 0x1a, 0xe1]).unwrap();
    assert_eq!(peer, Peer::new(PeerHost::V4(192, 168, 1, 2), 6881));
    assert_eq!(Peer::from_compact(&[1, 2, 3, 4, 5]), None);
    assert_eq!(Peer::from_compact(&[1, 2, 3, 4, 5, 6, 7]), None);
    assert_eq!(Peer::from_compact_list(&[]), Vec::new());
    assert_eq!(
        Peer::from_compact_list(&[10, 0, 0, 1, 0, 80, 10, 0, 0, 2, 0xff, 0xff, 9, 9]),
        vec![
            Peer::new(PeerHost::V4(10, 0, 0, 1), 80),
            Peer::new(PeerHost::V4(10, 0, 0, 2), 65535),
        ]
    );
    let with_id = Peer::with_peer_id(PeerHost::Text("::1".to_string()), 1, vec![1, 2]);
    assert_eq!(with_id.peer_id, Some(vec![1, 2]));
    assert_eq!(with_id.port, 1);
}

#[test]
fn test_compact_response() {
    let body: &[u8] =
        b"d8:completei5e10:incompletei3e8:intervali1800e12:min intervali900e5:peers12:\x0a\x00\x00\x01\x1a\xe1\x0a\x00\x00\x02\x1a\xe210:tracker id3:abce";
    let response = read_response(true, body).unwrap();
    assert_eq!(response.interval, 1800);
    assert_eq!(response.min_interval, Some(900));
    assert_eq!(response.tracker_id, Some("abc".to_string()));
    assert_eq!(response.complete, Some(5));
    assert_eq!(response.incomplete, Some(3));
    assert_eq!(
        response.peers,
        vec![
            Peer::new(PeerHost::V4(10, 0, 0, 1), 6881),
            Peer::new(PeerHost::V4(10, 0, 0, 2), 6882),
        ]
    );
}

#[test]
fn test_empty_compact_peer_list() {
    let response = read_response(true, b"d8:intervali60e5:peers0:e").unwrap();
    assert!(response.peers.is_empty());
    assert_eq!(response.min_interval, None);
    assert_eq!(response.tracker_id, None);
    assert_eq!(response.complete, None);
    assert_eq!(response.incomplete, None);
}

#[test]
fn test_dictionary_response() {
    let body: &[u8] =
        b"d8:intervali60e5:peersld2:ip9:127.0.0.17:peer id2:ab4:porti6881eed2:ip3:::14:porti70000eeee";
    let response = TrackerResponse::from_bencode(decode(body).unwrap()).unwrap();
    assert_eq!(
        response.peers,
        vec![
            Peer::with_peer_id(PeerHost::Text("127.0.0.1".to_string()), 6881, b"ab".to_vec()),
            Peer::new(PeerHost::Text("::1".to_string()), 4464),
        ]
    );
}

#[test]
fn test_negative_counts_wrap() {
    let response = read_response(true, b"d8:completei-1e8:intervali-2e5:peers0:e").unwrap();
    assert_eq!(response.interval, u64::MAX - 1);
    assert_eq!(response.complete, Some(u64::MAX));
}

#[test]
fn test_response_failures() {
    assert!(is_tracker_error(read_response(false, b"d8:intervali60e5:peers0:e")));
    assert!(matches!(
        read_response(true, b"not bencode"),
        Err(BittorrentError::BencodeError(_))
    ));
    let failure = read_response(true, b"d14:failure reason4:nope8:intervali60e5:peers0:e");
    assert_eq!(failure.unwrap_err(), BittorrentError::TrackerError("nope".to_string()));
    let odd = read_response(true, b"d14:failure reasoni1ee");
    assert_eq!(odd.unwrap_err(), BittorrentError::TrackerError("Unknown failure".to_string()));
    assert!(is_tracker_error(read_response(true, b"i1e")));
    assert!(is_tracker_error(read_response(true, b"d5:peers0:e")));
    assert!(is_tracker_error(read_response(true, b"d8:interval2:605:peers0:e")));
    assert!(is_tracker_error(read_response(true, b"d8:intervali60ee")));
    assert!(is_tracker_error(read_response(true, b"d8:intervali60e5:peersi1ee")));
    assert!(is_tracker_error(read_response(true, b"d8:intervali60e5:peersli1eee")));
    assert!(is_tracker_error(read_response(true, b"d8:intervali60e5:peersld4:porti1eeee")));
    assert!(is_tracker_error(read_response(true, b"d8:intervali60e5:peersld2:ip1:aeee")));
    assert!(is_tracker_error(read_response(
        true,
        b"d8:intervali60e5:peersld2:ipi1e4:porti1eeee"
    )));
    assert!(is_tracker_error(TrackerResponse::from_bencode(BencodeValue::Integer(1))));
}
