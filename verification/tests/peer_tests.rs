use bittorrent_rs::error::BittorrentError;
use bittorrent_rs::peer::connection::frame_length;
use bittorrent_rs::peer::message::MAX_MESSAGE_LENGTH;
use bittorrent_rs::peer::{
    BlockInfo, Handshake, PeerConnection, PeerMessage, PeerState, PROTOCOL_STRING,
};

fn is_peer_error<T>(r: Result<T, BittorrentError>) -> bool {
    matches!(r, Err(BittorrentError::PeerError(_)))
}

#[test]
fn test_handshake_serialization() {
    let info_hash = [1u8; 20];
    let peer_id = [2u8; 20];

    let handshake = Handshake::new(info_hash, peer_id);
    let bytes = handshake.to_bytes();

    assert_eq!(bytes.len(), 68);
    assert_eq!(bytes[0], 19); // pstrlen
    assert_eq!(&bytes[1..20], PROTOCOL_STRING);

    let decoded = Handshake::from_bytes(&bytes).unwrap();
    assert_eq!(decoded, handshake);
}

#[test]
fn test_handshake_exact_bytes() {
    let bytes = Handshake::new([1u8; 20], [2u8; 20]).to_bytes();
    let mut expected = vec![19u8];
    expected.extend_from_slice(b"BitTorrent protocol");
    expected.extend_from_slice(&[0u8; 8]);
    expected.extend_from_slice(&[1u8; 20]);
    expected.extend_from_slice(&[2u8; 20]);
    assert_eq!(bytes, expected);
    assert_eq!(&PROTOCOL_STRING[..], b"BitTorrent protocol");
}

#[test]
fn test_handshake_failures() {
    let good = Handshake::new([1u8; 20], [2u8; 20]).to_bytes();
    assert!(is_peer_error(Handshake::from_bytes(&good[..67])));
    let mut wrong_length = good.clone();
    wrong_length[0] = 18;
    assert!(is_peer_error(Handshake::from_bytes(&wrong_length)));
    let mut wrong_name = good.clone();
    wrong_name[5] = b'x';
    assert!(is_peer_error(Handshake::from_bytes(&wrong_name)));
    let mut reserved = good.clone();
    reserved[21] = 0x10;
    reserved.push(99);
    let h = Handshake::from_bytes(&reserved).unwrap();
    assert_eq!(h.info_hash, [1u8; 20]);
    assert_eq!(h.peer_id, [2u8; 20]);
}

fn all_messages() -> Vec<PeerMessage> {
    vec![
        PeerMessage::KeepAlive,
        PeerMessage::Choke,
        PeerMessage::Unchoke,
        PeerMessage::Interested,
        PeerMessage::NotInterested,
        PeerMessage::Have { piece_index: 0x01020304 },
        PeerMessage::Bitfield { bitfield: vec![0xff, 0xf0, 0x00] },
        PeerMessage::Bitfield { bitfield: vec![] },
        PeerMessage::Request { block: BlockInfo::new(1, 16384, 16384) },
        PeerMessage::Piece { piece_index: 7, offset: 32768, data: vec![1, 2, 3, 4, 5] },
        PeerMessage::Piece { piece_index: 0, offset: 0, data: vec![] },
        PeerMessage::Cancel { block: BlockInfo::new(u32::MAX, 0, 1) },
    ]
}

#[test]
fn test_every_message_round_trips() {
    for message in all_messages() {
        assert!(message.fits());
        let bytes = message.to_bytes();
        assert_eq!(bytes.len(), 4 + message.body_len());
        assert_eq!(PeerMessage::from_bytes(&bytes).unwrap(), message);
    }
}

#[test]
fn test_message_exact_bytes() {
    assert_eq!(PeerMessage::KeepAlive.to_bytes(), vec![0, 0, 0, 0]);
    assert_eq!(PeerMessage::Choke.to_bytes(), vec![0, 0, 0, 1, 0]);
    assert_eq!(PeerMessage::Unchoke.to_bytes(), vec![0, 0, 0, 1, 1]);
    assert_eq!(PeerMessage::Interested.to_bytes(), vec![0, 0, 0, 1, 2]);
    assert_eq!(PeerMessage::NotInterested.to_bytes(), vec![0, 0, 0, 1, 3]);
    assert_eq!(
        PeerMessage::Have { piece_index: 0x01020304 }.to_bytes(),
        vec![0, 0, 0, 5, 4, 1, 2, 3, 4]
    );
    assert_eq!(
        PeerMessage::Bitfield { bitfield: vec![0xff, 0xf0, 0x00] }.to_bytes(),
        vec![0, 0, 0, 4, 5, 0xff, 0xf0, 0x00]
    );
    assert_eq!(
        PeerMessage::Request { block: BlockInfo::new(1, 16384, 16384) }.to_bytes(),
        vec![0, 0, 0, 13, 6, 0, 0, 0, 1, 0, 0, 0x40, 0, 0, 0, 0x40, 0]
    );
    assert_eq!(
        PeerMessage::Piece { piece_index: 2, offset: 3, data: vec![9, 8] }.to_bytes(),
        vec![0, 0, 0, 11, 7, 0, 0, 0, 2, 0, 0, 0, 3, 9, 8]
    );
    assert_eq!(
        PeerMessage::Cancel { block: BlockInfo::new(1, 2, 3) }.to_bytes(),
        vec![0, 0, 0, 13, 8, 0, 0, 0, 1, 0, 0, 0, 2, 0, 0, 0, 3]
    );
}

#[test]
fn test_message_failures() {
    assert!(is_peer_error(PeerMessage::from_bytes(&[0, 0, 0])));
    assert!(is_peer_error(PeerMessage::from_bytes(&[0, 0, 0, 2, 0])));
    assert!(is_peer_error(PeerMessage::from_bytes(&[0, 0, 0, 1, 9])));
    assert!(is_peer_error(PeerMessage::from_bytes(&[0, 0, 0, 4, 4, 1, 2, 3])));
    assert!(is_peer_error(PeerMessage::from_bytes(&[0, 0, 0, 5, 6, 1, 2, 3, 4])));
    assert!(is_peer_error(PeerMessage::from_bytes(&[0, 0, 0, 8, 7, 0, 0, 0, 1, 0, 0, 0])));
    assert!(is_peer_error(PeerMessage::from_bytes(&[0, 0, 0, 12, 8, 0, 0, 0, 1, 0, 0, 0, 2, 0, 0, 0])));
    let mut too_long = vec![0x00, 0x20, 0x00, 0x01];
    too_long.resize(4 + 0x20_0001, 0);
    assert!(is_peer_error(PeerMessage::from_bytes(&too_long)));
}

#[test]
fn test_message_reads_no_further_than_its_frame() {
    let bytes = [0, 0, 0, 2, 5, 0xaa, 0xbb, 0xcc];
    assert_eq!(
        PeerMessage::from_bytes(&bytes).unwrap(),
        PeerMessage::Bitfield { bitfield: vec![0xaa] }
    );
    assert_eq!(
        PeerMessage::from_bytes(&[0, 0, 0, 0, 1, 2]).unwrap(),
        PeerMessage::KeepAlive
    );
    assert!(is_peer_error(PeerMessage::from_bytes(&[0, 0, 0, 1, 4, 0, 0, 0, 1])));
}

#[test]
fn test_largest_frame() {
    let message = PeerMessage::Piece {
        piece_index: 0,
        offset: 0,
        data: vec![7u8; MAX_MESSAGE_LENGTH as usize - 9],
    };
    assert!(message.fits());
    assert_eq!(PeerMessage::from_bytes(&message.to_bytes()).unwrap(), message);
    let over = PeerMessage::Piece {
        piece_index: 0,
        offset: 0,
        data: vec![7u8; MAX_MESSAGE_LENGTH as usize - 8],
    };
    assert!(!over.fits());
}

#[test]
fn test_frame_length() {
    assert_eq!(frame_length(&[0, 0, 0, 0]).unwrap(), 0);
    assert_eq!(frame_length(&[0, 0, 0x40, 9]).unwrap(), 16393);
    assert_eq!(frame_length(&[0, 0x20, 0, 0]).unwrap(), 0x20_0000);
    assert!(is_peer_error(frame_length(&[0, 0x20, 0, 1])));
    assert!(is_peer_error(frame_length(&[0xff, 0xff, 0xff, 0xff])));
}

#[test]
fn test_peer_state_default() {
    let state = PeerState::default();
    assert!(state.am_choking);
    assert!(!state.am_interested);
    assert!(state.peer_choking);
    assert!(!state.peer_interested);
}

#[test]
fn test_connect_checks_info_hash() {
    let reply = Handshake::new([1u8; 20], [2u8; 20]).to_bytes();
    let session = PeerConnection::connect(&reply, &[1u8; 20], 20).unwrap();
    assert_eq!(session.peer_id(), Some(&[2u8; 20]));
    assert_eq!(*session.state(), PeerState::default());
    assert!(session.bitfield().is_none());
    assert!(is_peer_error(PeerConnection::connect(&reply, &[3u8; 20], 20)));
    assert!(is_peer_error(PeerConnection::connect(&reply[..60], &[1u8; 20], 20)));
}

#[test]
fn test_session_flags() {
    let mut session = PeerConnection::new([2u8; 20], 20);
    assert!(!session.can_request());
    session.send_message(&PeerMessage::Interested);
    assert!(session.state().am_interested);
    session.send_message(&PeerMessage::Unchoke);
    assert!(!session.state().am_choking);
    session.send_message(&PeerMessage::Choke);
    assert!(session.state().am_choking);
    session.send_message(&PeerMessage::NotInterested);
    assert!(!session.state().am_interested);
    session.send_message(&PeerMessage::KeepAlive);
    assert_eq!(*session.state(), PeerState::default());

    session.handle_message(&PeerMessage::Unchoke).unwrap();
    assert!(session.can_request());
    session.handle_message(&PeerMessage::Interested).unwrap();
    assert!(session.state().peer_interested);
    session.handle_message(&PeerMessage::NotInterested).unwrap();
    assert!(!session.state().peer_interested);
    session.handle_message(&PeerMessage::Choke).unwrap();
    assert!(!session.can_request());
}

#[test]
fn test_session_bitfield_msb_first() {
    let mut session = PeerConnection::new([2u8; 20], 20);
    assert!(!session.has_piece(0));
    session
        .handle_message(&PeerMessage::Bitfield { bitfield: vec![0xff, 0xf0, 0x00] })
        .unwrap();
    for i in 0..12 {
        assert!(session.has_piece(i), "piece {}", i);
    }
    for i in 12..20 {
        assert!(!session.has_piece(i), "piece {}", i);
    }
}

#[test]
fn test_session_ignores_trailing_bits() {
    let mut session = PeerConnection::new([2u8; 20], 20);
    session
        .handle_message(&PeerMessage::Bitfield { bitfield: vec![0x00, 0x00, 0x0f, 0xff] })
        .unwrap();
    assert!(!session.has_piece(19));
    assert!(!session.has_piece(20));
    assert!(!session.has_piece(23));
    assert!(!session.has_piece(31));
}

#[test]
fn test_session_have_sets_one_bit() {
    let mut session = PeerConnection::new([2u8; 20], 20);
    session.handle_message(&PeerMessage::Have { piece_index: 9 }).unwrap();
    for i in 0..20 {
        assert_eq!(session.has_piece(i), i == 9);
    }
    assert_eq!(session.bitfield().unwrap().as_slice(), &[0x00, 0x40]);
    session.handle_message(&PeerMessage::Have { piece_index: 0 }).unwrap();
    session.handle_message(&PeerMessage::Have { piece_index: 19 }).unwrap();
    session.handle_message(&PeerMessage::Have { piece_index: 20 }).unwrap();
    assert_eq!(session.bitfield().unwrap().as_slice(), &[0x80, 0x40, 0x10]);
    assert!(session.has_piece(0) && session.has_piece(9) && session.has_piece(19));
    assert!(!session.has_piece(20));
}

#[test]
fn test_session_late_bitfield_is_a_violation() {
    let mut session = PeerConnection::new([2u8; 20], 20);
    session.handle_message(&PeerMessage::KeepAlive).unwrap();
    let late = session.handle_message(&PeerMessage::Bitfield { bitfield: vec![0xff] });
    assert!(is_peer_error(late));
    assert!(session.bitfield().is_none());
}
