use bittorrent_rs::bencode::order::{bytes_eq, bytes_less};
use bittorrent_rs::client::download::{block_at, on_message};
use bittorrent_rs::client::{
    ClientConfig, DownloadAction, DownloadFailure, DownloadStep, TorrentClient,
};
use bittorrent_rs::error::BittorrentError;
use bittorrent_rs::peer::{BlockInfo, PeerMessage};
use bittorrent_rs::torrent::parse_torrent;
use bittorrent_rs::tracker::TrackerEvent;

#[test]
fn test_default_config() {
    let config = ClientConfig::default();
    assert_eq!(config.download_dir, "./downloads");
    assert_eq!(config.listen_port, 6881);
    assert_eq!(config.max_peers, 50);
}

#[test]
fn test_client_keeps_one_peer_id() {
    let client = TorrentClient::new(ClientConfig::default());
    let peer_id = client.peer_id();
    assert_eq!(&peer_id[..8], b"-RS0001-");
    assert_eq!(client.peer_id(), peer_id);
    assert_eq!(client.config().max_peers, 50);
}

#[test]
fn test_announce_request() {
    let client = TorrentClient::new(ClientConfig {
        download_dir: "d".to_string(),
        listen_port: 7000,
        max_peers: 3,
    });
    let data: &[u8] =
        b"d8:announce1:a4:infod6:lengthi77e4:name1:x12:piece lengthi1e6:pieces0:ee";
    let metainfo = parse_torrent(data).unwrap();
    let request = client.announce_request(&metainfo);
    assert_eq!(request.info_hash, metainfo.info_hash);
    assert_eq!(request.peer_id, client.peer_id());
    assert_eq!(request.port, 7000);
    assert_eq!(request.left, 77);
    assert_eq!(request.event, Some(TrackerEvent::Started));
}

#[test]
fn test_connection_plan() {
    let client = TorrentClient::new(ClientConfig {
        download_dir: "d".to_string(),
        listen_port: 1,
        max_peers: 50,
    });
    assert_eq!(client.connection_plan(0), (0, 0));
    assert_eq!(client.connection_plan(10), (10, 10));
    assert_eq!(client.connection_plan(50), (50, 50));
    assert_eq!(client.connection_plan(80), (50, 80));
    assert_eq!(client.connection_plan(100), (50, 100));
    assert_eq!(client.connection_plan(101), (50, 100));
    assert_eq!(client.connection_plan(usize::MAX), (50, 100));
}

#[test]
fn test_blocks() {
    assert_eq!(block_at(3, 32768, 0), Some(BlockInfo::new(3, 0, 16384)));
    assert_eq!(block_at(3, 32768, 1), Some(BlockInfo::new(3, 16384, 16384)));
    assert_eq!(block_at(3, 32768, 2), None);
    assert_eq!(block_at(3, 20000, 1), Some(BlockInfo::new(3, 16384, 3616)));
    assert_eq!(block_at(3, 0, 0), None);
    assert_eq!(block_at(3, u64::MAX, 262143), Some(BlockInfo::new(3, 0xffff_c000, 16384)));
    assert_eq!(block_at(3, u64::MAX, 262144), None);
}

fn fail(reason: DownloadFailure) -> DownloadAction {
    DownloadAction::Fail { reason }
}

#[test]
fn test_waiting_for_unchoke() {
    let step = DownloadStep::AwaitingUnchoke;
    let first = BlockInfo::new(2, 0, 16384);
    assert_eq!(
        on_message(step, 2, 20000, &PeerMessage::Unchoke),
        (DownloadStep::AwaitingBlock { block: first }, DownloadAction::Request { block: first })
    );
    assert_eq!(
        on_message(step, 2, 20000, &PeerMessage::Choke),
        (step, fail(DownloadFailure::Choked))
    );
    for message in [
        PeerMessage::KeepAlive,
        PeerMessage::Have { piece_index: 1 },
        PeerMessage::Interested,
        PeerMessage::Bitfield { bitfield: vec![1] },
        PeerMessage::Piece { piece_index: 2, offset: 0, data: vec![0; 16384] },
    ] {
        assert_eq!(on_message(step, 2, 20000, &message), (step, DownloadAction::Wait));
    }
    assert_eq!(on_message(step, 2, 0, &PeerMessage::Unchoke), (step, DownloadAction::Finish));
}

#[test]
fn test_waiting_for_a_block() {
    let first = BlockInfo::new(2, 0, 16384);
    let second = BlockInfo::new(2, 16384, 3616);
    let step = DownloadStep::AwaitingBlock { block: first };
    let good = PeerMessage::Piece { piece_index: 2, offset: 0, data: vec![0; 16384] };
    assert_eq!(
        on_message(step, 2, 20000, &good),
        (
            DownloadStep::AwaitingBlock { block: second },
            DownloadAction::StoreAndRequest { offset: 0, next: second }
        )
    );
    let last = PeerMessage::Piece { piece_index: 2, offset: 16384, data: vec![0; 3616] };
    let step2 = DownloadStep::AwaitingBlock { block: second };
    assert_eq!(
        on_message(step2, 2, 20000, &last),
        (step2, DownloadAction::StoreAndFinish { offset: 16384 })
    );
    for bad in [
        PeerMessage::Piece { piece_index: 3, offset: 0, data: vec![0; 16384] },
        PeerMessage::Piece { piece_index: 2, offset: 16384, data: vec![0; 16384] },
        PeerMessage::Piece { piece_index: 2, offset: 0, data: vec![0; 16383] },
    ] {
        assert_eq!(
            on_message(step, 2, 20000, &bad),
            (step, fail(DownloadFailure::UnexpectedBlock))
        );
    }
    assert_eq!(
        on_message(step, 2, 20000, &PeerMessage::Choke),
        (step, fail(DownloadFailure::Choked))
    );
    for message in [
        PeerMessage::KeepAlive,
        PeerMessage::Have { piece_index: 1 },
        PeerMessage::Unchoke,
    ] {
        assert_eq!(on_message(step, 2, 20000, &message), (step, DownloadAction::Wait));
    }
}

#[test]
fn test_byte_order() {
    assert!(bytes_eq(b"abc", b"abc"));
    assert!(!bytes_eq(b"abc", b"abd"));
    assert!(!bytes_eq(b"abc", b"ab"));
    assert!(bytes_eq(b"", b""));
    assert!(bytes_less(b"", b"a"));
    assert!(!bytes_less(b"", b""));
    assert!(bytes_less(b"a", b"ab"));
    assert!(!bytes_less(b"ab", b"a"));
    assert!(bytes_less(b"ab", b"b"));
    assert!(bytes_less(b"a\x00", b"a\x01"));
    assert!(!bytes_less(b"\xff", b"a"));
    assert!(!bytes_less(b"abc", b"abc"));
}

#[test]
fn test_error_message() {
    let error = BittorrentError::PieceError("Invalid piece index".to_string());
    assert_eq!(error.message(), "Invalid piece index");
}
