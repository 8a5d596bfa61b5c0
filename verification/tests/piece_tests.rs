use bittorrent_rs::error::BittorrentError;
use bittorrent_rs::piece::picker::has_piece_in_bitfield;
use bittorrent_rs::piece::{PieceManager, PiecePicker, PieceState, BLOCK_SIZE};
use bittorrent_rs::torrent::Pieces;
use sha1::{Digest, Sha1};

fn sha1_of(data: &[u8]) -> [u8; 20] {
    Sha1::digest(data).into()
}

fn is_piece_error<T>(r: Result<T, BittorrentError>) -> bool {
    matches!(r, Err(BittorrentError::PieceError(_)))
}

fn pieces_for(contents: &[Vec<u8>]) -> Pieces {
    let mut blob = Vec::new();
    for c in contents {
        blob.extend_from_slice(&sha1_of(c));
    }
    Pieces::from_bytes(&blob).unwrap()
}

fn pattern(len: usize, seed: u8) -> Vec<u8> {
    (0..len).map(|i| (i as u8).wrapping_mul(31).wrapping_add(seed)).collect()
}

#[test]
fn test_piece_assembly() {
    let content = pattern(32768, 1);
    let pieces = pieces_for(&[content.clone()]);
    let mut manager = PieceManager::new(32768, 32768, &pieces);
    assert_eq!(manager.piece_count(), 1);
    assert_eq!(manager.blocks_in_piece(0), 2);
    assert_eq!(manager.get_block_info(0, 0), Some((0, 16384)));
    assert_eq!(manager.get_block_info(0, 1), Some((16384, 16384)));
    assert_eq!(manager.get_block_info(0, 2), None);
    assert_eq!(manager.get_piece_state(0), Some(PieceState::Missing));

    manager.start_piece(0).unwrap();
    assert_eq!(manager.get_piece_state(0), Some(PieceState::Downloading));
    manager.add_block(0, 0, &content[..16384]).unwrap();
    manager.add_block(0, 16384, &content[16384..]).unwrap();
    let bytes = manager.complete_piece(0).unwrap();
    assert_eq!(bytes, content);
    assert_eq!(manager.get_piece_state(0), Some(PieceState::Complete));
    assert_eq!(manager.complete_count(), 1);
    assert!(manager.is_complete());
}

#[test]
fn test_piece_with_a_gap_fails_verification() {
    let content = pattern(32768, 2);
    let pieces = pieces_for(&[content.clone()]);
    let mut manager = PieceManager::new(32768, 32768, &pieces);
    manager.start_piece(0).unwrap();
    manager.add_block(0, 0, &content[..16384]).unwrap();
    assert!(is_piece_error(manager.complete_piece(0)));
    assert_eq!(manager.get_piece_state(0), Some(PieceState::Missing));
    assert_eq!(manager.complete_count(), 0);
    assert!(!manager.is_complete());
    // the buffer is gone, a new attempt starts from zeros
    assert!(is_piece_error(manager.add_block(0, 0, &content[..16384])));
    manager.start_piece(0).unwrap();
    manager.add_block(0, 16384, &content[16384..]).unwrap();
    manager.add_block(0, 0, &content[..16384]).unwrap();
    assert_eq!(manager.complete_piece(0).unwrap(), content);
}

#[test]
fn test_piece_of_zeros_verifies_without_blocks() {
    let content = vec![0u8; 100];
    let pieces = pieces_for(&[content.clone()]);
    let mut manager = PieceManager::new(100, 100, &pieces);
    manager.start_piece(0).unwrap();
    assert_eq!(manager.complete_piece(0).unwrap(), content);
}

#[test]
fn test_finish_piece_goes_by_the_digest_given() {
    let content = pattern(50, 3);
    let pieces = pieces_for(&[content.clone()]);
    let mut manager = PieceManager::new(50, 50, &pieces);
    manager.start_piece(0).unwrap();
    manager.add_block(0, 0, &content).unwrap();
    let bytes = manager.finish_piece(0, &sha1_of(&content)).unwrap();
    assert_eq!(bytes, content);
    assert_eq!(manager.get_piece_state(0), Some(PieceState::Complete));
    assert!(is_piece_error(manager.finish_piece(0, &sha1_of(&content))));
    assert_eq!(manager.get_piece_state(0), Some(PieceState::Complete));
}

#[test]
fn test_piece_state_violations() {
    let a = pattern(10, 4);
    let b = pattern(4, 5);
    let pieces = pieces_for(&[a.clone(), b.clone()]);
    let mut manager = PieceManager::new(10, 14, &pieces);
    assert!(is_piece_error(manager.start_piece(2)));
    assert!(is_piece_error(manager.add_block(0, 0, &a)));
    assert!(is_piece_error(manager.complete_piece(0)));
    assert!(is_piece_error(manager.complete_piece(7)));
    manager.start_piece(0).unwrap();
    assert!(is_piece_error(manager.start_piece(0)));
    assert!(is_piece_error(manager.add_block(0, 1, &a)));
    assert!(is_piece_error(manager.add_block(0, 11, &[])));
    assert!(is_piece_error(manager.add_block(1, 0, &b)));
    manager.add_block(0, 10, &[]).unwrap();
    manager.add_block(0, 3, &a[3..]).unwrap();
    manager.add_block(0, 0, &a[..3]).unwrap();
    assert_eq!(manager.complete_piece(0).unwrap(), a);
    assert!(is_piece_error(manager.start_piece(0)));
    assert_eq!(manager.get_piece_state(0), Some(PieceState::Complete));
    assert_eq!(manager.get_piece_state(1), Some(PieceState::Missing));
    assert_eq!(manager.get_piece_state(2), None);
}

#[test]
fn test_last_piece_is_short() {
    let pieces = Pieces::from_bytes(&[0u8; 60]).unwrap();
    let manager = PieceManager::new(40000, 100000, &pieces);
    assert_eq!(manager.piece_count(), 3);
    assert_eq!(manager.blocks_in_piece(0), 3);
    assert_eq!(manager.blocks_in_piece(1), 3);
    assert_eq!(manager.blocks_in_piece(2), 2);
    assert_eq!(manager.blocks_in_piece(3), 0);
    assert_eq!(manager.get_block_info(0, 2), Some((32768, 7232)));
    assert_eq!(manager.get_block_info(2, 0), Some((0, 16384)));
    assert_eq!(manager.get_block_info(2, 1), Some((16384, 3616)));
    assert_eq!(manager.get_block_info(2, 2), None);
    assert_eq!(manager.get_block_info(3, 0), None);
    assert_eq!(manager.get_block_info(0, usize::MAX), None);
}

#[test]
fn test_block_counts() {
    let one = Pieces::from_bytes(&[0u8; 20]).unwrap();
    assert_eq!(BLOCK_SIZE, 16 * 1024);
    assert_eq!(PieceManager::new(16384, 16384, &one).blocks_in_piece(0), 1);
    assert_eq!(PieceManager::new(16385, 16385, &one).blocks_in_piece(0), 2);
    assert_eq!(PieceManager::new(1, 1, &one).blocks_in_piece(0), 1);
    assert_eq!(PieceManager::new(262144, 262144, &one).blocks_in_piece(0), 16);
    let whole = PieceManager::new(16384, 32768, &Pieces::from_bytes(&[0u8; 40]).unwrap());
    assert_eq!(whole.get_block_info(1, 0), Some((0, 16384)));
    assert_eq!(whole.blocks_in_piece(1), 1);
}

#[test]
fn test_bitfield_is_msb_first() {
    let bitfield = [0xffu8, 0xf0, 0x00];
    for i in 0..12 {
        assert!(has_piece_in_bitfield(&bitfield, i));
    }
    for i in 12..24 {
        assert!(!has_piece_in_bitfield(&bitfield, i));
    }
    assert!(!has_piece_in_bitfield(&bitfield, 24));
    assert!(has_piece_in_bitfield(&[0x80], 0));
    assert!(has_piece_in_bitfield(&[0x01], 7));
    assert!(!has_piece_in_bitfield(&[0x01], 6));
    assert!(!has_piece_in_bitfield(&[], 0));
}

fn manager_with(count: usize) -> PieceManager {
    let pieces = Pieces::from_bytes(&vec![0u8; 20 * count]).unwrap();
    PieceManager::new(10, 10 * count as u64, &pieces)
}

#[test]
fn test_picker_starts_random_and_marks_downloading() {
    let manager = manager_with(20);
    let mut picker = PiecePicker::new(20);
    assert!(!picker.is_endgame());
    assert_eq!(picker.complete_count(), 0);
    assert!(!picker.is_complete());
    let bitfield = [0xffu8, 0xf0, 0x00];
    let mut seen = Vec::new();
    for _ in 0..12 {
        let piece = picker.pick_piece(&manager, &bitfield).unwrap();
        assert!(piece < 12);
        assert!(!seen.contains(&piece));
        seen.push(piece);
    }
    assert_eq!(picker.pick_piece(&manager, &bitfield), None);
    assert_eq!(picker.pick_piece(&manager, &[]), None);
}

#[test]
fn test_picker_ignores_trailing_bits() {
    let manager = manager_with(4);
    let mut picker = PiecePicker::new(4);
    assert_eq!(picker.pick_piece(&manager, &[0x0f, 0xff]), None);
    picker.update_peer_pieces(&[0x0f, 0xff]);
    assert_eq!(picker.pick_piece_from_peer(&[0x0f]), None);
    assert_eq!(picker.pick_piece_from_peer(&[0xff]), Some(0));
}

#[test]
fn test_picker_rarest_first_after_bootstrap() {
    let manager = manager_with(20);
    let mut picker = PiecePicker::new(20);
    for i in 16..20 {
        picker.mark_complete(i);
    }
    assert_eq!(picker.complete_count(), 4);
    // pieces 0..8 are at two peers, 8..12 at one, 12..16 at three
    picker.update_peer_pieces(&[0xff, 0x0f]);
    picker.update_peer_pieces(&[0xff, 0xff]);
    picker.update_peer_pieces(&[0x00, 0x0f]);
    let all = [0xffu8, 0xff, 0x00];
    assert_eq!(picker.pick_piece(&manager, &all), Some(8));
    assert_eq!(picker.pick_piece(&manager, &all), Some(9));
    assert_eq!(picker.pick_piece(&manager, &all), Some(10));
    assert_eq!(picker.pick_piece(&manager, &all), Some(11));
    assert_eq!(picker.pick_piece(&manager, &all), Some(0));
    assert_eq!(picker.pick_piece(&manager, &[0x00, 0x0f]), Some(12));
    picker.mark_missing(9);
    assert_eq!(picker.pick_piece(&manager, &all), Some(9));
}

#[test]
fn test_picker_have_counts_once_more() {
    let manager = manager_with(8);
    let mut picker = PiecePicker::new(8);
    for _ in 0..4 {
        picker.mark_complete(7);
    }
    for i in 0..7 {
        picker.add_peer_piece(i);
    }
    picker.add_peer_piece(3);
    picker.add_peer_piece(8);
    picker.update_peer_pieces(&[0b1110_0000]);
    // counts: 2 2 2 2 1 1 1
    assert_eq!(picker.pick_piece(&manager, &[0xfe]), Some(4));
    assert_eq!(picker.pick_piece_from_peer(&[0xf0]), Some(0));
    assert_eq!(picker.pick_piece_from_peer(&[0x0f]), Some(5));
    assert_eq!(picker.pick_piece_from_peer(&[0x01]), None);
}

#[test]
fn test_picker_endgame_hands_a_piece_out_twice() {
    let manager = manager_with(6);
    let mut picker = PiecePicker::new(6);
    for _ in 0..4 {
        picker.mark_complete(5);
    }
    assert!(!picker.is_endgame());
    let only_first = [0x80u8];
    assert_eq!(picker.pick_piece(&manager, &only_first), Some(0));
    assert!(picker.is_endgame());
    assert_eq!(picker.pick_piece(&manager, &only_first), Some(0));
    assert_eq!(picker.pick_piece(&manager, &only_first), Some(0));
}

#[test]
fn test_picker_outside_endgame_hands_a_piece_out_once() {
    let manager = manager_with(10);
    let mut picker = PiecePicker::new(10);
    let only_first = [0x80u8];
    assert_eq!(picker.pick_piece(&manager, &only_first), Some(0));
    assert!(!picker.is_endgame());
    assert_eq!(picker.pick_piece(&manager, &only_first), None);
    picker.mark_missing(0);
    assert_eq!(picker.pick_piece(&manager, &only_first), Some(0));
}

#[test]
fn test_picker_skips_what_the_catalog_does_not_miss() {
    let mut manager = manager_with(10);
    manager.start_piece(0).unwrap();
    let mut picker = PiecePicker::new(10);
    assert_eq!(picker.pick_piece(&manager, &[0x80]), None);
    assert_eq!(picker.pick_piece(&manager, &[0xc0]), Some(1));
}

#[test]
fn test_picker_marks() {
    let mut picker = PiecePicker::new(3);
    picker.mark_downloading(0);
    assert_eq!(picker.pick_piece_from_peer(&[0xe0]), Some(1));
    picker.mark_complete(1);
    picker.mark_missing(1);
    picker.mark_downloading(1);
    assert_eq!(picker.complete_count(), 1);
    picker.mark_complete(0);
    picker.mark_complete(2);
    picker.mark_complete(3);
    assert_eq!(picker.complete_count(), 3);
    assert!(picker.is_complete());
    assert_eq!(picker.pick_piece_from_peer(&[0xe0]), None);
}

#[test]
fn test_picker_candidates_and_rarest() {
    let manager = manager_with(8);
    let mut picker = PiecePicker::new(8);
    picker.mark_downloading(2);
    picker.update_peer_pieces(&[0b1011_0000]);
    let found = picker.candidates(&manager, &[0b0111_1000], false);
    assert_eq!(found, vec![1, 3, 4]);
    assert_eq!(picker.candidates(&manager, &[0b0111_1000], true), vec![1, 2, 3, 4]);
    assert_eq!(picker.rarest(&found), Some(1));
    assert_eq!(picker.rarest(&vec![3, 1, 4]), Some(1));
    assert_eq!(picker.rarest(&vec![3, 0]), Some(3));
    assert_eq!(picker.rarest(&Vec::new()), None);
}

#[test]
fn test_abort_piece_reverts_to_missing() {
    let content = pattern(10, 9);
    let pieces = pieces_for(&[content.clone(), content.clone()]);
    let mut manager = PieceManager::new(10, 20, &pieces);
    manager.abort_piece(0);
    assert_eq!(manager.get_piece_state(0), Some(PieceState::Missing));
    manager.start_piece(0).unwrap();
    manager.add_block(0, 0, &content).unwrap();
    manager.abort_piece(0);
    assert_eq!(manager.get_piece_state(0), Some(PieceState::Missing));
    assert!(is_piece_error(manager.add_block(0, 0, &content)));
    manager.start_piece(0).unwrap();
    assert!(is_piece_error(manager.complete_piece(0)));
    manager.start_piece(1).unwrap();
    manager.add_block(1, 0, &content).unwrap();
    manager.complete_piece(1).unwrap();
    manager.abort_piece(1);
    manager.abort_piece(5);
    assert_eq!(manager.get_piece_state(1), Some(PieceState::Complete));
    assert_eq!(manager.piece_len(1), Some(10));
    assert_eq!(manager.piece_len(2), None);
}
