use bittorrent_rs::error::BittorrentError;
use bittorrent_rs::storage::{FileSegment, StorageManager};
use bittorrent_rs::torrent::{FileInfo, Pieces, TorrentInfo};

fn info(piece_length: u64, lengths: &[u64]) -> TorrentInfo {
    let files: Vec<FileInfo> = lengths
        .iter()
        .enumerate()
        .map(|(i, l)| FileInfo { path: vec!["dir".to_string(), format!("f{}", i)], length: *l })
        .collect();
    let total: u64 = lengths.iter().sum();
    let count = if piece_length == 0 { 0 } else { (total + piece_length - 1) / piece_length };
    TorrentInfo {
        name: "root".to_string(),
        piece_length,
        pieces: Pieces::from_bytes(&vec![0u8; 20 * count as usize]).unwrap(),
        files,
        total_length: total,
    }
}

fn seg(file_index: usize, file_offset: u64, data_offset: usize, length: usize) -> FileSegment {
    FileSegment { file_index, file_offset, data_offset, length }
}

#[test]
fn test_multi_file_striping() {
    let storage = StorageManager::new("out".to_string(), &info(1024, &[1000, 2000])).unwrap();
    assert_eq!(storage.num_pieces(), 3);
    assert_eq!(
        storage.write_piece(0, 1024).unwrap(),
        vec![seg(0, 0, 0, 1000), seg(1, 0, 1000, 24)]
    );
    assert_eq!(storage.write_piece(1, 1024).unwrap(), vec![seg(1, 24, 0, 1024)]);
    assert_eq!(storage.write_piece(2, 952).unwrap(), vec![seg(1, 1048, 0, 952)]);
    assert_eq!(
        storage.read_piece(0).unwrap(),
        vec![seg(0, 0, 0, 1000), seg(1, 0, 1000, 24)]
    );
    assert_eq!(storage.read_piece(1).unwrap(), vec![seg(1, 24, 0, 1024)]);
    assert_eq!(storage.read_piece(2).unwrap(), vec![seg(1, 1048, 0, 952)]);
}

#[test]
fn test_layout_offsets() {
    let storage = StorageManager::new("out".to_string(), &info(10, &[5, 0, 7, 3])).unwrap();
    assert_eq!(storage.download_dir(), "out");
    let files = storage.files();
    assert_eq!(files.len(), 4);
    assert_eq!(files[0].offset, 0);
    assert_eq!(files[1].offset, 5);
    assert_eq!(files[2].offset, 5);
    assert_eq!(files[3].offset, 12);
    assert_eq!(files[2].length, 7);
    assert_eq!(files[2].path, vec!["dir".to_string(), "f2".to_string()]);
}

#[test]
fn test_segments_skip_empty_files_and_stop_at_the_end() {
    let storage = StorageManager::new("out".to_string(), &info(10, &[5, 0, 7, 3])).unwrap();
    assert_eq!(
        storage.segments(0, 15),
        vec![seg(0, 0, 0, 5), seg(2, 0, 5, 7), seg(3, 0, 12, 3)]
    );
    assert_eq!(storage.segments(3, 4), vec![seg(0, 3, 0, 2), seg(2, 0, 2, 2)]);
    assert_eq!(storage.segments(12, 100), vec![seg(3, 0, 0, 3)]);
    assert_eq!(storage.segments(14, 1), vec![seg(3, 2, 0, 1)]);
    assert_eq!(storage.segments(15, 1), Vec::new());
    assert_eq!(storage.segments(1000, 10), Vec::new());
    assert_eq!(storage.segments(4, 0), Vec::new());
    assert_eq!(storage.read_piece(1).unwrap(), vec![seg(2, 5, 0, 2), seg(3, 0, 2, 3)]);
    assert_eq!(storage.num_pieces(), 2);
}

#[test]
fn test_storage_failures() {
    let zero = StorageManager::new("out".to_string(), &info(0, &[5]));
    assert!(matches!(zero, Err(BittorrentError::StorageError(_))));
    let mut too_long = info(10, &[5, 5]);
    too_long.files[0].length = u64::MAX;
    let r = StorageManager::new("out".to_string(), &too_long);
    assert!(matches!(r, Err(BittorrentError::StorageError(_))));
    let storage =
        StorageManager::new("out".to_string(), &info(u64::MAX / 2, &[5, 5])).unwrap();
    assert!(matches!(storage.write_piece(3, 1), Err(BittorrentError::StorageError(_))));
    assert!(matches!(storage.read_piece(3), Err(BittorrentError::StorageError(_))));
    assert_eq!(storage.write_piece(2, 1).unwrap(), Vec::new());
}

#[test]
fn test_single_file_layout() {
    let storage = StorageManager::new("out".to_string(), &info(4, &[10])).unwrap();
    assert_eq!(storage.num_pieces(), 3);
    assert_eq!(storage.read_piece(0).unwrap(), vec![seg(0, 0, 0, 4)]);
    assert_eq!(storage.read_piece(2).unwrap(), vec![seg(0, 8, 0, 2)]);
    assert_eq!(storage.write_piece(2, 4).unwrap(), vec![seg(0, 8, 0, 2)]);
}
