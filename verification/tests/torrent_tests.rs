use bittorrent_rs::bencode::{decode, encode, BencodeDict, BencodeValue};
use bittorrent_rs::error::BittorrentError;
use bittorrent_rs::torrent::metainfo::calculate_info_hash;
use bittorrent_rs::torrent::{parse_torrent, Metainfo, PieceHash, Pieces, TorrentInfo};
use sha1::{Digest, Sha1};

fn sha1_of(data: &[u8]) -> [u8; 20] {
    Sha1::digest(data).into()
}

fn is_invalid<T>(r: Result<T, BittorrentError>) -> bool {
    matches!(r, Err(BittorrentError::InvalidTorrent(_)))
}

fn single_file_info() -> Vec<u8> {
    let mut info = Vec::new();
    info.extend_from_slice(b"d4:name4:test12:piece lengthi16384e6:pieces20:");
    info.extend_from_slice(&[7u8; 20]);
    info.extend_from_slice(b"6:lengthi1024ee");
    info
}

fn torrent_with_info(info: &[u8]) -> Vec<u8> {
    let mut data = Vec::new();
    data.extend_from_slice(b"d8:announce18:http://tracker/ann4:info");
    data.extend_from_slice(info);
    data.extend_from_slice(b"e");
    data
}

#[test]
fn test_parse_single_file_torrent() {
    let data = torrent_with_info(&single_file_info());
    let metainfo = parse_torrent(&data).unwrap();
    assert_eq!(metainfo.announce, "http://tracker/ann");
    assert!(metainfo.announce_list.is_none());
    assert_eq!(metainfo.info.name, "test");
    assert_eq!(metainfo.info.piece_length, 16384);
    assert_eq!(metainfo.info.pieces.len(), 1);
    assert_eq!(metainfo.info.pieces.get(0).unwrap().as_bytes(), &[7u8; 20]);
    assert_eq!(metainfo.info.files.len(), 1);
    assert_eq!(metainfo.info.files[0].path, vec!["test".to_string()]);
    assert_eq!(metainfo.info.files[0].length, 1024);
    assert_eq!(metainfo.info.total_length, 1024);
}

#[test]
fn test_info_hash_is_sha1_of_the_original_span() {
    let info = single_file_info();
    let data = torrent_with_info(&info);
    let metainfo = parse_torrent(&data).unwrap();
    assert_eq!(metainfo.info_hash, sha1_of(&info));
    let reencoded = encode(decode(&data).unwrap().dict_get(b"info").unwrap());
    assert_ne!(reencoded, info);
    assert_ne!(metainfo.info_hash, sha1_of(&reencoded));
    assert_eq!(calculate_info_hash(&data), Some(sha1_of(&info)));
    assert_eq!(calculate_info_hash(b"d8:announce1:ae"), None);
    assert_eq!(calculate_info_hash(b"not bencode"), None);
}

#[test]
fn test_info_hash_of_known_bytes() {
    let data: &[u8] = b"d8:announce1:a4:infod6:lengthi1e4:name1:x12:piece lengthi1e6:pieces0:ee";
    let metainfo = parse_torrent(data).unwrap();
    assert_eq!(
        metainfo.info_hash_hex(),
        hex::encode(sha1_of(b"d6:lengthi1e4:name1:x12:piece lengthi1e6:pieces0:e"))
    );
    assert_eq!(metainfo.info_hash_hex().len(), 40);
}

#[test]
fn test_info_hash_text_forms() {
    let mut hash = [0u8; 20];
    for (i, b) in hash.iter_mut().enumerate() {
        *b = (i as u8) * 13;
    }
    let data = torrent_with_info(&single_file_info());
    let mut metainfo = parse_torrent(&data).unwrap();
    metainfo.info_hash = hash;
    assert_eq!(
        metainfo.info_hash_hex(),
        "000d1a2734414e5b6875828f9ca9b6c3d0ddeaf7"
    );
    assert_eq!(
        metainfo.info_hash_urlencoded(),
        "%00%0d%1a%27%34%41%4e%5b%68%75%82%8f%9c%a9%b6%c3%d0%dd%ea%f7"
    );
}

#[test]
fn test_from_bencode_uses_the_raw_bytes() {
    let info = single_file_info();
    let data = torrent_with_info(&info);
    let value = decode(&data).unwrap();
    let metainfo = Metainfo::from_bencode(value, &data).unwrap();
    assert_eq!(metainfo.info_hash, sha1_of(&info));
    let value = decode(&data).unwrap();
    assert!(is_invalid(Metainfo::from_bencode(value, b"i1e")));
}

#[test]
fn test_from_parts_takes_the_hash_given() {
    let data = torrent_with_info(&single_file_info());
    let value = decode(&data).unwrap();
    let metainfo = Metainfo::from_parts(&value, [9u8; 20]).unwrap();
    assert_eq!(metainfo.info_hash, [9u8; 20]);
    assert_eq!(metainfo.info.name, "test");
    assert!(is_invalid(Metainfo::from_parts(&BencodeValue::Integer(1), [9u8; 20])));
}

#[test]
fn test_parse_multi_file_torrent() {
    let mut info = Vec::new();
    info.extend_from_slice(b"d5:filesl");
    info.extend_from_slice(b"d6:lengthi1000e4:pathl1:Aee");
    info.extend_from_slice(b"d6:lengthi2000e4:pathl3:dir1:Beee");
    info.extend_from_slice(b"4:name4:root12:piece lengthi1024e6:pieces60:");
    info.extend_from_slice(&[5u8; 60]);
    info.extend_from_slice(b"e");
    let mut data = Vec::new();
    data.extend_from_slice(b"d8:announce1:a13:announce-listll1:a1:bei7el1:cee4:info");
    data.extend_from_slice(&info);
    data.extend_from_slice(b"e");
    let metainfo = parse_torrent(&data).unwrap();
    assert_eq!(metainfo.info.files.len(), 2);
    assert_eq!(metainfo.info.files[0].path, vec!["A".to_string()]);
    assert_eq!(metainfo.info.files[0].length, 1000);
    assert_eq!(metainfo.info.files[1].path, vec!["dir".to_string(), "B".to_string()]);
    assert_eq!(metainfo.info.files[1].length, 2000);
    assert_eq!(metainfo.info.total_length, 3000);
    assert_eq!(metainfo.info.pieces.len(), 3);
    assert_eq!(
        metainfo.announce_list,
        Some(vec![vec!["a".to_string(), "b".to_string()], vec!["c".to_string()]])
    );
    assert_eq!(metainfo.info_hash, sha1_of(&info));
}

#[test]
fn test_announce_list_that_is_no_list_is_dropped() {
    let mut data = Vec::new();
    data.extend_from_slice(b"d8:announce1:a13:announce-listi1e4:info");
    data.extend_from_slice(&single_file_info());
    data.extend_from_slice(b"e");
    assert!(parse_torrent(&data).unwrap().announce_list.is_none());
}

fn info_from(parts: &[u8]) -> Vec<u8> {
    torrent_with_info(parts)
}

#[test]
fn test_invalid_torrents() {
    assert!(is_invalid(parse_torrent(b"")));
    assert!(is_invalid(parse_torrent(b"d8:announce1:a")));
    assert!(is_invalid(parse_torrent(b"i1e")));
    assert!(is_invalid(parse_torrent(b"le")));
    // no announce
    let mut no_announce = Vec::new();
    no_announce.extend_from_slice(b"d4:info");
    no_announce.extend_from_slice(&single_file_info());
    no_announce.extend_from_slice(b"e");
    assert!(is_invalid(parse_torrent(&no_announce)));
    // announce of the wrong type
    let mut bad_announce = Vec::new();
    bad_announce.extend_from_slice(b"d8:announcei1e4:info");
    bad_announce.extend_from_slice(&single_file_info());
    bad_announce.extend_from_slice(b"e");
    assert!(is_invalid(parse_torrent(&bad_announce)));
    // no info
    assert!(is_invalid(parse_torrent(b"d8:announce1:ae")));
    // info of the wrong type
    assert!(is_invalid(parse_torrent(b"d8:announce1:a4:infoi1ee")));
    // no name
    assert!(is_invalid(parse_torrent(&info_from(
        b"d6:lengthi1e12:piece lengthi1e6:pieces0:e"
    ))));
    // no piece length
    assert!(is_invalid(parse_torrent(&info_from(
        b"d6:lengthi1e4:name1:x6:pieces0:e"
    ))));
    // piece length zero or negative
    assert!(is_invalid(parse_torrent(&info_from(
        b"d6:lengthi1e4:name1:x12:piece lengthi0e6:pieces0:e"
    ))));
    assert!(is_invalid(parse_torrent(&info_from(
        b"d6:lengthi1e4:name1:x12:piece lengthi-4e6:pieces0:e"
    ))));
    // pieces not a multiple of twenty
    assert!(is_invalid(parse_torrent(&info_from(
        b"d6:lengthi1e4:name1:x12:piece lengthi1e6:pieces3:abce"
    ))));
    // no pieces
    assert!(is_invalid(parse_torrent(&info_from(
        b"d6:lengthi1e4:name1:x12:piece lengthi1ee"
    ))));
    // neither length nor files
    assert!(is_invalid(parse_torrent(&info_from(
        b"d4:name1:x12:piece lengthi1e6:pieces0:e"
    ))));
    // both length and files
    assert!(is_invalid(parse_torrent(&info_from(
        b"d5:filesle6:lengthi1e4:name1:x12:piece lengthi1e6:pieces0:e"
    ))));
    // length of the wrong type
    assert!(is_invalid(parse_torrent(&info_from(
        b"d6:length1:14:name1:x12:piece lengthi1e6:pieces0:e"
    ))));
    // files of the wrong type
    assert!(is_invalid(parse_torrent(&info_from(
        b"d5:filesi1e4:name1:x12:piece lengthi1e6:pieces0:e"
    ))));
}

#[test]
fn test_invalid_file_paths() {
    let with_files = |files: &[u8]| {
        let mut info = Vec::new();
        info.extend_from_slice(b"d5:filesl");
        info.extend_from_slice(files);
        info.extend_from_slice(b"e4:name1:x12:piece lengthi1e6:pieces0:e");
        torrent_with_info(&info)
    };
    assert!(parse_torrent(&with_files(b"d6:lengthi1e4:pathl1:aee")).is_ok());
    assert!(parse_torrent(&with_files(b"")).is_ok());
    // empty path
    assert!(is_invalid(parse_torrent(&with_files(b"d6:lengthi1e4:pathlee"))));
    // a component that is `..`
    assert!(is_invalid(parse_torrent(&with_files(b"d6:lengthi1e4:pathl1:a2:..ee"))));
    // an absolute component
    assert!(is_invalid(parse_torrent(&with_files(b"d6:lengthi1e4:pathl4:/etcee"))));
    // a component that is no text
    assert!(is_invalid(parse_torrent(&with_files(b"d6:lengthi1e4:pathli1eee"))));
    assert!(is_invalid(parse_torrent(&with_files(b"d6:lengthi1e4:pathl2:\xff\xfeee"))));
    // no path, no length, entry of the wrong type
    assert!(is_invalid(parse_torrent(&with_files(b"d6:lengthi1ee"))));
    assert!(is_invalid(parse_torrent(&with_files(b"d4:pathl1:aee"))));
    assert!(is_invalid(parse_torrent(&with_files(b"i1e"))));
    // a name that would leave the root, in a single-file torrent
    assert!(is_invalid(parse_torrent(&torrent_with_info(
        b"d6:lengthi1e4:name2:..12:piece lengthi1e6:pieces0:e"
    ))));
    // `...` and a slash inside a component are no escape
    assert!(parse_torrent(&with_files(b"d6:lengthi1e4:pathl3:...3:a/bee")).is_ok());
}

#[test]
fn test_total_length_that_overflows_is_invalid() {
    let mut info = Vec::new();
    info.extend_from_slice(b"d5:filesl");
    info.extend_from_slice(b"d6:lengthi9223372036854775807e4:pathl1:aee");
    info.extend_from_slice(b"d6:lengthi9223372036854775807e4:pathl1:bee");
    info.extend_from_slice(b"d6:lengthi2e4:pathl1:cee");
    info.extend_from_slice(b"e4:name1:x12:piece lengthi1e6:pieces0:e");
    assert!(is_invalid(parse_torrent(&torrent_with_info(&info))));
}

#[test]
fn test_torrent_info_from_bencode() {
    let value = decode(&single_file_info()).unwrap();
    let info = TorrentInfo::from_bencode(&value).unwrap();
    assert_eq!(info.name, "test");
    assert_eq!(info.total_length, 1024);
    assert!(is_invalid(TorrentInfo::from_bencode(&BencodeValue::List(Vec::new()))));
    let mut dict = BencodeDict::new();
    dict.insert(b"name".to_vec(), BencodeValue::String(b"n".to_vec()));
    assert!(is_invalid(TorrentInfo::from_bencode(&BencodeValue::Dict(dict))));
}

#[test]
fn test_piece_hash() {
    let hash = PieceHash::new([3u8; 20]);
    assert_eq!(hash.as_bytes(), &[3u8; 20]);
    let mut bytes = [0u8; 20];
    for (i, b) in bytes.iter_mut().enumerate() {
        *b = i as u8;
    }
    assert_eq!(PieceHash::from_slice(&bytes).unwrap(), PieceHash::new(bytes));
    assert!(is_invalid(PieceHash::from_slice(&bytes[..19])));
    assert!(is_invalid(PieceHash::from_slice(&[0u8; 21])));
}

#[test]
fn test_pieces() {
    let mut blob = Vec::new();
    blob.extend_from_slice(&[1u8; 20]);
    blob.extend_from_slice(&[2u8; 20]);
    blob.extend_from_slice(&[3u8; 20]);
    let pieces = Pieces::from_bytes(&blob).unwrap();
    assert_eq!(pieces.len(), 3);
    assert!(!pieces.is_empty());
    assert_eq!(pieces.get(1), Some(&PieceHash::new([2u8; 20])));
    assert_eq!(pieces.get(3), None);
    let all: Vec<PieceHash> = pieces.iter().iter().copied().collect();
    assert_eq!(
        all,
        vec![PieceHash::new([1u8; 20]), PieceHash::new([2u8; 20]), PieceHash::new([3u8; 20])]
    );
    assert!(is_invalid(Pieces::from_bytes(&blob[..59])));
    let empty = Pieces::from_bytes(&[]).unwrap();
    assert_eq!(empty.len(), 0);
    assert!(empty.is_empty());
}
