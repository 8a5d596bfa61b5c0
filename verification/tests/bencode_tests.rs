use bittorrent_rs::bencode::{
    decode, decode_prefix, decode_with_span, encode, BencodeDict, BencodeValue,
};
use bittorrent_rs::error::BittorrentError;

fn is_bencode_error<T>(r: Result<T, BittorrentError>) -> bool {
    matches!(r, Err(BittorrentError::BencodeError(_)))
}

#[test]
fn test_integer_encoding() {
    let value = BencodeValue::Integer(42);
    let encoded = encode(&value);
    assert_eq!(encoded, b"i42e");
}

#[test]
fn test_string_encoding() {
    let value = BencodeValue::String(b"spam".to_vec());
    let encoded = encode(&value);
    assert_eq!(encoded, b"4:spam");
}

#[test]
fn test_list_encoding() {
    let value = BencodeValue::List(vec![
        BencodeValue::String(b"spam".to_vec()),
        BencodeValue::Integer(42),
    ]);
    let encoded = encode(&value);
    assert_eq!(encoded, b"l4:spami42ee");
}

#[test]
fn test_dict_encoding() {
    let mut dict = BencodeDict::new();
    dict.insert(b"foo".to_vec(), BencodeValue::Integer(42));
    dict.insert(b"bar".to_vec(), BencodeValue::String(b"spam".to_vec()));
    let value = BencodeValue::Dict(dict);
    let encoded = encode(&value);
    assert_eq!(encoded, b"d3:bar4:spam3:fooi42ee");
}

#[test]
fn test_roundtrip() {
    let original = BencodeValue::List(vec![
        BencodeValue::Integer(123),
        BencodeValue::String(b"test".to_vec()),
    ]);
    let encoded = encode(&original);
    let decoded = decode(&encoded).unwrap();
    assert_eq!(original, decoded);
}

#[test]
fn test_integer_extremes_encoding() {
    assert_eq!(encode(&BencodeValue::Integer(0)), b"i0e");
    assert_eq!(encode(&BencodeValue::Integer(-7)), b"i-7e");
    assert_eq!(encode(&BencodeValue::Integer(i64::MAX)), b"i9223372036854775807e");
    assert_eq!(encode(&BencodeValue::Integer(i64::MIN)), b"i-9223372036854775808e");
}

#[test]
fn test_integer_extremes_roundtrip() {
    for i in [0i64, 1, -1, 9, 10, -10, 1234567890123, i64::MAX, i64::MIN] {
        let encoded = encode(&BencodeValue::Integer(i));
        assert_eq!(decode(&encoded).unwrap(), BencodeValue::Integer(i));
    }
}

#[test]
fn test_empty_string_decodes_to_no_bytes() {
    assert_eq!(decode(b"0:").unwrap(), BencodeValue::String(Vec::new()));
    assert_eq!(encode(&BencodeValue::String(Vec::new())), b"0:");
}

#[test]
fn test_integer_zero_and_invalid_forms() {
    assert_eq!(decode(b"i0e").unwrap(), BencodeValue::Integer(0));
    assert!(is_bencode_error(decode(b"i-0e")));
    assert!(is_bencode_error(decode(b"i03e")));
    assert!(is_bencode_error(decode(b"i00e")));
    assert!(is_bencode_error(decode(b"i-03e")));
    assert!(is_bencode_error(decode(b"ie")));
    assert!(is_bencode_error(decode(b"i-e")));
    assert!(is_bencode_error(decode(b"i+5e")));
    assert!(is_bencode_error(decode(b"i12")));
    assert!(is_bencode_error(decode(b"i1x2e")));
}

#[test]
fn test_integer_overflow_is_refused() {
    assert_eq!(
        decode(b"i9223372036854775807e").unwrap(),
        BencodeValue::Integer(i64::MAX)
    );
    assert_eq!(
        decode(b"i-9223372036854775808e").unwrap(),
        BencodeValue::Integer(i64::MIN)
    );
    assert!(is_bencode_error(decode(b"i9223372036854775808e")));
    assert!(is_bencode_error(decode(b"i-9223372036854775809e")));
    assert!(is_bencode_error(decode(b"i99999999999999999999999999e")));
}

#[test]
fn test_decode_failures() {
    assert!(is_bencode_error(decode(b"")));
    assert!(is_bencode_error(decode(b"x")));
    assert!(is_bencode_error(decode(b"e")));
    assert!(is_bencode_error(decode(b"5:spam")));
    assert!(is_bencode_error(decode(b"4spam")));
    assert!(is_bencode_error(decode(b"4")));
    assert!(is_bencode_error(decode(b"99999999999999999999999999:a")));
    assert!(is_bencode_error(decode(b"l4:spam")));
    assert!(is_bencode_error(decode(b"li1e")));
    assert!(is_bencode_error(decode(b"d3:fooi1e")));
    assert!(is_bencode_error(decode(b"d3:foo")));
    assert!(is_bencode_error(decode(b"di1ei2ee")));
    assert!(is_bencode_error(decode(b"dl1:aei2ee")));
}

#[test]
fn test_string_length_with_leading_zeros_is_tolerated() {
    assert_eq!(decode(b"04:spam").unwrap(), BencodeValue::String(b"spam".to_vec()));
    assert_eq!(encode(&decode(b"04:spam").unwrap()), b"4:spam");
}

#[test]
fn test_decode_prefix_reports_bytes_consumed() {
    let (value, used) = decode_prefix(b"i42e4:spam").unwrap();
    assert_eq!(value, BencodeValue::Integer(42));
    assert_eq!(used, 4);
    let (value, used) = decode_prefix(b"l4:spami42eetrailing").unwrap();
    assert_eq!(
        value,
        BencodeValue::List(vec![
            BencodeValue::String(b"spam".to_vec()),
            BencodeValue::Integer(42),
        ])
    );
    assert_eq!(used, 12);
    assert_eq!(decode(b"i42etrailing").unwrap(), BencodeValue::Integer(42));
}

#[test]
fn test_decode_orders_dictionary_keys() {
    let decoded = decode(b"d3:fooi42e3:bar4:spame").unwrap();
    let dict = decoded.as_dict().unwrap();
    assert_eq!(dict.len(), 2);
    assert_eq!(dict.key_at(0).as_slice(), b"bar");
    assert_eq!(dict.key_at(1).as_slice(), b"foo");
    assert_eq!(encode(&decoded), b"d3:bar4:spam3:fooi42ee");
}

#[test]
fn test_decode_keeps_last_of_a_repeated_key() {
    let decoded = decode(b"d1:ai1e1:ai2ee").unwrap();
    assert_eq!(decoded.dict_get_int(b"a"), Some(2));
    assert_eq!(decoded.as_dict().unwrap().len(), 1);
}

#[test]
fn test_encode_of_decode_is_identity_on_canonical_input() {
    let inputs: [&[u8]; 6] = [
        b"i42e",
        b"4:spam",
        b"le",
        b"de",
        b"d3:bar4:spam3:fooi42ee",
        b"d1:ad1:bl1:c1:dee1:eli-1ei0eee",
    ];
    for input in inputs.iter() {
        let decoded = decode(input).unwrap();
        assert_eq!(encode(&decoded).as_slice(), *input);
    }
}

#[test]
fn test_nested_roundtrip() {
    let mut inner = BencodeDict::new();
    inner.insert(b"zeta".to_vec(), BencodeValue::List(Vec::new()));
    inner.insert(b"alpha".to_vec(), BencodeValue::Integer(-5));
    let mut outer = BencodeDict::new();
    outer.insert(b"inner".to_vec(), BencodeValue::Dict(inner));
    outer.insert(b"".to_vec(), BencodeValue::String(vec![0, 255, 101]));
    let value = BencodeValue::List(vec![BencodeValue::Dict(outer), BencodeValue::Integer(7)]);
    let encoded = encode(&value);
    assert_eq!(encoded, b"ld0:3:\x00\xffe5:innerd5:alphai-5e4:zetaleeei7ee");
    assert_eq!(decode(&encoded).unwrap(), value);
}

#[test]
fn test_dict_insert_replaces_and_sorts() {
    let mut dict = BencodeDict::new();
    assert!(dict.is_empty());
    dict.insert(b"b".to_vec(), BencodeValue::Integer(1));
    dict.insert(b"a".to_vec(), BencodeValue::Integer(2));
    dict.insert(b"ab".to_vec(), BencodeValue::Integer(3));
    dict.insert(b"b".to_vec(), BencodeValue::Integer(4));
    assert_eq!(dict.len(), 3);
    assert_eq!(dict.key_at(0).as_slice(), b"a");
    assert_eq!(dict.key_at(1).as_slice(), b"ab");
    assert_eq!(dict.key_at(2).as_slice(), b"b");
    assert_eq!(dict.value_at(2), &BencodeValue::Integer(4));
    assert_eq!(dict.get(b"ab"), Some(&BencodeValue::Integer(3)));
    assert_eq!(dict.get(b"c"), None);
}

#[test]
fn test_value_accessors() {
    let int = BencodeValue::Integer(9);
    let text = BencodeValue::String(b"hello".to_vec());
    let raw = BencodeValue::String(vec![0xff, 0xfe]);
    let list = BencodeValue::List(vec![BencodeValue::Integer(1)]);
    assert_eq!(int.as_integer(), Some(9));
    assert_eq!(text.as_integer(), None);
    assert_eq!(text.as_bytes(), Some(&b"hello"[..]));
    assert_eq!(int.as_bytes(), None);
    assert_eq!(text.as_str(), Some("hello"));
    assert_eq!(raw.as_str(), None);
    assert_eq!(int.as_str(), None);
    assert_eq!(list.as_list().unwrap().len(), 1);
    assert!(int.as_list().is_none());
    assert!(list.as_dict().is_none());
    assert!(list.dict_get(b"a").is_none());

    let decoded = decode(b"d1:ai5e1:b3:xyz1:c2:\xff\xfee").unwrap();
    assert_eq!(decoded.dict_get_int(b"a"), Some(5));
    assert_eq!(decoded.dict_get_int(b"b"), None);
    assert_eq!(decoded.dict_get_str(b"b"), Some("xyz"));
    assert_eq!(decoded.dict_get_str(b"c"), None);
    assert_eq!(decoded.dict_get_str(b"a"), None);
    assert_eq!(decoded.dict_get(b"zz"), None);
}

#[test]
fn test_decode_with_span_records_value_bytes() {
    let data: &[u8] = b"d8:announce3:url4:infod4:name1:xe5:otheri1ee";
    let (value, span) = decode_with_span(data, b"info").unwrap();
    let (begin, end) = span.unwrap();
    assert_eq!(&data[begin..end], b"d4:name1:xe");
    assert_eq!(decode(&data[begin..end]).unwrap(), *value.dict_get(b"info").unwrap());

    let (_, none) = decode_with_span(data, b"missing").unwrap();
    assert_eq!(none, None);
    let (_, not_dict) = decode_with_span(b"i1e", b"info").unwrap();
    assert_eq!(not_dict, None);
    assert!(is_bencode_error(decode_with_span(b"d4:infoi1e", b"info")));
}

#[test]
fn test_decode_with_span_takes_last_of_a_repeated_key() {
    let data: &[u8] = b"d4:infoi1e4:infoi22ee";
    let (value, span) = decode_with_span(data, b"info").unwrap();
    let (begin, end) = span.unwrap();
    assert_eq!(&data[begin..end], b"i22e");
    assert_eq!(value.dict_get_int(b"info"), Some(22));
}

#[test]
fn test_span_is_not_fooled_by_key_text_inside_a_string() {
    let data: &[u8] = b"d7:comment6:4:info4:infod1:ai1eee";
    let (_, span) = decode_with_span(data, b"info").unwrap();
    let (begin, end) = span.unwrap();
    assert_eq!(&data[begin..end], b"d1:ai1ee");
}

#[test]
fn test_clone_is_equal() {
    let value = decode(b"d1:al1:bi2ed1:ci3eee1:d0:e").unwrap();
    let copy = value.clone();
    assert_eq!(copy, value);
    assert_eq!(encode(&copy), b"d1:al1:bi2ed1:ci3eee1:d0:e");
    let dict = value.as_dict().unwrap().clone();
    assert_eq!(BencodeValue::Dict(dict), value);
}
