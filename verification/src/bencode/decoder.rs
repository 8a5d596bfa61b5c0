use vstd::prelude::*;
use vstd::slice::{slice_subrange, slice_to_vec};
use crate::bencode::model::{
    Bencode, BYTE_COLON, BYTE_D, BYTE_E, BYTE_I, BYTE_L, BYTE_MINUS, BYTE_NINE, BYTE_ZERO,
    decimal_value, decode_spec, dict_insert, digits_end, entry_span_from, is_digit, parse_bytes,
    parse_entries, parse_integer, parse_items, parse_value, value_span,
};
use crate::bencode::laws::lemma_parse_value_wf;
use crate::bencode::order::bytes_eq;
use crate::bencode::value::{BencodeDict, BencodeValue, items_view};
use crate::error::{BittorrentError, bencode_error};

verus! {

/// Reads the run of digits at `pos`. Returns where it ends, and the number
/// it denotes unless that is more than `limit`.
fn read_digits(data: &[u8], pos: usize, limit: u64) -> (r: (usize, Option<u64>))
    requires
        pos <= data.len(),
    ensures
        r.0 == digits_end(data@, pos as int),
        pos <= r.0 <= data.len(),
        forall|j: int| pos <= j < r.0 ==> is_digit(#[trigger] data@[j]),
        r.0 < data.len() ==> !is_digit(data@[r.0 as int]),
        match r.1 {
            Some(n) => n == decimal_value(data@.subrange(pos as int, r.0 as int)) && n <= limit,
            None => decimal_value(data@.subrange(pos as int, r.0 as int)) > limit,
        },
{
    let mut i: usize = pos;
    let mut value: u64 = 0;
    let mut fits: bool = true;
    assert(data@.subrange(pos as int, pos as int) =~= Seq::<u8>::empty());
    while i < data.len() && data[i] >= BYTE_ZERO && data[i] <= BYTE_NINE
        invariant
            pos <= i <= data.len(),
            digits_end(data@, pos as int) == digits_end(data@, i as int),
            forall|j: int| pos <= j < i ==> is_digit(#[trigger] data@[j]),
            fits ==> value == decimal_value(data@.subrange(pos as int, i as int)) && value
                <= limit,
            !fits ==> decimal_value(data@.subrange(pos as int, i as int)) > limit,
        decreases data.len() - i,
    {
        let digit: u8 = data[i] - BYTE_ZERO;
        proof {
            let longer = data@.subrange(pos as int, i + 1);
            assert(longer.drop_last() =~= data@.subrange(pos as int, i as int));
            assert(longer.last() == data@[i as int]);
        }
        if fits {
            let next: u128 = value as u128 * 10 + digit as u128;
            if next > limit as u128 {
                fits = false;
            } else {
                value = next as u64;
            }
        }
        i += 1;
    }
    if fits {
        (i, Some(value))
    } else {
        (i, None)
    }
}

/// Decodes the byte string at `pos`.
fn decode_string(data: &[u8], pos: usize) -> (r: Result<(Vec<u8>, usize), BittorrentError>)
    requires
        pos <= data.len(),
    ensures
        match r {
            Ok((s, q)) => parse_bytes(data@, pos as int) == Some((s@, q as int)) && pos < q
                <= data.len(),
            Err(e) => parse_bytes(data@, pos as int) is None && e is BencodeError,
        },
{
    let (colon, length) = read_digits(data, pos, data.len() as u64);
    if colon == pos || colon >= data.len() || data[colon] != BYTE_COLON {
        return Err(bencode_error("Invalid string length"));
    }
    match length {
        None => Err(bencode_error("String length exceeds data")),
        Some(n) => {
            let n: usize = n as usize;
            if n > data.len() - colon - 1 {
                return Err(bencode_error("String length exceeds data"));
            }
            let start: usize = colon + 1;
            let end: usize = start + n;
            let bytes = slice_to_vec(slice_subrange(data, start, end));
            Ok((bytes, end))
        },
    }
}

/// Decodes the text of an integer at `pos`, the position after the `i`,
/// up to and including the closing `e`.
fn decode_integer(data: &[u8], pos: usize) -> (r: Result<(i64, usize), BittorrentError>)
    requires
        pos <= data.len(),
    ensures
        match r {
            Ok((i, q)) => parse_integer(data@, pos as int) == Some((i as int, q as int)) && pos
                < q <= data.len(),
            Err(e) => parse_integer(data@, pos as int) is None && e is BencodeError,
        },
{
    let negative: bool = pos < data.len() && data[pos] == BYTE_MINUS;
    let start: usize = if negative {
        pos + 1
    } else {
        pos
    };
    let (end, magnitude) = read_digits(data, start, 0x8000_0000_0000_0000u64);
    if end >= data.len() {
        return Err(bencode_error("Unterminated integer"));
    }
    if end == start || data[end] != BYTE_E {
        return Err(bencode_error("Invalid integer"));
    }
    if data[start] == BYTE_ZERO && end != start + 1 {
        return Err(bencode_error("Invalid integer"));
    }
    match magnitude {
        None => Err(bencode_error("Invalid integer")),
        Some(m) => {
            if negative {
                if m == 0 {
                    Err(bencode_error("Invalid integer"))
                } else if m == 0x8000_0000_0000_0000u64 {
                    Ok((i64::MIN, end + 1))
                } else {
                    Ok((-(m as i64), end + 1))
                }
            } else if m == 0x8000_0000_0000_0000u64 {
                Err(bencode_error("Invalid integer"))
            } else {
                Ok((m as i64, end + 1))
            }
        },
    }
}

/// Decodes the items of a list from `pos`, the position after the `l`, up
/// to the closing `e`, whose position is returned.
fn decode_list(data: &[u8], pos: usize) -> (r: Result<(Vec<BencodeValue>, usize), BittorrentError>)
    requires
        pos <= data.len(),
    ensures
        match r {
            Ok((items, q)) => parse_items(data@, pos as int, Seq::empty()) == Some(
                (items_view(items@), q as int),
            ) && pos <= q < data.len(),
            Err(e) => parse_items(data@, pos as int, Seq::empty()) is None && e is BencodeError,
        },
    decreases data.len() - pos, 2nat,
{
    let mut items: Vec<BencodeValue> = Vec::new();
    let mut cur: usize = pos;
    assert(items_view(items@) =~= Seq::<Bencode>::empty());
    while cur < data.len() && data[cur] != BYTE_E
        invariant
            pos <= cur <= data.len(),
            parse_items(data@, pos as int, Seq::empty()) == parse_items(
                data@,
                cur as int,
                items_view(items@),
            ),
        decreases data.len() - cur,
    {
        let ghost before = items_view(items@);
        match decode_value(data, cur) {
            Ok((value, next)) => {
                items.push(value);
                assert(items_view(items@) =~= before.push(value@));
                cur = next;
            },
            Err(e) => {
                return Err(e);
            },
        }
    }
    if cur >= data.len() {
        return Err(bencode_error("Unterminated list"));
    }
    Ok((items, cur))
}

/// Decodes the entries of a dictionary from `pos`, the position after the
/// `d`, up to the closing `e`, whose position is returned. Also returns the
/// byte span of the value of the last entry whose key is `wanted`.
fn decode_dict(data: &[u8], pos: usize, wanted: &[u8]) -> (r: Result<
    (BencodeDict, usize, Option<(usize, usize)>),
    BittorrentError,
>)
    requires
        pos <= data.len(),
    ensures
        match r {
            Ok((dict, q, span)) => {
                &&& parse_entries(data@, pos as int, Seq::empty()) == Some((dict@, q as int))
                &&& pos <= q < data.len()
                &&& match span {
                    Some((b, e)) => entry_span_from(data@, pos as int, wanted@, None) == Some(
                        (b as int, e as int),
                    ) && pos <= b <= e <= q,
                    None => entry_span_from(data@, pos as int, wanted@, None) is None,
                }
            },
            Err(e) => parse_entries(data@, pos as int, Seq::empty()) is None && e is BencodeError,
        },
    decreases data.len() - pos, 2nat,
{
    let mut dict = BencodeDict::new();
    let mut span: Option<(usize, usize)> = None;
    let mut cur: usize = pos;
    while cur < data.len() && data[cur] != BYTE_E
        invariant
            pos <= cur <= data.len(),
            parse_entries(data@, pos as int, Seq::empty()) == parse_entries(
                data@,
                cur as int,
                dict@,
            ),
            entry_span_from(data@, pos as int, wanted@, None) == entry_span_from(
                data@,
                cur as int,
                wanted@,
                spec_span(span),
            ),
            span matches Some((b, e)) ==> pos <= b <= e <= cur,
        decreases data.len() - cur,
    {
        let (key, after_key) = match decode_string(data, cur) {
            Ok(found) => found,
            Err(_) => {
                return Err(bencode_error("Dictionary key must be a string"));
            },
        };
        match decode_value(data, after_key) {
            Ok((value, next)) => {
                if bytes_eq(key.as_slice(), wanted) {
                    span = Some((after_key, next));
                }
                dict.insert(key, value);
                cur = next;
            },
            Err(e) => {
                return Err(e);
            },
        }
    }
    if cur >= data.len() {
        return Err(bencode_error("Unterminated dictionary"));
    }
    Ok((dict, cur, span))
}

/// A span of machine positions as a span of integers.
pub open spec fn spec_span(span: Option<(usize, usize)>) -> Option<(int, int)> {
    match span {
        Some((b, e)) => Some((b as int, e as int)),
        None => None,
    }
}

/// Decodes the value that starts at `pos` and returns it with the position
/// after it.
pub fn decode_value(data: &[u8], pos: usize) -> (r: Result<(BencodeValue, usize), BittorrentError>)
    ensures
        match r {
            Ok((v, q)) => parse_value(data@, pos as int) == Some((v@, q as int)) && pos < q
                <= data.len(),
            Err(e) => parse_value(data@, pos as int) is None && e is BencodeError,
        },
    decreases data.len() - pos, 1nat,
{
    if pos >= data.len() {
        return Err(bencode_error("Unexpected end of input"));
    }
    let lead: u8 = data[pos];
    if lead == BYTE_I {
        match decode_integer(data, pos + 1) {
            Ok((i, q)) => Ok((BencodeValue::Integer(i), q)),
            Err(e) => Err(e),
        }
    } else if lead == BYTE_L {
        match decode_list(data, pos + 1) {
            Ok((items, q)) => Ok((BencodeValue::List(items), q + 1)),
            Err(e) => Err(e),
        }
    } else if lead == BYTE_D {
        let none: [u8; 0] = [];
        match decode_dict(data, pos + 1, none.as_slice()) {
            Ok((dict, q, _)) => Ok((BencodeValue::Dict(dict), q + 1)),
            Err(e) => Err(e),
        }
    } else if lead >= BYTE_ZERO && lead <= BYTE_NINE {
        match decode_string(data, pos) {
            Ok((s, q)) => Ok((BencodeValue::String(s), q)),
            Err(e) => Err(e),
        }
    } else {
        Err(bencode_error("Invalid bencode token"))
    }
}

/// Decodes the value that the input starts with and reports how many bytes
/// it took.
pub fn decode_prefix(data: &[u8]) -> (r: Result<(BencodeValue, usize), BittorrentError>)
    ensures
        match r {
            Ok((v, n)) => parse_value(data@, 0) == Some((v@, n as int)) && 0 < n <= data.len()
                && v@.wf(),
            Err(e) => parse_value(data@, 0) is None && e is BencodeError,
        },
{
    proof {
        lemma_parse_value_wf(data@, 0);
    }
    decode_value(data, 0)
}

/// Decodes the value that the input starts with. Bytes after it are not
/// looked at.
pub fn decode(data: &[u8]) -> (r: Result<BencodeValue, BittorrentError>)
    ensures
        match r {
            Ok(v) => decode_spec(data@) == Some(v@) && v@.wf(),
            Err(e) => decode_spec(data@) is None && e is BencodeError,
        },
{
    proof {
        lemma_parse_value_wf(data@, 0);
    }
    match decode_value(data, 0) {
        Ok((v, _)) => Ok(v),
        Err(e) => Err(e),
    }
}

/// Decodes the value that the input starts with and, where it is a
/// dictionary, records the half-open byte span of the value that it binds
/// to `key`, as the bytes stand in the input.
pub fn decode_with_span(data: &[u8], key: &[u8]) -> (r: Result<
    (BencodeValue, Option<(usize, usize)>),
    BittorrentError,
>)
    ensures
        match r {
            Ok((v, span)) => {
                &&& decode_spec(data@) == Some(v@)
                &&& spec_span(span) == value_span(data@, key@)
                &&& span matches Some((b, e)) ==> b <= e <= data.len()
            },
            Err(e) => decode_spec(data@) is None && e is BencodeError,
        },
{
    if data.len() > 0 && data[0] == BYTE_D {
        match decode_dict(data, 1, key) {
            Ok((dict, _, span)) => Ok((BencodeValue::Dict(dict), span)),
            Err(e) => Err(e),
        }
    } else {
        match decode_value(data, 0) {
            Ok((v, _)) => Ok((v, None)),
            Err(e) => Err(e),
        }
    }
}

} // verus!
