use vstd::prelude::*;
use crate::bencode::order::bytes_lt;

verus! {

/// A bencoded value as mathematics: the meaning of a `BencodeValue`.
/// A dictionary is the sequence of its entries in key order.
pub enum Bencode {
    Integer(int),
    Bytes(Seq<u8>),
    List(Seq<Bencode>),
    Dict(Seq<(Seq<u8>, Bencode)>),
}

pub const BYTE_MINUS: u8 = 45;
pub const BYTE_ZERO: u8 = 48;
pub const BYTE_NINE: u8 = 57;
pub const BYTE_COLON: u8 = 58;
pub const BYTE_D: u8 = 100;
pub const BYTE_E: u8 = 101;
pub const BYTE_I: u8 = 105;
pub const BYTE_L: u8 = 108;

/// Keys strictly ascending in lexicographic byte order; so no key twice.
pub open spec fn keys_ascending(e: Seq<(Seq<u8>, Bencode)>) -> bool {
    forall|i: int, j: int| 0 <= i < j < e.len() ==> bytes_lt(#[trigger] e[i].0, #[trigger] e[j].0)
}

impl Bencode {
    /// What every value in memory satisfies: integers fit in 64 bits signed,
    /// and every dictionary, at any depth, has its keys strictly ascending.
    pub open spec fn wf(self) -> bool
        decreases self,
    {
        match self {
            Bencode::Integer(i) => i64::MIN <= i <= i64::MAX,
            Bencode::Bytes(_) => true,
            Bencode::List(l) => forall|i: int| 0 <= i < l.len() ==> (#[trigger] l[i]).wf(),
            Bencode::Dict(e) => keys_ascending(e) && forall|i: int|
                0 <= i < e.len() ==> (#[trigger] e[i]).1.wf(),
        }
    }
}

// ---------------------------------------------------------------------
// Dictionaries as sorted sequences
// ---------------------------------------------------------------------

/// The first index at or after `i` whose key is not less than `k`.
pub open spec fn first_not_less(e: Seq<(Seq<u8>, Bencode)>, k: Seq<u8>, i: int) -> int
    decreases e.len() - i,
{
    if 0 <= i < e.len() && bytes_lt(e[i].0, k) {
        first_not_less(e, k, i + 1)
    } else {
        i
    }
}

/// The dictionary after binding `k` to `v`: an existing binding of `k` is
/// replaced, a new one goes to its place in key order.
pub open spec fn dict_insert(e: Seq<(Seq<u8>, Bencode)>, k: Seq<u8>, v: Bencode) -> Seq<
    (Seq<u8>, Bencode),
> {
    let i = first_not_less(e, k, 0);
    if i < e.len() && e[i].0 == k {
        e.update(i, (k, v))
    } else {
        e.insert(i, (k, v))
    }
}

/// The value of the first entry at or after `i` whose key is `k`.
pub open spec fn dict_lookup_from(e: Seq<(Seq<u8>, Bencode)>, k: Seq<u8>, i: int) -> Option<
    Bencode,
>
    decreases e.len() - i,
{
    if i < 0 || i >= e.len() {
        None
    } else if e[i].0 == k {
        Some(e[i].1)
    } else {
        dict_lookup_from(e, k, i + 1)
    }
}

/// The value bound to `k`, if any.
pub open spec fn dict_lookup(e: Seq<(Seq<u8>, Bencode)>, k: Seq<u8>) -> Option<Bencode> {
    dict_lookup_from(e, k, 0)
}

// ---------------------------------------------------------------------
// Decimal text
// ---------------------------------------------------------------------

pub open spec fn is_digit(b: u8) -> bool {
    BYTE_ZERO <= b <= BYTE_NINE
}

/// The decimal digits of `n`, without leading zeros.
pub open spec fn decimal(n: nat) -> Seq<u8>
    decreases n,
{
    if n < 10 {
        seq![(BYTE_ZERO + n) as u8]
    } else {
        decimal(n / 10).push((BYTE_ZERO + n % 10) as u8)
    }
}

/// The text of an integer: a minus sign for a negative one, then its digits.
pub open spec fn integer_text(i: int) -> Seq<u8> {
    if i < 0 {
        seq![BYTE_MINUS] + decimal((-i) as nat)
    } else {
        decimal(i as nat)
    }
}

/// The number that a run of digits denotes.
pub open spec fn decimal_value(s: Seq<u8>) -> nat
    decreases s.len(),
{
    if s.len() == 0 {
        0
    } else {
        decimal_value(s.drop_last()) * 10 + (s.last() - BYTE_ZERO) as nat
    }
}

/// The end of the run of digits that starts at `p`.
pub open spec fn digits_end(d: Seq<u8>, p: int) -> int
    decreases d.len() - p,
{
    if 0 <= p < d.len() && is_digit(d[p]) {
        digits_end(d, p + 1)
    } else {
        p
    }
}

// ---------------------------------------------------------------------
// Encoding
// ---------------------------------------------------------------------

/// `<length>:<bytes>`.
pub open spec fn encode_bytes(s: Seq<u8>) -> Seq<u8> {
    decimal(s.len()) + seq![BYTE_COLON] + s
}

/// The canonical encoding of a value.
pub open spec fn encode_value(v: Bencode) -> Seq<u8>
    decreases v,
{
    match v {
        Bencode::Integer(i) => seq![BYTE_I] + integer_text(i) + seq![BYTE_E],
        Bencode::Bytes(s) => encode_bytes(s),
        Bencode::List(l) => seq![BYTE_L] + encode_items(l) + seq![BYTE_E],
        Bencode::Dict(e) => seq![BYTE_D] + encode_entries(e) + seq![BYTE_E],
    }
}

/// The encodings of the items of a list, one after the other.
pub open spec fn encode_items(l: Seq<Bencode>) -> Seq<u8>
    decreases l,
{
    if l.len() == 0 {
        Seq::empty()
    } else {
        encode_items(l.drop_last()) + encode_value(l.last())
    }
}

/// The encodings of the entries of a dictionary in the order given: each key
/// as a byte string, then its value.
pub open spec fn encode_entries(e: Seq<(Seq<u8>, Bencode)>) -> Seq<u8>
    decreases e,
{
    if e.len() == 0 {
        Seq::empty()
    } else {
        encode_entries(e.drop_last()) + encode_bytes(e.last().0) + encode_value(e.last().1)
    }
}

// ---------------------------------------------------------------------
// Decoding
// ---------------------------------------------------------------------

/// A byte string at `p`: its bytes and the position after it. The length is
/// one or more digits; leading zeros are tolerated.
pub open spec fn parse_bytes(d: Seq<u8>, p: int) -> Option<(Seq<u8>, int)> {
    let colon = digits_end(d, p);
    let n = decimal_value(d.subrange(p, colon));
    if 0 <= p < colon < d.len() && d[colon] == BYTE_COLON && colon + 1 + n <= d.len() {
        Some((d.subrange(colon + 1, colon + 1 + n), colon + 1 + n))
    } else {
        None
    }
}

/// The text of an integer at `p`, up to and including the closing `e`: an
/// optional minus, then digits with no leading zero (but for `0` itself);
/// `-0` is refused, and so is a number outside 64 bits signed.
pub open spec fn parse_integer(d: Seq<u8>, p: int) -> Option<(int, int)> {
    let negative = 0 <= p < d.len() && d[p] == BYTE_MINUS;
    let start = if negative {
        p + 1
    } else {
        p
    };
    let end = digits_end(d, start);
    let magnitude = decimal_value(d.subrange(start, end));
    let value = if negative {
        -magnitude
    } else {
        magnitude as int
    };
    if 0 <= p && start < end < d.len() && d[end] == BYTE_E && (d[start] == BYTE_ZERO ==> end
        == start + 1) && !(negative && magnitude == 0) && i64::MIN <= value <= i64::MAX {
        Some((value, end + 1))
    } else {
        None
    }
}

/// The value that starts at `p`, and the position after it.
pub open spec fn parse_value(d: Seq<u8>, p: int) -> Option<(Bencode, int)>
    decreases d.len() - p, 1nat,
{
    if p < 0 || p >= d.len() {
        None
    } else if d[p] == BYTE_I {
        match parse_integer(d, p + 1) {
            Some((i, q)) => Some((Bencode::Integer(i), q)),
            None => None,
        }
    } else if d[p] == BYTE_L {
        match parse_items(d, p + 1, Seq::empty()) {
            Some((l, q)) => Some((Bencode::List(l), q + 1)),
            None => None,
        }
    } else if d[p] == BYTE_D {
        match parse_entries(d, p + 1, Seq::empty()) {
            Some((e, q)) => Some((Bencode::Dict(e), q + 1)),
            None => None,
        }
    } else if is_digit(d[p]) {
        match parse_bytes(d, p) {
            Some((s, q)) => Some((Bencode::Bytes(s), q)),
            None => None,
        }
    } else {
        None
    }
}

/// The items of a list from `p` on, after those in `acc`, and the position
/// of the closing `e`.
pub open spec fn parse_items(d: Seq<u8>, p: int, acc: Seq<Bencode>) -> Option<(Seq<Bencode>, int)>
    decreases d.len() - p, 2nat,
{
    if p < 0 || p >= d.len() {
        None
    } else if d[p] == BYTE_E {
        Some((acc, p))
    } else {
        match parse_value(d, p) {
            Some((v, q)) => if p < q <= d.len() {
                parse_items(d, q, acc.push(v))
            } else {
                None
            },
            None => None,
        }
    }
}

/// The entries of a dictionary from `p` on, bound one by one into `acc`, and
/// the position of the closing `e`. Keys may come in any order; of a key
/// that comes twice the last binding stays.
pub open spec fn parse_entries(d: Seq<u8>, p: int, acc: Seq<(Seq<u8>, Bencode)>) -> Option<
    (Seq<(Seq<u8>, Bencode)>, int),
>
    decreases d.len() - p, 2nat,
{
    if p < 0 || p >= d.len() {
        None
    } else if d[p] == BYTE_E {
        Some((acc, p))
    } else {
        match parse_bytes(d, p) {
            Some((k, q)) => match parse_value(d, q) {
                Some((v, r)) => if p < r <= d.len() {
                    parse_entries(d, r, dict_insert(acc, k, v))
                } else {
                    None
                },
                None => None,
            },
            None => None,
        }
    }
}

/// The value that the input starts with; what follows it is not looked at.
pub open spec fn decode_spec(d: Seq<u8>) -> Option<Bencode> {
    match parse_value(d, 0) {
        Some((v, _)) => Some(v),
        None => None,
    }
}


/// Scanning the entries of a dictionary from `p` on: the byte span of the
/// value of the last entry whose key is `key`, or `found` if none follows.
pub open spec fn entry_span_from(d: Seq<u8>, p: int, key: Seq<u8>, found: Option<(int, int)>)
    -> Option<(int, int)>
    decreases d.len() - p,
{
    if p < 0 || p >= d.len() {
        None
    } else if d[p] == BYTE_E {
        found
    } else {
        match parse_bytes(d, p) {
            Some((k, q)) => match parse_value(d, q) {
                Some((v, r)) => if p < r <= d.len() {
                    entry_span_from(
                        d,
                        r,
                        key,
                        if k == key {
                            Some((q, r))
                        } else {
                            found
                        },
                    )
                } else {
                    None
                },
                None => None,
            },
            None => None,
        }
    }
}

/// The half-open byte span `[begin, end)` of the value that the dictionary
/// at the start of the input binds to `key`: the bytes as they stand in the
/// input, whatever an encoder would make of the value.
pub open spec fn value_span(d: Seq<u8>, key: Seq<u8>) -> Option<(int, int)> {
    if d.len() > 0 && d[0] == BYTE_D {
        entry_span_from(d, 1, key, None)
    } else {
        None
    }
}

} // verus!
