use vstd::prelude::*;
use crate::bencode::laws::{lemma_insert_last, lemma_parse_value_wf};
use crate::bencode::model::{
    Bencode, BYTE_COLON, BYTE_D, BYTE_E, BYTE_I, BYTE_L, BYTE_MINUS, BYTE_ZERO, decimal,
    decimal_value, dict_insert, digits_end, encode_bytes, encode_entries, encode_items,
    encode_value, integer_text, is_digit, keys_ascending, parse_bytes, parse_entries,
    parse_integer, parse_items, parse_value,
};
use crate::bencode::order::{bytes_lt, lemma_bytes_lt_order};

verus! {

/// Whether the byte string that decodes at `p` has its length written
/// without leading zeros.
pub open spec fn canonical_bytes(d: Seq<u8>, p: int) -> bool {
    parse_bytes(d, p) is Some && (d[p] == BYTE_ZERO ==> d[p + 1] == BYTE_COLON)
}

/// Whether the value that decodes at `p` is written as the encoder writes
/// it: string lengths without leading zeros, the keys of every dictionary
/// in strictly ascending order.
pub open spec fn canonical_value(d: Seq<u8>, p: int) -> bool
    decreases d.len() - p, 1nat,
{
    if p < 0 || p >= d.len() || parse_value(d, p) is None {
        false
    } else if d[p] == BYTE_L {
        canonical_items(d, p + 1)
    } else if d[p] == BYTE_D {
        canonical_entries(d, p + 1, None)
    } else if d[p] == BYTE_I {
        true
    } else {
        canonical_bytes(d, p)
    }
}

/// Whether the items of a list from `p` on are canonical.
pub open spec fn canonical_items(d: Seq<u8>, p: int) -> bool
    decreases d.len() - p, 2nat,
{
    if p < 0 || p >= d.len() {
        false
    } else if d[p] == BYTE_E {
        true
    } else {
        match parse_value(d, p) {
            Some((_, q)) => p < q <= d.len() && canonical_value(d, p) && canonical_items(d, q),
            None => false,
        }
    }
}

/// Whether the entries of a dictionary from `p` on are canonical, the
/// entry before them having the key `last`.
pub open spec fn canonical_entries(d: Seq<u8>, p: int, last: Option<Seq<u8>>) -> bool
    decreases d.len() - p, 2nat,
{
    if p < 0 || p >= d.len() {
        false
    } else if d[p] == BYTE_E {
        true
    } else {
        match parse_bytes(d, p) {
            Some((k, q)) => match parse_value(d, q) {
                Some((_, r)) => {
                    &&& p < q < r <= d.len()
                    &&& canonical_bytes(d, p)
                    &&& (last matches Some(before) ==> bytes_lt(before, k))
                    &&& canonical_value(d, q)
                    &&& canonical_entries(d, r, Some(k))
                },
                None => false,
            },
            None => false,
        }
    }
}

/// A run of digits without a leading zero is what `decimal` writes for the
/// number it denotes.
pub proof fn lemma_decimal_of_digits(s: Seq<u8>)
    requires
        s.len() >= 1,
        forall|i: int| 0 <= i < s.len() ==> is_digit(#[trigger] s[i]),
        s[0] == BYTE_ZERO ==> s.len() == 1,
    ensures
        decimal(decimal_value(s)) == s,
        s.len() > 1 ==> decimal_value(s) >= 10,
        s[0] != BYTE_ZERO ==> decimal_value(s) >= 1,
    decreases s.len(),
{
    let front = s.drop_last();
    let digit = (s.last() - BYTE_ZERO) as nat;
    if s.len() == 1 {
        assert(front =~= Seq::<u8>::empty());
        assert(decimal_value(front) == 0);
        assert(decimal(decimal_value(s)) =~= s);
    } else {
        assert(front[0] == s[0]);
        lemma_decimal_of_digits(front);
        let n = decimal_value(s);
        assert(n == decimal_value(front) * 10 + digit);
        assert(n / 10 == decimal_value(front));
        assert(n % 10 == digit);
        assert(decimal(n) =~= s);
    }
}

/// The digits of a run are digits, and the run is as long as there are
/// digits.
pub proof fn lemma_digits_run(d: Seq<u8>, p: int)
    requires
        0 <= p,
    ensures
        p <= digits_end(d, p),
        digits_end(d, p) <= d.len() || digits_end(d, p) == p,
        forall|i: int| p <= i < digits_end(d, p) ==> is_digit(#[trigger] d[i]),
    decreases d.len() - p,
{
    if p < d.len() && is_digit(d[p]) {
        lemma_digits_run(d, p + 1);
    }
}

/// A canonical byte string is what the encoder writes for its bytes.
pub proof fn lemma_canonical_bytes(d: Seq<u8>, p: int)
    requires
        canonical_bytes(d, p),
    ensures
        parse_bytes(d, p) matches Some((s, q)) && encode_bytes(s) == d.subrange(p, q),
{
    let colon = digits_end(d, p);
    let run = d.subrange(p, colon);
    lemma_digits_run(d, p);
    assert(run[0] == d[p]);
    if d[p] == BYTE_ZERO {
        assert(!is_digit(d[p + 1]));
        assert(digits_end(d, p + 1) == p + 1);
    }
    assert forall|i: int| 0 <= i < run.len() implies is_digit(#[trigger] run[i]) by {
        assert(run[i] == d[p + i]);
    }
    lemma_decimal_of_digits(run);
    let s = parse_bytes(d, p)->Some_0.0;
    let q = parse_bytes(d, p)->Some_0.1;
    assert(encode_bytes(s) =~= d.subrange(p, q));
}

/// The text of a decoded integer is what the encoder writes for it.
pub proof fn lemma_canonical_integer(d: Seq<u8>, p: int)
    requires
        parse_integer(d, p) is Some,
    ensures
        parse_integer(d, p) matches Some((i, q)) && integer_text(i) + seq![BYTE_E] == d.subrange(
            p,
            q,
        ),
{
    let negative = d[p] == BYTE_MINUS;
    let start = if negative {
        p + 1
    } else {
        p
    };
    let end = digits_end(d, start);
    let run = d.subrange(start, end);
    lemma_digits_run(d, start);
    assert(run[0] == d[start]);
    assert forall|i: int| 0 <= i < run.len() implies is_digit(#[trigger] run[i]) by {
        assert(run[i] == d[start + i]);
    }
    lemma_decimal_of_digits(run);
    let i = parse_integer(d, p)->Some_0.0;
    let q = parse_integer(d, p)->Some_0.1;
    assert(integer_text(i) + seq![BYTE_E] =~= d.subrange(p, q));
}

/// On canonical input, encoding what was decoded gives the input back:
/// the bytes that were decoded, as they stand.
pub proof fn lemma_canonical_value(d: Seq<u8>, p: int)
    requires
        canonical_value(d, p),
    ensures
        parse_value(d, p) matches Some((v, q)) && encode_value(v) == d.subrange(p, q),
    decreases d.len() - p, 1nat,
{
    lemma_parse_value_wf(d, p);
    let v = parse_value(d, p)->Some_0.0;
    let q = parse_value(d, p)->Some_0.1;
    if d[p] == BYTE_I {
        lemma_canonical_integer(d, p + 1);
        let i = parse_integer(d, p + 1)->Some_0.0;
        assert(v == Bencode::Integer(i));
        assert(d.subrange(p, q) =~= seq![BYTE_I] + d.subrange(p + 1, q));
        assert(encode_value(v) =~= seq![BYTE_I] + (integer_text(i) + seq![BYTE_E]));
    } else if d[p] == BYTE_L {
        assert(d.subrange(p + 1, p + 1) =~= Seq::<u8>::empty());
        lemma_canonical_items(d, p + 1, Seq::empty(), p + 1);
        assert(encode_value(v) =~= d.subrange(p, q));
    } else if d[p] == BYTE_D {
        assert(d.subrange(p + 1, p + 1) =~= Seq::<u8>::empty());
        lemma_canonical_entries(d, p + 1, Seq::empty(), p + 1);
        assert(encode_value(v) =~= d.subrange(p, q));
    } else {
        lemma_canonical_bytes(d, p);
    }
}

/// Canonical items decoded after `acc`, whose encodings are the bytes from
/// `start` to `p`, give a list whose encodings are the bytes from `start`
/// to the closing `e`.
pub proof fn lemma_canonical_items(d: Seq<u8>, p: int, acc: Seq<Bencode>, start: int)
    requires
        canonical_items(d, p),
        0 <= start <= p,
        encode_items(acc) == d.subrange(start, p),
        parse_items(d, p, acc) is Some,
    ensures
        parse_items(d, p, acc) matches Some((l, q)) && p <= q < d.len() && d[q] == BYTE_E
            && encode_items(l) == d.subrange(start, q),
    decreases d.len() - p, 2nat,
{
    if d[p] != BYTE_E {
        lemma_canonical_value(d, p);
        let v = parse_value(d, p)->Some_0.0;
        let q = parse_value(d, p)->Some_0.1;
        let next = acc.push(v);
        assert(next.drop_last() =~= acc);
        assert(encode_items(next) =~= d.subrange(start, q));
        lemma_canonical_items(d, q, next, start);
    }
}

/// Canonical entries decoded into `acc`, whose keys ascend up to the key
/// before them and whose encodings are the bytes from `start` to `p`, give
/// a dictionary whose encodings are the bytes from `start` to the closing
/// `e`.
pub proof fn lemma_canonical_entries(
    d: Seq<u8>,
    p: int,
    acc: Seq<(Seq<u8>, Bencode)>,
    start: int,
)
    requires
        canonical_entries(
            d,
            p,
            if acc.len() == 0 {
                None
            } else {
                Some(acc.last().0)
            },
        ),
        keys_ascending(acc),
        0 <= start <= p,
        encode_entries(acc) == d.subrange(start, p),
        parse_entries(d, p, acc) is Some,
    ensures
        parse_entries(d, p, acc) matches Some((e, q)) && p <= q < d.len() && d[q] == BYTE_E
            && encode_entries(e) == d.subrange(start, q),
    decreases d.len() - p, 2nat,
{
    if d[p] != BYTE_E {
        lemma_canonical_bytes(d, p);
        let k = parse_bytes(d, p)->Some_0.0;
        let q = parse_bytes(d, p)->Some_0.1;
        lemma_canonical_value(d, q);
        let v = parse_value(d, q)->Some_0.0;
        let r = parse_value(d, q)->Some_0.1;
        assert forall|j: int| 0 <= j < acc.len() implies bytes_lt(#[trigger] acc[j].0, k) by {
            if j < acc.len() - 1 {
                assert(bytes_lt(acc[j].0, acc[acc.len() - 1].0));
                lemma_bytes_lt_order(acc[j].0, acc.last().0, k);
            }
        }
        lemma_insert_last(acc, k, v, 0);
        let next = acc.push((k, v));
        assert(dict_insert(acc, k, v) == next);
        assert(next.drop_last() =~= acc);
        assert(next.last() == (k, v));
        assert(encode_entries(next) =~= d.subrange(start, r));
        assert forall|i: int, j: int| 0 <= i < j < next.len() implies bytes_lt(
            #[trigger] next[i].0,
            #[trigger] next[j].0,
        ) by {
            if j < acc.len() {
                assert(bytes_lt(acc[i].0, acc[j].0));
            }
        }
        lemma_canonical_entries(d, r, next, start);
    }
}

} // verus!
