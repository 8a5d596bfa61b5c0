use vstd::prelude::*;
use crate::bencode::model::{
    Bencode, BYTE_COLON, BYTE_D, BYTE_E, BYTE_L, BYTE_MINUS, BYTE_ZERO, decimal, decimal_value,
    decode_spec, dict_insert, dict_lookup, dict_lookup_from, digits_end, encode_bytes,
    encode_entries, encode_items, encode_value, entry_span_from, first_not_less, integer_text,
    is_digit, keys_ascending, parse_bytes, parse_entries, parse_integer, parse_items,
    parse_value, value_span,
};
use crate::bencode::order::{bytes_lt, lemma_bytes_lt_order};
use crate::bencode::value::{lemma_dict_insert_ascending, lemma_first_not_less};

verus! {

/// What `decimal` writes: at least one digit, nothing but digits, no
/// leading zero but for zero itself, and read back it is the number.
pub proof fn lemma_decimal_digits(n: nat)
    ensures
        decimal(n).len() >= 1,
        forall|i: int| 0 <= i < decimal(n).len() ==> is_digit(#[trigger] decimal(n)[i]),
        decimal_value(decimal(n)) == n,
        decimal(n)[0] == BYTE_ZERO ==> n == 0 && decimal(n).len() == 1,
    decreases n,
{
    let s = decimal(n);
    if n >= 10 {
        lemma_decimal_digits(n / 10);
        assert(s.drop_last() =~= decimal(n / 10));
        assert(s.last() == BYTE_ZERO + n % 10);
        assert(s[0] == decimal(n / 10)[0]);
    } else {
        assert(s.drop_last() =~= Seq::<u8>::empty());
        assert(decimal_value(s.drop_last()) == 0);
    }
}

/// A run of `k` digits at `p` that is followed by no digit ends at
/// `p + k`.
pub proof fn lemma_digits_end(d: Seq<u8>, p: int, k: int)
    requires
        0 <= p,
        0 <= k,
        p + k <= d.len(),
        forall|i: int| p <= i < p + k ==> is_digit(#[trigger] d[i]),
        p + k == d.len() || !is_digit(d[p + k]),
    ensures
        digits_end(d, p) == p + k,
    decreases k,
{
    if k > 0 {
        lemma_digits_end(d, p + 1, k - 1);
    }
}

/// An encoded byte string is decoded as it was.
pub proof fn lemma_parse_bytes_encoded(d: Seq<u8>, p: int, s: Seq<u8>)
    requires
        0 <= p,
        p + encode_bytes(s).len() <= d.len(),
        d.subrange(p, p + encode_bytes(s).len()) == encode_bytes(s),
    ensures
        parse_bytes(d, p) == Some((s, p + encode_bytes(s).len())),
{
    let t = decimal(s.len());
    let e = encode_bytes(s);
    lemma_decimal_digits(s.len());
    assert forall|i: int| 0 <= i < e.len() implies d[p + i] == e[i] by {
        assert(d.subrange(p, p + e.len())[i] == d[p + i]);
    }
    assert forall|i: int| p <= i < p + t.len() implies is_digit(#[trigger] d[i]) by {
        assert(d[p + (i - p)] == e[i - p]);
        assert(e[i - p] == t[i - p]);
    }
    assert(d[p + t.len()] == e[t.len() as int]);
    assert(e[t.len() as int] == BYTE_COLON);
    lemma_digits_end(d, p, t.len() as int);
    assert(d.subrange(p, p + t.len()) =~= t);
    let colon = p + t.len();
    assert forall|i: int| 0 <= i < s.len() implies d[colon + 1 + i] == s[i] by {
        assert(d[p + (t.len() + 1 + i)] == e[t.len() + 1 + i]);
    }
    assert(d.subrange(colon + 1, colon + 1 + s.len()) =~= s);
}

/// The text of an integer of 64 bits, closed by `e`, is decoded as the
/// integer.
pub proof fn lemma_parse_integer_encoded(d: Seq<u8>, p: int, i: int)
    requires
        0 <= p,
        i64::MIN <= i <= i64::MAX,
        p + integer_text(i).len() + 1 <= d.len(),
        d.subrange(p, p + integer_text(i).len() + 1) == integer_text(i) + seq![BYTE_E],
    ensures
        parse_integer(d, p) == Some((i, p + integer_text(i).len() + 1)),
{
    let text = integer_text(i);
    let e = text + seq![BYTE_E];
    let magnitude: nat = if i < 0 {
        (-i) as nat
    } else {
        i as nat
    };
    let t = decimal(magnitude);
    lemma_decimal_digits(magnitude);
    assert forall|j: int| 0 <= j < e.len() implies d[p + j] == e[j] by {
        assert(d.subrange(p, p + e.len())[j] == d[p + j]);
    }
    let start = if i < 0 {
        p + 1
    } else {
        p
    };
    assert(d[p] == e[0]);
    if i < 0 {
        assert(e[0] == BYTE_MINUS);
    } else {
        assert(e[0] == t[0]);
        assert(is_digit(t[0]));
    }
    assert forall|j: int| start <= j < start + t.len() implies is_digit(#[trigger] d[j]) by {
        assert(d[p + (j - p)] == e[j - p]);
        assert(e[j - p] == t[j - start]);
    }
    assert(d[p + (start - p + t.len())] == e[start - p + t.len()]);
    assert(d[start + t.len()] == BYTE_E);
    lemma_digits_end(d, start, t.len() as int);
    assert(d.subrange(start, start + t.len()) =~= t) by {
        assert forall|j: int| 0 <= j < t.len() implies d[start + j] == t[j] by {
            assert(d[p + (start - p + j)] == e[start - p + j]);
        }
    }
    assert(d[start] == t[0]) by {
        assert(d[p + (start - p)] == e[start - p]);
    }
}

/// The encoding of a value starts with `i`, `l`, `d` or a digit: never
/// with the `e` that closes a list or a dictionary.
pub proof fn lemma_encoding_starts(v: Bencode)
    ensures
        encode_value(v).len() >= 1,
        encode_value(v)[0] != BYTE_E,
        v is Bytes ==> is_digit(encode_value(v)[0]),
{
    match v {
        Bencode::Bytes(s) => {
            lemma_decimal_digits(s.len());
            assert(encode_bytes(s)[0] == decimal(s.len())[0]);
        },
        _ => {},
    }
}

/// The encodings of the first `k` items open the encodings of all.
pub proof fn lemma_items_prefix(l: Seq<Bencode>, k: int)
    requires
        0 <= k <= l.len(),
    ensures
        encode_items(l.subrange(0, k)).len() <= encode_items(l).len(),
        encode_items(l).subrange(0, encode_items(l.subrange(0, k)).len() as int) == encode_items(
            l.subrange(0, k),
        ),
    decreases l.len() - k,
{
    if k < l.len() {
        lemma_items_prefix(l.drop_last(), k);
        assert(l.drop_last().subrange(0, k) =~= l.subrange(0, k));
        let whole = encode_items(l);
        let front = encode_items(l.drop_last());
        let part = encode_items(l.subrange(0, k));
        assert(whole.subrange(0, part.len() as int) =~= front.subrange(0, part.len() as int));
    } else {
        assert(l.subrange(0, k) =~= l);
        assert(encode_items(l).subrange(0, encode_items(l).len() as int) =~= encode_items(l));
    }
}

/// The encodings of the first `k` entries open the encodings of all.
pub proof fn lemma_entries_prefix(e: Seq<(Seq<u8>, Bencode)>, k: int)
    requires
        0 <= k <= e.len(),
    ensures
        encode_entries(e.subrange(0, k)).len() <= encode_entries(e).len(),
        encode_entries(e).subrange(0, encode_entries(e.subrange(0, k)).len() as int)
            == encode_entries(e.subrange(0, k)),
    decreases e.len() - k,
{
    if k < e.len() {
        lemma_entries_prefix(e.drop_last(), k);
        assert(e.drop_last().subrange(0, k) =~= e.subrange(0, k));
        let whole = encode_entries(e);
        let front = encode_entries(e.drop_last());
        let part = encode_entries(e.subrange(0, k));
        assert(whole.subrange(0, part.len() as int) =~= front.subrange(0, part.len() as int));
    } else {
        assert(e.subrange(0, k) =~= e);
        assert(encode_entries(e).subrange(0, encode_entries(e).len() as int) =~= encode_entries(
            e,
        ));
    }
}

/// A key above all keys of a dictionary is bound at its end.
pub proof fn lemma_insert_last(e: Seq<(Seq<u8>, Bencode)>, k: Seq<u8>, v: Bencode, i: int)
    requires
        0 <= i <= e.len(),
        forall|j: int| 0 <= j < e.len() ==> bytes_lt(#[trigger] e[j].0, k),
    ensures
        first_not_less(e, k, i) == e.len(),
        i == 0 ==> dict_insert(e, k, v) == e.push((k, v)),
    decreases e.len() - i,
{
    if i < e.len() {
        lemma_insert_last(e, k, v, i + 1);
    }
    if i == 0 {
        assert(e.insert(e.len() as int, (k, v)) =~= e.push((k, v)));
    }
}

/// The items of a well-formed list are well-formed.
pub proof fn lemma_list_items_wf(l: Seq<Bencode>, k: int)
    requires
        Bencode::List(l).wf(),
        0 <= k < l.len(),
    ensures
        l[k].wf(),
{
    let v = Bencode::List(l);
    assert(v.wf());
    assert(v->List_0 == l);
}

/// Where the input holds the encoding of a value at `p`, that value is
/// decoded there, and the decoder stops right after it.
pub proof fn lemma_parse_encoded(d: Seq<u8>, p: int, v: Bencode)
    requires
        v.wf(),
        0 <= p,
        p + encode_value(v).len() <= d.len(),
        d.subrange(p, p + encode_value(v).len()) == encode_value(v),
    ensures
        parse_value(d, p) == Some((v, p + encode_value(v).len())),
    decreases v, 0nat,
{
    let e = encode_value(v);
    lemma_encoding_starts(v);
    assert forall|j: int| 0 <= j < e.len() implies d[p + j] == e[j] by {
        assert(d.subrange(p, p + e.len())[j] == d[p + j]);
    }
    assert(d[p + 0] == e[0]);
    match v {
        Bencode::Integer(i) => {
            let text = integer_text(i);
            assert(d.subrange(p + 1, p + 1 + text.len() + 1) =~= text + seq![BYTE_E]) by {
                assert forall|j: int| 0 <= j < text.len() + 1 implies d[p + 1 + j] == (text
                    + seq![BYTE_E])[j] by {
                    assert(d[p + (1 + j)] == e[1 + j]);
                }
            }
            lemma_parse_integer_encoded(d, p + 1, i);
        },
        Bencode::Bytes(s) => {
            lemma_parse_bytes_encoded(d, p, s);
        },
        Bencode::List(l) => {
            assert(l.subrange(0, 0) =~= Seq::<Bencode>::empty());
            lemma_parse_items_encoded(d, p, l, 0);
        },
        Bencode::Dict(entries) => {
            assert(entries.subrange(0, 0) =~= Seq::<(Seq<u8>, Bencode)>::empty());
            lemma_parse_entries_encoded(d, p, entries, 0);
        },
    }
}

/// Within the encoding of a list at `p`, the items from the `k`-th on are
/// decoded after the first `k`, up to the closing `e`.
pub proof fn lemma_parse_items_encoded(d: Seq<u8>, p: int, l: Seq<Bencode>, k: int)
    requires
        Bencode::List(l).wf(),
        0 <= p,
        0 <= k <= l.len(),
        p + encode_items(l).len() + 2 <= d.len(),
        d.subrange(p, p + encode_items(l).len() + 2) == seq![BYTE_L] + encode_items(l)
            + seq![BYTE_E],
    ensures
        parse_items(d, p + 1 + encode_items(l.subrange(0, k)).len(), l.subrange(0, k)) == Some(
            (l, p + 1 + encode_items(l).len()),
        ),
    decreases l, l.len() - k,
{
    let whole = encode_items(l);
    let e = seq![BYTE_L] + whole + seq![BYTE_E];
    let done = encode_items(l.subrange(0, k));
    let q = p + 1 + done.len();
    lemma_items_prefix(l, k);
    assert forall|j: int| 0 <= j < e.len() implies d[p + j] == e[j] by {
        assert(d.subrange(p, p + e.len())[j] == d[p + j]);
    }
    if k == l.len() {
        assert(l.subrange(0, k) =~= l);
        assert(d[p + (1 + whole.len())] == e[1 + whole.len() as int]);
    } else {
        let item = l[k];
        let longer = l.subrange(0, k + 1);
        assert(longer.drop_last() =~= l.subrange(0, k));
        assert(longer.last() == item);
        let next = encode_items(longer);
        assert(next == done + encode_value(item));
        lemma_items_prefix(l, k + 1);
        lemma_encoding_starts(item);
        let enc = encode_value(item);
        assert forall|j: int| 0 <= j < enc.len() implies d[q + j] == enc[j] by {
            assert(d[p + (1 + done.len() + j)] == e[1 + done.len() + j]);
            assert(whole.subrange(0, next.len() as int)[done.len() + j] == whole[done.len() + j]);
            assert(next[done.len() + j] == enc[j]);
        }
        assert(d.subrange(q, q + enc.len()) =~= enc);
        assert(d[q + 0] == enc[0]);
        lemma_list_items_wf(l, k);
        lemma_parse_encoded(d, q, item);
        assert(l.subrange(0, k).push(item) =~= longer);
        lemma_parse_items_encoded(d, p, l, k + 1);
    }
}

/// Within the encoding of a dictionary at `p`, the entries from the `k`-th
/// on are decoded after the first `k`, up to the closing `e`.
pub proof fn lemma_parse_entries_encoded(
    d: Seq<u8>,
    p: int,
    entries: Seq<(Seq<u8>, Bencode)>,
    k: int,
)
    requires
        Bencode::Dict(entries).wf(),
        0 <= p,
        0 <= k <= entries.len(),
        p + encode_entries(entries).len() + 2 <= d.len(),
        d.subrange(p, p + encode_entries(entries).len() + 2) == seq![BYTE_D] + encode_entries(
            entries,
        ) + seq![BYTE_E],
    ensures
        parse_entries(
            d,
            p + 1 + encode_entries(entries.subrange(0, k)).len(),
            entries.subrange(0, k),
        ) == Some((entries, p + 1 + encode_entries(entries).len())),
    decreases entries, entries.len() - k,
{
    let whole = encode_entries(entries);
    let e = seq![BYTE_D] + whole + seq![BYTE_E];
    let first = entries.subrange(0, k);
    let done = encode_entries(first);
    let q = p + 1 + done.len();
    lemma_entries_prefix(entries, k);
    assert forall|j: int| 0 <= j < e.len() implies d[p + j] == e[j] by {
        assert(d.subrange(p, p + e.len())[j] == d[p + j]);
    }
    if k == entries.len() {
        assert(first =~= entries);
        assert(d[p + (1 + whole.len())] == e[1 + whole.len() as int]);
    } else {
        let key = entries[k].0;
        let value = entries[k].1;
        let longer = entries.subrange(0, k + 1);
        assert(longer.drop_last() =~= first);
        assert(longer.last() == entries[k]);
        let next = encode_entries(longer);
        let key_enc = encode_bytes(key);
        let value_enc = encode_value(value);
        assert(next == done + key_enc + value_enc);
        lemma_entries_prefix(entries, k + 1);
        lemma_encoding_starts(Bencode::Bytes(key));
        lemma_encoding_starts(value);
        assert forall|j: int| 0 <= j < key_enc.len() + value_enc.len() implies d[q + j] == (
        key_enc + value_enc)[j] by {
            assert(d[p + (1 + done.len() + j)] == e[1 + done.len() + j]);
            assert(whole.subrange(0, next.len() as int)[done.len() + j] == whole[done.len() + j]);
            assert(next[done.len() + j] == (key_enc + value_enc)[j]);
        }
        assert(d.subrange(q, q + key_enc.len()) =~= key_enc) by {
            assert forall|j: int| 0 <= j < key_enc.len() implies d[q + j] == key_enc[j] by {
                assert((key_enc + value_enc)[j] == key_enc[j]);
            }
        }
        assert(d[q + 0] == (key_enc + value_enc)[0]);
        assert(is_digit(d[q]));
        lemma_parse_bytes_encoded(d, q, key);
        let r = q + key_enc.len();
        assert(d.subrange(r, r + value_enc.len()) =~= value_enc) by {
            assert forall|j: int| 0 <= j < value_enc.len() implies d[r + j] == value_enc[j] by {
                assert(d[q + (key_enc.len() + j)] == (key_enc + value_enc)[key_enc.len() + j]);
            }
        }
        assert(entries[k].1.wf());
        lemma_parse_encoded(d, r, value);
        assert forall|j: int| 0 <= j < first.len() implies bytes_lt(#[trigger] first[j].0, key) by {
            assert(first[j] == entries[j]);
            assert(bytes_lt(entries[j].0, entries[k].0));
        }
        lemma_insert_last(first, key, value, 0);
        assert(first.push((key, value)) =~= longer);
        lemma_parse_entries_encoded(d, p, entries, k + 1);
    }
}

/// Decoding the encoding of a value gives the value back.
pub proof fn lemma_decode_encode(v: Bencode)
    requires
        v.wf(),
    ensures
        decode_spec(encode_value(v)) == Some(v),
        parse_value(encode_value(v), 0) == Some((v, encode_value(v).len() as int)),
{
    let e = encode_value(v);
    assert(e.subrange(0, e.len() as int) =~= e);
    lemma_parse_encoded(e, 0, v);
}

/// On input that is the canonical encoding of a value, encoding what was
/// decoded gives the input back. Other input — dictionary keys out of
/// order or twice, a string length with leading zeros — decodes to a value
/// whose encoding differs from it.
pub proof fn lemma_encode_decode(d: Seq<u8>, v: Bencode)
    requires
        v.wf(),
        d == encode_value(v),
    ensures
        decode_spec(d) matches Some(w) && encode_value(w) == d,
{
    lemma_decode_encode(v);
}

/// The encoding of a dictionary lists its entries between `d` and `e` in
/// the order of its keys, which ascend strictly.
pub proof fn lemma_encode_keys_ascending(entries: Seq<(Seq<u8>, Bencode)>)
    requires
        Bencode::Dict(entries).wf(),
    ensures
        encode_value(Bencode::Dict(entries)) == seq![BYTE_D] + encode_entries(entries)
            + seq![BYTE_E],
        forall|i: int, j: int|
            0 <= i < j < entries.len() ==> bytes_lt(#[trigger] entries[i].0, #[trigger] entries[j].0),
        forall|k: int|
            0 <= k < entries.len() ==> encode_entries(#[trigger] entries.subrange(0, k + 1))
                == encode_entries(entries.subrange(0, k)) + encode_bytes(entries[k].0)
                + encode_value(entries[k].1),
{
    assert forall|k: int| 0 <= k < entries.len() implies encode_entries(
        #[trigger] entries.subrange(0, k + 1),
    ) == encode_entries(entries.subrange(0, k)) + encode_bytes(entries[k].0) + encode_value(
        entries[k].1,
    ) by {
        let longer = entries.subrange(0, k + 1);
        assert(longer.drop_last() =~= entries.subrange(0, k));
        assert(longer.last() == entries[k]);
    }
}

/// In a dictionary whose keys ascend, the value bound to the key of entry
/// `j` is the value of entry `j`.
pub proof fn lemma_lookup_at(e: Seq<(Seq<u8>, Bencode)>, j: int, i: int)
    requires
        keys_ascending(e),
        0 <= i <= j < e.len(),
    ensures
        dict_lookup_from(e, e[j].0, i) == Some(e[j].1),
    decreases j - i,
{
    if i < j {
        assert(bytes_lt(e[i].0, e[j].0));
        lemma_bytes_lt_order(e[i].0, e[j].0, e[j].0);
        lemma_lookup_at(e, j, i + 1);
    }
}

/// A key that no entry has is bound to nothing.
pub proof fn lemma_lookup_absent(e: Seq<(Seq<u8>, Bencode)>, k: Seq<u8>, i: int)
    requires
        0 <= i,
        forall|j: int| 0 <= j < e.len() ==> (#[trigger] e[j]).0 != k,
    ensures
        dict_lookup_from(e, k, i) is None,
    decreases e.len() - i,
{
    if i < e.len() {
        lemma_lookup_absent(e, k, i + 1);
    }
}

/// A value that is found is the value of an entry with that key.
pub proof fn lemma_lookup_found(e: Seq<(Seq<u8>, Bencode)>, k: Seq<u8>, i: int)
    requires
        0 <= i,
        dict_lookup_from(e, k, i) is Some,
    ensures
        exists|j: int| i <= j < e.len() && (#[trigger] e[j]).0 == k,
    decreases e.len() - i,
{
    if i < e.len() && e[i].0 != k {
        lemma_lookup_found(e, k, i + 1);
    }
}

/// After `k` is bound to `v`, `k` is bound to `v` and every other key to
/// what it was bound to before.
pub proof fn lemma_lookup_insert(e: Seq<(Seq<u8>, Bencode)>, k: Seq<u8>, v: Bencode, other: Seq<u8>)
    requires
        keys_ascending(e),
    ensures
        dict_lookup(dict_insert(e, k, v), other) == if other == k {
            Some(v)
        } else {
            dict_lookup(e, other)
        },
{
    let i = first_not_less(e, k, 0);
    let r = dict_insert(e, k, v);
    let replaced = i < e.len() && e[i].0 == k;
    lemma_first_not_less(e, k, 0);
    lemma_dict_insert_ascending(e, k, v);
    if other == k {
        assert(r[i] == (k, v));
        lemma_lookup_at(r, i, 0);
    } else if dict_lookup(e, other) is Some {
        lemma_lookup_found(e, other, 0);
        let j = choose|j: int| 0 <= j < e.len() && (#[trigger] e[j]).0 == other;
        lemma_lookup_at(e, j, 0);
        let moved = if replaced || j < i {
            j
        } else {
            j + 1
        };
        assert(r[moved] == e[j]);
        lemma_lookup_at(r, moved, 0);
    } else {
        assert forall|j: int| 0 <= j < r.len() implies (#[trigger] r[j]).0 != other by {
            if r[j].0 == other {
                let from = if replaced || j < i {
                    j
                } else {
                    j - 1
                };
                assert(e[from] == r[j]);
                lemma_lookup_at(e, from, 0);
            }
        }
        lemma_lookup_absent(r, other, 0);
    }
}

/// What scanning for the span of `key` finds is what decoding binds to
/// `key`: a span is found exactly when the decoded dictionary has the key,
/// and the bytes of the span decode to the value bound to it.
pub proof fn lemma_span_is_value(
    d: Seq<u8>,
    p: int,
    acc: Seq<(Seq<u8>, Bencode)>,
    key: Seq<u8>,
    found: Option<(int, int)>,
)
    requires
        keys_ascending(acc),
        match found {
            Some((b, e)) => dict_lookup(acc, key) matches Some(v) && parse_value(d, b) == Some(
                (v, e),
            ),
            None => dict_lookup(acc, key) is None,
        },
    ensures
        match parse_entries(d, p, acc) {
            Some((entries, _)) => match entry_span_from(d, p, key, found) {
                Some((b, e)) => dict_lookup(entries, key) matches Some(v) && parse_value(d, b)
                    == Some((v, e)),
                None => dict_lookup(entries, key) is None,
            },
            None => entry_span_from(d, p, key, found) is None,
        },
    decreases d.len() - p,
{
    if 0 <= p < d.len() && d[p] != BYTE_E {
        match parse_bytes(d, p) {
            Some((k, q)) => match parse_value(d, q) {
                Some((v, r)) => {
                    if p < r <= d.len() {
                        lemma_lookup_insert(acc, k, v, key);
                        lemma_dict_insert_ascending(acc, k, v);
                        lemma_span_is_value(
                            d,
                            r,
                            dict_insert(acc, k, v),
                            key,
                            if k == key {
                                Some((q, r))
                            } else {
                                found
                            },
                        );
                    }
                },
                None => {},
            },
            None => {},
        }
    }
}

/// The span recorded for `key` in a descriptor is the span of the value
/// that decoding binds to `key` at the top level: there is a span exactly
/// when the descriptor is a dictionary with that key, and the bytes of the
/// span, as they stand, decode to that value.
pub proof fn lemma_value_span(d: Seq<u8>, key: Seq<u8>)
    ensures
        match value_span(d, key) {
            Some((b, e)) => decode_spec(d) matches Some(Bencode::Dict(entries)) && dict_lookup(
                entries,
                key,
            ) matches Some(v) && parse_value(d, b) == Some((v, e)),
            None => match decode_spec(d) {
                Some(Bencode::Dict(entries)) => dict_lookup(entries, key) is None,
                _ => true,
            },
        },
{
    if d.len() > 0 && d[0] == BYTE_D {
        lemma_span_is_value(d, 1, Seq::empty(), key, None);
    }
}

/// What is decoded is well-formed: integers fit in 64 bits, and the keys
/// of every dictionary ascend, whatever their order in the input. The
/// decoder always moves forward and stays within the input.
pub proof fn lemma_parse_value_wf(d: Seq<u8>, p: int)
    ensures
        parse_value(d, p) matches Some((v, q)) ==> v.wf() && p < q <= d.len(),
    decreases d.len() - p, 1nat,
{
    if 0 <= p < d.len() {
        if d[p] == BYTE_L {
            lemma_parse_items_wf(d, p + 1, Seq::empty());
        } else if d[p] == BYTE_D {
            lemma_parse_entries_wf(d, p + 1, Seq::empty());
        }
    }
}

/// The items decoded after well-formed items are well-formed.
pub proof fn lemma_parse_items_wf(d: Seq<u8>, p: int, acc: Seq<Bencode>)
    requires
        forall|i: int| 0 <= i < acc.len() ==> (#[trigger] acc[i]).wf(),
    ensures
        parse_items(d, p, acc) matches Some((l, q)) ==> Bencode::List(l).wf() && p <= q < d.len(),
    decreases d.len() - p, 2nat,
{
    if 0 <= p < d.len() && d[p] != BYTE_E {
        lemma_parse_value_wf(d, p);
        match parse_value(d, p) {
            Some((v, q)) => {
                if p < q <= d.len() {
                    lemma_parse_items_wf(d, q, acc.push(v));
                }
            },
            None => {},
        }
    }
}

/// The entries decoded into a well-formed dictionary leave it well-formed.
pub proof fn lemma_parse_entries_wf(d: Seq<u8>, p: int, acc: Seq<(Seq<u8>, Bencode)>)
    requires
        Bencode::Dict(acc).wf(),
    ensures
        parse_entries(d, p, acc) matches Some((e, q)) ==> Bencode::Dict(e).wf() && p <= q
            < d.len(),
    decreases d.len() - p, 2nat,
{
    if 0 <= p < d.len() && d[p] != BYTE_E {
        match parse_bytes(d, p) {
            Some((k, q)) => {
                lemma_parse_value_wf(d, q);
                match parse_value(d, q) {
                    Some((v, r)) => {
                        if p < r <= d.len() {
                            let next = dict_insert(acc, k, v);
                            lemma_dict_insert_ascending(acc, k, v);
                            lemma_first_not_less(acc, k, 0);
                            let i = first_not_less(acc, k, 0);
                            assert forall|j: int| 0 <= j < next.len() implies (
                            #[trigger] next[j]).1.wf() by {
                                if j == i {
                                } else if i < acc.len() && acc[i].0 == k {
                                    assert(next[j] == acc[j]);
                                } else if j < i {
                                    assert(next[j] == acc[j]);
                                } else {
                                    assert(next[j] == acc[j - 1]);
                                }
                            }
                            lemma_parse_entries_wf(d, r, next);
                        }
                    },
                    None => {},
                }
            },
            None => {},
        }
    }
}

} // verus!
