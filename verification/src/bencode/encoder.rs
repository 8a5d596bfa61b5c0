use vstd::prelude::*;
use crate::bencode::model::{
    Bencode, BYTE_COLON, BYTE_D, BYTE_E, BYTE_I, BYTE_L, BYTE_MINUS, BYTE_ZERO, decimal,
    encode_bytes, encode_entries, encode_items, encode_value, integer_text,
};
use crate::bencode::value::{BencodeValue, items_view};

verus! {

/// Appends the decimal digits of `n`.
fn push_decimal(n: u64, output: &mut Vec<u8>)
    ensures
        final(output)@ == old(output)@ + decimal(n as nat),
    decreases n,
{
    if n >= 10 {
        push_decimal(n / 10, output);
    }
    let digit: u8 = (n % 10) as u8;
    output.push(BYTE_ZERO + digit);
    assert(output@ =~= old(output)@ + decimal(n as nat));
}

/// Appends a byte string: its length, a colon, its bytes.
fn push_bytes(s: &[u8], output: &mut Vec<u8>)
    ensures
        final(output)@ == old(output)@ + encode_bytes(s@),
{
    push_decimal(s.len() as u64, output);
    output.push(BYTE_COLON);
    let mut i: usize = 0;
    while i < s.len()
        invariant
            i <= s.len(),
            output@ == old(output)@ + decimal(s@.len()) + seq![BYTE_COLON] + s@.subrange(
                0,
                i as int,
            ),
        decreases s.len() - i,
    {
        output.push(s[i]);
        assert(s@.subrange(0, i + 1) =~= s@.subrange(0, i as int).push(s@[i as int]));
        assert(output@ =~= old(output)@ + decimal(s@.len()) + seq![BYTE_COLON] + s@.subrange(
            0,
            i + 1,
        ));
        i += 1;
    }
    assert(s@.subrange(0, s@.len() as int) =~= s@);
    assert(output@ =~= old(output)@ + encode_bytes(s@));
}

/// Appends the text of an integer.
fn push_integer(i: i64, output: &mut Vec<u8>)
    ensures
        final(output)@ == old(output)@ + integer_text(i as int),
{
    if i < 0 {
        output.push(BYTE_MINUS);
        let magnitude: u64 = if i == i64::MIN {
            0x8000_0000_0000_0000u64
        } else {
            (-i) as u64
        };
        push_decimal(magnitude, output);
        assert(output@ =~= old(output)@ + integer_text(i as int));
    } else {
        push_decimal(i as u64, output);
    }
}

/// Appends the canonical encoding of `value` to `output`.
pub fn encode_into(value: &BencodeValue, output: &mut Vec<u8>)
    ensures
        final(output)@ == old(output)@ + encode_value(value@),
        value@.wf(),
    decreases value,
{
    match value {
        BencodeValue::Integer(i) => {
            output.push(BYTE_I);
            push_integer(*i, output);
            output.push(BYTE_E);
            assert(output@ =~= old(output)@ + encode_value(value@));
        },
        BencodeValue::String(s) => {
            push_bytes(s.as_slice(), output);
        },
        BencodeValue::List(list) => {
            output.push(BYTE_L);
            let ghost items = items_view(list@);
            assert(items.subrange(0, 0) =~= Seq::<Bencode>::empty());
            let mut i: usize = 0;
            while i < list.len()
                invariant
                    i <= list.len(),
                    items == items_view(list@),
                    decreases_to!(value => list),
                    output@ == old(output)@ + seq![BYTE_L] + encode_items(
                        items.subrange(0, i as int),
                    ),
                    forall|j: int| 0 <= j < i ==> (#[trigger] items[j]).wf(),
                decreases list.len() - i,
            {
                proof {
                    broadcast use vstd::std_specs::vec::axiom_vec_index_decreases;

                    assert(decreases_to!(list => list[i as int]));
                    assert(items.subrange(0, i + 1).drop_last() =~= items.subrange(0, i as int));
                    assert(items.subrange(0, i + 1).last() == list@[i as int]@);
                }
                let ghost before = output@;
                encode_into(&list[i], output);
                assert(output@ =~= old(output)@ + seq![BYTE_L] + encode_items(
                    items.subrange(0, i + 1),
                ));
                i += 1;
            }
            output.push(BYTE_E);
            assert(items.subrange(0, items.len() as int) =~= items);
            assert(output@ =~= old(output)@ + encode_value(value@));
        },
        BencodeValue::Dict(dict) => {
            output.push(BYTE_D);
            let n = dict.len();
            let ghost entries = dict@;
            assert(entries.subrange(0, 0) =~= Seq::<(Seq<u8>, Bencode)>::empty());
            let mut i: usize = 0;
            while i < n
                invariant
                    i <= n,
                    n == entries.len(),
                    entries == dict@,
                    decreases_to!(value => dict),
                    output@ == old(output)@ + seq![BYTE_D] + encode_entries(
                        entries.subrange(0, i as int),
                    ),
                    forall|j: int| 0 <= j < i ==> (#[trigger] entries[j]).1.wf(),
                decreases n - i,
            {
                proof {
                    assert(entries.subrange(0, i + 1).drop_last() =~= entries.subrange(
                        0,
                        i as int,
                    ));
                    assert(entries.subrange(0, i + 1).last() == entries[i as int]);
                }
                push_bytes(dict.key_at(i).as_slice(), output);
                encode_into(dict.value_at(i), output);
                assert(output@ =~= old(output)@ + seq![BYTE_D] + encode_entries(
                    entries.subrange(0, i + 1),
                ));
                i += 1;
            }
            output.push(BYTE_E);
            assert(entries.subrange(0, entries.len() as int) =~= entries);
            assert(output@ =~= old(output)@ + encode_value(value@));
        },
    }
}

/// The canonical encoding of `value`: integers without superfluous sign or
/// leading zeros, dictionary entries in ascending key order.
pub fn encode(value: &BencodeValue) -> (bytes: Vec<u8>)
    ensures
        bytes@ == encode_value(value@),
        value@.wf(),
{
    let mut result: Vec<u8> = Vec::new();
    encode_into(value, &mut result);
    assert(result@ =~= encode_value(value@));
    result
}

} // verus!
