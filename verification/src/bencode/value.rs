use vstd::prelude::*;
use vstd::slice::slice_to_vec;
use vstd::utf8::valid_utf8;
use vstd::string::StringSliceAdditionalSpecFns;
use crate::bencode::model::{Bencode, keys_ascending, dict_insert, dict_lookup, dict_lookup_from, first_not_less};
use crate::bencode::order::{bytes_eq, bytes_less, bytes_lt, lemma_bytes_lt_order};

verus! {

/// The entries of a dictionary: byte-string keys, each bound once, kept in
/// ascending lexicographic order.
#[derive(Debug, PartialEq, Eq)]
pub struct BencodeDict {
    entries: Vec<(Vec<u8>, BencodeValue)>,
}

/// A bencoded value.
#[derive(Debug, PartialEq, Eq)]
pub enum BencodeValue {
    /// Integer: `i<number>e`
    Integer(i64),
    /// Byte string: `<length>:<contents>`
    String(Vec<u8>),
    /// List: `l<values>e`
    List(Vec<BencodeValue>),
    /// Dictionary: `d<key-value pairs>e`
    Dict(BencodeDict),
}

/// The meaning of the values of a list, item by item.
pub open spec fn items_view(l: Seq<BencodeValue>) -> Seq<Bencode>
    decreases l,
{
    Seq::new(
        l.len(),
        |i: int|
            if 0 <= i < l.len() {
                l[i].view()
            } else {
                arbitrary()
            },
    )
}

/// The meaning of stored entries, entry by entry.
pub open spec fn entries_view(e: Seq<(Vec<u8>, BencodeValue)>) -> Seq<(Seq<u8>, Bencode)>
    decreases e,
{
    Seq::new(
        e.len(),
        |i: int|
            if 0 <= i < e.len() {
                (e[i].0@, e[i].1.view())
            } else {
                arbitrary()
            },
    )
}

impl View for BencodeValue {
    type V = Bencode;

    open spec fn view(&self) -> Bencode
        decreases self,
    {
        match self {
            BencodeValue::Integer(i) => Bencode::Integer(*i as int),
            BencodeValue::String(s) => Bencode::Bytes(s@),
            BencodeValue::List(l) => Bencode::List(items_view(l@)),
            BencodeValue::Dict(d) => Bencode::Dict(d.view()),
        }
    }
}

impl View for BencodeDict {
    type V = Seq<(Seq<u8>, Bencode)>;

    closed spec fn view(&self) -> Seq<(Seq<u8>, Bencode)>
        decreases self,
    {
        entries_view(self.entries@)
    }
}

/// Binding a key keeps the keys ascending.
pub proof fn lemma_dict_insert_ascending(e: Seq<(Seq<u8>, Bencode)>, k: Seq<u8>, v: Bencode)
    requires
        keys_ascending(e),
    ensures
        keys_ascending(dict_insert(e, k, v)),
{
    let i = first_not_less(e, k, 0);
    lemma_first_not_less(e, k, 0);
    let r = dict_insert(e, k, v);
    assert forall|a: int, b: int| 0 <= a < b < r.len() implies bytes_lt(
        #[trigger] r[a].0,
        #[trigger] r[b].0,
    ) by {
        if i < e.len() && e[i].0 == k {
            assert(r[a].0 == e[a].0);
            assert(r[b].0 == e[b].0);
        } else {
            if i < e.len() {
                lemma_bytes_lt_order(k, e[i].0, k);
            }
            if b < i {
                assert(r[a] == e[a] && r[b] == e[b]);
            } else if b == i {
                assert(r[a] == e[a]);
            } else if a == i {
                assert(r[b] == e[b - 1]);
                if b - 1 > i {
                    assert(bytes_lt(e[i].0, e[b - 1].0));
                    lemma_bytes_lt_order(k, e[i].0, e[b - 1].0);
                }
            } else if a < i {
                assert(r[a] == e[a] && r[b] == e[b - 1]);
            } else {
                assert(r[a] == e[a - 1] && r[b] == e[b - 1]);
            }
        }
    }
}

/// What `first_not_less` finds: everything before it is less than `k`, and
/// the entry at it, if there is one, is not.
pub proof fn lemma_first_not_less(e: Seq<(Seq<u8>, Bencode)>, k: Seq<u8>, i: int)
    requires
        0 <= i <= e.len(),
    ensures
        i <= first_not_less(e, k, i) <= e.len(),
        forall|j: int| i <= j < first_not_less(e, k, i) ==> bytes_lt(#[trigger] e[j].0, k),
        first_not_less(e, k, i) < e.len() ==> !bytes_lt(e[first_not_less(e, k, i)].0, k),
    decreases e.len() - i,
{
    if i < e.len() && bytes_lt(e[i].0, k) {
        lemma_first_not_less(e, k, i + 1);
    }
}

impl BencodeDict {
    #[verifier::type_invariant]
    spec fn ascending(&self) -> bool {
        keys_ascending(entries_view(self.entries@))
    }

    /// A dictionary with no entries.
    pub fn new() -> (dict: BencodeDict)
        ensures
            dict@ == Seq::<(Seq<u8>, Bencode)>::empty(),
    {
        let dict = BencodeDict { entries: Vec::new() };
        assert(dict@ =~= Seq::<(Seq<u8>, Bencode)>::empty());
        dict
    }

    /// The number of entries. The keys are known to ascend.
    pub fn len(&self) -> (n: usize)
        ensures
            n == self@.len(),
            keys_ascending(self@),
    {
        proof {
            use_type_invariant(self);
        }
        self.entries.len()
    }

    pub fn is_empty(&self) -> (empty: bool)
        ensures
            empty == (self@.len() == 0),
    {
        self.entries.len() == 0
    }

    /// The key of the entry at `i`, in key order.
    pub fn key_at(&self, i: usize) -> (key: &Vec<u8>)
        requires
            i < self@.len(),
        ensures
            key@ == self@[i as int].0,
    {
        &self.entries[i].0
    }

    /// The value of the entry at `i`, in key order.
    pub fn value_at(&self, i: usize) -> (value: &BencodeValue)
        requires
            i < self@.len(),
        ensures
            value@ == self@[i as int].1,
            decreases_to!(self => value),
    {
        broadcast use vstd::std_specs::vec::axiom_vec_index_decreases;

        assert(decreases_to!(self.entries => self.entries[i as int]));
        &self.entries[i].1
    }

    /// Binds `key` to `value`. A binding that `key` had is replaced.
    pub fn insert(&mut self, key: Vec<u8>, value: BencodeValue)
        ensures
            final(self)@ == dict_insert(old(self)@, key@, value@),
    {
        proof {
            use_type_invariant(&*self);
        }
        let mut entries: Vec<(Vec<u8>, BencodeValue)> = Vec::new();
        core::mem::swap(&mut self.entries, &mut entries);
        let ghost before = entries_view(entries@);
        let n = entries.len();
        let mut i: usize = 0;
        while i < n && bytes_less(entries[i].0.as_slice(), key.as_slice())
            invariant
                i <= n,
                n == entries@.len(),
                before == entries_view(entries@),
                first_not_less(before, key@, 0) == first_not_less(before, key@, i as int),
            decreases n - i,
        {
            i += 1;
        }
        proof {
            lemma_dict_insert_ascending(before, key@, value@);
        }
        if i < n && bytes_eq(entries[i].0.as_slice(), key.as_slice()) {
            entries.set(i, (key, value));
        } else {
            entries.insert(i, (key, value));
        }
        assert(entries_view(entries@) =~= dict_insert(before, key@, value@));
        self.entries = entries;
    }

    /// The value bound to `key`, if any.
    pub fn get(&self, key: &[u8]) -> (found: Option<&BencodeValue>)
        ensures
            match found {
                Some(v) => dict_lookup(self@, key@) == Some(v@),
                None => dict_lookup(self@, key@) is None,
            },
    {
        let n = self.entries.len();
        let mut i: usize = 0;
        while i < n
            invariant
                i <= n,
                n == self.entries@.len(),
                dict_lookup(self@, key@) == dict_lookup_from(self@, key@, i as int),
            decreases n - i,
        {
            if bytes_eq(self.entries[i].0.as_slice(), key) {
                return Some(&self.entries[i].1);
            }
            i += 1;
        }
        None
    }
}

/// A copy of a value.
fn copy_value(value: &BencodeValue) -> (copy: BencodeValue)
    ensures
        copy@ == value@,
    decreases value, 1nat,
{
    match value {
        BencodeValue::Integer(i) => BencodeValue::Integer(*i),
        BencodeValue::String(s) => BencodeValue::String(slice_to_vec(s.as_slice())),
        BencodeValue::List(list) => {
            let mut items: Vec<BencodeValue> = Vec::new();
            let mut i: usize = 0;
            while i < list.len()
                invariant
                    i <= list.len(),
                    decreases_to!(value => list),
                    items@.len() == i,
                    forall|j: int| 0 <= j < i ==> (#[trigger] items@[j])@ == list@[j]@,
                decreases list.len() - i,
            {
                proof {
                    broadcast use vstd::std_specs::vec::axiom_vec_index_decreases;

                    assert(decreases_to!(list => list[i as int]));
                }
                let item = copy_value(&list[i]);
                items.push(item);
                i += 1;
            }
            assert(items_view(items@) =~= items_view(list@));
            BencodeValue::List(items)
        },
        BencodeValue::Dict(dict) => BencodeValue::Dict(copy_dict(dict)),
    }
}

/// A copy of a dictionary.
fn copy_dict(dict: &BencodeDict) -> (copy: BencodeDict)
    ensures
        copy@ == dict@,
    decreases dict, 0nat,
{
    proof {
        use_type_invariant(dict);
    }
    let mut entries: Vec<(Vec<u8>, BencodeValue)> = Vec::new();
    let mut i: usize = 0;
    while i < dict.entries.len()
        invariant
            i <= dict.entries@.len(),
            entries@.len() == i,
            forall|j: int|
                0 <= j < i ==> (#[trigger] entries@[j]).0@ == dict.entries@[j].0@ && entries@[j].1@
                    == dict.entries@[j].1@,
        decreases dict.entries@.len() - i,
    {
        proof {
            broadcast use vstd::std_specs::vec::axiom_vec_index_decreases;

            assert(decreases_to!(dict.entries => dict.entries[i as int]));
            assert(decreases_to!(dict => dict.entries[i as int].1));
        }
        let key = slice_to_vec(dict.entries[i].0.as_slice());
        let value = copy_value(&dict.entries[i].1);
        entries.push((key, value));
        i += 1;
    }
    assert(entries_view(entries@) =~= entries_view(dict.entries@));
    BencodeDict { entries }
}

impl Clone for BencodeDict {
    fn clone(&self) -> (copy: BencodeDict)
        ensures
            copy@ == self@,
    {
        copy_dict(self)
    }
}

impl Clone for BencodeValue {
    fn clone(&self) -> (copy: BencodeValue)
        ensures
            copy@ == self@,
    {
        copy_value(self)
    }
}

/// The text that a byte string holds, if it is UTF-8.
///
/// Trusted: this is `core::str::from_utf8`, which checks the bytes and, when
/// they are well-formed UTF-8, hands them back as a string slice unchanged.
#[verifier::external_body]
pub(crate) fn str_from_utf8(bytes: &[u8]) -> (text: Option<&str>)
    ensures
        text is Some <==> valid_utf8(bytes@),
        text matches Some(t) ==> t.spec_bytes() == bytes@,
{
    match core::str::from_utf8(bytes) {
        Ok(t) => Some(t),
        Err(_) => None,
    }
}

impl BencodeValue {
    /// The integer, if this is one.
    pub fn as_integer(&self) -> (r: Option<i64>)
        ensures
            match r {
                Some(i) => self@ == Bencode::Integer(i as int),
                None => !(self@ is Integer),
            },
    {
        match self {
            BencodeValue::Integer(i) => Some(*i),
            _ => None,
        }
    }

    /// The bytes, if this is a byte string.
    pub fn as_bytes(&self) -> (r: Option<&[u8]>)
        ensures
            match r {
                Some(s) => self@ == Bencode::Bytes(s@),
                None => !(self@ is Bytes),
            },
    {
        match self {
            BencodeValue::String(s) => Some(s.as_slice()),
            _ => None,
        }
    }

    /// The text, if this is a byte string that holds UTF-8.
    pub fn as_str(&self) -> (r: Option<&str>)
        ensures
            match r {
                Some(t) => self@ == Bencode::Bytes(t.spec_bytes()) && valid_utf8(t.spec_bytes()),
                None => !(self@ is Bytes) || !valid_utf8(self@->Bytes_0),
            },
    {
        match self.as_bytes() {
            Some(b) => str_from_utf8(b),
            None => None,
        }
    }

    /// The items, if this is a list.
    pub fn as_list(&self) -> (r: Option<&[BencodeValue]>)
        ensures
            match r {
                Some(l) => self@ == Bencode::List(items_view(l@)) && forall|i: int|
                    0 <= i < l@.len() ==> decreases_to!(self => #[trigger] l@[i]),
                None => !(self@ is List),
            },
    {
        match self {
            BencodeValue::List(l) => {
                proof {
                    broadcast use vstd::std_specs::vec::axiom_vec_index_decreases;

                    assert forall|i: int| 0 <= i < l@.len() implies decreases_to!(self => #[trigger] l@[i]) by {
                        assert(decreases_to!(l => l[i]));
                    }
                }
                Some(l.as_slice())
            },
            _ => None,
        }
    }

    /// The entries, if this is a dictionary.
    pub fn as_dict(&self) -> (r: Option<&BencodeDict>)
        ensures
            match r {
                Some(d) => self@ == Bencode::Dict(d@) && decreases_to!(self => d),
                None => !(self@ is Dict),
            },
    {
        match self {
            BencodeValue::Dict(d) => Some(d),
            _ => None,
        }
    }

    /// The value that a dictionary binds to `key`.
    pub fn dict_get(&self, key: &[u8]) -> (r: Option<&BencodeValue>)
        ensures
            match r {
                Some(v) => self@ is Dict && dict_lookup(self@->Dict_0, key@) == Some(v@),
                None => !(self@ is Dict) || dict_lookup(self@->Dict_0, key@) is None,
            },
    {
        match self.as_dict() {
            Some(d) => d.get(key),
            None => None,
        }
    }

    /// The text that a dictionary binds to `key`.
    pub fn dict_get_str(&self, key: &[u8]) -> (r: Option<&str>)
        ensures
            match r {
                Some(t) => self@ is Dict && dict_lookup(self@->Dict_0, key@) == Some(
                    Bencode::Bytes(t.spec_bytes()),
                ) && valid_utf8(t.spec_bytes()),
                None => !(self@ is Dict) || !spec_is_text(dict_lookup(self@->Dict_0, key@)),
            },
    {
        match self.dict_get(key) {
            Some(v) => v.as_str(),
            None => None,
        }
    }

    /// The integer that a dictionary binds to `key`.
    pub fn dict_get_int(&self, key: &[u8]) -> (r: Option<i64>)
        ensures
            match r {
                Some(i) => self@ is Dict && dict_lookup(self@->Dict_0, key@) == Some(
                    Bencode::Integer(i as int),
                ),
                None => !(self@ is Dict) || !(dict_lookup(self@->Dict_0, key@) matches Some(
                    Bencode::Integer(_),
                )),
            },
    {
        match self.dict_get(key) {
            Some(v) => v.as_integer(),
            None => None,
        }
    }
}

/// Whether a looked-up value is a byte string that holds UTF-8.
pub open spec fn spec_is_text(v: Option<Bencode>) -> bool {
    v matches Some(Bencode::Bytes(s)) && valid_utf8(s)
}

} // verus!
