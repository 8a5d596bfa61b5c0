use vstd::prelude::*;
use vstd::slice::slice_subrange;
use vstd::string::StringSliceAdditionalSpecFns;
use vstd::utf8::{decode_utf8, valid_utf8};
use crate::bencode::decoder::{decode_with_span, spec_span};
use crate::bencode::model::{Bencode, decode_spec, dict_lookup, value_span};
use crate::bencode::order::bytes_eq;
use crate::bencode::value::{BencodeValue, items_view, str_from_utf8};
use crate::error::{BittorrentError, invalid_torrent};
use crate::hash::{hex_encode, hex_text, sha1_digest, sha1_hash};
use crate::text::{percent_encode, percent_encoded};
use crate::torrent::piece::{Pieces, split_hashes};

verus! {

/// A file of the torrent: its path below the root, component by component,
/// and its length in bytes.
#[derive(Debug, Clone)]
pub struct FileInfo {
    pub path: Vec<String>,
    pub length: u64,
}

/// What the info dictionary says about the content.
#[derive(Debug, Clone)]
pub struct TorrentInfo {
    /// Suggested name for the file or directory
    pub name: String,
    /// Number of bytes in each piece
    pub piece_length: u64,
    /// SHA-1 hashes of all pieces
    pub pieces: Pieces,
    /// The files, in the order in which their bytes follow each other
    pub files: Vec<FileInfo>,
    /// Total length of all files
    pub total_length: u64,
}

/// A torrent descriptor.
#[derive(Debug, Clone)]
pub struct Metainfo {
    /// URL of the tracker
    pub announce: String,
    /// Further trackers, in tiers
    pub announce_list: Option<Vec<Vec<String>>>,
    /// What the torrent holds
    pub info: TorrentInfo,
    /// SHA-1 of the info dictionary as it stands in the descriptor
    pub info_hash: [u8; 20],
}

/// The meaning of a `FileInfo`.
pub struct FileModel {
    pub path: Seq<Seq<char>>,
    pub length: u64,
}

/// The meaning of a `TorrentInfo`.
pub struct InfoModel {
    pub name: Seq<char>,
    pub piece_length: u64,
    pub pieces: Seq<Seq<u8>>,
    pub files: Seq<FileModel>,
    pub total_length: u64,
}

/// The meaning of a `Metainfo`.
pub struct MetainfoModel {
    pub announce: Seq<char>,
    pub announce_list: Option<Seq<Seq<Seq<char>>>>,
    pub info: InfoModel,
    pub info_hash: Seq<u8>,
}

pub open spec fn strings_view(v: Seq<String>) -> Seq<Seq<char>> {
    Seq::new(v.len(), |i: int| v[i]@)
}

pub open spec fn tiers_view(v: Seq<Vec<String>>) -> Seq<Seq<Seq<char>>> {
    Seq::new(v.len(), |i: int| strings_view(v[i]@))
}

pub open spec fn files_view(v: Seq<FileInfo>) -> Seq<FileModel> {
    Seq::new(v.len(), |i: int| v[i]@)
}

impl View for FileInfo {
    type V = FileModel;

    open spec fn view(&self) -> FileModel {
        FileModel { path: strings_view(self.path@), length: self.length }
    }
}

impl View for TorrentInfo {
    type V = InfoModel;

    open spec fn view(&self) -> InfoModel {
        InfoModel {
            name: self.name@,
            piece_length: self.piece_length,
            pieces: self.pieces@,
            files: files_view(self.files@),
            total_length: self.total_length,
        }
    }
}

impl View for Metainfo {
    type V = MetainfoModel;

    open spec fn view(&self) -> MetainfoModel {
        MetainfoModel {
            announce: self.announce@,
            announce_list: match self.announce_list {
                Some(tiers) => Some(tiers_view(tiers@)),
                None => None,
            },
            info: self.info@,
            info_hash: self.info_hash@,
        }
    }
}

// ---------------------------------------------------------------------
// What a descriptor means
// ---------------------------------------------------------------------

/// The text of a byte string that holds UTF-8.
pub open spec fn text_of(v: Option<Bencode>) -> Option<Seq<char>> {
    match v {
        Some(Bencode::Bytes(b)) => if valid_utf8(b) {
            Some(decode_utf8(b))
        } else {
            None
        },
        _ => None,
    }
}

pub open spec fn integer_of(v: Option<Bencode>) -> Option<int> {
    match v {
        Some(Bencode::Integer(i)) => Some(i),
        _ => None,
    }
}

pub open spec fn bytes_of(v: Option<Bencode>) -> Option<Seq<u8>> {
    match v {
        Some(Bencode::Bytes(b)) => Some(b),
        _ => None,
    }
}

/// A path component that would lead out of the root: `..`, or one that
/// starts with a slash.
pub open spec fn escapes(component: Seq<u8>) -> bool {
    component == "..".spec_bytes() || (component.len() > 0 && component[0] == 47)
}

/// A path component: text that stays below the root.
pub open spec fn spec_component(v: Bencode) -> Option<Seq<char>> {
    match v {
        Bencode::Bytes(b) => if valid_utf8(b) && !escapes(b) {
            Some(decode_utf8(b))
        } else {
            None
        },
        _ => None,
    }
}

/// A file path: a list of at least one component.
pub open spec fn spec_path(v: Option<Bencode>) -> Option<Seq<Seq<char>>> {
    match v {
        Some(Bencode::List(l)) => if l.len() > 0 && forall|i: int|
            0 <= i < l.len() ==> spec_component(#[trigger] l[i]) is Some {
            Some(Seq::new(l.len(), |i: int| spec_component(l[i])->Some_0))
        } else {
            None
        },
        _ => None,
    }
}

/// An entry of `files`: a dictionary with an integer `length` and a `path`.
pub open spec fn spec_file(v: Bencode) -> Option<FileModel> {
    match v {
        Bencode::Dict(e) => match (
            integer_of(dict_lookup(e, "length".spec_bytes())),
            spec_path(dict_lookup(e, "path".spec_bytes())),
        ) {
            (Some(n), Some(path)) => Some(FileModel { path, length: n as u64 }),
            _ => None,
        },
        _ => None,
    }
}

/// The files of a multi-file torrent.
pub open spec fn spec_files(v: Bencode) -> Option<Seq<FileModel>> {
    match v {
        Bencode::List(l) => if forall|i: int| 0 <= i < l.len() ==> spec_file(#[trigger] l[i]) is Some {
            Some(Seq::new(l.len(), |i: int| spec_file(l[i])->Some_0))
        } else {
            None
        },
        _ => None,
    }
}

/// The sum of the lengths of the files.
pub open spec fn sum_lengths(files: Seq<FileModel>) -> int
    decreases files.len(),
{
    if files.len() == 0 {
        0
    } else {
        sum_lengths(files.drop_last()) + files.last().length
    }
}

/// The file list of an info dictionary, single-file and multi-file form
/// brought to one: exactly one of `length` and `files` must be there.
pub open spec fn spec_file_list(e: Seq<(Seq<u8>, Bencode)>) -> Option<Seq<FileModel>> {
    let length = dict_lookup(e, "length".spec_bytes());
    let files = dict_lookup(e, "files".spec_bytes());
    if length is Some && files is None {
        match (length, spec_component(dict_lookup(e, "name".spec_bytes())->Some_0)) {
            (Some(Bencode::Integer(n)), Some(name)) => Some(
                seq![FileModel { path: seq![name], length: n as u64 }],
            ),
            _ => None,
        }
    } else if length is None && files is Some {
        spec_files(files->Some_0)
    } else {
        None
    }
}

/// What an info dictionary describes, if it is a valid one: a text `name`,
/// a positive `piece length`, a `pieces` blob of whole hashes, a file list
/// whose paths stay below the root, and a total length that fits in 64 bits.
pub open spec fn spec_info(v: Bencode) -> Option<InfoModel> {
    match v {
        Bencode::Dict(e) => match (
            text_of(dict_lookup(e, "name".spec_bytes())),
            integer_of(dict_lookup(e, "piece length".spec_bytes())),
            bytes_of(dict_lookup(e, "pieces".spec_bytes())),
            spec_file_list(e),
        ) {
            (Some(name), Some(piece_length), Some(pieces), Some(files)) => if 0 < piece_length
                && pieces.len() % 20 == 0 && sum_lengths(files) <= u64::MAX {
                Some(
                    InfoModel {
                        name,
                        piece_length: piece_length as u64,
                        pieces: split_hashes(pieces),
                        files,
                        total_length: sum_lengths(files) as u64,
                    },
                )
            } else {
                None
            },
            _ => None,
        },
        _ => None,
    }
}

/// The texts among the items of a list, in order; other items are passed
/// over.
pub open spec fn texts_of(l: Seq<Bencode>) -> Seq<Seq<char>>
    decreases l.len(),
{
    if l.len() == 0 {
        Seq::empty()
    } else {
        match text_of(Some(l.last())) {
            Some(t) => texts_of(l.drop_last()).push(t),
            None => texts_of(l.drop_last()),
        }
    }
}

/// The tiers among the items of an announce list, in order: each item that
/// is a list gives the texts in it; other items are passed over.
pub open spec fn tiers_of(l: Seq<Bencode>) -> Seq<Seq<Seq<char>>>
    decreases l.len(),
{
    if l.len() == 0 {
        Seq::empty()
    } else {
        match l.last() {
            Bencode::List(urls) => tiers_of(l.drop_last()).push(texts_of(urls)),
            _ => tiers_of(l.drop_last()),
        }
    }
}

/// The announce list of a descriptor: there when `announce-list` is a list.
pub open spec fn spec_announce_list(e: Seq<(Seq<u8>, Bencode)>) -> Option<Seq<Seq<Seq<char>>>> {
    match dict_lookup(e, "announce-list".spec_bytes()) {
        Some(Bencode::List(l)) => Some(tiers_of(l)),
        _ => None,
    }
}

/// What a decoded descriptor describes, given the info-hash: it must be a
/// dictionary with a text `announce` and a valid `info`.
pub open spec fn spec_metainfo(v: Bencode, info_hash: Seq<u8>) -> Option<MetainfoModel> {
    match v {
        Bencode::Dict(e) => match (
            text_of(dict_lookup(e, "announce".spec_bytes())),
            dict_lookup(e, "info".spec_bytes()),
        ) {
            (Some(announce), Some(info)) => match spec_info(info) {
                Some(info) => Some(
                    MetainfoModel {
                        announce,
                        announce_list: spec_announce_list(e),
                        info,
                        info_hash,
                    },
                ),
                None => None,
            },
            _ => None,
        },
        _ => None,
    }
}

/// The info-hash of a descriptor: SHA-1 over the bytes of the value of the
/// top-level `info` key, exactly as they stand in the descriptor.
pub open spec fn spec_info_hash(raw: Seq<u8>) -> Option<Seq<u8>> {
    match value_span(raw, "info".spec_bytes()) {
        Some((begin, end)) => Some(sha1_hash(raw.subrange(begin, end))),
        None => None,
    }
}

/// What the bytes of a descriptor describe.
pub open spec fn spec_torrent(raw: Seq<u8>) -> Option<MetainfoModel> {
    match (decode_spec(raw), spec_info_hash(raw)) {
        (Some(v), Some(hash)) => spec_metainfo(v, hash),
        _ => None,
    }
}

/// The info-hash of a torrent is the SHA-1 of a span of the descriptor as
/// it stands, and that span is the very bytes from which the info of the
/// torrent was decoded: no byte is hashed that was encoded anew.
pub proof fn lemma_info_hash_of_original_span(raw: Seq<u8>)
    ensures
        spec_torrent(raw) matches Some(m) ==> {
            &&& value_span(raw, "info".spec_bytes()) matches Some((begin, end))
            &&& m.info_hash == sha1_hash(raw.subrange(begin, end))
            &&& crate::bencode::model::parse_value(raw, begin) matches Some((info, after))
            &&& after == end
            &&& spec_info(info) == Some(m.info)
        },
{
    crate::bencode::laws::lemma_value_span(raw, "info".spec_bytes());
}

// ---------------------------------------------------------------------
// Loading
// ---------------------------------------------------------------------

/// The text of a value, owned.
fn owned_text(value: &BencodeValue) -> (r: Option<String>)
    ensures
        match r {
            Some(s) => text_of(Some(value@)) == Some(s@),
            None => text_of(Some(value@)) is None,
        },
{
    broadcast use vstd::utf8::encode_utf8_decode_utf8;

    match value.as_str() {
        Some(t) => Some(t.to_owned()),
        None => None,
    }
}

/// The text of a path component, owned, unless it would leave the root.
fn owned_component(value: &BencodeValue) -> (r: Option<String>)
    ensures
        match r {
            Some(s) => spec_component(value@) == Some(s@),
            None => spec_component(value@) is None,
        },
{
    broadcast use vstd::utf8::encode_utf8_decode_utf8;

    match value.as_bytes() {
        Some(b) => {
            if bytes_eq(b, "..".as_bytes()) || (b.len() > 0 && b[0] == 47) {
                return None;
            }
            match str_from_utf8(b) {
                Some(t) => Some(t.to_owned()),
                None => None,
            }
        },
        None => None,
    }
}

/// The texts among the items of `list`.
fn owned_texts(list: &[BencodeValue]) -> (texts: Vec<String>)
    ensures
        strings_view(texts@) == texts_of(items_view(list@)),
{
    let ghost items = items_view(list@);
    let mut texts: Vec<String> = Vec::new();
    let mut i: usize = 0;
    assert(items.subrange(0, 0) =~= Seq::<Bencode>::empty());
    assert(strings_view(texts@) =~= Seq::<Seq<char>>::empty());
    while i < list.len()
        invariant
            i <= list.len(),
            items == items_view(list@),
            strings_view(texts@) == texts_of(items.subrange(0, i as int)),
        decreases list.len() - i,
    {
        let ghost before = strings_view(texts@);
        proof {
            assert(items.subrange(0, i + 1).drop_last() =~= items.subrange(0, i as int));
            assert(items.subrange(0, i + 1).last() == list@[i as int]@);
        }
        match owned_text(&list[i]) {
            Some(t) => {
                texts.push(t);
                assert(strings_view(texts@) =~= before.push(t@));
            },
            None => {},
        }
        i += 1;
    }
    assert(items.subrange(0, items.len() as int) =~= items);
    texts
}

/// The tiers among the items of `list`.
fn owned_tiers(list: &[BencodeValue]) -> (tiers: Vec<Vec<String>>)
    ensures
        tiers_view(tiers@) == tiers_of(items_view(list@)),
{
    let ghost items = items_view(list@);
    let mut tiers: Vec<Vec<String>> = Vec::new();
    let mut i: usize = 0;
    assert(items.subrange(0, 0) =~= Seq::<Bencode>::empty());
    assert(tiers_view(tiers@) =~= Seq::<Seq<Seq<char>>>::empty());
    while i < list.len()
        invariant
            i <= list.len(),
            items == items_view(list@),
            tiers_view(tiers@) == tiers_of(items.subrange(0, i as int)),
        decreases list.len() - i,
    {
        let ghost before = tiers_view(tiers@);
        proof {
            assert(items.subrange(0, i + 1).drop_last() =~= items.subrange(0, i as int));
            assert(items.subrange(0, i + 1).last() == list@[i as int]@);
        }
        match list[i].as_list() {
            Some(urls) => {
                let tier = owned_texts(urls);
                tiers.push(tier);
                assert(tiers_view(tiers@) =~= before.push(strings_view(tier@)));
            },
            None => {},
        }
        i += 1;
    }
    assert(items.subrange(0, items.len() as int) =~= items);
    tiers
}

/// The path that a list of components spells.
#[verifier::loop_isolation(false)]
fn owned_path(value: Option<&BencodeValue>) -> (r: Option<Vec<String>>)
    ensures
        match r {
            Some(path) => spec_path(spec_value(value)) == Some(strings_view(path@)),
            None => spec_path(spec_value(value)) is None,
        },
{
    let list = match value {
        Some(v) => match v.as_list() {
            Some(l) => l,
            None => {
                return None;
            },
        },
        None => {
            return None;
        },
    };
    if list.len() == 0 {
        return None;
    }
    let ghost items = items_view(list@);
    let mut path: Vec<String> = Vec::new();
    let mut i: usize = 0;
    while i < list.len()
        invariant
            i <= list.len(),
            items == items_view(list@),
            path@.len() == i,
            forall|j: int| 0 <= j < i ==> spec_component(#[trigger] items[j]) == Some(path@[j]@),
        decreases list.len() - i,
    {
        assert(items[i as int] == list@[i as int]@);
        match owned_component(&list[i]) {
            Some(c) => {
                path.push(c);
            },
            None => {
                return None;
            },
        }
        i += 1;
    }
    assert(strings_view(path@) =~= Seq::new(items.len(), |i: int| spec_component(items[i])->Some_0));
    Some(path)
}

/// The meaning of a value that may be there.
pub open spec fn spec_value(value: Option<&BencodeValue>) -> Option<Bencode> {
    match value {
        Some(v) => Some(v@),
        None => None,
    }
}

/// The file that an entry of `files` describes.
fn owned_file(value: &BencodeValue) -> (r: Option<FileInfo>)
    ensures
        match r {
            Some(file) => spec_file(value@) == Some(file@),
            None => spec_file(value@) is None,
        },
{
    if value.as_dict().is_none() {
        return None;
    }
    let length: u64 = match value.dict_get_int("length".as_bytes()) {
        Some(n) => #[verifier::truncate]
        (n as u64),
        None => {
            return None;
        },
    };
    match owned_path(value.dict_get("path".as_bytes())) {
        Some(path) => Some(FileInfo { path, length }),
        None => None,
    }
}

/// Whether the hashes are as many as the pieces that the total length
/// asks for: the total length over the piece length, rounded up.
pub open spec fn spec_consistent(info: InfoModel) -> bool {
    info.piece_length > 0 && info.pieces.len() == (info.total_length + info.piece_length - 1) / (
    info.piece_length as int)
}

impl TorrentInfo {
    /// Whether there is one hash for each piece of the total length: all
    /// pieces whole, but for a last one that is not empty.
    pub fn is_consistent(&self) -> (ok: bool)
        ensures
            ok == spec_consistent(self@),
    {
        if self.piece_length == 0 {
            return false;
        }
        let whole: u64 = self.total_length / self.piece_length;
        let short: bool = self.total_length % self.piece_length != 0;
        assert((self.total_length + self.piece_length - 1) / (self.piece_length as int) == if short {
            whole + 1
        } else {
            whole as int
        }) by (nonlinear_arith)
            requires
                self.piece_length > 0,
                whole == self.total_length / self.piece_length,
                short == (self.total_length % self.piece_length != 0),
        ;
        let count: u64 = self.pieces.len() as u64;
        if short {
            count > 0 && count - 1 == whole
        } else {
            count == whole
        }
    }

    /// Reads an info dictionary.
    #[verifier::loop_isolation(false)]
    pub fn from_bencode(value: &BencodeValue) -> (r: Result<TorrentInfo, BittorrentError>)
        ensures
            match r {
                Ok(info) => spec_info(value@) == Some(info@),
                Err(e) => spec_info(value@) is None && e is InvalidTorrent,
            },
    {
        if value.as_dict().is_none() {
            return Err(invalid_torrent("Info must be a dict"));
        }
        let name_value = match value.dict_get("name".as_bytes()) {
            Some(v) => v,
            None => {
                return Err(invalid_torrent("Missing 'name' field"));
            },
        };
        let name: String = match owned_text(name_value) {
            Some(s) => s,
            None => {
                return Err(invalid_torrent("Missing 'name' field"));
            },
        };
        let piece_length: u64 = match value.dict_get_int("piece length".as_bytes()) {
            Some(n) => {
                if n <= 0 {
                    return Err(invalid_torrent("Invalid 'piece length' field"));
                }
                n as u64
            },
            None => {
                return Err(invalid_torrent("Missing 'piece length' field"));
            },
        };
        let pieces: Pieces = match value.dict_get("pieces".as_bytes()) {
            Some(v) => match v.as_bytes() {
                Some(b) => match Pieces::from_bytes(b) {
                    Ok(p) => p,
                    Err(e) => {
                        return Err(e);
                    },
                },
                None => {
                    return Err(invalid_torrent("Missing 'pieces' field"));
                },
            },
            None => {
                return Err(invalid_torrent("Missing 'pieces' field"));
            },
        };
        let length_value = value.dict_get("length".as_bytes());
        let files_value = value.dict_get("files".as_bytes());
        let mut files: Vec<FileInfo> = Vec::new();
        let mut total: u64 = 0;
        assert(files_view(files@) =~= Seq::<FileModel>::empty());
        match (length_value, files_value) {
            (Some(length_value), None) => {
                let length: u64 = match length_value.as_integer() {
                    Some(n) => #[verifier::truncate]
                    (n as u64),
                    None => {
                        return Err(invalid_torrent("Invalid 'length' field"));
                    },
                };
                let component = match owned_component(name_value) {
                    Some(c) => c,
                    None => {
                        return Err(invalid_torrent("Invalid file path"));
                    },
                };
                let mut path: Vec<String> = Vec::new();
                path.push(component);
                assert(strings_view(path@) =~= seq![component@]);
                let file = FileInfo { path, length };
                files.push(file);
                total = length;
                assert(files_view(files@) =~= seq![file@]);
                assert(files_view(files@).drop_last() =~= Seq::<FileModel>::empty());
                assert(sum_lengths(files_view(files@)) == length) by {
                    reveal_with_fuel(sum_lengths, 2);
                }
            },
            (None, Some(files_value)) => {
                let list = match files_value.as_list() {
                    Some(l) => l,
                    None => {
                        return Err(invalid_torrent("Invalid 'files' field"));
                    },
                };
                let ghost items = items_view(list@);
                let mut i: usize = 0;
                while i < list.len()
                    invariant
                        i <= list.len(),
                        items == items_view(list@),
                        files@.len() == i,
                        forall|j: int|
                            0 <= j < i ==> spec_file(#[trigger] items[j]) == Some(files@[j]@),
                        total == sum_lengths(files_view(files@)),
                    decreases list.len() - i,
                {
                    assert(items[i as int] == list@[i as int]@);
                    let file = match owned_file(&list[i]) {
                        Some(f) => f,
                        None => {
                            return Err(invalid_torrent("Invalid file entry"));
                        },
                    };
                    let ghost before = files_view(files@);
                    let ghost rest = items.subrange(i + 1, items.len() as int);
                    let length = file.length;
                    files.push(file);
                    assert(files_view(files@) =~= before.push(file@));
                    assert(files_view(files@).drop_last() =~= before);
                    match total.checked_add(length) {
                        Some(sum) => {
                            total = sum;
                        },
                        None => {
                            proof {
                                lemma_sum_lengths_grows(items, (i + 1) as int, files_view(files@));
                            }
                            return Err(invalid_torrent("Total length too large"));
                        },
                    }
                    i += 1;
                }
                assert(files_view(files@) =~= Seq::new(
                    items.len(),
                    |i: int| spec_file(items[i])->Some_0,
                ));
            },
            _ => {
                return Err(invalid_torrent("Need exactly one of 'length' and 'files'"));
            },
        }
        Ok(TorrentInfo { name, piece_length, pieces, files, total_length: total })
    }
}

/// Where the first files of a list already add up to more than `u64::MAX`,
/// the whole list, if it is valid at all, does too.
pub proof fn lemma_sum_lengths_grows(items: Seq<Bencode>, k: int, first: Seq<FileModel>)
    requires
        0 <= k <= items.len(),
        first.len() == k,
        forall|j: int| 0 <= j < k ==> spec_file(#[trigger] items[j]) == Some(first[j]),
        sum_lengths(first) > u64::MAX,
    ensures
        match spec_files(Bencode::List(items)) {
            Some(all) => sum_lengths(all) > u64::MAX,
            None => true,
        },
{
    match spec_files(Bencode::List(items)) {
        Some(all) => {
            assert(all.subrange(0, k) =~= first);
            lemma_sum_lengths_monotonic(all, k);
        },
        None => {},
    }
}

/// The lengths of the first `k` files add up to no more than all of them.
pub proof fn lemma_sum_lengths_monotonic(files: Seq<FileModel>, k: int)
    requires
        0 <= k <= files.len(),
    ensures
        sum_lengths(files.subrange(0, k)) <= sum_lengths(files),
    decreases files.len() - k,
{
    if k < files.len() {
        lemma_sum_lengths_monotonic(files.drop_last(), k);
        assert(files.drop_last().subrange(0, k) =~= files.subrange(0, k));
    } else {
        assert(files.subrange(0, k) =~= files);
    }
}

impl Metainfo {
    /// Reads a decoded descriptor and takes `info_hash` as its info-hash.
    pub fn from_parts(value: &BencodeValue, info_hash: [u8; 20]) -> (r: Result<
        Metainfo,
        BittorrentError,
    >)
        ensures
            match r {
                Ok(m) => spec_metainfo(value@, info_hash@) == Some(m@),
                Err(e) => spec_metainfo(value@, info_hash@) is None && e is InvalidTorrent,
            },
    {
        if value.as_dict().is_none() {
            return Err(invalid_torrent("Torrent must be a dict"));
        }
        let announce: String = match value.dict_get("announce".as_bytes()) {
            Some(v) => match owned_text(v) {
                Some(s) => s,
                None => {
                    return Err(invalid_torrent("Missing 'announce' field"));
                },
            },
            None => {
                return Err(invalid_torrent("Missing 'announce' field"));
            },
        };
        let announce_list: Option<Vec<Vec<String>>> = match value.dict_get(
            "announce-list".as_bytes(),
        ) {
            Some(v) => match v.as_list() {
                Some(list) => Some(owned_tiers(list)),
                None => None,
            },
            None => None,
        };
        let info_value = match value.dict_get("info".as_bytes()) {
            Some(v) => v,
            None => {
                return Err(invalid_torrent("Missing 'info' field"));
            },
        };
        let info = match TorrentInfo::from_bencode(info_value) {
            Ok(info) => info,
            Err(e) => {
                return Err(e);
            },
        };
        Ok(Metainfo { announce, announce_list, info, info_hash })
    }

    /// Reads a decoded descriptor. The info-hash is computed over the bytes
    /// of the `info` value as they stand in `raw_data`, the bytes that
    /// `value` was decoded from.
    pub fn from_bencode(value: BencodeValue, raw_data: &[u8]) -> (r: Result<
        Metainfo,
        BittorrentError,
    >)
        ensures
            match r {
                Ok(m) => spec_info_hash(raw_data@) == Some(m.info_hash@) && spec_metainfo(
                    value@,
                    m.info_hash@,
                ) == Some(m@),
                Err(e) => e is InvalidTorrent && (spec_info_hash(raw_data@) is None
                    || spec_metainfo(value@, spec_info_hash(raw_data@)->Some_0) is None),
            },
    {
        match calculate_info_hash(raw_data) {
            Some(info_hash) => Metainfo::from_parts(&value, info_hash),
            None => Err(invalid_torrent("Info dict not found")),
        }
    }

    /// The info-hash in hexadecimal.
    pub fn info_hash_hex(&self) -> (text: String)
        ensures
            text@ == hex_text(self.info_hash@),
    {
        hex_encode(self.info_hash.as_slice())
    }

    /// The info-hash with every byte percent-encoded, for a tracker request.
    pub fn info_hash_urlencoded(&self) -> (text: String)
        ensures
            text@ == percent_encoded(self.info_hash@),
    {
        percent_encode(self.info_hash.as_slice())
    }
}

/// The info-hash of the descriptor in `raw_data`, if it is a dictionary
/// with an `info` key.
pub fn calculate_info_hash(raw_data: &[u8]) -> (r: Option<[u8; 20]>)
    ensures
        match r {
            Some(hash) => spec_info_hash(raw_data@) == Some(hash@),
            None => spec_info_hash(raw_data@) is None,
        },
{
    match decode_with_span(raw_data, "info".as_bytes()) {
        Ok((_, Some((begin, end)))) => Some(sha1_digest(slice_subrange(raw_data, begin, end))),
        Ok((_, None)) => None,
        Err(_) => {
            proof {
                crate::bencode::laws::lemma_value_span(raw_data@, "info".spec_bytes());
            }
            None
        },
    }
}

/// Decodes a torrent descriptor.
pub fn parse_torrent(data: &[u8]) -> (r: Result<Metainfo, BittorrentError>)
    ensures
        match r {
            Ok(m) => spec_torrent(data@) == Some(m@),
            Err(e) => spec_torrent(data@) is None && e is InvalidTorrent,
        },
{
    let (value, span) = match decode_with_span(data, "info".as_bytes()) {
        Ok(found) => found,
        Err(_) => {
            return Err(invalid_torrent("Not a bencoded value"));
        },
    };
    match span {
        Some((begin, end)) => {
            let info_hash = sha1_digest(slice_subrange(data, begin, end));
            Metainfo::from_parts(&value, info_hash)
        },
        None => Err(invalid_torrent("Info dict not found")),
    }
}

} // verus!
