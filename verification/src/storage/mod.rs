//! The storage layout: where in which file each byte of the content lies.
//! Nothing here touches the disk; a plan says what to read or write where.

use vstd::prelude::*;
use crate::error::{BittorrentError, storage_error};
use crate::torrent::metainfo::{FileInfo, TorrentInfo, strings_view};

verus! {

/// A file of the layout: its path below the download directory, its length,
/// and the global offset of its first byte.
#[derive(Debug, Clone)]
pub struct FileEntry {
    pub path: Vec<String>,
    pub length: u64,
    pub offset: u64,
}

/// A stretch of a piece that lies in one file: `length` bytes, at
/// `data_offset` within the piece and at `file_offset` within the file.
#[derive(Debug, Clone, Copy, PartialEq, Eq, Structural)]
pub struct FileSegment {
    pub file_index: usize,
    pub file_offset: u64,
    pub data_offset: usize,
    pub length: usize,
}

/// Files laid end to end from offset zero.
pub open spec fn contiguous(files: Seq<FileEntry>) -> bool {
    &&& forall|i: int| 0 <= i < files.len() ==> (#[trigger] files[i]).offset + files[i].length <= u64::MAX
    &&& files.len() > 0 ==> files[0].offset == 0
    &&& forall|i: int|
        0 < i < files.len() ==> (#[trigger] files[i]).offset == files[i - 1].offset + files[i
            - 1].length
}

/// The length of all files together.
pub open spec fn layout_length(files: Seq<FileEntry>) -> int {
    if files.len() == 0 {
        0
    } else {
        files.last().offset + files.last().length
    }
}

/// How many bytes of the range of `length` bytes at `offset` lie within
/// the first `total` bytes.
pub open spec fn covered(total: int, offset: int, length: int) -> int {
    if offset >= total {
        0
    } else if offset + length <= total {
        length
    } else {
        total - offset
    }
}

/// Whether `plan` is the way the `length` bytes at global `offset` lie in
/// `files`: the segments follow each other without gap in the data, each
/// lies within one file at the place where the global offset puts it, no
/// file comes twice, none is empty, and together they hold all of the range
/// that the files hold.
pub open spec fn is_plan(files: Seq<FileEntry>, offset: int, length: int, plan: Seq<FileSegment>)
    -> bool {
    &&& forall|k: int|
        0 <= k < plan.len() ==> {
            let s = #[trigger] plan[k];
            &&& s.file_index < files.len()
            &&& s.length > 0
            &&& s.file_offset + s.length <= files[s.file_index as int].length
            &&& files[s.file_index as int].offset + s.file_offset == offset + s.data_offset
            &&& s.data_offset == if k == 0 {
                0
            } else {
                plan[k - 1].data_offset + plan[k - 1].length
            }
        }
    &&& forall|j: int, k: int|
        0 <= j < k < plan.len() ==> (#[trigger] plan[j]).file_index < (#[trigger] plan[k]).file_index
    &&& if plan.len() == 0 {
        covered(layout_length(files), offset, length) == 0
    } else {
        plan.last().data_offset + plan.last().length == covered(
            layout_length(files),
            offset,
            length,
        )
    }
}

/// The layout of the files of a torrent.
pub struct StorageManager {
    /// Base directory for downloads
    download_dir: String,
    /// Files in the torrent
    files: Vec<FileEntry>,
    /// Total length of all files
    total_length: u64,
    /// Piece length
    piece_length: u64,
}

impl StorageManager {
    pub closed spec fn layout(&self) -> Seq<FileEntry> {
        self.files@
    }

    pub closed spec fn spec_total_length(&self) -> u64 {
        self.total_length
    }

    pub closed spec fn spec_piece_length(&self) -> u64 {
        self.piece_length
    }

    pub closed spec fn spec_download_dir(&self) -> Seq<char> {
        self.download_dir@
    }

    /// The files lie end to end, and pieces have a length.
    pub open spec fn wf(&self) -> bool {
        contiguous(self.layout()) && self.spec_piece_length() > 0
    }

    /// The number of pieces: the total length over the piece length, rounded
    /// up.
    pub open spec fn spec_num_pieces(&self) -> int {
        (self.spec_total_length() + self.spec_piece_length() - 1) / (
        self.spec_piece_length() as int)
    }

    /// The length of piece `piece_index`: the piece length, but for the last
    /// piece, which holds what is left.
    pub open spec fn spec_piece_len(&self, piece_index: int) -> u64 {
        if piece_index == self.spec_num_pieces() - 1 && self.spec_total_length()
            % self.spec_piece_length() != 0 {
            (self.spec_total_length() % self.spec_piece_length()) as u64
        } else {
            self.spec_piece_length()
        }
    }

    /// Lays the files of `torrent_info` end to end below `download_dir`.
    /// Fails where pieces have no length or the files together have more
    /// bytes than 64 bits can count.
    pub fn new(download_dir: String, torrent_info: &TorrentInfo) -> (r: Result<
        StorageManager,
        BittorrentError,
    >)
        ensures
            match r {
                Ok(storage) => {
                    &&& storage.wf()
                    &&& storage.spec_download_dir() == download_dir@
                    &&& storage.spec_total_length() == torrent_info.total_length
                    &&& storage.spec_piece_length() == torrent_info.piece_length
                    &&& storage.layout().len() == torrent_info.files@.len()
                    &&& forall|i: int|
                        0 <= i < storage.layout().len() ==> {
                            &&& strings_view((#[trigger] storage.layout()[i]).path@)
                                == strings_view(torrent_info.files@[i].path@)
                            &&& storage.layout()[i].length == torrent_info.files@[i].length
                        }
                },
                Err(e) => {
                    &&& e is StorageError
                    &&& (torrent_info.piece_length == 0 || exists|k: int|
                        0 <= k <= torrent_info.files@.len() && #[trigger] spec_sum(
                            torrent_info.files@,
                            k,
                        ) > u64::MAX)
                },
            },
    {
        if torrent_info.piece_length == 0 {
            return Err(storage_error("Piece length must be positive"));
        }
        let mut files: Vec<FileEntry> = Vec::new();
        let mut offset: u64 = 0;
        let mut i: usize = 0;
        while i < torrent_info.files.len()
            invariant
                i <= torrent_info.files@.len(),
                files@.len() == i,
                contiguous(files@),
                offset == spec_sum(torrent_info.files@, i as int),
                offset == layout_length(files@),
                forall|j: int|
                    0 <= j < i ==> {
                        &&& strings_view((#[trigger] files@[j]).path@) == strings_view(
                            torrent_info.files@[j].path@,
                        )
                        &&& files@[j].length == torrent_info.files@[j].length
                    },
            decreases torrent_info.files@.len() - i,
        {
            let file_info: &FileInfo = &torrent_info.files[i];
            let next: u64 = match offset.checked_add(file_info.length) {
                Some(n) => n,
                None => {
                    assert(spec_sum(torrent_info.files@, i + 1) > u64::MAX);
                    return Err(storage_error("Files too long"));
                },
            };
            let path = copy_path(&file_info.path);
            files.push(FileEntry { path, length: file_info.length, offset });
            offset = next;
            i += 1;
        }
        Ok(
            StorageManager {
                download_dir,
                files,
                total_length: torrent_info.total_length,
                piece_length: torrent_info.piece_length,
            },
        )
    }

    /// The download directory.
    pub fn download_dir(&self) -> (dir: &String)
        ensures
            dir@ == self.spec_download_dir(),
    {
        &self.download_dir
    }

    /// The files, in layout order.
    pub fn files(&self) -> (files: &Vec<FileEntry>)
        ensures
            files@ == self.layout(),
    {
        &self.files
    }

    /// The number of pieces.
    pub fn num_pieces(&self) -> (n: usize)
        requires
            self.wf(),
        ensures
            n == self.spec_num_pieces() as usize,
    {
        let whole: u64 = self.total_length / self.piece_length;
        assert(self.total_length % self.piece_length != 0 ==> whole < u64::MAX) by (nonlinear_arith)
            requires
                self.piece_length > 0,
                whole == self.total_length / self.piece_length,
                self.total_length <= u64::MAX,
        ;
        let pieces: u64 = if self.total_length % self.piece_length != 0 {
            whole + 1
        } else {
            whole
        };
        assert(pieces == self.spec_num_pieces()) by (nonlinear_arith)
            requires
                self.piece_length > 0,
                whole == self.total_length / self.piece_length,
                pieces == if self.total_length % self.piece_length != 0 {
                    whole + 1
                } else {
                    whole as int
                },
                self.spec_num_pieces() == (self.total_length + self.piece_length - 1) / (
                self.piece_length as int),
        ;
        #[verifier::truncate]
        (pieces as usize)
    }

    /// How the `length` bytes at global `offset` lie in the files. Bytes
    /// beyond the last file lie nowhere.
    pub fn segments(&self, offset: u64, length: usize) -> (plan: Vec<FileSegment>)
        requires
            self.wf(),
        ensures
            is_plan(self.layout(), offset as int, length as int, plan@),
    {
        let mut plan: Vec<FileSegment> = Vec::new();
        let mut done: usize = 0;
        let mut i: usize = 0;
        while i < self.files.len() && done < length
            invariant
                i <= self.files@.len(),
                done <= length,
                self.wf(),
                forall|k: int|
                    0 <= k < plan@.len() ==> {
                        let s = #[trigger] plan@[k];
                        &&& s.file_index < i
                        &&& s.length > 0
                        &&& s.file_offset + s.length <= self.files@[s.file_index as int].length
                        &&& self.files@[s.file_index as int].offset + s.file_offset == offset
                            + s.data_offset
                        &&& s.data_offset == if k == 0 {
                            0
                        } else {
                            plan@[k - 1].data_offset + plan@[k - 1].length
                        }
                    },
                forall|j: int, k: int|
                    0 <= j < k < plan@.len() ==> (#[trigger] plan@[j]).file_index < (
                    #[trigger] plan@[k]).file_index,
                done == if plan@.len() == 0 {
                    0
                } else {
                    plan@.last().data_offset + plan@.last().length
                },
                done == covered(
                    layout_length(self.files@.subrange(0, i as int)),
                    offset as int,
                    length as int,
                ),
            decreases self.files@.len() - i,
        {
            let file_start: u64 = self.files[i].offset;
            let file_length: u64 = self.files[i].length;
            let file_end: u64 = file_start + file_length;
            proof {
                let before = self.files@.subrange(0, i as int);
                let after = self.files@.subrange(0, i + 1);
                assert(after.last() == self.files@[i as int]);
                if i > 0 {
                    assert(before.last() == self.files@[i - 1]);
                }
                assert(layout_length(before) == file_start);
                assert(layout_length(after) == file_end);
            }
            if offset < file_end && offset as u128 + done as u128 >= file_start as u128 {
                let position: u64 = offset + done as u64;
                let file_offset: u64 = position - file_start;
                let room: u64 = file_length - file_offset;
                let left: usize = length - done;
                let count: usize = if (left as u64) < room {
                    left
                } else {
                    room as usize
                };
                if count > 0 {
                    plan.push(
                        FileSegment { file_index: i, file_offset, data_offset: done, length: count },
                    );
                    done = done + count;
                }
            }
            i += 1;
        }
        proof {
            if i < self.files@.len() {
                lemma_covered_full(self.files@, i as int, offset as int, length as int);
            } else {
                assert(self.files@.subrange(0, i as int) =~= self.files@);
            }
        }
        plan
    }

    /// Where the bytes of piece `piece_index` go: the plan for `data_len`
    /// bytes at global offset `piece_index * piece_length`.
    pub fn write_piece(&self, piece_index: usize, data_len: usize) -> (r: Result<
        Vec<FileSegment>,
        BittorrentError,
    >)
        requires
            self.wf(),
        ensures
            match r {
                Ok(plan) => piece_index * self.spec_piece_length() <= u64::MAX && is_plan(
                    self.layout(),
                    piece_index * self.spec_piece_length(),
                    data_len as int,
                    plan@,
                ),
                Err(e) => e is StorageError && piece_index * self.spec_piece_length() > u64::MAX,
            },
    {
        match (piece_index as u64).checked_mul(self.piece_length) {
            Some(global_offset) => Ok(self.segments(global_offset, data_len)),
            None => Err(storage_error("Piece offset too large")),
        }
    }

    /// Where the bytes of piece `piece_index` come from: the plan for the
    /// length of that piece at global offset `piece_index * piece_length`.
    pub fn read_piece(&self, piece_index: usize) -> (r: Result<Vec<FileSegment>, BittorrentError>)
        requires
            self.wf(),
        ensures
            match r {
                Ok(plan) => {
                    &&& piece_index * self.spec_piece_length() <= u64::MAX
                    &&& self.spec_piece_len(piece_index as int) <= usize::MAX
                    &&& is_plan(
                        self.layout(),
                        piece_index * self.spec_piece_length(),
                        self.spec_piece_len(piece_index as int) as int,
                        plan@,
                    )
                },
                Err(e) => e is StorageError && (piece_index * self.spec_piece_length() > u64::MAX
                    || self.spec_piece_len(piece_index as int) > usize::MAX),
            },
    {
        let global_offset: u64 = match (piece_index as u64).checked_mul(self.piece_length) {
            Some(o) => o,
            None => {
                return Err(storage_error("Piece offset too large"));
            },
        };
        let whole: u64 = self.total_length / self.piece_length;
        let remainder: u64 = self.total_length % self.piece_length;
        assert(remainder != 0 ==> self.spec_num_pieces() - 1 == whole) by (nonlinear_arith)
            requires
                self.piece_length > 0,
                whole == self.total_length / self.piece_length,
                remainder == self.total_length % self.piece_length,
                self.spec_num_pieces() == (self.total_length + self.piece_length - 1) / (
                self.piece_length as int),
        ;
        let piece_len: u64 = if remainder != 0 && piece_index as u64 == whole {
            remainder
        } else {
            self.piece_length
        };
        if piece_len > usize::MAX as u64 {
            return Err(storage_error("Piece too long for this machine"));
        }
        Ok(self.segments(global_offset, piece_len as usize))
    }
}

/// The lengths of the first `k` files of a torrent together.
pub open spec fn spec_sum(files: Seq<FileInfo>, k: int) -> int
    decreases k,
{
    if k <= 0 {
        0
    } else {
        spec_sum(files, k - 1) + files[k - 1].length
    }
}

/// A copy of a path.
fn copy_path(path: &Vec<String>) -> (copy: Vec<String>)
    ensures
        strings_view(copy@) == strings_view(path@),
{
    let mut copy: Vec<String> = Vec::new();
    let mut i: usize = 0;
    while i < path.len()
        invariant
            i <= path.len(),
            copy@.len() == i,
            forall|j: int| 0 <= j < i ==> copy@[j]@ == path@[j]@,
        decreases path.len() - i,
    {
        copy.push(path[i].clone());
        i += 1;
    }
    assert(strings_view(copy@) =~= strings_view(path@));
    copy
}

/// Once a range lies wholly within the first `i` files, the files after
/// them add nothing to what is covered.
pub proof fn lemma_covered_full(files: Seq<FileEntry>, i: int, offset: int, length: int)
    requires
        contiguous(files),
        0 <= i <= files.len(),
        0 <= offset,
        0 <= length,
        covered(layout_length(files.subrange(0, i)), offset, length) == length,
    ensures
        covered(layout_length(files), offset, length) == length,
{
    lemma_layout_grows(files, i);
}

/// The first `i` files together are no longer than all of them.
pub proof fn lemma_layout_grows(files: Seq<FileEntry>, i: int)
    requires
        contiguous(files),
        0 <= i <= files.len(),
    ensures
        layout_length(files.subrange(0, i)) <= layout_length(files),
    decreases files.len() - i,
{
    if i < files.len() {
        lemma_layout_grows(files, i + 1);
        let shorter = files.subrange(0, i);
        let longer = files.subrange(0, i + 1);
        assert(longer.last() == files[i]);
        if i > 0 {
            assert(shorter.last() == files[i - 1]);
        }
    } else {
        assert(files.subrange(0, i) =~= files);
    }
}

} // verus!
