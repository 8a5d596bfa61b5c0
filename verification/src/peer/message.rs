use vstd::prelude::*;
use vstd::slice::{slice_subrange, slice_to_vec};
use crate::error::{BittorrentError, peer_error};
use crate::peer::wire::{
    be_u32, buffer_contents, buffer_new, buffer_put_slice, buffer_put_u32, buffer_put_u8,
    buffer_to_vec, lemma_be_u32_inverts, take_u32, take_u8, u32_be,
};

verus! {

/// The longest frame body that is accepted or produced: two MiB, a little
/// more than a block with its header.
pub const MAX_MESSAGE_LENGTH: u32 = 0x20_0000;

pub const ID_CHOKE: u8 = 0;
pub const ID_UNCHOKE: u8 = 1;
pub const ID_INTERESTED: u8 = 2;
pub const ID_NOT_INTERESTED: u8 = 3;
pub const ID_HAVE: u8 = 4;
pub const ID_BITFIELD: u8 = 5;
pub const ID_REQUEST: u8 = 6;
pub const ID_PIECE: u8 = 7;
pub const ID_CANCEL: u8 = 8;

/// A block within a piece: the unit of request.
#[derive(Debug, Clone, Copy, PartialEq, Eq, Structural)]
pub struct BlockInfo {
    /// Piece index
    pub piece_index: u32,
    /// Byte offset within the piece
    pub offset: u32,
    /// Length of the block
    pub length: u32,
}

impl BlockInfo {
    pub fn new(piece_index: u32, offset: u32, length: u32) -> (block: BlockInfo)
        ensures
            block == (BlockInfo { piece_index, offset, length }),
    {
        BlockInfo { piece_index, offset, length }
    }
}

/// Messages exchanged between peers.
#[derive(Debug, Clone, PartialEq, Eq)]
pub enum PeerMessage {
    /// Keep-alive: a frame of length zero
    KeepAlive,
    Choke,
    Unchoke,
    Interested,
    NotInterested,
    /// The sender has this piece
    Have { piece_index: u32 },
    /// The pieces that the sender has, one bit each, most significant first
    Bitfield { bitfield: Vec<u8> },
    /// Asks for a block
    Request { block: BlockInfo },
    /// Carries a block
    Piece { piece_index: u32, offset: u32, data: Vec<u8> },
    /// Withdraws a request
    Cancel { block: BlockInfo },
}

/// A message as mathematics: the meaning of a `PeerMessage`.
pub enum Message {
    KeepAlive,
    Choke,
    Unchoke,
    Interested,
    NotInterested,
    Have { piece_index: u32 },
    Bitfield { bitfield: Seq<u8> },
    Request { block: BlockInfo },
    Piece { piece_index: u32, offset: u32, data: Seq<u8> },
    Cancel { block: BlockInfo },
}

impl View for PeerMessage {
    type V = Message;

    open spec fn view(&self) -> Message {
        match self {
            PeerMessage::KeepAlive => Message::KeepAlive,
            PeerMessage::Choke => Message::Choke,
            PeerMessage::Unchoke => Message::Unchoke,
            PeerMessage::Interested => Message::Interested,
            PeerMessage::NotInterested => Message::NotInterested,
            PeerMessage::Have { piece_index } => Message::Have { piece_index: *piece_index },
            PeerMessage::Bitfield { bitfield } => Message::Bitfield { bitfield: bitfield@ },
            PeerMessage::Request { block } => Message::Request { block: *block },
            PeerMessage::Piece { piece_index, offset, data } => Message::Piece {
                piece_index: *piece_index,
                offset: *offset,
                data: data@,
            },
            PeerMessage::Cancel { block } => Message::Cancel { block: *block },
        }
    }
}

/// The three numbers of a request or a cancel, four bytes each.
pub open spec fn block_bytes(block: BlockInfo) -> Seq<u8> {
    u32_be(block.piece_index) + u32_be(block.offset) + u32_be(block.length)
}

impl Message {
    /// What follows the length prefix: the message id and the payload.
    /// Nothing for a keep-alive.
    pub open spec fn body(self) -> Seq<u8> {
        match self {
            Message::KeepAlive => Seq::empty(),
            Message::Choke => seq![ID_CHOKE],
            Message::Unchoke => seq![ID_UNCHOKE],
            Message::Interested => seq![ID_INTERESTED],
            Message::NotInterested => seq![ID_NOT_INTERESTED],
            Message::Have { piece_index } => seq![ID_HAVE] + u32_be(piece_index),
            Message::Bitfield { bitfield } => seq![ID_BITFIELD] + bitfield,
            Message::Request { block } => seq![ID_REQUEST] + block_bytes(block),
            Message::Piece { piece_index, offset, data } => seq![ID_PIECE] + u32_be(piece_index)
                + u32_be(offset) + data,
            Message::Cancel { block } => seq![ID_CANCEL] + block_bytes(block),
        }
    }

    /// Whether the body is short enough for a frame.
    pub open spec fn fits(self) -> bool {
        self.body().len() <= MAX_MESSAGE_LENGTH
    }

    /// The frame: the length of the body as four bytes, most significant
    /// first, then the body.
    pub open spec fn frame(self) -> Seq<u8> {
        u32_be(self.body().len() as u32) + self.body()
    }
}

/// The block that the first twelve bytes of `b` describe.
pub open spec fn parse_block(b: Seq<u8>) -> BlockInfo {
    BlockInfo {
        piece_index: be_u32(b),
        offset: be_u32(b.skip(4)),
        length: be_u32(b.skip(8)),
    }
}

/// The message that a body of at least one byte holds. Bytes after a
/// payload of fixed size are ignored.
pub open spec fn parse_body(body: Seq<u8>) -> Option<Message> {
    let id = body[0];
    let payload = body.skip(1);
    if id == ID_CHOKE {
        Some(Message::Choke)
    } else if id == ID_UNCHOKE {
        Some(Message::Unchoke)
    } else if id == ID_INTERESTED {
        Some(Message::Interested)
    } else if id == ID_NOT_INTERESTED {
        Some(Message::NotInterested)
    } else if id == ID_HAVE {
        if payload.len() >= 4 {
            Some(Message::Have { piece_index: be_u32(payload) })
        } else {
            None
        }
    } else if id == ID_BITFIELD {
        Some(Message::Bitfield { bitfield: payload })
    } else if id == ID_REQUEST {
        if payload.len() >= 12 {
            Some(Message::Request { block: parse_block(payload) })
        } else {
            None
        }
    } else if id == ID_PIECE {
        if payload.len() >= 8 {
            Some(
                Message::Piece {
                    piece_index: be_u32(payload),
                    offset: be_u32(payload.skip(4)),
                    data: payload.skip(8),
                },
            )
        } else {
            None
        }
    } else if id == ID_CANCEL {
        if payload.len() >= 12 {
            Some(Message::Cancel { block: parse_block(payload) })
        } else {
            None
        }
    } else {
        None
    }
}

/// The message that the input starts with: a length prefix, then that many
/// bytes of body. Too few bytes, a length above the limit and an unknown
/// id give nothing. Bytes after the frame are not looked at.
pub open spec fn parse_frame(d: Seq<u8>) -> Option<Message> {
    if d.len() < 4 {
        None
    } else {
        let n = be_u32(d);
        if n == 0 {
            Some(Message::KeepAlive)
        } else if n > MAX_MESSAGE_LENGTH || d.len() - 4 < n {
            None
        } else {
            parse_body(d.subrange(4, 4 + n))
        }
    }
}

/// Every message that fits in a frame is read back from its frame as it
/// was.
pub proof fn lemma_message_round_trip(m: Message)
    requires
        m.fits(),
    ensures
        parse_frame(m.frame()) == Some(m),
{
    let body = m.body();
    let d = m.frame();
    let n = body.len() as u32;
    lemma_be_u32_inverts(n);
    assert(be_u32(d) == be_u32(u32_be(n)));
    assert(d.subrange(4, 4 + n) =~= body);
    match m {
        Message::KeepAlive => {},
        Message::Choke => {},
        Message::Unchoke => {},
        Message::Interested => {},
        Message::NotInterested => {},
        Message::Have { piece_index } => {
            lemma_be_u32_inverts(piece_index);
            assert(be_u32(body.skip(1)) == be_u32(u32_be(piece_index)));
        },
        Message::Bitfield { bitfield } => {
            assert(body.skip(1) =~= bitfield);
        },
        Message::Request { block } => {
            lemma_block_round_trip(block, Seq::empty());
            assert(body.skip(1) =~= block_bytes(block) + Seq::<u8>::empty());
        },
        Message::Piece { piece_index, offset, data } => {
            lemma_be_u32_inverts(piece_index);
            lemma_be_u32_inverts(offset);
            let payload = body.skip(1);
            assert(be_u32(payload) == be_u32(u32_be(piece_index)));
            assert(be_u32(payload.skip(4)) == be_u32(u32_be(offset)));
            assert(payload.skip(8) =~= data);
        },
        Message::Cancel { block } => {
            lemma_block_round_trip(block, Seq::empty());
            assert(body.skip(1) =~= block_bytes(block) + Seq::<u8>::empty());
        },
    }
}

/// The three numbers of a block are read back as they were written.
pub proof fn lemma_block_round_trip(block: BlockInfo, after: Seq<u8>)
    ensures
        parse_block(block_bytes(block) + after) == block,
{
    let b = block_bytes(block) + after;
    lemma_be_u32_inverts(block.piece_index);
    lemma_be_u32_inverts(block.offset);
    lemma_be_u32_inverts(block.length);
    assert(be_u32(b) == be_u32(u32_be(block.piece_index)));
    assert(be_u32(b.skip(4)) == be_u32(u32_be(block.offset)));
    assert(be_u32(b.skip(8)) == be_u32(u32_be(block.length)));
}

impl PeerMessage {
    /// The length of the body, the message id and the payload; `usize::MAX`
    /// for a body that is longer than that.
    pub fn body_len(&self) -> (n: usize)
        ensures
            n == if self@.body().len() <= usize::MAX {
                self@.body().len() as usize
            } else {
                usize::MAX
            },
    {
        match self {
            PeerMessage::KeepAlive => 0,
            PeerMessage::Choke => 1,
            PeerMessage::Unchoke => 1,
            PeerMessage::Interested => 1,
            PeerMessage::NotInterested => 1,
            PeerMessage::Have { piece_index } => 5,
            PeerMessage::Bitfield { bitfield } => bitfield.len().saturating_add(1),
            PeerMessage::Request { block } => 13,
            PeerMessage::Piece { piece_index, offset, data } => data.len().saturating_add(9),
            PeerMessage::Cancel { block } => 13,
        }
    }

    /// Whether the message is short enough for a frame.
    pub fn fits(&self) -> (ok: bool)
        ensures
            ok == self@.fits(),
    {
        self.body_len() <= MAX_MESSAGE_LENGTH as usize
    }

    /// The frame of the message: `<length prefix><message id><payload>`.
    pub fn to_bytes(&self) -> (bytes: Vec<u8>)
        requires
            self@.fits(),
        ensures
            bytes@ == self@.frame(),
    {
        let mut buf = buffer_new();
        match self {
            PeerMessage::KeepAlive => {
                buffer_put_u32(&mut buf, 0);
            },
            PeerMessage::Choke => {
                buffer_put_u32(&mut buf, 1);
                buffer_put_u8(&mut buf, ID_CHOKE);
            },
            PeerMessage::Unchoke => {
                buffer_put_u32(&mut buf, 1);
                buffer_put_u8(&mut buf, ID_UNCHOKE);
            },
            PeerMessage::Interested => {
                buffer_put_u32(&mut buf, 1);
                buffer_put_u8(&mut buf, ID_INTERESTED);
            },
            PeerMessage::NotInterested => {
                buffer_put_u32(&mut buf, 1);
                buffer_put_u8(&mut buf, ID_NOT_INTERESTED);
            },
            PeerMessage::Have { piece_index } => {
                buffer_put_u32(&mut buf, 5);
                buffer_put_u8(&mut buf, ID_HAVE);
                buffer_put_u32(&mut buf, *piece_index);
            },
            PeerMessage::Bitfield { bitfield } => {
                buffer_put_u32(&mut buf, (1 + bitfield.len()) as u32);
                buffer_put_u8(&mut buf, ID_BITFIELD);
                buffer_put_slice(&mut buf, bitfield.as_slice());
            },
            PeerMessage::Request { block } => {
                buffer_put_u32(&mut buf, 13);
                buffer_put_u8(&mut buf, ID_REQUEST);
                buffer_put_u32(&mut buf, block.piece_index);
                buffer_put_u32(&mut buf, block.offset);
                buffer_put_u32(&mut buf, block.length);
            },
            PeerMessage::Piece { piece_index, offset, data } => {
                buffer_put_u32(&mut buf, (9 + data.len()) as u32);
                buffer_put_u8(&mut buf, ID_PIECE);
                buffer_put_u32(&mut buf, *piece_index);
                buffer_put_u32(&mut buf, *offset);
                buffer_put_slice(&mut buf, data.as_slice());
            },
            PeerMessage::Cancel { block } => {
                buffer_put_u32(&mut buf, 13);
                buffer_put_u8(&mut buf, ID_CANCEL);
                buffer_put_u32(&mut buf, block.piece_index);
                buffer_put_u32(&mut buf, block.offset);
                buffer_put_u32(&mut buf, block.length);
            },
        }
        assert(buffer_contents(buf) =~= self@.frame());
        buffer_to_vec(&buf)
    }

    /// Reads the message that `data` starts with.
    pub fn from_bytes(data: &[u8]) -> (r: Result<PeerMessage, BittorrentError>)
        ensures
            match r {
                Ok(m) => parse_frame(data@) == Some(m@),
                Err(e) => parse_frame(data@) is None && e is PeerError,
            },
    {
        if data.len() < 4 {
            return Err(peer_error("Message too short"));
        }
        let (length, rest) = take_u32(data);
        if length == 0 {
            return Ok(PeerMessage::KeepAlive);
        }
        if length > MAX_MESSAGE_LENGTH {
            return Err(peer_error("Message too long"));
        }
        if rest.len() < length as usize {
            return Err(peer_error("Incomplete message"));
        }
        let body = slice_subrange(rest, 0, length as usize);
        assert(body@ =~= data@.subrange(4, 4 + length));
        let (message_id, payload) = take_u8(body);
        if message_id == ID_CHOKE {
            Ok(PeerMessage::Choke)
        } else if message_id == ID_UNCHOKE {
            Ok(PeerMessage::Unchoke)
        } else if message_id == ID_INTERESTED {
            Ok(PeerMessage::Interested)
        } else if message_id == ID_NOT_INTERESTED {
            Ok(PeerMessage::NotInterested)
        } else if message_id == ID_HAVE {
            if payload.len() < 4 {
                return Err(peer_error("Invalid Have message"));
            }
            let (piece_index, _) = take_u32(payload);
            Ok(PeerMessage::Have { piece_index })
        } else if message_id == ID_BITFIELD {
            Ok(PeerMessage::Bitfield { bitfield: slice_to_vec(payload) })
        } else if message_id == ID_REQUEST {
            if payload.len() < 12 {
                return Err(peer_error("Invalid Request message"));
            }
            let (piece_index, rest) = take_u32(payload);
            let (offset, rest) = take_u32(rest);
            let (length, _) = take_u32(rest);
            Ok(PeerMessage::Request { block: BlockInfo::new(piece_index, offset, length) })
        } else if message_id == ID_PIECE {
            if payload.len() < 8 {
                return Err(peer_error("Invalid Piece message"));
            }
            let (piece_index, rest) = take_u32(payload);
            let (offset, rest) = take_u32(rest);
            assert(rest@ =~= payload@.skip(8));
            Ok(PeerMessage::Piece { piece_index, offset, data: slice_to_vec(rest) })
        } else if message_id == ID_CANCEL {
            if payload.len() < 12 {
                return Err(peer_error("Invalid Cancel message"));
            }
            let (piece_index, rest) = take_u32(payload);
            let (offset, rest) = take_u32(rest);
            let (length, _) = take_u32(rest);
            Ok(PeerMessage::Cancel { block: BlockInfo::new(piece_index, offset, length) })
        } else {
            Err(peer_error("Unknown message ID"))
        }
    }
}

} // verus!
