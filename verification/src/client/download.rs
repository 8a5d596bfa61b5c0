use vstd::prelude::*;
use crate::peer::message::{BlockInfo, Message, PeerMessage};
use crate::piece::BLOCK_SIZE;

verus! {

/// Where the download of one piece from one peer stands.
#[derive(Debug, Clone, Copy, PartialEq, Eq, Structural)]
pub enum DownloadStep {
    /// Interest is declared; the peer has not unchoked us yet.
    AwaitingUnchoke,
    /// This block was asked for and has not come yet.
    AwaitingBlock { block: BlockInfo },
}

/// Why the download of a piece from a peer is given up.
#[derive(Debug, Clone, Copy, PartialEq, Eq, Structural)]
pub enum DownloadFailure {
    /// The peer choked us.
    Choked,
    /// A block came that was not the one asked for.
    UnexpectedBlock,
    /// The piece has no such block.
    InvalidBlock,
}

/// What the driver is to do next.
#[derive(Debug, Clone, Copy, PartialEq, Eq, Structural)]
pub enum DownloadAction {
    /// Wait for the next message.
    Wait,
    /// Ask for this block, then wait.
    Request { block: BlockInfo },
    /// Store the block that came, at `offset`, then ask for `next`.
    StoreAndRequest { offset: u32, next: BlockInfo },
    /// Store the block that came, at `offset`, then verify the piece.
    StoreAndFinish { offset: u32 },
    /// Verify the piece: it has no blocks.
    Finish,
    /// Give the piece up.
    Fail { reason: DownloadFailure },
}

/// Block `block_index` of a piece of `length` bytes, if the piece has such
/// a block and its offset fits in 32 bits.
pub open spec fn spec_block(piece_index: usize, length: u64, block_index: int) -> Option<BlockInfo> {
    if 0 <= block_index && block_index * BLOCK_SIZE < length && block_index * BLOCK_SIZE
        <= u32::MAX && piece_index <= u32::MAX {
        Some(
            BlockInfo {
                piece_index: piece_index as u32,
                offset: (block_index * BLOCK_SIZE) as u32,
                length: if length - block_index * BLOCK_SIZE < BLOCK_SIZE {
                    (length - block_index * BLOCK_SIZE) as u32
                } else {
                    BLOCK_SIZE
                },
            },
        )
    } else {
        None
    }
}

/// What follows a message while the unchoke is awaited: after `unchoke`
/// the first block is asked for, or the piece verified if it is empty;
/// `choke` ends the attempt; anything else is waited out.
pub open spec fn spec_awaiting_unchoke(piece_index: usize, length: u64, message: Message) -> (
    DownloadStep,
    DownloadAction,
) {
    match message {
        Message::Unchoke => if length == 0 {
            (DownloadStep::AwaitingUnchoke, DownloadAction::Finish)
        } else {
            match spec_block(piece_index, length, 0) {
                Some(block) => (
                    DownloadStep::AwaitingBlock { block },
                    DownloadAction::Request { block },
                ),
                None => (
                    DownloadStep::AwaitingUnchoke,
                    DownloadAction::Fail { reason: DownloadFailure::InvalidBlock },
                ),
            }
        },
        Message::Choke => (
            DownloadStep::AwaitingUnchoke,
            DownloadAction::Fail { reason: DownloadFailure::Choked },
        ),
        _ => (DownloadStep::AwaitingUnchoke, DownloadAction::Wait),
    }
}

/// What follows a message while `block` is awaited: the block itself, with
/// the piece, the offset and the length that were asked for, is stored, and
/// the next block asked for or the piece verified; any other block, and
/// `choke`, end the attempt; anything else is waited out.
pub open spec fn spec_awaiting_block(length: u64, block: BlockInfo, message: Message) -> (
    DownloadStep,
    DownloadAction,
) {
    match message {
        Message::Piece { piece_index, offset, data } => if piece_index == block.piece_index
            && offset == block.offset && data.len() == block.length {
            if block.offset + block.length >= length {
                (
                    DownloadStep::AwaitingBlock { block },
                    DownloadAction::StoreAndFinish { offset: block.offset },
                )
            } else {
                match spec_block(
                    block.piece_index as usize,
                    length,
                    block.offset / BLOCK_SIZE + 1,
                ) {
                    Some(next) => (
                        DownloadStep::AwaitingBlock { block: next },
                        DownloadAction::StoreAndRequest { offset: block.offset, next },
                    ),
                    None => (
                        DownloadStep::AwaitingBlock { block },
                        DownloadAction::Fail { reason: DownloadFailure::InvalidBlock },
                    ),
                }
            }
        } else {
            (
                DownloadStep::AwaitingBlock { block },
                DownloadAction::Fail { reason: DownloadFailure::UnexpectedBlock },
            )
        },
        Message::Choke => (
            DownloadStep::AwaitingBlock { block },
            DownloadAction::Fail { reason: DownloadFailure::Choked },
        ),
        _ => (DownloadStep::AwaitingBlock { block }, DownloadAction::Wait),
    }
}

/// Block `block_index` of a piece of `length` bytes.
pub fn block_at(piece_index: usize, length: u64, block_index: u64) -> (r: Option<BlockInfo>)
    ensures
        r == spec_block(piece_index, length, block_index as int),
{
    if piece_index > u32::MAX as usize || block_index > (u32::MAX / BLOCK_SIZE) as u64 {
        return None;
    }
    let offset: u32 = (block_index as u32) * BLOCK_SIZE;
    if offset as u64 >= length {
        return None;
    }
    let left: u64 = length - offset as u64;
    let block_length: u32 = if left < BLOCK_SIZE as u64 {
        left as u32
    } else {
        BLOCK_SIZE
    };
    Some(BlockInfo::new(piece_index as u32, offset, block_length))
}

/// The next step and action of the download of piece `piece_index`, of
/// `length` bytes, after `message` came in at `step`.
pub fn on_message(step: DownloadStep, piece_index: usize, length: u64, message: &PeerMessage) -> (r:
    (DownloadStep, DownloadAction))
    ensures
        r == match step {
            DownloadStep::AwaitingUnchoke => spec_awaiting_unchoke(piece_index, length, message@),
            DownloadStep::AwaitingBlock { block } => spec_awaiting_block(length, block, message@),
        },
{
    match step {
        DownloadStep::AwaitingUnchoke => match message {
            PeerMessage::Unchoke => {
                if length == 0 {
                    return (DownloadStep::AwaitingUnchoke, DownloadAction::Finish);
                }
                match block_at(piece_index, length, 0) {
                    Some(block) => (
                        DownloadStep::AwaitingBlock { block },
                        DownloadAction::Request { block },
                    ),
                    None => (
                        DownloadStep::AwaitingUnchoke,
                        DownloadAction::Fail { reason: DownloadFailure::InvalidBlock },
                    ),
                }
            },
            PeerMessage::Choke => (
                DownloadStep::AwaitingUnchoke,
                DownloadAction::Fail { reason: DownloadFailure::Choked },
            ),
            _ => (DownloadStep::AwaitingUnchoke, DownloadAction::Wait),
        },
        DownloadStep::AwaitingBlock { block } => match message {
            PeerMessage::Piece { piece_index: received_index, offset, data } => {
                if *received_index != block.piece_index || *offset != block.offset || data.len()
                    != block.length as usize {
                    return (
                        DownloadStep::AwaitingBlock { block },
                        DownloadAction::Fail { reason: DownloadFailure::UnexpectedBlock },
                    );
                }
                if block.offset as u64 + block.length as u64 >= length {
                    return (
                        DownloadStep::AwaitingBlock { block },
                        DownloadAction::StoreAndFinish { offset: block.offset },
                    );
                }
                match block_at(
                    block.piece_index as usize,
                    length,
                    (block.offset / BLOCK_SIZE) as u64 + 1,
                ) {
                    Some(next) => (
                        DownloadStep::AwaitingBlock { block: next },
                        DownloadAction::StoreAndRequest { offset: block.offset, next },
                    ),
                    None => (
                        DownloadStep::AwaitingBlock { block },
                        DownloadAction::Fail { reason: DownloadFailure::InvalidBlock },
                    ),
                }
            },
            PeerMessage::Choke => (
                DownloadStep::AwaitingBlock { block },
                DownloadAction::Fail { reason: DownloadFailure::Choked },
            ),
            _ => (DownloadStep::AwaitingBlock { block }, DownloadAction::Wait),
        },
    }
}

} // verus!
