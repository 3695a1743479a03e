use vstd::prelude::*;
use crate::block::{Block, BlockHeader};
use crate::crypto::{Hash32Type, PubkeyType};
use crate::transaction::Transaction;

verus! {

#[verifier::external_type_specification]
#[verifier::external_body]
#[verifier::reject_recursive_types(T)]
pub struct ExSender<T>(std::sync::mpsc::Sender<T>);

/// Hands `msg` to the channel with `std::sync::mpsc::Sender::send`; a closed
/// channel is ignored, as the node ignores peers that went away.
/// Nothing is stated: whether the message arrives depends on the receiver.
#[verifier::external_body]
pub(crate) fn send_message(sender: &std::sync::mpsc::Sender<ProtocolMessage>, msg: ProtocolMessage) {
    let _ = sender.send(msg);
}

/// What nodes say to each other.
#[derive(Debug)]
pub enum ProtocolMessage {
    /// First message on a new connection.
    Hello { peer_id: u32, pubkey: PubkeyType },
    /// Answer to `Hello`.
    HelloAck { peer_id: u32 },
    /// Asks for the height and last hash of the peer.
    GetStatus,
    /// Height and last block hash of the sender.
    Status { height: u64, last_block_hash: Hash32Type },
    /// Asks for at most `limit` blocks from height `start` on.
    GetBlocks { start: u64, limit: u32 },
    /// Blocks sent in answer to `GetBlocks`.
    Blocks { blocks: Vec<Block> },
    /// A transaction passed on.
    Trx(Transaction),
    /// A block passed on.
    Block(Block),
}

/// Two blocks with the same header and the same transactions.
pub open spec fn same_block(a: Block, b: Block) -> bool {
    a.header == b.header && a.transactions@ == b.transactions@
}

/// Two lists of blocks that agree block by block.
pub open spec fn same_blocks(a: Seq<Block>, b: Seq<Block>) -> bool {
    a.len() == b.len() && forall|i: int| 0 <= i < a.len() ==> same_block(#[trigger] a[i], b[i])
}

/// Two messages that carry the same content.
pub open spec fn same_message(a: ProtocolMessage, b: ProtocolMessage) -> bool {
    match (a, b) {
        (ProtocolMessage::Blocks { blocks: x }, ProtocolMessage::Blocks { blocks: y }) => same_blocks(
            x@,
            y@,
        ),
        (ProtocolMessage::Block(x), ProtocolMessage::Block(y)) => same_block(x, y),
        (ProtocolMessage::Blocks { .. }, _) => false,
        (ProtocolMessage::Block(_), _) => false,
        _ => a == b,
    }
}

/// The content of a block as a message carries it.
pub ghost struct BlockView {
    pub header: BlockHeader,
    pub transactions: Seq<Transaction>,
}

pub open spec fn block_view(b: Block) -> BlockView {
    BlockView { header: b.header, transactions: b.transactions@ }
}

/// The content of a message, as its receiver gets it.
pub ghost enum MessageView {
    Hello { peer_id: u32, pubkey: Seq<u8> },
    HelloAck { peer_id: u32 },
    GetStatus,
    Status { height: u64, last_block_hash: Seq<u8> },
    GetBlocks { start: u64, limit: u32 },
    Blocks(Seq<BlockView>),
    Trx(Transaction),
    Block(BlockView),
}

pub open spec fn message_view(m: ProtocolMessage) -> MessageView {
    match m {
        ProtocolMessage::Hello { peer_id, pubkey } => MessageView::Hello { peer_id, pubkey: pubkey@ },
        ProtocolMessage::HelloAck { peer_id } => MessageView::HelloAck { peer_id },
        ProtocolMessage::GetStatus => MessageView::GetStatus,
        ProtocolMessage::Status { height, last_block_hash } => MessageView::Status {
            height,
            last_block_hash: last_block_hash@,
        },
        ProtocolMessage::GetBlocks { start, limit } => MessageView::GetBlocks { start, limit },
        ProtocolMessage::Blocks { blocks } => MessageView::Blocks(
            blocks@.map_values(|b: Block| block_view(b)),
        ),
        ProtocolMessage::Trx(t) => MessageView::Trx(t),
        ProtocolMessage::Block(b) => MessageView::Block(block_view(b)),
    }
}

/// Messages with the same content look the same to their receiver.
pub proof fn lemma_same_message_view(a: ProtocolMessage, b: ProtocolMessage)
    requires
        same_message(a, b),
    ensures
        message_view(a) == message_view(b),
{
    match (a, b) {
        (ProtocolMessage::Blocks { blocks: x }, ProtocolMessage::Blocks { blocks: y }) => {
            assert(x@.map_values(|b: Block| block_view(b)) =~= y@.map_values(|b: Block| block_view(b)))
                by {
                assert forall|i: int| 0 <= i < x@.len() implies #[trigger] x@[i].transactions@
                    == y@[i].transactions@ by {
                    assert(same_block(x@[i], y@[i]));
                }
            }
        },
        _ => {},
    }
}

impl Clone for ProtocolMessage {
    fn clone(&self) -> (res: Self)
        ensures
            same_message(res, *self),
    {
        match self {
            ProtocolMessage::Hello { peer_id, pubkey } => ProtocolMessage::Hello {
                peer_id: *peer_id,
                pubkey: *pubkey,
            },
            ProtocolMessage::HelloAck { peer_id } => ProtocolMessage::HelloAck { peer_id: *peer_id },
            ProtocolMessage::GetStatus => ProtocolMessage::GetStatus,
            ProtocolMessage::Status { height, last_block_hash } => ProtocolMessage::Status {
                height: *height,
                last_block_hash: *last_block_hash,
            },
            ProtocolMessage::GetBlocks { start, limit } => ProtocolMessage::GetBlocks {
                start: *start,
                limit: *limit,
            },
            ProtocolMessage::Blocks { blocks } => {
                let copy = clone_blocks(blocks);
                ProtocolMessage::Blocks { blocks: copy }
            },
            ProtocolMessage::Trx(t) => ProtocolMessage::Trx(t.clone()),
            ProtocolMessage::Block(b) => ProtocolMessage::Block(b.clone()),
        }
    }
}

/// A block-by-block copy of `blocks`.
pub fn clone_blocks(blocks: &Vec<Block>) -> (res: Vec<Block>)
    ensures
        same_blocks(res@, blocks@),
{
    let mut out: Vec<Block> = Vec::new();
    let mut i: usize = 0;
    while i < blocks.len()
        invariant
            0 <= i <= blocks@.len(),
            out@.len() == i,
            forall|j: int| 0 <= j < i ==> same_block(#[trigger] out@[j], blocks@[j]),
        decreases blocks@.len() - i,
    {
        out.push(blocks[i].clone());
        i = i + 1;
    }
    out
}

/// What the transport reports about peers.
#[derive(Debug)]
pub enum TransportEvent {
    /// A message from a peer known by the id of its handshake.
    Message { peer_id: u32, msg: ProtocolMessage },
    /// A connection is up; `sender` reaches the peer.
    PeerConnected { peer_id: u32, sender: std::sync::mpsc::Sender<ProtocolMessage> },
    /// A connection went down.
    PeerDisconnected { peer_id: u32 },
}

} // verus!
