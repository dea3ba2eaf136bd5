//! Hash-chained blocks of trade records, one chain for each symbol.
//!
//! A block's hash is the SHA-256 digest, in lower-case hexadecimal, of the
//! block's index and timestamp (eight bytes each, most significant first),
//! the canonical JSON text of its trade record, and the hash of the block
//! before it, the last two in UTF-8. The first block of a chain names `"0"`
//! as the hash before it.

use crate::digest::{hex_encode, lemma_lower_hex_len, lower_hex, sha256, sha256_digest};
use crate::dto::{same_status, Trade, TradeStatus, TradeView};
use crate::encoding::{canonical_json, to_canonical_json};
use std::time::{SystemTime, UNIX_EPOCH};
use vstd::prelude::*;
use vstd::string::*;
use vstd::utf8::encode_utf8;

verus! {

/// The number of characters in a hash: two for each byte of the digest.
pub const HASH_LEN: usize = 64;

/// One admitted trade record, sealed by its hash.
#[derive(Debug)]
pub struct TradeBlock {
    pub index: u64,
    pub timestamp: u64,
    pub trade: Trade,
    pub previous_hash: String,
    pub hash: String,
}

/// A [`TradeBlock`] with its texts as sequences of characters.
pub struct BlockView {
    pub index: u64,
    pub timestamp: u64,
    pub trade: TradeView,
    pub previous_hash: Seq<char>,
    pub hash: Seq<char>,
}

impl View for TradeBlock {
    type V = BlockView;

    open spec fn view(&self) -> BlockView {
        BlockView {
            index: self.index,
            timestamp: self.timestamp,
            trade: self.trade@,
            previous_hash: self.previous_hash@,
            hash: self.hash@,
        }
    }
}

/// The eight bytes of `x`, most significant first.
pub open spec fn be_bytes(x: u64) -> Seq<u8> {
    seq![
        (x / 0x100_0000_0000_0000) as u8,
        (x / 0x1_0000_0000_0000 % 0x100) as u8,
        (x / 0x100_0000_0000 % 0x100) as u8,
        (x / 0x1_0000_0000 % 0x100) as u8,
        (x / 0x100_0000 % 0x100) as u8,
        (x / 0x1_0000 % 0x100) as u8,
        (x / 0x100 % 0x100) as u8,
        (x % 0x100) as u8,
    ]
}

/// The bytes that a block's hash is taken over.
pub open spec fn block_preimage(
    index: u64,
    timestamp: u64,
    trade: TradeView,
    previous_hash: Seq<char>,
) -> Seq<u8> {
    be_bytes(index) + be_bytes(timestamp) + encode_utf8(canonical_json(trade)) + encode_utf8(
        previous_hash,
    )
}

/// The hash of a block with the given contents.
pub open spec fn block_hash(
    index: u64,
    timestamp: u64,
    trade: TradeView,
    previous_hash: Seq<char>,
) -> Seq<char> {
    lower_hex(sha256(block_preimage(index, timestamp, trade, previous_hash)))
}

/// The hash that a block carries is the hash of its contents.
pub open spec fn block_sealed(block: BlockView) -> bool {
    block.hash == block_hash(block.index, block.timestamp, block.trade, block.previous_hash)
}

/// The text that the first block of a chain names as the hash before it.
pub open spec fn genesis_previous_hash() -> Seq<char> {
    "0"@
}

/// The block at `i` names the hash of the block before it and is sealed.
pub open spec fn link_holds(chain: Seq<BlockView>, i: int) -> bool {
    chain[i].previous_hash == chain[i - 1].hash && block_sealed(chain[i])
}

/// Every block after the first names the hash of the block before it and is
/// sealed.
pub open spec fn chain_linked(chain: Seq<BlockView>) -> bool {
    forall|i: int| 1 <= i < chain.len() ==> #[trigger] link_holds(chain, i)
}

/// Whether a chain takes a record with this status: its last block, if it has
/// one, carries another status. The absent status equals itself.
pub open spec fn chain_admits(chain: Seq<BlockView>, trade: TradeView) -> bool {
    chain.len() == 0 || chain.last().trade.status != trade.status
}

/// The block that extends `chain` with `trade` at the time `timestamp`.
pub open spec fn next_block(chain: Seq<BlockView>, trade: TradeView, timestamp: u64) -> BlockView {
    let index = chain.len() as u64;
    let previous_hash = if chain.len() == 0 {
        genesis_previous_hash()
    } else {
        chain.last().hash
    };
    BlockView {
        index,
        timestamp,
        trade,
        previous_hash,
        hash: block_hash(index, timestamp, trade, previous_hash),
    }
}

/// The chain after an attempt to add `trade` at the time `timestamp`.
pub open spec fn chain_after(chain: Seq<BlockView>, trade: TradeView, timestamp: u64) -> Seq<
    BlockView,
> {
    if chain_admits(chain, trade) {
        chain.push(next_block(chain, trade, timestamp))
    } else {
        chain
    }
}

/// `SystemTime::now`, as whole seconds since the Unix epoch; 0 where the
/// clock stands before the epoch. Nothing is claimed of the value.
#[verifier::external_body]
pub(crate) fn current_timestamp() -> u64 {
    match SystemTime::now().duration_since(UNIX_EPOCH) {
        Ok(elapsed) => elapsed.as_secs(),
        Err(_) => 0,
    }
}

fn push_be_bytes(out: &mut Vec<u8>, x: u64)
    ensures
        final(out)@ == old(out)@ + be_bytes(x),
{
    let ghost before = out@;
    out.push((x / 0x100_0000_0000_0000) as u8);
    out.push((x / 0x1_0000_0000_0000 % 0x100) as u8);
    out.push((x / 0x100_0000_0000 % 0x100) as u8);
    out.push((x / 0x1_0000_0000 % 0x100) as u8);
    out.push((x / 0x100_0000 % 0x100) as u8);
    out.push((x / 0x1_0000 % 0x100) as u8);
    out.push((x / 0x100 % 0x100) as u8);
    out.push((x % 0x100) as u8);
    assert(out@ =~= before + be_bytes(x));
}

fn push_bytes(out: &mut Vec<u8>, bytes: &[u8])
    ensures
        final(out)@ == old(out)@ + bytes@,
{
    let ghost before = out@;
    let mut i: usize = 0;
    while i < bytes.len()
        invariant
            i <= bytes@.len(),
            out@ == before + bytes@.subrange(0, i as int),
        decreases bytes@.len() - i,
    {
        out.push(bytes[i]);
        assert(bytes@.subrange(0, i + 1) =~= bytes@.subrange(0, i as int).push(bytes@[i as int]));
        i = i + 1;
    }
    assert(bytes@.subrange(0, i as int) =~= bytes@);
}

/// Assembles the bytes that a block's hash is taken over.
pub fn hash_input(index: u64, timestamp: u64, trade: &Trade, previous_hash: &str) -> (data: Vec<u8>)
    ensures
        data@ == block_preimage(index, timestamp, trade@, previous_hash@),
{
    let mut data: Vec<u8> = Vec::new();
    push_be_bytes(&mut data, index);
    push_be_bytes(&mut data, timestamp);
    let json = to_canonical_json(trade);
    push_bytes(&mut data, json.as_str().as_bytes());
    push_bytes(&mut data, previous_hash.as_bytes());
    assert(data@ =~= block_preimage(index, timestamp, trade@, previous_hash@));
    data
}

impl Clone for TradeBlock {
    fn clone(&self) -> (copy: Self)
        ensures
            copy@ == self@,
    {
        TradeBlock {
            index: self.index,
            timestamp: self.timestamp,
            trade: self.trade.clone(),
            previous_hash: self.previous_hash.clone(),
            hash: self.hash.clone(),
        }
    }
}

impl TradeBlock {
    /// A sealed block stamped with the current time.
    pub fn new(index: u64, trade: Trade, previous_hash: String) -> (block: Self)
        ensures
            block@.index == index,
            block@.trade == trade@,
            block@.previous_hash == previous_hash@,
            block_sealed(block@),
            block@.hash.len() == HASH_LEN,
    {
        let timestamp = current_timestamp();
        TradeBlock::with_timestamp(index, timestamp, trade, previous_hash)
    }

    /// A sealed block with the given timestamp.
    pub fn with_timestamp(index: u64, timestamp: u64, trade: Trade, previous_hash: String) -> (block:
        Self)
        ensures
            block@ == (BlockView {
                index,
                timestamp,
                trade: trade@,
                previous_hash: previous_hash@,
                hash: block_hash(index, timestamp, trade@, previous_hash@),
            }),
            block@.hash.len() == HASH_LEN,
    {
        let hash = TradeBlock::calculate_hash(index, timestamp, &trade, previous_hash.as_str());
        TradeBlock { index, timestamp, trade, previous_hash, hash }
    }

    /// The hash of a block with the given contents.
    pub fn calculate_hash(index: u64, timestamp: u64, trade: &Trade, previous_hash: &str) -> (hash:
        String)
        ensures
            hash@ == block_hash(index, timestamp, trade@, previous_hash@),
            hash@.len() == HASH_LEN,
    {
        let data = hash_input(index, timestamp, trade, previous_hash);
        let digest = sha256_digest(data.as_slice());
        proof {
            lemma_lower_hex_len(digest@);
        }
        hex_encode(digest.as_slice())
    }

    /// Whether the hash that the block carries is the hash of its contents.
    pub fn is_sealed(&self) -> (ok: bool)
        ensures
            ok == block_sealed(self@),
    {
        let recalculated = TradeBlock::calculate_hash(
            self.index,
            self.timestamp,
            &self.trade,
            self.previous_hash.as_str(),
        );
        self.hash == recalculated
    }
}

/// The statuses of the last two blocks of a chain, the older first; absent
/// where the chain has fewer than two.
pub open spec fn last_two(chain: Seq<BlockView>) -> Option<(Option<TradeStatus>, Option<TradeStatus>)> {
    if chain.len() < 2 {
        None
    } else {
        Some((chain[chain.len() - 2].trade.status, chain[chain.len() - 1].trade.status))
    }
}

/// The views of a run of blocks.
pub open spec fn block_views(blocks: Seq<TradeBlock>) -> Seq<BlockView> {
    blocks.map_values(|b: TradeBlock| b@)
}

/// The last `capacity` blocks of a chain; the whole chain where it is no
/// longer than that.
pub open spec fn keep_last(chain: Seq<BlockView>, capacity: nat) -> Seq<BlockView> {
    if chain.len() <= capacity {
        chain
    } else {
        chain.subrange(chain.len() - capacity, chain.len() as int)
    }
}

/// The chain of one symbol: blocks in the order of their admission.
#[derive(Debug)]
pub struct TradeBlockchain {
    chain: Vec<TradeBlock>,
}

impl View for TradeBlockchain {
    type V = Seq<BlockView>;

    closed spec fn view(&self) -> Seq<BlockView> {
        block_views(self.chain@)
    }
}

impl TradeBlockchain {
    /// The empty chain.
    pub fn new() -> (chain: Self)
        ensures
            chain@ == Seq::<BlockView>::empty(),
    {
        let chain = TradeBlockchain { chain: Vec::new() };
        assert(chain@ =~= Seq::<BlockView>::empty());
        chain
    }

    /// A chain that holds the given blocks as they are, sealed or not.
    pub fn from_blocks(blocks: Vec<TradeBlock>) -> (chain: Self)
        ensures
            chain@ == block_views(blocks@),
    {
        TradeBlockchain { chain: blocks }
    }

    /// The number of blocks.
    pub fn len(&self) -> (n: usize)
        ensures
            n == self@.len(),
    {
        self.chain.len()
    }

    /// Adds `trade` as a new block stamped with the current time, unless the
    /// last block carries the same status.
    pub fn add_block(&mut self, trade: Trade) -> (admitted: bool)
        ensures
            admitted == chain_admits(old(self)@, trade@),
            !admitted ==> final(self)@ == old(self)@,
            admitted ==> final(self)@ == old(self)@.push(
                next_block(old(self)@, trade@, final(self)@.last().timestamp),
            ),
            chain_linked(old(self)@) ==> chain_linked(final(self)@),
    {
        let timestamp = current_timestamp();
        proof {
            if chain_linked(self@) {
                lemma_chain_after_linked(self@, trade@, timestamp);
            }
        }
        self.add_block_at(trade, timestamp)
    }

    /// Adds `trade` as a new block with the given timestamp, unless the last
    /// block carries the same status.
    pub fn add_block_at(&mut self, trade: Trade, timestamp: u64) -> (admitted: bool)
        ensures
            admitted == chain_admits(old(self)@, trade@),
            final(self)@ == chain_after(old(self)@, trade@, timestamp),
    {
        let n = self.chain.len();
        if n > 0 {
            if same_status(self.chain[n - 1].trade.status, trade.status) {
                return false;
            }
        }
        let previous_hash = if n > 0 {
            self.chain[n - 1].hash.clone()
        } else {
            "0".to_string()
        };
        let ghost before = self@;
        let block = TradeBlock::with_timestamp(n as u64, timestamp, trade, previous_hash);
        self.chain.push(block);
        assert(self@ =~= before.push(next_block(before, trade@, timestamp)));
        true
    }

    /// Whether the chain takes `trade`: it is empty, or its last block
    /// carries another status.
    pub fn admits(&self, trade: &Trade) -> (ok: bool)
        ensures
            ok == chain_admits(self@, trade@),
    {
        let n = self.chain.len();
        if n == 0 {
            true
        } else {
            !same_status(self.chain[n - 1].trade.status, trade.status)
        }
    }

    /// The statuses of the last two blocks, the older first, where the chain
    /// has two.
    pub fn last_two_statuses(&self) -> (pair: Option<(Option<TradeStatus>, Option<TradeStatus>)>)
        ensures
            pair == last_two(self@),
    {
        let n = self.chain.len();
        if n < 2 {
            None
        } else {
            Some((self.chain[n - 2].trade.status, self.chain[n - 1].trade.status))
        }
    }

    /// The trade record of the last block.
    pub fn get_last_trade(&self) -> (last: Option<Trade>)
        ensures
            self@.len() == 0 ==> last is None,
            self@.len() > 0 ==> last is Some && last->0@ == self@.last().trade,
    {
        let n = self.chain.len();
        if n == 0 {
            None
        } else {
            Some(self.chain[n - 1].trade.clone())
        }
    }

    /// Whether every block after the first names the hash of the block before
    /// it and carries the hash of its own contents.
    pub fn is_valid(&self) -> (ok: bool)
        ensures
            ok == chain_linked(self@),
    {
        let n = self.chain.len();
        let mut i: usize = 1;
        while i < n
            invariant
                1 <= i,
                n == self.chain@.len(),
                n == self@.len(),
                forall|j: int| 1 <= j < i && j < n ==> #[trigger] link_holds(self@, j),
            decreases n - i,
        {
            let current = &self.chain[i];
            let previous = &self.chain[i - 1];
            assert(self@[i as int] == current@);
            assert(self@[i - 1] == previous@);
            if !(current.previous_hash == previous.hash) {
                assert(!link_holds(self@, i as int));
                return false;
            }
            if !current.is_sealed() {
                assert(!link_holds(self@, i as int));
                return false;
            }
            assert(link_holds(self@, i as int));
            i = i + 1;
        }
        true
    }

    /// The blocks, oldest first.
    pub fn all(&self) -> (blocks: &[TradeBlock])
        ensures
            block_views(blocks@) == self@,
    {
        self.chain.as_slice()
    }

    /// Drops blocks from the front until at most `capacity` are left.
    pub fn trim_front(&mut self, capacity: usize)
        ensures
            final(self)@ == keep_last(old(self)@, capacity as nat),
    {
        let ghost before = self@;
        let ghost total = self.chain@.len();
        assert(self@ =~= before.subrange(0, total as int));
        while self.chain.len() > capacity
            invariant
                self.chain@.len() <= total,
                total == before.len(),
                self@.len() == self.chain@.len(),
                self@ == before.subrange(total - self.chain@.len(), total as int),
                total <= capacity ==> self.chain@.len() == total,
                total > capacity ==> self.chain@.len() >= capacity,
            decreases self.chain@.len(),
        {
            let ghost prior = self@;
            self.chain.remove(0);
            assert(self@ =~= prior.subrange(1, prior.len() as int));
            assert(self@ =~= before.subrange(total - self.chain@.len(), total as int));
        }
        assert(self@ =~= keep_last(before, capacity as nat));
    }
}

/// Adding a block keeps a linked chain linked.
pub proof fn lemma_chain_after_linked(chain: Seq<BlockView>, trade: TradeView, timestamp: u64)
    requires
        chain_linked(chain),
    ensures
        chain_linked(chain_after(chain, trade, timestamp)),
{
    let after = chain_after(chain, trade, timestamp);
    assert forall|i: int| 1 <= i < after.len() implies #[trigger] link_holds(after, i) by {
        if i < chain.len() {
            assert(link_holds(chain, i));
        }
    }
}

/// Every block carries its position in the chain as its index.
pub open spec fn chain_indexed(chain: Seq<BlockView>) -> bool {
    forall|i: int| 0 <= i < chain.len() ==> (#[trigger] chain[i]).index == i
}

/// As long as no block is dropped from the front, the indexes of a chain
/// count up from 0 without a gap.
pub proof fn lemma_chain_after_indexed(chain: Seq<BlockView>, trade: TradeView, timestamp: u64)
    requires
        chain_indexed(chain),
        chain.len() <= u64::MAX,
    ensures
        chain_indexed(chain_after(chain, trade, timestamp)),
{
    let after = chain_after(chain, trade, timestamp);
    assert forall|i: int| 0 <= i < after.len() implies (#[trigger] after[i]).index == i by {
        if i < chain.len() {
            assert(after[i] == chain[i]);
        }
    }
}

/// A record is admitted exactly where its status differs from that of the
/// last block; two records without a status in a row are one too many.
pub proof fn lemma_admission_rule(chain: Seq<BlockView>, trade: TradeView, timestamp: u64)
    requires
        chain.len() > 0,
    ensures
        chain_admits(chain, trade) <==> chain.last().trade.status != trade.status,
        chain.last().trade.status is None && trade.status is None ==> chain_after(
            chain,
            trade,
            timestamp,
        ) == chain,
        chain_admits(chain, trade) ==> chain_after(chain, trade, timestamp).len() == chain.len()
            + 1 && chain_after(chain, trade, timestamp).last().trade == trade,
{
}

/// Dropping blocks from the front keeps a linked chain linked.
pub proof fn lemma_keep_last_linked(chain: Seq<BlockView>, capacity: nat)
    requires
        chain_linked(chain),
    ensures
        chain_linked(keep_last(chain, capacity)),
{
    let kept = keep_last(chain, capacity);
    let offset = chain.len() - kept.len();
    assert forall|i: int| 1 <= i < kept.len() implies #[trigger] link_holds(kept, i) by {
        assert(link_holds(chain, i + offset));
    }
}

} // verus!
