//! The chain store: one chain of blocks for each live symbol, under two
//! capacities.
//!
//! The store is a map from symbol to chain. At most `symbol_capacity` symbols
//! are live at a time, and a chain keeps its last `chain_capacity` blocks.
//! Both bounds are part of the invariant of the store's type, so that no
//! operation asks anything of the store it is called on.

use crate::blockchain::{
    block_views, chain_admits, chain_linked, keep_last, last_two, lemma_chain_after_linked,
    lemma_keep_last_linked, next_block, BlockView, TradeBlock, TradeBlockchain,
};
use crate::blockchain::current_timestamp;
use crate::dto::{Trade, TradeStatus, TradeView};
use crate::text::text_eq;
use vstd::prelude::*;
use vstd::string::*;

verus! {

/// The store as a map, with its two capacities.
pub struct ChainsView {
    pub symbol_capacity: nat,
    pub chain_capacity: nat,
    pub chains: Map<Seq<char>, Seq<BlockView>>,
}

/// A store without chains.
pub open spec fn empty_store(symbol_capacity: nat, chain_capacity: nat) -> ChainsView {
    ChainsView { symbol_capacity, chain_capacity, chains: Map::empty() }
}

/// The chain of `symbol`; the empty chain where the symbol is not live.
pub open spec fn chain_or_empty(store: ChainsView, symbol: Seq<char>) -> Seq<BlockView> {
    if store.chains.dom().contains(symbol) {
        store.chains[symbol]
    } else {
        Seq::empty()
    }
}

/// Whether the store takes `trade` for `symbol`: the symbol is live or there
/// is room for one more, and the symbol's chain admits the record.
pub open spec fn store_admits(store: ChainsView, symbol: Seq<char>, trade: TradeView) -> bool {
    &&& store.chains.dom().contains(symbol) || store.chains.dom().len() < store.symbol_capacity
    &&& chain_admits(chain_or_empty(store, symbol), trade)
}

/// The store after an attempt to append `trade` to the chain of `symbol` at
/// the time `timestamp`: where the store admits the record, the chain gets a
/// new block and is cut back to its capacity from the front.
pub open spec fn store_after_append(
    store: ChainsView,
    symbol: Seq<char>,
    trade: TradeView,
    timestamp: u64,
) -> ChainsView {
    if store_admits(store, symbol, trade) {
        let chain = chain_or_empty(store, symbol);
        let grown = chain.push(next_block(chain, trade, timestamp));
        ChainsView {
            chains: store.chains.insert(symbol, keep_last(grown, store.chain_capacity)),
            ..store
        }
    } else {
        store
    }
}

/// The store without the chain of `symbol`.
pub open spec fn store_after_drop(store: ChainsView, symbol: Seq<char>) -> ChainsView {
    ChainsView { chains: store.chains.remove(symbol), ..store }
}

/// Every chain of the store is linked.
pub open spec fn store_linked(store: ChainsView) -> bool {
    forall|symbol: Seq<char>| #[trigger]
        store.chains.dom().contains(symbol) ==> chain_linked(store.chains[symbol])
}

/// The store keeps within its capacities.
pub open spec fn store_bounded(store: ChainsView) -> bool {
    &&& store.chains.dom().finite()
    &&& store.chains.dom().len() <= store.symbol_capacity
    &&& forall|symbol: Seq<char>| #[trigger]
        store.chains.dom().contains(symbol) ==> store.chains[symbol].len()
            <= store.chain_capacity
}

#[derive(Debug)]
struct SymbolChain {
    symbol: String,
    chain: TradeBlockchain,
}

/// Per-symbol chains of trade blocks.
#[derive(Debug)]
pub struct ChainStore {
    symbol_capacity: usize,
    chain_capacity: usize,
    entries: Vec<SymbolChain>,
}

spec fn holds_symbol(entries: Seq<SymbolChain>, symbol: Seq<char>) -> bool {
    exists|i: int| 0 <= i < entries.len() && (#[trigger] entries[i]).symbol@ == symbol
}

spec fn position_of(entries: Seq<SymbolChain>, symbol: Seq<char>) -> int {
    choose|i: int| 0 <= i < entries.len() && (#[trigger] entries[i]).symbol@ == symbol
}

spec fn distinct_symbols(entries: Seq<SymbolChain>) -> bool {
    forall|i: int, j: int|
        0 <= i < entries.len() && 0 <= j < entries.len() && (#[trigger] entries[i]).symbol@ == (
        #[trigger] entries[j]).symbol@ ==> i == j
}

spec fn entries_map(entries: Seq<SymbolChain>) -> Map<Seq<char>, Seq<BlockView>> {
    Map::new(
        |symbol: Seq<char>| holds_symbol(entries, symbol),
        |symbol: Seq<char>| entries[position_of(entries, symbol)].chain@,
    )
}

impl View for ChainStore {
    type V = ChainsView;

    closed spec fn view(&self) -> ChainsView {
        ChainsView {
            symbol_capacity: self.symbol_capacity as nat,
            chain_capacity: self.chain_capacity as nat,
            chains: entries_map(self.entries@),
        }
    }
}

/// Without entries the map is empty.
proof fn lemma_no_entries()
    ensures
        entries_map(Seq::<SymbolChain>::empty()) == Map::<Seq<char>, Seq<BlockView>>::empty(),
{
    assert(entries_map(Seq::<SymbolChain>::empty()) =~= Map::<Seq<char>, Seq<BlockView>>::empty());
}

/// What the map holds for the symbol of an entry, where no two entries share
/// a symbol.
proof fn lemma_entry_in_map(entries: Seq<SymbolChain>, i: int)
    requires
        distinct_symbols(entries),
        0 <= i < entries.len(),
    ensures
        entries_map(entries).dom().contains(entries[i].symbol@),
        entries_map(entries)[entries[i].symbol@] == entries[i].chain@,
{
    assert(holds_symbol(entries, entries[i].symbol@));
}

/// A symbol that no entry carries is not in the map.
proof fn lemma_symbol_not_in_map(entries: Seq<SymbolChain>, symbol: Seq<char>)
    requires
        forall|i: int| 0 <= i < entries.len() ==> (#[trigger] entries[i]).symbol@ != symbol,
    ensures
        !entries_map(entries).dom().contains(symbol),
{
}

/// Adding an entry with a new symbol inserts its chain into the map.
proof fn lemma_push_entry(entries: Seq<SymbolChain>, entry: SymbolChain)
    requires
        distinct_symbols(entries),
        !holds_symbol(entries, entry.symbol@),
    ensures
        distinct_symbols(entries.push(entry)),
        entries_map(entries.push(entry)) == entries_map(entries).insert(
            entry.symbol@,
            entry.chain@,
        ),
{
    let after = entries.push(entry);
    assert forall|i: int, j: int|
        0 <= i < after.len() && 0 <= j < after.len() && (#[trigger] after[i]).symbol@ == (
        #[trigger] after[j]).symbol@ implies i == j by {
        if i < entries.len() && j < entries.len() {
            assert(after[i] == entries[i]);
            assert(after[j] == entries[j]);
        } else if i < entries.len() {
            assert(after[i] == entries[i]);
        } else if j < entries.len() {
            assert(after[j] == entries[j]);
        }
    }
    let expected = entries_map(entries).insert(entry.symbol@, entry.chain@);
    assert forall|symbol: Seq<char>| #[trigger]
        entries_map(after).dom().contains(symbol) == expected.dom().contains(symbol) by {
        if holds_symbol(after, symbol) {
            let i = position_of(after, symbol);
            if i < entries.len() {
                assert(entries[i].symbol@ == symbol);
            }
        }
        if holds_symbol(entries, symbol) {
            let i = position_of(entries, symbol);
            assert(after[i].symbol@ == symbol);
        }
        if symbol == entry.symbol@ {
            assert(after[entries.len() as int].symbol@ == symbol);
        }
    }
    assert forall|symbol: Seq<char>| #[trigger]
        entries_map(after).dom().contains(symbol) implies entries_map(after)[symbol]
        == expected[symbol] by {
        let i = position_of(after, symbol);
        lemma_entry_in_map(after, i);
        if i < entries.len() {
            assert(after[i] == entries[i]);
            lemma_entry_in_map(entries, i);
        }
    }
    assert(entries_map(after) =~= expected);
}

/// Taking out the entry at `i` removes its symbol from the map.
proof fn lemma_remove_entry(entries: Seq<SymbolChain>, i: int)
    requires
        distinct_symbols(entries),
        0 <= i < entries.len(),
    ensures
        distinct_symbols(entries.remove(i)),
        entries_map(entries.remove(i)) == entries_map(entries).remove(entries[i].symbol@),
{
    let after = entries.remove(i);
    assert forall|a: int, b: int|
        0 <= a < after.len() && 0 <= b < after.len() && (#[trigger] after[a]).symbol@ == (
        #[trigger] after[b]).symbol@ implies a == b by {
        let a0 = if a < i {
            a
        } else {
            a + 1
        };
        let b0 = if b < i {
            b
        } else {
            b + 1
        };
        assert(after[a] == entries[a0]);
        assert(after[b] == entries[b0]);
    }
    let expected = entries_map(entries).remove(entries[i].symbol@);
    assert forall|symbol: Seq<char>| #[trigger]
        entries_map(after).dom().contains(symbol) == expected.dom().contains(symbol) by {
        if holds_symbol(after, symbol) {
            let k = position_of(after, symbol);
            let k0 = if k < i {
                k
            } else {
                k + 1
            };
            assert(entries[k0].symbol@ == symbol);
        }
        if holds_symbol(entries, symbol) && symbol != entries[i].symbol@ {
            let k = position_of(entries, symbol);
            let k1 = if k < i {
                k
            } else {
                k - 1
            };
            assert(after[k1].symbol@ == symbol);
        }
    }
    assert forall|symbol: Seq<char>| #[trigger]
        entries_map(after).dom().contains(symbol) implies entries_map(after)[symbol]
        == expected[symbol] by {
        let k = position_of(after, symbol);
        let k0 = if k < i {
            k
        } else {
            k + 1
        };
        lemma_entry_in_map(after, k);
        assert(after[k] == entries[k0]);
        lemma_entry_in_map(entries, k0);
    }
    assert(entries_map(after) =~= expected);
}

impl ChainStore {
    /// The store holds no symbol twice, keeps within its capacities, and its
    /// map has as many symbols as the store has chains.
    #[verifier::type_invariant]
    spec fn wf(self) -> bool {
        &&& distinct_symbols(self.entries@)
        &&& self.entries@.len() <= self.symbol_capacity
        &&& entries_map(self.entries@).dom().finite()
        &&& entries_map(self.entries@).dom().len() == self.entries@.len()
        &&& forall|i: int|
            0 <= i < self.entries@.len() ==> (#[trigger] self.entries@[i]).chain@.len()
                <= self.chain_capacity
    }

    /// With no symbol twice and every chain within its capacity, the map is
    /// within the capacities.
    proof fn lemma_bounded(self)
        requires
            self.wf(),
        ensures
            store_bounded(self@),
    {
        assert forall|symbol: Seq<char>| #[trigger]
            self@.chains.dom().contains(symbol) implies self@.chains[symbol].len()
            <= self@.chain_capacity by {
            let i = position_of(self.entries@, symbol);
            lemma_entry_in_map(self.entries@, i);
        }
    }

    /// Takes the chains out of the store, which is left without any.
    fn take_entries(&mut self) -> (entries: Vec<SymbolChain>)
        ensures
            entries@ == old(self).entries@,
            final(self).entries@.len() == 0,
            final(self).symbol_capacity == old(self).symbol_capacity,
            final(self).chain_capacity == old(self).chain_capacity,
    {
        proof {
            lemma_no_entries();
        }
        let mut entries: Vec<SymbolChain> = Vec::new();
        std::mem::swap(&mut entries, &mut self.entries);
        entries
    }

    /// An empty store with the given capacities.
    pub fn new(symbol_capacity: usize, chain_capacity: usize) -> (store: Self)
        ensures
            store@ == empty_store(symbol_capacity as nat, chain_capacity as nat),
            store_bounded(store@),
    {
        proof {
            lemma_no_entries();
        }
        let store = ChainStore { symbol_capacity, chain_capacity, entries: Vec::new() };
        assert(store@.chains =~= Map::<Seq<char>, Seq<BlockView>>::empty());
        store
    }

    /// The most symbols that may be live at a time.
    pub fn symbol_capacity(&self) -> (n: usize)
        ensures
            n == self@.symbol_capacity,
    {
        self.symbol_capacity
    }

    /// The most blocks that a chain keeps.
    pub fn chain_capacity(&self) -> (n: usize)
        ensures
            n == self@.chain_capacity,
    {
        self.chain_capacity
    }

    /// The number of live symbols.
    pub fn len(&self) -> (n: usize)
        ensures
            n == self@.chains.dom().len(),
            store_bounded(self@),
    {
        proof {
            use_type_invariant(self);
            self.lemma_bounded();
        }
        self.entries.len()
    }

    fn find(&self, symbol: &str) -> (found: Option<usize>)
        ensures
            found is Some <==> self@.chains.dom().contains(symbol@),
            found matches Some(i) ==> i < self.entries@.len() && self.entries@[i as int].symbol@
                == symbol@ && self.entries@[i as int].chain@ == self@.chains[symbol@],
    {
        proof {
            use_type_invariant(self);
        }
        let mut i: usize = 0;
        while i < self.entries.len()
            invariant
                distinct_symbols(self.entries@),
                i <= self.entries@.len(),
                forall|j: int| 0 <= j < i ==> (#[trigger] self.entries@[j]).symbol@ != symbol@,
            decreases self.entries@.len() - i,
        {
            if text_eq(self.entries[i].symbol.as_str(), symbol) {
                proof {
                    lemma_entry_in_map(self.entries@, i as int);
                }
                return Some(i);
            }
            i = i + 1;
        }
        proof {
            lemma_symbol_not_in_map(self.entries@, symbol@);
        }
        None
    }

    /// Whether `symbol` has a chain.
    pub fn contains(&self, symbol: &str) -> (live: bool)
        ensures
            live == self@.chains.dom().contains(symbol@),
    {
        self.find(symbol).is_some()
    }

    /// Whether as many symbols are live as the store has room for.
    pub fn is_limit_reached(&self) -> (full: bool)
        ensures
            full == (self@.chains.dom().len() >= self@.symbol_capacity),
            full == (self@.chains.dom().len() == self@.symbol_capacity),
    {
        proof {
            use_type_invariant(self);
        }
        self.entries.len() >= self.symbol_capacity
    }

    /// The trade record of the last block of the chain of `symbol`.
    pub fn tail(&self, symbol: &str) -> (last: Option<Trade>)
        ensures
            chain_or_empty(self@, symbol@).len() == 0 ==> last is None,
            chain_or_empty(self@, symbol@).len() > 0 ==> last is Some && last->0@
                == chain_or_empty(self@, symbol@).last().trade,
    {
        match self.find(symbol) {
            Some(i) => self.entries[i].chain.get_last_trade(),
            None => None,
        }
    }

    /// The statuses of the last two blocks of the chain of `symbol`, the older
    /// first, where the chain has two.
    pub fn last_two_statuses(&self, symbol: &str) -> (pair: Option<
        (Option<TradeStatus>, Option<TradeStatus>),
    >)
        ensures
            pair == last_two(chain_or_empty(self@, symbol@)),
    {
        match self.find(symbol) {
            Some(i) => self.entries[i].chain.last_two_statuses(),
            None => None,
        }
    }

    /// Whether the chain of `symbol` is linked. A symbol without a chain has
    /// nothing to fail on.
    pub fn validate(&self, symbol: &str) -> (ok: bool)
        ensures
            ok == chain_linked(chain_or_empty(self@, symbol@)),
    {
        match self.find(symbol) {
            Some(i) => self.entries[i].chain.is_valid(),
            None => true,
        }
    }

    /// Appends `trade` to the chain of `symbol` as a block with the given
    /// timestamp, where the store admits it.
    pub fn try_append_at(&mut self, symbol: &str, trade: Trade, timestamp: u64) -> (admitted: bool)
        ensures
            admitted == store_admits(old(self)@, symbol@, trade@),
            final(self)@ == store_after_append(old(self)@, symbol@, trade@, timestamp),
            store_bounded(final(self)@),
    {
        proof {
            use_type_invariant(&*self);
            self.lemma_bounded();
        }
        let ghost before = self@;
        let ghost chain = chain_or_empty(before, symbol@);
        let ghost grown = chain.push(next_block(chain, trade@, timestamp));
        match self.find(symbol) {
            None => {
                if self.entries.len() >= self.symbol_capacity {
                    return false;
                }
                let mut fresh = TradeBlockchain::new();
                fresh.add_block_at(trade, timestamp);
                fresh.trim_front(self.chain_capacity);
                let entry = SymbolChain { symbol: symbol.to_owned(), chain: fresh };
                let mut entries = self.take_entries();
                proof {
                    assert(fresh@ == keep_last(grown, self.chain_capacity as nat));
                    lemma_push_entry(entries@, entry);
                }
                entries.push(entry);
                self.entries = entries;
                proof {
                    assert(self@.chains == before.chains.insert(symbol@, entry.chain@));
                    self.lemma_bounded();
                }
                true
            },
            Some(i) => {
                if !self.entries[i].chain.admits(&trade) {
                    return false;
                }
                let mut entries = self.take_entries();
                proof {
                    lemma_remove_entry(entries@, i as int);
                }
                let mut entry = entries.remove(i);
                entry.chain.add_block_at(trade, timestamp);
                entry.chain.trim_front(self.chain_capacity);
                proof {
                    assert(entry.chain@ == keep_last(grown, self.chain_capacity as nat));
                    assert(!holds_symbol(entries@, entry.symbol@)) by {
                        assert(!entries_map(entries@).dom().contains(entry.symbol@));
                    }
                    lemma_push_entry(entries@, entry);
                }
                entries.push(entry);
                self.entries = entries;
                proof {
                    assert(self@.chains =~= before.chains.insert(symbol@, entry.chain@));
                    assert(before.chains.dom().insert(symbol@) =~= before.chains.dom());
                    self.lemma_bounded();
                }
                true
            },
        }
    }

    /// Appends `trade` to the chain of `symbol` as a block stamped with the
    /// current time, where the store admits it.
    pub fn try_append(&mut self, symbol: &str, trade: Trade) -> (admitted: bool)
        ensures
            admitted == store_admits(old(self)@, symbol@, trade@),
            exists|timestamp: u64|
                final(self)@ == #[trigger] store_after_append(
                    old(self)@,
                    symbol@,
                    trade@,
                    timestamp,
                ),
            store_linked(old(self)@) ==> store_linked(final(self)@),
            store_bounded(final(self)@),
    {
        let timestamp = current_timestamp();
        proof {
            if store_linked(self@) {
                lemma_append_keeps_linked(self@, symbol@, trade@, timestamp);
            }
        }
        self.try_append_at(symbol, trade, timestamp)
    }

    /// Drops the whole chain of `symbol`.
    pub fn drop_chain(&mut self, symbol: &str)
        ensures
            final(self)@ == store_after_drop(old(self)@, symbol@),
            store_bounded(final(self)@),
    {
        proof {
            use_type_invariant(&*self);
        }
        match self.find(symbol) {
            None => {
                assert(self@.chains.remove(symbol@) =~= self@.chains);
            },
            Some(i) => {
                let mut entries = self.take_entries();
                proof {
                    lemma_remove_entry(entries@, i as int);
                }
                entries.remove(i);
                self.entries = entries;
            },
        }
        proof {
            use_type_invariant(&*self);
            self.lemma_bounded();
        }
    }

    /// The live symbols, each once.
    pub fn symbols(&self) -> (live: Vec<String>)
        ensures
            live@.len() == self@.chains.dom().len(),
            forall|i: int| 0 <= i < live@.len() ==> self@.chains.dom().contains(#[trigger] live@[i]@),
            forall|symbol: Seq<char>| #[trigger]
                self@.chains.dom().contains(symbol) ==> exists|i: int|
                    0 <= i < live@.len() && (#[trigger] live@[i])@ == symbol,
            forall|i: int, j: int|
                0 <= i < live@.len() && 0 <= j < live@.len() && (#[trigger] live@[i])@ == (
                #[trigger] live@[j])@ ==> i == j,
    {
        proof {
            use_type_invariant(self);
        }
        let mut live: Vec<String> = Vec::new();
        let mut i: usize = 0;
        while i < self.entries.len()
            invariant
                i <= self.entries@.len(),
                live@.len() == i,
                forall|j: int| 0 <= j < i ==> (#[trigger] live@[j])@ == self.entries@[j].symbol@,
            decreases self.entries@.len() - i,
        {
            live.push(self.entries[i].symbol.clone());
            i = i + 1;
        }
        proof {
            assert forall|k: int| 0 <= k < live@.len() implies self@.chains.dom().contains(
                #[trigger] live@[k]@,
            ) by {
                lemma_entry_in_map(self.entries@, k);
            }
            assert forall|symbol: Seq<char>| #[trigger]
                self@.chains.dom().contains(symbol) implies exists|k: int|
                0 <= k < live@.len() && (#[trigger] live@[k])@ == symbol by {
                let k = position_of(self.entries@, symbol);
                assert(live@[k]@ == symbol);
            }
            assert forall|a: int, b: int|
                0 <= a < live@.len() && 0 <= b < live@.len() && (#[trigger] live@[a])@ == (
                #[trigger] live@[b])@ implies a == b by {
                assert(self.entries@[a].symbol@ == self.entries@[b].symbol@);
            }
        }
        live
    }

    /// A copy of the blocks of the chain of `symbol`, oldest first.
    pub fn chain_of(&self, symbol: &str) -> (blocks: Option<Vec<TradeBlock>>)
        ensures
            blocks is Some <==> self@.chains.dom().contains(symbol@),
            blocks matches Some(copy) ==> block_views(copy@) == self@.chains[symbol@],
    {
        match self.find(symbol) {
            None => None,
            Some(i) => Some(copy_blocks(self.entries[i].chain.all())),
        }
    }

    /// Whether every chain is linked.
    pub fn validate_all(&self) -> (ok: bool)
        ensures
            ok == store_linked(self@),
    {
        proof {
            use_type_invariant(self);
        }
        let mut i: usize = 0;
        while i < self.entries.len()
            invariant
                distinct_symbols(self.entries@),
                i <= self.entries@.len(),
                forall|j: int| 0 <= j < i ==> chain_linked((#[trigger] self.entries@[j]).chain@),
            decreases self.entries@.len() - i,
        {
            if !self.entries[i].chain.is_valid() {
                proof {
                    let symbol = self.entries@[i as int].symbol@;
                    lemma_entry_in_map(self.entries@, i as int);
                    assert(self@.chains.dom().contains(symbol));
                    assert(!chain_linked(self@.chains[symbol]));
                }
                return false;
            }
            i = i + 1;
        }
        proof {
            assert forall|symbol: Seq<char>| #[trigger]
                self@.chains.dom().contains(symbol) implies chain_linked(self@.chains[symbol]) by {
                let k = position_of(self.entries@, symbol);
                lemma_entry_in_map(self.entries@, k);
            }
        }
        true
    }

    /// A copy of every chain with its symbol.
    pub fn all(&self) -> (snapshot: Vec<(String, Vec<TradeBlock>)>)
        ensures
            snapshot@.len() == self@.chains.dom().len(),
            forall|i: int|
                0 <= i < snapshot@.len() ==> self@.chains.dom().contains(
                    (#[trigger] snapshot@[i]).0@,
                ) && block_views(snapshot@[i].1@) == self@.chains[snapshot@[i].0@],
            forall|i: int, j: int|
                0 <= i < snapshot@.len() && 0 <= j < snapshot@.len() && (#[trigger] snapshot@[i]).0@
                    == (#[trigger] snapshot@[j]).0@ ==> i == j,
    {
        proof {
            use_type_invariant(self);
        }
        let mut snapshot: Vec<(String, Vec<TradeBlock>)> = Vec::new();
        let mut i: usize = 0;
        while i < self.entries.len()
            invariant
                i <= self.entries@.len(),
                snapshot@.len() == i,
                forall|j: int|
                    0 <= j < i ==> (#[trigger] snapshot@[j]).0@ == self.entries@[j].symbol@
                        && block_views(snapshot@[j].1@) == self.entries@[j].chain@,
            decreases self.entries@.len() - i,
        {
            let symbol = self.entries[i].symbol.clone();
            let blocks = copy_blocks(self.entries[i].chain.all());
            snapshot.push((symbol, blocks));
            i = i + 1;
        }
        proof {
            assert forall|k: int| 0 <= k < snapshot@.len() implies self@.chains.dom().contains(
                (#[trigger] snapshot@[k]).0@,
            ) && block_views(snapshot@[k].1@) == self@.chains[snapshot@[k].0@] by {
                lemma_entry_in_map(self.entries@, k);
            }
            assert forall|a: int, b: int|
                0 <= a < snapshot@.len() && 0 <= b < snapshot@.len() && (
                #[trigger] snapshot@[a]).0@ == (#[trigger] snapshot@[b]).0@ implies a == b by {
                assert(self.entries@[a].symbol@ == self.entries@[b].symbol@);
            }
        }
        snapshot
    }
}

/// A copy of a run of blocks.
pub fn copy_blocks(blocks: &[TradeBlock]) -> (copy: Vec<TradeBlock>)
    ensures
        block_views(copy@) == block_views(blocks@),
{
    let mut copy: Vec<TradeBlock> = Vec::new();
    let mut i: usize = 0;
    while i < blocks.len()
        invariant
            i <= blocks@.len(),
            copy@.len() == i,
            forall|j: int| 0 <= j < i ==> (#[trigger] copy@[j])@ == blocks@[j]@,
        decreases blocks@.len() - i,
    {
        copy.push(blocks[i].clone());
        i = i + 1;
    }
    assert(block_views(copy@) =~= block_views(blocks@));
    copy
}

/// An append keeps every chain linked.
pub proof fn lemma_append_keeps_linked(
    store: ChainsView,
    symbol: Seq<char>,
    trade: TradeView,
    timestamp: u64,
)
    requires
        store_linked(store),
    ensures
        store_linked(store_after_append(store, symbol, trade, timestamp)),
{
    let after = store_after_append(store, symbol, trade, timestamp);
    if store_admits(store, symbol, trade) {
        let chain = chain_or_empty(store, symbol);
        assert(chain_linked(chain));
        lemma_chain_after_linked(chain, trade, timestamp);
        lemma_keep_last_linked(chain.push(next_block(chain, trade, timestamp)), store.chain_capacity);
        assert forall|other: Seq<char>| #[trigger]
            after.chains.dom().contains(other) implies chain_linked(after.chains[other]) by {
            if other != symbol {
                assert(store.chains.dom().contains(other));
            }
        }
    }
}

/// An append keeps the store within its capacities.
pub proof fn lemma_append_keeps_bounded(
    store: ChainsView,
    symbol: Seq<char>,
    trade: TradeView,
    timestamp: u64,
)
    requires
        store_bounded(store),
    ensures
        store_bounded(store_after_append(store, symbol, trade, timestamp)),
{
    let after = store_after_append(store, symbol, trade, timestamp);
    if store_admits(store, symbol, trade) {
        assert forall|other: Seq<char>| #[trigger]
            after.chains.dom().contains(other) implies after.chains[other].len()
            <= after.chain_capacity by {
            if other != symbol {
                assert(store.chains.dom().contains(other));
            }
        }
    }
}

/// One call of `try_append`: the symbol, the record and the time of the call.
pub struct AppendCall {
    pub symbol: Seq<char>,
    pub trade: TradeView,
    pub timestamp: u64,
}

/// The store after a run of appends, made in order.
pub open spec fn store_after_appends(store: ChainsView, calls: Seq<AppendCall>) -> ChainsView
    decreases calls.len(),
{
    if calls.len() == 0 {
        store
    } else {
        let call = calls.last();
        store_after_append(
            store_after_appends(store, calls.drop_last()),
            call.symbol,
            call.trade,
            call.timestamp,
        )
    }
}

/// Whatever is appended to a fresh store, in whatever order and at whatever
/// times, every chain of the store stays linked and the store stays within
/// its capacities.
pub proof fn lemma_fresh_store_stays_valid(
    symbol_capacity: nat,
    chain_capacity: nat,
    calls: Seq<AppendCall>,
)
    ensures
        store_linked(store_after_appends(empty_store(symbol_capacity, chain_capacity), calls)),
        store_bounded(store_after_appends(empty_store(symbol_capacity, chain_capacity), calls)),
    decreases calls.len(),
{
    let fresh = empty_store(symbol_capacity, chain_capacity);
    if calls.len() > 0 {
        let call = calls.last();
        lemma_fresh_store_stays_valid(symbol_capacity, chain_capacity, calls.drop_last());
        let before = store_after_appends(fresh, calls.drop_last());
        lemma_append_keeps_linked(before, call.symbol, call.trade, call.timestamp);
        lemma_append_keeps_bounded(before, call.symbol, call.trade, call.timestamp);
    }
}

/// Of two appends in a row for one symbol with one status, the second is
/// turned away and leaves the store as the first left it, as long as a
/// chain keeps at least one block. Where the store admits the first, the
/// first record is the tail that turns the second away.
pub proof fn lemma_repeated_status_rejected(
    store: ChainsView,
    symbol: Seq<char>,
    first: TradeView,
    second: TradeView,
    first_time: u64,
    second_time: u64,
)
    requires
        store.chain_capacity >= 1,
        first.status == second.status,
    ensures
        ({
            let between = store_after_append(store, symbol, first, first_time);
            let after = store_after_append(between, symbol, second, second_time);
            &&& !store_admits(between, symbol, second)
            &&& after == between
            &&& chain_or_empty(after, symbol).len() == chain_or_empty(between, symbol).len()
            &&& store_admits(store, symbol, first) ==> chain_or_empty(between, symbol).len() >= 1
                && chain_or_empty(between, symbol).last().trade == first
        }),
{
    let between = store_after_append(store, symbol, first, first_time);
    if store_admits(store, symbol, first) {
        let chain = chain_or_empty(store, symbol);
        let grown = chain.push(next_block(chain, first, first_time));
        let kept = keep_last(grown, store.chain_capacity);
        assert(kept.last() == grown.last());
        assert(between.chains[symbol] == kept);
    } else {
        if store.chains.dom().contains(symbol) {
        } else {
            assert(store.chains.dom().len() >= store.symbol_capacity);
        }
    }
}

} // verus!
