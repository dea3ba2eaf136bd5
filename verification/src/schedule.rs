//! The scheduler: what one tick does to the chain store, and the switch that
//! starts and stops the ticking.
//!
//! A tick takes the records that were classified for the watchlist. Records
//! of symbols that were live when the tick began are offered to the store
//! first. Of the others, those that pass the entry filter are candidates for
//! promotion: they are shuffled and offered one by one until the store holds
//! as many symbols as it has room for. Every admitted record is mapped to an
//! intent, and the pruning rule is applied to its chain.

use crate::blockchain::current_timestamp;
use crate::decide::{decide, intent_for, Intent};
use crate::dto::{Bias, Trade, TradeView};
use crate::status_trade::{levels_of, read_levels};
use crate::store::{
    lemma_append_keeps_bounded, lemma_append_keeps_linked, store_admits, store_after_append,
    store_bounded, store_linked, ChainStore, ChainsView,
};
use crate::swap::{remove_if_out_of_zone, store_after_prune};
use crate::text::text_eq;
use rand::seq::SliceRandom;
use vstd::prelude::*;

verus! {

/// Seconds from the start of one tick to the start of the next.
pub const TICK_SECONDS: u64 = 50;

/// An intent for the exchange, with the symbol it is about.
#[derive(Debug)]
pub struct Dispatch {
    pub symbol: String,
    pub intent: Intent,
}

/// A [`Dispatch`] with its symbol as a sequence of characters.
pub struct DispatchView {
    pub symbol: Seq<char>,
    pub intent: Intent,
}

impl View for Dispatch {
    type V = DispatchView;

    open spec fn view(&self) -> DispatchView {
        DispatchView { symbol: self.symbol@, intent: self.intent }
    }
}

/// The store and the intents issued so far, in the course of a tick.
pub struct TickState {
    pub store: ChainsView,
    pub dispatches: Seq<DispatchView>,
}

/// The views of a run of records.
pub open spec fn trade_views(trades: Seq<Trade>) -> Seq<TradeView> {
    trades.map_values(|t: Trade| t@)
}

/// The views of a run of dispatches.
pub open spec fn dispatch_views(dispatches: Seq<Dispatch>) -> Seq<DispatchView> {
    dispatches.map_values(|d: Dispatch| d@)
}

/// The symbols that a list names.
pub open spec fn symbol_set(symbols: Seq<String>) -> Set<Seq<char>> {
    Set::new(|s: Seq<char>| exists|i: int| 0 <= i < symbols.len() && (#[trigger] symbols[i])@ == s)
}

/// The entry filter: whether a record of a symbol that is not live may be
/// promoted. A bullish record passes at or below zone 1, a bearish one at or
/// below zone 2, and either above zone 6 up to zone 7.
pub open spec fn is_entry_candidate(trade: TradeView) -> bool {
    let l = levels_of(trade);
    match trade.bias {
        Bias::Bullish => l.price <= l.zone_1 || (l.zone_6 < l.price && l.price <= l.zone_7),
        Bias::Bearish => l.price <= l.zone_2 || (l.zone_6 < l.price && l.price <= l.zone_7),
        Bias::Neutral => false,
    }
}

/// The records among `trades` that are candidates for promotion: their
/// symbol was not live and they pass the entry filter. Their order is kept.
pub open spec fn candidates_of(trades: Seq<TradeView>, active: Set<Seq<char>>) -> Seq<TradeView>
    decreases trades.len(),
{
    if trades.len() == 0 {
        Seq::empty()
    } else {
        let earlier = candidates_of(trades.drop_last(), active);
        let t = trades.last();
        if !active.contains(t.symbol) && is_entry_candidate(t) {
            earlier.push(t)
        } else {
            earlier
        }
    }
}

/// Whether as many symbols are live as the store has room for.
pub open spec fn limit_reached(store: ChainsView) -> bool {
    store.chains.dom().len() >= store.symbol_capacity
}

/// The state after `trade` has been offered to the store at the time `now`.
/// Where the store admits the record, the record is appended, the pruning
/// rule is applied, and, if deciding is switched on, the intent for the
/// record is issued. Otherwise nothing changes.
pub open spec fn offer(state: TickState, trade: TradeView, now: u64, deciding: bool) -> TickState {
    if store_admits(state.store, trade.symbol, trade) {
        TickState {
            store: store_after_prune(
                store_after_append(state.store, trade.symbol, trade, now),
                trade,
            ),
            dispatches: if deciding {
                state.dispatches.push(
                    DispatchView {
                        symbol: trade.symbol,
                        intent: intent_for(trade.bias, trade.status),
                    },
                )
            } else {
                state.dispatches
            },
        }
    } else {
        state
    }
}

/// The state after the records of the symbols in `active` have been offered,
/// in the order of `trades`.
pub open spec fn after_active(
    state: TickState,
    trades: Seq<TradeView>,
    active: Set<Seq<char>>,
    now: u64,
    deciding: bool,
) -> TickState
    decreases trades.len(),
{
    if trades.len() == 0 {
        state
    } else {
        let before = after_active(state, trades.drop_last(), active, now, deciding);
        let t = trades.last();
        if active.contains(t.symbol) {
            offer(before, t, now, deciding)
        } else {
            before
        }
    }
}

/// The state after the candidates have been offered in their order, up to
/// the first moment at which the store has no room for another symbol.
pub open spec fn after_promotion(
    state: TickState,
    candidates: Seq<TradeView>,
    now: u64,
    deciding: bool,
) -> TickState
    decreases candidates.len(),
{
    if candidates.len() == 0 || limit_reached(state.store) {
        state
    } else {
        after_promotion(
            offer(state, candidates[0], now, deciding),
            candidates.drop_first(),
            now,
            deciding,
        )
    }
}

/// The state after a whole tick, `order` being the candidates as the shuffle
/// left them.
pub open spec fn after_tick(
    store: ChainsView,
    trades: Seq<TradeView>,
    order: Seq<TradeView>,
    now: u64,
    deciding: bool,
) -> TickState {
    after_promotion(
        after_active(
            TickState { store, dispatches: Seq::empty() },
            trades,
            store.chains.dom(),
            now,
            deciding,
        ),
        order,
        now,
        deciding,
    )
}

/// Whether `symbol` is one of `symbols`.
pub fn is_listed(symbols: &Vec<String>, symbol: &str) -> (listed: bool)
    ensures
        listed == symbol_set(symbols@).contains(symbol@),
{
    let mut i: usize = 0;
    while i < symbols.len()
        invariant
            i <= symbols@.len(),
            forall|j: int| 0 <= j < i ==> (#[trigger] symbols@[j])@ != symbol@,
        decreases symbols@.len() - i,
    {
        if text_eq(symbols[i].as_str(), symbol) {
            return true;
        }
        i = i + 1;
    }
    false
}

/// Whether a record passes the entry filter.
pub fn is_candidate(trade: &Trade) -> (passes: bool)
    ensures
        passes == is_entry_candidate(trade@),
{
    let l = read_levels(trade);
    match trade.bias {
        Bias::Bullish => l.price <= l.zone_1 || (l.zone_6 < l.price && l.price <= l.zone_7),
        Bias::Bearish => l.price <= l.zone_2 || (l.zone_6 < l.price && l.price <= l.zone_7),
        Bias::Neutral => false,
    }
}

/// The records among `trades` whose symbol is not in `active` and that pass
/// the entry filter, in the order of `trades`.
pub fn select_candidates(trades: &Vec<Trade>, active: &Vec<String>) -> (candidates: Vec<Trade>)
    ensures
        trade_views(candidates@) == candidates_of(trade_views(trades@), symbol_set(active@)),
{
    let ghost views = trade_views(trades@);
    let ghost live = symbol_set(active@);
    let mut candidates: Vec<Trade> = Vec::new();
    let mut i: usize = 0;
    assert(trade_views(candidates@) =~= candidates_of(views.subrange(0, 0), live));
    while i < trades.len()
        invariant
            i <= trades@.len(),
            views == trade_views(trades@),
            live == symbol_set(active@),
            trade_views(candidates@) == candidates_of(views.subrange(0, i as int), live),
        decreases trades@.len() - i,
    {
        let ghost chosen = trade_views(candidates@);
        proof {
            assert(views.subrange(0, i + 1).drop_last() =~= views.subrange(0, i as int));
            assert(views.subrange(0, i + 1).last() == trades@[i as int]@);
        }
        if !is_listed(active, trades[i].symbol.as_str()) && is_candidate(&trades[i]) {
            candidates.push(trades[i].clone());
            assert(trade_views(candidates@) =~= chosen.push(trades@[i as int]@));
        }
        i = i + 1;
    }
    assert(views.subrange(0, trades@.len() as int) =~= views);
    candidates
}

/// `rand::seq::SliceRandom::shuffle` with the thread's generator: the same
/// records in some order. Which order is not said.
#[verifier::external_body]
pub(crate) fn shuffle_trades(trades: &mut Vec<Trade>)
    ensures
        trade_views(final(trades)@).to_multiset() == trade_views(old(trades)@).to_multiset(),
{
    trades.shuffle(&mut rand::thread_rng());
}

/// Offers `trade` to the store at the time `now`; see [`offer`].
pub fn offer_trade(
    store: &mut ChainStore,
    trade: &Trade,
    now: u64,
    deciding: bool,
    dispatches: &mut Vec<Dispatch>,
) -> (admitted: bool)
    ensures
        admitted == store_admits(old(store)@, trade@.symbol, trade@),
        (TickState { store: final(store)@, dispatches: dispatch_views(final(dispatches)@) })
            == offer(
            TickState { store: old(store)@, dispatches: dispatch_views(old(dispatches)@) },
            trade@,
            now,
            deciding,
        ),
{
    let ghost issued = dispatch_views(dispatches@);
    let admitted = store.try_append_at(trade.symbol.as_str(), trade.clone(), now);
    if admitted {
        if deciding {
            dispatches.push(Dispatch { symbol: trade.symbol.clone(), intent: decide(trade) });
            assert(dispatch_views(dispatches@) =~= issued.push(
                DispatchView {
                    symbol: trade@.symbol,
                    intent: intent_for(trade@.bias, trade@.status),
                },
            ));
        }
        remove_if_out_of_zone(store, trade);
    }
    admitted
}

/// Offers the records of the symbols in `active`, in the order of `trades`.
pub fn admit_active(
    store: &mut ChainStore,
    trades: &Vec<Trade>,
    active: &Vec<String>,
    now: u64,
    deciding: bool,
    dispatches: &mut Vec<Dispatch>,
)
    ensures
        (TickState { store: final(store)@, dispatches: dispatch_views(final(dispatches)@) })
            == after_active(
            TickState { store: old(store)@, dispatches: dispatch_views(old(dispatches)@) },
            trade_views(trades@),
            symbol_set(active@),
            now,
            deciding,
        ),
{
    let ghost start = TickState { store: store@, dispatches: dispatch_views(dispatches@) };
    let ghost views = trade_views(trades@);
    let ghost live = symbol_set(active@);
    let mut i: usize = 0;
    while i < trades.len()
        invariant
            i <= trades@.len(),
            views == trade_views(trades@),
            live == symbol_set(active@),
            (TickState { store: store@, dispatches: dispatch_views(dispatches@) }) == after_active(
                start,
                views.subrange(0, i as int),
                live,
                now,
                deciding,
            ),
        decreases trades@.len() - i,
    {
        proof {
            assert(views.subrange(0, i + 1).drop_last() =~= views.subrange(0, i as int));
            assert(views.subrange(0, i + 1).last() == trades@[i as int]@);
        }
        if is_listed(active, trades[i].symbol.as_str()) {
            offer_trade(store, &trades[i], now, deciding, dispatches);
        }
        i = i + 1;
    }
    assert(views.subrange(0, trades@.len() as int) =~= views);
}

/// Offers the candidates in their order until the store has no room for
/// another symbol.
pub fn promote_candidates(
    store: &mut ChainStore,
    candidates: &Vec<Trade>,
    now: u64,
    deciding: bool,
    dispatches: &mut Vec<Dispatch>,
)
    ensures
        (TickState { store: final(store)@, dispatches: dispatch_views(final(dispatches)@) })
            == after_promotion(
            TickState { store: old(store)@, dispatches: dispatch_views(old(dispatches)@) },
            trade_views(candidates@),
            now,
            deciding,
        ),
{
    let ghost start = TickState { store: store@, dispatches: dispatch_views(dispatches@) };
    let ghost views = trade_views(candidates@);
    let mut i: usize = 0;
    assert(views.subrange(0, views.len() as int) =~= views);
    while i < candidates.len()
        invariant
            i <= candidates@.len(),
            views == trade_views(candidates@),
            start == (TickState {
                store: old(store)@,
                dispatches: dispatch_views(old(dispatches)@),
            }),
            after_promotion(start, views, now, deciding) == after_promotion(
                TickState { store: store@, dispatches: dispatch_views(dispatches@) },
                views.subrange(i as int, views.len() as int),
                now,
                deciding,
            ),
        decreases candidates@.len() - i,
    {
        let ghost rest = views.subrange(i as int, views.len() as int);
        proof {
            assert(rest[0] == candidates@[i as int]@);
            assert(rest.drop_first() =~= views.subrange(i + 1, views.len() as int));
        }
        if store.is_limit_reached() {
            return ;
        }
        offer_trade(store, &candidates[i], now, deciding, dispatches);
        i = i + 1;
    }
}

/// One tick on the classified records of the watchlist: offers the records
/// of the live symbols, then shuffles the candidates and promotes them.
/// Returns the intents to dispatch, in the order in which they were issued.
///
/// The result is that of [`after_tick`] for the time at which the tick began
/// and for the order in which the shuffle left the candidates.
pub fn choose_crypto(store: &mut ChainStore, trades: Vec<Trade>, deciding: bool) -> (dispatches:
    Vec<Dispatch>)
    ensures
        exists|now: u64, order: Seq<TradeView>|
            order.to_multiset() == candidates_of(
                trade_views(trades@),
                old(store)@.chains.dom(),
            ).to_multiset() && (TickState {
                store: final(store)@,
                dispatches: dispatch_views(dispatches@),
            }) == #[trigger] after_tick(old(store)@, trade_views(trades@), order, now, deciding),
        store_valid(old(store)@) ==> store_valid(final(store)@),
{
    let now = current_timestamp();
    let active = store.symbols();
    let mut dispatches: Vec<Dispatch> = Vec::new();
    let ghost before = store@;
    proof {
        assert(symbol_set(active@) =~= before.chains.dom()) by {
            assert forall|s: Seq<char>| symbol_set(active@).contains(s) implies before.chains.dom().contains(s) by {
                let i = choose|i: int| 0 <= i < active@.len() && (#[trigger] active@[i])@ == s;
                assert(before.chains.dom().contains(active@[i]@));
            }
        }
        assert(dispatch_views(dispatches@) =~= Seq::<DispatchView>::empty());
    }
    let mut candidates = select_candidates(&trades, &active);
    admit_active(store, &trades, &active, now, deciding, &mut dispatches);
    shuffle_trades(&mut candidates);
    promote_candidates(store, &candidates, now, deciding, &mut dispatches);
    proof {
        let order = trade_views(candidates@);
        assert((TickState { store: store@, dispatches: dispatch_views(dispatches@) }) == after_tick(
            before,
            trade_views(trades@),
            order,
            now,
            deciding,
        ));
        if store_valid(before) {
            lemma_tick_keeps_valid(before, trade_views(trades@), order, now, deciding);
        }
    }
    dispatches
}

/// Linked chains within the capacities: what a store holds from the start and
/// every tick keeps.
pub open spec fn store_valid(store: ChainsView) -> bool {
    store_linked(store) && store_bounded(store)
}

/// Dropping a chain keeps the store valid.
pub proof fn lemma_prune_keeps_valid(store: ChainsView, trade: TradeView)
    requires
        store_valid(store),
    ensures
        store_valid(store_after_prune(store, trade)),
{
    let after = store_after_prune(store, trade);
    assert forall|s: Seq<char>| #[trigger] after.chains.dom().contains(s) implies store.chains.dom().contains(s) by {}
}

/// Offering a record keeps the store valid.
pub proof fn lemma_offer_keeps_valid(state: TickState, trade: TradeView, now: u64, deciding: bool)
    requires
        store_valid(state.store),
    ensures
        store_valid(offer(state, trade, now, deciding).store),
{
    lemma_append_keeps_linked(state.store, trade.symbol, trade, now);
    lemma_append_keeps_bounded(state.store, trade.symbol, trade, now);
    lemma_prune_keeps_valid(store_after_append(state.store, trade.symbol, trade, now), trade);
}

/// Offering the records of the live symbols keeps the store valid.
pub proof fn lemma_active_keeps_valid(
    state: TickState,
    trades: Seq<TradeView>,
    active: Set<Seq<char>>,
    now: u64,
    deciding: bool,
)
    requires
        store_valid(state.store),
    ensures
        store_valid(after_active(state, trades, active, now, deciding).store),
    decreases trades.len(),
{
    if trades.len() > 0 {
        lemma_active_keeps_valid(state, trades.drop_last(), active, now, deciding);
        lemma_offer_keeps_valid(
            after_active(state, trades.drop_last(), active, now, deciding),
            trades.last(),
            now,
            deciding,
        );
    }
}

/// Promotion keeps the store valid.
pub proof fn lemma_promotion_keeps_valid(
    state: TickState,
    candidates: Seq<TradeView>,
    now: u64,
    deciding: bool,
)
    requires
        store_valid(state.store),
    ensures
        store_valid(after_promotion(state, candidates, now, deciding).store),
    decreases candidates.len(),
{
    if candidates.len() > 0 && !limit_reached(state.store) {
        lemma_offer_keeps_valid(state, candidates[0], now, deciding);
        lemma_promotion_keeps_valid(
            offer(state, candidates[0], now, deciding),
            candidates.drop_first(),
            now,
            deciding,
        );
    }
}

/// A tick keeps every chain linked and the store within its capacities,
/// whatever the records, the time and the order of the candidates.
pub proof fn lemma_tick_keeps_valid(
    store: ChainsView,
    trades: Seq<TradeView>,
    order: Seq<TradeView>,
    now: u64,
    deciding: bool,
)
    requires
        store_valid(store),
    ensures
        store_valid(after_tick(store, trades, order, now, deciding).store),
{
    let start = TickState { store, dispatches: Seq::empty() };
    lemma_active_keeps_valid(start, trades, store.chains.dom(), now, deciding);
    lemma_promotion_keeps_valid(
        after_active(start, trades, store.chains.dom(), now, deciding),
        order,
        now,
        deciding,
    );
}

/// A store without room promotes nothing: no chain is created and no intent
/// is issued, whatever the candidates.
pub proof fn lemma_full_store_promotes_nothing(
    state: TickState,
    candidates: Seq<TradeView>,
    now: u64,
    deciding: bool,
)
    requires
        limit_reached(state.store),
    ensures
        after_promotion(state, candidates, now, deciding) == state,
{
}

/// A neutral record is no candidate: a symbol without enough history is
/// never promoted.
pub proof fn lemma_neutral_record_is_no_candidate(trade: TradeView)
    requires
        trade.bias == Bias::Neutral,
    ensures
        !is_entry_candidate(trade),
        forall|active: Set<Seq<char>>|
            candidates_of(seq![trade], active) == Seq::<TradeView>::empty(),
{
    assert forall|active: Set<Seq<char>>|
        candidates_of(seq![trade], active) == Seq::<TradeView>::empty() by {
        assert(seq![trade].drop_last() =~= Seq::<TradeView>::empty());
        assert(candidates_of(Seq::<TradeView>::empty(), active) =~= Seq::<TradeView>::empty());
    }
}

/// With deciding switched off, offering the records of the live symbols
/// issues no intent.
pub proof fn lemma_active_is_silent(
    state: TickState,
    trades: Seq<TradeView>,
    active: Set<Seq<char>>,
    now: u64,
)
    ensures
        after_active(state, trades, active, now, false).dispatches == state.dispatches,
    decreases trades.len(),
{
    if trades.len() > 0 {
        lemma_active_is_silent(state, trades.drop_last(), active, now);
    }
}

/// With deciding switched off, promotion issues no intent.
pub proof fn lemma_promotion_is_silent(state: TickState, candidates: Seq<TradeView>, now: u64)
    ensures
        after_promotion(state, candidates, now, false).dispatches == state.dispatches,
    decreases candidates.len(),
{
    if candidates.len() > 0 && !limit_reached(state.store) {
        lemma_promotion_is_silent(
            offer(state, candidates[0], now, false),
            candidates.drop_first(),
            now,
        );
    }
}

/// The switch of the scheduler: whether ticks are running.
#[derive(Debug)]
pub struct Scheduler {
    active: bool,
}

impl View for Scheduler {
    type V = bool;

    closed spec fn view(&self) -> bool {
        self.active
    }
}

impl Scheduler {
    /// A scheduler that is not running.
    pub fn new() -> (scheduler: Self)
        ensures
            !scheduler@,
    {
        Scheduler { active: false }
    }

    /// Whether ticks are running.
    pub fn is_active(&self) -> (active: bool)
        ensures
            active == self@,
    {
        self.active
    }

    /// Switches the ticking on. Tells whether a ticking task has to be
    /// started: it has not where one is running already.
    pub fn start(&mut self) -> (spawn: bool)
        ensures
            final(self)@,
            spawn == !old(self)@,
    {
        if self.active {
            return false;
        }
        self.active = true;
        true
    }

    /// Switches the ticking off. Tells whether a ticking task was running
    /// and has to be cancelled.
    pub fn stop(&mut self) -> (cancel: bool)
        ensures
            !final(self)@,
            cancel == old(self)@,
    {
        let was_active = self.active;
        self.active = false;
        was_active
    }
}

} // verus!
