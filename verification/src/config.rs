//! The settings that the engine runs under.

use crate::store::{empty_store, ChainStore};
use vstd::prelude::*;

verus! {

/// Live symbols that the store has room for where the settings name no
/// number.
pub const DEFAULT_SYMBOL_CAPACITY: usize = 1;

/// Blocks that a chain keeps where the settings name no number.
pub const DEFAULT_CHAIN_CAPACITY: usize = 1;

/// How the exchange is reached and used.
#[derive(Debug)]
pub struct BinanceSettings {
    pub base_url: String,
    pub future_url: String,
    pub future_url_v2: String,
    pub symbol: String,
    pub interval: String,
    pub limit: u32,
    pub leverage: u32,
    pub decide: bool,
}

/// The settings of the engine.
#[derive(Debug)]
pub struct Settings {
    pub binance: BinanceSettings,
    pub spy: bool,
    pub cryptos: Vec<String>,
    pub symbol_capacity: Option<usize>,
    pub chain_capacity: Option<usize>,
    pub show_details_monitor: Option<bool>,
}

/// The number that an optional setting stands for.
pub open spec fn setting_or(setting: Option<usize>, default: usize) -> usize {
    match setting {
        Some(n) => n,
        None => default,
    }
}

impl Settings {
    /// Live symbols that the store has room for.
    pub fn symbol_capacity(&self) -> (n: usize)
        ensures
            n == setting_or(self.symbol_capacity, DEFAULT_SYMBOL_CAPACITY),
    {
        match self.symbol_capacity {
            Some(n) => n,
            None => DEFAULT_SYMBOL_CAPACITY,
        }
    }

    /// Blocks that a chain keeps.
    pub fn chain_capacity(&self) -> (n: usize)
        ensures
            n == setting_or(self.chain_capacity, DEFAULT_CHAIN_CAPACITY),
    {
        match self.chain_capacity {
            Some(n) => n,
            None => DEFAULT_CHAIN_CAPACITY,
        }
    }

    /// Whether the monitor shows its detail columns.
    pub fn show_details(&self) -> (show: bool)
        ensures
            show == (self.show_details_monitor == Some(true)),
    {
        match self.show_details_monitor {
            Some(show) => show,
            None => false,
        }
    }

    /// An empty chain store with the capacities of the settings.
    pub fn new_store(&self) -> (store: ChainStore)
        ensures
            store@ == empty_store(
                setting_or(self.symbol_capacity, DEFAULT_SYMBOL_CAPACITY) as nat,
                setting_or(self.chain_capacity, DEFAULT_CHAIN_CAPACITY) as nat,
            ),
    {
        ChainStore::new(self.symbol_capacity(), self.chain_capacity())
    }
}

} // verus!
