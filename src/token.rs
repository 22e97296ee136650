//! Registered synthetic assets.
use vstd::prelude::*;

verus! {

/// A synthetic asset that tracks the price of `asset_address`, issued as the
/// token `token_resource_address`.
#[derive(Debug)]
pub struct SyntheticToken {
    /// The symbol of the asset, unique within a pool.
    pub asset_symbol: String,
    /// The address of the underlying asset, whose price the token follows.
    pub asset_address: u64,
    /// The address of the synthetic token itself.
    pub token_resource_address: u64,
    /// How many attos of the synthetic token are in circulation.
    pub circulating_supply: u128,
}

/// The same asset with `supply` in circulation.
pub open spec fn with_supply(t: SyntheticToken, supply: u128) -> SyntheticToken {
    SyntheticToken { circulating_supply: supply, ..t }
}

impl SyntheticToken {
    /// A newly registered asset, with nothing in circulation.
    pub fn new(asset_symbol: String, asset_address: u64, token_resource_address: u64) -> (r: Self)
        ensures
            r.asset_symbol == asset_symbol,
            r.asset_address == asset_address,
            r.token_resource_address == token_resource_address,
            r.circulating_supply == 0,
    {
        SyntheticToken { asset_symbol, asset_address, token_resource_address, circulating_supply: 0 }
    }

    /// This asset with `supply` in circulation.
    pub fn with_circulating_supply(&self, supply: u128) -> (r: Self)
        ensures
            r == with_supply(*self, supply),
    {
        SyntheticToken {
            asset_symbol: self.asset_symbol.clone(),
            asset_address: self.asset_address,
            token_resource_address: self.token_resource_address,
            circulating_supply: supply,
        }
    }
}

} // verus!
