//! Failures of the pool's operations.
use vstd::prelude::*;

verus! {

/// Why an operation was refused; a refused operation changes nothing.
#[derive(Clone, Copy, Debug, PartialEq, Eq, Structural)]
pub enum PoolError {
    /// A synthetic asset with this symbol or token address is already registered.
    DuplicateAsset,
    /// No synthetic asset is registered under this symbol or token address.
    UnknownAsset,
    /// The user has no account yet.
    AccountNotFound,
    /// The withdrawal exceeds the staked collateral.
    InsufficientCollateral,
    /// The account holds fewer debt shares than the burn removes.
    InsufficientShareBalance,
    /// The account's collateral would fall below the threshold.
    Undercollateralized,
    /// The price feed has no quote for an asset.
    PriceUnavailable,
    /// A value would not fit the fixed-point range.
    Overflow,
    /// The burn removes more of a synthetic asset than is in circulation.
    InsufficientSupply,
    /// Shares exist while the global debt is worth nothing, so no share price exists.
    ZeroGlobalDebt,
}

} // verus!
