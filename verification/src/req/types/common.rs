//! Response types for the utility endpoints.

use vstd::prelude::*;

verus! {

/// One model entry of the model list.
#[derive(Debug, Clone, PartialEq, Eq)]
pub struct ModelInfo {
    /// The model identifier, e.g. `"deepseek-v4-flash"`.
    pub id: String,
    /// Object type, always `"model"`.
    pub object: String,
    /// Owning organization, e.g. `"deepseek"`.
    pub owned_by: String,
}

/// Account balance.
#[derive(Debug, Clone, PartialEq, Eq)]
pub struct Balance {
    /// Whether the account currently has balance available for API calls.
    pub is_available: bool,
    /// Per-currency balance details.
    pub balance_infos: Vec<BalanceInfo>,
}

/// A per-currency balance breakdown within [`Balance`].
#[derive(Debug, Clone, PartialEq, Eq)]
pub struct BalanceInfo {
    /// Currency code, `"CNY"` or `"USD"`.
    pub currency: String,
    /// Total available balance (granted plus topped-up).
    pub total_balance: String,
    /// Unexpired granted balance.
    pub granted_balance: String,
    /// Topped-up (paid) balance.
    pub topped_up_balance: String,
}

} // verus!
