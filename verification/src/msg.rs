use vstd::prelude::*;

verus! {

/// What an enclosing host needs to set the aggregator up: the address of
/// the staking authority that assigns voting power and pushes stake-change
/// hooks.
#[derive(Clone, Debug, PartialEq, Eq)]
pub struct InstantiateMsg {
    /// The staking contract to assign voting power based on.
    pub cw721_staked: String,
}

/// A stake-change notification pushed by the staking authority.
#[derive(Clone, Debug, PartialEq, Eq)]
pub enum StakeChangeHook {
    /// One token was staked by `addr`.
    Stake { addr: String, token_id: String },
    /// The listed tokens were unstaked by `addr`.
    Unstake { addr: String, token_ids: Vec<String> },
}

/// What can be read back: a page of the recorded per-member preferences, or
/// the current setpoint — the weighted average of all preferences.
#[derive(Clone, Debug, PartialEq, Eq)]
pub enum QueryMsg {
    Preferences { start_after: Option<String>, limit: Option<u32> },
    Setpoint {},
}

} // verus!
