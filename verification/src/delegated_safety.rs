//! Runtime switches for EIP-7702 delegated accounts.

use vstd::prelude::*;

verus! {

/// Block-scoped runtime switches for the two EIP-7702 protections.
///
/// The switches are independent because delegated CREATE changes an EOA's nonce, while the
/// balance guard handles value movement that admission filtering cannot see without execution.
#[derive(Clone, Copy, Debug, PartialEq, Eq, Structural)]
pub struct DelegatedSafetyConfig {
    /// Rejects CREATE and CREATE2 in an EIP-7702 delegated account's execution context.
    pub forbid_delegated_create: bool,
    /// Prevents delegated execution from consuming funds needed by later transactions.
    pub reserve_delegated_balance: bool,
}

impl Default for DelegatedSafetyConfig {
    fn default() -> (config: Self)
        ensures
            config == (DelegatedSafetyConfig {
                forbid_delegated_create: false,
                reserve_delegated_balance: false,
            }),
    {
        DelegatedSafetyConfig::disabled()
    }
}

impl DelegatedSafetyConfig {
    /// Disables both protections and preserves upstream revm semantics.
    pub fn disabled() -> (config: Self)
        ensures
            config == (DelegatedSafetyConfig {
                forbid_delegated_create: false,
                reserve_delegated_balance: false,
            }),
    {
        DelegatedSafetyConfig { forbid_delegated_create: false, reserve_delegated_balance: false }
    }

    /// Enables only the delegated CREATE/CREATE2 guard.
    pub fn create_only() -> (config: Self)
        ensures
            config == (DelegatedSafetyConfig {
                forbid_delegated_create: true,
                reserve_delegated_balance: false,
            }),
    {
        DelegatedSafetyConfig { forbid_delegated_create: true, reserve_delegated_balance: false }
    }

    /// Enables only delegated balance protection.
    pub fn reserve_only() -> (config: Self)
        ensures
            config == (DelegatedSafetyConfig {
                forbid_delegated_create: false,
                reserve_delegated_balance: true,
            }),
    {
        DelegatedSafetyConfig { forbid_delegated_create: false, reserve_delegated_balance: true }
    }

    /// Enables both protections.
    pub fn enabled() -> (config: Self)
        ensures
            config == (DelegatedSafetyConfig {
                forbid_delegated_create: true,
                reserve_delegated_balance: true,
            }),
    {
        DelegatedSafetyConfig { forbid_delegated_create: true, reserve_delegated_balance: true }
    }
}

} // verus!
