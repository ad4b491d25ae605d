//! Scheduler tuning and chain-sensitive execution profiles.

use crate::delegated_safety::DelegatedSafetyConfig;
use vstd::prelude::*;

verus! {

/// Policy for a transaction that is invalid against the ordered committed state.
///
/// EVM reverts and halts are valid executions and are unaffected by this policy.
#[derive(Clone, Copy, Debug, PartialEq, Eq, Structural)]
pub enum InvalidTransactionPolicy {
    /// Return the invalid transaction as an execution error.
    ///
    /// Use this for fixed blocks, where every transaction must be valid.
    Abort,
    /// Omit the invalid candidate without advancing the EIP-7928 block index.
    ///
    /// Use this while building a block from a transaction pool.
    Omit,
    /// Keep the invalid transaction as a block-positioned no-op.
    ///
    /// This is for protocols that encode invalid transactions as no-ops in the block.
    IncludeNoop,
}

impl Default for InvalidTransactionPolicy {
    fn default() -> (policy: Self)
        ensures
            policy == InvalidTransactionPolicy::Abort,
    {
        InvalidTransactionPolicy::Abort
    }
}

/// Worker count used when the host's parallelism is unknown.
pub const FALLBACK_CONCURRENCY: usize = 8;

/// Smallest block that is worth executing in parallel by default.
pub const DEFAULT_MIN_PARALLEL_TXS: usize = 64;

/// Performance-only scheduler settings.
///
/// These values select how work is scheduled; they never change transaction validity or EVM
/// semantics. Use an [`ExecutionProfile`] when constructing [`GrevmConfig`] so chain-specific
/// behavior cannot be accidentally inherited from performance tuning.
#[derive(Clone, Copy, Debug, PartialEq, Eq, Structural)]
pub struct SchedulerTuning {
    /// Requested upper bound for speculative execution workers.
    ///
    /// The actual worker count is limited by the shared execution resources and may fall back to
    /// sequential execution when fewer than two workers can be allocated.
    pub concurrency_level: usize,
    /// Execute the whole block through the sequential path.
    pub force_sequential: bool,
    /// Blocks smaller than this threshold use the sequential path.
    pub min_parallel_txs: usize,
}

/// The settings found in the process environment, as text.
#[derive(Debug)]
pub struct EnvironmentSettings {
    /// `GREVM_CONCURRENT_LEVEL`.
    pub concurrent_level: Option<String>,
    /// `GREVM_FALLBACK_SEQUENTIAL`.
    pub fallback_sequential: Option<String>,
    /// `GREVM_MIN_PARALLEL_TXS`.
    pub min_parallel_txs: Option<String>,
}

/// The text holds one or more decimal digits and nothing else.
pub open spec fn is_digits(text: Seq<char>) -> bool {
    text.len() > 0 && forall|i: int| 0 <= i < text.len() ==> '0' <= #[trigger] text[i] <= '9'
}

/// The number that a text of decimal digits writes.
pub open spec fn digits_value(text: Seq<char>) -> int
    decreases text.len(),
{
    if text.len() == 0 {
        0
    } else {
        10 * digits_value(text.drop_last()) + (text.last() as int - '0' as int)
    }
}

/// The `usize` that a text writes: an optional plus sign, then digits only, within range.
pub open spec fn parsed_usize(text: Seq<char>) -> Option<usize> {
    let digits = if text.len() > 0 && text[0] == '+' {
        text.drop_first()
    } else {
        text
    };
    if is_digits(digits) && digits_value(digits) <= usize::MAX {
        Some(digits_value(digits) as usize)
    } else {
        None
    }
}

/// The `bool` that a text writes.
pub open spec fn parsed_bool(text: Seq<char>) -> Option<bool> {
    if text == "true"@ {
        Some(true)
    } else if text == "false"@ {
        Some(false)
    } else {
        None
    }
}

/// `str::parse::<usize>`: accepts an optional plus sign followed by decimal digits only, within
/// range, and nothing else.
#[verifier::external_body]
fn parse_usize(text: &String) -> (value: Option<usize>)
    ensures
        value == parsed_usize(text@),
{
    text.parse().ok()
}

/// `str::parse::<bool>`: accepts exactly `true` and `false`.
#[verifier::external_body]
fn parse_bool(text: &String) -> (value: Option<bool>)
    ensures
        value == parsed_bool(text@),
{
    text.parse().ok()
}

/// The setting's number, or the default where it is missing or malformed.
pub open spec fn usize_setting(setting: Option<String>, default: usize) -> usize {
    match setting {
        Some(text) => match parsed_usize(text@) {
            Some(value) => value,
            None => default,
        },
        None => default,
    }
}

/// The setting's flag, or the default where it is missing or malformed.
pub open spec fn bool_setting(setting: Option<String>, default: bool) -> bool {
    match setting {
        Some(text) => match parsed_bool(text@) {
            Some(value) => value,
            None => default,
        },
        None => default,
    }
}

fn usize_or(setting: &Option<String>, default: usize) -> (value: usize)
    ensures
        value == usize_setting(*setting, default),
{
    match setting {
        Some(text) => match parse_usize(text) {
            Some(value) => value,
            None => default,
        },
        None => default,
    }
}

fn bool_or(setting: &Option<String>, default: bool) -> (value: bool)
    ensures
        value == bool_setting(*setting, default),
{
    match setting {
        Some(text) => match parse_bool(text) {
            Some(value) => value,
            None => default,
        },
        None => default,
    }
}

impl SchedulerTuning {
    /// The default tuning on a host with the given parallelism.
    pub open spec fn default_for(parallelism: Option<usize>) -> SchedulerTuning {
        SchedulerTuning {
            concurrency_level: match parallelism {
                Some(value) => value,
                None => FALLBACK_CONCURRENCY,
            },
            force_sequential: false,
            min_parallel_txs: DEFAULT_MIN_PARALLEL_TXS,
        }
    }

    /// The tuning that environment settings select: a missing or malformed setting keeps its
    /// default on a host with the given parallelism.
    pub open spec fn set_by(
        settings: EnvironmentSettings,
        parallelism: Option<usize>,
    ) -> SchedulerTuning {
        SchedulerTuning {
            concurrency_level: usize_setting(
                settings.concurrent_level,
                SchedulerTuning::default_for(parallelism).concurrency_level,
            ),
            force_sequential: bool_setting(settings.fallback_sequential, false),
            min_parallel_txs: usize_setting(settings.min_parallel_txs, DEFAULT_MIN_PARALLEL_TXS),
        }
    }

    /// The default tuning on a host that reports `parallelism`, if it reports any.
    pub fn with_parallelism(parallelism: Option<usize>) -> (tuning: Self)
        ensures
            tuning == SchedulerTuning::default_for(parallelism),
    {
        SchedulerTuning {
            concurrency_level: match parallelism {
                Some(value) => value,
                None => FALLBACK_CONCURRENCY,
            },
            force_sequential: false,
            min_parallel_txs: DEFAULT_MIN_PARALLEL_TXS,
        }
    }

    /// Builds scheduler tuning from environment settings: a missing or malformed setting keeps
    /// its default on a host with the given parallelism.
    pub fn from_env(settings: &EnvironmentSettings, parallelism: Option<usize>) -> (tuning: Self)
        ensures
            tuning == SchedulerTuning::set_by(*settings, parallelism),
    {
        let defaults = SchedulerTuning::with_parallelism(parallelism);
        SchedulerTuning {
            concurrency_level: usize_or(&settings.concurrent_level, defaults.concurrency_level),
            force_sequential: bool_or(&settings.fallback_sequential, defaults.force_sequential),
            min_parallel_txs: usize_or(&settings.min_parallel_txs, defaults.min_parallel_txs),
        }
    }

    /// Validates scheduler invariants before worker resources are allocated.
    pub fn validate(self) -> (result: Result<(), GrevmConfigError>)
        ensures
            result == (if self.concurrency_level == 0 {
                Err(GrevmConfigError::ZeroConcurrency)
            } else {
                Ok(())
            }),
    {
        if self.concurrency_level == 0 {
            return Err(GrevmConfigError::ZeroConcurrency);
        }
        Ok(())
    }
}

impl Default for SchedulerTuning {
    /// The default tuning of a host of unknown parallelism; where the parallelism is known, use
    /// [`SchedulerTuning::with_parallelism`].
    fn default() -> (tuning: Self)
        ensures
            tuning == SchedulerTuning::default_for(None),
    {
        SchedulerTuning::with_parallelism(None)
    }
}

/// A complete set of chain-sensitive execution semantics.
///
/// Fields are intentionally private: integrations select a named profile instead of independently
/// combining invalid-transaction behavior with delegated-account guards. In particular, both
/// Ethereum profiles always preserve upstream revm semantics by disabling Gravity's EIP-7702
/// guards.
#[derive(Clone, Copy, Debug, PartialEq, Eq, Structural)]
pub struct ExecutionProfile {
    invalid_transaction_policy: InvalidTransactionPolicy,
    delegated_safety: DelegatedSafetyConfig,
}

impl ExecutionProfile {
    /// The profile's invalid-transaction policy.
    pub closed spec fn policy(self) -> InvalidTransactionPolicy {
        self.invalid_transaction_policy
    }

    /// The profile's delegated-account policy.
    pub closed spec fn safety(self) -> DelegatedSafetyConfig {
        self.delegated_safety
    }

    /// Ethereum payload building from a candidate transaction set.
    ///
    /// Invalid candidates are omitted and both Gravity-specific delegated-account guards are
    /// disabled.
    pub fn ethereum_builder() -> (profile: Self)
        ensures
            profile.policy() == InvalidTransactionPolicy::Omit,
            !profile.safety().forbid_delegated_create,
            !profile.safety().reserve_delegated_balance,
    {
        ExecutionProfile {
            invalid_transaction_policy: InvalidTransactionPolicy::Omit,
            delegated_safety: DelegatedSafetyConfig::disabled(),
        }
    }

    /// Ethereum validation or historical execution of a fixed block.
    ///
    /// Invalid transactions abort execution and both Gravity-specific delegated-account guards are
    /// disabled.
    pub fn ethereum_block() -> (profile: Self)
        ensures
            profile.policy() == InvalidTransactionPolicy::Abort,
            !profile.safety().forbid_delegated_create,
            !profile.safety().reserve_delegated_balance,
    {
        ExecutionProfile {
            invalid_transaction_policy: InvalidTransactionPolicy::Abort,
            delegated_safety: DelegatedSafetyConfig::disabled(),
        }
    }

    /// Gravity execution with its invalid no-op and delegated-account semantics enabled.
    pub fn gravity() -> (profile: Self)
        ensures
            profile.policy() == InvalidTransactionPolicy::IncludeNoop,
            profile.safety().forbid_delegated_create,
            profile.safety().reserve_delegated_balance,
    {
        ExecutionProfile {
            invalid_transaction_policy: InvalidTransactionPolicy::IncludeNoop,
            delegated_safety: DelegatedSafetyConfig::enabled(),
        }
    }

    /// How invalid transactions affect execution and block indexing.
    pub fn invalid_transaction_policy(self) -> (policy: InvalidTransactionPolicy)
        ensures
            policy == self.policy(),
    {
        self.invalid_transaction_policy
    }

    /// The delegated-account policy selected by this profile.
    pub fn delegated_safety(self) -> (safety: DelegatedSafetyConfig)
        ensures
            safety == self.safety(),
    {
        self.delegated_safety
    }
}

impl Default for ExecutionProfile {
    fn default() -> (profile: Self)
        ensures
            profile.policy() == InvalidTransactionPolicy::Abort,
            !profile.safety().forbid_delegated_create,
            !profile.safety().reserve_delegated_balance,
    {
        ExecutionProfile::ethereum_block()
    }
}

/// Runtime configuration for one scheduler.
///
/// Environment settings are read once when [`Self::from_env`] is called. Callers that need
/// consensus-stable behavior should construct this value explicitly.
#[derive(Clone, Copy, Debug, PartialEq, Eq, Structural)]
pub struct GrevmConfig {
    /// Requested upper bound for speculative execution workers.
    ///
    /// The actual worker count is limited by the shared execution resources and may fall back to
    /// sequential execution when fewer than two workers can be allocated.
    pub concurrency_level: usize,
    /// Execute the whole block through the sequential path.
    pub force_sequential: bool,
    /// Blocks smaller than this threshold use the sequential path.
    pub min_parallel_txs: usize,
    /// How invalid transactions affect execution and the EIP-7928 block index.
    pub(crate) invalid_transaction_policy: InvalidTransactionPolicy,
    /// EIP-7702 delegated-account safety policy.
    pub(crate) delegated_safety: DelegatedSafetyConfig,
}

impl GrevmConfig {
    /// The configuration that combines `tuning` with the given semantics.
    pub closed spec fn combined(
        tuning: SchedulerTuning,
        policy: InvalidTransactionPolicy,
        safety: DelegatedSafetyConfig,
    ) -> GrevmConfig {
        GrevmConfig {
            concurrency_level: tuning.concurrency_level,
            force_sequential: tuning.force_sequential,
            min_parallel_txs: tuning.min_parallel_txs,
            invalid_transaction_policy: policy,
            delegated_safety: safety,
        }
    }

    /// The invalid-transaction policy.
    pub closed spec fn policy(self) -> InvalidTransactionPolicy {
        self.invalid_transaction_policy
    }

    /// The delegated-account policy.
    pub closed spec fn safety(self) -> DelegatedSafetyConfig {
        self.delegated_safety
    }

    /// A combination has exactly the parts that it was made of.
    pub broadcast proof fn lemma_combined(
        tuning: SchedulerTuning,
        policy: InvalidTransactionPolicy,
        safety: DelegatedSafetyConfig,
    )
        ensures
            ({
                let config = #[trigger] GrevmConfig::combined(tuning, policy, safety);
                &&& config.tuning() == tuning
                &&& config.policy() == policy
                &&& config.safety() == safety
            }),
    {
    }

    /// A configuration is the combination of its parts.
    pub proof fn lemma_parts(self)
        ensures
            self == GrevmConfig::combined(self.tuning(), self.policy(), self.safety()),
    {
        self.lemma_fields();
    }

    /// The tuning of a configuration is what its public fields say. Stated inside the crate alone:
    /// a contract that is visible outside of it cannot speak of the fields of a struct that hides
    /// some.
    pub(crate) proof fn lemma_fields(self)
        ensures
            self.tuning() == (SchedulerTuning {
                concurrency_level: self.concurrency_level,
                force_sequential: self.force_sequential,
                min_parallel_txs: self.min_parallel_txs,
            }),
    {
    }

    /// The performance-related portion of a configuration.
    pub closed spec fn tuning(self) -> SchedulerTuning {
        SchedulerTuning {
            concurrency_level: self.concurrency_level,
            force_sequential: self.force_sequential,
            min_parallel_txs: self.min_parallel_txs,
        }
    }

    /// Builds the runtime configuration from environment settings, with the default profile.
    pub fn from_env(settings: &EnvironmentSettings, parallelism: Option<usize>) -> (config: Self)
        ensures
            config == GrevmConfig::combined(
                SchedulerTuning::set_by(*settings, parallelism),
                InvalidTransactionPolicy::Abort,
                (DelegatedSafetyConfig {
                    forbid_delegated_create: false,
                    reserve_delegated_balance: false,
                }),
            ),
    {
        GrevmConfig::new(
            SchedulerTuning::from_env(settings, parallelism),
            ExecutionProfile::default(),
        )
    }

    /// Combines performance-only tuning with a chain-sensitive execution profile.
    pub fn new(tuning: SchedulerTuning, profile: ExecutionProfile) -> (config: Self)
        ensures
            config == GrevmConfig::combined(tuning, profile.policy(), profile.safety()),
    {
        GrevmConfig {
            concurrency_level: tuning.concurrency_level,
            force_sequential: tuning.force_sequential,
            min_parallel_txs: tuning.min_parallel_txs,
            invalid_transaction_policy: profile.invalid_transaction_policy(),
            delegated_safety: profile.delegated_safety(),
        }
    }

    /// Creates a configuration for Ethereum payload building.
    pub fn ethereum_builder(tuning: SchedulerTuning) -> (config: Self)
        ensures
            config == GrevmConfig::combined(
                tuning,
                InvalidTransactionPolicy::Omit,
                (DelegatedSafetyConfig {
                    forbid_delegated_create: false,
                    reserve_delegated_balance: false,
                }),
            ),
    {
        GrevmConfig::new(tuning, ExecutionProfile::ethereum_builder())
    }

    /// Creates a configuration for Ethereum fixed-block validation or historical execution.
    pub fn ethereum_block(tuning: SchedulerTuning) -> (config: Self)
        ensures
            config == GrevmConfig::combined(
                tuning,
                InvalidTransactionPolicy::Abort,
                (DelegatedSafetyConfig {
                    forbid_delegated_create: false,
                    reserve_delegated_balance: false,
                }),
            ),
    {
        GrevmConfig::new(tuning, ExecutionProfile::ethereum_block())
    }

    /// Creates a configuration with Gravity execution semantics.
    pub fn gravity(tuning: SchedulerTuning) -> (config: Self)
        ensures
            config == GrevmConfig::combined(
                tuning,
                InvalidTransactionPolicy::IncludeNoop,
                (DelegatedSafetyConfig {
                    forbid_delegated_create: true,
                    reserve_delegated_balance: true,
                }),
            ),
    {
        GrevmConfig::new(tuning, ExecutionProfile::gravity())
    }

    /// Returns only the performance-related portion of this configuration.
    pub fn scheduler_tuning(&self) -> (tuning: SchedulerTuning)
        ensures
            tuning == self.tuning(),
    {
        SchedulerTuning {
            concurrency_level: self.concurrency_level,
            force_sequential: self.force_sequential,
            min_parallel_txs: self.min_parallel_txs,
        }
    }

    /// Validates scheduler invariants before worker resources are allocated.
    pub fn validate(&self) -> (result: Result<(), GrevmConfigError>)
        ensures
            result == (if self.tuning().concurrency_level == 0 {
                Err(GrevmConfigError::ZeroConcurrency)
            } else {
                Ok(())
            }),
    {
        self.scheduler_tuning().validate()
    }

    /// Returns how invalid transactions affect execution and block indexing.
    pub fn invalid_transaction_policy(&self) -> (policy: InvalidTransactionPolicy)
        ensures
            policy == self.policy(),
    {
        self.invalid_transaction_policy
    }

    /// Returns the delegated-account policy selected by the execution profile.
    pub fn delegated_safety(&self) -> (safety: DelegatedSafetyConfig)
        ensures
            safety == self.safety(),
    {
        self.delegated_safety
    }

    /// Replaces all performance settings without changing execution semantics.
    pub fn with_scheduler_tuning(self, tuning: SchedulerTuning) -> (config: Self)
        ensures
            config == GrevmConfig::combined(
                tuning,
                self.policy(),
                self.safety(),
            ),
    {
        GrevmConfig {
            concurrency_level: tuning.concurrency_level,
            force_sequential: tuning.force_sequential,
            min_parallel_txs: tuning.min_parallel_txs,
            invalid_transaction_policy: self.invalid_transaction_policy,
            delegated_safety: self.delegated_safety,
        }
    }

    /// Replaces all chain-sensitive settings with a named execution profile.
    pub fn with_execution_profile(self, profile: ExecutionProfile) -> (config: Self)
        ensures
            config == GrevmConfig::combined(self.tuning(), profile.policy(), profile.safety()),
    {
        GrevmConfig {
            concurrency_level: self.concurrency_level,
            force_sequential: self.force_sequential,
            min_parallel_txs: self.min_parallel_txs,
            invalid_transaction_policy: profile.invalid_transaction_policy(),
            delegated_safety: profile.delegated_safety(),
        }
    }

    /// Overrides the delegated-account policy alone.
    pub fn with_delegated_safety(self, delegated_safety: DelegatedSafetyConfig) -> (config: Self)
        ensures
            config == GrevmConfig::combined(self.tuning(), self.policy(), delegated_safety),
    {
        GrevmConfig {
            concurrency_level: self.concurrency_level,
            force_sequential: self.force_sequential,
            min_parallel_txs: self.min_parallel_txs,
            invalid_transaction_policy: self.invalid_transaction_policy,
            delegated_safety,
        }
    }

    /// Overrides invalid-transaction behavior alone.
    pub fn with_invalid_transaction_policy(self, policy: InvalidTransactionPolicy) -> (config: Self)
        ensures
            config == GrevmConfig::combined(self.tuning(), policy, self.safety()),
    {
        GrevmConfig {
            concurrency_level: self.concurrency_level,
            force_sequential: self.force_sequential,
            min_parallel_txs: self.min_parallel_txs,
            invalid_transaction_policy: policy,
            delegated_safety: self.delegated_safety,
        }
    }
}

impl Default for GrevmConfig {
    /// The default configuration of a host of unknown parallelism; where the parallelism is known,
    /// take the tuning from [`SchedulerTuning::with_parallelism`].
    fn default() -> (config: Self)
        ensures
            config == GrevmConfig::combined(
                SchedulerTuning::default_for(None),
                InvalidTransactionPolicy::Abort,
                (DelegatedSafetyConfig {
                    forbid_delegated_create: false,
                    reserve_delegated_balance: false,
                }),
            ),
    {
        GrevmConfig::ethereum_block(SchedulerTuning::default())
    }
}

/// Invalid runtime configuration.
#[derive(Clone, Copy, Debug, PartialEq, Eq, Structural)]
pub enum GrevmConfigError {
    /// At least one execution worker is required.
    ZeroConcurrency,
}

impl GrevmConfigError {
    /// The error in words.
    pub fn message(&self) -> (message: &'static str)
        ensures
            message@ == "GREVM concurrency level must be greater than zero"@,
    {
        match self {
            GrevmConfigError::ZeroConcurrency =>
                "GREVM concurrency level must be greater than zero",
        }
    }
}

/// Tuning never changes execution semantics, and applying a profile never changes tuning: the two
/// replacements act on disjoint parts and so can be applied in either order.
pub proof fn law_tuning_and_profile_are_independent(
    config: GrevmConfig,
    tuning: SchedulerTuning,
    profile: ExecutionProfile,
)
    ensures
        ({
            let tuned = GrevmConfig::combined(
                tuning,
                config.policy(),
                config.safety(),
            );
            let profiled = GrevmConfig::combined(
                config.tuning(),
                profile.policy(),
                profile.safety(),
            );
            &&& tuned.policy() == config.policy()
            &&& tuned.safety() == config.safety()
            &&& profiled.tuning() == config.tuning()
            &&& GrevmConfig::combined(tuned.tuning(), profile.policy(), profile.safety())
                == GrevmConfig::combined(
                tuning,
                profiled.policy(),
                profiled.safety(),
            )
        }),
{
}

/// Replacing the tuning gives exactly that tuning and keeps the semantics, replacing it by its own
/// tuning changes nothing, and of two replacements the second counts.
pub proof fn law_tuning_replacement_is_exact(
    config: GrevmConfig,
    first: SchedulerTuning,
    second: SchedulerTuning,
)
    ensures
        ({
            let once = GrevmConfig::combined(first, config.policy(), config.safety());
            let twice = GrevmConfig::combined(second, once.policy(), once.safety());
            &&& once.tuning() == first
            &&& once.policy() == config.policy()
            &&& once.safety() == config.safety()
            &&& twice == GrevmConfig::combined(second, config.policy(), config.safety())
            &&& GrevmConfig::combined(config.tuning(), config.policy(), config.safety()) == config
        }),
{
}

/// A configuration gives back exactly the tuning and the profile that it was made of, so equal
/// configurations come only from equal tunings and equal profiles.
pub proof fn law_configurations_are_equal_only_by_parts(
    tuning: SchedulerTuning,
    profile: ExecutionProfile,
    other_tuning: SchedulerTuning,
    other_profile: ExecutionProfile,
)
    ensures
        ({
            let config = GrevmConfig::combined(tuning, profile.policy(), profile.safety());
            let other = GrevmConfig::combined(
                other_tuning,
                other_profile.policy(),
                other_profile.safety(),
            );
            &&& config.tuning() == tuning
            &&& config.policy() == profile.policy()
            &&& config.safety() == profile.safety()
            &&& config == other <==> tuning == other_tuning && profile == other_profile
        }),
{
}

/// A setting that writes a number is that number, whatever the default is, with or without a plus
/// sign; one that is missing, or writes anything else, is the default.
pub proof fn law_settings_replace_defaults(
    settings: EnvironmentSettings,
    parallelism: Option<usize>,
)
    ensures
        ({
            let tuning = SchedulerTuning::set_by(settings, parallelism);
            let defaults = SchedulerTuning::default_for(parallelism);
            &&& settings.concurrent_level is None ==> tuning.concurrency_level
                == defaults.concurrency_level
            &&& settings.min_parallel_txs is None ==> tuning.min_parallel_txs
                == defaults.min_parallel_txs
            &&& settings.fallback_sequential is None ==> !tuning.force_sequential
            &&& settings.concurrent_level is Some && is_digits(settings.concurrent_level->0@)
                && digits_value(settings.concurrent_level->0@) <= usize::MAX
                ==> tuning.concurrency_level == digits_value(settings.concurrent_level->0@)
            &&& settings.min_parallel_txs is Some && is_digits(settings.min_parallel_txs->0@)
                && digits_value(settings.min_parallel_txs->0@) <= usize::MAX
                ==> tuning.min_parallel_txs == digits_value(settings.min_parallel_txs->0@)
            &&& settings.concurrent_level is Some && settings.concurrent_level->0@.len() == 0
                ==> tuning.concurrency_level == defaults.concurrency_level
            &&& settings.min_parallel_txs is Some && settings.min_parallel_txs->0@.len() == 0
                ==> tuning.min_parallel_txs == defaults.min_parallel_txs
            &&& settings.fallback_sequential is Some ==> (tuning.force_sequential
                <==> settings.fallback_sequential->0@ == "true"@)
            &&& !defaults.force_sequential
            &&& defaults.min_parallel_txs == 64
            &&& defaults.concurrency_level == if parallelism is Some {
                parallelism->0
            } else {
                8
            }
        }),
{
    if settings.concurrent_level is Some {
        lemma_digits_have_no_sign(settings.concurrent_level->0@);
    }
    if settings.min_parallel_txs is Some {
        lemma_digits_have_no_sign(settings.min_parallel_txs->0@);
    }
}

/// A text of digits does not start with a sign and writes a number that is not negative.
proof fn lemma_digits_have_no_sign(text: Seq<char>)
    ensures
        is_digits(text) ==> text[0] != '+',
        is_digits(text) || text.len() == 0 ==> digits_value(text) >= 0,
    decreases text.len(),
{
    if text.len() > 0 && is_digits(text) {
        let rest = text.drop_last();
        assert forall|i: int| 0 <= i < rest.len() implies '0' <= #[trigger] rest[i] <= '9' by {
            assert(rest[i] == text[i]);
        }
        lemma_digits_have_no_sign(rest);
        assert('0' <= text[text.len() - 1]);
    }
}

} // verus!
