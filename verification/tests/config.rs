use grevm::config::{
    EnvironmentSettings, ExecutionProfile, GrevmConfig, GrevmConfigError,
    InvalidTransactionPolicy, SchedulerTuning,
};
use grevm::delegated_safety::DelegatedSafetyConfig;
use grevm::test_utils::runtime_config_with_policies;

#[test]
fn default_configuration_is_safe_and_bounded() {
    let config = GrevmConfig::default();
    assert!(config.concurrency_level > 0);
    assert_eq!(config.min_parallel_txs, 64);
    assert!(!config.force_sequential);
    assert_eq!(config.invalid_transaction_policy(), InvalidTransactionPolicy::Abort);
    assert!(!config.delegated_safety().forbid_delegated_create);
    assert!(!config.delegated_safety().reserve_delegated_balance);
    assert_eq!(config, GrevmConfig::ethereum_block(SchedulerTuning::default()));
}

#[test]
fn named_profiles_bind_transaction_and_delegated_semantics() {
    let tuning =
        SchedulerTuning { concurrency_level: 3, force_sequential: true, min_parallel_txs: 7 };

    let builder = GrevmConfig::ethereum_builder(tuning);
    assert_eq!(builder.invalid_transaction_policy(), InvalidTransactionPolicy::Omit);
    assert_eq!(builder.delegated_safety(), DelegatedSafetyConfig::disabled());
    assert_eq!(builder.scheduler_tuning(), tuning);

    let block = GrevmConfig::ethereum_block(tuning);
    assert_eq!(block.invalid_transaction_policy(), InvalidTransactionPolicy::Abort);
    assert_eq!(block.delegated_safety(), DelegatedSafetyConfig::disabled());
    assert_eq!(block.scheduler_tuning(), tuning);

    let gravity = GrevmConfig::gravity(tuning);
    assert_eq!(gravity.invalid_transaction_policy(), InvalidTransactionPolicy::IncludeNoop);
    assert_eq!(gravity.delegated_safety(), DelegatedSafetyConfig::enabled());
    assert_eq!(gravity.scheduler_tuning(), tuning);
}

#[test]
fn zero_concurrency_is_rejected() {
    let tuning = SchedulerTuning { concurrency_level: 0, ..SchedulerTuning::default() };

    assert_eq!(tuning.validate(), Err(GrevmConfigError::ZeroConcurrency));
    assert_eq!(
        GrevmConfig::ethereum_builder(tuning).validate(),
        Err(GrevmConfigError::ZeroConcurrency),
    );
}

#[test]
fn applying_profile_replaces_all_semantics_and_preserves_tuning() {
    let config = runtime_config_with_policies(
        SchedulerTuning { concurrency_level: 3, force_sequential: true, min_parallel_txs: 7 },
        InvalidTransactionPolicy::IncludeNoop,
        DelegatedSafetyConfig::enabled(),
    )
    .with_execution_profile(ExecutionProfile::ethereum_builder());

    assert_eq!(config.scheduler_tuning().concurrency_level, 3);
    assert!(config.scheduler_tuning().force_sequential);
    assert_eq!(config.scheduler_tuning().min_parallel_txs, 7);
    assert_eq!(config.invalid_transaction_policy(), InvalidTransactionPolicy::Omit);
    assert_eq!(config.delegated_safety(), DelegatedSafetyConfig::disabled());
}

#[test]
fn delegated_policy_builder_preserves_scheduler_settings() {
    let config = runtime_config_with_policies(
        SchedulerTuning { concurrency_level: 3, force_sequential: true, min_parallel_txs: 7 },
        InvalidTransactionPolicy::Abort,
        DelegatedSafetyConfig::default(),
    )
    .with_delegated_safety(DelegatedSafetyConfig::enabled());

    assert_eq!(config.concurrency_level, 3);
    assert!(config.force_sequential);
    assert_eq!(config.min_parallel_txs, 7);
    assert_eq!(config.invalid_transaction_policy(), InvalidTransactionPolicy::Abort);
    assert!(config.delegated_safety().forbid_delegated_create);
    assert!(config.delegated_safety().reserve_delegated_balance);
}

fn settings(level: &str, sequential: &str, min: &str) -> EnvironmentSettings {
    EnvironmentSettings {
        concurrent_level: Some(level.to_owned()),
        fallback_sequential: Some(sequential.to_owned()),
        min_parallel_txs: Some(min.to_owned()),
    }
}

#[test]
fn environment_settings_override_the_defaults() {
    let tuning = SchedulerTuning::from_env(&settings("12", "true", "+5"), Some(4));
    assert_eq!(
        tuning,
        SchedulerTuning { concurrency_level: 12, force_sequential: true, min_parallel_txs: 5 }
    );
}

#[test]
fn malformed_environment_settings_keep_the_defaults() {
    for bad in ["", "+", "-1", " 7", "7 ", "1_000", "0x10", "99999999999999999999999999"] {
        let tuning = SchedulerTuning::from_env(&settings(bad, "yes", bad), Some(4));
        assert_eq!(tuning, SchedulerTuning::with_parallelism(Some(4)));
    }
    let tuning = SchedulerTuning::from_env(&settings("007", "false", "0"), None);
    assert_eq!(
        tuning,
        SchedulerTuning { concurrency_level: 7, force_sequential: false, min_parallel_txs: 0 }
    );
}

#[test]
fn missing_environment_settings_use_the_host_parallelism() {
    let settings = EnvironmentSettings {
        concurrent_level: None,
        fallback_sequential: None,
        min_parallel_txs: None,
    };
    assert_eq!(GrevmConfig::from_env(&settings, None).concurrency_level, 8);
    let config = GrevmConfig::from_env(&settings, Some(3));
    assert_eq!(config, GrevmConfig::ethereum_block(SchedulerTuning::with_parallelism(Some(3))));
}

#[test]
fn tuning_and_profile_replacements_commute() {
    let tuning =
        SchedulerTuning { concurrency_level: 5, force_sequential: false, min_parallel_txs: 9 };
    let config = GrevmConfig::default();
    assert_eq!(
        config.with_scheduler_tuning(tuning).with_execution_profile(ExecutionProfile::gravity()),
        config.with_execution_profile(ExecutionProfile::gravity()).with_scheduler_tuning(tuning),
    );
    let noop = config.with_invalid_transaction_policy(InvalidTransactionPolicy::IncludeNoop);
    assert_eq!(noop.invalid_transaction_policy(), InvalidTransactionPolicy::IncludeNoop);
    assert_eq!(noop.scheduler_tuning(), config.scheduler_tuning());
    assert_eq!(noop.delegated_safety(), config.delegated_safety());
}

#[test]
fn configurations_are_equal_only_by_parts() {
    let tuning =
        SchedulerTuning { concurrency_level: 5, force_sequential: false, min_parallel_txs: 9 };
    let other = SchedulerTuning { min_parallel_txs: 10, ..tuning };
    let (block, builder) = (ExecutionProfile::ethereum_block(), ExecutionProfile::ethereum_builder());
    let config = GrevmConfig::new(tuning, block);
    assert_eq!(config, GrevmConfig::new(tuning, block));
    assert_ne!(config, GrevmConfig::new(other, block));
    assert_ne!(config, GrevmConfig::new(tuning, builder));
    assert_eq!(config.scheduler_tuning(), tuning);
}

#[test]
fn delegated_switches_are_independent() {
    let create = DelegatedSafetyConfig::create_only();
    assert!(create.forbid_delegated_create && !create.reserve_delegated_balance);
    let reserve = DelegatedSafetyConfig::reserve_only();
    assert!(!reserve.forbid_delegated_create && reserve.reserve_delegated_balance);
}

#[test]
fn configuration_errors_explain_themselves() {
    assert_eq!(
        GrevmConfigError::ZeroConcurrency.message(),
        "GREVM concurrency level must be greater than zero"
    );
}

#[test]
fn replacing_the_tuning_is_exact() {
    let tuning = |level: usize| SchedulerTuning {
        concurrency_level: level,
        force_sequential: level % 2 == 0,
        min_parallel_txs: level + 1,
    };
    let config = GrevmConfig::gravity(tuning(3));
    assert_eq!(config.with_scheduler_tuning(config.scheduler_tuning()), config);
    assert_eq!(config.with_scheduler_tuning(tuning(5)).scheduler_tuning(), tuning(5));
    assert_eq!(
        config.with_scheduler_tuning(tuning(4)).with_scheduler_tuning(tuning(5)),
        GrevmConfig::gravity(tuning(5))
    );
}

#[test]
fn the_environment_reaches_the_tuning_alone() {
    for (level, sequential) in [(None, None), (Some("6"), Some("true")), (Some("x"), Some("1"))] {
        let settings = EnvironmentSettings {
            concurrent_level: level.map(str::to_owned),
            fallback_sequential: sequential.map(str::to_owned),
            min_parallel_txs: None,
        };
        assert_eq!(
            GrevmConfig::from_env(&settings, Some(3)),
            GrevmConfig::ethereum_block(SchedulerTuning::from_env(&settings, Some(3)))
        );
    }
}
