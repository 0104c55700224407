use gtctl::config::{
    default_estimate_config, default_log_level, default_scaling_factor, default_socket_path,
    parse_log_level, parse_scaling_factor, LogLevel, ScalingFactorError,
};

#[test]
fn defaults() {
    assert_eq!(default_socket_path(), "/var/run/gatekeeper/dyn_cfg.socket");
    assert_eq!(default_log_level(), LogLevel::Info);
    assert_eq!(default_scaling_factor(), 1);
    let e = default_estimate_config();
    assert_eq!((e.rules_scaling_factor, e.tbl8s_scaling_factor), (1, 1));
}

#[test]
fn scaling_factor_must_be_positive() {
    assert_eq!(parse_scaling_factor("3").unwrap(), 3);
    assert_eq!(parse_scaling_factor("+12").unwrap(), 12);
    assert!(matches!(parse_scaling_factor("0"), Err(ScalingFactorError::NotPositive)));
    assert!(matches!(parse_scaling_factor("x"), Err(ScalingFactorError::Invalid(_))));
    assert!(matches!(parse_scaling_factor("-1"), Err(ScalingFactorError::Invalid(_))));
}

#[test]
fn log_level_by_name() {
    assert_eq!(parse_log_level("debug"), Some(LogLevel::Debug));
    assert_eq!(parse_log_level("WaRn"), Some(LogLevel::Warn));
    assert_eq!(parse_log_level("off"), None);
    assert_eq!(parse_log_level("verbose"), None);
}
