use qsl_server::resolve_config;
use qsl_server::Cli;
use qsl_server::EnvVals;
use qsl_server::Limits;
use qsl_server::MAX_BODY_BYTES_CEILING;
use qsl_server::MAX_QUEUE_DEPTH_CEILING;

fn env_vals(
    port: Option<u16>,
    max_body_bytes: Option<usize>,
    max_queue_depth: Option<usize>,
) -> EnvVals {
    EnvVals { port, max_body_bytes, max_queue_depth }
}

#[test]
fn cli_overrides_env() {
    let cli = Cli {
        bind: None,
        port: Some(9000),
        max_body_bytes: Some(4096),
        max_queue_depth: Some(9),
    };
    let env = env_vals(Some(8080), Some(1024), Some(1));
    let cfg = resolve_config(cli, env);
    assert_eq!(cfg.port, 9000);
    assert_eq!(cfg.limits.max_body_bytes, 4096);
    assert_eq!(cfg.limits.max_queue_depth, 9);
}

#[test]
fn env_overrides_defaults() {
    let cli = Cli { bind: None, port: None, max_body_bytes: None, max_queue_depth: None };
    let env = env_vals(Some(7070), Some(2048), Some(7));
    let cfg = resolve_config(cli, env);
    assert_eq!(cfg.port, 7070);
    assert_eq!(cfg.limits.max_body_bytes, 2048);
    assert_eq!(cfg.limits.max_queue_depth, 7);
}

#[test]
fn limits_are_capped() {
    let cli = Cli {
        bind: None,
        port: None,
        max_body_bytes: Some(MAX_BODY_BYTES_CEILING * 2),
        max_queue_depth: Some(MAX_QUEUE_DEPTH_CEILING * 2),
    };
    let env = env_vals(None, None, None);
    let cfg = resolve_config(cli, env);
    assert_eq!(cfg.limits.max_body_bytes, MAX_BODY_BYTES_CEILING);
    assert_eq!(cfg.limits.max_queue_depth, MAX_QUEUE_DEPTH_CEILING);
}

#[test]
fn defaults_fill_everything() {
    let cli = Cli { bind: None, port: None, max_body_bytes: None, max_queue_depth: None };
    let cfg = resolve_config(cli, env_vals(None, None, None));
    assert_eq!(cfg.bind, "0.0.0.0");
    assert_eq!(cfg.port, 8080);
    assert_eq!(cfg.limits.max_body_bytes, MAX_BODY_BYTES_CEILING);
    assert_eq!(cfg.limits.max_queue_depth, MAX_QUEUE_DEPTH_CEILING);
}

#[test]
fn bind_flag_wins() {
    let cli = Cli {
        bind: Some("127.0.0.1".to_string()),
        port: None,
        max_body_bytes: None,
        max_queue_depth: None,
    };
    let cfg = resolve_config(cli, env_vals(None, None, None));
    assert_eq!(cfg.bind, "127.0.0.1");
}

#[test]
fn limits_defaults_are_nonzero() {
    let limits: Limits = Limits::with_defaults(None, None);
    assert!(limits.max_body_bytes > 0);
    assert!(limits.max_queue_depth > 0);
}

#[test]
fn limits_with_values_kept() {
    let limits = Limits::with_defaults(Some(512), Some(3));
    assert_eq!(limits.max_body_bytes, 512);
    assert_eq!(limits.max_queue_depth, 3);
}
