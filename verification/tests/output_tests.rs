use lttp_autotimer::output::{flags_toggled, verbose_diff, StdoutPrinter};
use lttp_autotimer::CliConfig;

#[test]
fn printer_remembers_whether_output_is_allowed() {
    assert!(StdoutPrinter::new(true).allow_output());
    assert!(!StdoutPrinter::new(false).allow_output());
}

#[test]
fn changed_bytes() {
    assert_eq!(verbose_diff(&[1, 2, 3], &[1, 5, 0]), vec![(1, 2, 5), (2, 3, 0)]);
    assert!(verbose_diff(&[4, 4], &[4, 4, 9]).is_empty());
}

#[test]
fn toggled_flags() {
    assert_eq!(flags_toggled(&[0, 1, 2, 1], &[1, 0, 3, 1]), vec![(0, 0, 1), (1, 1, 0)]);
}

#[test]
fn sni_url_joins_host_and_port() {
    let config = CliConfig { host: "127.0.0.1".to_string(), port: "8191".to_string(), ..Default::default() };
    assert_eq!(config.sni_url(), "ws://127.0.0.1:8191");
}
