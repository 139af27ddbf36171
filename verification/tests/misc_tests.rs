use rxscan::command::help::{command_help_topic, HelpTopic};
use rxscan::command::{Commands, HelpArgs};
use rxscan::common::TaskPoolConfig;
use rxscan::launch::{build_global_scan_context, Cli};
use rxscan::global::ScanContext;

#[test]
fn help_topics() {
    assert_eq!(command_help_topic("port"), HelpTopic::Port);
    assert_eq!(command_help_topic("WEB"), HelpTopic::Web);
    assert_eq!(command_help_topic("Sys"), HelpTopic::Sys);
    assert_eq!(command_help_topic("scan"), HelpTopic::Unknown);
}

#[test]
fn task_pool_config_defaults() {
    let c = TaskPoolConfig::from_parallelism(Some(8));
    assert_eq!(c.worker_threads, 8);
    assert_eq!(c.thread_name, "global-async-worker");
    assert!(c.enable_io && c.enable_time);
    assert_eq!(TaskPoolConfig::from_parallelism(None).worker_threads, 1);
}

#[test]
fn scan_context_from_cli() {
    let cli = Cli { verbose: Some(true), command: Commands::Help(HelpArgs { command: None }) };
    assert!(build_global_scan_context(&cli).verbose);
    let cli = Cli { verbose: None, command: Commands::Help(HelpArgs { command: None }) };
    assert!(!build_global_scan_context(&cli).verbose);
    assert!(!ScanContext::default().verbose);
}

#[test]
fn help_topic_ignores_case() {
    for c in ["PoRt", "WEB", "sYs", "Scan"] {
        assert_eq!(command_help_topic(c), command_help_topic(&c.to_lowercase()));
    }
    assert_ne!(command_help_topic("port"), command_help_topic("web"));
    assert_ne!(command_help_topic("web"), command_help_topic("sys"));
}
