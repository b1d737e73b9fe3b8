use dasd_install::{
    ApplyMachine, ApplyState, DasdError, PrepareEvent, PrepareMachine, PrepareState,
    ccw_status_path, contains_str, parse_bus_id, probe_reports_invalid_label,
    status_reports_formatted, MAX_PARTITIONS,
};

#[test]
fn formatted_device_skips_low_level_format() {
    let mut m = PrepareMachine::new();
    assert_eq!(m.state, PrepareState::NeedFormattedCheck);
    let s = m.step(PrepareEvent::FormattedStatus(true));
    assert_eq!(s, PrepareState::NeedLabelCheck);
    assert_ne!(s, PrepareState::NeedLowLevelFormat);
    let s = m.step(PrepareEvent::LabelStatus(false));
    assert_eq!(s, PrepareState::Done);
}

#[test]
fn unformatted_device_is_formatted_then_checked() {
    let mut m = PrepareMachine::new();
    assert_eq!(m.step(PrepareEvent::FormattedStatus(false)), PrepareState::NeedLowLevelFormat);
    assert_eq!(m.step(PrepareEvent::ToolRan), PrepareState::NeedLabelCheck);
    assert_eq!(m.step(PrepareEvent::LabelStatus(true)), PrepareState::NeedAutoFormat);
    assert_eq!(m.step(PrepareEvent::ToolRan), PrepareState::Done);
}

#[test]
fn mismatched_event_changes_nothing() {
    let mut m = PrepareMachine::new();
    assert_eq!(m.step(PrepareEvent::ToolRan), PrepareState::NeedFormattedCheck);
}

#[test]
fn partition_limit_is_three() {
    assert_eq!(MAX_PARTITIONS, 3);
}

#[test]
fn too_many_partitions_fail_before_any_tool_runs() {
    let mut m = ApplyMachine::new(4);
    assert_eq!(m.state, ApplyState::Failed(DasdError::ConfigLimit { requested: 4 }));
    // whatever is fed back, no tool-running state is ever entered
    assert_eq!(m.step(true), ApplyState::Failed(DasdError::ConfigLimit { requested: 4 }));
    assert_eq!(m.step(false), ApplyState::Failed(DasdError::ConfigLimit { requested: 4 }));
}

#[test]
fn three_partitions_are_accepted() {
    let m = ApplyMachine::new(3);
    assert_eq!(m.state, ApplyState::NeedTryFormat { retried: false });
}

#[test]
fn config_format_success_finishes() {
    let mut m = ApplyMachine::new(2);
    assert_eq!(m.step(true), ApplyState::Done);
}

#[test]
fn failed_config_format_auto_formats_and_retries_once() {
    let mut m = ApplyMachine::new(2);
    assert_eq!(m.step(false), ApplyState::NeedAutoFormat);
    assert_eq!(m.step(true), ApplyState::NeedTryFormat { retried: true });
    assert_eq!(m.step(true), ApplyState::Done);
}

#[test]
fn second_config_failure_propagates() {
    let mut m = ApplyMachine::new(2);
    assert_eq!(m.step(false), ApplyState::NeedAutoFormat);
    assert_eq!(m.step(true), ApplyState::NeedTryFormat { retried: true });
    assert_eq!(m.step(false), ApplyState::Failed(DasdError::ToolInvocation));
}

#[test]
fn failed_auto_format_propagates() {
    let mut m = ApplyMachine::new(2);
    assert_eq!(m.step(false), ApplyState::NeedAutoFormat);
    assert_eq!(m.step(false), ApplyState::Failed(DasdError::ToolInvocation));
}

#[test]
fn status_with_unformatted_marker_is_not_formatted() {
    assert!(!status_reports_formatted("unformatted\n"));
    assert!(!status_reports_formatted("state: unformatted"));
    assert!(status_reports_formatted("online\n"));
    assert!(status_reports_formatted(""));
}

#[test]
fn probe_diagnostic_marks_label_invalid() {
    assert!(probe_reports_invalid_label(
        "reading volume label ..: disk label block is invalid\n"
    ));
    assert!(!probe_reports_invalid_label("Disk /dev/dasda: ok\n"));
}

#[test]
fn bus_id_is_trimmed_tool_output() {
    assert_eq!(parse_bus_id("0.0.1234\n"), "0.0.1234");
    assert_eq!(parse_bus_id("0.0.1234 \t\r\n"), "0.0.1234");
    assert_eq!(parse_bus_id("0.0.1234"), "0.0.1234");
    assert_eq!(parse_bus_id("\n"), "");
}

#[test]
fn substring_search_edges() {
    assert!(contains_str("abcdef", "cde"));
    assert!(!contains_str("abcdef", "cdf"));
    assert!(contains_str("", ""));
    assert!(contains_str("abc", ""));
    assert!(!contains_str("", "a"));
    assert!(contains_str("aaab", "aab"));
    assert!(!contains_str("ab", "abc"));
    assert!(contains_str("formatted unformatted", "unformatted"));
}

#[test]
fn substring_search_handles_multibyte_characters() {
    assert!(dasd_install::contains_str("грубый диск", "диск"));
    assert!(!dasd_install::contains_str("грубый диск", "метка"));
}

#[test]
fn status_path_names_the_bus_id() {
    assert_eq!(ccw_status_path("0.0.1234"), "/sys/bus/ccw/devices/0.0.1234/status");
}
