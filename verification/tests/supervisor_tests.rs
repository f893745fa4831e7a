use ls_proxy::inspector::Inspector;
use ls_proxy::pump::{Outcome, StreamFault};
use ls_proxy::supervisor::{exit_report, inspector_for, remaining, runtime_args, Group, GroupPolicy, Stream};

#[test]
fn runtime_is_started_interactive_with_the_directory_mounted() {
    let args = runtime_args("quay.io/pvlerick/gopls:0.14.2-r0", "/home/me/src");
    assert_eq!(
        args,
        vec![
            "run".to_string(),
            "-i".to_string(),
            "--rm".to_string(),
            "-v".to_string(),
            "/home/me/src:/home/me/src".to_string(),
            "quay.io/pvlerick/gopls:0.14.2-r0".to_string(),
        ]
    );
}

#[test]
fn runtime_args_with_empty_names() {
    let args = runtime_args("", "");
    assert_eq!(args.len(), 6);
    assert_eq!(args[4], ":");
    assert_eq!(args[5], "");
}

#[test]
fn framed_streams_are_parsed_and_stderr_is_not() {
    assert!(matches!(inspector_for(Stream::Stdin), Inspector::Parsing(_)));
    assert!(matches!(inspector_for(Stream::Stdout), Inspector::Parsing(_)));
    assert!(matches!(inspector_for(Stream::Stderr), Inspector::Silent));
}

#[test]
fn first_exit_ends_the_group() {
    let mut group = Group::new(GroupPolicy::FirstExit);
    assert!(!group.is_over());
    assert!(group.pump_ended(Stream::Stdout, Outcome::EndOfStream));
    assert!(group.is_over());
}

#[test]
fn all_exit_waits_for_the_three_relays() {
    let mut group = Group::new(GroupPolicy::AllExit);
    assert!(!group.pump_ended(Stream::Stdout, Outcome::EndOfStream));
    assert!(!group.pump_ended(Stream::Stdout, Outcome::EndOfStream));
    assert!(!group.pump_ended(Stream::Stdin, Outcome::Cancelled));
    assert!(!group.is_over());
    assert!(group.pump_ended(Stream::Stderr, Outcome::EndOfStream));
    assert!(group.is_over());
}

#[test]
fn failure_ends_the_group_under_either_policy() {
    let mut group = Group::new(GroupPolicy::AllExit);
    assert!(group.pump_ended(Stream::Stdin, Outcome::Failed(StreamFault::Write)));
    assert!(group.is_over());
    let mut group = Group::new(GroupPolicy::FirstExit);
    assert!(group.pump_ended(Stream::Stderr, Outcome::Failed(StreamFault::Read)));
}

#[test]
fn cancellation_ends_the_group() {
    let mut group = Group::new(GroupPolicy::AllExit);
    group.cancel();
    assert!(group.is_over());
    group.cancel();
    assert!(group.is_over());
    assert!(group.pump_ended(Stream::Stdin, Outcome::Cancelled));
}

#[test]
fn exit_code_zero_is_not_reported() {
    assert!(exit_report(0, b"left over", b"more").is_none());
}

#[test]
fn nonzero_exit_is_reported_with_what_was_left() {
    let report = exit_report(2, b"", b"gopls: invalid header line \"Hello world\"\n").unwrap();
    assert_eq!(report.code, 2);
    assert_eq!(report.stdout, None);
    assert_eq!(
        report.stderr,
        Some("gopls: invalid header line \"Hello world\"\n".to_string())
    );
    let report = exit_report(-1, &[0x66, 0xff], b"").unwrap();
    assert_eq!(report.code, -1);
    assert_eq!(report.stdout, Some("f\u{FFFD}".to_string()));
    assert_eq!(report.stderr, None);
}

#[test]
fn remaining_text_is_none_for_nothing() {
    assert_eq!(remaining(b""), None);
    assert_eq!(remaining(b"x"), Some("x".to_string()));
}
